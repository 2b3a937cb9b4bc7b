use stm32u083c_dk::drivers::dedicated_rgb_leds::{
    Animation, AnimationPlayer, Led, LedAction, LedLevels,
};

fn on(led: Led) -> LedAction {
    LedAction::Switch { led, on: true }
}

fn off(led: Led) -> LedAction {
    LedAction::Switch { led, on: false }
}

fn wait(ms: u64) -> LedAction {
    LedAction::Wait { ms }
}

fn play(animation: Animation, delay_ms: u64) -> Vec<LedAction> {
    let mut player = AnimationPlayer::new(animation, delay_ms);
    let mut out = Vec::new();
    while let Some(a) = player.next() {
        out.push(a);
    }
    out
}

fn lit(l: LedLevels) -> usize {
    [l.red, l.green, l.blue].iter().filter(|b| **b).count()
}

/// The LEDs during each wait, playing from dark.
fn levels_at_waits(actions: &[LedAction]) -> Vec<LedLevels> {
    let mut l = LedLevels::dark();
    let mut seen = Vec::new();
    for a in actions {
        if let LedAction::Wait { .. } = a {
            seen.push(l);
        }
        l = l.apply(*a);
    }
    seen
}

fn final_levels(start: LedLevels, actions: &[LedAction]) -> LedLevels {
    actions.iter().fold(start, |l, a| l.apply(*a))
}

#[test]
fn blink_cascade_plan() {
    assert_eq!(
        play(Animation::BlinkCascade, 100),
        vec![
            on(Led::Green), wait(100), on(Led::Blue), wait(100), on(Led::Red), wait(100),
            off(Led::Green), wait(100), off(Led::Blue), wait(100), off(Led::Red), wait(100),
        ]
    );
    let counts: Vec<usize> =
        levels_at_waits(&play(Animation::BlinkCascade, 100)).into_iter().map(lit).collect();
    assert_eq!(counts, vec![1, 2, 3, 2, 1, 0]);
}

#[test]
fn larson_sweeps_back_and_forth() {
    let one = play(Animation::LarsonScanner { cycles: 1 }, 7);
    assert_eq!(
        one,
        vec![
            on(Led::Green), wait(7), off(Led::Green), on(Led::Blue), wait(7), off(Led::Blue),
            on(Led::Red), wait(7), off(Led::Red), on(Led::Blue), wait(7), off(Led::Blue),
        ]
    );
    let three = play(Animation::LarsonScanner { cycles: 3 }, 7);
    assert_eq!(three.len(), 36);
    assert_eq!(&three[24..], &one[..]);
    let shown = levels_at_waits(&three);
    assert!(shown.iter().all(|l| lit(*l) == 1));
    let green = LedLevels { red: false, green: true, blue: false };
    let blue = LedLevels { red: false, green: false, blue: true };
    let red = LedLevels { red: true, green: false, blue: false };
    assert_eq!(
        shown,
        vec![green, blue, red, blue, green, blue, red, blue, green, blue, red, blue]
    );
    for pair in shown.windows(2) {
        assert_ne!(pair[0], pair[1]);
    }
    let mut l = LedLevels::dark();
    for a in &three {
        l = l.apply(*a);
        assert!(lit(l) <= 1);
    }
    assert_eq!(l, LedLevels::dark());
    assert_eq!(play(Animation::LarsonScanner { cycles: 0 }, 7), vec![]);
}

#[test]
fn snake_chases_two_leds() {
    let s = play(Animation::Snake { cycles: 1 }, 5);
    assert_eq!(
        s,
        vec![
            on(Led::Green), on(Led::Blue),
            wait(5), off(Led::Green), on(Led::Red),
            wait(5), off(Led::Blue), on(Led::Green),
            wait(5), off(Led::Red), on(Led::Blue),
            off(Led::Red), off(Led::Green), off(Led::Blue),
        ]
    );
    let long = play(Animation::Snake { cycles: 4 }, 5);
    assert_eq!(long.len(), 2 + 36 + 3);
    assert!(levels_at_waits(&long).into_iter().all(|l| lit(l) == 2));
    let all_on = LedLevels { red: true, green: true, blue: true };
    assert_eq!(final_levels(all_on, &long), LedLevels::dark());
}

#[test]
fn binary_count_shows_zero_to_seven() {
    let c = play(Animation::BinaryCount { cycles: 2 }, 3);
    assert_eq!(c.len(), 2 * 32 + 3);
    let shown = levels_at_waits(&c);
    assert_eq!(shown.len(), 16);
    for (k, l) in shown.iter().enumerate() {
        let n = k % 8;
        assert_eq!(*l, LedLevels { red: n & 1 != 0, green: n & 2 != 0, blue: n & 4 != 0 });
    }
    assert_eq!(final_levels(LedLevels::dark(), &c), LedLevels::dark());
}

#[test]
fn full_loop_is_larson_snake_binary() {
    let mut expected = play(Animation::LarsonScanner { cycles: 5 }, 9);
    expected.extend(play(Animation::Snake { cycles: 3 }, 9));
    expected.extend(play(Animation::BinaryCount { cycles: 1 }, 9));
    let full = play(Animation::Full, 9);
    assert_eq!(full, expected);
    let all_on = LedLevels { red: true, green: true, blue: true };
    assert_eq!(final_levels(all_on, &full), LedLevels::dark());
}

#[test]
fn action_at_past_the_end_is_none() {
    assert_eq!(Animation::BlinkCascade.action_at(1, 12), None);
    assert_eq!(Animation::BlinkCascade.action_at(1, 11), Some(wait(1)));
    assert_eq!(Animation::Snake { cycles: 2 }.action_at(1, 2 + 18 + 3), None);
    assert_eq!(Animation::BinaryCount { cycles: 1 }.action_at(1, 34), Some(off(Led::Blue)));
}

#[test]
fn player_stops_at_the_end() {
    let mut p = AnimationPlayer::new(Animation::BlinkCascade, 1);
    for _ in 0..12 {
        assert!(p.next().is_some());
    }
    assert_eq!(p.next(), None);
    assert_eq!(p.step, 12);
    assert_eq!(p.next(), None);
    assert_eq!(p.step, 12);
}
