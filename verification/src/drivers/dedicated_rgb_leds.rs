//! The three dedicated LEDs (red, green, blue) and their animations.
//!
//! Each animation is a fixed plan of actions: switch one LED on or off, or
//! wait a number of milliseconds.  The driver performs the actions in order;
//! this module states every plan and hands out its actions one by one.
use vstd::prelude::*;
use vstd::arithmetic::div_mod::lemma_fundamental_div_mod_converse;

verus! {

/// One of the three LEDs.  Physical layout, top to bottom: green, blue, red.
#[derive(Clone, Copy, Debug, PartialEq, Eq, Structural)]
pub enum Led {
    Red,
    Green,
    Blue,
}

/// One step of an animation.
#[derive(Clone, Copy, Debug, PartialEq, Eq, Structural)]
pub enum LedAction {
    /// Drive one LED high (`on`) or low.
    Switch { led: Led, on: bool },
    /// Sleep for `ms` milliseconds.
    Wait { ms: u64 },
}

/// The animations the board plays.
#[derive(Clone, Copy, Debug, PartialEq, Eq, Structural)]
pub enum Animation {
    /// Green, blue, red come on one by one, then go off in the same order.
    BlinkCascade,
    /// Knight Rider / Larson scanner: one LED sweeps back and forth,
    /// G -> B -> R -> B -> G -> B -> R -> B -> ..., one sweep (G, B, R, B) per cycle.
    LarsonScanner { cycles: u32 },
    /// Two adjacent LEDs chase top to bottom: GB -> BR -> RG -> GB ...
    Snake { cycles: u32 },
    /// The LEDs count 0..7 in binary (red = lsb, green, blue = msb).
    BinaryCount { cycles: u32 },
    /// Larson (5 cycles), then snake (3 cycles), then one binary count.
    Full,
}

pub open spec fn switch(led: Led, on: bool) -> LedAction {
    LedAction::Switch { led, on }
}

pub open spec fn wait(ms: u64) -> LedAction {
    LedAction::Wait { ms }
}

/// `s` played `n` times in a row.
pub open spec fn repeat(s: Seq<LedAction>, n: nat) -> Seq<LedAction> {
    Seq::new(n * s.len(), |i: int| s[i % (s.len() as int)])
}

/// All three LEDs switched off: red, green, blue.
pub open spec fn all_off() -> Seq<LedAction> {
    seq![switch(Led::Red, false), switch(Led::Green, false), switch(Led::Blue, false)]
}

pub open spec fn blink_cascade_plan(d: u64) -> Seq<LedAction> {
    seq![
        switch(Led::Green, true),
        wait(d),
        switch(Led::Blue, true),
        wait(d),
        switch(Led::Red, true),
        wait(d),
        switch(Led::Green, false),
        wait(d),
        switch(Led::Blue, false),
        wait(d),
        switch(Led::Red, false),
        wait(d),
    ]
}

/// One LED lit for one delay.
pub open spec fn flash(led: Led, d: u64) -> Seq<LedAction> {
    seq![switch(led, true), wait(d), switch(led, false)]
}

/// One back-and-forth sweep of the scanner: green, blue, red, blue.  The
/// next sweep opens with green again, so each end is lit once per pass.
pub open spec fn larson_sweep(d: u64) -> Seq<LedAction> {
    flash(Led::Green, d) + flash(Led::Blue, d) + flash(Led::Red, d) + flash(Led::Blue, d)
}

/// The LED the scanner lights during its `k`-th flash: G, B, R, B, G, ...
pub open spec fn sweep_led(k: int) -> Led {
    let r = k % 4;
    if r == 0 {
        Led::Green
    } else if r == 1 {
        Led::Blue
    } else if r == 2 {
        Led::Red
    } else {
        Led::Blue
    }
}

/// Whether two LEDs sit next to each other (top to bottom: green, blue, red).
pub open spec fn adjacent(a: Led, b: Led) -> bool {
    (a == Led::Green && b == Led::Blue) || (a == Led::Blue && b == Led::Green) || (a == Led::Blue
        && b == Led::Red) || (a == Led::Red && b == Led::Blue)
}

pub open spec fn larson_plan(d: u64, cycles: u32) -> Seq<LedAction> {
    repeat(larson_sweep(d), cycles as nat)
}

/// One round of the snake: blue+red, red+green, then green+blue again.
pub open spec fn snake_cycle(d: u64) -> Seq<LedAction> {
    seq![
        wait(d),
        switch(Led::Green, false),
        switch(Led::Red, true),
        wait(d),
        switch(Led::Blue, false),
        switch(Led::Green, true),
        wait(d),
        switch(Led::Red, false),
        switch(Led::Blue, true),
    ]
}

pub open spec fn snake_plan(d: u64, cycles: u32) -> Seq<LedAction> {
    seq![switch(Led::Green, true), switch(Led::Blue, true)] + repeat(snake_cycle(d), cycles as nat)
        + all_off()
}

/// Shows `n` in binary (red = bit 0, green = bit 1, blue = bit 2), then waits.
pub open spec fn show_count(d: u64, n: u8) -> Seq<LedAction> {
    seq![
        switch(Led::Red, n & 1 != 0),
        switch(Led::Green, n & 2 != 0),
        switch(Led::Blue, n & 4 != 0),
        wait(d),
    ]
}

/// Shows 0, 1, ..., 7 in turn.
pub open spec fn count_cycle(d: u64) -> Seq<LedAction> {
    Seq::new(32, |i: int| show_count(d, (i / 4) as u8)[i % 4])
}

pub open spec fn binary_count_plan(d: u64, cycles: u32) -> Seq<LedAction> {
    repeat(count_cycle(d), cycles as nat) + all_off()
}

pub open spec fn full_plan(d: u64) -> Seq<LedAction> {
    larson_plan(d, 5) + snake_plan(d, 3) + binary_count_plan(d, 1)
}

impl Animation {
    /// The actions of the animation with delay `d` between its frames.
    pub open spec fn plan(self, d: u64) -> Seq<LedAction> {
        match self {
            Animation::BlinkCascade => blink_cascade_plan(d),
            Animation::LarsonScanner { cycles } => larson_plan(d, cycles),
            Animation::Snake { cycles } => snake_plan(d, cycles),
            Animation::BinaryCount { cycles } => binary_count_plan(d, cycles),
            Animation::Full => full_plan(d),
        }
    }
}

/// Action `j` of the blink cascade.
fn blink_cascade_action(d: u64, j: u64) -> (a: LedAction)
    requires
        j < 12,
    ensures
        a == blink_cascade_plan(d)[j as int],
{
    match j {
        0 => LedAction::Switch { led: Led::Green, on: true },
        1 => LedAction::Wait { ms: d },
        2 => LedAction::Switch { led: Led::Blue, on: true },
        3 => LedAction::Wait { ms: d },
        4 => LedAction::Switch { led: Led::Red, on: true },
        5 => LedAction::Wait { ms: d },
        6 => LedAction::Switch { led: Led::Green, on: false },
        7 => LedAction::Wait { ms: d },
        8 => LedAction::Switch { led: Led::Blue, on: false },
        9 => LedAction::Wait { ms: d },
        10 => LedAction::Switch { led: Led::Red, on: false },
        _ => LedAction::Wait { ms: d },
    }
}

/// Action `j` of one scanner sweep.
fn larson_sweep_action(d: u64, j: u64) -> (a: LedAction)
    requires
        j < 12,
    ensures
        a == larson_sweep(d)[j as int],
{
    match j {
        0 => LedAction::Switch { led: Led::Green, on: true },
        1 => LedAction::Wait { ms: d },
        2 => LedAction::Switch { led: Led::Green, on: false },
        3 => LedAction::Switch { led: Led::Blue, on: true },
        4 => LedAction::Wait { ms: d },
        5 => LedAction::Switch { led: Led::Blue, on: false },
        6 => LedAction::Switch { led: Led::Red, on: true },
        7 => LedAction::Wait { ms: d },
        8 => LedAction::Switch { led: Led::Red, on: false },
        9 => LedAction::Switch { led: Led::Blue, on: true },
        10 => LedAction::Wait { ms: d },
        _ => LedAction::Switch { led: Led::Blue, on: false },
    }
}

/// Action `j` of one snake round.
fn snake_cycle_action(d: u64, j: u64) -> (a: LedAction)
    requires
        j < 9,
    ensures
        a == snake_cycle(d)[j as int],
{
    match j {
        0 => LedAction::Wait { ms: d },
        1 => LedAction::Switch { led: Led::Green, on: false },
        2 => LedAction::Switch { led: Led::Red, on: true },
        3 => LedAction::Wait { ms: d },
        4 => LedAction::Switch { led: Led::Blue, on: false },
        5 => LedAction::Switch { led: Led::Green, on: true },
        6 => LedAction::Wait { ms: d },
        7 => LedAction::Switch { led: Led::Red, on: false },
        _ => LedAction::Switch { led: Led::Blue, on: true },
    }
}

/// Action `j` of switching everything off.
fn all_off_action(j: u64) -> (a: LedAction)
    requires
        j < 3,
    ensures
        a == all_off()[j as int],
{
    match j {
        0 => LedAction::Switch { led: Led::Red, on: false },
        1 => LedAction::Switch { led: Led::Green, on: false },
        _ => LedAction::Switch { led: Led::Blue, on: false },
    }
}

/// Action `k` of showing `n` in binary.
fn show_count_action(d: u64, n: u8, k: u64) -> (a: LedAction)
    requires
        k < 4,
    ensures
        a == show_count(d, n)[k as int],
{
    match k {
        0 => LedAction::Switch { led: Led::Red, on: n & 1 != 0 },
        1 => LedAction::Switch { led: Led::Green, on: n & 2 != 0 },
        2 => LedAction::Switch { led: Led::Blue, on: n & 4 != 0 },
        _ => LedAction::Wait { ms: d },
    }
}

impl Animation {
    /// Action number `step` of the animation with delay `d`, or `None` once
    /// the animation is over.
    pub fn action_at(&self, d: u64, step: u64) -> (a: Option<LedAction>)
        ensures
            a == (if step < self.plan(d).len() {
                Some(self.plan(d)[step as int])
            } else {
                None
            }),
    {
        match self {
            Animation::BlinkCascade => {
                if step < 12 {
                    Some(blink_cascade_action(d, step))
                } else {
                    None
                }
            },
            Animation::LarsonScanner { cycles } => larson_action(d, *cycles, step),
            Animation::Snake { cycles } => snake_action(d, *cycles, step),
            Animation::BinaryCount { cycles } => binary_count_action(d, *cycles, step),
            Animation::Full => {
                let larson_len: u64 = 5 * 12;
                let snake_len: u64 = 2 + 3 * 9 + 3;
                if step < larson_len {
                    larson_action(d, 5, step)
                } else if step < larson_len + snake_len {
                    snake_action(d, 3, step - larson_len)
                } else {
                    binary_count_action(d, 1, step - larson_len - snake_len)
                }
            },
        }
    }
}

/// Action `step` of the scanner.
fn larson_action(d: u64, cycles: u32, step: u64) -> (a: Option<LedAction>)
    ensures
        a == (if step < larson_plan(d, cycles).len() {
            Some(larson_plan(d, cycles)[step as int])
        } else {
            None
        }),
{
    let len: u64 = cycles as u64 * 12;
    if step < len {
        Some(larson_sweep_action(d, step % 12))
    } else {
        None
    }
}

/// Action `step` of the snake.
fn snake_action(d: u64, cycles: u32, step: u64) -> (a: Option<LedAction>)
    ensures
        a == (if step < snake_plan(d, cycles).len() {
            Some(snake_plan(d, cycles)[step as int])
        } else {
            None
        }),
{
    let body: u64 = cycles as u64 * 9;
    if step == 0 {
        Some(LedAction::Switch { led: Led::Green, on: true })
    } else if step == 1 {
        Some(LedAction::Switch { led: Led::Blue, on: true })
    } else if step < 2 + body {
        Some(snake_cycle_action(d, (step - 2) % 9))
    } else if step < 2 + body + 3 {
        Some(all_off_action(step - 2 - body))
    } else {
        None
    }
}

/// Action `step` of the binary count.
fn binary_count_action(d: u64, cycles: u32, step: u64) -> (a: Option<LedAction>)
    ensures
        a == (if step < binary_count_plan(d, cycles).len() {
            Some(binary_count_plan(d, cycles)[step as int])
        } else {
            None
        }),
{
    let body: u64 = cycles as u64 * 32;
    if step < body {
        let j = step % 32;
        let n: u8 = (j / 4) as u8;
        Some(show_count_action(d, n, j % 4))
    } else if step < body + 3 {
        Some(all_off_action(step - body))
    } else {
        None
    }
}


/// Plays one animation action by action.
#[derive(Clone, Copy, Debug, PartialEq, Eq, Structural)]
pub struct AnimationPlayer {
    pub animation: Animation,
    pub delay_ms: u64,
    /// Index of the next action to hand out.
    pub step: u64,
}

impl AnimationPlayer {
    /// A player at the start of `animation`, with `delay_ms` between frames.
    pub fn new(animation: Animation, delay_ms: u64) -> (p: AnimationPlayer)
        ensures
            p == (AnimationPlayer { animation, delay_ms, step: 0 }),
    {
        AnimationPlayer { animation, delay_ms, step: 0 }
    }

    /// Hands out the next action and moves past it; `None` once the
    /// animation is over, and then the player stays where it is.
    pub fn next(&mut self) -> (a: Option<LedAction>)
        ensures
            final(self).animation == old(self).animation,
            final(self).delay_ms == old(self).delay_ms,
            a == (if old(self).step < old(self).animation.plan(old(self).delay_ms).len() {
                Some(old(self).animation.plan(old(self).delay_ms)[old(self).step as int])
            } else {
                None
            }),
            final(self).step == (if a is Some {
                old(self).step + 1
            } else {
                old(self).step as int
            }),
    {
        let a = self.animation.action_at(self.delay_ms, self.step);
        if a.is_some() {
            proof {
                lemma_plan_len_bound(self.animation, self.delay_ms);
            }
            self.step = self.step + 1;
        }
        a
    }
}

/// Every plan is shorter than 2^40 actions.
proof fn lemma_plan_len_bound(anim: Animation, d: u64)
    ensures
        anim.plan(d).len() < 0x100_0000_0000,
{
    match anim {
        Animation::LarsonScanner { cycles } => {
            assert(cycles as nat * 12 <= 0xffff_ffff * 12) by (nonlinear_arith)
                requires
                    cycles <= 0xffff_ffff,
            ;
        },
        Animation::Snake { cycles } => {
            assert(cycles as nat * 9 <= 0xffff_ffff * 9) by (nonlinear_arith)
                requires
                    cycles <= 0xffff_ffff,
            ;
        },
        Animation::BinaryCount { cycles } => {
            assert(cycles as nat * 32 <= 0xffff_ffff * 32) by (nonlinear_arith)
                requires
                    cycles <= 0xffff_ffff,
            ;
        },
        _ => {},
    }
}


/// Which LEDs are lit.
#[derive(Clone, Copy, Debug, PartialEq, Eq, Structural)]
pub struct LedLevels {
    pub red: bool,
    pub green: bool,
    pub blue: bool,
}

/// All three LEDs off, as the driver starts them.
pub open spec fn dark() -> LedLevels {
    LedLevels { red: false, green: false, blue: false }
}

/// The LEDs after one action.
pub open spec fn apply_action(l: LedLevels, a: LedAction) -> LedLevels {
    match a {
        LedAction::Switch { led, on } => match led {
            Led::Red => LedLevels { red: on, ..l },
            Led::Green => LedLevels { green: on, ..l },
            Led::Blue => LedLevels { blue: on, ..l },
        },
        LedAction::Wait { .. } => l,
    }
}

/// The LEDs after a sequence of actions, starting from `l`.
pub open spec fn levels_after(l: LedLevels, acts: Seq<LedAction>) -> LedLevels
    decreases acts.len(),
{
    if acts.len() == 0 {
        l
    } else {
        apply_action(levels_after(l, acts.drop_last()), acts.last())
    }
}

/// How many LEDs are lit.
pub open spec fn lit_count(l: LedLevels) -> int {
    (if l.red { 1int } else { 0 }) + (if l.green { 1int } else { 0 }) + (if l.blue {
        1int
    } else {
        0
    })
}

/// Whether, playing `plan` from `start`, the LEDs satisfy `p` during every wait.
#[verifier::opaque]
pub open spec fn at_every_wait(
    start: LedLevels,
    plan: Seq<LedAction>,
    p: spec_fn(LedLevels) -> bool,
) -> bool {
    forall|i: int|
        #![trigger plan[i]]
        0 <= i < plan.len() && plan[i] is Wait ==> p(levels_after(start, plan.take(i)))
}

impl LedLevels {
    /// All LEDs off.
    pub fn dark() -> (l: LedLevels)
        ensures
            l == dark(),
    {
        LedLevels { red: false, green: false, blue: false }
    }

    /// The LEDs after performing `a`.
    pub fn apply(&self, a: LedAction) -> (l: LedLevels)
        ensures
            l == apply_action(*self, a),
    {
        match a {
            LedAction::Switch { led, on } => match led {
                Led::Red => LedLevels { red: on, ..*self },
                Led::Green => LedLevels { green: on, ..*self },
                Led::Blue => LedLevels { blue: on, ..*self },
            },
            LedAction::Wait { .. } => *self,
        }
    }
}

/// Playing `a` then `b` is playing `a + b`.
proof fn lemma_levels_append(l: LedLevels, a: Seq<LedAction>, b: Seq<LedAction>)
    ensures
        levels_after(l, a + b) == levels_after(levels_after(l, a), b),
    decreases b.len(),
{
    if b.len() == 0 {
        assert(a + b =~= a);
    } else {
        lemma_levels_append(l, a, b.drop_last());
        assert((a + b).drop_last() =~= a + b.drop_last());
        assert((a + b).last() == b.last());
    }
}

/// The waits of `a + b` are those of `a`, then those of `b` played from
/// where `a` left the LEDs.
proof fn lemma_waits_append(
    l: LedLevels,
    a: Seq<LedAction>,
    b: Seq<LedAction>,
    p: spec_fn(LedLevels) -> bool,
)
    requires
        at_every_wait(l, a, p),
        at_every_wait(levels_after(l, a), b, p),
    ensures
        at_every_wait(l, a + b, p),
{
    reveal(at_every_wait);
    let ab = a + b;
    assert forall|i: int| 0 <= i < ab.len() && #[trigger] ab[i] is Wait implies p(
        levels_after(l, ab.take(i)),
    ) by {
        if i < a.len() {
            assert(ab.take(i) =~= a.take(i));
            assert(ab[i] == a[i]);
        } else {
            let j = i - a.len();
            assert(ab.take(i) =~= a + b.take(j));
            assert(ab[i] == b[j]);
            lemma_levels_append(l, a, b.take(j));
        }
    }
}

/// One more round of `x` is `x` appended.
proof fn lemma_repeat_succ(x: Seq<LedAction>, n: nat)
    requires
        x.len() > 0,
    ensures
        repeat(x, n + 1) =~= repeat(x, n) + x,
{
    let len = x.len() as int;
    assert((n + 1) * x.len() == n * x.len() + x.len()) by (nonlinear_arith);
    assert forall|i: int| 0 <= i < repeat(x, n + 1).len() implies #[trigger] repeat(x, n + 1)[i]
        == (repeat(x, n) + x)[i] by {
        if i >= n * len {
            lemma_fundamental_div_mod_converse(i, len, n as int, i - n * len);
        }
    }
}

/// A round that brings the LEDs back to where it started, and keeps `p`
/// during its waits, does so however often it is repeated.
proof fn lemma_repeat_cycle(
    l: LedLevels,
    x: Seq<LedAction>,
    n: nat,
    p: spec_fn(LedLevels) -> bool,
)
    requires
        x.len() > 0,
        levels_after(l, x) == l,
        at_every_wait(l, x, p),
    ensures
        levels_after(l, repeat(x, n)) == l,
        at_every_wait(l, repeat(x, n), p),
    decreases n,
{
    if n == 0 {
        let r0 = repeat(x, 0);
        assert(r0.len() == 0);
        assert(r0 =~= Seq::<LedAction>::empty());
        reveal(at_every_wait);
    } else {
        let m = (n - 1) as nat;
        let r = repeat(x, m);
        lemma_repeat_cycle(l, x, m, p);
        lemma_repeat_succ(x, m);
        lemma_levels_append(l, r, x);
        lemma_waits_append(l, r, x, p);
        assert(repeat(x, n) == r + x);
    }
}


/// Exactly two LEDs lit.
pub open spec fn two_lit() -> spec_fn(LedLevels) -> bool {
    |l: LedLevels| lit_count(l) == 2
}

/// The LEDs showing `n` (0..7) in binary: red = bit 0, green = bit 1,
/// blue = bit 2.
pub open spec fn binary_levels(n: int) -> LedLevels {
    LedLevels { red: n % 2 == 1, green: (n / 2) % 2 == 1, blue: (n / 4) % 2 == 1 }
}

/// Playing one more action.
proof fn lemma_levels_push(l: LedLevels, s: Seq<LedAction>, a: LedAction)
    ensures
        levels_after(l, s.push(a)) == apply_action(levels_after(l, s), a),
{
    assert(s.push(a).drop_last() =~= s);
}

/// Playing a single action.
proof fn lemma_levels_one(l: LedLevels, a: LedAction)
    ensures
        levels_after(l, seq![a]) == apply_action(l, a),
{
    lemma_levels_push(l, Seq::empty(), a);
    assert(Seq::<LedAction>::empty().push(a) =~= seq![a]);
}

/// Playing three actions.
proof fn lemma_levels_three(l: LedLevels, a: LedAction, b: LedAction, c: LedAction)
    ensures
        levels_after(l, seq![a, b, c]) == apply_action(apply_action(apply_action(l, a), b), c),
{
    lemma_levels_one(l, a);
    lemma_levels_push(l, seq![a], b);
    lemma_levels_push(l, seq![a, b], c);
    assert(seq![a].push(b) =~= seq![a, b]);
    assert(seq![a, b].push(c) =~= seq![a, b, c]);
}

/// A plan without waits satisfies anything at its waits.
proof fn lemma_no_waits(l: LedLevels, plan: Seq<LedAction>, p: spec_fn(LedLevels) -> bool)
    requires
        forall|i: int| 0 <= i < plan.len() ==> #[trigger] plan[i] is Switch,
    ensures
        at_every_wait(l, plan, p),
{
    reveal(at_every_wait);
}

/// Switching everything off leaves the LEDs dark, whatever they were.
proof fn lemma_all_off_dark(l: LedLevels)
    ensures
        levels_after(l, all_off()) == dark(),
        at_every_wait(l, all_off(), two_lit()),
{
    let s = all_off();
    lemma_levels_three(l, switch(Led::Red, false), switch(Led::Green, false), switch(Led::Blue, false));
    lemma_no_waits(l, s, two_lit());
}

/// A flash ends with its LED off and the others as they were.
proof fn lemma_flash(l: LedLevels, led: Led, d: u64)
    ensures
        levels_after(l, flash(led, d)) == apply_action(l, switch(led, false)),
{
    lemma_levels_three(l, switch(led, true), wait(d), switch(led, false));
}

/// One sweep ends dark, whatever the LEDs were.
proof fn lemma_sweep_ends_dark(l: LedLevels, d: u64)
    ensures
        levels_after(l, larson_sweep(d)) == dark(),
{
    let g = flash(Led::Green, d);
    let b = flash(Led::Blue, d);
    let r = flash(Led::Red, d);
    let l1 = levels_after(l, g);
    let l2 = levels_after(l1, b);
    let l3 = levels_after(l2, r);
    lemma_flash(l, Led::Green, d);
    lemma_flash(l1, Led::Blue, d);
    lemma_flash(l2, Led::Red, d);
    lemma_flash(l3, Led::Blue, d);
    lemma_levels_append(l, g, b);
    lemma_levels_append(l, g + b, r);
    lemma_levels_append(l, g + b + r, b);
}

/// Only `led` lit.
pub open spec fn only(led: Led) -> LedLevels {
    apply_action(dark(), switch(led, true))
}

/// The LEDs after the first `n` actions of the scanner, started dark: dark
/// between flashes, otherwise the LED of the current flash alone.
pub open spec fn larson_levels(n: int) -> LedLevels {
    if n % 3 == 0 {
        dark()
    } else {
        only(sweep_led(n / 3))
    }
}

/// Action `j` of a sweep: the `j / 3`-th flash's LED goes on, then a wait,
/// then it goes off.
proof fn lemma_sweep_action(d: u64, j: int)
    requires
        0 <= j < 12,
    ensures
        larson_sweep(d)[j] == (if j % 3 == 0 {
            switch(sweep_led(j / 3), true)
        } else if j % 3 == 1 {
            wait(d)
        } else {
            switch(sweep_led(j / 3), false)
        }),
{
    assert(larson_sweep(d) =~= seq![
        switch(Led::Green, true), wait(d), switch(Led::Green, false),
        switch(Led::Blue, true), wait(d), switch(Led::Blue, false),
        switch(Led::Red, true), wait(d), switch(Led::Red, false),
        switch(Led::Blue, true), wait(d), switch(Led::Blue, false),
    ]);
}

/// Action `i` of the scanner: as action `i % 12` of a sweep, with the flash
/// counted across sweeps.
proof fn lemma_larson_action(d: u64, cycles: u32, i: int)
    requires
        0 <= i < larson_plan(d, cycles).len(),
    ensures
        larson_plan(d, cycles)[i] == (if i % 3 == 0 {
            switch(sweep_led(i / 3), true)
        } else if i % 3 == 1 {
            wait(d)
        } else {
            switch(sweep_led(i / 3), false)
        }),
{
    let q = i / 12;
    let r = i % 12;
    lemma_sweep_action(d, r);
    lemma_fundamental_div_mod_converse(i, 12, q, r);
    lemma_fundamental_div_mod_converse(i, 3, q * 4 + r / 3, r % 3);
    lemma_fundamental_div_mod_converse(q * 4 + r / 3, 4, q, r / 3);
}

/// The exact LEDs after every prefix of the scanner started dark.
proof fn lemma_larson_prefix(d: u64, cycles: u32, n: int)
    requires
        0 <= n <= larson_plan(d, cycles).len(),
    ensures
        levels_after(dark(), larson_plan(d, cycles).take(n)) == larson_levels(n),
    decreases n,
{
    let plan = larson_plan(d, cycles);
    if n == 0 {
        assert(plan.take(0) =~= Seq::<LedAction>::empty());
    } else {
        let m = n - 1;
        lemma_larson_prefix(d, cycles, m);
        assert(plan.take(n) =~= plan.take(m).push(plan[m]));
        lemma_levels_push(dark(), plan.take(m), plan[m]);
        lemma_larson_action(d, cycles, m);
        if m % 3 == 2 {
            lemma_fundamental_div_mod_converse(n, 3, m / 3 + 1, 0);
        } else {
            lemma_fundamental_div_mod_converse(n, 3, m / 3, m % 3 + 1);
        }
    }
}

/// Consecutive flashes of the scanner light different LEDs that sit next to
/// each other.
pub proof fn lemma_sweep_steps_to_neighbour(k: int)
    requires
        k >= 0,
    ensures
        sweep_led(k) != sweep_led(k + 1),
        adjacent(sweep_led(k), sweep_led(k + 1)),
{
    if k % 4 == 3 {
        lemma_fundamental_div_mod_converse(k + 1, 4, k / 4 + 1, 0);
    } else {
        lemma_fundamental_div_mod_converse(k + 1, 4, k / 4, k % 4 + 1);
    }
}

/// Facts about action `i` of the scanner and the wait after it.
proof fn lemma_larson_wait_facts(d: u64, cycles: u32, i: int)
    requires
        0 <= i < larson_plan(d, cycles).len(),
    ensures
        larson_plan(d, cycles)[i] is Wait <==> i % 3 == 1,
        larson_plan(d, cycles)[i] is Wait ==> levels_after(dark(), larson_plan(d, cycles).take(i))
            == only(sweep_led(i / 3)) && lit_count(only(sweep_led(i / 3))) == 1,
        larson_plan(d, cycles)[i] is Wait && i + 3 < larson_plan(d, cycles).len()
            ==> larson_plan(d, cycles)[i + 1] is Switch && larson_plan(d, cycles)[i + 2] is Switch
            && larson_plan(d, cycles)[i + 3] is Wait && (i + 3) / 3 == i / 3 + 1 && sweep_led(i / 3)
            != sweep_led(i / 3 + 1) && adjacent(sweep_led(i / 3), sweep_led(i / 3 + 1)),
{
    lemma_larson_action(d, cycles, i);
    if larson_plan(d, cycles)[i] is Wait {
        lemma_larson_prefix(d, cycles, i);
        if i + 3 < larson_plan(d, cycles).len() {
            lemma_larson_action(d, cycles, i + 1);
            lemma_larson_action(d, cycles, i + 2);
            lemma_larson_action(d, cycles, i + 3);
            lemma_sweep_steps_to_neighbour(i / 3);
        }
    }
}

/// The scanner leaves the LEDs dark: from dark always, from anywhere after
/// at least one sweep.
proof fn lemma_larson_ends_dark(start: LedLevels, d: u64, cycles: u32)
    ensures
        levels_after(dark(), larson_plan(d, cycles)) == dark(),
        cycles > 0 ==> levels_after(start, larson_plan(d, cycles)) == dark(),
{
    let plan = larson_plan(d, cycles);
    lemma_larson_prefix(d, cycles, plan.len() as int);
    assert(plan.take(plan.len() as int) =~= plan);
    assert(plan.len() == cycles * 12);
    lemma_fundamental_div_mod_converse(plan.len() as int, 3, cycles * 4, 0);
    if cycles > 0 {
        let x = larson_sweep(d);
        let m = (cycles - 1) as nat;
        lemma_repeat_succ(x, m);
        lemma_levels_append(start, repeat(x, m), x);
        lemma_sweep_ends_dark(levels_after(start, repeat(x, m)), d);
    }
}

/// The Larson scanner, started with the LEDs dark: after any number of its
/// actions at most one LED is lit (exactly `larson_levels`); it waits at
/// every third action, each time with exactly the LED of the current flash
/// lit; the next wait comes three actions later, with a different LED next
/// to it lit; and it leaves the LEDs dark.  Started from any LEDs, at least
/// one sweep leaves them dark.
pub proof fn lemma_larson_sweeps(start: LedLevels, d: u64, cycles: u32)
    ensures
        forall|n: int|
            0 <= n <= larson_plan(d, cycles).len() ==> #[trigger] levels_after(
                dark(),
                larson_plan(d, cycles).take(n),
            ) == larson_levels(n) && lit_count(larson_levels(n)) <= 1,
        forall|i: int|
            #![trigger larson_plan(d, cycles)[i]]
            0 <= i < larson_plan(d, cycles).len() ==> (larson_plan(d, cycles)[i] is Wait <==> i % 3
                == 1),
        forall|i: int|
            #![trigger larson_plan(d, cycles)[i]]
            0 <= i < larson_plan(d, cycles).len() && larson_plan(d, cycles)[i] is Wait
                ==> levels_after(dark(), larson_plan(d, cycles).take(i)) == only(sweep_led(i / 3))
                && lit_count(only(sweep_led(i / 3))) == 1,
        forall|i: int|
            #![trigger larson_plan(d, cycles)[i]]
            0 <= i && i + 3 < larson_plan(d, cycles).len() && larson_plan(d, cycles)[i] is Wait
                ==> larson_plan(d, cycles)[i + 1] is Switch && larson_plan(d, cycles)[i + 2] is Switch
                && larson_plan(d, cycles)[i + 3] is Wait && (i + 3) / 3 == i / 3 + 1 && sweep_led(
                i / 3,
            ) != sweep_led(i / 3 + 1) && adjacent(sweep_led(i / 3), sweep_led(i / 3 + 1)),
        levels_after(dark(), larson_plan(d, cycles)) == dark(),
        cycles > 0 ==> levels_after(start, larson_plan(d, cycles)) == dark(),
{
    let plan = larson_plan(d, cycles);
    assert forall|n: int| 0 <= n <= plan.len() implies #[trigger] levels_after(dark(), plan.take(n))
        == larson_levels(n) && lit_count(larson_levels(n)) <= 1 by {
        lemma_larson_prefix(d, cycles, n);
    }
    assert forall|i: int| #![trigger plan[i]] 0 <= i < plan.len() implies {
        &&& (plan[i] is Wait <==> i % 3 == 1)
        &&& plan[i] is Wait ==> levels_after(dark(), plan.take(i)) == only(sweep_led(i / 3))
            && lit_count(only(sweep_led(i / 3))) == 1
        &&& plan[i] is Wait && i + 3 < plan.len() ==> plan[i + 1] is Switch && plan[i + 2] is Switch
            && plan[i + 3] is Wait && (i + 3) / 3 == i / 3 + 1 && sweep_led(i / 3) != sweep_led(i / 3
            + 1) && adjacent(sweep_led(i / 3), sweep_led(i / 3 + 1))
    } by {
        lemma_larson_wait_facts(d, cycles, i);
    }
    lemma_larson_ends_dark(start, d, cycles);
}

/// A wait followed by two switches keeps `p` at its one wait when `p`
/// holds where it starts.
proof fn lemma_wait_then_two(l: LedLevels, d: u64, a: LedAction, b: LedAction, p: spec_fn(LedLevels) -> bool)
    requires
        a is Switch,
        b is Switch,
        p(l),
    ensures
        at_every_wait(l, seq![wait(d), a, b], p),
        levels_after(l, seq![wait(d), a, b]) == apply_action(apply_action(l, a), b),
{
    reveal(at_every_wait);
    let t = seq![wait(d), a, b];
    lemma_levels_three(l, wait(d), a, b);
    assert forall|i: int| 0 <= i < t.len() && #[trigger] t[i] is Wait implies p(
        levels_after(l, t.take(i)),
    ) by {
        assert(i == 0);
        assert(t.take(0) =~= Seq::<LedAction>::empty());
    }
}

/// Green and blue lit, red off: where each snake round starts and ends.
pub open spec fn green_blue() -> LedLevels {
    LedLevels { red: false, green: true, blue: true }
}

/// One snake round from green+blue has two LEDs lit at each wait and comes
/// back to green+blue.
proof fn lemma_snake_cycle(d: u64)
    ensures
        levels_after(green_blue(), snake_cycle(d)) == green_blue(),
        at_every_wait(green_blue(), snake_cycle(d), two_lit()),
{
    let t1 = seq![wait(d), switch(Led::Green, false), switch(Led::Red, true)];
    let t2 = seq![wait(d), switch(Led::Blue, false), switch(Led::Green, true)];
    let t3 = seq![wait(d), switch(Led::Red, false), switch(Led::Blue, true)];
    assert(snake_cycle(d) =~= t1 + t2 + t3);
    let l0 = green_blue();
    lemma_wait_then_two(l0, d, switch(Led::Green, false), switch(Led::Red, true), two_lit());
    let l1 = levels_after(l0, t1);
    lemma_wait_then_two(l1, d, switch(Led::Blue, false), switch(Led::Green, true), two_lit());
    let l2 = levels_after(l1, t2);
    lemma_wait_then_two(l2, d, switch(Led::Red, false), switch(Led::Blue, true), two_lit());
    lemma_levels_append(l0, t1, t2);
    lemma_levels_append(l0, t1 + t2, t3);
    lemma_waits_append(l0, t1, t2, two_lit());
    lemma_waits_append(l0, t1 + t2, t3, two_lit());
}

/// The snake, started with the LEDs dark, has exactly two LEDs lit during
/// every wait; from any LEDs it ends with all of them dark.
pub proof fn lemma_snake_two_lit(start: LedLevels, d: u64, cycles: u32)
    ensures
        forall|i: int|
            #![trigger snake_plan(d, cycles)[i]]
            0 <= i < snake_plan(d, cycles).len() && snake_plan(d, cycles)[i] is Wait ==> lit_count(
                levels_after(dark(), snake_plan(d, cycles).take(i)),
            ) == 2,
        levels_after(start, snake_plan(d, cycles)) == dark(),
{
    let head = seq![switch(Led::Green, true), switch(Led::Blue, true)];
    let body = repeat(snake_cycle(d), cycles as nat);
    assert(snake_plan(d, cycles) == head + body + all_off());
    assert(head =~= seq![switch(Led::Green, true)].push(switch(Led::Blue, true)));
    lemma_levels_one(dark(), switch(Led::Green, true));
    lemma_levels_push(dark(), seq![switch(Led::Green, true)], switch(Led::Blue, true));
    assert(levels_after(dark(), head) == green_blue());
    lemma_no_waits(dark(), head, two_lit());
    lemma_snake_cycle(d);
    lemma_repeat_cycle(green_blue(), snake_cycle(d), cycles as nat, two_lit());
    lemma_waits_append(dark(), head, body, two_lit());
    lemma_levels_append(dark(), head, body);
    lemma_all_off_dark(green_blue());
    lemma_waits_append(dark(), head + body, all_off(), two_lit());
    lemma_levels_append(start, head + body, all_off());
    lemma_all_off_dark(levels_after(start, head + body));
    reveal(at_every_wait);
}


/// The three mask tests of `show_count` read the three binary digits.
proof fn lemma_count_bits(n: u8)
    requires
        n < 8,
    ensures
        (n & 1 != 0) == (n % 2 == 1),
        (n & 2 != 0) == ((n / 2) % 2 == 1),
        (n & 4 != 0) == ((n / 4) % 2 == 1),
{
    assert((n & 1 != 0) == (n % 2 == 1)) by (bit_vector)
        requires
            n < 8,
    ;
    assert((n & 2 != 0) == ((n / 2) % 2 == 1)) by (bit_vector)
        requires
            n < 8,
    ;
    assert((n & 4 != 0) == ((n / 4) % 2 == 1)) by (bit_vector)
        requires
            n < 8,
    ;
}

/// Action `i` of the counting part of the binary count.
proof fn lemma_count_action(d: u64, cycles: u32, i: int)
    requires
        0 <= i < cycles * 32,
    ensures
        binary_count_plan(d, cycles)[i] == show_count(d, ((i % 32) / 4) as u8)[(i % 32) % 4],
{
    let body = repeat(count_cycle(d), cycles as nat);
    assert(binary_count_plan(d, cycles)[i] == body[i]);
}

/// The binary count, from any LEDs, shows during its `k`-th wait the number
/// `k` modulo 8 in binary (red = bit 0, green = bit 1, blue = bit 2), and
/// ends with all LEDs dark.
pub proof fn lemma_binary_count_shows(start: LedLevels, d: u64, cycles: u32)
    ensures
        forall|i: int|
            #![trigger binary_count_plan(d, cycles)[i]]
            0 <= i < binary_count_plan(d, cycles).len() && binary_count_plan(d, cycles)[i] is Wait
                ==> levels_after(start, binary_count_plan(d, cycles).take(i)) == binary_levels(
                (i / 4) % 8,
            ),
        levels_after(start, binary_count_plan(d, cycles)) == dark(),
{
    let plan = binary_count_plan(d, cycles);
    let body = repeat(count_cycle(d), cycles as nat);
    let body_len = cycles * 32;
    assert forall|i: int|
        #![trigger plan[i]]
        0 <= i < plan.len() && plan[i] is Wait implies levels_after(start, plan.take(i))
        == binary_levels((i / 4) % 8) by {
        if i >= body_len {
            assert(plan[i] == all_off()[i - body_len]);
        } else {
            let a = i / 32;
            let j = i % 32;
            let q = j / 4;
            lemma_count_action(d, cycles, i);
            assert(j % 4 == 3);
            assert(i == a * 32 + j);
            assert(j == q * 4 + 3);
            lemma_fundamental_div_mod_converse(i - 3, 32, a, j - 3);
            lemma_fundamental_div_mod_converse(i - 2, 32, a, j - 2);
            lemma_fundamental_div_mod_converse(i - 1, 32, a, j - 1);
            lemma_fundamental_div_mod_converse(j - 3, 4, q, 0);
            lemma_fundamental_div_mod_converse(j - 2, 4, q, 1);
            lemma_fundamental_div_mod_converse(j - 1, 4, q, 2);
            lemma_count_action(d, cycles, i - 3);
            lemma_count_action(d, cycles, i - 2);
            lemma_count_action(d, cycles, i - 1);
            lemma_fundamental_div_mod_converse(i, 4, a * 8 + q, 3);
            lemma_fundamental_div_mod_converse(a * 8 + q, 8, a, q);
            let n = q as u8;
            lemma_count_bits(n);
            let pre = plan.take(i - 3);
            assert(plan.take(i) =~= pre.push(plan[i - 3]).push(plan[i - 2]).push(plan[i - 1]));
            lemma_levels_push(start, pre, plan[i - 3]);
            lemma_levels_push(start, pre.push(plan[i - 3]), plan[i - 2]);
            lemma_levels_push(start, pre.push(plan[i - 3]).push(plan[i - 2]), plan[i - 1]);
        }
    }
    lemma_levels_append(start, body, all_off());
    lemma_all_off_dark(levels_after(start, body));
}


/// Lit LEDs during the waits of the blink cascade started dark: 1, 2, 3,
/// then 2, 1, 0.
pub open spec fn cascade_lit(i: int) -> int {
    if i < 6 {
        (i + 1) / 2
    } else {
        (11 - i) / 2
    }
}

/// The blink cascade, started dark, lights green, blue, red one more at each
/// wait and then puts them out one fewer at each wait; from any LEDs it ends
/// with all of them dark.
pub proof fn lemma_blink_cascade(start: LedLevels, d: u64)
    ensures
        forall|i: int|
            #![trigger blink_cascade_plan(d)[i]]
            0 <= i < blink_cascade_plan(d).len() && blink_cascade_plan(d)[i] is Wait ==> lit_count(
                levels_after(dark(), blink_cascade_plan(d).take(i)),
            ) == cascade_lit(i),
        levels_after(start, blink_cascade_plan(d)) == dark(),
{
    let plan = blink_cascade_plan(d);
    let l = start;
    assert(plan.take(0) =~= Seq::<LedAction>::empty());
    assert(plan.take(1) =~= plan.take(0).push(plan[0]));
    lemma_levels_push(l, plan.take(0), plan[0]);
    assert(plan.take(2) =~= plan.take(1).push(plan[1]));
    lemma_levels_push(l, plan.take(1), plan[1]);
    assert(plan.take(3) =~= plan.take(2).push(plan[2]));
    lemma_levels_push(l, plan.take(2), plan[2]);
    assert(plan.take(4) =~= plan.take(3).push(plan[3]));
    lemma_levels_push(l, plan.take(3), plan[3]);
    assert(plan.take(5) =~= plan.take(4).push(plan[4]));
    lemma_levels_push(l, plan.take(4), plan[4]);
    assert(plan.take(6) =~= plan.take(5).push(plan[5]));
    lemma_levels_push(l, plan.take(5), plan[5]);
    assert(plan.take(7) =~= plan.take(6).push(plan[6]));
    lemma_levels_push(l, plan.take(6), plan[6]);
    assert(plan.take(8) =~= plan.take(7).push(plan[7]));
    lemma_levels_push(l, plan.take(7), plan[7]);
    assert(plan.take(9) =~= plan.take(8).push(plan[8]));
    lemma_levels_push(l, plan.take(8), plan[8]);
    assert(plan.take(10) =~= plan.take(9).push(plan[9]));
    lemma_levels_push(l, plan.take(9), plan[9]);
    assert(plan.take(11) =~= plan.take(10).push(plan[10]));
    lemma_levels_push(l, plan.take(10), plan[10]);
    assert(plan.take(12) =~= plan.take(11).push(plan[11]));
    lemma_levels_push(l, plan.take(11), plan[11]);
    lemma_levels_push(dark(), plan.take(0), plan[0]);
    lemma_levels_push(dark(), plan.take(1), plan[1]);
    lemma_levels_push(dark(), plan.take(2), plan[2]);
    lemma_levels_push(dark(), plan.take(3), plan[3]);
    lemma_levels_push(dark(), plan.take(4), plan[4]);
    lemma_levels_push(dark(), plan.take(5), plan[5]);
    lemma_levels_push(dark(), plan.take(6), plan[6]);
    lemma_levels_push(dark(), plan.take(7), plan[7]);
    lemma_levels_push(dark(), plan.take(8), plan[8]);
    lemma_levels_push(dark(), plan.take(9), plan[9]);
    lemma_levels_push(dark(), plan.take(10), plan[10]);
    lemma_levels_push(dark(), plan.take(11), plan[11]);
    assert(plan.take(12) =~= plan);
    assert forall|i: int|
        #![trigger plan[i]]
        0 <= i < plan.len() && plan[i] is Wait implies lit_count(levels_after(dark(), plan.take(i)))
        == cascade_lit(i) by {
        assert(i == 1 || i == 3 || i == 5 || i == 7 || i == 9 || i == 11);
    }
}

/// Every animation started dark ends dark, and every one but a scanner of
/// zero sweeps ends dark from any LEDs.
pub proof fn lemma_animation_ends_dark(anim: Animation, start: LedLevels, d: u64)
    ensures
        levels_after(dark(), anim.plan(d)) == dark(),
        !(anim matches Animation::LarsonScanner { cycles } && cycles == 0) ==> levels_after(
            start,
            anim.plan(d),
        ) == dark(),
{
    match anim {
        Animation::BlinkCascade => {
            lemma_blink_cascade(start, d);
            lemma_blink_cascade(dark(), d);
        },
        Animation::LarsonScanner { cycles } => {
            lemma_larson_sweeps(start, d, cycles);
        },
        Animation::Snake { cycles } => {
            lemma_snake_two_lit(start, d, cycles);
            lemma_snake_two_lit(dark(), d, cycles);
        },
        Animation::BinaryCount { cycles } => {
            lemma_binary_count_shows(start, d, cycles);
            lemma_binary_count_shows(dark(), d, cycles);
        },
        Animation::Full => {
            let a = larson_plan(d, 5) + snake_plan(d, 3);
            lemma_levels_append(start, a, binary_count_plan(d, 1));
            lemma_binary_count_shows(levels_after(start, a), d, 1);
            lemma_levels_append(dark(), a, binary_count_plan(d, 1));
            lemma_binary_count_shows(levels_after(dark(), a), d, 1);
        },
    }
}


/// Whether every wait of `plan` lasts exactly `d` milliseconds.
pub open spec fn waits_last(plan: Seq<LedAction>, d: u64) -> bool {
    forall|i: int|
        #![trigger plan[i]]
        0 <= i < plan.len() && plan[i] is Wait ==> plan[i] == (LedAction::Wait { ms: d })
}

/// Every wait of the blink cascade lasts the delay: it waits after each of
/// its six switches, each time for `d`.
proof fn lemma_cascade_waits(d: u64)
    ensures
        waits_last(blink_cascade_plan(d), d),
        forall|i: int|
            #![trigger blink_cascade_plan(d)[i]]
            0 <= i < blink_cascade_plan(d).len() ==> (blink_cascade_plan(d)[i] is Wait <==> i % 2
                == 1),
{
    let plan = blink_cascade_plan(d);
    assert forall|i: int| #![trigger plan[i]] 0 <= i < plan.len() implies (plan[i] is Wait ==> plan[i]
        == (LedAction::Wait { ms: d })) && (plan[i] is Wait <==> i % 2 == 1) by {
        assert(i == 0 || i == 1 || i == 2 || i == 3 || i == 4 || i == 5 || i == 6 || i == 7 || i
            == 8 || i == 9 || i == 10 || i == 11);
    }
}

/// Every wait of the scanner lasts the delay.
proof fn lemma_larson_waits(d: u64, cycles: u32)
    ensures
        waits_last(larson_plan(d, cycles), d),
{
    let plan = larson_plan(d, cycles);
    assert forall|i: int| #![trigger plan[i]] 0 <= i < plan.len() && plan[i] is Wait implies plan[i]
        == (LedAction::Wait { ms: d }) by {
        lemma_larson_action(d, cycles, i);
    }
}

/// Every wait of the snake lasts the delay.
proof fn lemma_snake_waits(d: u64, cycles: u32)
    ensures
        waits_last(snake_plan(d, cycles), d),
{
    let plan = snake_plan(d, cycles);
    let head = seq![switch(Led::Green, true), switch(Led::Blue, true)];
    let body = repeat(snake_cycle(d), cycles as nat);
    assert(plan == head + body + all_off());
    assert forall|i: int| #![trigger plan[i]] 0 <= i < plan.len() && plan[i] is Wait implies plan[i]
        == (LedAction::Wait { ms: d }) by {
        if i >= 2 && i < 2 + body.len() {
            let j = (i - 2) % 9;
            assert(plan[i] == snake_cycle(d)[j]);
            assert(j == 0 || j == 1 || j == 2 || j == 3 || j == 4 || j == 5 || j == 6 || j == 7 || j
                == 8);
        } else if i >= 2 + body.len() {
            assert(plan[i] == all_off()[i - 2 - body.len()]);
        }
    }
}

/// Every wait of the binary count lasts the delay: it waits once after
/// showing each number.
proof fn lemma_binary_count_waits(d: u64, cycles: u32)
    ensures
        waits_last(binary_count_plan(d, cycles), d),
        forall|i: int|
            #![trigger binary_count_plan(d, cycles)[i]]
            0 <= i < cycles * 32 ==> (binary_count_plan(d, cycles)[i] is Wait <==> i % 4 == 3),
{
    let plan = binary_count_plan(d, cycles);
    assert forall|i: int| #![trigger plan[i]] 0 <= i < plan.len() && plan[i] is Wait implies plan[i]
        == (LedAction::Wait { ms: d }) by {
        if i < cycles * 32 {
            lemma_count_action(d, cycles, i);
            lemma_fundamental_div_mod_converse(i, 4, (i / 32) * 8 + (i % 32) / 4, (i % 32) % 4);
        } else {
            assert(plan[i] == all_off()[i - cycles * 32]);
        }
    }
    assert forall|i: int| #![trigger plan[i]] 0 <= i < cycles * 32 implies (plan[i] is Wait <==> i
        % 4 == 3) by {
        lemma_count_action(d, cycles, i);
        lemma_fundamental_div_mod_converse(i, 4, (i / 32) * 8 + (i % 32) / 4, (i % 32) % 4);
    }
}

/// The waits of two plans in a row are theirs.
proof fn lemma_waits_concat(a: Seq<LedAction>, b: Seq<LedAction>, d: u64)
    requires
        waits_last(a, d),
        waits_last(b, d),
    ensures
        waits_last(a + b, d),
{
    assert forall|i: int| #![trigger (a + b)[i]] 0 <= i < (a + b).len() && (a + b)[i] is Wait implies (
    a + b)[i] == (LedAction::Wait { ms: d }) by {
        if i < a.len() {
            assert((a + b)[i] == a[i]);
        } else {
            assert((a + b)[i] == b[i - a.len()]);
        }
    }
}

/// Every animation waits exactly the given delay at each of its waits: the
/// delay the driver is asked for is the time each frame stays up.
pub proof fn lemma_waits_last_the_delay(anim: Animation, d: u64)
    ensures
        forall|i: int|
            #![trigger anim.plan(d)[i]]
            0 <= i < anim.plan(d).len() && anim.plan(d)[i] is Wait ==> anim.plan(d)[i] == (
            LedAction::Wait { ms: d }),
{
    match anim {
        Animation::BlinkCascade => lemma_cascade_waits(d),
        Animation::LarsonScanner { cycles } => lemma_larson_waits(d, cycles),
        Animation::Snake { cycles } => lemma_snake_waits(d, cycles),
        Animation::BinaryCount { cycles } => lemma_binary_count_waits(d, cycles),
        Animation::Full => {
            lemma_larson_waits(d, 5);
            lemma_snake_waits(d, 3);
            lemma_binary_count_waits(d, 1);
            lemma_waits_concat(larson_plan(d, 5), snake_plan(d, 3), d);
            lemma_waits_concat(larson_plan(d, 5) + snake_plan(d, 3), binary_count_plan(d, 1), d);
        },
    }
}

/// The blink cascade waits six times, after each switch, and the binary
/// count once per number shown, each time for exactly the delay.
pub proof fn lemma_cascade_and_count_waits(d: u64, cycles: u32)
    ensures
        blink_cascade_plan(d).len() == 12,
        forall|i: int|
            0 <= i < 12 ==> (#[trigger] blink_cascade_plan(d)[i] is Wait <==> i % 2 == 1),
        forall|i: int|
            0 <= i < 12 && i % 2 == 1 ==> #[trigger] blink_cascade_plan(d)[i] == (LedAction::Wait {
                ms: d,
            }),
        binary_count_plan(d, cycles).len() == cycles * 32 + 3,
        forall|i: int|
            0 <= i < cycles * 32 ==> (#[trigger] binary_count_plan(d, cycles)[i] is Wait <==> i % 4
                == 3),
        forall|i: int|
            0 <= i < cycles * 32 && i % 4 == 3 ==> #[trigger] binary_count_plan(d, cycles)[i] == (
            LedAction::Wait { ms: d }),
{
    lemma_cascade_waits(d);
    lemma_binary_count_waits(d, cycles);
}

} // verus!
