//! Frame building for the 4-digit seven-segment glass LCD.
//!
//! The controller keeps one 64-bit segment bitmap per COM line; a frame is
//! the four bitmaps, written COM by COM and then submitted.  This module
//! turns a value, or a single COM/SEG probe, into those writes.
use vstd::prelude::*;

verus! {

/// Number of COM lines the glass is driven with (quarter duty).
pub const COM_COUNT: u8 = 4;

/// Number of digit positions on the glass.
pub const DIGIT_COUNT: usize = 4;

/// Number of segments of one digit (a..g).
pub const SEGMENTS_PER_DIGIT: usize = 7;

/// The pattern index that lights nothing.
pub const BLANK: usize = 10;

/// Largest value the four digits can show; larger values are clamped.
pub const DISPLAY_MAX: u32 = 9999;

/// Standard 7-segment encoding of the digits 0..9, and of the blank (index 10).
/// Bit positions: 0=a (top), 1=b (upper right), 2=c (lower right), 3=d (bottom),
/// 4=e (lower left), 5=f (upper left), 6=g (middle).
pub open spec fn seven_seg(digit: int) -> u8 {
    if digit == 0 {
        0b0111111u8
    } else if digit == 1 {
        0b0000110u8
    } else if digit == 2 {
        0b1011011u8
    } else if digit == 3 {
        0b1001111u8
    } else if digit == 4 {
        0b1100110u8
    } else if digit == 5 {
        0b1101101u8
    } else if digit == 6 {
        0b1111101u8
    } else if digit == 7 {
        0b0000111u8
    } else if digit == 8 {
        0b1111111u8
    } else if digit == 9 {
        0b1101111u8
    } else {
        0b0000000u8
    }
}

/// Looks up the segment pattern of a digit (10 is the blank).
pub fn seven_seg_pattern(digit: usize) -> (p: u8)
    requires
        digit <= BLANK,
    ensures
        p == seven_seg(digit as int),
        forall|seg: int|
            0 <= seg < SEGMENTS_PER_DIGIT ==> (#[trigger] (p & (1u8 << (seg as u8))) != 0) == (digit
                != BLANK && glyph_lights(digit as int, seg)),
{
    let p: u8 = match digit {
        0 => 0b0111111u8,
        1 => 0b0000110u8,
        2 => 0b1011011u8,
        3 => 0b1001111u8,
        4 => 0b1100110u8,
        5 => 0b1101101u8,
        6 => 0b1111101u8,
        7 => 0b0000111u8,
        8 => 0b1111111u8,
        9 => 0b1101111u8,
        _ => 0b0000000u8,
    };
    proof {
        assert forall|seg: int| 0 <= seg < SEGMENTS_PER_DIGIT implies (#[trigger] (p & (1u8 << (
        seg as u8))) != 0) == (digit != BLANK && glyph_lights(digit as int, seg)) by {
            lemma_patterns_are_glyphs(digit as int, seg);
        }
    }
    p
}

/// Mapping from digit position (0..=3, left to right) and segment (a..g, as
/// in `seven_seg`) to `(com, seg_bit)` on the controller: lighting segment
/// `seg` of digit `pos` means lighting COM[com] + SEG[seg_bit].
pub open spec fn digit_seg_table() -> Seq<Seq<(u8, u8)>> {
    seq![
        seq![(0u8, 0u8), (0u8, 1u8), (1u8, 0u8), (1u8, 1u8), (2u8, 0u8), (0u8, 2u8), (1u8, 2u8)],
        seq![(0u8, 3u8), (0u8, 4u8), (1u8, 3u8), (1u8, 4u8), (2u8, 1u8), (0u8, 5u8), (1u8, 5u8)],
        seq![(0u8, 6u8), (0u8, 7u8), (1u8, 6u8), (1u8, 7u8), (2u8, 2u8), (0u8, 8u8), (1u8, 8u8)],
        seq![(0u8, 9u8), (0u8, 10u8), (1u8, 9u8), (1u8, 10u8), (2u8, 3u8), (0u8, 11u8), (1u8, 11u8)],
    ]
}

/// Where segment `seg` of digit position `pos` sits on the controller.
pub open spec fn seg_map(pos: int, seg: int) -> (u8, u8) {
    digit_seg_table()[pos][seg]
}

/// Looks up the glass position of one segment of one digit.
pub fn digit_seg_map(pos: usize, seg: usize) -> (m: (u8, u8))
    requires
        pos < DIGIT_COUNT,
        seg < SEGMENTS_PER_DIGIT,
    ensures
        m == seg_map(pos as int, seg as int),
{
    match pos {
        0 => match seg {
            0 => (0, 0),
            1 => (0, 1),
            2 => (1, 0),
            3 => (1, 1),
            4 => (2, 0),
            5 => (0, 2),
            _ => (1, 2),
        },
        1 => match seg {
            0 => (0, 3),
            1 => (0, 4),
            2 => (1, 3),
            3 => (1, 4),
            4 => (2, 1),
            5 => (0, 5),
            _ => (1, 5),
        },
        2 => match seg {
            0 => (0, 6),
            1 => (0, 7),
            2 => (1, 6),
            3 => (1, 7),
            4 => (2, 2),
            5 => (0, 8),
            _ => (1, 8),
        },
        _ => match seg {
            0 => (0, 9),
            1 => (0, 10),
            2 => (1, 9),
            3 => (1, 10),
            4 => (2, 3),
            5 => (0, 11),
            _ => (1, 11),
        },
    }
}

/// The value the display shows for `ms`: clamped to 9999.
pub open spec fn clamped(ms: u32) -> int {
    if ms <= DISPLAY_MAX {
        ms as int
    } else {
        DISPLAY_MAX as int
    }
}

/// Pattern index shown at digit position `pos` (0 = leftmost) for `ms`:
/// the decimal digit of the clamped value, right-justified, with leading
/// positions blank.
pub open spec fn display_digit(ms: u32, pos: int) -> int {
    let m = clamped(ms);
    if pos == 0 {
        if m >= 1000 { m / 1000 % 10 } else { BLANK as int }
    } else if pos == 1 {
        if m >= 100 { m / 100 % 10 } else { BLANK as int }
    } else if pos == 2 {
        if m >= 10 { m / 10 % 10 } else { BLANK as int }
    } else {
        m % 10
    }
}

/// Whether segment `seg` of digit position `pos` is lit when showing `ms`.
pub open spec fn segment_lit(ms: u32, pos: int, seg: int) -> bool {
    let d = display_digit(ms, pos);
    d != BLANK as int && (seven_seg(d) & (1u8 << (seg as u8))) != 0
}

/// Whether pixel COM[com] + SEG[bit] is lit when showing `ms`: some lit
/// segment of some digit sits there.
pub open spec fn pixel_on(ms: u32, com: int, bit: int) -> bool {
    exists|pos: int, seg: int|
        0 <= pos < DIGIT_COUNT && 0 <= seg < SEGMENTS_PER_DIGIT && #[trigger] segment_lit(ms, pos, seg)
            && seg_map(pos, seg) == (com as u8, bit as u8)
}

/// Whether bit `bit` of a COM bitmap is set.
pub open spec fn bit_set(mask: u64, bit: int) -> bool {
    mask & (1u64 << (bit as u64)) != 0
}


/// Whether pixel COM[com] + SEG[bit] is lit by one of the first `k` segments,
/// counted digit by digit from the left and a..g within a digit.
pub open spec fn lit_by_first(ms: u32, com: int, bit: int, k: int) -> bool {
    exists|pos: int, seg: int|
        0 <= pos < DIGIT_COUNT && 0 <= seg < SEGMENTS_PER_DIGIT && pos * 7 + seg < k
            && #[trigger] segment_lit(ms, pos, seg) && seg_map(pos, seg) == (com as u8, bit as u8)
}

/// Setting bit `s` of a bitmap sets bit `s` and keeps every other bit.
proof fn lemma_or_bit(x: u64, s: u64, b: u64)
    requires
        s < 64,
        b < 64,
    ensures
        (x | (1u64 << s)) & (1u64 << b) != 0 <==> (x & (1u64 << b) != 0 || s == b),
{
    assert((x | (1u64 << s)) & (1u64 << b) != 0 <==> (x & (1u64 << b) != 0 || s == b))
        by (bit_vector)
        requires
            s < 64,
            b < 64,
    ;
}

/// The empty bitmap has no bit set.
proof fn lemma_zero_bits(b: u64)
    requires
        b < 64,
    ensures
        0u64 & (1u64 << b) == 0,
{
    assert(0u64 & (1u64 << b) == 0) by (bit_vector);
}

/// The pattern index shown at each digit position for `ms` (10 = blank):
/// `ms` clamped to 9999, right-justified, with leading blanks.
pub fn display_digits(ms: u32) -> (digits: [usize; 4])
    ensures
        forall|pos: int| 0 <= pos < DIGIT_COUNT ==> digits@[pos] == display_digit(ms, pos),
{
    let m: u32 = if ms <= DISPLAY_MAX { ms } else { DISPLAY_MAX };
    [
        if m >= 1000 { (m / 1000 % 10) as usize } else { BLANK },
        if m >= 100 { (m / 100 % 10) as usize } else { BLANK },
        if m >= 10 { (m / 10 % 10) as usize } else { BLANK },
        (m % 10) as usize,
    ]
}

/// The segment counted `k`-th (digit by digit from the left, a..g within a
/// digit), as `(pos, seg)`.
pub open spec fn kth_segment(k: int) -> (int, int) {
    (k / 7, k % 7)
}

/// The bitmap of COM line `com` after lighting, in order, those of the first
/// `k` segments that are lit for `ms` and sit on that line.
pub open spec fn com_mask_upto(ms: u32, com: int, k: int) -> u64
    decreases k,
{
    if k <= 0 {
        0u64
    } else {
        let prev = com_mask_upto(ms, com, k - 1);
        let (pos, seg) = kth_segment(k - 1);
        let (c, b) = seg_map(pos, seg);
        if segment_lit(ms, pos, seg) && c as int == com && b < 64 {
            prev | (1u64 << (b as u64))
        } else {
            prev
        }
    }
}

/// The bitmap of COM line `com` in the frame that shows `ms`.
pub open spec fn com_mask(ms: u32, com: int) -> u64 {
    com_mask_upto(ms, com, 28)
}

/// Every digit position shows a digit 0..9 or the blank.
proof fn lemma_digit_range(ms: u32, pos: int)
    ensures
        0 <= display_digit(ms, pos) <= BLANK,
{
}

/// The bits set by the first `k` segments are those lit by them.
proof fn lemma_mask_upto_bits(ms: u32, com: int, bit: int, k: int)
    requires
        0 <= bit < 64,
        0 <= com < 256,
        k <= 28,
    ensures
        bit_set(com_mask_upto(ms, com, k), bit) <==> lit_by_first(ms, com, bit, k),
    decreases k,
{
    if k <= 0 {
        lemma_zero_bits(bit as u64);
        if lit_by_first(ms, com, bit, k) {
            let (pos, seg) = choose|pos: int, seg: int|
                0 <= pos < DIGIT_COUNT && 0 <= seg < SEGMENTS_PER_DIGIT && pos * 7 + seg < k
                    && #[trigger] segment_lit(ms, pos, seg) && seg_map(pos, seg) == (
                    com as u8,
                    bit as u8,
                );
        }
    } else {
        lemma_mask_upto_bits(ms, com, bit, k - 1);
        let prev = com_mask_upto(ms, com, k - 1);
        let (pos, seg) = kth_segment(k - 1);
        let (c, b) = seg_map(pos, seg);
        let here = 0 <= pos < DIGIT_COUNT && segment_lit(ms, pos, seg) && seg_map(pos, seg) == (
            com as u8,
            bit as u8,
        );
        if segment_lit(ms, pos, seg) && c as int == com && b < 64 {
            lemma_or_bit(prev, b as u64, bit as u64);
        }
        if lit_by_first(ms, com, bit, k) && !lit_by_first(ms, com, bit, k - 1) {
            let (p2, s2) = choose|p2: int, s2: int|
                0 <= p2 < DIGIT_COUNT && 0 <= s2 < SEGMENTS_PER_DIGIT && p2 * 7 + s2 < k
                    && #[trigger] segment_lit(ms, p2, s2) && seg_map(p2, s2) == (
                    com as u8,
                    bit as u8,
                );
            assert(p2 * 7 + s2 == k - 1);
            assert(p2 == pos && s2 == seg);
        }
        if lit_by_first(ms, com, bit, k - 1) {
            let (p2, s2) = choose|p2: int, s2: int|
                0 <= p2 < DIGIT_COUNT && 0 <= s2 < SEGMENTS_PER_DIGIT && p2 * 7 + s2 < k - 1
                    && #[trigger] segment_lit(ms, p2, s2) && seg_map(p2, s2) == (
                    com as u8,
                    bit as u8,
                );
            assert(p2 * 7 + s2 < k);
        }
        if here {
            assert(pos * 7 + seg < k);
            assert(0 <= seg < SEGMENTS_PER_DIGIT);
            assert(lit_by_first(ms, com, bit, k));
        }
    }
}

/// What the frame shows: pixel COM[com] + SEG[bit] is set in the frame for
/// `ms` exactly when some lit segment of some digit sits on it.
pub proof fn lemma_frame_pixels(ms: u32, com: int, bit: int)
    requires
        0 <= com < COM_COUNT,
        0 <= bit < 64,
    ensures
        bit_set(com_mask(ms, com), bit) <==> pixel_on(ms, com, bit),
{
    lemma_mask_upto_bits(ms, com, bit, 28);
    if pixel_on(ms, com, bit) {
        let (pos, seg) = choose|pos: int, seg: int|
            0 <= pos < DIGIT_COUNT && 0 <= seg < SEGMENTS_PER_DIGIT && #[trigger] segment_lit(
                ms,
                pos,
                seg,
            ) && seg_map(pos, seg) == (com as u8, bit as u8);
        assert(pos * 7 + seg < 28);
    }
}

/// The numeric value of a shown pattern index: a blank counts as 0.
pub open spec fn digit_value(d: int) -> int {
    if d == BLANK as int {
        0
    } else {
        d
    }
}

/// Read left to right, the four positions spell the clamped value in decimal,
/// right-justified: a position left of the first significant digit is blank,
/// every other one shows a digit 0..9, and the leftmost shown digit is not a
/// zero unless the value is 0.
pub proof fn lemma_digits_spell_value(ms: u32)
    ensures
        digit_value(display_digit(ms, 0)) * 1000 + digit_value(display_digit(ms, 1)) * 100
            + digit_value(display_digit(ms, 2)) * 10 + digit_value(display_digit(ms, 3))
            == clamped(ms),
        display_digit(ms, 0) == BLANK <==> clamped(ms) < 1000,
        display_digit(ms, 1) == BLANK <==> clamped(ms) < 100,
        display_digit(ms, 2) == BLANK <==> clamped(ms) < 10,
        forall|pos: int| 0 <= pos < DIGIT_COUNT && display_digit(ms, pos) != BLANK as int ==> 0
            <= #[trigger] display_digit(ms, pos) <= 9,
        forall|pos: int|
            0 <= pos < 3 && display_digit(ms, pos) != BLANK as int && (pos == 0 || display_digit(
                ms,
                pos - 1,
            ) == BLANK as int) ==> #[trigger] display_digit(ms, pos) != 0,
{
    let m = clamped(ms);
    assert(0 <= m <= 9999);
    assert(m == (m / 1000 % 10) * 1000 + (m / 100 % 10) * 100 + (m / 10 % 10) * 10 + m % 10)
        by (nonlinear_arith)
        requires
            0 <= m <= 9999,
    ;
    assert(m >= 1000 ==> m / 1000 % 10 != 0) by (nonlinear_arith)
        requires
            0 <= m <= 9999,
    ;
    assert(100 <= m < 1000 ==> m / 100 % 10 != 0) by (nonlinear_arith)
        requires
            0 <= m <= 9999,
    ;
    assert(10 <= m < 100 ==> m / 10 % 10 != 0) by (nonlinear_arith)
        requires
            0 <= m <= 9999,
    ;
    assert(m < 1000 ==> m / 100 % 10 == 0 || m >= 100) by (nonlinear_arith)
        requires
            0 <= m <= 9999,
    ;
    assert(m < 100 ==> m / 10 % 10 == 0 || m >= 10) by (nonlinear_arith)
        requires
            0 <= m <= 9999,
    ;
    assert(m < 1000 ==> m / 1000 % 10 == 0) by (nonlinear_arith)
        requires
            0 <= m <= 9999,
    ;
}

/// The four COM bitmaps that show `ms` on the glass.
pub fn display_frame(ms: u32) -> (frame: [u64; 4])
    ensures
        forall|com: int| 0 <= com < COM_COUNT ==> #[trigger] frame@[com] == com_mask(ms, com),
        forall|com: int, bit: int|
            0 <= com < COM_COUNT && 0 <= bit < 64 ==> (#[trigger] bit_set(frame@[com], bit)
                <==> pixel_on(ms, com, bit)),
{
    let digits = display_digits(ms);
    let mut com_segs: [u64; 4] = [0u64; 4];
    let mut digit_idx: usize = 0;
    while digit_idx < DIGIT_COUNT
        invariant
            0 <= digit_idx <= DIGIT_COUNT,
            forall|pos: int| 0 <= pos < DIGIT_COUNT ==> digits@[pos] == display_digit(ms, pos),
            forall|c: int| 0 <= c < 4 ==> #[trigger] com_segs@[c] == com_mask_upto(ms, c, 7 * digit_idx),
        decreases DIGIT_COUNT - digit_idx,
    {
        let digit = digits[digit_idx];
        proof {
            lemma_digit_range(ms, digit_idx as int);
        }
        if digit == BLANK {
            proof {
                assert forall|c: int| 0 <= c < 4 implies #[trigger] com_segs@[c] == com_mask_upto(
                    ms,
                    c,
                    7 * digit_idx + 7,
                ) by {
                    let k = 7 * digit_idx;
                    assert(kth_segment(k) == (digit_idx as int, 0int));
                    assert(kth_segment(k + 1) == (digit_idx as int, 1int));
                    assert(kth_segment(k + 2) == (digit_idx as int, 2int));
                    assert(kth_segment(k + 3) == (digit_idx as int, 3int));
                    assert(kth_segment(k + 4) == (digit_idx as int, 4int));
                    assert(kth_segment(k + 5) == (digit_idx as int, 5int));
                    assert(kth_segment(k + 6) == (digit_idx as int, 6int));
                    assert(com_mask_upto(ms, c, k + 1) == com_mask_upto(ms, c, k));
                    assert(com_mask_upto(ms, c, k + 2) == com_mask_upto(ms, c, k));
                    assert(com_mask_upto(ms, c, k + 3) == com_mask_upto(ms, c, k));
                    assert(com_mask_upto(ms, c, k + 4) == com_mask_upto(ms, c, k));
                    assert(com_mask_upto(ms, c, k + 5) == com_mask_upto(ms, c, k));
                    assert(com_mask_upto(ms, c, k + 6) == com_mask_upto(ms, c, k));
                    assert(com_mask_upto(ms, c, k + 7) == com_mask_upto(ms, c, k));
                }
            }
            digit_idx += 1;
            continue;
        }
        let pattern = seven_seg_pattern(digit);
        let mut seg_idx: usize = 0;
        while seg_idx < SEGMENTS_PER_DIGIT
            invariant
                0 <= digit_idx < DIGIT_COUNT,
                0 <= seg_idx <= SEGMENTS_PER_DIGIT,
                digit == display_digit(ms, digit_idx as int),
                digit != BLANK,
                pattern == seven_seg(digit as int),
                forall|pos: int| 0 <= pos < DIGIT_COUNT ==> digits@[pos] == display_digit(ms, pos),
                forall|c: int|
                    0 <= c < 4 ==> #[trigger] com_segs@[c] == com_mask_upto(
                        ms,
                        c,
                        7 * digit_idx + seg_idx,
                    ),
            decreases SEGMENTS_PER_DIGIT - seg_idx,
        {
            let ghost k: int = 7 * digit_idx + seg_idx;
            assert(kth_segment(k) == (digit_idx as int, seg_idx as int));
            if pattern & (1u8 << (seg_idx as u8)) != 0 {
                let (com, seg) = digit_seg_map(digit_idx, seg_idx);
                if com < COM_COUNT && (seg as u32) < 64 {
                    let cur = com_segs[com as usize];
                    com_segs[com as usize] = cur | (1u64 << seg);
                }
            }
            seg_idx += 1;
        }
        digit_idx += 1;
    }
    proof {
        assert forall|com: int, bit: int| 0 <= com < COM_COUNT && 0 <= bit < 64 implies (
        #[trigger] bit_set(com_segs@[com], bit) <==> pixel_on(ms, com, bit)) by {
            lemma_frame_pixels(ms, com, bit);
        }
    }
    com_segs
}

/// One write of a COM line's segment bitmap into the controller RAM.
#[derive(Clone, Copy, Debug, PartialEq, Eq, Structural)]
pub struct ComWrite {
    pub com: u8,
    pub segments: u64,
}


/// The controller's display RAM after a sequence of COM writes, starting
/// from `ram` (one bitmap per COM line): each write replaces its line.
pub open spec fn apply_writes(ram: Seq<u64>, writes: Seq<ComWrite>) -> Seq<u64>
    decreases writes.len(),
{
    if writes.len() == 0 {
        ram
    } else {
        let w = writes.last();
        let before = apply_writes(ram, writes.drop_last());
        if (w.com as int) < before.len() {
            before.update(w.com as int, w.segments)
        } else {
            before
        }
    }
}

/// The writes that push the frame for `ms` to the controller, COM 0 to 3;
/// a frame submit follows them.
pub fn display_ms_writes(ms: u32) -> (writes: Vec<ComWrite>)
    ensures
        writes@.len() == COM_COUNT,
        forall|com: int|
            0 <= com < COM_COUNT ==> #[trigger] writes@[com] == (ComWrite {
                com: com as u8,
                segments: com_mask(ms, com),
            }),
{
    let frame = display_frame(ms);
    let mut writes: Vec<ComWrite> = Vec::new();
    let mut com: u8 = 0;
    while com < COM_COUNT
        invariant
            0 <= com <= COM_COUNT,
            writes@.len() == com,
            forall|c: int| 0 <= c < COM_COUNT ==> #[trigger] frame@[c] == com_mask(ms, c),
            forall|c: int|
                0 <= c < com ==> #[trigger] writes@[c] == (ComWrite {
                    com: c as u8,
                    segments: com_mask(ms, c),
                }),
        decreases COM_COUNT - com,
    {
        writes.push(ComWrite { com, segments: frame[com as usize] });
        com += 1;
    }
    writes
}

/// The writes that clear all four COM lines and then light the one
/// COM/SEG combination `seg_bit` on line `com`; a frame submit follows them.
pub fn single_segment_writes(com: u8, seg_bit: u64) -> (writes: Vec<ComWrite>)
    ensures
        writes@ == seq![
            ComWrite { com: 0, segments: 0 },
            ComWrite { com: 1, segments: 0 },
            ComWrite { com: 2, segments: 0 },
            ComWrite { com: 3, segments: 0 },
            ComWrite { com, segments: seg_bit },
        ],
{
    let mut writes: Vec<ComWrite> = Vec::new();
    let mut c: u8 = 0;
    while c < COM_COUNT
        invariant
            0 <= c <= COM_COUNT,
            writes@.len() == c,
            forall|i: int| 0 <= i < c ==> #[trigger] writes@[i] == (ComWrite { com: i as u8, segments: 0 }),
        decreases COM_COUNT - c,
    {
        writes.push(ComWrite { com: c, segments: 0 });
        c += 1;
    }
    writes.push(ComWrite { com, segments: seg_bit });
    writes
}

/// Whatever the display RAM held, pushing the frame for `ms` leaves line
/// `com` holding exactly that frame's bitmap.
pub proof fn lemma_display_writes_set_frame(ms: u32, ram: Seq<u64>, writes: Seq<ComWrite>)
    requires
        ram.len() == COM_COUNT,
        writes.len() == COM_COUNT,
        forall|com: int|
            0 <= com < COM_COUNT ==> #[trigger] writes[com] == (ComWrite {
                com: com as u8,
                segments: com_mask(ms, com),
            }),
    ensures
        apply_writes(ram, writes) == seq![com_mask(ms, 0), com_mask(ms, 1), com_mask(ms, 2), com_mask(ms, 3)],
{
    let w = writes;
    assert(w[0] == (ComWrite { com: 0, segments: com_mask(ms, 0) }));
    assert(w[1] == (ComWrite { com: 1, segments: com_mask(ms, 1) }));
    assert(w[2] == (ComWrite { com: 2, segments: com_mask(ms, 2) }));
    assert(w[3] == (ComWrite { com: 3, segments: com_mask(ms, 3) }));
    assert(w.drop_last().drop_last().drop_last().drop_last() =~= Seq::<ComWrite>::empty());
    assert(apply_writes(ram, w.drop_last().drop_last().drop_last().drop_last()) == ram);
    assert(w.drop_last().drop_last().drop_last().last() == w[0]);
    let r1 = apply_writes(ram, w.drop_last().drop_last().drop_last());
    let r2 = apply_writes(ram, w.drop_last().drop_last());
    let r3 = apply_writes(ram, w.drop_last());
    assert(r1 == ram.update(0, com_mask(ms, 0)));
    assert(r2 == r1.update(1, com_mask(ms, 1)));
    assert(r3 == r2.update(2, com_mask(ms, 2)));
    assert(apply_writes(ram, w) =~= seq![com_mask(ms, 0), com_mask(ms, 1), com_mask(ms, 2), com_mask(ms, 3)]);
}

/// Whatever the display RAM held, probing COM/SEG `(com, seg_bit)` on a
/// configured line leaves exactly that line holding `seg_bit` and every
/// other line dark.
pub proof fn lemma_single_segment_lights_one(com: u8, seg_bit: u64, ram: Seq<u64>)
    requires
        ram.len() == COM_COUNT,
        com < COM_COUNT,
    ensures
        ({
            let after = apply_writes(
                ram,
                seq![
                    ComWrite { com: 0, segments: 0 },
                    ComWrite { com: 1, segments: 0 },
                    ComWrite { com: 2, segments: 0 },
                    ComWrite { com: 3, segments: 0 },
                    ComWrite { com, segments: seg_bit },
                ],
            );
            &&& after.len() == COM_COUNT
            &&& after[com as int] == seg_bit
            &&& forall|c: int| 0 <= c < COM_COUNT && c != com ==> #[trigger] after[c] == 0
        }),
{
    let w = seq![
        ComWrite { com: 0, segments: 0 },
        ComWrite { com: 1, segments: 0 },
        ComWrite { com: 2, segments: 0 },
        ComWrite { com: 3, segments: 0 },
        ComWrite { com, segments: seg_bit },
    ];
    assert(w.drop_last().drop_last().drop_last().drop_last().drop_last() =~= Seq::<ComWrite>::empty());
    assert(apply_writes(ram, w.drop_last().drop_last().drop_last().drop_last().drop_last()) == ram);
    let r1 = apply_writes(ram, w.drop_last().drop_last().drop_last().drop_last());
    let r2 = apply_writes(ram, w.drop_last().drop_last().drop_last());
    let r3 = apply_writes(ram, w.drop_last().drop_last());
    let r4 = apply_writes(ram, w.drop_last());
    assert(w.drop_last().drop_last().drop_last().drop_last().last() == ComWrite { com: 0, segments: 0 });
    assert(r1 == ram.update(0, 0u64));
    assert(w.drop_last().drop_last().drop_last().last() == ComWrite { com: 1, segments: 0 });
    assert(r2 == r1.update(1, 0u64));
    assert(w.drop_last().drop_last().last() == ComWrite { com: 2, segments: 0 });
    assert(r3 == r2.update(2, 0u64));
    assert(w.drop_last().last() == ComWrite { com: 3, segments: 0 });
    assert(r4 == r3.update(3, 0u64));
    assert(r4 =~= seq![0u64, 0u64, 0u64, 0u64]);
}


/// A request for the LCD task: show a text for a number of milliseconds, or
/// clear the glass.
#[derive(Clone, Debug, PartialEq, Eq)]
pub enum LcdMessage {
    Text { text: String, duration_ms: u32 },
    Clear,
}

impl LcdMessage {
    /// A text message.
    pub fn text(text: &str, duration_ms: u32) -> (msg: LcdMessage)
        ensures
            msg is Text,
            msg->text@ == text@,
            msg->duration_ms == duration_ms,
    {
        LcdMessage::Text { text: String::from_str(text), duration_ms }
    }
}


/// The glass table, read as a formula: a digit's two SEG lines `3 pos` and
/// `3 pos + 1` carry a/b on COM0 and c/d on COM1, its third line `3 pos + 2`
/// carries f on COM0 and g on COM1, and e sits on COM2, SEG `pos`.
proof fn lemma_seg_map_formula(pos: int, seg: int)
    requires
        0 <= pos < DIGIT_COUNT,
        0 <= seg < SEGMENTS_PER_DIGIT,
    ensures
        seg_map(pos, seg) == (if seg == 0 {
            (0u8, (3 * pos) as u8)
        } else if seg == 1 {
            (0u8, (3 * pos + 1) as u8)
        } else if seg == 2 {
            (1u8, (3 * pos) as u8)
        } else if seg == 3 {
            (1u8, (3 * pos + 1) as u8)
        } else if seg == 4 {
            (2u8, pos as u8)
        } else if seg == 5 {
            (0u8, (3 * pos + 2) as u8)
        } else {
            (1u8, (3 * pos + 2) as u8)
        }),
{
    if pos == 0 && seg == 0 {
        assert(seg_map(pos, seg) == (0u8, 0u8));
    }
    if pos == 0 && seg == 1 {
        assert(seg_map(pos, seg) == (0u8, 1u8));
    }
    if pos == 0 && seg == 2 {
        assert(seg_map(pos, seg) == (1u8, 0u8));
    }
    if pos == 0 && seg == 3 {
        assert(seg_map(pos, seg) == (1u8, 1u8));
    }
    if pos == 0 && seg == 4 {
        assert(seg_map(pos, seg) == (2u8, 0u8));
    }
    if pos == 0 && seg == 5 {
        assert(seg_map(pos, seg) == (0u8, 2u8));
    }
    if pos == 0 && seg == 6 {
        assert(seg_map(pos, seg) == (1u8, 2u8));
    }
    if pos == 1 && seg == 0 {
        assert(seg_map(pos, seg) == (0u8, 3u8));
    }
    if pos == 1 && seg == 1 {
        assert(seg_map(pos, seg) == (0u8, 4u8));
    }
    if pos == 1 && seg == 2 {
        assert(seg_map(pos, seg) == (1u8, 3u8));
    }
    if pos == 1 && seg == 3 {
        assert(seg_map(pos, seg) == (1u8, 4u8));
    }
    if pos == 1 && seg == 4 {
        assert(seg_map(pos, seg) == (2u8, 1u8));
    }
    if pos == 1 && seg == 5 {
        assert(seg_map(pos, seg) == (0u8, 5u8));
    }
    if pos == 1 && seg == 6 {
        assert(seg_map(pos, seg) == (1u8, 5u8));
    }
    if pos == 2 && seg == 0 {
        assert(seg_map(pos, seg) == (0u8, 6u8));
    }
    if pos == 2 && seg == 1 {
        assert(seg_map(pos, seg) == (0u8, 7u8));
    }
    if pos == 2 && seg == 2 {
        assert(seg_map(pos, seg) == (1u8, 6u8));
    }
    if pos == 2 && seg == 3 {
        assert(seg_map(pos, seg) == (1u8, 7u8));
    }
    if pos == 2 && seg == 4 {
        assert(seg_map(pos, seg) == (2u8, 2u8));
    }
    if pos == 2 && seg == 5 {
        assert(seg_map(pos, seg) == (0u8, 8u8));
    }
    if pos == 2 && seg == 6 {
        assert(seg_map(pos, seg) == (1u8, 8u8));
    }
    if pos == 3 && seg == 0 {
        assert(seg_map(pos, seg) == (0u8, 9u8));
    }
    if pos == 3 && seg == 1 {
        assert(seg_map(pos, seg) == (0u8, 10u8));
    }
    if pos == 3 && seg == 2 {
        assert(seg_map(pos, seg) == (1u8, 9u8));
    }
    if pos == 3 && seg == 3 {
        assert(seg_map(pos, seg) == (1u8, 10u8));
    }
    if pos == 3 && seg == 4 {
        assert(seg_map(pos, seg) == (2u8, 3u8));
    }
    if pos == 3 && seg == 5 {
        assert(seg_map(pos, seg) == (0u8, 11u8));
    }
    if pos == 3 && seg == 6 {
        assert(seg_map(pos, seg) == (1u8, 11u8));
    }
}

/// No two segments of the glass share a pixel, and every segment sits on a
/// configured COM line and a SEG line below 64.
proof fn lemma_seg_map_injective(p1: int, s1: int, p2: int, s2: int)
    requires
        0 <= p1 < DIGIT_COUNT,
        0 <= s1 < SEGMENTS_PER_DIGIT,
        0 <= p2 < DIGIT_COUNT,
        0 <= s2 < SEGMENTS_PER_DIGIT,
    ensures
        seg_map(p1, s1).0 < COM_COUNT,
        seg_map(p1, s1).1 < 64,
        seg_map(p1, s1) == seg_map(p2, s2) ==> p1 == p2 && s1 == s2,
{
    lemma_seg_map_formula(p1, s1);
    lemma_seg_map_formula(p2, s2);
}

/// A segment is lit exactly when its pixel is set in the frame.
proof fn lemma_lit_from_frame(ms: u32, pos: int, seg: int)
    requires
        0 <= pos < DIGIT_COUNT,
        0 <= seg < SEGMENTS_PER_DIGIT,
    ensures
        segment_lit(ms, pos, seg) == bit_set(
            com_mask(ms, seg_map(pos, seg).0 as int),
            seg_map(pos, seg).1 as int,
        ),
{
    let (c, b) = seg_map(pos, seg);
    lemma_seg_map_injective(pos, seg, pos, seg);
    lemma_frame_pixels(ms, c as int, b as int);
    if pixel_on(ms, c as int, b as int) {
        let (p2, s2) = choose|p2: int, s2: int|
            0 <= p2 < DIGIT_COUNT && 0 <= s2 < SEGMENTS_PER_DIGIT && #[trigger] segment_lit(
                ms,
                p2,
                s2,
            ) && seg_map(p2, s2) == (c, b);
        lemma_seg_map_injective(pos, seg, p2, s2);
    }
}

/// The digit whose seven-segment pattern is `p` (the blank for no digit's).
pub open spec fn pattern_digit(p: u8) -> int {
    if p == seven_seg(0) {
        0
    } else if p == seven_seg(1) {
        1
    } else if p == seven_seg(2) {
        2
    } else if p == seven_seg(3) {
        3
    } else if p == seven_seg(4) {
        4
    } else if p == seven_seg(5) {
        5
    } else if p == seven_seg(6) {
        6
    } else if p == seven_seg(7) {
        7
    } else if p == seven_seg(8) {
        8
    } else if p == seven_seg(9) {
        9
    } else {
        BLANK as int
    }
}

/// The patterns tell the digits and the blank apart, and use 7 bits.
proof fn lemma_pattern_digit(d: int)
    requires
        0 <= d <= BLANK,
    ensures
        pattern_digit(seven_seg(d)) == d,
        seven_seg(d) < 128,
{
}

/// A segment is lit exactly when its bit is set in the digit's pattern (the
/// blank's pattern has none set).
proof fn lemma_lit_is_bit(ms: u32, pos: int, seg: int)
    ensures
        segment_lit(ms, pos, seg) == (seven_seg(display_digit(ms, pos)) & (1u8 << (seg as u8))
            != 0),
{
    let m = 1u8 << (seg as u8);
    assert(0u8 & m == 0) by (bit_vector);
}

/// A 7-bit pattern is determined by its seven bits.
proof fn lemma_pattern_from_bits(x: u8, y: u8)
    requires
        x < 128,
        y < 128,
        (x & (1u8 << 0u8) != 0) == (y & (1u8 << 0u8) != 0),
        (x & (1u8 << 1u8) != 0) == (y & (1u8 << 1u8) != 0),
        (x & (1u8 << 2u8) != 0) == (y & (1u8 << 2u8) != 0),
        (x & (1u8 << 3u8) != 0) == (y & (1u8 << 3u8) != 0),
        (x & (1u8 << 4u8) != 0) == (y & (1u8 << 4u8) != 0),
        (x & (1u8 << 5u8) != 0) == (y & (1u8 << 5u8) != 0),
        (x & (1u8 << 6u8) != 0) == (y & (1u8 << 6u8) != 0),
    ensures
        x == y,
{
    assert(x == y) by (bit_vector)
        requires
            x < 128,
            y < 128,
            (x & (1u8 << 0u8) != 0) == (y & (1u8 << 0u8) != 0),
            (x & (1u8 << 1u8) != 0) == (y & (1u8 << 1u8) != 0),
            (x & (1u8 << 2u8) != 0) == (y & (1u8 << 2u8) != 0),
            (x & (1u8 << 3u8) != 0) == (y & (1u8 << 3u8) != 0),
            (x & (1u8 << 4u8) != 0) == (y & (1u8 << 4u8) != 0),
            (x & (1u8 << 5u8) != 0) == (y & (1u8 << 5u8) != 0),
            (x & (1u8 << 6u8) != 0) == (y & (1u8 << 6u8) != 0),
    ;
}

/// Two values with the same frame agree on segment `seg` of each position.
proof fn lemma_bit_agrees(a: u32, b: u32, pos: int, seg: int)
    requires
        0 <= pos < DIGIT_COUNT,
        0 <= seg < SEGMENTS_PER_DIGIT,
        forall|com: int| 0 <= com < COM_COUNT ==> #[trigger] com_mask(a, com) == com_mask(b, com),
    ensures
        (seven_seg(display_digit(a, pos)) & (1u8 << (seg as u8)) != 0) == (seven_seg(
            display_digit(b, pos),
        ) & (1u8 << (seg as u8)) != 0),
{
    lemma_lit_from_frame(a, pos, seg);
    lemma_lit_from_frame(b, pos, seg);
    lemma_seg_map_injective(pos, seg, pos, seg);
    lemma_lit_is_bit(a, pos, seg);
    lemma_lit_is_bit(b, pos, seg);
}

/// Two values with the same frame show the same pattern at each position.
proof fn lemma_digit_from_frame(a: u32, b: u32, pos: int)
    requires
        0 <= pos < DIGIT_COUNT,
        forall|com: int| 0 <= com < COM_COUNT ==> #[trigger] com_mask(a, com) == com_mask(b, com),
    ensures
        display_digit(a, pos) == display_digit(b, pos),
{
    let da = display_digit(a, pos);
    let db = display_digit(b, pos);
    lemma_digit_range(a, pos);
    lemma_digit_range(b, pos);
    lemma_pattern_digit(da);
    lemma_pattern_digit(db);
    lemma_bit_agrees(a, b, pos, 0);
    lemma_bit_agrees(a, b, pos, 1);
    lemma_bit_agrees(a, b, pos, 2);
    lemma_bit_agrees(a, b, pos, 3);
    lemma_bit_agrees(a, b, pos, 4);
    lemma_bit_agrees(a, b, pos, 5);
    lemma_bit_agrees(a, b, pos, 6);
    lemma_pattern_from_bits(seven_seg(da), seven_seg(db));
}

/// The glass tells the values apart: two values up to 9999 that give the
/// same frame are the same value.
pub proof fn lemma_frames_tell_values_apart(a: u32, b: u32)
    requires
        a <= DISPLAY_MAX,
        b <= DISPLAY_MAX,
        forall|com: int| 0 <= com < COM_COUNT ==> #[trigger] com_mask(a, com) == com_mask(b, com),
    ensures
        a == b,
{
    lemma_digit_from_frame(a, b, 0);
    lemma_digit_from_frame(a, b, 1);
    lemma_digit_from_frame(a, b, 2);
    lemma_digit_from_frame(a, b, 3);
    lemma_digits_spell_value(a);
    lemma_digits_spell_value(b);
}


/// The standard seven-segment glyphs, segment by segment: which decimal
/// digits light segment `seg` (0 = a top, 1 = b upper right, 2 = c lower
/// right, 3 = d bottom, 4 = e lower left, 5 = f upper left, 6 = g middle).
pub open spec fn glyph_lights(digit: int, seg: int) -> bool {
    if seg == 0 {
        digit != 1 && digit != 4
    } else if seg == 1 {
        digit != 5 && digit != 6
    } else if seg == 2 {
        digit != 2
    } else if seg == 3 {
        digit != 1 && digit != 4 && digit != 7
    } else if seg == 4 {
        digit == 0 || digit == 2 || digit == 6 || digit == 8
    } else if seg == 5 {
        digit != 1 && digit != 2 && digit != 3 && digit != 7
    } else {
        digit != 0 && digit != 1 && digit != 7
    }
}

/// The low seven bits of a byte, read arithmetically.
proof fn lemma_byte_bits(x: u8)
    ensures
        (x & (1u8 << 0u8) != 0) == (x % 2 == 1),
        (x & (1u8 << 1u8) != 0) == ((x / 2) % 2 == 1),
        (x & (1u8 << 2u8) != 0) == ((x / 4) % 2 == 1),
        (x & (1u8 << 3u8) != 0) == ((x / 8) % 2 == 1),
        (x & (1u8 << 4u8) != 0) == ((x / 16) % 2 == 1),
        (x & (1u8 << 5u8) != 0) == ((x / 32) % 2 == 1),
        (x & (1u8 << 6u8) != 0) == ((x / 64) % 2 == 1),
{
    assert((x & (1u8 << 0u8) != 0) == (x % 2 == 1)) by (bit_vector);
    assert((x & (1u8 << 1u8) != 0) == ((x / 2) % 2 == 1)) by (bit_vector);
    assert((x & (1u8 << 2u8) != 0) == ((x / 4) % 2 == 1)) by (bit_vector);
    assert((x & (1u8 << 3u8) != 0) == ((x / 8) % 2 == 1)) by (bit_vector);
    assert((x & (1u8 << 4u8) != 0) == ((x / 16) % 2 == 1)) by (bit_vector);
    assert((x & (1u8 << 5u8) != 0) == ((x / 32) % 2 == 1)) by (bit_vector);
    assert((x & (1u8 << 6u8) != 0) == ((x / 64) % 2 == 1)) by (bit_vector);
}

/// Each digit's pattern lights exactly the segments of its standard glyph,
/// and the blank lights none.
pub proof fn lemma_patterns_are_glyphs(digit: int, seg: int)
    requires
        0 <= digit <= BLANK,
        0 <= seg < SEGMENTS_PER_DIGIT,
    ensures
        (seven_seg(digit) & (1u8 << (seg as u8)) != 0) == (digit != BLANK as int && glyph_lights(
            digit,
            seg,
        )),
{
    lemma_byte_bits(seven_seg(digit));
}

/// Each digit position of the glass shows the standard glyph of its digit:
/// segment `seg` of position `pos` is lit, that is its pixel is set in the
/// frame, exactly when the position shows a digit whose glyph lights it.
pub proof fn lemma_frame_shows_glyphs(ms: u32, pos: int, seg: int)
    requires
        0 <= pos < DIGIT_COUNT,
        0 <= seg < SEGMENTS_PER_DIGIT,
    ensures
        segment_lit(ms, pos, seg) == (display_digit(ms, pos) != BLANK as int && glyph_lights(
            display_digit(ms, pos),
            seg,
        )),
        bit_set(com_mask(ms, seg_map(pos, seg).0 as int), seg_map(pos, seg).1 as int) == (
        display_digit(ms, pos) != BLANK as int && glyph_lights(display_digit(ms, pos), seg)),
{
    lemma_digit_range(ms, pos);
    lemma_lit_is_bit(ms, pos, seg);
    lemma_patterns_are_glyphs(display_digit(ms, pos), seg);
    lemma_lit_from_frame(ms, pos, seg);
}

} // verus!
