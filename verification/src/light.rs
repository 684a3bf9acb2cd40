//! The light that the nova throws on one channel of one pixel, over the real
//! numbers.
//!
//! As in `crate::color`, these are the formulas that a caller's arithmetic
//! follows, written down exactly, and what is proved here is proved of them.

use vstd::prelude::*;

verus! {

/// `x` confined to the interval from `lo` to `hi`.
pub open spec fn confined(x: real, lo: real, hi: real) -> real {
    if x < lo {
        lo
    } else if x > hi {
        hi
    } else {
        x
    }
}

/// The point at the part `t` of the way from `a` to `b`.
pub open spec fn lerp(a: real, b: real, t: real) -> real {
    a * (1real - t) + b * t
}

/// The radius of the nova in pixels: the given part of the image's diagonal,
/// but never less than a hundred-millionth of a pixel nor more than a hundred
/// pixels.
pub open spec fn radius_of(diagonal: real, part: real) -> real {
    confined(diagonal * part, 1real / 100000000real, 100real)
}

/// Where among the spokes a direction points. `turn` is the direction as a
/// part of the full circle, from half a turn back to half a turn on; the
/// spokes are laid around the circle from just over half a turn back, so that
/// every direction lies at a position above 0. The whole of the position,
/// counted around the circle, is the spoke before the direction.
pub open spec fn spoke_position(turn: real, n_spokes: nat) -> real {
    (turn + 51real / 100real) * n_spokes as real
}

/// How far on from the spoke before it towards the next a direction lies.
pub open spec fn spoke_part(turn: real, n_spokes: nat) -> real {
    spoke_position(turn, n_spokes) - spoke_position(turn, n_spokes).floor() as real
}

/// How strongly the nova shines at the distance `l` from its centre, where
/// the radius of the nova is the unit: nine tenths at a distance of one, and
/// without bound towards the centre.
pub open spec fn falloff(l: real) -> real {
    (9real / 10real) / (l + 1real / 1000real)
}

/// A channel after the nova has shone on it with the strength `w`.
///
/// `existing` is what the channel held and `spoke` the spoke's colour there,
/// both from 0 to 1, and `glow` the square of the spoke's brightness. Up to a
/// strength of one the spoke's colour is blended over the pixel in proportion
/// to the strength; beyond it, in the core, the pixel's own colour is gone.
/// On top comes a highlight of the glow times the strength.
pub open spec fn lit(existing: real, spoke: real, glow: real, w: real) -> real {
    let alpha: real = confined(w, 0real, 1real);
    let base: real = if w > 1real {
        confined(spoke * w, 0real, 1real)
    } else {
        existing * (1real - alpha) + spoke * alpha
    };
    base + confined(glow * w, 0real, 1real)
}

/// The byte that stands for an intensity: 255 for full or more, and the
/// fraction cut off.
pub open spec fn quantized(x: real) -> int {
    confined(x * 255real, 0real, 255real).floor()
}

/// The intensity that a byte stands for.
pub open spec fn intensity(byte: u8) -> real {
    byte as real / 255real
}

/// Every intensity is quantized to a byte, and a byte's own intensity to that
/// byte.
pub proof fn lemma_quantized_is_a_byte(x: real, byte: u8)
    ensures
        0 <= quantized(x) <= 255,
        0real <= intensity(byte) <= 1real,
        quantized(intensity(byte)) == byte,
{
}

/// The radius is never zero, so every distance can be measured in radii.
pub proof fn lemma_radius_is_positive(diagonal: real, part: real)
    ensures
        1real / 100000000real <= radius_of(diagonal, part) <= 100real,
        radius_of(diagonal, part) > 0real,
{
}

/// Every direction lies at a position above 0 and at most a hundredth of the
/// circle past its end. So cutting the fraction off the position loses
/// nothing but the fraction, and what is left over is a part from 0 up to 1.
pub proof fn lemma_spoke_position_in_range(turn: real, n_spokes: nat)
    requires
        -1real / 2real <= turn <= 1real / 2real,
        n_spokes > 0,
    ensures
        0real < spoke_position(turn, n_spokes),
        spoke_position(turn, n_spokes) <= 101real / 100real * n_spokes as real,
        0 <= spoke_position(turn, n_spokes).floor(),
        0real <= spoke_part(turn, n_spokes) < 1real,
{
    let n = n_spokes as real;
    let lead = turn + 51real / 100real;
    assert(0real < lead * n <= 101real / 100real * n) by (nonlinear_arith)
        requires
            1real / 100real <= lead <= 101real / 100real,
            n >= 1real,
    ;
}

/// Between a value and itself lies nothing else: where both ends of a span
/// are the same spoke, as in a nova of one spoke, the angle has no say.
pub proof fn lemma_lerp_of_equals(a: real, t: real)
    ensures
        lerp(a, a, t) == a,
{
    assert(a * (1real - t) + a * t == a) by (nonlinear_arith);
}

/// Between two values lies what `lerp` gives for a part from 0 to 1.
pub proof fn lemma_lerp_between(a: real, b: real, t: real)
    requires
        0real <= t <= 1real,
        a <= b,
    ensures
        a <= lerp(a, b, t) <= b,
{
    assert(a * (1real - t) + b * t == a + (b - a) * t) by (nonlinear_arith);
    assert(0real <= (b - a) * t <= b - a) by (nonlinear_arith)
        requires
            0real <= t <= 1real,
            a <= b,
    ;
}

/// The nova shines less strongly the farther from its centre, and nowhere not
/// at all.
pub proof fn lemma_falloff_decreases(near: real, far: real)
    requires
        0real <= near <= far,
    ensures
        0real < falloff(far) <= falloff(near),
{
    let n = near + 1real / 1000real;
    let f = far + 1real / 1000real;
    assert(0real < (9real / 10real) / f <= (9real / 10real) / n) by (nonlinear_arith)
        requires
            0real < n <= f,
    ;
}

/// In the core, where the strength is more than one, nothing is left of what
/// the pixel held.
pub proof fn lemma_core_covers(a: real, b: real, spoke: real, glow: real, w: real)
    requires
        w > 1real,
    ensures
        lit(a, spoke, glow, w) == lit(b, spoke, glow, w),
{
}

/// At the very centre the nova is nine hundred strong, and unless the spoke
/// there is all but dark the highlight alone fills the channel: the centre is
/// full in every channel, whatever the pixel held and whatever colour the
/// spoke has.
pub proof fn lemma_centre_is_full(existing: real, spoke: real, glow: real)
    requires
        0real <= spoke,
        1real / 900real <= glow,
    ensures
        falloff(0real) == 900real,
        quantized(lit(existing, spoke, glow, falloff(0real))) == 255,
{
    assert((9real / 10real) / (0real + 1real / 1000real) == 900real) by (nonlinear_arith);
    assert(glow * 900real >= 1real);
    assert(spoke * 900real >= 0real);
}

/// A spoke that is no darker than the pixel only lightens it, and the more so
/// the stronger the nova shines there.
pub proof fn lemma_lit_grows_with_strength(
    existing: real,
    spoke: real,
    glow: real,
    weak: real,
    strong: real,
)
    requires
        0real <= existing <= spoke <= 1real,
        0real <= glow,
        0real < weak <= strong,
    ensures
        existing <= lit(existing, spoke, glow, weak),
        lit(existing, spoke, glow, weak) <= lit(existing, spoke, glow, strong),
        lit(existing, spoke, glow, strong) <= 2real,
{
    assert(glow * weak <= glow * strong) by (nonlinear_arith)
        requires
            0real <= glow,
            weak <= strong,
    ;
    assert(0real <= glow * weak) by (nonlinear_arith)
        requires
            0real <= glow,
            0real < weak,
    ;
    assert(spoke * weak <= spoke * strong) by (nonlinear_arith)
        requires
            0real <= spoke,
            weak <= strong,
    ;
    assert(strong > 1real ==> spoke * strong >= spoke) by (nonlinear_arith)
        requires
            0real <= spoke,
    ;
    assert(weak > 1real ==> spoke * weak >= spoke) by (nonlinear_arith)
        requires
            0real <= spoke,
    ;
    assert(existing * (1real - weak) + spoke * weak == existing + (spoke - existing) * weak)
        by (nonlinear_arith);
    assert(existing * (1real - strong) + spoke * strong == existing + (spoke - existing) * strong)
        by (nonlinear_arith);
    assert(0real <= (spoke - existing) * weak <= (spoke - existing) * strong) by (nonlinear_arith)
        requires
            existing <= spoke,
            0real < weak <= strong,
    ;
    assert(weak <= 1real ==> (spoke - existing) * weak <= spoke - existing) by (nonlinear_arith)
        requires
            existing <= spoke,
            0real < weak,
    ;
    assert(strong <= 1real ==> (spoke - existing) * strong <= spoke - existing)
        by (nonlinear_arith)
        requires
            existing <= spoke,
            0real < strong,
    ;
}

/// Under a spoke that is no darker than the pixel, a channel moves away from
/// what it held by an amount that is bounded and that shrinks with the
/// distance from the centre: of two places that held the same, the one nearer
/// to the centre ends at least as bright as the other, and neither ends darker
/// than it was.
pub proof fn lemma_fades_with_distance(byte: u8, spoke: real, glow: real, near: real, far: real)
    requires
        intensity(byte) <= spoke <= 1real,
        0real <= glow,
        0real <= near <= far,
    ensures
        byte <= quantized(lit(intensity(byte), spoke, glow, falloff(far))),
        quantized(lit(intensity(byte), spoke, glow, falloff(far))) <= quantized(
            lit(intensity(byte), spoke, glow, falloff(near)),
        ),
        quantized(lit(intensity(byte), spoke, glow, falloff(near))) <= 255,
{
    lemma_falloff_decreases(near, far);
    lemma_quantized_is_a_byte(0real, byte);
    lemma_lit_grows_with_strength(intensity(byte), spoke, glow, falloff(far), falloff(near));
    lemma_quantized_grows(
        intensity(byte),
        lit(intensity(byte), spoke, glow, falloff(far)),
    );
    lemma_quantized_grows(
        lit(intensity(byte), spoke, glow, falloff(far)),
        lit(intensity(byte), spoke, glow, falloff(near)),
    );
}

/// The brighter of two intensities is not quantized to the lesser byte.
proof fn lemma_quantized_grows(x: real, y: real)
    requires
        x <= y,
    ensures
        quantized(x) <= quantized(y),
{
}

} // verus!
