//! Colours as red, green and blue and as hue, saturation and value: the two
//! conversions over the real numbers.
//!
//! These are the formulas that a caller's arithmetic follows, written down
//! exactly. A machine computes them in floating point and so only comes near
//! them; what is proved here is proved of the formulas. The conversion back to
//! red, green and blue hands out its candidate intensities by the table of
//! `crate::hue`, so the laws below hold of that table as the library uses it.

use crate::hue::arranged;
use vstd::prelude::*;

verus! {

/// How far below the greatest channel a channel may lie and still count as
/// the greatest: one millionth.
pub open spec fn tolerance() -> real {
    1real / 1000000real
}

/// `x` and `y` differ by less than the tolerance.
pub open spec fn near(x: real, y: real) -> bool {
    -tolerance() < x - y < tolerance()
}

/// The greatest of three numbers.
pub open spec fn greatest(x: real, y: real, z: real) -> real {
    if x < y {
        if y < z {
            z
        } else {
            y
        }
    } else if x < z {
        z
    } else {
        x
    }
}

/// The least of three numbers.
pub open spec fn least(x: real, y: real, z: real) -> real {
    if x < y {
        if x < z {
            x
        } else {
            z
        }
    } else if y < z {
        y
    } else {
        z
    }
}

/// The hue of a colour on a circle of six sectors. Red lies at 0, green at 2
/// and blue at 4. The channel that counts as the greatest says which third of
/// the circle the hue lies in, and the other two channels say where in it.
pub open spec fn hue6_of(r: real, g: real, b: real) -> real {
    let max: real = greatest(r, g, b);
    let delta: real = max - least(r, g, b);
    if delta > 0real {
        if near(max, r) {
            let q: real = (g - b) / delta;
            if q < 0real {
                q + 6real
            } else {
                q
            }
        } else if near(max, g) {
            2real + (b - r) / delta
        } else {
            4real + (r - g) / delta
        }
    } else {
        0real
    }
}

/// Hue, saturation and value of the colour with the given red, green and
/// blue. The value is the greatest channel, the saturation the spread of the
/// channels as a part of the value, and the hue a part of the full circle.
pub open spec fn hsv_of(r: real, g: real, b: real) -> (real, real, real) {
    let max: real = greatest(r, g, b);
    let delta: real = max - least(r, g, b);
    (
        hue6_of(r, g, b) / 6real,
        if max != 0real {
            delta / max
        } else {
            0real
        },
        max,
    )
}

/// The sector that a hue falls in, before it is counted around the circle.
pub open spec fn sector_of(h: real) -> int {
    (h * 6real).floor()
}

/// How far into its sector a hue lies, from 0 to 1.
pub open spec fn sector_part(h: real) -> real {
    h * 6real - sector_of(h) as real
}

/// The four candidate intensities of a colour: the value, the value at full
/// desaturation, and the two in between, one falling and one rising with the
/// position in the sector.
pub open spec fn candidates(h: real, s: real, v: real) -> Seq<real> {
    let f: real = sector_part(h);
    seq![v, v * (1real - s), v * (1real - s * f), v * (1real - s * (1real - f))]
}

/// Red, green and blue of the colour with the given hue, saturation and
/// value. Without saturation the colour is gray, whatever the hue.
pub open spec fn rgb_of(h: real, s: real, v: real) -> Seq<real> {
    if s == 0real {
        seq![v, v, v]
    } else {
        arranged(sector_of(h), candidates(h, s, v))
    }
}

/// A hue brought back onto the circle after one step: a step is at most half
/// the circle wide, so one turn up or down is enough.
pub open spec fn wrap_hue(h: real) -> real {
    if h < 0real {
        h + 1real
    } else if h >= 1real {
        h - 1real
    } else {
        h
    }
}

/// The hue after one step of the walk. The draw, a number from 0 up to 1,
/// decides the step: a draw of one half is no step at all, and no step is
/// wider than half of `random_hue` degrees to either side.
pub open spec fn drifted(h: real, random_hue: real, draw: real) -> real {
    wrap_hue(h + random_hue / 360real * (draw - 1real / 2real))
}

/// The hue after `n` steps of the walk that starts from `h` and takes its
/// steps from `draws`. The first spoke has the hue after one step, and each
/// spoke starts where the spoke before it left the walk.
pub open spec fn walked(h: real, random_hue: real, draws: Seq<real>, n: nat) -> real
    decreases n,
{
    if n == 0 {
        h
    } else {
        drifted(walked(h, random_hue, draws, (n - 1) as nat), random_hue, draws[n - 1])
    }
}

/// No channel counts as the greatest unless it is the greatest.
pub open spec fn peak_is_clear(r: real, g: real, b: real) -> bool {
    let max: real = greatest(r, g, b);
    &&& near(max, r) ==> r == max
    &&& near(max, g) ==> g == max
}

/// A part of a whole: the quotient is between -1 and 1, has the sign of the
/// part, and gives the part back when multiplied with the whole and a
/// multiple of the whole when shifted first.
proof fn lemma_part(a: real, d: real, k: real)
    by (nonlinear_arith)
    requires
        d > 0real,
        -d <= a <= d,
    ensures
        -1real <= a / d <= 1real,
        a / d >= 0real <==> a >= 0real,
        a / d == 1real <==> a == d,
        a / d == -1real <==> a == -d,
        d * (a / d + k) == a + k * d,
{
}

/// The candidates between the value `max` and the floor `min`, at the part
/// `f` of the sector.
proof fn lemma_between(max: real, min: real, f: real)
    by (nonlinear_arith)
    requires
        max != 0real,
    ensures
        max * (1real - (max - min) / max) == min,
        max * (1real - (max - min) / max * f) == max - (max - min) * f,
        max * (1real - (max - min) / max * (1real - f)) == min + (max - min) * f,
{
}

/// A colour with channels between 0 and 1 has a hue from 0 up to, but not
/// reaching, the full circle, and a saturation and a value between 0 and 1.
pub proof fn lemma_hsv_in_range(r: real, g: real, b: real)
    requires
        0real <= r <= 1real,
        0real <= g <= 1real,
        0real <= b <= 1real,
    ensures
        0real <= hsv_of(r, g, b).0 < 1real,
        0real <= hsv_of(r, g, b).1 <= 1real,
        0real <= hsv_of(r, g, b).2 <= 1real,
{
    let max = greatest(r, g, b);
    let min = least(r, g, b);
    let delta = max - min;
    if delta > 0real {
        lemma_part(g - b, delta, 0real);
        lemma_part(b - r, delta, 0real);
        lemma_part(r - g, delta, 0real);
        assert(0real <= delta / max <= 1real) by (nonlinear_arith)
            requires
                0real <= delta <= max,
                max > 0real,
        ;
    } else {
        assert(delta / max == 0real || max == 0real) by (nonlinear_arith)
            requires
                delta == 0real,
        ;
    }
}

/// Without saturation a colour is gray at every hue: red, green and blue are
/// all the value.
pub proof fn lemma_gray(h: real, v: real)
    ensures
        rgb_of(h, 0real, v) == seq![v, v, v],
{
}

/// Going to hue, saturation and value and back gives the colour again.
///
/// For every colour with channels between 0 and 1, each channel comes back
/// within the tolerance of what it was, and exactly as it was unless a channel
/// that is not the greatest lies so close under the greatest that it counts as
/// the greatest.
pub proof fn lemma_round_trip(r: real, g: real, b: real)
    requires
        0real <= r <= 1real,
        0real <= g <= 1real,
        0real <= b <= 1real,
    ensures
        ({
            let (h, s, v) = hsv_of(r, g, b);
            let back = rgb_of(h, s, v);
            &&& back.len() == 3
            &&& near(back[0], r)
            &&& near(back[1], g)
            &&& near(back[2], b)
            &&& peak_is_clear(r, g, b) ==> back == seq![r, g, b]
        }),
{
    let max = greatest(r, g, b);
    let min = least(r, g, b);
    let delta = max - min;
    let (h, s, v) = hsv_of(r, g, b);
    let back = rgb_of(h, s, v);
    if delta > 0real {
        let h6 = hue6_of(r, g, b);
        assert(h * 6real == h6);
        assert(s == delta / max);
        assert(s != 0real) by (nonlinear_arith)
            requires
                s == delta / max,
                delta > 0real,
                max > 0real,
        ;
        let i = sector_of(h);
        let f = sector_part(h);
        let c = candidates(h, s, v);
        lemma_between(max, min, f);
        assert(c[0] == max);
        assert(c[1] == min);
        assert(c[2] == max - delta * f);
        assert(c[3] == min + delta * f);
        if near(max, r) {
            let q = (g - b) / delta;
            if q < 0real {
                lemma_part(g - b, delta, 1real);
                assert(i == 5);
                assert(f == q + 1real);
                assert(delta * f == g - b + delta);
                assert(back =~= seq![c[0], c[1], c[2]]);
            } else {
                lemma_part(g - b, delta, 0real);
                if q == 1real {
                    assert(i == 1);
                    assert(f == 0real);
                    assert(delta * f == 0real) by (nonlinear_arith)
                        requires
                            f == 0real,
                    ;
                    assert(back =~= seq![c[2], c[0], c[1]]);
                } else {
                    assert(i == 0);
                    assert(f == q);
                    assert(delta * f == g - b);
                    assert(back =~= seq![c[0], c[3], c[1]]);
                }
            }
        } else if near(max, g) {
            let q = (b - r) / delta;
            if q < 0real {
                lemma_part(b - r, delta, 1real);
                assert(i == 1);
                assert(f == q + 1real);
                assert(delta * f == b - r + delta);
                assert(back =~= seq![c[2], c[0], c[1]]);
            } else {
                lemma_part(b - r, delta, 0real);
                if q == 1real {
                    assert(i == 3);
                    assert(f == 0real);
                    assert(delta * f == 0real) by (nonlinear_arith)
                        requires
                            f == 0real,
                    ;
                    assert(back =~= seq![c[1], c[2], c[0]]);
                } else {
                    assert(i == 2);
                    assert(f == q);
                    assert(delta * f == b - r);
                    assert(back =~= seq![c[1], c[0], c[3]]);
                }
            }
        } else {
            let q = (r - g) / delta;
            if q < 0real {
                lemma_part(r - g, delta, 1real);
                assert(i == 3);
                assert(f == q + 1real);
                assert(delta * f == r - g + delta);
                assert(back =~= seq![c[1], c[2], c[0]]);
            } else {
                lemma_part(r - g, delta, 0real);
                assert(q < 1real);
                assert(i == 4);
                assert(f == q);
                assert(delta * f == r - g);
                assert(back =~= seq![c[3], c[1], c[0]]);
            }
        }
    } else {
        assert(r == g && g == b);
        assert(s == 0real) by (nonlinear_arith)
            requires
                s == if max != 0real {
                    delta / max
                } else {
                    0real
                },
                delta == 0real,
        ;
        assert(back =~= seq![r, g, b]);
    }
}

/// A step of the walk leaves the hue on the circle.
pub proof fn lemma_drifted_in_range(h: real, random_hue: real, draw: real)
    requires
        0real <= h < 1real,
        0real <= random_hue <= 360real,
        0real <= draw < 1real,
    ensures
        0real <= drifted(h, random_hue, draw) < 1real,
{
    let part = random_hue / 360real;
    let jitter = draw - 1real / 2real;
    assert(-1real / 2real <= part * jitter <= 1real / 2real) by (nonlinear_arith)
        requires
            0real <= part <= 1real,
            -1real / 2real <= jitter <= 1real / 2real,
    ;
}

/// Without jitter the walk stands still: every spoke has the hue of the base
/// colour, whatever is drawn, and so all spokes have one colour, the one that
/// is made of the base colour's hue, saturation and value.
pub proof fn lemma_walk_without_jitter(r: real, g: real, b: real, draws: Seq<real>, n: nat)
    requires
        0real <= r <= 1real,
        0real <= g <= 1real,
        0real <= b <= 1real,
    ensures
        ({
            let (h, s, v) = hsv_of(r, g, b);
            &&& walked(h, 0real, draws, n) == h
            &&& rgb_of(walked(h, 0real, draws, n), s, v) == rgb_of(h, s, v)
        }),
    decreases n,
{
    lemma_hsv_in_range(r, g, b);
    if n > 0 {
        lemma_walk_without_jitter(r, g, b, draws, (n - 1) as nat);
        let jitter = draws[n - 1] - 1real / 2real;
        assert(0real / 360real * jitter == 0real) by (nonlinear_arith);
    }
}

/// With jitter the hue stays on the circle at every step.
pub proof fn lemma_walk_in_range(h: real, random_hue: real, draws: Seq<real>, n: nat)
    requires
        0real <= h < 1real,
        0real <= random_hue <= 360real,
        forall|k: int| 0 <= k < draws.len() ==> 0real <= #[trigger] draws[k] < 1real,
        n <= draws.len(),
    ensures
        0real <= walked(h, random_hue, draws, n) < 1real,
    decreases n,
{
    if n > 0 {
        lemma_walk_in_range(h, random_hue, draws, (n - 1) as nat);
        lemma_drifted_in_range(
            walked(h, random_hue, draws, (n - 1) as nat),
            random_hue,
            draws[n - 1],
        );
    }
}

} // verus!
