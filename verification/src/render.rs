//! The nova as a whole: the spokes are generated, then every pixel is shaded.

use crate::canvas::check_layout;
use crate::canvas::composite;
use crate::canvas::composited;
use crate::canvas::layout_verdict;
use crate::error::NovaError;
use crate::spokes::is_walk;
use crate::spokes::SpokeTable;
use vstd::prelude::*;

verus! {

/// What is found of a request for `n_spokes` spokes on a buffer of `len`
/// bytes: a nova has at least one spoke, and the buffer has to hold the image.
pub open spec fn nova_verdict(
    n_spokes: int,
    len: int,
    width: int,
    height: int,
    rowstride: int,
) -> Result<(), NovaError> {
    if n_spokes == 0 {
        Err(NovaError::NoSpokes)
    } else {
        layout_verdict(len, width, height, rowstride)
    }
}

/// Renders a nova of `n_spokes` spokes onto the image in `pixels`.
///
/// The request is checked first, and a refused one leaves the buffer as it
/// was. Then the spokes are generated by walking `step` from `start`, and
/// `shade` is applied to every pixel with the table of those spokes: each
/// pixel's red, green and blue become what `shade` gives for its column, its
/// row and its old red, green and blue. Alpha stays.
pub fn nova<S, B, C, W, P>(
    n_spokes: usize,
    start: S,
    step: W,
    pixels: &mut [u8],
    rowstride: usize,
    width: usize,
    height: usize,
    shade: P,
) -> (r: Result<(), NovaError>) where
    W: Fn(S) -> (S, B, C),
    P: Fn(&SpokeTable<B, C>, usize, usize, (u8, u8, u8)) -> (u8, u8, u8),

    requires
        call_requires(step, (start,)),
        forall|s: S, out: (S, B, C)| #[trigger]
            call_ensures(step, (s,), out) ==> call_requires(step, (out.0,)),
        forall|spokes: SpokeTable<B, C>, x: usize, y: usize, rgb: (u8, u8, u8)|
            spokes@.len() == n_spokes && x < width && y < height ==> #[trigger] call_requires(
                shade,
                (&spokes, x, y, rgb),
            ),
    ensures
        r == nova_verdict(
            n_spokes as int,
            old(pixels)@.len() as int,
            width as int,
            height as int,
            rowstride as int,
        ),
        r is Err ==> final(pixels)@ == old(pixels)@,
        r is Ok ==> exists|spokes: SpokeTable<B, C>, states: Seq<S>|
            {
                &&& spokes@.len() == n_spokes
                &&& #[trigger] is_walk(step, start, states, spokes@)
                &&& composited(
                    shade,
                    spokes,
                    old(pixels)@,
                    final(pixels)@,
                    rowstride as int,
                    width as int,
                    height as int,
                )
            },
{
    if n_spokes == 0 {
        return Err(NovaError::NoSpokes);
    }
    match check_layout(pixels.len(), width, height, rowstride) {
        Err(e) => {
            return Err(e);
        },
        Ok(()) => {},
    }
    match SpokeTable::generate(n_spokes, start, step) {
        Err(e) => Err(e),
        Ok(spokes) => composite(&spokes, pixels, rowstride, width, height, shade),
    }
}

} // verus!
