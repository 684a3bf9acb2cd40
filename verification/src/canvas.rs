//! The pixel buffer and the walk over its pixels.
//!
//! An image of `width` by `height` pixels lies in a flat buffer of bytes, row
//! after row, four bytes to the pixel: red, green, blue and alpha. A buffer is
//! accepted only if it holds the image exactly; then every byte belongs to
//! one pixel, and shading the image is shading each pixel once.

use crate::error::NovaError;
use crate::spokes::SpokeTable;
use vstd::prelude::*;

verus! {

/// Bytes per pixel: red, green, blue and alpha, in this order.
pub const CHANNELS: usize = 4;

/// Where the pixel in column `x` of row `y` begins in a buffer whose rows lie
/// `rowstride` bytes apart.
pub open spec fn pixel_offset(x: int, y: int, rowstride: int) -> int {
    y * rowstride + 4 * x
}

/// The bytes that an image of `width` by `height` pixels takes.
pub open spec fn image_bytes(width: int, height: int) -> int {
    width * height * 4
}

/// The square of the image's diagonal, in pixels.
pub open spec fn diagonal_squared(width: int, height: int) -> int {
    width * width + height * height
}

/// Rows of `width` pixels, laid `rowstride` bytes apart, neither overlap nor
/// leave a buffer of `len` bytes.
pub open spec fn rows_fit(len: int, width: int, height: int, rowstride: int) -> bool {
    &&& rowstride >= 4 * width
    &&& height > 0 ==> (height - 1) * rowstride + 4 * width <= len
}

/// What is found of a buffer of `len` bytes that is to hold `height` rows of
/// `width` pixels at `rowstride`: a buffer that does not hold exactly four
/// bytes for each pixel has the wrong length; in one of the right length the
/// rows have to fit.
pub open spec fn layout_verdict(len: int, width: int, height: int, rowstride: int) -> Result<
    (),
    NovaError,
> {
    if len != image_bytes(width, height) {
        Err(NovaError::BufferLength)
    } else if !rows_fit(len, width, height, rowstride) {
        Err(NovaError::RowStride)
    } else {
        Ok(())
    }
}

/// The red, green and blue of the pixel that begins at byte `at`.
pub open spec fn rgb_at(bytes: Seq<u8>, at: int) -> (u8, u8, u8) {
    (bytes[at], bytes[at + 1], bytes[at + 2])
}

/// In `after` the pixel in column `x` of row `y` is shaded: its red, green and
/// blue are what `shade` gave for its column, its row and the red, green and
/// blue it has in `before`, and its alpha is as in `before`.
pub open spec fn pixel_shaded<B, C, F: Fn(&SpokeTable<B, C>, usize, usize, (u8, u8, u8)) -> (
    u8,
    u8,
    u8,
)>(
    shade: F,
    spokes: SpokeTable<B, C>,
    before: Seq<u8>,
    after: Seq<u8>,
    rowstride: int,
    x: usize,
    y: usize,
) -> bool {
    let at = pixel_offset(x as int, y as int, rowstride);
    &&& call_ensures(shade, (&spokes, x, y, rgb_at(before, at)), rgb_at(after, at))
    &&& after[at + 3] == before[at + 3]
}

/// `after` is `before` with every pixel shaded.
pub open spec fn composited<B, C, F: Fn(&SpokeTable<B, C>, usize, usize, (u8, u8, u8)) -> (
    u8,
    u8,
    u8,
)>(
    shade: F,
    spokes: SpokeTable<B, C>,
    before: Seq<u8>,
    after: Seq<u8>,
    rowstride: int,
    width: int,
    height: int,
) -> bool {
    &&& after.len() == before.len()
    &&& forall|x: usize, y: usize|
        x < width && y < height ==> #[trigger] pixel_shaded(
            shade,
            spokes,
            before,
            after,
            rowstride,
            x,
            y,
        )
}

/// The length of the buffer that holds an image of `width` by `height`
/// pixels exactly, if there is such a length on this machine.
pub fn buffer_len(width: usize, height: usize) -> (len: Option<usize>)
    ensures
        len == if image_bytes(width as int, height as int) <= usize::MAX {
            Some(image_bytes(width as int, height as int) as usize)
        } else {
            None
        },
{
    if width == 0 || height == 0 {
        proof {
            assert(width * height * 4 == 0) by (nonlinear_arith)
                requires
                    width == 0 || height == 0,
            ;
        }
        return Some(0);
    }
    proof {
        assert(width * height * 4 >= width * height >= 1) by (nonlinear_arith)
            requires
                width >= 1,
                height >= 1,
        ;
    }
    match width.checked_mul(height) {
        Some(pixels) => pixels.checked_mul(CHANNELS),
        None => None,
    }
}

/// The square of the image's diagonal, in pixels, if it can be counted on
/// this machine. It can for every image that fits a buffer.
pub fn squared_diagonal(width: usize, height: usize) -> (d: Option<u128>)
    ensures
        d == if diagonal_squared(width as int, height as int) <= u128::MAX {
            Some(diagonal_squared(width as int, height as int) as u128)
        } else {
            None
        },
        image_bytes(width as int, height as int) <= usize::MAX ==> d is Some,
{
    proof {
        // One side may be as long as a buffer only if the other is nothing.
        assert(width * height * 4 <= usize::MAX ==> width * width + height * height <= u128::MAX)
            by (nonlinear_arith)
            requires
                0 <= width <= usize::MAX,
                0 <= height <= usize::MAX,
                usize::MAX <= 0xffff_ffff_ffff_ffff,
                u128::MAX == 0xffff_ffff_ffff_ffff_ffff_ffff_ffff_ffff,
        ;
        assert(width * width <= u128::MAX && height * height <= u128::MAX) by (nonlinear_arith)
            requires
                0 <= width <= usize::MAX,
                0 <= height <= usize::MAX,
                usize::MAX <= 0xffff_ffff_ffff_ffff,
                u128::MAX == 0xffff_ffff_ffff_ffff_ffff_ffff_ffff_ffff,
        ;
    }
    let w: u128 = width as u128;
    let h: u128 = height as u128;
    (w * w).checked_add(h * h)
}

/// Checks that a buffer of `len` bytes holds `height` rows of `width` pixels at
/// `rowstride`.
pub fn check_layout(len: usize, width: usize, height: usize, rowstride: usize) -> (r: Result<
    (),
    NovaError,
>)
    ensures
        r == layout_verdict(len as int, width as int, height as int, rowstride as int),
{
    let row_bytes: usize = match width.checked_mul(CHANNELS) {
        Some(bytes) => bytes,
        None => {
            // No stride spans a row this wide, and only an image without rows
            // is small enough for a buffer.
            proof {
                assert(height > 0 ==> width * height * 4 >= width * 4) by (nonlinear_arith);
                assert(height == 0 ==> width * height * 4 == 0) by (nonlinear_arith);
            }
            if height == 0 && len == 0 {
                return Err(NovaError::RowStride);
            }
            return Err(NovaError::BufferLength);
        },
    };
    proof {
        assert(width * height * 4 == row_bytes * height) by (nonlinear_arith)
            requires
                row_bytes == width * 4,
        ;
    }
    match row_bytes.checked_mul(height) {
        Some(bytes) if bytes == len => {},
        _ => {
            return Err(NovaError::BufferLength);
        },
    }
    // The rows fill the buffer exactly, so they fit only side by side: a
    // wider stride is in order only where there is no second row.
    proof {
        assert(height > 0 && rowstride >= row_bytes ==> ((height - 1) * rowstride + row_bytes <= len
            <==> (height == 1 || rowstride == row_bytes))) by (nonlinear_arith)
            requires
                len == row_bytes * height,
        ;
    }
    if rowstride < row_bytes || (height > 1 && rowstride > row_bytes) {
        return Err(NovaError::RowStride);
    }
    Ok(())
}

/// Shades every pixel of the image in `pixels`, row by row and from left to
/// right.
///
/// A buffer whose layout is not accepted is refused and left as it was.
/// Otherwise each pixel's red, green and blue become what `shade` gives for
/// the table of spokes, the pixel's column, its row and its old red, green and
/// blue. Alpha stays, and with it every byte is accounted for.
pub fn composite<B, C, F>(
    spokes: &SpokeTable<B, C>,
    pixels: &mut [u8],
    rowstride: usize,
    width: usize,
    height: usize,
    shade: F,
) -> (r: Result<(), NovaError>) where
    F: Fn(&SpokeTable<B, C>, usize, usize, (u8, u8, u8)) -> (u8, u8, u8),

    requires
        forall|x: usize, y: usize, rgb: (u8, u8, u8)|
            x < width && y < height ==> #[trigger] call_requires(shade, (spokes, x, y, rgb)),
    ensures
        r == layout_verdict(
            old(pixels)@.len() as int,
            width as int,
            height as int,
            rowstride as int,
        ),
        r is Err ==> final(pixels)@ == old(pixels)@,
        r is Ok ==> composited(
            shade,
            *spokes,
            old(pixels)@,
            final(pixels)@,
            rowstride as int,
            width as int,
            height as int,
        ),
{
    let len: usize = pixels.len();
    match check_layout(len, width, height, rowstride) {
        Err(e) => {
            return Err(e);
        },
        Ok(()) => {},
    }
    let ghost before = pixels@;
    let mut y: usize = 0;
    while y < height
        invariant
            y <= height,
            pixels@.len() == len,
            before.len() == len,
            layout_verdict(len as int, width as int, height as int, rowstride as int) is Ok,
            forall|x: usize, y: usize, rgb: (u8, u8, u8)|
                x < width && y < height ==> #[trigger] call_requires(shade, (spokes, x, y, rgb)),
            forall|j: int| 4 * (y * width) <= j < len ==> pixels@[j] == before[j],
            forall|i: usize, k: usize|
                i < width && k < y ==> #[trigger] pixel_shaded(
                    shade,
                    *spokes,
                    before,
                    pixels@,
                    rowstride as int,
                    i,
                    k,
                ),
        decreases height - y,
    {
        let mut x: usize = 0;
        while x < width
            invariant
                x <= width,
                y < height,
                pixels@.len() == len,
                before.len() == len,
                layout_verdict(len as int, width as int, height as int, rowstride as int) is Ok,
                forall|x: usize, y: usize, rgb: (u8, u8, u8)|
                    x < width && y < height ==> #[trigger] call_requires(
                        shade,
                        (spokes, x, y, rgb),
                    ),
                forall|j: int| 4 * (y * width + x) <= j < len ==> pixels@[j] == before[j],
                forall|i: usize, k: usize|
                    i < width && (k < y || (k == y && i < x)) ==> #[trigger] pixel_shaded(
                        shade,
                        *spokes,
                        before,
                        pixels@,
                        rowstride as int,
                        i,
                        k,
                    ),
            decreases width - x,
        {
            proof {
                lemma_pixels_are_packed(
                    len as int,
                    width as int,
                    height as int,
                    rowstride as int,
                    x as int,
                    y as int,
                );
                assert(y * rowstride >= 0) by (nonlinear_arith)
                    requires
                        y >= 0,
                        rowstride >= 0,
                ;
            }
            let at: usize = y * rowstride + CHANNELS * x;
            let ghost earlier = pixels@;
            let rgb = shade(spokes, x, y, (pixels[at], pixels[at + 1], pixels[at + 2]));
            pixels[at] = rgb.0;
            pixels[at + 1] = rgb.1;
            pixels[at + 2] = rgb.2;
            proof {
                assert forall|i: usize, k: usize|
                    i < width && (k < y || (k == y && i < x)) implies #[trigger] pixel_shaded(
                    shade,
                    *spokes,
                    before,
                    pixels@,
                    rowstride as int,
                    i,
                    k,
                ) by {
                    // A pixel shaded earlier lies wholly before this one.
                    assert(pixel_shaded(shade, *spokes, before, earlier, rowstride as int, i, k));
                    lemma_pixels_are_packed(
                        len as int,
                        width as int,
                        height as int,
                        rowstride as int,
                        i as int,
                        k as int,
                    );
                    assert(k * width + i < y * width + x) by (nonlinear_arith)
                        requires
                            i < width,
                            x <= width,
                            k < y || (k == y && i < x),
                            0 <= k,
                            0 <= i,
                    ;
                }
            }
            x += 1;
        }
        proof {
            assert(4 * (y * width + width) == 4 * ((y + 1) * width)) by (nonlinear_arith);
        }
        y += 1;
    }
    Ok(())
}

/// In a buffer whose layout is accepted, rows that have a row after them are
/// exactly one stride long: only a single row may be followed by bytes that
/// the stride counts and the buffer does not hold.
pub proof fn lemma_accepted_stride(len: int, width: int, height: int, rowstride: int)
    requires
        0 <= width,
        0 <= height,
        layout_verdict(len, width, height, rowstride) is Ok,
    ensures
        rowstride >= 4 * width,
        height >= 2 ==> rowstride == 4 * width,
{
    assert(height >= 2 ==> rowstride <= 4 * width) by (nonlinear_arith)
        requires
            0 <= width,
            rowstride >= 4 * width,
            height > 0 ==> (height - 1) * rowstride + 4 * width <= width * height * 4,
    ;
}

/// In a buffer whose layout is accepted the pixels lie one after another
/// without a gap: the pixel in column `x` of row `y` begins at four times its
/// number in reading order.
pub proof fn lemma_pixels_are_packed(
    len: int,
    width: int,
    height: int,
    rowstride: int,
    x: int,
    y: int,
)
    requires
        0 <= len,
        0 <= width,
        0 <= height,
        0 <= rowstride,
        layout_verdict(len, width, height, rowstride) is Ok,
        0 <= x < width,
        0 <= y < height,
    ensures
        pixel_offset(x, y, rowstride) == 4 * (y * width + x),
        0 <= pixel_offset(x, y, rowstride),
        pixel_offset(x, y, rowstride) + 4 <= len,
{
    assert(y * rowstride == 4 * (y * width)) by (nonlinear_arith)
        requires
            0 <= width,
            0 <= y < height,
            rowstride >= 4 * width,
            (height - 1) * rowstride + 4 * width <= width * height * 4,
    ;
    assert(4 * (y * width + x) + 4 <= width * height * 4) by (nonlinear_arith)
        requires
            0 <= x < width,
            0 <= y < height,
    ;
}

/// In a buffer whose layout is accepted every byte belongs to a pixel: byte `j`
/// is channel `j % 4` of the pixel whose number in reading order is `j / 4`.
pub proof fn lemma_bytes_belong_to_pixels(
    len: int,
    width: int,
    height: int,
    rowstride: int,
    j: int,
)
    requires
        0 <= width,
        0 <= height,
        0 <= rowstride,
        layout_verdict(len, width, height, rowstride) is Ok,
        0 <= j < len,
    ensures
        width > 0,
        0 <= (j / 4) % width < width,
        0 <= (j / 4) / width < height,
        j == pixel_offset((j / 4) % width, (j / 4) / width, rowstride) + j % 4,
{
    let p = j / 4;
    assert(width > 0 && p < width * height) by (nonlinear_arith)
        requires
            0 <= width,
            0 <= height,
            0 <= j < width * height * 4,
            p == j / 4,
    ;
    vstd::arithmetic::div_mod::lemma_fundamental_div_mod(p, width);
    let x = p % width;
    let y = p / width;
    assert(0 <= y < height) by (nonlinear_arith)
        requires
            0 <= p < width * height,
            p == width * y + x,
            0 <= x < width,
            0 <= height,
    ;
    lemma_pixels_are_packed(len, width, height, rowstride, x, y);
    assert(y * width + x == p) by (nonlinear_arith)
        requires
            p == width * y + x,
    ;
}

/// Shading keeps alpha: in a buffer whose layout is accepted every fourth
/// byte, counted from the fourth, is after shading what it was before.
pub proof fn lemma_alpha_is_kept<B, C, F: Fn(&SpokeTable<B, C>, usize, usize, (u8, u8, u8)) -> (
    u8,
    u8,
    u8,
)>(
    shade: F,
    spokes: SpokeTable<B, C>,
    before: Seq<u8>,
    after: Seq<u8>,
    rowstride: usize,
    width: usize,
    height: usize,
)
    requires
        layout_verdict(before.len() as int, width as int, height as int, rowstride as int) is Ok,
        composited(shade, spokes, before, after, rowstride as int, width as int, height as int),
    ensures
        forall|j: int| 0 <= j < before.len() && j % 4 == 3 ==> after[j] == before[j],
{
    assert forall|j: int| 0 <= j < before.len() && j % 4 == 3 implies after[j] == before[j] by {
        lemma_bytes_belong_to_pixels(
            before.len() as int,
            width as int,
            height as int,
            rowstride as int,
            j,
        );
        let x = ((j / 4) % (width as int)) as usize;
        let y = ((j / 4) / (width as int)) as usize;
        assert(pixel_shaded(shade, spokes, before, after, rowstride as int, x, y));
    }
}

} // verus!
