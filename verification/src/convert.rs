//! Conversion of a whole frame to packed RGB at a chosen resolution.
//!
//! Every output pixel takes the source sample nearest to it, with no blending,
//! so the picture is stretched to the target in both directions.

use vstd::prelude::*;
use vstd::arithmetic::div_mod::{
    lemma_fundamental_div_mod, lemma_fundamental_div_mod_converse, lemma_mod_pos_bound,
};
use crate::color::{lemma_neutral_chroma_is_grey, rgb_of, yuv_to_rgb, Pixel};
use crate::format::{
    fetch_sample, in_frame, lemma_block_shares_chroma, lemma_sample_in_frame, luma_index,
    sample_at, u_index, v_index, Yuv, RAW_BYTES_PER_FRAME, RAW_HEIGHT, RAW_WIDTH,
};
use crate::scale::{lemma_scaled_identity, lemma_scaled_in_bounds, scale_coord, scaled_coord};

verus! {

/// Source column for output column `x` of a picture `target_width` wide.
pub open spec fn source_x(x: int, target_width: int) -> int {
    scaled_coord(x, target_width, RAW_WIDTH as int)
}

/// Source row for output row `y` of a picture `target_height` high.
pub open spec fn source_y(y: int, target_height: int) -> int {
    scaled_coord(y, target_height, RAW_HEIGHT as int)
}

/// The pixel at column `x` and row `y` of the picture that `frame` gives at
/// `target_width` by `target_height`.
pub open spec fn pixel_at(
    frame: Seq<u8>,
    target_width: int,
    target_height: int,
    x: int,
    y: int,
) -> Pixel {
    rgb_of(sample_at(frame, source_x(x, target_width), source_y(y, target_height)))
}

/// The picture that `frame` gives at `target_width` by `target_height`: its
/// pixels row by row from the top, each row from the left.
pub open spec fn converted(frame: Seq<u8>, target_width: int, target_height: int) -> Seq<Pixel> {
    Seq::new(
        (target_width * target_height) as nat,
        |i: int| pixel_at(frame, target_width, target_height, i % target_width, i / target_width),
    )
}

/// The pixel of column `x` and row `y` stands at `y * target_width + x`.
pub proof fn lemma_converted_at(
    frame: Seq<u8>,
    target_width: int,
    target_height: int,
    x: int,
    y: int,
)
    requires
        0 <= x < target_width,
        0 <= y < target_height,
    ensures
        0 <= y * target_width + x < target_width * target_height,
        converted(frame, target_width, target_height).len() == target_width * target_height,
        converted(frame, target_width, target_height)[y * target_width + x] == pixel_at(
            frame,
            target_width,
            target_height,
            x,
            y,
        ),
{
    lemma_row_major(target_width, target_height, x, y);
}

/// Row-major positions: column `x` of row `y` is inside the picture, and the
/// position gives the column and the row back.
proof fn lemma_row_major(width: int, height: int, x: int, y: int)
    requires
        0 <= x < width,
        0 <= y < height,
    ensures
        0 <= y * width + x < width * height,
        (y * width + x) % width == x,
        (y * width + x) / width == y,
{
    assert(0 <= y * width && (y + 1) * width <= width * height && (y + 1) * width == y * width
        + width) by (nonlinear_arith)
        requires
            0 <= y < height,
            0 < width,
    ;
    lemma_fundamental_div_mod_converse(y * width + x, width, y, x);
}

/// Every output pixel reads inside the frame, whatever the target size.
pub proof fn lemma_source_in_frame(target_width: int, target_height: int, x: int, y: int)
    requires
        0 <= x < target_width,
        0 <= y < target_height,
    ensures
        in_frame(source_x(x, target_width), source_y(y, target_height)),
{
    lemma_scaled_in_bounds(x, target_width, RAW_WIDTH as int);
    lemma_scaled_in_bounds(y, target_height, RAW_HEIGHT as int);
}

/// At the frame's own resolution every output pixel is the sample at its own
/// position: nothing drifts.
pub proof fn lemma_identity_scaling(frame: Seq<u8>, x: int, y: int)
    ensures
        source_x(x, RAW_WIDTH as int) == x,
        source_y(y, RAW_HEIGHT as int) == y,
        pixel_at(frame, RAW_WIDTH as int, RAW_HEIGHT as int, x, y) == rgb_of(
            sample_at(frame, x, y),
        ),
{
    lemma_scaled_identity(x, RAW_WIDTH as int);
    lemma_scaled_identity(y, RAW_HEIGHT as int);
}

/// Output pixels whose source samples lie in one block of two by two are
/// coloured by the same chroma pair; only their luma can differ.
pub proof fn lemma_chroma_sharing(
    frame: Seq<u8>,
    target_width: int,
    target_height: int,
    ax: int,
    ay: int,
    bx: int,
    by: int,
)
    requires
        source_x(ax, target_width) / 2 == source_x(bx, target_width) / 2,
        source_y(ay, target_height) / 2 == source_y(by, target_height) / 2,
    ensures
        ({
            let a = sample_at(frame, source_x(ax, target_width), source_y(ay, target_height));
            let b = sample_at(frame, source_x(bx, target_width), source_y(by, target_height));
            &&& a.u == b.u
            &&& a.v == b.v
            &&& pixel_at(frame, target_width, target_height, ax, ay) == rgb_of(a)
            &&& pixel_at(frame, target_width, target_height, bx, by) == rgb_of(
                Yuv { y: b.y, u: a.u, v: a.v },
            )
        }),
{
    lemma_block_shares_chroma(
        source_x(ax, target_width),
        source_y(ay, target_height),
        source_x(bx, target_width),
        source_y(by, target_height),
    );
}

/// A pixel whose source sample is mid-grey without colour, luma and both
/// chroma values at 128, is the grey pixel (128, 128, 128).
pub proof fn lemma_mid_grey_pixel(
    frame: Seq<u8>,
    target_width: int,
    target_height: int,
    x: int,
    y: int,
)
    requires
        sample_at(frame, source_x(x, target_width), source_y(y, target_height)) == (Yuv {
            y: 128,
            u: 128,
            v: 128,
        }),
    ensures
        pixel_at(frame, target_width, target_height, x, y) == (Pixel {
            red: 128,
            green: 128,
            blue: 128,
        }),
{
    lemma_neutral_chroma_is_grey(Yuv { y: 128, u: 128, v: 128 });
}

/// The picture is fixed by the bytes of the frame and the target size, and by
/// nothing else: frames that agree in their first `RAW_BYTES_PER_FRAME` bytes
/// give the same picture.
pub proof fn lemma_picture_fixed_by_frame(
    a: Seq<u8>,
    b: Seq<u8>,
    target_width: int,
    target_height: int,
)
    requires
        0 <= target_width,
        0 <= target_height,
        a.len() >= RAW_BYTES_PER_FRAME,
        b.len() >= RAW_BYTES_PER_FRAME,
        a.subrange(0, RAW_BYTES_PER_FRAME as int) == b.subrange(0, RAW_BYTES_PER_FRAME as int),
    ensures
        converted(a, target_width, target_height) == converted(b, target_width, target_height),
{
    let pa = converted(a, target_width, target_height);
    let pb = converted(b, target_width, target_height);
    assert forall|i: int| 0 <= i < pa.len() implies pa[i] == pb[i] by {
        assert(0 < target_width && 0 < target_height) by (nonlinear_arith)
            requires
                0 <= target_width,
                0 <= target_height,
                0 <= i < target_width * target_height,
        ;
        let x = i % target_width;
        let y = i / target_width;
        lemma_fundamental_div_mod(i, target_width);
        lemma_mod_pos_bound(i, target_width);
        assert(0 <= y < target_height) by (nonlinear_arith)
            requires
                0 < target_width,
                0 <= x < target_width,
                i == target_width * y + x,
                0 <= i < target_width * target_height,
        ;
        lemma_source_in_frame(target_width, target_height, x, y);
        let sx = source_x(x, target_width);
        let sy = source_y(y, target_height);
        lemma_sample_in_frame(sx, sy);
        let head_a = a.subrange(0, RAW_BYTES_PER_FRAME as int);
        let head_b = b.subrange(0, RAW_BYTES_PER_FRAME as int);
        assert(a[luma_index(sx, sy)] == head_a[luma_index(sx, sy)]);
        assert(a[u_index(sx, sy)] == head_a[u_index(sx, sy)]);
        assert(a[v_index(sx, sy)] == head_a[v_index(sx, sy)]);
        assert(b[luma_index(sx, sy)] == head_b[luma_index(sx, sy)]);
        assert(b[u_index(sx, sy)] == head_b[u_index(sx, sy)]);
        assert(b[v_index(sx, sy)] == head_b[v_index(sx, sy)]);
    }
    assert(pa =~= pb);
}

/// Fills `blt_buffer` with the picture that the frame in `yuv_buffer` gives at
/// `target_width` by `target_height`.
///
/// The buffer holds one pixel for each point of the target; with a width or a
/// height of zero it is empty and nothing is written. Bytes of `yuv_buffer`
/// behind the first frame are not read.
pub fn yuv420p_to_rgb24(
    yuv_buffer: &[u8],
    target_width: usize,
    target_height: usize,
    blt_buffer: &mut [Pixel],
)
    requires
        yuv_buffer@.len() >= RAW_BYTES_PER_FRAME,
        old(blt_buffer)@.len() == target_width * target_height,
    ensures
        final(blt_buffer)@ == converted(yuv_buffer@, target_width as int, target_height as int),
{
    let ghost picture = converted(yuv_buffer@, target_width as int, target_height as int);
    let mut index: usize = 0;
    let mut y: usize = 0;
    while y < target_height
        invariant
            yuv_buffer@.len() >= RAW_BYTES_PER_FRAME,
            blt_buffer@.len() == target_width * target_height,
            picture == converted(yuv_buffer@, target_width as int, target_height as int),
            y <= target_height,
            index == y * target_width,
            forall|i: int| 0 <= i < index ==> blt_buffer@[i] == picture[i],
        decreases target_height - y,
    {
        let mapped_y: usize = scale_coord(y, target_height, RAW_HEIGHT);
        let mut x: usize = 0;
        while x < target_width
            invariant
                yuv_buffer@.len() >= RAW_BYTES_PER_FRAME,
                blt_buffer@.len() == target_width * target_height,
                picture == converted(yuv_buffer@, target_width as int, target_height as int),
                y < target_height,
                x <= target_width,
                mapped_y == source_y(y as int, target_height as int),
                mapped_y < RAW_HEIGHT,
                index == y * target_width + x,
                forall|i: int| 0 <= i < index ==> blt_buffer@[i] == picture[i],
            decreases target_width - x,
        {
            proof {
                lemma_converted_at(
                    yuv_buffer@,
                    target_width as int,
                    target_height as int,
                    x as int,
                    y as int,
                );
            }
            let mapped_x: usize = scale_coord(x, target_width, RAW_WIDTH);
            let sample = fetch_sample(yuv_buffer, mapped_x, mapped_y);
            blt_buffer[index] = yuv_to_rgb(sample);
            index = index + 1;
            x = x + 1;
        }
        proof {
            assert((y + 1) * target_width == y * target_width + target_width)
                by (nonlinear_arith);
        }
        y = y + 1;
    }
    proof {
        assert(index == target_width * target_height) by (nonlinear_arith)
            requires
                index == y * target_width,
                y == target_height,
        ;
        assert(blt_buffer@ =~= picture);
    }
}

} // verus!
