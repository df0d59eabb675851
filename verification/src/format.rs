//! Geometry of a stored frame: one full-resolution luma plane followed by the
//! U and the V plane, each at half the width and half the height.

use vstd::prelude::*;

verus! {

/// Width of every stored frame, in luma samples.
pub const RAW_WIDTH: usize = 384;

/// Height of every stored frame, in luma samples.
pub const RAW_HEIGHT: usize = 216;

/// Samples in one row of a chroma plane: half of `RAW_WIDTH`.
pub const CHROMA_WIDTH: usize = 192;

/// Rows in a chroma plane: half of `RAW_HEIGHT`.
pub const CHROMA_HEIGHT: usize = 108;

/// Bytes in one stored frame: the luma plane and the two chroma planes.
pub const RAW_BYTES_PER_FRAME: usize = 124416;

/// Bytes in the luma plane.
pub open spec fn luma_len() -> int {
    RAW_WIDTH * RAW_HEIGHT
}

/// Bytes in one chroma plane.
pub open spec fn chroma_len() -> int {
    CHROMA_WIDTH * CHROMA_HEIGHT
}

/// Whether `(sx, sy)` names a luma sample of the frame.
pub open spec fn in_frame(sx: int, sy: int) -> bool {
    0 <= sx < RAW_WIDTH && 0 <= sy < RAW_HEIGHT
}

/// Position in the frame of the luma sample at `(sx, sy)`.
pub open spec fn luma_index(sx: int, sy: int) -> int {
    sy * RAW_WIDTH + sx
}

/// Position inside a chroma plane of the sample that covers luma `(sx, sy)`:
/// one chroma sample serves a block of two by two luma samples.
pub open spec fn chroma_index(sx: int, sy: int) -> int {
    (sy / 2) * CHROMA_WIDTH + sx / 2
}

/// Position in the frame of the U sample for luma `(sx, sy)`.
pub open spec fn u_index(sx: int, sy: int) -> int {
    luma_len() + chroma_index(sx, sy)
}

/// Position in the frame of the V sample for luma `(sx, sy)`.
pub open spec fn v_index(sx: int, sy: int) -> int {
    luma_len() + chroma_len() + chroma_index(sx, sy)
}

/// One sample of a frame: luma with the chroma pair that covers it.
#[derive(Clone, Copy, Debug, PartialEq, Eq, Structural)]
pub struct Yuv {
    pub y: u8,
    pub u: u8,
    pub v: u8,
}

/// The sample that `frame` holds for luma position `(sx, sy)`.
pub open spec fn sample_at(frame: Seq<u8>, sx: int, sy: int) -> Yuv {
    Yuv {
        y: frame[luma_index(sx, sy)],
        u: frame[u_index(sx, sy)],
        v: frame[v_index(sx, sy)],
    }
}

/// The sizes of the planes, as numbers.
pub proof fn lemma_plane_sizes()
    ensures
        luma_len() == 82944,
        chroma_len() == 20736,
        CHROMA_WIDTH == RAW_WIDTH / 2,
        CHROMA_HEIGHT == RAW_HEIGHT / 2,
{
    assert(RAW_WIDTH * RAW_HEIGHT == 82944) by (nonlinear_arith)
        requires
            RAW_WIDTH == 384,
            RAW_HEIGHT == 216,
    ;
    assert(CHROMA_WIDTH * CHROMA_HEIGHT == 20736) by (nonlinear_arith)
        requires
            CHROMA_WIDTH == 192,
            CHROMA_HEIGHT == 108,
    ;
}

/// The three planes fill the frame exactly, which makes a frame one and a
/// half times its luma plane.
pub proof fn lemma_frame_size()
    ensures
        luma_len() + 2 * chroma_len() == RAW_BYTES_PER_FRAME,
        (luma_len() * 3) / 2 == RAW_BYTES_PER_FRAME,
        RAW_BYTES_PER_FRAME > 0,
{
    lemma_plane_sizes();
}

/// Every luma position of the frame has its three samples inside the frame,
/// each in its own plane.
pub proof fn lemma_sample_in_frame(sx: int, sy: int)
    requires
        in_frame(sx, sy),
    ensures
        0 <= luma_index(sx, sy) < luma_len(),
        0 <= chroma_index(sx, sy) < chroma_len(),
        luma_len() <= u_index(sx, sy) < luma_len() + chroma_len(),
        luma_len() + chroma_len() <= v_index(sx, sy) < RAW_BYTES_PER_FRAME,
{
    lemma_plane_sizes();
}

/// Luma positions in the same block of two by two share one chroma position.
pub proof fn lemma_block_shares_chroma(ax: int, ay: int, bx: int, by: int)
    requires
        ax / 2 == bx / 2,
        ay / 2 == by / 2,
    ensures
        chroma_index(ax, ay) == chroma_index(bx, by),
        u_index(ax, ay) == u_index(bx, by),
        v_index(ax, ay) == v_index(bx, by),
{
}

/// Reads the sample for luma position `(sx, sy)` out of a frame.
pub fn fetch_sample(frame: &[u8], sx: usize, sy: usize) -> (s: Yuv)
    requires
        frame@.len() >= RAW_BYTES_PER_FRAME,
        in_frame(sx as int, sy as int),
    ensures
        s == sample_at(frame@, sx as int, sy as int),
{
    proof {
        lemma_sample_in_frame(sx as int, sy as int);
    }
    let chroma: usize = (sy / 2) * CHROMA_WIDTH + sx / 2;
    let u_plane: usize = RAW_WIDTH * RAW_HEIGHT;
    let v_plane: usize = u_plane + CHROMA_WIDTH * CHROMA_HEIGHT;
    Yuv { y: frame[sy * RAW_WIDTH + sx], u: frame[u_plane + chroma], v: frame[v_plane + chroma] }
}

} // verus!
