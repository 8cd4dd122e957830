//! Row-major RGB8 pixel buffers: the layout shared by the top-down renderer
//! and the mock camera, and the arithmetic facts about it.

use vstd::prelude::*;
use vstd::arithmetic::div_mod::lemma_fundamental_div_mod_converse;

verus! {

/// Byte offset of channel `k` of pixel `(x, y)` in a row-major RGB8 buffer
/// that is `w` pixels wide.
pub open spec fn rgb_offset(w: int, x: int, y: int, k: int) -> int {
    (y * w + x) * 3 + k
}

/// Column of the pixel that byte `j` belongs to.
pub open spec fn offset_column(w: int, j: int) -> int {
    (j / 3) % w
}

/// Row of the pixel that byte `j` belongs to.
pub open spec fn offset_row(w: int, j: int) -> int {
    (j / 3) / w
}

/// Decomposing the offset of a pixel channel gives back the pixel and channel.
pub proof fn lemma_rgb_offset_decomposes(w: int, x: int, y: int, k: int)
    requires
        0 <= x < w,
        0 <= y,
        0 <= k < 3,
    ensures
        rgb_offset(w, x, y, k) / 3 == y * w + x,
        rgb_offset(w, x, y, k) % 3 == k,
        offset_column(w, rgb_offset(w, x, y, k)) == x,
        offset_row(w, rgb_offset(w, x, y, k)) == y,
{
    let p = y * w + x;
    lemma_fundamental_div_mod_converse(rgb_offset(w, x, y, k), 3, p, k);
    lemma_fundamental_div_mod_converse(p, w, y, x);
}

/// Every offset inside a `w` by `h` buffer is the offset of one of its pixels.
pub proof fn lemma_offset_in_buffer(w: int, h: int, j: int)
    requires
        0 < w,
        0 <= h,
        0 <= j < w * h * 3,
    ensures
        0 <= offset_column(w, j) < w,
        0 <= offset_row(w, j) < h,
        0 <= j % 3 < 3,
        j == rgb_offset(w, offset_column(w, j), offset_row(w, j), j % 3),
{
    let p = j / 3;
    assert(j == p * 3 + j % 3) by (nonlinear_arith)
        requires
            p == j / 3,
    ;
    assert(p == (p / w) * w + p % w) by (nonlinear_arith)
        requires
            0 < w,
    ;
    assert(p < w * h) by (nonlinear_arith)
        requires
            p == j / 3,
            j < w * h * 3,
            0 <= j,
    ;
    assert(p / w < h) by (nonlinear_arith)
        requires
            0 <= p < w * h,
            0 < w,
    ;
    assert(0 <= p / w) by (nonlinear_arith)
        requires
            0 <= p,
            0 < w,
    ;
    assert((p / w) * w == w * (p / w)) by (nonlinear_arith);
}

/// The offset of a pixel channel lies inside a `w` by `h` buffer.
pub proof fn lemma_rgb_offset_in_buffer(w: int, h: int, x: int, y: int, k: int)
    requires
        0 <= x < w,
        0 <= y < h,
        0 <= k < 3,
    ensures
        0 <= rgb_offset(w, x, y, k) < w * h * 3,
{
    assert(0 <= y * w) by (nonlinear_arith)
        requires
            0 <= y,
            0 <= w,
    ;
    assert(y * w + x < w * h) by (nonlinear_arith)
        requires
            0 <= x < w,
            0 <= y < h,
    ;
}

/// Distinct pixel channels have distinct offsets.
pub proof fn lemma_rgb_offset_injective(w: int, x1: int, y1: int, k1: int, x2: int, y2: int, k2: int)
    requires
        0 <= x1 < w,
        0 <= y1,
        0 <= k1 < 3,
        0 <= x2 < w,
        0 <= y2,
        0 <= k2 < 3,
        rgb_offset(w, x1, y1, k1) == rgb_offset(w, x2, y2, k2),
    ensures
        x1 == x2,
        y1 == y2,
        k1 == k2,
{
    lemma_rgb_offset_decomposes(w, x1, y1, k1);
    lemma_rgb_offset_decomposes(w, x2, y2, k2);
}

/// Offsets of consecutive pixels of a row-major scan follow each other.
pub proof fn lemma_rgb_offset_next(w: int, x: int, y: int)
    requires
        0 <= x < w,
        0 <= y,
    ensures
        rgb_offset(w, x, y, 0) + 3 == (if x + 1 < w {
            rgb_offset(w, x + 1, y, 0)
        } else {
            rgb_offset(w, 0, y + 1, 0)
        }),
{
    assert((y + 1) * w == y * w + w) by (nonlinear_arith);
}

} // verus!
