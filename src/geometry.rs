//! Row padding and pixel-data size.

use vstd::prelude::*;
use vstd::arithmetic::div_mod::lemma_fundamental_div_mod_converse;

verus! {

/// Bytes that one row of `width` pixels occupies: three per pixel, rounded up
/// to a multiple of four.
pub open spec fn row_stride(width: int) -> int {
    3 * width + (4 - (3 * width) % 4) % 4
}

/// Bytes of the whole pixel-data block, padding included.
pub open spec fn image_size(width: int, height: int) -> int {
    row_stride(width) * height
}

/// Padded byte length of one row of `width` pixels.
pub fn calculate_row_length(width: usize) -> (r: usize)
    requires
        3 * width + 3 <= usize::MAX,
    ensures
        r == row_stride(width as int),
{
    let mut row_length: usize = width * 3;
    let padding: usize = (4 - (row_length % 4)) % 4;
    row_length += padding;
    row_length
}

/// Byte size of the pixel data of a `width` by `height` image.
pub fn calculate_image_size(width: usize, height: usize) -> (r: usize)
    requires
        3 * width + 3 <= usize::MAX,
        image_size(width as int, height as int) <= usize::MAX,
    ensures
        r == image_size(width as int, height as int),
{
    calculate_row_length(width) * height
}

/// A row's stride is a multiple of four and exceeds three bytes per pixel by
/// at most three bytes of padding.
pub proof fn lemma_row_stride_aligned(width: nat)
    ensures
        row_stride(width as int) % 4 == 0,
        0 <= row_stride(width as int) - 3 * width <= 3,
{
}

/// Byte `col` of stored row `row` lies inside the pixel-data block, and its
/// offset splits back into the row and the column.
pub proof fn lemma_row_offset(width: int, height: int, row: int, col: int)
    requires
        0 <= width,
        0 <= row < height,
        0 <= col < row_stride(width),
    ensures
        (row * row_stride(width) + col) / row_stride(width) == row,
        (row * row_stride(width) + col) % row_stride(width) == col,
        0 <= row * row_stride(width) + col < image_size(width, height),
{
    let s = row_stride(width);
    lemma_fundamental_div_mod_converse(row * s + col, s, row, col);
    assert(row * s + col < s * height) by (nonlinear_arith)
        requires 0 <= col < s, 0 <= row < height;
    assert(0 <= row * s) by (nonlinear_arith)
        requires 0 <= row, 0 <= col < s;
}

} // verus!
