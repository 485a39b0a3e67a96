//! Where the bytes of a pixel stand in an unpadded RGBA8 buffer.

use vstd::prelude::*;

verus! {

/// How many bytes an image of this size takes.
pub open spec fn byte_count(width: int, height: int) -> int {
    width * height * 4
}

/// Where channel `c` of the pixel at `(x, y)` stands in the buffer.
pub open spec fn position(width: int, x: int, y: int, c: int) -> int {
    (y * width + x) * 4 + c
}

pub proof fn lemma_position_bounds(width: int, height: int, x: int, y: int, c: int)
    requires
        0 <= x < width,
        0 <= y < height,
        0 <= c < 4,
    ensures
        0 <= y * width,
        0 <= y * width + x < width * height,
        0 <= position(width, x, y, c) < byte_count(width, height),
        (position(width, x, y, c) / 4) % width == x,
        (position(width, x, y, c) / 4) / width == y,
        position(width, x, y, c) % 4 == c,
{
    assert(0 <= y * width) by (nonlinear_arith)
        requires
            0 <= y,
            0 <= width,
    ;
    assert(y * width + width <= width * height) by (nonlinear_arith)
        requires
            y < height,
            0 <= width,
    ;
    let p = y * width + x;
    assert(position(width, x, y, c) / 4 == p);
    vstd::arithmetic::div_mod::lemma_fundamental_div_mod_converse(p, width, y, x);
}

pub proof fn lemma_position_of(width: int, height: int, k: int)
    requires
        0 < width,
        0 <= height,
        0 <= k < byte_count(width, height),
    ensures
        0 <= (k / 4) % width < width,
        0 <= (k / 4) / width < height,
        k == position(width, (k / 4) % width, (k / 4) / width, k % 4),
{
    let p = k / 4;
    vstd::arithmetic::div_mod::lemma_fundamental_div_mod(p, width);
    vstd::arithmetic::div_mod::lemma_mod_bound(p, width);
    let y = p / width;
    let x = p % width;
    assert(width * y == y * width) by (nonlinear_arith);
    assert(p < width * height);
    assert(y < height) by (nonlinear_arith)
        requires
            p == width * y + x,
            0 <= x,
            p < width * height,
            0 < width,
    ;
    assert(0 <= y) by (nonlinear_arith)
        requires
            p == width * y + x,
            x < width,
            0 <= p,
            0 < width,
    ;
}

pub proof fn lemma_byte_count(width: int, height: int)
    requires
        0 <= width,
        0 <= height,
    ensures
        0 <= byte_count(width, height),
{
    assert(0 <= width * height) by (nonlinear_arith)
        requires
            0 <= width,
            0 <= height,
    ;
}

pub proof fn lemma_byte_count_bound(width: u32, height: u32)
    ensures
        0 <= width * height <= u32::MAX * u32::MAX,
        0 <= byte_count(width as int, height as int) <= u128::MAX,
{
    assert(0 <= width * height <= u32::MAX * u32::MAX) by (nonlinear_arith)
        requires
            0 <= width <= u32::MAX,
            0 <= height <= u32::MAX,
    ;
}

} // verus!
