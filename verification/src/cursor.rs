//! The pointer.
//!
//! Drawn, not loaded: a cursor drawn in code is always available and is a
//! function from a size to a bitmap. All of its geometry is exact, on a grid of
//! 240 units to the pixel, which is fine enough that the corners of the outline
//! and the centres of the pixels lie on it at every size.

use vstd::prelude::*;

use crate::pixels;
use crate::wallpaper::Image;

verus! {

/// A cursor bitmap and the point within it that is "the pointer".
#[derive(Debug)]
pub struct Cursor {
    pub image: Image,
    /// Offset from the image's top-left to the pixel the pointer actually
    /// points at. Subtracted from the pointer position when drawing.
    pub hotspot: (i32, i32),
}

impl Clone for Cursor {
    fn clone(&self) -> (copy: Cursor)
        ensures
            copy.image.data@ == self.image.data@,
            copy.image.width == self.image.width,
            copy.image.height == self.image.height,
            copy.hotspot == self.hotspot,
    {
        Cursor { image: self.image.clone(), hotspot: self.hotspot }
    }
}

/// The outline of a classic arrow, in tenths of a unit of a 24-unit grid.
pub open spec fn arrow_outline() -> Seq<(int, int)> {
    seq![
        (0int, 0int),
        (0int, 168int),
        (42int, 129int),
        (70int, 199int),
        (101int, 186int),
        (74int, 119int),
        (130int, 116int),
    ]
}

/// The outline at a size in pixels, in units of which a pixel has 240.
pub open spec fn scaled_outline(size: int) -> Seq<(int, int)> {
    Seq::new(7, |i: int| (arrow_outline()[i].0 * size, arrow_outline()[i].1 * size))
}

/// The corner before the `i`th, the last one before the first.
pub open spec fn previous(i: int, count: int) -> int {
    if i == 0 {
        count - 1
    } else {
        i - 1
    }
}

/// Whether a ray from `p` to the right meets the edge between `a` and `b`.
pub open spec fn crosses(a: (int, int), b: (int, int), p: (int, int)) -> bool {
    &&& (a.1 > p.1) != (b.1 > p.1)
    &&& if b.1 > a.1 {
        (p.0 - a.0) * (b.1 - a.1) < (b.0 - a.0) * (p.1 - a.1)
    } else {
        (p.0 - a.0) * (b.1 - a.1) > (b.0 - a.0) * (p.1 - a.1)
    }
}

/// How many of the first `n` edges a ray from `p` meets.
pub open spec fn crossings(points: Seq<(int, int)>, p: (int, int), n: int) -> int
    decreases n,
{
    if n <= 0 {
        0
    } else {
        crossings(points, p, n - 1) + if crosses(
            points[n - 1],
            points[previous(n - 1, points.len() as int)],
            p,
        ) {
            1int
        } else {
            0int
        }
    }
}

/// Even-odd point-in-polygon.
pub open spec fn inside(points: Seq<(int, int)>, p: (int, int)) -> bool {
    crossings(points, p, points.len() as int) % 2 == 1
}

pub open spec fn square(n: int) -> int {
    n * n
}

/// Whether `p` is at most `width` away from the segment between `a` and `b`:
/// from the nearer end where the foot of the perpendicular falls outside, and
/// from the line itself where it falls between them.
pub open spec fn within(a: (int, int), b: (int, int), p: (int, int), width: int) -> bool {
    let (dx, dy) = (b.0 - a.0, b.1 - a.1);
    let (ax, ay) = (p.0 - a.0, p.1 - a.1);
    let length = square(dx) + square(dy);
    let along = ax * dx + ay * dy;
    if along <= 0 {
        square(ax) + square(ay) <= square(width)
    } else if along >= length {
        square(p.0 - b.0) + square(p.1 - b.1) <= square(width)
    } else {
        square(dx * ay - dy * ax) <= square(width) * length
    }
}

/// Whether `p` is at most `width` away from one of the edges.
pub open spec fn near_outline(points: Seq<(int, int)>, p: (int, int), width: int) -> bool {
    exists|i: int|
        0 <= i < points.len() && within(
            points[previous(i, points.len() as int)],
            #[trigger] points[i],
            p,
            width,
        )
}

/// How wide the border is: 1.2 units of the grid, and never less than 1.2
/// pixels.
pub open spec fn border(size: int) -> int {
    if size < 24 {
        288
    } else {
        12 * size
    }
}

/// The centre of a pixel. A corner would put the whole shape half a pixel up
/// and to the left.
pub open spec fn centre(x: int, y: int) -> (int, int) {
    (240 * x + 120, 240 * y + 120)
}

/// Channel `c` of the pixel at `(x, y)`: a white body inside a dark outline,
/// premultiplied.
pub open spec fn arrow_channel(size: int, x: int, y: int, c: int) -> u8 {
    if inside(scaled_outline(size), centre(x, y)) {
        255
    } else if c == 3 && near_outline(scaled_outline(size), centre(x, y), border(size)) {
        220
    } else {
        0
    }
}

/// The bytes of the arrow.
pub open spec fn arrow_bytes(size: int) -> Seq<u8> {
    Seq::new(
        pixels::byte_count(size, size) as nat,
        |k: int| arrow_channel(size, (k / 4) % size, (k / 4) / size, k % 4),
    )
}

/// Sizes that no output asks for are clamped.
pub open spec fn arrow_size(size: u32) -> u32 {
    if size < 8 {
        8
    } else if size > 128 {
        128
    } else {
        size
    }
}

/// No colour of the arrow exceeds its alpha, so it blends as a line and not as
/// a halo.
pub proof fn arrow_is_premultiplied(size: u32, k: int)
    requires
        0 <= k < pixels::byte_count(arrow_size(size) as int, arrow_size(size) as int),
    ensures
        arrow_bytes(arrow_size(size) as int)[k] <= arrow_bytes(arrow_size(size) as int)[k / 4 * 4
            + 3],
{
    let n = arrow_size(size) as int;
    let last = k / 4 * 4 + 3;
    assert(pixels::byte_count(n, n) == 4 * (n * n));
    assert(last / 4 == k / 4);
    assert(last < pixels::byte_count(n, n));
    assert(last % 4 == 3);
}

/// At every size something is drawn at the hotspot.
pub proof fn arrow_has_a_tip(size: u32)
    ensures
        arrow_bytes(arrow_size(size) as int)[3] > 0,
{
    let n = arrow_size(size) as int;
    let points = scaled_outline(n);
    let p = centre(0, 0);
    let w = border(n);
    assert(n * n >= 64) by (nonlinear_arith)
        requires
            n >= 8,
    ;
    assert(pixels::byte_count(n, n) == 4 * (n * n));
    assert((3int / 4) % n == 0 && (3int / 4) / n == 0) by {
        vstd::arithmetic::div_mod::lemma_small_mod(0, n as nat);
        vstd::arithmetic::div_mod::lemma_basic_div(0, n);
    }
    lemma_corner(0, n);
    lemma_corner(1, n);
    let a = points[0];
    let b = points[1];
    assert(a == (0int, 0int) && b == (0int, 168 * n));
    let s = 168 * n;
    assert(120 * s < square(s)) by (nonlinear_arith)
        requires
            s > 120,
            square(s) == s * s,
    ;
    assert(square(s * 120) == 14400 * square(s)) by (nonlinear_arith)
        requires
            square(s) == s * s,
            square(s * 120) == (s * 120) * (s * 120),
    ;
    assert(square(w) >= 82944) by (nonlinear_arith)
        requires
            w >= 288,
            square(w) == w * w,
    ;
    assert(square(w) * square(s) >= 14400 * square(s)) by (nonlinear_arith)
        requires
            square(w) >= 82944,
            square(s) >= 0,
    ;
    let length = square(0) + square(s);
    assert(square(0) == 0);
    assert(120 * 0 + 120 * s == 120 * s);
    assert(0int * 120 - s * 120 == -(s * 120));
    assert(square(-(s * 120)) == square(s * 120)) by (nonlinear_arith)
        requires
            square(-(s * 120)) == (-(s * 120)) * (-(s * 120)),
            square(s * 120) == (s * 120) * (s * 120),
    ;
    assert(within(points[previous(1, 7)], points[1], p, w));
    assert(near_outline(points, p, w));
}

proof fn lemma_corner(i: int, size: int)
    requires
        0 <= i < 7,
    ensures
        i == 0 ==> scaled_outline(size)[i] == (0int, 0int),
        i == 1 ==> scaled_outline(size)[i] == (0int, 168 * size),
{
    let (x, y) = arrow_outline()[i];
    assert(x == 0 ==> x * size == 0) by (nonlinear_arith);
    assert(y == 0 ==> y * size == 0) by (nonlinear_arith);
}

fn corner(i: usize, size: u32) -> (point: (i32, i32))
    requires
        i < 7,
        size <= 128,
    ensures
        (point.0 as int, point.1 as int) == scaled_outline(size as int)[i as int],
        0 <= point.0 <= 40_000,
        0 <= point.1 <= 40_000,
{
    proof {
        lemma_corner(i as int, size as int);
    }
    let n: i32 = size as i32;
    match i {
        0 => (0, 0),
        1 => (0, 168 * n),
        2 => (42 * n, 129 * n),
        3 => (70 * n, 199 * n),
        4 => (101 * n, 186 * n),
        5 => (74 * n, 119 * n),
        _ => (130 * n, 116 * n),
    }
}

fn product(a: i64, b: i64) -> (c: i64)
    requires
        -40_000 <= a <= 40_000,
        -40_000 <= b <= 40_000,
    ensures
        c == a * b,
        -1_600_000_000 <= c <= 1_600_000_000,
{
    assert(-1_600_000_000 <= a * b <= 1_600_000_000) by (nonlinear_arith)
        requires
            -40_000 <= a <= 40_000,
            -40_000 <= b <= 40_000,
    ;
    a * b
}

/// Even-odd point-in-polygon.
fn contains(size: u32, p: (i32, i32)) -> (b: bool)
    requires
        size <= 128,
        0 <= p.0 <= 40_000,
        0 <= p.1 <= 40_000,
    ensures
        b == inside(scaled_outline(size as int), (p.0 as int, p.1 as int)),
{
    let ghost points = scaled_outline(size as int);
    let ghost at = (p.0 as int, p.1 as int);
    let mut odd: bool = false;
    let mut j: usize = 6;
    for i in 0..7usize
        invariant
            size <= 128,
            0 <= p.0 <= 40_000,
            0 <= p.1 <= 40_000,
            points == scaled_outline(size as int),
            at == (p.0 as int, p.1 as int),
            j == previous(i as int, 7),
            odd == (crossings(points, at, i as int) % 2 == 1),
    {
        let (xi, yi): (i32, i32) = corner(i, size);
        let (xj, yj): (i32, i32) = corner(j, size);
        if (yi > p.1) != (yj > p.1) {
            let left: i64 = product(p.0 as i64 - xi as i64, yj as i64 - yi as i64);
            let right: i64 = product(xj as i64 - xi as i64, p.1 as i64 - yi as i64);
            if (yj > yi && left < right) || (yj <= yi && left > right) {
                odd = !odd;
            }
        }
        j = i;
    }
    odd
}

/// Whether a point lies within `width` of the segment between `a` and `b`.
fn near_segment(a: (i32, i32), b: (i32, i32), p: (i32, i32), width: i32) -> (near: bool)
    requires
        0 <= a.0 <= 40_000,
        0 <= a.1 <= 40_000,
        0 <= b.0 <= 40_000,
        0 <= b.1 <= 40_000,
        0 <= p.0 <= 40_000,
        0 <= p.1 <= 40_000,
        0 <= width <= 40_000,
    ensures
        near == within(
            (a.0 as int, a.1 as int),
            (b.0 as int, b.1 as int),
            (p.0 as int, p.1 as int),
            width as int,
        ),
{
    let dx: i64 = b.0 as i64 - a.0 as i64;
    let dy: i64 = b.1 as i64 - a.1 as i64;
    let ax: i64 = p.0 as i64 - a.0 as i64;
    let ay: i64 = p.1 as i64 - a.1 as i64;
    let bx: i64 = p.0 as i64 - b.0 as i64;
    let by: i64 = p.1 as i64 - b.1 as i64;
    let reach: i64 = product(width as i64, width as i64);
    let length: i64 = product(dx, dx) + product(dy, dy);
    let along: i64 = product(ax, dx) + product(ay, dy);
    if along <= 0 {
        product(ax, ax) + product(ay, ay) <= reach
    } else if along >= length {
        product(bx, bx) + product(by, by) <= reach
    } else {
        let across: i128 = product(dx, ay) as i128 - product(dy, ax) as i128;
        proof {
            assert(0 <= across * across <= 10_240_000_000_000_000_000) by (nonlinear_arith)
                requires
                    -3_200_000_000 <= across <= 3_200_000_000,
            ;
            assert(-5_120_000_000_000_000_000 <= reach * length <= 5_120_000_000_000_000_000)
                by (nonlinear_arith)
                requires
                    -1_600_000_000 <= reach <= 1_600_000_000,
                    -3_200_000_000 <= length <= 3_200_000_000,
            ;
        }
        across * across <= reach as i128 * length as i128
    }
}

/// Whether a point lies within `width` of the outline.
fn near_edge(size: u32, p: (i32, i32), width: i32) -> (near: bool)
    requires
        size <= 128,
        0 <= p.0 <= 40_000,
        0 <= p.1 <= 40_000,
        0 <= width <= 40_000,
    ensures
        near == near_outline(
            scaled_outline(size as int),
            (p.0 as int, p.1 as int),
            width as int,
        ),
{
    let ghost points = scaled_outline(size as int);
    let ghost at = (p.0 as int, p.1 as int);
    let mut j: usize = 6;
    for i in 0..7usize
        invariant
            size <= 128,
            0 <= p.0 <= 40_000,
            0 <= p.1 <= 40_000,
            0 <= width <= 40_000,
            points == scaled_outline(size as int),
            at == (p.0 as int, p.1 as int),
            j == previous(i as int, 7),
            forall|k: int|
                0 <= k < i ==> !within(
                    points[previous(k, 7)],
                    #[trigger] points[k],
                    at,
                    width as int,
                ),
    {
        if near_segment(corner(j, size), corner(i, size), p, width) {
            assert(within(points[previous(i as int, 7)], points[i as int], at, width as int));
            return true;
        }
        j = i;
    }
    false
}

/// Draw the fallback arrow at the given height in pixels.
pub fn arrow(size: u32) -> (cursor: Cursor)
    ensures
        cursor.image.well_formed(),
        cursor.image.width == arrow_size(size),
        cursor.image.height == arrow_size(size),
        cursor.image.data@ == arrow_bytes(arrow_size(size) as int),
        cursor.hotspot == (0i32, 0i32),
{
    let n: u32 = if size < 8 {
        8
    } else if size > 128 {
        128
    } else {
        size
    };
    let width: i32 = if n < 24 {
        288
    } else {
        12 * n as i32
    };
    let ghost want = arrow_bytes(n as int);
    let mut data: Vec<u8> = Vec::new();
    assert(0 * n == 0);
    for y in 0..n
        invariant
            8 <= n <= 128,
            width == border(n as int),
            want == arrow_bytes(n as int),
            data@.len() == pixels::position(n as int, 0, y as int, 0),
            forall|k: int| 0 <= k < data@.len() ==> data@[k] == want[k],
    {
        for x in 0..n
            invariant
                8 <= n <= 128,
                y < n,
                width == border(n as int),
                want == arrow_bytes(n as int),
                data@.len() == pixels::position(n as int, x as int, y as int, 0),
                forall|k: int| 0 <= k < data@.len() ==> data@[k] == want[k],
        {
            let p: (i32, i32) = (240 * x as i32 + 120, 240 * y as i32 + 120);
            // The border is what keeps the arrow readable over both a dark
            // wallpaper and a white window.
            let (colour, alpha): (u8, u8) = if contains(n, p) {
                (255, 255)
            } else if near_edge(n, p, width) {
                (0, 220)
            } else {
                (0, 0)
            };
            proof {
                pixels::lemma_position_bounds(n as int, n as int, x as int, y as int, 0);
                pixels::lemma_position_bounds(n as int, n as int, x as int, y as int, 1);
                pixels::lemma_position_bounds(n as int, n as int, x as int, y as int, 2);
                pixels::lemma_position_bounds(n as int, n as int, x as int, y as int, 3);
            }
            data.push(colour);
            data.push(colour);
            data.push(colour);
            data.push(alpha);
        }
        assert((y + 1) * n == y * n + n) by (nonlinear_arith);
    }
    assert(data@ =~= want);
    Cursor { image: Image::new(n, n, data), hotspot: (0, 0) }
}

} // verus!
