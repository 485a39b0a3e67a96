//! Window chrome: where rounded corners and focus rings are drawn.
//!
//! Corners are subtractive: after a window is drawn, four small patches of the
//! wallpaper go over its square corners, and a shader keeps what lies outside
//! the corner's arc. Rings are additive: one band around the window, entirely
//! outside it.

use vstd::prelude::*;

use crate::utils;
use crate::utils::{Point, Rectangle, Size};

verus! {

/// A patch over a corner, and the centre of the corner's arc.
#[derive(Debug, Clone, Copy, PartialEq, Eq, Structural)]
pub struct Patch {
    pub rect: Rectangle,
    pub arc: Point,
}

/// The patch at `(x, y)` of a corner whose arc is centred at `(ax, ay)`.
pub open spec fn patch(x: int, y: int, radius: int, ax: int, ay: int) -> Patch {
    Patch {
        rect: utils::rectangle(
            utils::saturated(x),
            utils::saturated(y),
            radius,
            radius,
        ),
        arc: Point { x: utils::saturated(ax) as i32, y: utils::saturated(ay) as i32 },
    }
}

/// The patches of a rectangle: over the corners at the top, left and right, and
/// then over those at the bottom.
pub open spec fn patches(rect: Rectangle, radius: i32) -> Seq<Patch> {
    let (x, y, w, h, r) = (
        rect.loc.x as int,
        rect.loc.y as int,
        rect.size.w as int,
        rect.size.h as int,
        radius as int,
    );
    seq![
        patch(x, y, r, x + r, y + r),
        patch(x + w - r, y, r, x + w - r, y + r),
        patch(x, y + h - r, r, x + r, y + h - r),
        patch(x + w - r, y + h - r, r, x + w - r, y + h - r),
    ]
}

fn patch_at(x: i64, y: i64, radius: i32, ax: i64, ay: i64) -> (p: Patch)
    ensures
        p == patch(x as int, y as int, radius as int, ax as int, ay as int),
{
    Patch {
        rect: Rectangle {
            loc: Point { x: utils::narrowed(x), y: utils::narrowed(y) },
            size: Size { w: radius, h: radius },
        },
        arc: Point { x: utils::narrowed(ax), y: utils::narrowed(ay) },
    }
}

/// The four corner patches of a rectangle, each with the centre of its arc.
pub fn corner_patches(rect: Rectangle, radius: i32) -> (list: [Patch; 4])
    ensures
        list@ == patches(rect, radius),
{
    let x: i64 = rect.loc.x as i64;
    let y: i64 = rect.loc.y as i64;
    let w: i64 = rect.size.w as i64;
    let h: i64 = rect.size.h as i64;
    let r: i64 = radius as i64;
    let list: [Patch; 4] = [
        patch_at(x, y, radius, x + r, y + r),
        patch_at(x + w - r, y, radius, x + w - r, y + r),
        patch_at(x, y + h - r, radius, x + r, y + h - r),
        patch_at(x + w - r, y + h - r, radius, x + w - r, y + h - r),
    ];
    assert(list@ =~= patches(rect, radius));
    list
}

/// A radius no larger than half of a window's shorter side: more would make
/// opposite patches overlap, and erase the middle of the window.
pub open spec fn radius_within(radius: int, size: Size) -> int {
    utils::larger(utils::smaller(utils::smaller(radius, size.w as int / 2), size.h as int / 2), 0)
}

pub fn clamp_radius(radius: i32, size: Size) -> (r: i32)
    ensures
        r == radius_within(radius as int, size),
{
    if size.w < 2 || size.h < 2 || radius < 0 {
        return 0;
    }
    let mut r: i32 = radius;
    if size.w / 2 < r {
        r = size.w / 2;
    }
    if size.h / 2 < r {
        r = size.h / 2;
    }
    r
}

/// The band in which a window's ring is drawn: so much around the window.
pub open spec fn band_around(window: Rectangle, width: int) -> Rectangle {
    utils::rectangle(
        utils::saturated(window.loc.x - width),
        utils::saturated(window.loc.y - width),
        utils::saturated(window.size.w + width * 2),
        utils::saturated(window.size.h + width * 2),
    )
}

pub fn ring_band(window: Rectangle, width: i32) -> (band: Rectangle)
    ensures
        band == band_around(window, width as int),
{
    let w: i64 = width as i64;
    Rectangle {
        loc: Point {
            x: utils::narrowed(window.loc.x as i64 - w),
            y: utils::narrowed(window.loc.y as i64 - w),
        },
        size: Size {
            w: utils::narrowed(window.size.w as i64 + w * 2),
            h: utils::narrowed(window.size.h as i64 + w * 2),
        },
    }
}

/// Whether every coordinate of a rectangle and what is around it can be held.
pub open spec fn has_room(rect: Rectangle, around: int) -> bool {
    &&& i32::MIN <= rect.loc.x - around
    &&& i32::MIN <= rect.loc.y - around
    &&& rect.loc.x + rect.size.w + around * 2 <= i32::MAX
    &&& rect.loc.y + rect.size.h + around * 2 <= i32::MAX
    &&& rect.size.w + around * 2 <= i32::MAX
    &&& rect.size.h + around * 2 <= i32::MAX
}

/// With a radius that was clamped to the window, every patch lies in the window:
/// nothing beside it is painted over.
pub proof fn patches_stay_within_the_window(window: Rectangle, radius: i32, i: int)
    requires
        has_room(window, 0),
        window.size.w >= 0,
        window.size.h >= 0,
        0 <= radius <= radius_within(radius as int, window.size),
        0 <= i < 4,
    ensures
        window.holds_rect(patches(window, radius)[i].rect),
{
}

/// No two patches share a pixel, so none erases what another leaves.
pub proof fn patches_do_not_overlap(window: Rectangle, radius: i32, i: int, j: int)
    requires
        has_room(window, 0),
        window.size.w >= 0,
        window.size.h >= 0,
        0 <= radius <= radius_within(radius as int, window.size),
        0 <= i < j < 4,
    ensures
        !patches(window, radius)[i].rect.meets(patches(window, radius)[j].rect),
{
}

/// The centre of each arc is one radius inside its own corner, both ways.
pub proof fn each_arc_is_one_radius_inside_its_corner(window: Rectangle, radius: i32)
    requires
        has_room(window, 0),
        window.size.w >= 0,
        window.size.h >= 0,
        0 <= radius <= radius_within(radius as int, window.size),
    ensures
        ({
            let p = patches(window, radius);
            let (left, top) = (window.loc.x as int, window.loc.y as int);
            let (right, bottom) = (window.right(), window.bottom());
            &&& p[0].arc.x - left == radius && p[0].arc.y - top == radius
            &&& right - p[1].arc.x == radius && p[1].arc.y - top == radius
            &&& p[2].arc.x - left == radius && bottom - p[2].arc.y == radius
            &&& right - p[3].arc.x == radius && bottom - p[3].arc.y == radius
        }),
{
}

/// The ring's band holds the window, and is wider than it by the ring's width on
/// every side.
pub proof fn the_ring_lies_around_the_window(window: Rectangle, width: i32)
    requires
        0 <= width,
        has_room(window, width as int),
        window.size.w >= 0,
        window.size.h >= 0,
    ensures
        ({
            let band = band_around(window, width as int);
            &&& window.loc.x - band.loc.x == width
            &&& window.loc.y - band.loc.y == width
            &&& band.right() - window.right() == width
            &&& band.bottom() - window.bottom() == width
        }),
{
}

/// Corners are as round as they are asked to be, as far as the window has room:
/// two radii fit in either side, and a radius that was cut is the greatest that
/// does.
pub proof fn corners_are_as_round_as_there_is_room(radius: int, size: Size)
    requires
        0 <= radius,
        0 <= size.w,
        0 <= size.h,
    ensures
        ({
            let kept = radius_within(radius, size);
            &&& 0 <= kept <= radius
            &&& 2 * kept <= size.w
            &&& 2 * kept <= size.h
            &&& kept < radius ==> 2 * (kept + 1) > size.w || 2 * (kept + 1) > size.h
        }),
{
}

} // verus!
