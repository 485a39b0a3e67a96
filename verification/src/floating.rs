//! Floating mode: interactive move and resize.
//!
//! The mode where position and size are the window's own. A drag is followed
//! from where it began: the window's rectangle at that time, and how far the
//! pointer has come since.

use vstd::prelude::*;

use crate::number;
use crate::number::Number;
use crate::utils;
use crate::utils::{Point, Rectangle, Size};

verus! {

/// Left mouse button.
pub const BTN_LEFT: u32 = 0x110;

/// Right mouse button.
pub const BTN_RIGHT: u32 = 0x111;

/// Narrowest window that an interactive resize will produce. A window dragged to
/// nothing cannot be grabbed again.
pub const MIN_WIDTH: i32 = 120;

/// Lowest window that an interactive resize will produce.
pub const MIN_HEIGHT: i32 = 60;

/// Which edges of a window a resize drags.
#[derive(Debug, Clone, Copy, PartialEq, Eq, Structural)]
pub enum ResizeEdge {
    Nothing,
    Top,
    Bottom,
    Left,
    TopLeft,
    BottomLeft,
    Right,
    TopRight,
    BottomRight,
}

/// What a drag does to one side of a window.
#[derive(Debug, Clone, Copy, PartialEq, Eq, Structural)]
pub enum Pull {
    /// The near edge follows the pointer, and the far one stays.
    Near,
    /// The far edge follows the pointer.
    Far,
    Neither,
}

impl ResizeEdge {
    pub open spec fn across(self) -> Pull {
        match self {
            ResizeEdge::Right | ResizeEdge::TopRight | ResizeEdge::BottomRight => Pull::Far,
            ResizeEdge::Left | ResizeEdge::TopLeft | ResizeEdge::BottomLeft => Pull::Near,
            _ => Pull::Neither,
        }
    }

    pub open spec fn down(self) -> Pull {
        match self {
            ResizeEdge::Bottom | ResizeEdge::BottomLeft | ResizeEdge::BottomRight => Pull::Far,
            ResizeEdge::Top | ResizeEdge::TopLeft | ResizeEdge::TopRight => Pull::Near,
            _ => Pull::Neither,
        }
    }

    fn horizontal(self) -> (pull: Pull)
        ensures
            pull == self.across(),
    {
        match self {
            ResizeEdge::Right => Pull::Far,
            ResizeEdge::TopRight => Pull::Far,
            ResizeEdge::BottomRight => Pull::Far,
            ResizeEdge::Left => Pull::Near,
            ResizeEdge::TopLeft => Pull::Near,
            ResizeEdge::BottomLeft => Pull::Near,
            _ => Pull::Neither,
        }
    }

    fn vertical(self) -> (pull: Pull)
        ensures
            pull == self.down(),
    {
        match self {
            ResizeEdge::Bottom => Pull::Far,
            ResizeEdge::BottomLeft => Pull::Far,
            ResizeEdge::BottomRight => Pull::Far,
            ResizeEdge::Top => Pull::Near,
            ResizeEdge::TopLeft => Pull::Near,
            ResizeEdge::TopRight => Pull::Near,
            _ => Pull::Neither,
        }
    }
}

/// Where a side of a window starts and how long it is, once an edge has been
/// dragged by `delta`: the length first, and then where it starts, so that a
/// drag of the near edge does not go on moving a window that has stopped
/// shrinking.
pub open spec fn pulled(start: int, length: int, pull: Pull, delta: int, least: int) -> (int, int) {
    let wanted = utils::saturated(
        match pull {
            Pull::Far => length + delta,
            Pull::Near => length - delta,
            Pull::Neither => length,
        },
    );
    let moved = utils::saturated(
        match pull {
            Pull::Near => start + delta,
            _ => start,
        },
    );
    if wanted < least {
        (
            if moved != start {
                utils::saturated(start + (length - least))
            } else {
                moved
            },
            least,
        )
    } else {
        (moved, wanted)
    }
}

fn pull_side(start: i32, length: i32, pull: Pull, delta: i32, least: i32) -> (side: (i32, i32))
    ensures
        side.0 == pulled(start as int, length as int, pull, delta as int, least as int).0,
        side.1 == pulled(start as int, length as int, pull, delta as int, least as int).1,
{
    let (moved, wanted): (i32, i32) = match pull {
        Pull::Far => (start, utils::narrowed(length as i64 + delta as i64)),
        Pull::Near => (
            utils::narrowed(start as i64 + delta as i64),
            utils::narrowed(length as i64 - delta as i64),
        ),
        Pull::Neither => (start, length),
    };
    if wanted < least {
        if moved != start {
            (utils::narrowed(start as i64 + (length as i64 - least as i64)), least)
        } else {
            (moved, least)
        }
    } else {
        (moved, wanted)
    }
}

/// The rectangle that dragging edges by `(dx, dy)` makes of a window.
pub open spec fn resized(initial: Rectangle, edges: ResizeEdge, dx: i32, dy: i32) -> Rectangle {
    let (x, w) = pulled(
        initial.loc.x as int,
        initial.size.w as int,
        edges.across(),
        dx as int,
        MIN_WIDTH as int,
    );
    let (y, h) = pulled(
        initial.loc.y as int,
        initial.size.h as int,
        edges.down(),
        dy as int,
        MIN_HEIGHT as int,
    );
    utils::rectangle(x, y, w, h)
}

/// A resize under way.
#[derive(Debug, Clone, Copy, PartialEq, Eq, Structural)]
pub struct ResizeGrab {
    pub edges: ResizeEdge,
    pub initial_rect: Rectangle,
    /// The size most recently asked of the client. A resize is a negotiation,
    /// and the answer may differ; what was asked keeps the two from oscillating.
    pub last_requested: Size,
}

impl ResizeGrab {
    /// Follow the pointer, `(dx, dy)` away from where the grab began. Returns
    /// the window's new rectangle, and whether its size is to be asked for.
    pub fn motion(&mut self, dx: i32, dy: i32) -> (rect: (Rectangle, bool))
        ensures
            rect.0 == resized(old(self).initial_rect, old(self).edges, dx, dy),
            rect.1 == (rect.0.size != old(self).last_requested),
            *final(self) == (ResizeGrab { last_requested: rect.0.size, ..*old(self) }),
    {
        let initial: Rectangle = self.initial_rect;
        let (x, w) = pull_side(initial.loc.x, initial.size.w, self.edges.horizontal(), dx, MIN_WIDTH);
        let (y, h) = pull_side(initial.loc.y, initial.size.h, self.edges.vertical(), dy, MIN_HEIGHT);
        let size: Size = Size { w, h };
        let ask: bool = size != self.last_requested;
        self.last_requested = size;
        (Rectangle { loc: Point { x, y }, size }, ask)
    }
}

/// However far an edge is dragged, the window keeps a size that can be grabbed
/// again.
pub proof fn a_resize_keeps_the_least_size(
    initial: Rectangle,
    edges: ResizeEdge,
    dx: i32,
    dy: i32,
)
    ensures
        resized(initial, edges, dx, dy).size.w >= MIN_WIDTH,
        resized(initial, edges, dx, dy).size.h >= MIN_HEIGHT,
{
}

/// Dragging the near edge leaves the far one where it is, also once the window
/// has stopped shrinking. One that is too small to begin with has to be dragged
/// at all for that.
pub proof fn the_far_edge_stays(start: int, length: int, delta: int, least: int)
    requires
        0 <= least,
        least <= length || delta != 0,
        utils::in_range(start + (length - least)),
        utils::in_range(start),
        utils::in_range(least),
        utils::in_range(length),
        utils::in_range(start + length),
        utils::in_range(length - delta),
        utils::in_range(start + delta),
    ensures
        pulled(start, length, Pull::Near, delta, least).0 + pulled(
            start,
            length,
            Pull::Near,
            delta,
            least,
        ).1 == start + length,
{
}

/// An edge that is dragged follows the pointer, and no other edge moves, as long
/// as the window does not become too small: dragging right makes a window wider
/// by its right edge and narrower by its left, and so down.
pub proof fn a_dragged_edge_follows_the_pointer(
    initial: Rectangle,
    edges: ResizeEdge,
    dx: i32,
    dy: i32,
)
    requires
        initial.size.w >= MIN_WIDTH,
        initial.size.h >= MIN_HEIGHT,
        utils::in_range(initial.loc.x + dx),
        utils::in_range(initial.loc.y + dy),
        utils::in_range(initial.size.w + dx),
        utils::in_range(initial.size.h + dy),
        utils::in_range(initial.size.w - dx),
        utils::in_range(initial.size.h - dy),
    ensures
        ({
            let rect = resized(initial, edges, dx, dy);
            let (left, right) = (rect.loc.x as int, rect.loc.x + rect.size.w);
            let (top, bottom) = (rect.loc.y as int, rect.loc.y + rect.size.h);
            let (was_left, was_right) = (initial.loc.x as int, initial.loc.x + initial.size.w);
            let (was_top, was_bottom) = (initial.loc.y as int, initial.loc.y + initial.size.h);
            let pulls_right = edges is Right || edges is TopRight || edges is BottomRight;
            let pulls_left = edges is Left || edges is TopLeft || edges is BottomLeft;
            let pulls_down = edges is Bottom || edges is BottomLeft || edges is BottomRight;
            let pulls_up = edges is Top || edges is TopLeft || edges is TopRight;
            &&& pulls_right && initial.size.w + dx >= MIN_WIDTH ==> left == was_left && right
                == was_right + dx
            &&& pulls_left && initial.size.w - dx >= MIN_WIDTH ==> left == was_left + dx && right
                == was_right
            &&& !pulls_right && !pulls_left ==> left == was_left && right == was_right
            &&& pulls_down && initial.size.h + dy >= MIN_HEIGHT ==> top == was_top && bottom
                == was_bottom + dy
            &&& pulls_up && initial.size.h - dy >= MIN_HEIGHT ==> top == was_top + dy && bottom
                == was_bottom
            &&& !pulls_down && !pulls_up ==> top == was_top && bottom == was_bottom
        }),
{
}

/// The corner of the quadrant that a point lies in.
pub open spec fn corner(left: bool, top: bool) -> ResizeEdge {
    if left {
        if top {
            ResizeEdge::TopLeft
        } else {
            ResizeEdge::BottomLeft
        }
    } else {
        if top {
            ResizeEdge::TopRight
        } else {
            ResizeEdge::BottomRight
        }
    }
}

/// The corner of a window that a place relative to it is nearest.
pub open spec fn nearest(relative: (Number, Number), size: Size) -> ResizeEdge {
    corner(
        relative.0.less(number::half(size.w as int)),
        relative.1.less(number::half(size.h as int)),
    )
}

/// Which corner a pointer is nearest, for a resize that the session starts, from
/// where the pointer is relative to the window.
pub fn nearest_edge(relative: (Number, Number), size: Size) -> (edge: ResizeEdge)
    ensures
        edge == nearest(relative, size),
{
    let left: bool = relative.0.less_than(Number::half_of(size.w));
    let top: bool = relative.1.less_than(Number::half_of(size.h));
    match (left, top) {
        (true, true) => ResizeEdge::TopLeft,
        (false, true) => ResizeEdge::TopRight,
        (true, false) => ResizeEdge::BottomLeft,
        (false, false) => ResizeEdge::BottomRight,
    }
}

/// Whether a grab is over: the button that started it is no longer down. A
/// second button that is released mid-drag does not end it.
pub fn is_released(pressed: &[u32], button: u32) -> (over: bool)
    ensures
        over == !pressed@.contains(button),
{
    for i in 0..pressed.len()
        invariant
            forall|k: int| 0 <= k < i ==> pressed@[k] != button,
    {
        if pressed[i] == button {
            return false;
        }
    }
    true
}

/// A resize takes hold of the corner that is nearest: to the left of the middle
/// the left edge follows the pointer, and else the right one; above it the top
/// edge, and else the bottom one. The place is given in half pixels.
pub proof fn the_nearest_corner_is_taken(relative: (Number, Number), size: Size, x: int, y: int)
    requires
        0 <= size.w,
        0 <= size.h,
        relative.0.is_fraction(x, 1),
        relative.1.is_fraction(y, 1),
    ensures
        x < size.w ==> nearest(relative, size).across() == Pull::Near,
        x >= size.w ==> nearest(relative, size).across() == Pull::Far,
        y < size.h ==> nearest(relative, size).down() == Pull::Near,
        y >= size.h ==> nearest(relative, size).down() == Pull::Far,
{
    let (w, h) = (size.w as int, size.h as int);
    number::every_half_is_one(w);
    number::every_half_is_one(h);
    number::whole_numbers_keep_their_order(relative.0, x, number::half(w), w, 1);
    number::whole_numbers_keep_their_order(number::half(w), w, relative.0, x, 1);
    number::whole_numbers_keep_their_order(relative.1, y, number::half(h), h, 1);
    number::whole_numbers_keep_their_order(number::half(h), h, relative.1, y, 1);
}

} // verus!
