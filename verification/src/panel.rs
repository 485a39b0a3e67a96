//! The panel: a workspace indicator along the top edge.
//!
//! One pill per workspace, filled when occupied, accented when active. All of
//! it is geometry: where the pills are, and what a click lands on.

use vstd::prelude::*;

use crate::utils;
use crate::utils::{Point, Rectangle, Size};

verus! {

/// Space between pills, and from the panel edge.
pub const GAP: i32 = 6;

/// How wide a pill is, before the active one grows.
pub const PILL_WIDTH: i32 = 22;

/// The active pill is wider, so the current workspace is identifiable by shape
/// alone.
pub const ACTIVE_WIDTH: i32 = 34;

/// The area left for windows below a panel.
pub open spec fn below_panel(output: Size, panel_height: i32) -> Rectangle {
    let height = utils::between(panel_height as int, 0, output.h as int);
    utils::rectangle(0, height, output.w as int, utils::larger(output.h - height, 1))
}

/// The area left for windows once the panel has taken its share.
///
/// Subtracting here rather than at each use is what keeps tiling, floating
/// placement and maximise agreeing about where the usable screen starts.
pub fn usable_area(output: Size, panel_height: i32) -> (area: Rectangle)
    requires
        0 <= output.h,
    ensures
        area == below_panel(output, panel_height),
{
    let height: i32 = utils::clamp(panel_height, 0, output.h);
    let left: i32 = output.h - height;
    Rectangle {
        loc: Point { x: 0, y: height },
        size: Size {
            w: output.w,
            h: if left > 1 {
                left
            } else {
                1
            },
        },
    }
}

/// The panel's rectangle, within the part of the width it is allowed.
pub open spec fn panel_within(output: Size, panel_height: i32, span: (i32, i32)) -> Rectangle {
    utils::rectangle(
        utils::between(span.0 as int, 0, output.w as int),
        0,
        utils::between(span.1 as int, 0, output.w as int),
        utils::between(panel_height as int, 0, output.h as int),
    )
}

/// The panel's own rectangle, given the horizontal span it is allowed.
///
/// `span` is the part of the width, as a start and a length, that no client has
/// claimed. The panel takes what is left rather than a dock giving way.
pub fn panel_area(output: Size, panel_height: i32, span: (i32, i32)) -> (area: Rectangle)
    requires
        0 <= output.w,
        0 <= output.h,
    ensures
        area == panel_within(output, panel_height, span),
{
    Rectangle {
        loc: Point { x: utils::clamp(span.0, 0, output.w), y: 0 },
        size: Size {
            w: utils::clamp(span.1, 0, output.w),
            h: utils::clamp(panel_height, 0, output.h),
        },
    }
}

/// The whole width, where no client has claimed a part of it.
pub fn full_span(output: Size) -> (span: (i32, i32))
    ensures
        span == (0i32, output.w),
{
    (0, output.w)
}

pub open spec fn pill_height(panel_height: int) -> int {
    utils::larger(panel_height - GAP * 2, 2)
}

pub open spec fn pill_top(panel_height: int) -> int {
    if panel_height < 2 {
        0
    } else {
        (panel_height - pill_height(panel_height)) / 2
    }
}

/// Where pill `i` starts; `i` may be the count, for where the row ends.
pub open spec fn pill_start(active: int, i: int) -> int {
    GAP * 2 + i * (PILL_WIDTH + GAP) + if active < i {
        ACTIVE_WIDTH - PILL_WIDTH
    } else {
        0
    }
}

pub open spec fn pill(panel_height: int, active: int, i: int) -> Rectangle {
    utils::rectangle(
        pill_start(active, i),
        pill_top(panel_height),
        if i == active {
            ACTIVE_WIDTH as int
        } else {
            PILL_WIDTH as int
        },
        pill_height(panel_height),
    )
}

/// The pills of a panel: none where the row would not fit, rather than some
/// that nobody can see or click.
pub open spec fn pill_row(output: Size, panel_height: i32, count: int, active: int) -> Seq<
    Rectangle,
> {
    if panel_height <= 0 || pill_start(active, count) > output.w {
        Seq::empty()
    } else {
        Seq::new(count as nat, |i: int| pill(panel_height as int, active, i))
    }
}

/// Where each workspace pill sits, left to right.
pub fn pills(output: Size, panel_height: i32, count: usize, active: usize) -> (row: Vec<Rectangle>)
    ensures
        row@ == pill_row(output, panel_height, count as int, active as int),
{
    let mut row: Vec<Rectangle> = Vec::new();
    let end: i128 = 12 + count as i128 * 28 + if active < count {
        12
    } else {
        0
    };
    if panel_height <= 0 || end > output.w as i128 {
        assert(row@ =~= pill_row(output, panel_height, count as int, active as int));
        return row;
    }
    let wanted: i32 = panel_height - GAP * 2;
    let height: i32 = if wanted > 2 {
        wanted
    } else {
        2
    };
    let y: i32 = if panel_height < 2 {
        0
    } else {
        (panel_height - height) / 2
    };
    let mut x: i32 = GAP * 2;
    for index in 0..count
        invariant
            panel_height > 0,
            height == pill_height(panel_height as int),
            y == pill_top(panel_height as int),
            pill_start(active as int, count as int) <= output.w,
            x == pill_start(active as int, index as int),
            row@.len() == index,
            forall|i: int|
                0 <= i < index ==> row@[i] == pill(panel_height as int, active as int, i),
    {
        let width: i32 = if index == active {
            ACTIVE_WIDTH
        } else {
            PILL_WIDTH
        };
        row.push(Rectangle { loc: Point { x, y }, size: Size { w: width, h: height } });
        x = x + width + GAP;
    }
    assert(row@ =~= pill_row(output, panel_height, count as int, active as int));
    row
}

/// Which pill a point is inside, if any.
pub fn pill_at(pills: &[Rectangle], point: Point) -> (found: Option<usize>)
    ensures
        utils::first_holding(pills@, point, found),
{
    utils::position_at(pills, point)
}

/// Whether a point is on the panel at all.
pub fn contains(output: Size, panel_height: i32, span: (i32, i32), point: Point) -> (b: bool)
    requires
        0 <= output.w,
        0 <= output.h,
    ensures
        b == (panel_height > 0 && panel_within(output, panel_height, span).holds(point)),
{
    panel_height > 0 && panel_area(output, panel_height, span).contains(point)
}

/// The panel and the area below it cover the height of the output exactly, with
/// no strip that belongs to neither.
pub proof fn panel_and_usable_area_tile_the_output(output: Size, panel_height: i32)
    requires
        0 <= output.w,
        0 <= panel_height < output.h,
    ensures
        ({
            let panel = panel_within(output, panel_height, (0, output.w));
            let usable = below_panel(output, panel_height);
            &&& panel.loc.y == 0
            &&& panel.bottom() == usable.loc.y
            &&& usable.bottom() == output.h
            &&& panel.size.w == output.w
            &&& usable.size.w == output.w
            &&& !panel.meets(usable)
        }),
{
}

/// However tall the panel, some area is left to put windows in.
pub proof fn some_area_is_always_left(output: Size, panel_height: i32)
    requires
        0 < output.w,
        0 <= output.h,
    ensures
        below_panel(output, panel_height).size.w > 0,
        below_panel(output, panel_height).size.h > 0,
{
}

/// There is a pill for every workspace or none at all; pills run from left to
/// right with a gap between them, the active one is wider than the others, and
/// all of them lie inside the panel.
pub proof fn pills_stand_apart(output: Size, panel_height: i32, count: int, active: int)
    requires
        0 <= count,
        0 <= active,
        2 <= panel_height <= output.h,
    ensures
        ({
            let row = pill_row(output, panel_height, count, active);
            let panel = panel_within(output, panel_height, (0, output.w));
            &&& row.len() == count || row.len() == 0
            &&& forall|i: int, j: int|
                0 <= i < j < row.len() ==> (#[trigger] row[i]).right() + GAP <= (
                #[trigger] row[j]).loc.x
            &&& forall|i: int|
                0 <= i < row.len() ==> panel.holds_rect(#[trigger] row[i])
            &&& forall|i: int|
                0 <= i < row.len() && i != active && active < row.len() ==> (
                #[trigger] row[i]).size.w < row[active].size.w
        }),
{
    let row = pill_row(output, panel_height, count, active);
    if row.len() > 0 {
        assert forall|i: int| 0 <= i < row.len() implies row[i] == pill(
            panel_height as int,
            active,
            i,
        ) && pill_start(active, i) + PILL_WIDTH <= output.w && (i == active ==> pill_start(
            active,
            i,
        ) + ACTIVE_WIDTH <= output.w) && pill_start(active, i) >= 0 by {
            assert(pill_start(active, i) <= pill_start(active, count));
        }
    }
}

/// A click inside a pill finds that pill.
pub proof fn a_click_finds_the_pill_it_is_inside(
    output: Size,
    panel_height: i32,
    count: int,
    active: int,
    i: int,
    point: Point,
    found: Option<usize>,
)
    requires
        0 <= count,
        0 <= active,
        2 <= panel_height <= output.h,
        0 <= i < pill_row(output, panel_height, count, active).len(),
        pill_row(output, panel_height, count, active)[i].holds(point),
        utils::first_holding(pill_row(output, panel_height, count, active), point, found),
    ensures
        found is Some,
        found->Some_0 == i,
{
    let row = pill_row(output, panel_height, count, active);
    pills_stand_apart(output, panel_height, count, active);
    if found is Some && found->Some_0 != i {
        let k = found->Some_0 as int;
        assert(row[k].holds(point));
        if k < i {
            assert(row[k].right() + GAP <= row[i].loc.x);
        } else {
            assert(row[i].right() + GAP <= row[k].loc.x);
        }
    }
}

/// Pills stand in the middle of the panel's height, as much free above them as
/// below, and keep within it; the active one is wider than the others, which are
/// all of one size.
pub proof fn pills_stand_in_the_middle(
    output: Size,
    panel_height: i32,
    count: int,
    active: int,
    i: int,
)
    requires
        2 <= panel_height,
        0 <= active,
        0 <= i < pill_row(output, panel_height, count, active).len(),
    ensures
        ({
            let pill = pill_row(output, panel_height, count, active)[i];
            let free = panel_height - pill.bottom();
            &&& 0 <= pill.loc.y <= free <= pill.loc.y + 1
            &&& pill.size.h >= 2
            &&& pill.size.w == if i == active {
                ACTIVE_WIDTH
            } else {
                PILL_WIDTH
            }
        }),
{
}

} // verus!
