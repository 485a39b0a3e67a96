//! The layout engine.
//!
//! One engine with two policies over the same window set. `arrange` is a
//! function from an area and a window count to a list of rectangles; which
//! windows take part, and what is done with the rectangles, is decided
//! elsewhere. Floating is the absence of an arrangement, so it is not one of
//! these.

use vstd::prelude::*;

use crate::number::Number;
use crate::utils;
use crate::utils::{Point, Rectangle, Size};

verus! {

/// Space between tiles, and between tiles and the screen edge.
#[derive(Debug, Clone, Copy, PartialEq, Eq, Structural)]
pub struct Gaps {
    pub inner: i32,
    pub outer: i32,
}

impl Default for Gaps {
    fn default() -> (gaps: Gaps)
        ensures
            gaps == (Gaps { inner: 8, outer: 8 }),
    {
        Gaps { inner: 8, outer: 8 }
    }
}

/// How tiled windows divide a workspace.
#[derive(Debug, Clone, Copy, PartialEq, Eq, Structural)]
pub enum Layout {
    /// One window takes a fraction of the width; the rest share a column.
    MasterStack { ratio: Number },
    /// Equal-width columns.
    Columns,
}

/// The master fraction of a new workspace: 0.6.
pub const DEFAULT_RATIO: u64 = 0x3fe3_3333_3333_3333;

/// The least master fraction: 0.1.
pub const LEAST_RATIO: u64 = 0x3fb9_9999_9999_999a;

/// The greatest master fraction: 0.9.
pub const GREATEST_RATIO: u64 = 0x3fec_cccc_cccc_cccd;

/// The fraction of an area too narrow to have a divider: 0.5.
pub const EVEN_RATIO: u64 = 0x3fe0_0000_0000_0000;

/// Floor for the width of the master column, so that an extreme ratio cannot
/// starve either side to nothing. Tiles of the stack have no such floor: to
/// clamp each one up would make the column overflow its area.
pub const MIN_MASTER: i32 = 80;

/// The layout that a workspace starts with.
pub open spec fn default_layout() -> Layout {
    Layout::MasterStack { ratio: Number { bits: DEFAULT_RATIO } }
}

impl Default for Layout {
    fn default() -> (layout: Layout)
        ensures
            layout == default_layout(),
    {
        Layout::MasterStack { ratio: Number { bits: DEFAULT_RATIO } }
    }
}

/// A fraction, kept between the least and the greatest that a divider can have.
pub open spec fn ratio_in_bounds(ratio: Number) -> Number {
    ratio.kept_between(Number { bits: LEAST_RATIO }, Number { bits: GREATEST_RATIO })
}

fn clamp_ratio(ratio: Number) -> (kept: Number)
    ensures
        kept == ratio_in_bounds(ratio),
{
    ratio.clamped(Number { bits: LEAST_RATIO }, Number { bits: GREATEST_RATIO })
}

impl Layout {
    pub fn name(self) -> (name: &'static str)
        ensures
            self is MasterStack ==> name@ == "master-stack"@,
            self is Columns ==> name@ == "columns"@,
    {
        match self {
            Layout::MasterStack { .. } => "master-stack",
            Layout::Columns => "columns",
        }
    }

    /// Cycle through layouts, for a keybinding.
    pub fn next(self) -> (other: Layout)
        ensures
            other == self.following(),
    {
        match self {
            Layout::MasterStack { .. } => Layout::Columns,
            Layout::Columns => Layout::default(),
        }
    }

    pub open spec fn following(self) -> Layout {
        match self {
            Layout::MasterStack { .. } => Layout::Columns,
            Layout::Columns => default_layout(),
        }
    }

    /// The layout with its master fraction moved to `wider`, the sum of the
    /// fraction and the step taken.
    pub open spec fn widened(self, wider: Number) -> Layout {
        match self {
            Layout::MasterStack { .. } => Layout::MasterStack { ratio: ratio_in_bounds(wider) },
            Layout::Columns => self,
        }
    }

    /// Adjust the master fraction to `wider`, the sum of the fraction and the
    /// step taken. Clamped rather than wrapped; columns have no fraction.
    pub fn widen(self, wider: Number) -> (layout: Layout)
        ensures
            layout == self.widened(wider),
    {
        match self {
            Layout::MasterStack { .. } => Layout::MasterStack { ratio: clamp_ratio(wider) },
            Layout::Columns => Layout::Columns,
        }
    }

    /// The width that the master fraction is a fraction of.
    pub fn divisible_width(area: Rectangle, gaps: Gaps) -> (w: i32)
        ensures
            w == utils::saturated(inset_length(area.size.w, gaps.outer) - gaps.inner),
    {
        utils::narrowed(inset_side(area.size.w, gaps.outer) - gaps.inner as i64)
    }

    /// Divide `area` among `n` windows.
    ///
    /// Returns exactly `n` rectangles, in the same order as the windows they
    /// are for. `wanted` is the width that the master fraction gives: that
    /// fraction of `divisible_width`, rounded to a whole pixel.
    pub fn arrange(self, area: Rectangle, n: usize, gaps: Gaps, wanted: i32) -> (tiles: Vec<
        Rectangle,
    >)
        requires
            self.arrangement_fits(area, n as int, gaps, wanted),
        ensures
            tiles@ == self.arrangement(area, n as int, gaps, wanted),
            tiles@.len() == n,
    {
        if n == 0 {
            let tiles: Vec<Rectangle> = Vec::new();
            assert(tiles@ =~= self.arrangement(area, 0, gaps, wanted));
            return tiles;
        }
        // The outer gap applies once, to the whole area; the inner gap then
        // applies between tiles.
        let inner: Rectangle = inset(area, gaps.outer);
        match self {
            Layout::MasterStack { .. } => master_stack(inner, n, wanted, gaps.inner),
            Layout::Columns => split(inner, n, gaps.inner, Axis::Horizontal),
        }
    }

    /// Whether `arrange` can hold every coordinate of what it would return.
    pub fn fits(self, area: Rectangle, n: usize, gaps: Gaps, wanted: i32) -> (fits: bool)
        ensures
            fits == self.arrangement_fits(area, n as int, gaps, wanted),
    {
        if n == 0 {
            return true;
        }
        if n > i32::MAX as usize || !can_inset(area, gaps.outer) {
            return false;
        }
        let inner: Rectangle = inset(area, gaps.outer);
        match self {
            Layout::MasterStack { .. } => {
                if n == 1 {
                    return true;
                }
                let master_w: i64 = master_side(inner, wanted, gaps.inner);
                let x: i64 = inner.loc.x as i64 + master_w + gaps.inner as i64;
                let w: i64 = inner.size.w as i64 - master_w - gaps.inner as i64;
                if !can_hold(master_w) || !can_hold(x) || !can_hold(w) {
                    return false;
                }
                let stack: Rectangle = Rectangle {
                    loc: Point { x: x as i32, y: inner.loc.y },
                    size: Size { w: w as i32, h: inner.size.h },
                };
                can_split(stack, n - 1, gaps.inner, Axis::Vertical)
            },
            Layout::Columns => can_split(inner, n, gaps.inner, Axis::Horizontal),
        }
    }

    /// The rectangles that `n` windows get of `area`.
    pub open spec fn arrangement(
        self,
        area: Rectangle,
        n: int,
        gaps: Gaps,
        wanted: i32,
    ) -> Seq<Rectangle> {
        let inner = inset_area(area, gaps.outer);
        if n <= 0 {
            Seq::empty()
        } else {
            match self {
                Layout::MasterStack { .. } => master_and_stack(inner, n, wanted, gaps.inner),
                Layout::Columns => parts(inner, n, gaps.inner, Axis::Horizontal),
            }
        }
    }

    /// Whether every coordinate of the arrangement can be held.
    pub open spec fn arrangement_fits(
        self,
        area: Rectangle,
        n: int,
        gaps: Gaps,
        wanted: i32,
    ) -> bool {
        let inner = inset_area(area, gaps.outer);
        n > 0 ==> {
            &&& n <= i32::MAX
            &&& inset_fits(area, gaps.outer)
            &&& match self {
                Layout::MasterStack { .. } => n > 1 ==> {
                    &&& master_fits(inner, wanted, gaps.inner)
                    &&& parts_fit(
                        stack_area(inner, wanted, gaps.inner),
                        n - 1,
                        gaps.inner,
                        Axis::Vertical,
                    )
                },
                Layout::Columns => parts_fit(inner, n, gaps.inner, Axis::Horizontal),
            }
        }
    }
}

/// Which tile contains `point`, if any.
///
/// Returns an index into the slice that `arrange` produced, so the caller can
/// map it straight back to a window.
pub fn index_at(tiles: &[Rectangle], point: Point) -> (found: Option<usize>)
    ensures
        utils::first_holding(tiles@, point, found),
{
    utils::position_at(tiles, point)
}

/// How far into the tiled width the column `x` lies, and how wide that width
/// is: their quotient is the fraction that the divider is dragged to. `None`
/// where nothing is left of the width.
pub fn divider_at(area: Rectangle, x: i32, gaps: Gaps) -> (at: Option<(i64, i64)>)
    ensures
        at is Some <==> area.size.w - gaps.outer * 2 > 0,
        at is Some ==> at->Some_0.0 == x - area.loc.x - gaps.outer,
        at is Some ==> at->Some_0.1 == area.size.w - gaps.outer * 2,
{
    let inner: i64 = area.size.w as i64 - gaps.outer as i64 * 2;
    if inner <= 0 {
        return None;
    }
    Some((x as i64 - area.loc.x as i64 - gaps.outer as i64, inner))
}

/// The master ratio implied by dragging the divider, from the quotient of what
/// `divider_at` gives.
///
/// Clamped to the same range as `widen`, so dragging past the edge parks the
/// divider rather than inverting the layout.
pub fn ratio_at(quotient: Option<Number>) -> (ratio: Number)
    ensures
        quotient is None ==> ratio == (Number { bits: EVEN_RATIO }),
        quotient is Some ==> ratio == ratio_in_bounds(quotient->Some_0),
{
    match quotient {
        None => Number { bits: EVEN_RATIO },
        Some(quotient) => clamp_ratio(quotient),
    }
}

/// Where stepping by `delta` from `from` leads, round a circle of `len`.
pub open spec fn stepped(len: int, from: int, delta: int) -> int {
    if len == 0 {
        0
    } else {
        (from + delta) % len
    }
}

/// Step an index through `len` items, wrapping at both ends.
///
/// Wrapping rather than clamping: clamping makes the first and last positions
/// dead ends, where a key that is bound looks like one that is not.
pub fn step(len: usize, from: usize, delta: isize) -> (to: usize)
    ensures
        to == stepped(len as int, from as int, delta as int),
        len > 0 ==> to < len,
{
    if len == 0 {
        return 0;
    }
    let sum: i128 = from as i128 + delta as i128;
    let n: i128 = len as i128;
    // `%` keeps the sign of the dividend, so a step backwards is measured from
    // the end.
    if sum >= 0 {
        proof {
            vstd::arithmetic::div_mod::lemma_mod_bound(sum as int, n as int);
        }
        (sum % n) as usize
    } else {
        let back: i128 = (-sum) % n;
        proof {
            let (s, m) = (sum as int, n as int);
            vstd::arithmetic::div_mod::lemma_mod_bound(-s, m);
            vstd::arithmetic::div_mod::lemma_fundamental_div_mod(-s, m);
            let q = (-s) / m;
            if back == 0 {
                assert(s == m * (-q) + 0) by (nonlinear_arith)
                    requires
                        -s == m * q + 0,
                ;
                vstd::arithmetic::div_mod::lemma_fundamental_div_mod_converse(s, m, -q, 0);
            } else {
                assert(s == m * (-q - 1) + (m - back)) by (nonlinear_arith)
                    requires
                        -s == m * q + back,
                ;
                vstd::arithmetic::div_mod::lemma_fundamental_div_mod_converse(
                    s,
                    m,
                    -q - 1,
                    m - back,
                );
            }
        }
        if back == 0 {
            0
        } else {
            (n - back) as usize
        }
    }
}

/// A step and the step back lead to where they started.
pub proof fn stepping_back_undoes_a_step(len: int, from: int, delta: int)
    requires
        0 <= from < len,
    ensures
        stepped(len, stepped(len, from, delta), -delta) == from,
{
    let to = from + delta;
    vstd::arithmetic::div_mod::lemma_fundamental_div_mod(to, len);
    let q = to / len;
    let r = to % len;
    assert(r - delta == len * (-q) + from) by (nonlinear_arith)
        requires
            from + delta == len * q + r,
    ;
    vstd::arithmetic::div_mod::lemma_fundamental_div_mod_converse(r - delta, len, -q, from);
}

/// The direction that an area is divided along.
#[derive(Debug, Clone, Copy, PartialEq, Eq, Structural)]
pub enum Axis {
    Horizontal,
    Vertical,
}

/// A side with a gap taken off both ends, and never less than one pixel.
pub open spec fn inset_length(length: i32, by: i32) -> int {
    utils::larger(length - by * 2, 1)
}

/// An area with a gap taken off every side.
pub open spec fn inset_area(r: Rectangle, by: i32) -> Rectangle {
    utils::rectangle(
        r.loc.x + by,
        r.loc.y + by,
        inset_length(r.size.w, by),
        inset_length(r.size.h, by),
    )
}

pub open spec fn inset_fits(r: Rectangle, by: i32) -> bool {
    &&& utils::in_range(r.loc.x + by)
    &&& utils::in_range(r.loc.y + by)
    &&& utils::in_range(inset_length(r.size.w, by))
    &&& utils::in_range(inset_length(r.size.h, by))
}

fn inset_side(length: i32, by: i32) -> (side: i64)
    ensures
        side == inset_length(length, by),
{
    let left: i64 = length as i64 - by as i64 * 2;
    if left > 1 {
        left
    } else {
        1
    }
}

fn can_hold(n: i64) -> (b: bool)
    ensures
        b == utils::in_range(n as int),
{
    i32::MIN as i64 <= n && n <= i32::MAX as i64
}

fn can_inset(r: Rectangle, by: i32) -> (b: bool)
    ensures
        b == inset_fits(r, by),
{
    can_hold(r.loc.x as i64 + by as i64) && can_hold(r.loc.y as i64 + by as i64) && can_hold(
        inset_side(r.size.w, by),
    ) && can_hold(inset_side(r.size.h, by))
}

fn inset(r: Rectangle, by: i32) -> (inner: Rectangle)
    requires
        inset_fits(r, by),
    ensures
        inner == inset_area(r, by),
{
    Rectangle {
        loc: Point { x: r.loc.x + by, y: r.loc.y + by },
        size: Size { w: inset_side(r.size.w, by) as i32, h: inset_side(r.size.h, by) as i32 },
    }
}

/// The width of the master column: what is wanted, as far as both sides keep
/// their minimum.
pub open spec fn master_width(area: Rectangle, wanted: i32, gap: i32) -> int {
    utils::between(
        wanted as int,
        MIN_MASTER as int,
        utils::larger(area.size.w - gap - MIN_MASTER, MIN_MASTER as int),
    )
}

/// What the master column leaves to the others.
pub open spec fn stack_area(area: Rectangle, wanted: i32, gap: i32) -> Rectangle {
    let master = master_width(area, wanted, gap);
    utils::rectangle(
        area.loc.x + master + gap,
        area.loc.y as int,
        area.size.w - master - gap,
        area.size.h as int,
    )
}

pub open spec fn master_fits(area: Rectangle, wanted: i32, gap: i32) -> bool {
    let master = master_width(area, wanted, gap);
    &&& utils::in_range(master)
    &&& utils::in_range(area.loc.x + master + gap)
    &&& utils::in_range(area.size.w - master - gap)
}

/// One window takes a column of its own, the others share what is left; a
/// single window takes everything.
pub open spec fn master_and_stack(area: Rectangle, n: int, wanted: i32, gap: i32) -> Seq<
    Rectangle,
> {
    if n == 1 {
        seq![area]
    } else {
        let master = utils::rectangle(
            area.loc.x as int,
            area.loc.y as int,
            master_width(area, wanted, gap),
            area.size.h as int,
        );
        seq![master] + parts(stack_area(area, wanted, gap), n - 1, gap, Axis::Vertical)
    }
}

fn master_side(area: Rectangle, wanted: i32, gap: i32) -> (w: i64)
    ensures
        w == master_width(area, wanted, gap),
{
    let most: i64 = area.size.w as i64 - gap as i64 - MIN_MASTER as i64;
    let most: i64 = if most > MIN_MASTER as i64 {
        most
    } else {
        MIN_MASTER as i64
    };
    if wanted < MIN_MASTER {
        MIN_MASTER as i64
    } else if wanted as i64 > most {
        most
    } else {
        wanted as i64
    }
}

fn master_stack(area: Rectangle, n: usize, wanted: i32, gap: i32) -> (tiles: Vec<Rectangle>)
    requires
        0 < n <= i32::MAX,
        n > 1 ==> master_fits(area, wanted, gap) && parts_fit(
            stack_area(area, wanted, gap),
            n - 1,
            gap,
            Axis::Vertical,
        ),
    ensures
        tiles@ == master_and_stack(area, n as int, wanted, gap),
        tiles@.len() == n,
{
    let mut tiles: Vec<Rectangle> = Vec::new();
    // A single window takes everything: an empty stack column would leave dead
    // space beside it.
    if n == 1 {
        tiles.push(area);
        assert(tiles@ =~= seq![area]);
        return tiles;
    }
    let master_w: i64 = master_side(area, wanted, gap);
    let master: Rectangle = Rectangle {
        loc: area.loc,
        size: Size { w: master_w as i32, h: area.size.h },
    };
    let stack: Rectangle = Rectangle {
        loc: Point { x: (area.loc.x as i64 + master_w + gap as i64) as i32, y: area.loc.y },
        size: Size { w: (area.size.w as i64 - master_w - gap as i64) as i32, h: area.size.h },
    };
    tiles.push(master);
    let mut rest: Vec<Rectangle> = split(stack, n - 1, gap, Axis::Vertical);
    tiles.append(&mut rest);
    assert(tiles@ =~= seq![master] + parts(stack, n - 1, gap, Axis::Vertical));
    tiles
}

/// What `n` tiles share of a length, once the gaps between them are taken off.
pub open spec fn usable(total: int, n: int, gap: int) -> int {
    total - gap * (n - 1)
}

/// The length of tile `i`: an equal share, with one pixel more for the first
/// ones where the length does not divide, and never less than one pixel.
pub open spec fn tile_length(usable: int, n: int, i: int) -> int {
    if usable < n {
        1
    } else {
        usable / n + if i < usable % n {
            1int
        } else {
            0int
        }
    }
}

/// How far into the length tile `i` starts.
pub open spec fn tile_offset(usable: int, n: int, gap: int, i: int) -> int {
    if usable < n {
        i * (1 + gap)
    } else {
        i * (usable / n + gap) + utils::smaller(i, usable % n)
    }
}

pub open spec fn along(area: Rectangle, axis: Axis) -> (int, int) {
    match axis {
        Axis::Horizontal => (area.loc.x as int, area.size.w as int),
        Axis::Vertical => (area.loc.y as int, area.size.h as int),
    }
}

/// Tile `i` of the `n` that `area` is divided into.
pub open spec fn part(area: Rectangle, n: int, gap: int, axis: Axis, i: int) -> Rectangle {
    let (start, total) = along(area, axis);
    let room = usable(total, n, gap);
    let at = start + tile_offset(room, n, gap, i);
    let length = tile_length(room, n, i);
    match axis {
        Axis::Horizontal => utils::rectangle(at, area.loc.y as int, length, area.size.h as int),
        Axis::Vertical => utils::rectangle(area.loc.x as int, at, area.size.w as int, length),
    }
}

/// The `n` tiles that `area` is divided into along `axis`.
pub open spec fn parts(area: Rectangle, n: int, gap: i32, axis: Axis) -> Seq<Rectangle> {
    Seq::new(n as nat, |i: int| part(area, n, gap as int, axis, i))
}

/// Whether every tile starts and ends where a coordinate can.
pub open spec fn parts_fit(area: Rectangle, n: int, gap: i32, axis: Axis) -> bool {
    let (start, total) = along(area, axis);
    let room = usable(total, n, gap as int);
    &&& utils::in_range(tile_length(room, n, 0))
    &&& forall|i: int|
        0 <= i < n ==> utils::in_range(start + #[trigger] tile_offset(room, n, gap as int, i))
}

proof fn lemma_next_offset(usable: int, n: int, gap: int, i: int)
    requires
        0 < n,
        0 <= i < n,
    ensures
        tile_offset(usable, n, gap, i + 1) == tile_offset(usable, n, gap, i) + tile_length(
            usable,
            n,
            i,
        ) + gap,
        tile_offset(usable, n, gap, 0) == 0,
        1 <= tile_length(usable, n, i) <= tile_length(usable, n, 0),
{
    if usable < n {
        assert((i + 1) * (1 + gap) == i * (1 + gap) + (1 + gap)) by (nonlinear_arith);
        assert(0 * (1 + gap) == 0) by (nonlinear_arith);
    } else {
        let each = usable / n + gap;
        assert((i + 1) * each == i * each + each) by (nonlinear_arith);
        assert(0 * each == 0) by (nonlinear_arith);
        vstd::arithmetic::div_mod::lemma_mod_bound(usable, n);
        vstd::arithmetic::div_mod::lemma_fundamental_div_mod(usable, n);
        let (q, r) = (usable / n, usable % n);
        assert(q >= 1) by (nonlinear_arith)
            requires
                usable == n * q + r,
                r < n,
                usable >= n,
                n > 0,
        ;
    }
}

/// Divide `area` into `n` equal parts along `axis`, separated by `gap`.
///
/// Remainder pixels are distributed one per tile rather than dumped on the last
/// one.
fn split(area: Rectangle, n: usize, gap: i32, axis: Axis) -> (tiles: Vec<Rectangle>)
    requires
        n <= i32::MAX,
        n > 0 ==> parts_fit(area, n as int, gap, axis),
    ensures
        tiles@ == parts(area, n as int, gap, axis),
        tiles@.len() == n,
{
    let mut tiles: Vec<Rectangle> = Vec::new();
    if n == 0 {
        assert(tiles@ =~= parts(area, 0, gap, axis));
        return tiles;
    }
    let (start, total): (i32, i32) = match axis {
        Axis::Horizontal => (area.loc.x, area.size.w),
        Axis::Vertical => (area.loc.y, area.size.h),
    };
    let count: i64 = n as i64;
    assert(-0x4000_0000_0000_0000 <= gap * (count - 1) <= 0x4000_0000_0000_0000)
        by (nonlinear_arith)
        requires
            i32::MIN <= gap <= i32::MAX,
            1 <= count <= i32::MAX,
    ;
    let room: i64 = total as i64 - gap as i64 * (count - 1);
    let (each, spare): (i64, i64) = if room < count {
        (1, 0)
    } else {
        (room / count, room % count)
    };
    let mut offset: i64 = 0;
    proof {
        lemma_next_offset(room as int, n as int, gap as int, 0);
    }
    for i in 0..n
        invariant
            0 < n <= i32::MAX,
            count == n,
            (start as int, total as int) == along(area, axis),
            room == usable(total as int, n as int, gap as int),
            parts_fit(area, n as int, gap, axis),
            room < count ==> each == 1 && spare == 0,
            room >= count ==> each == room as int / count as int && spare == room as int
                % count as int,
            offset == tile_offset(room as int, n as int, gap as int, i as int),
            tiles@.len() == i,
            forall|k: int|
                0 <= k < i ==> tiles@[k] == part(area, n as int, gap as int, axis, k),
    {
        proof {
            lemma_next_offset(room as int, n as int, gap as int, i as int);
            assert(utils::in_range(
                start + tile_offset(room as int, n as int, gap as int, i as int),
            ));
        }
        let length: i64 = if (i as i64) < spare {
            each + 1
        } else {
            each
        };
        let at: i32 = (start as i64 + offset) as i32;
        let tile: Rectangle = match axis {
            Axis::Horizontal => Rectangle {
                loc: Point { x: at, y: area.loc.y },
                size: Size { w: length as i32, h: area.size.h },
            },
            Axis::Vertical => Rectangle {
                loc: Point { x: area.loc.x, y: at },
                size: Size { w: area.size.w, h: length as i32 },
            },
        };
        tiles.push(tile);
        offset = offset + length + gap as i64;
    }
    assert(tiles@ =~= parts(area, n as int, gap, axis));
    tiles
}

/// Whether `split` can hold every coordinate of what it would return.
fn can_split(area: Rectangle, n: usize, gap: i32, axis: Axis) -> (b: bool)
    requires
        0 < n <= i32::MAX,
    ensures
        b == parts_fit(area, n as int, gap, axis),
{
    let (start, total): (i32, i32) = match axis {
        Axis::Horizontal => (area.loc.x, area.size.w),
        Axis::Vertical => (area.loc.y, area.size.h),
    };
    let count: i64 = n as i64;
    assert(-0x4000_0000_0000_0000 <= gap * (count - 1) <= 0x4000_0000_0000_0000)
        by (nonlinear_arith)
        requires
            i32::MIN <= gap <= i32::MAX,
            1 <= count <= i32::MAX,
    ;
    let room: i64 = total as i64 - gap as i64 * (count - 1);
    let (each, spare): (i64, i64) = if room < count {
        (1, 0)
    } else {
        (room / count, room % count)
    };
    let longest: i64 = if spare > 0 {
        each + 1
    } else {
        each
    };
    let mut offset: i64 = 0;
    proof {
        lemma_next_offset(room as int, n as int, gap as int, 0);
    }
    if !can_hold(longest) {
        return false;
    }
    for i in 0..n
        invariant
            0 < n <= i32::MAX,
            count == n,
            (start as int, total as int) == along(area, axis),
            room == usable(total as int, n as int, gap as int),
            room < count ==> each == 1 && spare == 0,
            room >= count ==> each == room as int / count as int && spare == room as int
                % count as int,
            utils::in_range(tile_length(room as int, n as int, 0)),
            offset == tile_offset(room as int, n as int, gap as int, i as int),
            -0x2_0000_0000 <= offset <= 0x3_0000_0000,
            forall|k: int|
                0 <= k < i ==> utils::in_range(
                    start + #[trigger] tile_offset(room as int, n as int, gap as int, k),
                ),
    {
        if !can_hold(start as i64 + offset) {
            return false;
        }
        proof {
            lemma_next_offset(room as int, n as int, gap as int, i as int);
        }
        let length: i64 = if (i as i64) < spare {
            each + 1
        } else {
            each
        };
        offset = offset + length + gap as i64;
    }
    true
}

/// Where each tile can have a pixel, the tiles and the gaps between them come
/// to exactly the length they divide, and no two tiles differ by more than one
/// pixel.
pub proof fn tiles_fill_exactly(total: int, n: int, gap: int)
    requires
        0 < n,
        n <= usable(total, n, gap),
    ensures
        ({
            let room = usable(total, n, gap);
            tile_offset(room, n, gap, n - 1) + tile_length(room, n, n - 1) == total
        }),
        forall|i: int, j: int|
            0 <= i < n && 0 <= j < n ==> -1 <= #[trigger] tile_length(usable(total, n, gap), n, i)
                - #[trigger] tile_length(usable(total, n, gap), n, j) <= 1,
{
    let room = usable(total, n, gap);
    lemma_next_offset(room, n, gap, n - 1);
    vstd::arithmetic::div_mod::lemma_mod_bound(room, n);
    vstd::arithmetic::div_mod::lemma_fundamental_div_mod(room, n);
    let q = room / n;
    assert(n * (q + gap) == n * q + gap * (n - 1) + gap) by (nonlinear_arith);
}

/// Tiles stand one behind another: without negative gaps each one starts at or
/// after the end of every tile before it.
pub proof fn tiles_do_not_overlap(total: int, n: int, gap: int, i: int, j: int)
    requires
        0 <= i < j < n,
        0 <= gap,
    ensures
        ({
            let room = usable(total, n, gap);
            tile_offset(room, n, gap, i) + tile_length(room, n, i) + gap <= tile_offset(
                room,
                n,
                gap,
                j,
            )
        }),
    decreases j - i,
{
    let room = usable(total, n, gap);
    lemma_next_offset(room, n, gap, j - 1);
    if i < j - 1 {
        tiles_do_not_overlap(total, n, gap, i, j - 1);
    }
}

proof fn lemma_part_bounds(area: Rectangle, n: int, gap: i32, axis: Axis, i: int)
    requires
        0 <= i < n,
        0 <= gap,
        n <= usable(along(area, axis).1, n, gap as int),
    ensures
        ({
            let (start, total) = along(area, axis);
            let room = usable(total, n, gap as int);
            &&& 0 <= tile_offset(room, n, gap as int, i)
            &&& 1 <= tile_length(room, n, i)
            &&& tile_offset(room, n, gap as int, i) + tile_length(room, n, i) <= total
        }),
{
    let (start, total) = along(area, axis);
    let room = usable(total, n, gap as int);
    tiles_fill_exactly(total, n, gap as int);
    lemma_next_offset(room, n, gap as int, i);
    if 0 < i {
        lemma_next_offset(room, n, gap as int, 0);
        tiles_do_not_overlap(total, n, gap as int, 0, i);
    }
    if i < n - 1 {
        lemma_next_offset(room, n, gap as int, n - 1);
        tiles_do_not_overlap(total, n, gap as int, i, n - 1);
    }
}

/// Whether an area ends where a coordinate can, so that nothing in it wraps.
pub open spec fn bounded(area: Rectangle) -> bool {
    &&& 0 < area.size.w
    &&& 0 < area.size.h
    &&& utils::in_range(area.loc.x + area.size.w)
    &&& utils::in_range(area.loc.y + area.size.h)
}

/// The tiles of a division lie inside the area they divide and share no pixel.
pub proof fn parts_tile_the_area(area: Rectangle, n: int, gap: i32, axis: Axis)
    requires
        0 < n,
        0 <= gap,
        bounded(area),
        n <= usable(along(area, axis).1, n, gap as int),
    ensures
        parts_fit(area, n, gap, axis),
        forall|i: int|
            0 <= i < n ==> area.holds_rect(#[trigger] parts(area, n, gap, axis)[i]) && bounded(
                parts(area, n, gap, axis)[i],
            ),
        forall|i: int, j: int|
            0 <= i < j < n ==> !(#[trigger] parts(area, n, gap, axis)[i]).meets(
                #[trigger] parts(area, n, gap, axis)[j],
            ),
{
    let (start, total) = along(area, axis);
    let room = usable(total, n, gap as int);
    lemma_part_bounds(area, n, gap, axis, 0);
    assert forall|i: int| 0 <= i < n implies utils::in_range(
        start + #[trigger] tile_offset(room, n, gap as int, i),
    ) by {
        lemma_part_bounds(area, n, gap, axis, i);
    }
    assert forall|i: int| 0 <= i < n implies area.holds_rect(
        #[trigger] parts(area, n, gap, axis)[i],
    ) && bounded(parts(area, n, gap, axis)[i]) by {
        lemma_part_bounds(area, n, gap, axis, i);
    }
    assert forall|i: int, j: int| 0 <= i < j < n implies !(#[trigger] parts(
        area,
        n,
        gap,
        axis,
    )[i]).meets(#[trigger] parts(area, n, gap, axis)[j]) by {
        lemma_part_bounds(area, n, gap, axis, i);
        lemma_part_bounds(area, n, gap, axis, j);
        tiles_do_not_overlap(total, n, gap as int, i, j);
    }
}

/// Whether an area, its outer gap taken off, has a pixel for every one of `n`
/// tiles, and for a master column its minimum on both sides.
pub open spec fn roomy(layout: Layout, area: Rectangle, n: int, gaps: Gaps) -> bool {
    let inner = inset_area(area, gaps.outer);
    &&& 0 <= gaps.inner
    &&& 0 <= gaps.outer
    &&& bounded(area)
    &&& area.size.w - gaps.outer * 2 >= 1
    &&& area.size.h - gaps.outer * 2 >= 1
    &&& match layout {
        Layout::MasterStack { .. } => n > 1 ==> {
            &&& inner.size.w >= gaps.inner + MIN_MASTER * 2
            &&& n - 1 <= usable(inner.size.h as int, n - 1, gaps.inner as int)
        },
        Layout::Columns => n <= usable(inner.size.w as int, n, gaps.inner as int),
    }
}

/// Where there is room, every window gets a tile of at least one pixel inside
/// the area, no two tiles overlap, and in a master layout neither column is
/// narrower than its minimum, whatever width was wanted.
pub proof fn arrangement_tiles_the_area(
    layout: Layout,
    area: Rectangle,
    n: int,
    gaps: Gaps,
    wanted: i32,
)
    requires
        0 < n <= i32::MAX,
        roomy(layout, area, n, gaps),
    ensures
        layout.arrangement_fits(area, n, gaps, wanted),
        layout.arrangement(area, n, gaps, wanted).len() == n,
        forall|i: int|
            0 <= i < n ==> area.holds_rect(#[trigger] layout.arrangement(area, n, gaps, wanted)[i])
                && bounded(layout.arrangement(area, n, gaps, wanted)[i]),
        forall|i: int, j: int|
            0 <= i < j < n ==> !(#[trigger] layout.arrangement(area, n, gaps, wanted)[i]).meets(
                #[trigger] layout.arrangement(area, n, gaps, wanted)[j],
            ),
        layout is MasterStack && n > 1 ==> forall|i: int|
            0 <= i < n ==> (#[trigger] layout.arrangement(area, n, gaps, wanted)[i]).size.w
                >= MIN_MASTER,
{
    let inner = inset_area(area, gaps.outer);
    let tiles = layout.arrangement(area, n, gaps, wanted);
    match layout {
        Layout::MasterStack { .. } => {
            if n > 1 {
                let stack = stack_area(inner, wanted, gaps.inner);
                parts_tile_the_area(stack, n - 1, gaps.inner, Axis::Vertical);
                let below = parts(stack, n - 1, gaps.inner, Axis::Vertical);
                assert forall|i: int| 0 <= i < n implies area.holds_rect(#[trigger] tiles[i])
                    && bounded(tiles[i]) && tiles[i].size.w >= MIN_MASTER by {
                    if i > 0 {
                        assert(tiles[i] == below[i - 1]);
                    }
                }
                assert forall|i: int, j: int| 0 <= i < j < n implies !(
                #[trigger] tiles[i]).meets(#[trigger] tiles[j]) by {
                    assert(tiles[j] == below[j - 1]);
                    assert(stack.holds_rect(below[j - 1]));
                    if i > 0 {
                        assert(tiles[i] == below[i - 1]);
                    }
                }
            }
        },
        Layout::Columns => {
            parts_tile_the_area(inner, n, gaps.inner, Axis::Horizontal);
        },
    }
}

/// Cycling through the layouts comes back to where it started, but for a divider
/// that was moved: a master stack comes back with its fraction at the default.
pub proof fn cycling_returns_to_the_start(layout: Layout)
    ensures
        layout is Columns ==> layout.following().following() == layout,
        layout is MasterStack ==> layout.following().following() == default_layout(),
{
}

/// Of more windows than one in a master layout the first has the left column, as
/// wide as is wanted where both columns keep their minimum, and the full height;
/// the others stand to the right of it, a gap away and below one another in
/// order, and fill what it leaves.
pub proof fn the_first_window_is_the_master(
    layout: Layout,
    area: Rectangle,
    n: int,
    gaps: Gaps,
    wanted: i32,
    i: int,
)
    requires
        layout is MasterStack,
        1 < n <= i32::MAX,
        roomy(layout, area, n, gaps),
        MIN_MASTER <= wanted <= area.size.w - gaps.outer * 2 - gaps.inner - MIN_MASTER,
        0 < i < n,
    ensures
        ({
            let tiles = layout.arrangement(area, n, gaps, wanted);
            let (master, tile) = (tiles[0], tiles[i]);
            &&& master.loc.x == area.loc.x + gaps.outer
            &&& master.loc.y == area.loc.y + gaps.outer
            &&& master.size.w == wanted
            &&& master.size.h == area.size.h - gaps.outer * 2
            &&& tile.loc.x == master.loc.x + wanted + gaps.inner
            &&& tile.loc.x + tile.size.w == area.loc.x + area.size.w - gaps.outer
            &&& i == 1 ==> tile.loc.y == area.loc.y + gaps.outer
            &&& i > 1 ==> tile.loc.y == tiles[i - 1].loc.y + tiles[i - 1].size.h + gaps.inner
            &&& i == n - 1 ==> tile.loc.y + tile.size.h == area.loc.y + area.size.h - gaps.outer
        }),
{
    let inner = inset_area(area, gaps.outer);
    let stack = stack_area(inner, wanted, gaps.inner);
    let (m, gap) = (n - 1, gaps.inner as int);
    let room = usable(inner.size.h as int, m, gap);
    let tiles = layout.arrangement(area, n, gaps, wanted);
    arrangement_tiles_the_area(layout, area, n, gaps, wanted);
    parts_tile_the_area(stack, m, gaps.inner, Axis::Vertical);
    let below = parts(stack, m, gaps.inner, Axis::Vertical);
    assert(tiles[i] == below[i - 1]);
    assert(stack.holds_rect(below[i - 1]));
    lemma_next_offset(room, m, gap, i - 1);
    if i > 1 {
        assert(tiles[i - 1] == below[i - 2]);
        assert(stack.holds_rect(below[i - 2]));
        lemma_next_offset(room, m, gap, i - 2);
    }
    tiles_fill_exactly(inner.size.h as int, m, gap);
}

/// Columns stand side by side in order, a gap between each and the next, all of
/// them as high as the area, and fill its width.
pub proof fn columns_stand_side_by_side(
    layout: Layout,
    area: Rectangle,
    n: int,
    gaps: Gaps,
    wanted: i32,
    i: int,
)
    requires
        layout is Columns,
        0 < n <= i32::MAX,
        roomy(layout, area, n, gaps),
        0 <= i < n,
    ensures
        ({
            let tiles = layout.arrangement(area, n, gaps, wanted);
            let tile = tiles[i];
            &&& tile.loc.y == area.loc.y + gaps.outer
            &&& tile.size.h == area.size.h - gaps.outer * 2
            &&& i == 0 ==> tile.loc.x == area.loc.x + gaps.outer
            &&& i > 0 ==> tile.loc.x == tiles[i - 1].loc.x + tiles[i - 1].size.w + gaps.inner
            &&& i == n - 1 ==> tile.loc.x + tile.size.w == area.loc.x + area.size.w - gaps.outer
        }),
{
    let inner = inset_area(area, gaps.outer);
    let gap = gaps.inner as int;
    let room = usable(inner.size.w as int, n, gap);
    arrangement_tiles_the_area(layout, area, n, gaps, wanted);
    let tiles = parts(inner, n, gaps.inner, Axis::Horizontal);
    parts_tile_the_area(inner, n, gaps.inner, Axis::Horizontal);
    assert(inner.holds_rect(tiles[i]));
    lemma_next_offset(room, n, gap, i);
    if i > 0 {
        assert(inner.holds_rect(tiles[i - 1]));
        lemma_next_offset(room, n, gap, i - 1);
    }
    tiles_fill_exactly(inner.size.w as int, n, gap);
}

/// A single window takes all of the area but the outer gap, in every layout.
pub proof fn a_single_window_takes_everything(
    layout: Layout,
    area: Rectangle,
    gaps: Gaps,
    wanted: i32,
)
    requires
        roomy(layout, area, 1, gaps),
    ensures
        ({
            let tiles = layout.arrangement(area, 1, gaps, wanted);
            &&& tiles.len() == 1
            &&& tiles[0].loc.x == area.loc.x + gaps.outer
            &&& tiles[0].loc.y == area.loc.y + gaps.outer
            &&& tiles[0].size.w == area.size.w - gaps.outer * 2
            &&& tiles[0].size.h == area.size.h - gaps.outer * 2
        }),
{
    let inner = inset_area(area, gaps.outer);
    assert(gaps.inner * 0 == 0);
    if layout is Columns {
        let room = usable(inner.size.w as int, 1, gaps.inner as int);
        assert(room == inner.size.w);
        lemma_next_offset(room, 1, gaps.inner as int, 0);
        tiles_fill_exactly(inner.size.w as int, 1, gaps.inner as int);
    }
}

/// The share of the first window goes where it is moved, but no lower than the
/// least and no higher than the greatest: beyond them the divider is parked
/// there. Columns have no divider.
pub proof fn a_divider_is_parked_at_its_bounds(layout: Layout, wider: Number)
    requires
        !wider.nan(),
    ensures
        ({
            let (least, most) = (Number { bits: LEAST_RATIO }, Number { bits: GREATEST_RATIO });
            let after = layout.widened(wider);
            &&& layout is Columns ==> after == layout
            &&& layout is MasterStack ==> after is MasterStack
            &&& layout is MasterStack ==> after->ratio.within(least, most)
            &&& layout is MasterStack && wider.within(least, most) ==> after->ratio == wider
            &&& layout is MasterStack && wider.less(least) ==> after->ratio == least
            &&& layout is MasterStack && most.less(wider) ==> after->ratio == most
            &&& ratio_in_bounds(wider).within(least, most)
            &&& wider.within(least, most) ==> ratio_in_bounds(wider) == wider
        }),
{
}

} // verus!
