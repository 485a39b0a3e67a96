//! Points, sizes and rectangles of whole logical pixels.

use vstd::prelude::*;

verus! {

#[derive(Debug, Clone, Copy, PartialEq, Eq, Structural)]
pub struct Point {
    pub x: i32,
    pub y: i32,
}

#[derive(Debug, Clone, Copy, PartialEq, Eq, Structural)]
pub struct Size {
    pub w: i32,
    pub h: i32,
}

#[derive(Debug, Clone, Copy, PartialEq, Eq, Structural)]
pub struct Rectangle {
    pub loc: Point,
    pub size: Size,
}

/// Whether a number is one that a coordinate can hold.
pub open spec fn in_range(n: int) -> bool {
    i32::MIN <= n <= i32::MAX
}

/// The coordinate nearest to `n`.
pub open spec fn saturated(n: int) -> int {
    if n < i32::MIN {
        i32::MIN as int
    } else if n > i32::MAX {
        i32::MAX as int
    } else {
        n
    }
}

/// The rectangle at `(x, y)` of size `w` by `h`.
pub open spec fn rectangle(x: int, y: int, w: int, h: int) -> Rectangle {
    Rectangle { loc: Point { x: x as i32, y: y as i32 }, size: Size { w: w as i32, h: h as i32 } }
}

impl Rectangle {
    /// The first column to the right of the rectangle.
    pub open spec fn right(self) -> int {
        saturated(self.loc.x + self.size.w)
    }

    /// The first row below the rectangle.
    pub open spec fn bottom(self) -> int {
        saturated(self.loc.y + self.size.h)
    }

    pub open spec fn holds(self, point: Point) -> bool {
        self.loc.x <= point.x < self.right() && self.loc.y <= point.y < self.bottom()
    }

    pub open spec fn holds_rect(self, other: Rectangle) -> bool {
        &&& self.loc.x <= other.loc.x
        &&& self.loc.y <= other.loc.y
        &&& other.right() <= self.right()
        &&& other.bottom() <= self.bottom()
    }

    pub open spec fn meets(self, other: Rectangle) -> bool {
        &&& self.loc.x < other.right()
        &&& other.loc.x < self.right()
        &&& self.loc.y < other.bottom()
        &&& other.loc.y < self.bottom()
    }

    pub fn new(loc: Point, size: Size) -> (r: Rectangle)
        ensures
            r.loc == loc,
            r.size == size,
    {
        Rectangle { loc, size }
    }

    /// The rectangle of this size at the origin.
    pub fn from_size(size: Size) -> (r: Rectangle)
        ensures
            r == rectangle(0, 0, size.w as int, size.h as int),
    {
        Rectangle { loc: Point { x: 0, y: 0 }, size }
    }

    /// Whether a point lies inside; the right and the bottom edge do not.
    pub fn contains(self, point: Point) -> (b: bool)
        ensures
            b == self.holds(point),
    {
        point.x >= self.loc.x && point.x < far_edge(self.loc.x, self.size.w) && point.y
            >= self.loc.y && point.y < far_edge(self.loc.y, self.size.h)
    }

    /// Whether another rectangle lies inside, edges included.
    pub fn contains_rect(self, other: Rectangle) -> (b: bool)
        ensures
            b == self.holds_rect(other),
    {
        other.loc.x >= self.loc.x && other.loc.y >= self.loc.y && far_edge(
            other.loc.x,
            other.size.w,
        ) <= far_edge(self.loc.x, self.size.w) && far_edge(other.loc.y, other.size.h) <= far_edge(
            self.loc.y,
            self.size.h,
        )
    }

    /// Whether two rectangles share a pixel; to touch is not to overlap.
    pub fn overlaps(self, other: Rectangle) -> (b: bool)
        ensures
            b == self.meets(other),
    {
        self.loc.x < far_edge(other.loc.x, other.size.w) && other.loc.x < far_edge(
            self.loc.x,
            self.size.w,
        ) && self.loc.y < far_edge(other.loc.y, other.size.h) && other.loc.y < far_edge(
            self.loc.y,
            self.size.h,
        )
    }

    /// The part that two rectangles share, if they overlap.
    ///
    /// An edge too long for a coordinate saturates.
    pub fn intersection(self, other: Rectangle) -> (shared: Option<Rectangle>)
        ensures
            shared is Some <==> self.meets(other),
            shared is Some ==> {
                let x = larger(self.loc.x as int, other.loc.x as int);
                let y = larger(self.loc.y as int, other.loc.y as int);
                &&& shared->Some_0 == rectangle(
                    x,
                    y,
                    saturated(smaller(self.right(), other.right()) - x),
                    saturated(smaller(self.bottom(), other.bottom()) - y),
                )
            },
    {
        if !self.overlaps(other) {
            return None;
        }
        let x: i32 = if self.loc.x > other.loc.x {
            self.loc.x
        } else {
            other.loc.x
        };
        let y: i32 = if self.loc.y > other.loc.y {
            self.loc.y
        } else {
            other.loc.y
        };
        let right: i32 = least(
            far_edge(self.loc.x, self.size.w),
            far_edge(other.loc.x, other.size.w),
        );
        let bottom: i32 = least(
            far_edge(self.loc.y, self.size.h),
            far_edge(other.loc.y, other.size.h),
        );
        let w: i32 = narrowed(right as i64 - x as i64);
        let h: i32 = narrowed(bottom as i64 - y as i64);
        Some(Rectangle { loc: Point { x, y }, size: Size { w, h } })
    }
}

pub open spec fn larger(a: int, b: int) -> int {
    if a > b {
        a
    } else {
        b
    }
}

pub open spec fn smaller(a: int, b: int) -> int {
    if a < b {
        a
    } else {
        b
    }
}

fn least(a: i32, b: i32) -> (m: i32)
    ensures
        m == smaller(a as int, b as int),
{
    if a < b {
        a
    } else {
        b
    }
}

/// The coordinate nearest to a number.
pub fn narrowed(n: i64) -> (m: i32)
    ensures
        m == saturated(n as int),
{
    if n < i32::MIN as i64 {
        i32::MIN
    } else if n > i32::MAX as i64 {
        i32::MAX
    } else {
        n as i32
    }
}

fn far_edge(at: i32, length: i32) -> (edge: i32)
    ensures
        edge == saturated(at + length),
{
    narrowed(at as i64 + length as i64)
}

/// The value nearest to `n` that lies between `least` and `most`.
pub open spec fn between(n: int, least: int, most: int) -> int {
    if n < least {
        least
    } else if n > most {
        most
    } else {
        n
    }
}

pub fn clamp(n: i32, least: i32, most: i32) -> (m: i32)
    requires
        least <= most,
    ensures
        m == between(n as int, least as int, most as int),
{
    if n < least {
        least
    } else if n > most {
        most
    } else {
        n
    }
}

/// The first of `rects` that holds a point, by its index.
pub open spec fn first_holding(rects: Seq<Rectangle>, point: Point, found: Option<usize>) -> bool {
    match found {
        Some(i) => {
            &&& i < rects.len()
            &&& rects[i as int].holds(point)
            &&& forall|k: int| 0 <= k < i ==> !(#[trigger] rects[k]).holds(point)
        },
        None => forall|k: int| 0 <= k < rects.len() ==> !(#[trigger] rects[k]).holds(point),
    }
}

/// Which rectangle holds a point, if any does: the first, where several do.
pub fn position_at(rects: &[Rectangle], point: Point) -> (found: Option<usize>)
    ensures
        first_holding(rects@, point, found),
{
    for i in 0..rects.len()
        invariant
            forall|k: int| 0 <= k < i ==> !(#[trigger] rects@[k]).holds(point),
    {
        if rects[i].contains(point) {
            return Some(i);
        }
    }
    None
}

/// What a filter keeps is what the list holds and the filter lets through.
pub proof fn lemma_filter_members<T>(list: Seq<T>, keep: spec_fn(T) -> bool, item: T)
    ensures
        list.filter(keep).contains(item) == (list.contains(item) && keep(item)),
    decreases list.len(),
{
    reveal(Seq::filter);
    if list.len() > 0 {
        let rest = list.drop_last();
        lemma_filter_members(rest, keep, item);
        assert(list =~= rest.push(list.last()));
        assert(list.contains(item) == (rest.contains(item) || list.last() == item)) by {
            if rest.contains(item) {
                assert(list[rest.index_of(item)] == item);
            }
            if list.last() == item {
                assert(list[list.len() - 1] == item);
            }
            if list.contains(item) && list.last() != item {
                assert(rest[list.index_of(item)] == item);
            }
        }
        let kept = rest.filter(keep);
        if keep(list.last()) {
            let all = kept.push(list.last());
            assert(all.contains(item) == (kept.contains(item) || list.last() == item)) by {
                if kept.contains(item) {
                    assert(all[kept.index_of(item)] == item);
                }
                if list.last() == item {
                    assert(all[all.len() - 1] == item);
                }
                if all.contains(item) && list.last() != item {
                    assert(kept[all.index_of(item)] == item);
                }
            }
        }
    }
}

} // verus!
