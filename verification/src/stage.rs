//! Thumbnails of minimised windows.
//!
//! Snapshots are downscaled before they are stored, so what they cost follows
//! what is displayed and not what was hidden. Nothing here touches a renderer:
//! the scaling is arithmetic over a byte slice.

use vstd::prelude::*;

use std::collections::HashMap;

use crate::foreign_toplevel::ToplevelId;
use crate::pixels;

verus! {

broadcast use vstd::std_specs::hash::group_hash_axioms;

/// The longest edge a stored thumbnail may have, in pixels.
pub const MAX_EDGE: u32 = 256;

/// One window's last appearance before it was hidden.
#[derive(Debug, PartialEq, Eq)]
pub struct Snapshot {
    pub width: u32,
    pub height: u32,
    /// Row-major RGBA, `width * height * 4` bytes, no padding.
    pub pixels: Vec<u8>,
}

impl Snapshot {
    pub open spec fn consistent(&self) -> bool {
        self.pixels@.len() == pixels::byte_count(self.width as int, self.height as int)
    }

    /// Whether the buffer actually holds the pixels the header claims.
    pub fn is_consistent(&self) -> (b: bool)
        ensures
            b == self.consistent(),
    {
        self.pixels.len() as u128 == byte_count(self.width, self.height)
    }

    /// Whether every whole pixel is fully transparent.
    ///
    /// A capture that produces this failed without saying so. Bytes after the
    /// last whole pixel are not looked at.
    pub fn is_blank(&self) -> (b: bool)
        ensures
            b <==> forall|p: int|
                0 <= p < self.pixels@.len() / 4 ==> #[trigger] self.pixels@[4 * p + 3] == 0,
    {
        let len: usize = self.pixels.len();
        let whole: usize = len / 4;
        for p in 0..whole
            invariant
                len == self.pixels@.len(),
                whole == len / 4,
                forall|q: int| 0 <= q < p ==> #[trigger] self.pixels@[4 * q + 3] == 0,
        {
            if self.pixels[4 * p + 3] != 0 {
                assert(self.pixels@[4 * (p as int) + 3] != 0);
                return false;
            }
        }
        true
    }
}

impl Clone for Snapshot {
    fn clone(&self) -> (copy: Snapshot)
        ensures
            copy.width == self.width,
            copy.height == self.height,
            copy.pixels@ == self.pixels@,
    {
        let pixels: Vec<u8> = self.pixels.clone();
        assert(pixels@ =~= self.pixels@);
        Snapshot { width: self.width, height: self.height, pixels }
    }
}

/// How many bytes an image of this size takes.
fn byte_count(width: u32, height: u32) -> (n: u128)
    ensures
        n == pixels::byte_count(width as int, height as int),
{
    proof {
        pixels::lemma_byte_count_bound(width, height);
    }
    width as u128 * height as u128 * 4
}

/// Every held snapshot, by window.
#[derive(Debug)]
pub struct Stage {
    snapshots: HashMap<u64, Snapshot>,
}

impl View for Stage {
    type V = Map<u64, Snapshot>;

    closed spec fn view(&self) -> Map<u64, Snapshot> {
        self.snapshots@
    }
}

impl Default for Stage {
    fn default() -> (stage: Stage)
        ensures
            stage@ == Map::<u64, Snapshot>::empty(),
    {
        Stage { snapshots: HashMap::new() }
    }
}

impl Stage {
    pub fn get(&self, id: ToplevelId) -> (held: Option<&Snapshot>)
        ensures
            held is Some <==> self@.contains_key(id.0),
            held is Some ==> *held->Some_0 == self@[id.0],
    {
        self.snapshots.get(&id.0)
    }

    /// Hold a window's snapshot, in place of the one held before.
    pub fn insert(&mut self, id: ToplevelId, snapshot: Snapshot)
        ensures
            final(self)@ == old(self)@.insert(id.0, snapshot),
    {
        self.snapshots.insert(id.0, snapshot);
    }

    /// Drop a window's snapshot: when the window is restored, and when it
    /// closes.
    pub fn forget(&mut self, id: ToplevelId)
        ensures
            final(self)@ == old(self)@.remove(id.0),
    {
        self.snapshots.remove(&id.0);
    }

    /// Drop everything not in the given set.
    pub fn retain_only(&mut self, live: &[ToplevelId])
        ensures
            final(self)@ == old(self)@.restrict(live_ids(live@)),
    {
        let mut kept: HashMap<u64, Snapshot> = HashMap::new();
        for i in 0..live.len()
            invariant
                kept@ == old(self)@.restrict(live_ids(live@.take(i as int))),
                self.snapshots@ == old(self)@.remove_keys(live_ids(live@.take(i as int))),
        {
            let ghost before = live_ids(live@.take(i as int));
            proof {
                lemma_live_ids(live@, i as int);
            }
            let id: u64 = live[i].0;
            match self.snapshots.remove(&id) {
                Some(snapshot) => {
                    kept.insert(id, snapshot);
                },
                None => {},
            }
            assert(kept@ =~= old(self)@.restrict(live_ids(live@.take(i + 1))));
            assert(self.snapshots@ =~= old(self)@.remove_keys(live_ids(live@.take(i + 1))));
        }
        assert(live@.take(live@.len() as int) =~= live@);
        self.snapshots = kept;
    }

    pub fn len(&self) -> (n: usize)
        ensures
            n == self@.len(),
    {
        self.snapshots.len()
    }

    pub fn is_empty(&self) -> (b: bool)
        ensures
            b <==> self@.len() == 0,
    {
        self.snapshots.len() == 0
    }
}

/// The windows of a list, as a set of their numbers.
pub open spec fn live_ids(live: Seq<ToplevelId>) -> Set<u64> {
    Set::new(|id: u64| live.contains(ToplevelId(id)))
}

proof fn lemma_live_ids(live: Seq<ToplevelId>, i: int)
    requires
        0 <= i < live.len(),
    ensures
        live_ids(live.take(i + 1)) == live_ids(live.take(i)).insert(live[i].0),
{
    let more = live.take(i + 1);
    assert(more =~= live.take(i).push(live[i]));
    assert forall|id: u64| live_ids(more).contains(id) == live_ids(live.take(i)).insert(
        live[i].0,
    ).contains(id) by {
        if live.take(i).contains(ToplevelId(id)) {
            let k = live.take(i).index_of(ToplevelId(id));
            assert(more[k] == ToplevelId(id));
        }
        if id == live[i].0 {
            assert(more[i] == ToplevelId(id));
        }
        if more.contains(ToplevelId(id)) {
            let k = more.index_of(ToplevelId(id));
            if k < i {
                assert(live.take(i)[k] == ToplevelId(id));
            }
        }
    }
    assert(live_ids(more) =~= live_ids(live.take(i)).insert(live[i].0));
}

pub open spec fn longest(width: u32, height: u32) -> u32 {
    if width < height {
        height
    } else {
        width
    }
}

/// `a / b`, rounded up.
pub open spec fn ceiling(a: int, b: int) -> int {
    (a + b - 1) / b
}

/// An edge, scaled so that the longest one comes to `MAX_EDGE`, and never less
/// than one pixel.
pub open spec fn scaled_edge(v: u32, longest: u32) -> int {
    let scaled = ceiling(v * MAX_EDGE, longest as int);
    if scaled < 1 {
        1
    } else {
        scaled
    }
}

/// The size of the thumbnail of a window of the given size.
pub open spec fn thumbnail(width: u32, height: u32) -> (int, int) {
    if longest(width, height) <= MAX_EDGE {
        (width as int, height as int)
    } else {
        (
            scaled_edge(width, longest(width, height)),
            scaled_edge(height, longest(width, height)),
        )
    }
}

fn div_ceil(a: u64, b: u64) -> (q: u64)
    requires
        b > 0,
        a + b <= u64::MAX,
    ensures
        q == ceiling(a as int, b as int),
{
    (a + b - 1) / b
}

proof fn lemma_scaled_edge(v: u32, longest: u32)
    requires
        v <= longest,
        MAX_EDGE < longest,
    ensures
        1 <= scaled_edge(v, longest) <= MAX_EDGE,
        v == longest ==> scaled_edge(v, longest) == MAX_EDGE,
        v > 0 ==> scaled_edge(v, longest) <= v,
{
    let a = v * MAX_EDGE + longest - 1;
    let b = longest as int;
    let q = a / b;
    vstd::arithmetic::div_mod::lemma_fundamental_div_mod(a, b);
    vstd::arithmetic::div_mod::lemma_mod_bound(a, b);
    let r = a % b;
    assert(q < 257) by (nonlinear_arith)
        requires
            a == b * q + r,
            0 <= r,
            a < b * 257,
            0 < b,
    ;
    if v == longest {
        assert(q >= 256) by (nonlinear_arith)
            requires
                a == b * q + r,
                r < b,
                a >= b * 256,
                0 < b,
        ;
    }
    if v > 0 {
        assert(b * (v + 1) >= 257 * v + b) by (nonlinear_arith)
            requires
                b >= 257,
                v >= 0,
        ;
        assert(q <= v) by (nonlinear_arith)
            requires
                a == b * q + r,
                0 <= r,
                a < b * (v + 1),
                0 < b,
        ;
    }
}

/// What a thumbnail's size promises: the longest edge of a larger window comes
/// to exactly the cap, no edge grows, no edge of a real window vanishes, and a
/// thumbnail is its own thumbnail.
pub proof fn thumbnail_size_is_capped(width: u32, height: u32)
    ensures
        ({
            let (w, h) = thumbnail(width, height);
            &&& 0 <= w <= MAX_EDGE
            &&& 0 <= h <= MAX_EDGE
            &&& longest(width, height) > MAX_EDGE ==> longest(w as u32, h as u32) == MAX_EDGE
            &&& width > 0 ==> 1 <= w <= width
            &&& height > 0 ==> 1 <= h <= height
            &&& thumbnail(w as u32, h as u32) == (w, h)
        }),
{
    if longest(width, height) > MAX_EDGE {
        lemma_scaled_edge(width, longest(width, height));
        lemma_scaled_edge(height, longest(width, height));
    }
}

/// The size a snapshot should be stored at, preserving aspect ratio.
///
/// Never upscales: a window smaller than the cap is stored as it is.
pub fn thumbnail_size(width: u32, height: u32) -> (size: (u32, u32))
    ensures
        (size.0 as int, size.1 as int) == thumbnail(width, height),
{
    let most: u32 = if width < height {
        height
    } else {
        width
    };
    if most <= MAX_EDGE {
        return (width, height);
    }
    proof {
        lemma_scaled_edge(width, most);
        lemma_scaled_edge(height, most);
    }
    let w: u64 = div_ceil(width as u64 * MAX_EDGE as u64, most as u64);
    let h: u64 = div_ceil(height as u64 * MAX_EDGE as u64, most as u64);
    (
        if w < 1 {
            1
        } else {
            w as u32
        },
        if h < 1 {
            1
        } else {
            h as u32
        },
    )
}

/// The source pixels, along one edge, that pixel `o` of the thumbnail covers:
/// from the first up to the second, without it.
pub open spec fn covered(o: int, from: int, to: int) -> (int, int) {
    (o * from / to, ceiling((o + 1) * from, to))
}

pub open spec fn row_sum(src: Seq<u8>, width: int, y: int, c: int, x0: int, x1: int) -> int
    decreases x1 - x0,
{
    if x0 >= x1 {
        0
    } else {
        row_sum(src, width, y, c, x0, x1 - 1) + src[pixels::position(width, x1 - 1, y, c)]
    }
}

/// The sum of channel `c` over a rectangle of the source.
pub open spec fn area_sum(
    src: Seq<u8>,
    width: int,
    c: int,
    x0: int,
    x1: int,
    y0: int,
    y1: int,
) -> int
    decreases y1 - y0,
{
    if y0 >= y1 {
        0
    } else {
        area_sum(src, width, c, x0, x1, y0, y1 - 1) + row_sum(src, width, y1 - 1, c, x0, x1)
    }
}

/// The mean of channel `c` over the source pixels that `(ox, oy)` covers.
pub open spec fn area_mean(
    src: Seq<u8>,
    width: int,
    height: int,
    out_w: int,
    out_h: int,
    ox: int,
    oy: int,
    c: int,
) -> int {
    let (x0, x1) = covered(ox, width, out_w);
    let (y0, y1) = covered(oy, height, out_h);
    area_sum(src, width, c, x0, x1, y0, y1) / ((x1 - x0) * (y1 - y0))
}

/// The pixels of the thumbnail of an image.
pub open spec fn averaged(src: Seq<u8>, width: int, height: int, out_w: int, out_h: int) -> Seq<
    u8,
> {
    Seq::new(
        pixels::byte_count(out_w, out_h) as nat,
        |k: int|
            area_mean(
                src,
                width,
                height,
                out_w,
                out_h,
                (k / 4) % out_w,
                (k / 4) / out_w,
                k % 4,
            ) as u8,
    )
}

proof fn lemma_covered(o: int, from: int, to: int)
    requires
        0 <= o < to <= from,
    ensures
        0 <= covered(o, from, to).0 < covered(o, from, to).1 <= from,
{
    let a = o * from;
    let b = (o + 1) * from + to - 1;
    vstd::arithmetic::div_mod::lemma_fundamental_div_mod(a, to);
    vstd::arithmetic::div_mod::lemma_mod_bound(a, to);
    vstd::arithmetic::div_mod::lemma_fundamental_div_mod(b, to);
    vstd::arithmetic::div_mod::lemma_mod_bound(b, to);
    let (q, r) = (a / to, a % to);
    let (p, s) = (b / to, b % to);
    assert(0 <= q) by (nonlinear_arith)
        requires
            a == to * q + r,
            r < to,
            a == o * from,
            0 <= o,
            0 < from,
            0 < to,
    ;
    assert((o + 1) * from == o * from + from) by (nonlinear_arith);
    assert(p > q) by (nonlinear_arith)
        requires
            a == to * q + r,
            0 <= r,
            b == to * p + s,
            s < to,
            b >= a + to + to - 1,
            0 < to,
    ;
    assert((o + 1) * from <= to * from) by (nonlinear_arith)
        requires
            o + 1 <= to,
            0 < from,
    ;
    assert(p <= from) by (nonlinear_arith)
        requires
            b == to * p + s,
            0 <= s,
            b <= to * from + to - 1,
            0 < to,
    ;
}

proof fn lemma_row_range(
    src: Seq<u8>,
    width: int,
    y: int,
    c: int,
    x0: int,
    x1: int,
    least: int,
    most: int,
)
    requires
        x0 <= x1,
        forall|x: int|
            x0 <= x < x1 ==> least <= src[#[trigger] pixels::position(width, x, y, c)] <= most,
    ensures
        least * (x1 - x0) <= row_sum(src, width, y, c, x0, x1) <= most * (x1 - x0),
    decreases x1 - x0,
{
    if x0 < x1 {
        lemma_row_range(src, width, y, c, x0, x1 - 1, least, most);
        assert(least * (x1 - x0) == least * (x1 - 1 - x0) + least) by (nonlinear_arith);
        assert(most * (x1 - x0) == most * (x1 - 1 - x0) + most) by (nonlinear_arith);
        assert(least <= src[pixels::position(width, x1 - 1, y, c)] <= most);
    } else {
        assert(least * 0 == 0 && most * 0 == 0) by (nonlinear_arith);
    }
}

proof fn lemma_area_range(
    src: Seq<u8>,
    width: int,
    c: int,
    x0: int,
    x1: int,
    y0: int,
    y1: int,
    least: int,
    most: int,
)
    requires
        x0 <= x1,
        y0 <= y1,
        forall|x: int, y: int|
            x0 <= x < x1 && y0 <= y < y1 ==> least <= src[#[trigger] pixels::position(
                width,
                x,
                y,
                c,
            )] <= most,
    ensures
        least * ((x1 - x0) * (y1 - y0)) <= area_sum(src, width, c, x0, x1, y0, y1) <= most * ((x1
            - x0) * (y1 - y0)),
    decreases y1 - y0,
{
    let w = x1 - x0;
    let n = y1 - y0;
    if y0 < y1 {
        lemma_area_range(src, width, c, x0, x1, y0, y1 - 1, least, most);
        lemma_row_range(src, width, y1 - 1, c, x0, x1, least, most);
        assert(least * (w * n) == least * (w * (n - 1)) + least * w) by (nonlinear_arith);
        assert(most * (w * n) == most * (w * (n - 1)) + most * w) by (nonlinear_arith);
    } else {
        assert(least * (w * n) == 0 && most * (w * n) == 0) by (nonlinear_arith)
            requires
                n == 0,
        ;
    }
}

proof fn lemma_mean_range(
    src: Seq<u8>,
    width: int,
    height: int,
    out_w: int,
    out_h: int,
    ox: int,
    oy: int,
    c: int,
    least: int,
    most: int,
)
    requires
        0 <= ox < out_w <= width,
        0 <= oy < out_h <= height,
        0 <= c < 4,
        forall|x: int, y: int|
            0 <= x < width && 0 <= y < height ==> least <= src[#[trigger] pixels::position(
                width,
                x,
                y,
                c,
            )] <= most,
    ensures
        least <= area_mean(src, width, height, out_w, out_h, ox, oy, c) <= most,
{
    lemma_covered(ox, width, out_w);
    lemma_covered(oy, height, out_h);
    let (x0, x1) = covered(ox, width, out_w);
    let (y0, y1) = covered(oy, height, out_h);
    lemma_area_range(src, width, c, x0, x1, y0, y1, least, most);
    let count = (x1 - x0) * (y1 - y0);
    assert(count > 0) by (nonlinear_arith)
        requires
            count == (x1 - x0) * (y1 - y0),
            x0 < x1,
            y0 < y1,
    ;
    let sum = area_sum(src, width, c, x0, x1, y0, y1);
    vstd::arithmetic::div_mod::lemma_fundamental_div_mod(sum, count);
    vstd::arithmetic::div_mod::lemma_mod_bound(sum, count);
    let (q, r) = (sum / count, sum % count);
    assert(least <= q) by (nonlinear_arith)
        requires
            sum == count * q + r,
            r < count,
            least * count <= sum,
            0 < count,
    ;
    assert(q <= most) by (nonlinear_arith)
        requires
            sum == count * q + r,
            0 <= r,
            sum <= most * count,
            0 < count,
    ;
}

/// No channel of a thumbnail leaves the range that it has in the window: every
/// pixel of the thumbnail is sampled, and a window of one colour keeps it.
pub proof fn thumbnail_stays_in_range(
    src: Seq<u8>,
    width: u32,
    height: u32,
    c: int,
    least: u8,
    most: u8,
)
    requires
        width > 0,
        height > 0,
        0 <= c < 4,
        src.len() >= pixels::byte_count(width as int, height as int),
        forall|k: int| 0 <= k < src.len() && k % 4 == c ==> least <= (#[trigger] src[k]) <= most,
    ensures
        ({
            let (w, h) = thumbnail(width, height);
            forall|k: int|
                0 <= k < pixels::byte_count(w, h) && k % 4 == c ==> least <= (#[trigger] averaged(
                    src,
                    width as int,
                    height as int,
                    w,
                    h,
                )[k]) <= most
        }),
{
    let (w, h) = thumbnail(width, height);
    thumbnail_size_is_capped(width, height);
    assert forall|k: int| 0 <= k < pixels::byte_count(w, h) && k % 4 == c implies least <= (
    #[trigger] averaged(src, width as int, height as int, w, h)[k]) <= most by {
        pixels::lemma_position_of(w, h, k);
        assert forall|x: int, y: int| 0 <= x < width && 0 <= y < height implies least
            <= src[#[trigger] pixels::position(width as int, x, y, c)] <= most by {
            pixels::lemma_position_bounds(width as int, height as int, x, y, c);
        }
        lemma_mean_range(
            src,
            width as int,
            height as int,
            w,
            h,
            (k / 4) % w,
            (k / 4) / w,
            c,
            least as int,
            most as int,
        );
    }
}

/// Whether, along one edge, pixel `i` of a window and pixel `o` of its thumbnail
/// have a part in common once the one of `from` pixels is scaled to `to`.
pub open spec fn touches(i: int, o: int, from: int, to: int) -> bool {
    i * to < (o + 1) * from && o * from < (i + 1) * to
}

proof fn lemma_touches(i: int, o: int, from: int, to: int)
    requires
        0 <= o < to <= from,
    ensures
        touches(i, o, from, to) == (covered(o, from, to).0 <= i < covered(o, from, to).1),
{
    let (a, b) = (o * from, (o + 1) * from);
    let (x0, x1) = (a / to, (b + to - 1) / to);
    vstd::arithmetic::div_mod::lemma_fundamental_div_mod(a, to);
    vstd::arithmetic::div_mod::lemma_mod_bound(a, to);
    vstd::arithmetic::div_mod::lemma_fundamental_div_mod(b + to - 1, to);
    vstd::arithmetic::div_mod::lemma_mod_bound(b + to - 1, to);
    let (r, s) = (a % to, (b + to - 1) % to);
    assert((a < (i + 1) * to) == (x0 <= i)) by (nonlinear_arith)
        requires
            a == to * x0 + r,
            0 <= r < to,
    ;
    assert((i * to < b) == (i < x1)) by (nonlinear_arith)
        requires
            b + to - 1 == to * x1 + s,
            0 <= s < to,
    ;
}

/// What channel `c` of the pixels of a row comes to, of those among the first `n`
/// that pixel `o` of the thumbnail touches.
pub open spec fn touched_in_row(
    src: Seq<u8>,
    width: int,
    out_w: int,
    o: int,
    y: int,
    c: int,
    n: int,
) -> int
    decreases n,
{
    if n <= 0 {
        0
    } else {
        touched_in_row(src, width, out_w, o, y, c, n - 1) + if touches(n - 1, o, width, out_w) {
            src[(y * width + (n - 1)) * 4 + c] as int
        } else {
            0
        }
    }
}

/// What channel `c` of the pixels of a window comes to, of those in the first `n`
/// rows that pixel `(ox, oy)` of the thumbnail touches.
pub open spec fn touched(
    src: Seq<u8>,
    width: int,
    height: int,
    out_w: int,
    out_h: int,
    ox: int,
    oy: int,
    c: int,
    n: int,
) -> int
    decreases n,
{
    if n <= 0 {
        0
    } else {
        touched(src, width, height, out_w, out_h, ox, oy, c, n - 1) + if touches(
            n - 1,
            oy,
            height,
            out_h,
        ) {
            touched_in_row(src, width, out_w, ox, n - 1, c, width)
        } else {
            0
        }
    }
}

/// How many of the first `n` pixels along an edge pixel `o` of the thumbnail
/// touches.
pub open spec fn touched_count(from: int, to: int, o: int, n: int) -> int
    decreases n,
{
    if n <= 0 {
        0
    } else {
        touched_count(from, to, o, n - 1) + if touches(n - 1, o, from, to) {
            1int
        } else {
            0
        }
    }
}

proof fn lemma_touched_count(from: int, to: int, o: int, n: int)
    requires
        0 <= o < to <= from,
        0 <= n <= from,
    ensures
        ({
            let (x0, x1) = covered(o, from, to);
            touched_count(from, to, o, n) == if n <= x0 {
                0
            } else if n <= x1 {
                n - x0
            } else {
                x1 - x0
            }
        }),
    decreases n,
{
    lemma_covered(o, from, to);
    if n > 0 {
        lemma_touched_count(from, to, o, n - 1);
        lemma_touches(n - 1, o, from, to);
    }
}

proof fn lemma_touched_in_row(
    src: Seq<u8>,
    width: int,
    out_w: int,
    o: int,
    y: int,
    c: int,
    n: int,
)
    requires
        0 <= o < out_w <= width,
        0 <= n <= width,
    ensures
        ({
            let (x0, x1) = covered(o, width, out_w);
            touched_in_row(src, width, out_w, o, y, c, n) == row_sum(
                src,
                width,
                y,
                c,
                x0,
                if n <= x1 {
                    n
                } else {
                    x1
                },
            )
        }),
    decreases n,
{
    lemma_covered(o, width, out_w);
    if n > 0 {
        lemma_touched_in_row(src, width, out_w, o, y, c, n - 1);
        lemma_touches(n - 1, o, width, out_w);
    }
}

proof fn lemma_touched(
    src: Seq<u8>,
    width: int,
    height: int,
    out_w: int,
    out_h: int,
    ox: int,
    oy: int,
    c: int,
    n: int,
)
    requires
        0 <= ox < out_w <= width,
        0 <= oy < out_h <= height,
        0 <= n <= height,
    ensures
        ({
            let (x0, x1) = covered(ox, width, out_w);
            let (y0, y1) = covered(oy, height, out_h);
            touched(src, width, height, out_w, out_h, ox, oy, c, n) == area_sum(
                src,
                width,
                c,
                x0,
                x1,
                y0,
                if n <= y1 {
                    n
                } else {
                    y1
                },
            )
        }),
    decreases n,
{
    lemma_covered(ox, width, out_w);
    lemma_covered(oy, height, out_h);
    if n > 0 {
        lemma_touched(src, width, height, out_w, out_h, ox, oy, c, n - 1);
        lemma_touches(n - 1, oy, height, out_h);
        lemma_touched_in_row(src, width, out_w, ox, n - 1, c, width);
    }
}

/// A pixel of a thumbnail is the mean, rounded down, of the pixels of the window
/// that it touches where it stands: each of them counts once and no other does.
pub proof fn a_thumbnail_pixel_is_the_mean_of_what_it_touches(
    src: Seq<u8>,
    width: u32,
    height: u32,
    ox: int,
    oy: int,
    c: int,
)
    requires
        longest(width, height) > MAX_EDGE,
        width > 0,
        height > 0,
        0 <= ox < thumbnail(width, height).0,
        0 <= oy < thumbnail(width, height).1,
        0 <= c < 4,
        src.len() >= pixels::byte_count(width as int, height as int),
    ensures
        ({
            let (w, h) = thumbnail(width, height);
            let (from_w, from_h) = (width as int, height as int);
            let count = touched_count(from_w, w, ox, from_w) * touched_count(
                from_h,
                h,
                oy,
                from_h,
            );
            let sum = touched(src, from_w, from_h, w, h, ox, oy, c, from_h);
            let value = averaged(src, from_w, from_h, w, h)[(oy * w + ox) * 4 + c];
            &&& count > 0
            &&& value * count <= sum < (value + 1) * count
        }),
{
    let (w, h) = thumbnail(width, height);
    let (from_w, from_h) = (width as int, height as int);
    thumbnail_size_is_capped(width, height);
    pixels::lemma_position_bounds(w, h, ox, oy, c);
    lemma_covered(ox, from_w, w);
    lemma_covered(oy, from_h, h);
    lemma_touched_count(from_w, w, ox, from_w);
    lemma_touched_count(from_h, h, oy, from_h);
    lemma_touched(src, from_w, from_h, w, h, ox, oy, c, from_h);
    lemma_mean_range(src, from_w, from_h, w, h, ox, oy, c, 0, 255);
    let (x0, x1) = covered(ox, from_w, w);
    let (y0, y1) = covered(oy, from_h, h);
    let count = (x1 - x0) * (y1 - y0);
    let sum = area_sum(src, from_w, c, x0, x1, y0, y1);
    assert(count > 0) by (nonlinear_arith)
        requires
            count == (x1 - x0) * (y1 - y0),
            x0 < x1,
            y0 < y1,
    ;
    vstd::arithmetic::div_mod::lemma_fundamental_div_mod(sum, count);
    vstd::arithmetic::div_mod::lemma_mod_bound(sum, count);
    let (q, r) = (sum / count, sum % count);
    assert(q * count <= sum < (q + 1) * count) by (nonlinear_arith)
        requires
            sum == count * q + r,
            0 <= r < count,
    ;
    assert(averaged(src, from_w, from_h, w, h)[pixels::position(w, ox, oy, c)] == q);
}

/// A thumbnail shows everything where it was: where each pixel that a pixel of
/// the thumbnail touches lies in a range, so does that pixel. A part of one
/// colour keeps the colour, in the same part of the thumbnail.
pub proof fn a_thumbnail_keeps_every_colour_in_its_place(
    src: Seq<u8>,
    width: u32,
    height: u32,
    ox: int,
    oy: int,
    c: int,
    least: u8,
    most: u8,
)
    requires
        longest(width, height) > MAX_EDGE,
        width > 0,
        height > 0,
        0 <= ox < thumbnail(width, height).0,
        0 <= oy < thumbnail(width, height).1,
        0 <= c < 4,
        src.len() >= pixels::byte_count(width as int, height as int),
        ({
            let (w, h) = thumbnail(width, height);
            forall|x: int, y: int|
                0 <= x < width && 0 <= y < height && touches(x, ox, width as int, w) && touches(
                    y,
                    oy,
                    height as int,
                    h,
                ) ==> least <= src[#[trigger] pixels::position(width as int, x, y, c)] <= most
        }),
    ensures
        ({
            let (w, h) = thumbnail(width, height);
            least <= averaged(src, width as int, height as int, w, h)[(oy * w + ox) * 4 + c] <= most
        }),
{
    let (w, h) = thumbnail(width, height);
    let (from_w, from_h) = (width as int, height as int);
    thumbnail_size_is_capped(width, height);
    pixels::lemma_position_bounds(w, h, ox, oy, c);
    lemma_covered(ox, from_w, w);
    lemma_covered(oy, from_h, h);
    let (x0, x1) = covered(ox, from_w, w);
    let (y0, y1) = covered(oy, from_h, h);
    assert forall|x: int, y: int| x0 <= x < x1 && y0 <= y < y1 implies least
        <= src[#[trigger] pixels::position(from_w, x, y, c)] <= most by {
        lemma_touches(x, ox, from_w, w);
        lemma_touches(y, oy, from_h, h);
    }
    lemma_area_range(src, from_w, c, x0, x1, y0, y1, least as int, most as int);
    let count = (x1 - x0) * (y1 - y0);
    let sum = area_sum(src, from_w, c, x0, x1, y0, y1);
    assert(count > 0) by (nonlinear_arith)
        requires
            count == (x1 - x0) * (y1 - y0),
            x0 < x1,
            y0 < y1,
    ;
    vstd::arithmetic::div_mod::lemma_fundamental_div_mod(sum, count);
    vstd::arithmetic::div_mod::lemma_mod_bound(sum, count);
    let (q, r) = (sum / count, sum % count);
    assert(least <= q <= most) by (nonlinear_arith)
        requires
            sum == count * q + r,
            0 <= r < count,
            least * count <= sum <= most * count,
            0 < count,
    ;
    assert(averaged(src, from_w, from_h, w, h)[pixels::position(w, ox, oy, c)] == q);
}

/// A thumbnail has the shape of its window: each edge is scaled as the longest
/// one is, and rounded up by less than a pixel.
pub proof fn a_thumbnail_keeps_the_shape(width: u32, height: u32)
    requires
        longest(width, height) > MAX_EDGE,
        width > 0,
        height > 0,
    ensures
        ({
            let (w, h) = thumbnail(width, height);
            let most = if width < height {
                height as int
            } else {
                width as int
            };
            &&& (w - 1) * most < width * MAX_EDGE <= w * most
            &&& (h - 1) * most < height * MAX_EDGE <= h * most
        }),
{
    lemma_rounded_up(width, longest(width, height));
    lemma_rounded_up(height, longest(width, height));
}

proof fn lemma_rounded_up(v: u32, longest: u32)
    requires
        v > 0,
        longest > 0,
    ensures
        (scaled_edge(v, longest) - 1) * longest < v * MAX_EDGE <= scaled_edge(v, longest) * longest,
{
    let a = v * MAX_EDGE + longest - 1;
    let b = longest as int;
    vstd::arithmetic::div_mod::lemma_fundamental_div_mod(a, b);
    vstd::arithmetic::div_mod::lemma_mod_bound(a, b);
    let (q, r) = (a / b, a % b);
    assert((q - 1) * b < v * MAX_EDGE <= q * b && q >= 1) by (nonlinear_arith)
        requires
            a == b * q + r,
            0 <= r < b,
            a == v * MAX_EDGE + b - 1,
            v * MAX_EDGE > 0,
            b > 0,
    ;
}

/// Sum one channel over a rectangle of the source.
fn sum_area(
    src: &[u8],
    width: u32,
    height: u32,
    c: usize,
    x0: u32,
    x1: u32,
    y0: u32,
    y1: u32,
) -> (sum: u128)
    requires
        x0 <= x1 <= width,
        y0 <= y1 <= height,
        c < 4,
        src@.len() >= pixels::byte_count(width as int, height as int),
    ensures
        sum == area_sum(
            src@,
            width as int,
            c as int,
            x0 as int,
            x1 as int,
            y0 as int,
            y1 as int,
        ),
{
    let len: usize = src.len();
    let mut sum: u128 = 0;
    for y in y0..y1
        invariant
            x0 <= x1 <= width,
            y1 <= height,
            c < 4,
            src@.len() == len,
            src@.len() >= pixels::byte_count(width as int, height as int),
            sum == area_sum(
                src@,
                width as int,
                c as int,
                x0 as int,
                x1 as int,
                y0 as int,
                y as int,
            ),
            sum <= 255 * u32::MAX * (y - y0),
    {
        let mut row: u128 = 0;
        for x in x0..x1
            invariant
                x1 <= width,
                y < y1 <= height,
                c < 4,
                src@.len() == len,
                src@.len() >= pixels::byte_count(width as int, height as int),
                row == row_sum(src@, width as int, y as int, c as int, x0 as int, x as int),
                row <= 255 * (x - x0),
        {
            proof {
                pixels::lemma_position_bounds(
                    width as int,
                    height as int,
                    x as int,
                    y as int,
                    c as int,
                );
            }
            row = row + src[(y as usize * width as usize + x as usize) * 4 + c] as u128;
        }
        sum = sum + row;
    }
    sum
}

fn covered_pixels(o: u32, from: u32, to: u32) -> (range: (u32, u32))
    requires
        0 <= o < to <= from,
    ensures
        (range.0 as int, range.1 as int) == covered(o as int, from as int, to as int),
        range.0 < range.1 <= from,
{
    proof {
        lemma_covered(o as int, from as int, to as int);
        assert(o * from <= (o + 1) * from <= u32::MAX * u32::MAX) by (nonlinear_arith)
            requires
                0 <= o < u32::MAX,
                0 <= from <= u32::MAX,
        ;
    }
    let first: u64 = o as u64 * from as u64 / to as u64;
    let last: u64 = div_ceil((o as u64 + 1) * from as u64, to as u64);
    (first as u32, last as u32)
}

/// Downscale RGBA by box-averaging, into `thumbnail_size`.
///
/// `None` when the input does not describe a real image: an edge of zero, or
/// fewer bytes than the size asks for. Bytes beyond that are not looked at.
#[verifier::rlimit(40)]
pub fn downscale(src: &[u8], width: u32, height: u32) -> (out: Option<Snapshot>)
    ensures
        out is None <==> (width == 0 || height == 0 || src@.len() < pixels::byte_count(
            width as int,
            height as int,
        )),
        out is Some ==> {
            let snapshot = out->Some_0;
            &&& (snapshot.width as int, snapshot.height as int) == thumbnail(width, height)
            &&& snapshot.consistent()
            &&& longest(width, height) <= MAX_EDGE ==> snapshot.pixels@ == src@.take(
                pixels::byte_count(width as int, height as int),
            )
            &&& longest(width, height) > MAX_EDGE ==> snapshot.pixels@ == averaged(
                src@,
                width as int,
                height as int,
                snapshot.width as int,
                snapshot.height as int,
            )
        },
{
    if width == 0 || height == 0 {
        return None;
    }
    let needed: u128 = byte_count(width, height);
    let len: usize = src.len();
    if (len as u128) < needed {
        return None;
    }
    let (out_w, out_h): (u32, u32) = thumbnail_size(width, height);
    proof {
        thumbnail_size_is_capped(width, height);
    }
    if out_w == width && out_h == height {
        let mut pixels: Vec<u8> = Vec::new();
        for k in 0..needed as usize
            invariant
                needed <= src@.len(),
                pixels@ == src@.take(k as int),
        {
            pixels.push(src[k]);
            assert(src@.take(k as int).push(src@[k as int]) =~= src@.take(k + 1));
        }
        return Some(Snapshot { width, height, pixels });
    }
    let ghost want = averaged(src@, width as int, height as int, out_w as int, out_h as int);
    let mut pixels: Vec<u8> = Vec::new();
    assert(0 * out_w == 0);
    for oy in 0..out_h
        invariant
            1 <= out_w <= width,
            1 <= out_h <= height,
            src@.len() >= pixels::byte_count(width as int, height as int),
            want == averaged(src@, width as int, height as int, out_w as int, out_h as int),
            pixels@.len() == pixels::position(out_w as int, 0, oy as int, 0),
            forall|k: int| 0 <= k < pixels@.len() ==> pixels@[k] == want[k],
    {
        let (y0, y1): (u32, u32) = covered_pixels(oy, height, out_h);
        for ox in 0..out_w
            invariant
                1 <= out_w <= width,
                1 <= out_h <= height,
                oy < out_h,
                src@.len() >= pixels::byte_count(width as int, height as int),
                (y0 as int, y1 as int) == covered(oy as int, height as int, out_h as int),
                y0 < y1 <= height,
                want == averaged(src@, width as int, height as int, out_w as int, out_h as int),
                pixels@.len() == pixels::position(out_w as int, ox as int, oy as int, 0),
                forall|k: int| 0 <= k < pixels@.len() ==> pixels@[k] == want[k],
        {
            let (x0, x1): (u32, u32) = covered_pixels(ox, width, out_w);
            proof {
                assert((x1 - x0) * (y1 - y0) > 0) by (nonlinear_arith)
                    requires
                        x0 < x1,
                        y0 < y1,
                ;
                assert((x1 - x0) * (y1 - y0) <= u32::MAX * u32::MAX) by (nonlinear_arith)
                    requires
                        0 < x1 - x0 <= u32::MAX,
                        0 < y1 - y0 <= u32::MAX,
                ;
            }
            let count: u128 = (x1 - x0) as u128 * (y1 - y0) as u128;
            for c in 0..4usize
                invariant
                    1 <= out_w <= width,
                    1 <= out_h <= height,
                    ox < out_w,
                    oy < out_h,
                    src@.len() >= pixels::byte_count(width as int, height as int),
                    (y0 as int, y1 as int) == covered(oy as int, height as int, out_h as int),
                    (x0 as int, x1 as int) == covered(ox as int, width as int, out_w as int),
                    y0 < y1 <= height,
                    x0 < x1 <= width,
                    count == (x1 - x0) * (y1 - y0),
                    count > 0,
                    want == averaged(
                        src@,
                        width as int,
                        height as int,
                        out_w as int,
                        out_h as int,
                    ),
                    pixels@.len() == pixels::position(
                        out_w as int,
                        ox as int,
                        oy as int,
                        c as int,
                    ),
                    forall|k: int| 0 <= k < pixels@.len() ==> pixels@[k] == want[k],
            {
                let sum: u128 = sum_area(src, width, height, c, x0, x1, y0, y1);
                proof {
                    pixels::lemma_position_bounds(
                        out_w as int,
                        out_h as int,
                        ox as int,
                        oy as int,
                        c as int,
                    );
                    lemma_mean_range(
                        src@,
                        width as int,
                        height as int,
                        out_w as int,
                        out_h as int,
                        ox as int,
                        oy as int,
                        c as int,
                        0,
                        255,
                    );
                }
                pixels.push((sum / count) as u8);
            }
        }
        assert((oy + 1) * out_w == oy * out_w + out_w) by (nonlinear_arith);
    }
    assert(out_h * out_w == out_w * out_h) by (nonlinear_arith);
    assert(pixels@ =~= want);
    Some(Snapshot { width: out_w, height: out_h, pixels })
}

} // verus!
