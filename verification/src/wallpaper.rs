//! The wallpaper, sharp and blurred.
//!
//! Blur needs something to blur: a blurred flat colour is the same flat colour.
//! The wallpaper is static, so it is blurred once, on the processor, and the
//! blur is an ordinary function over a byte buffer.

use vstd::prelude::*;

use crate::pixels;
use crate::utils;

verus! {

/// An RGBA8 image, ready to upload.
#[derive(Debug, PartialEq)]
pub struct Image {
    pub data: Vec<u8>,
    pub width: u32,
    pub height: u32,
}

impl Image {
    /// The buffer holds exactly the pixels that the header claims.
    pub open spec fn well_formed(&self) -> bool {
        self.data@.len() == pixels::byte_count(self.width as int, self.height as int)
    }

    pub fn new(width: u32, height: u32, data: Vec<u8>) -> (image: Image)
        requires
            data@.len() == pixels::byte_count(width as int, height as int),
        ensures
            image.well_formed(),
            image.data == data,
            image.width == width,
            image.height == height,
    {
        Image { data, width, height }
    }

    /// Where the pixel at `(x, y)` starts in the buffer.
    pub fn index(&self, x: u32, y: u32) -> (at: usize)
        requires
            self.well_formed(),
            x < self.width,
            y < self.height,
        ensures
            at == pixels::position(self.width as int, x as int, y as int, 0),
            at + 3 < self.data@.len(),
    {
        let len: usize = self.data.len();
        proof {
            pixels::lemma_position_bounds(
                self.width as int,
                self.height as int,
                x as int,
                y as int,
                3,
            );
        }
        (y as usize * self.width as usize + x as usize) * 4
    }

    pub fn pixel(&self, x: u32, y: u32) -> (rgba: [u8; 4])
        requires
            self.well_formed(),
            x < self.width,
            y < self.height,
        ensures
            forall|c: int|
                0 <= c < 4 ==> rgba@[c] == self.data@[pixels::position(
                    self.width as int,
                    x as int,
                    y as int,
                    c,
                )],
    {
        let i: usize = self.index(x, y);
        [self.data[i], self.data[i + 1], self.data[i + 2], self.data[i + 3]]
    }
}

impl Clone for Image {
    fn clone(&self) -> (copy: Image)
        ensures
            copy.data@ == self.data@,
            copy.width == self.width,
            copy.height == self.height,
    {
        let data: Vec<u8> = self.data.clone();
        assert(data@ =~= self.data@);
        Image { data, width: self.width, height: self.height }
    }
}

/// The direction that a box blur runs in.
#[derive(Debug, Clone, Copy, PartialEq, Eq, Structural)]
pub enum Axis {
    Horizontal,
    Vertical,
}

/// The index nearest to `i` that lies in `0..count`.
pub open spec fn clamped(i: int, count: int) -> int {
    if i < 0 {
        0
    } else if i >= count {
        count - 1
    } else {
        i
    }
}

/// Where, in the buffer, the `i`th sample of line `o` stands: lines are rows in
/// a horizontal pass and columns in a vertical one.
pub open spec fn sample_position(
    width: int,
    height: int,
    axis: Axis,
    o: int,
    i: int,
    c: int,
) -> int {
    match axis {
        Axis::Horizontal => pixels::position(width, clamped(i, width), o, c),
        Axis::Vertical => pixels::position(width, o, clamped(i, height), c),
    }
}

/// The sum of the samples `lo..hi` of line `o`, edges repeated outwards.
pub open spec fn window_sum(
    data: Seq<u8>,
    width: int,
    height: int,
    axis: Axis,
    o: int,
    c: int,
    lo: int,
    hi: int,
) -> int
    decreases hi - lo,
{
    if lo >= hi {
        0
    } else {
        window_sum(data, width, height, axis, o, c, lo, hi - 1) + data[sample_position(
            width,
            height,
            axis,
            o,
            hi - 1,
            c,
        )]
    }
}

/// The mean of the window of `2 * radius + 1` samples round `(x, y)`.
pub open spec fn box_value(
    data: Seq<u8>,
    width: int,
    height: int,
    radius: int,
    axis: Axis,
    x: int,
    y: int,
    c: int,
) -> int {
    let (o, i) = match axis {
        Axis::Horizontal => (y, x),
        Axis::Vertical => (x, y),
    };
    window_sum(data, width, height, axis, o, c, i - radius, i + radius + 1) / (2 * radius + 1)
}

/// The buffer after one box blur along `axis`.
pub open spec fn box_blurred(
    data: Seq<u8>,
    width: int,
    height: int,
    radius: int,
    axis: Axis,
) -> Seq<u8> {
    Seq::new(
        pixels::byte_count(width, height) as nat,
        |k: int|
            box_value(
                data,
                width,
                height,
                radius,
                axis,
                (k / 4) % width,
                (k / 4) / width,
                k % 4,
            ) as u8,
    )
}

/// The buffer after `passes` rounds of a horizontal and then a vertical blur.
pub open spec fn blurred(
    data: Seq<u8>,
    width: int,
    height: int,
    radius: int,
    passes: nat,
) -> Seq<u8>
    decreases passes,
{
    if passes == 0 {
        data
    } else {
        let before = blurred(data, width, height, radius, (passes - 1) as nat);
        let across = box_blurred(before, width, height, radius, Axis::Horizontal);
        box_blurred(across, width, height, radius, Axis::Vertical)
    }
}

proof fn lemma_window_front(
    data: Seq<u8>,
    width: int,
    height: int,
    axis: Axis,
    o: int,
    c: int,
    lo: int,
    hi: int,
)
    requires
        lo < hi,
    ensures
        window_sum(data, width, height, axis, o, c, lo, hi) == data[sample_position(
            width,
            height,
            axis,
            o,
            lo,
            c,
        )] + window_sum(data, width, height, axis, o, c, lo + 1, hi),
    decreases hi - lo,
{
    if lo + 1 < hi {
        lemma_window_front(data, width, height, axis, o, c, lo, hi - 1);
    } else {
        assert(window_sum(data, width, height, axis, o, c, lo, hi - 1) == 0);
        assert(window_sum(data, width, height, axis, o, c, lo + 1, hi) == 0);
    }
}

proof fn lemma_window_range(
    data: Seq<u8>,
    width: int,
    height: int,
    axis: Axis,
    o: int,
    c: int,
    lo: int,
    hi: int,
    least: int,
    most: int,
)
    requires
        lo <= hi,
        forall|i: int|
            least <= (#[trigger] data[sample_position(width, height, axis, o, i, c)]) <= most,
    ensures
        least * (hi - lo) <= window_sum(data, width, height, axis, o, c, lo, hi) <= most * (hi
            - lo),
    decreases hi - lo,
{
    if lo < hi {
        lemma_window_range(data, width, height, axis, o, c, lo, hi - 1, least, most);
        assert(least * (hi - lo) == least * (hi - 1 - lo) + least) by (nonlinear_arith);
        assert(most * (hi - lo) == most * (hi - 1 - lo) + most) by (nonlinear_arith);
        assert(least <= data[sample_position(width, height, axis, o, hi - 1, c)] <= most);
    } else {
        assert(least * (hi - lo) == 0) by (nonlinear_arith)
            requires
                hi == lo,
        ;
        assert(most * (hi - lo) == 0) by (nonlinear_arith)
            requires
                hi == lo,
        ;
    }
}

proof fn lemma_mean_range(sum: int, window: int, least: int, most: int)
    requires
        0 < window,
        least * window <= sum <= most * window,
    ensures
        least <= sum / window <= most,
{
    vstd::arithmetic::div_mod::lemma_fundamental_div_mod(sum, window);
    vstd::arithmetic::div_mod::lemma_mod_bound(sum, window);
    let q = sum / window;
    let r = sum % window;
    assert(least <= q) by (nonlinear_arith)
        requires
            sum == window * q + r,
            r < window,
            least * window <= sum,
            0 < window,
    ;
    assert(q <= most) by (nonlinear_arith)
        requires
            sum == window * q + r,
            0 <= r,
            sum <= most * window,
            0 < window,
    ;
}

/// Every channel of a box blur lies between the least and the greatest value
/// that this channel has in the source: the edges neither darken nor brighten.
pub proof fn box_blur_stays_in_range(
    data: Seq<u8>,
    width: int,
    height: int,
    radius: int,
    axis: Axis,
    c: int,
    least: u8,
    most: u8,
)
    requires
        0 < width,
        0 < height,
        0 <= radius,
        0 <= c < 4,
        data.len() == pixels::byte_count(width, height),
        forall|k: int| 0 <= k < data.len() && k % 4 == c ==> least <= (#[trigger] data[k]) <= most,
    ensures
        forall|k: int|
            0 <= k < data.len() && k % 4 == c ==> least <= (#[trigger] box_blurred(
                data,
                width,
                height,
                radius,
                axis,
            )[k]) <= most,
{
    assert forall|k: int| 0 <= k < data.len() && k % 4 == c implies least <= (
    #[trigger] box_blurred(data, width, height, radius, axis)[k]) <= most by {
        pixels::lemma_position_of(width, height, k);
        let x = (k / 4) % width;
        let y = (k / 4) / width;
        let (o, i) = match axis {
            Axis::Horizontal => (y, x),
            Axis::Vertical => (x, y),
        };
        assert forall|j: int|
            least <= (#[trigger] data[sample_position(width, height, axis, o, j, c)])
                <= most by {
            match axis {
                Axis::Horizontal => pixels::lemma_position_bounds(width, height, clamped(j, width), o, c),
                Axis::Vertical => pixels::lemma_position_bounds(width, height, o, clamped(j, height), c),
            }
        }
        lemma_window_range(
            data,
            width,
            height,
            axis,
            o,
            c,
            i - radius,
            i + radius + 1,
            least as int,
            most as int,
        );
        lemma_mean_range(
            window_sum(data, width, height, axis, o, c, i - radius, i + radius + 1),
            2 * radius + 1,
            least as int,
            most as int,
        );
    }
}

/// Blurring never takes a channel outside the range that it had: in particular
/// the borders of a light image stay light.
pub proof fn blur_stays_in_range(
    data: Seq<u8>,
    width: int,
    height: int,
    radius: int,
    passes: nat,
    c: int,
    least: u8,
    most: u8,
)
    requires
        0 < width,
        0 < height,
        0 <= radius,
        0 <= c < 4,
        data.len() == pixels::byte_count(width, height),
        forall|k: int| 0 <= k < data.len() && k % 4 == c ==> least <= (#[trigger] data[k]) <= most,
    ensures
        blurred(data, width, height, radius, passes).len() == data.len(),
        forall|k: int|
            0 <= k < data.len() && k % 4 == c ==> least <= (#[trigger] blurred(
                data,
                width,
                height,
                radius,
                passes,
            )[k]) <= most,
    decreases passes,
{
    if passes > 0 {
        blur_stays_in_range(data, width, height, radius, (passes - 1) as nat, c, least, most);
        pixels::lemma_byte_count(width, height);
        let before = blurred(data, width, height, radius, (passes - 1) as nat);
        box_blur_stays_in_range(
            before,
            width,
            height,
            radius,
            Axis::Horizontal,
            c,
            least,
            most,
        );
        let across = box_blurred(before, width, height, radius, Axis::Horizontal);
        box_blur_stays_in_range(across, width, height, radius, Axis::Vertical, c, least, most);
    }
}

/// A uniform image survives any blur unchanged.
pub proof fn uniform_image_is_unchanged_by_blur(
    data: Seq<u8>,
    width: int,
    height: int,
    radius: int,
    passes: nat,
    colour: Seq<u8>,
)
    requires
        0 < width,
        0 < height,
        0 <= radius,
        colour.len() == 4,
        data.len() == pixels::byte_count(width, height),
        forall|k: int| 0 <= k < data.len() ==> #[trigger] data[k] == colour[k % 4],
    ensures
        blurred(data, width, height, radius, passes) == data,
{
    blur_stays_in_range(data, width, height, radius, passes, 0, colour[0], colour[0]);
    blur_stays_in_range(data, width, height, radius, passes, 1, colour[1], colour[1]);
    blur_stays_in_range(data, width, height, radius, passes, 2, colour[2], colour[2]);
    blur_stays_in_range(data, width, height, radius, passes, 3, colour[3], colour[3]);
    let out = blurred(data, width, height, radius, passes);
    assert forall|k: int| 0 <= k < data.len() implies out[k] == data[k] by {
        assert(data[k] == colour[k % 4]);
        assert(k % 4 == 0 || k % 4 == 1 || k % 4 == 2 || k % 4 == 3);
        let byte = out[k];
    }
    assert(out =~= data);
}

/// What numbers come to.
pub open spec fn total(values: Seq<int>) -> int
    decreases values.len(),
{
    if values.len() == 0 {
        0
    } else {
        total(values.drop_last()) + values.last()
    }
}

/// Channel `c` of the pixels in a row from `radius` before `(x, y)` to `radius`
/// behind it; where the row ends, its last pixel stands for those beyond it.
pub open spec fn across(data: Seq<u8>, width: int, x: int, y: int, c: int, radius: int) -> Seq<int> {
    Seq::new(
        (2 * radius + 1) as nat,
        |j: int|
            data[(y * width + utils::between(x - radius + j, 0, width - 1)) * 4 + c] as int,
    )
}

/// Channel `c` of the pixels in a column from `radius` above `(x, y)` to `radius`
/// below it; where the column ends, its last pixel stands for those beyond it.
pub open spec fn along(
    data: Seq<u8>,
    width: int,
    height: int,
    x: int,
    y: int,
    c: int,
    radius: int,
) -> Seq<int> {
    Seq::new(
        (2 * radius + 1) as nat,
        |j: int|
            data[(utils::between(y - radius + j, 0, height - 1) * width + x) * 4 + c] as int,
    )
}

/// Whether a value is the mean of some numbers, rounded down.
pub open spec fn is_mean(value: int, values: Seq<int>) -> bool {
    values.len() > 0 && value * values.len() <= total(values) < (value + 1) * values.len()
}

/// Whether every pixel of a buffer is the mean of its neighbours to both sides in
/// another one.
pub open spec fn spread_across(
    before: Seq<u8>,
    after: Seq<u8>,
    width: int,
    height: int,
    radius: int,
) -> bool {
    &&& after.len() == width * height * 4
    &&& forall|x: int, y: int, c: int|
        0 <= x < width && 0 <= y < height && 0 <= c < 4 ==> is_mean(
            after[#[trigger] pixels::position(width, x, y, c)] as int,
            across(before, width, x, y, c, radius),
        )
}

/// Whether every pixel of a buffer is the mean of its neighbours above and below
/// in another one.
pub open spec fn spread_along(
    before: Seq<u8>,
    after: Seq<u8>,
    width: int,
    height: int,
    radius: int,
) -> bool {
    &&& after.len() == width * height * 4
    &&& forall|x: int, y: int, c: int|
        0 <= x < width && 0 <= y < height && 0 <= c < 4 ==> is_mean(
            after[#[trigger] pixels::position(width, x, y, c)] as int,
            along(before, width, height, x, y, c, radius),
        )
}

/// Whether a buffer is another one, spread to both sides and then up and down.
pub open spec fn is_round(
    before: Seq<u8>,
    after: Seq<u8>,
    width: int,
    height: int,
    radius: int,
) -> bool {
    exists|between: Seq<u8>|
        spread_across(before, between, width, height, radius) && #[trigger] spread_along(
            between,
            after,
            width,
            height,
            radius,
        )
}

/// Whether buffers follow one another as rounds of a blur do.
pub open spec fn rounds_of_blur(
    rounds: Seq<Seq<u8>>,
    width: int,
    height: int,
    radius: int,
) -> bool {
    forall|n: int|
        0 < n < rounds.len() ==> is_round(
            rounds[n - 1],
            #[trigger] rounds[n],
            width,
            height,
            radius,
        )
}

proof fn lemma_total(
    data: Seq<u8>,
    width: int,
    height: int,
    axis: Axis,
    o: int,
    c: int,
    lo: int,
    n: int,
    values: Seq<int>,
)
    requires
        0 <= n <= values.len(),
        forall|j: int|
            0 <= j < values.len() ==> #[trigger] values[j] == data[sample_position(
                width,
                height,
                axis,
                o,
                lo + j,
                c,
            )],
    ensures
        total(values.take(n)) == window_sum(data, width, height, axis, o, c, lo, lo + n),
    decreases n,
{
    if n > 0 {
        lemma_total(data, width, height, axis, o, c, lo, n - 1, values);
        assert(values.take(n).drop_last() =~= values.take(n - 1));
        assert(values.take(n).last() == values[n - 1]);
    }
}

proof fn lemma_is_mean(value: int, values: Seq<int>, sum: int)
    requires
        values.len() > 0,
        total(values) == sum,
        value == sum / (values.len() as int),
    ensures
        is_mean(value, values),
{
    let n = values.len() as int;
    vstd::arithmetic::div_mod::lemma_fundamental_div_mod(sum, n);
    vstd::arithmetic::div_mod::lemma_mod_bound(sum, n);
    let r = sum % n;
    assert(value * n <= sum < (value + 1) * n) by (nonlinear_arith)
        requires
            sum == n * value + r,
            0 <= r < n,
    ;
}

/// A box blur gives every pixel the mean of its neighbours along the axis, as far
/// as the radius reaches.
pub proof fn a_box_blur_is_the_mean_of_the_neighbours(
    data: Seq<u8>,
    width: int,
    height: int,
    radius: int,
)
    requires
        0 < width,
        0 < height,
        0 <= radius,
    ensures
        spread_across(
            data,
            box_blurred(data, width, height, radius, Axis::Horizontal),
            width,
            height,
            radius,
        ),
        spread_along(
            data,
            box_blurred(data, width, height, radius, Axis::Vertical),
            width,
            height,
            radius,
        ),
{
    let window = 2 * radius + 1;
    pixels::lemma_byte_count(width, height);
    let wide = box_blurred(data, width, height, radius, Axis::Horizontal);
    assert forall|x: int, y: int, c: int|
        0 <= x < width && 0 <= y < height && 0 <= c < 4 implies is_mean(
        wide[#[trigger] pixels::position(width, x, y, c)] as int,
        across(data, width, x, y, c, radius),
    ) by {
        pixels::lemma_position_bounds(width, height, x, y, c);
        let values = across(data, width, x, y, c, radius);
        let lo = x - radius;
        lemma_total(data, width, height, Axis::Horizontal, y, c, lo, window, values);
        assert(values.take(window) =~= values);
        lemma_window_bound(data, width, height, Axis::Horizontal, y, c, lo, lo + window);
        let sum = window_sum(data, width, height, Axis::Horizontal, y, c, lo, lo + window);
        lemma_mean_range(sum, window, 0, 255);
        lemma_is_mean(sum / window, values, sum);
    }
    let tall = box_blurred(data, width, height, radius, Axis::Vertical);
    assert forall|x: int, y: int, c: int|
        0 <= x < width && 0 <= y < height && 0 <= c < 4 implies is_mean(
        tall[#[trigger] pixels::position(width, x, y, c)] as int,
        along(data, width, height, x, y, c, radius),
    ) by {
        pixels::lemma_position_bounds(width, height, x, y, c);
        let values = along(data, width, height, x, y, c, radius);
        let lo = y - radius;
        lemma_total(data, width, height, Axis::Vertical, x, c, lo, window, values);
        assert(values.take(window) =~= values);
        lemma_window_bound(data, width, height, Axis::Vertical, x, c, lo, lo + window);
        let sum = window_sum(data, width, height, Axis::Vertical, x, c, lo, lo + window);
        lemma_mean_range(sum, window, 0, 255);
        lemma_is_mean(sum / window, values, sum);
    }
}

/// A blur is made in as many rounds as it was asked for: there are buffers from
/// the image to the result, one more than rounds, each the one before it spread
/// to both sides and then up and down, as far as the radius reaches.
pub proof fn a_blur_is_made_in_rounds(
    data: Seq<u8>,
    width: int,
    height: int,
    radius: int,
    passes: nat,
)
    requires
        0 < width,
        0 < height,
        0 <= radius,
    ensures
        exists|rounds: Seq<Seq<u8>>|
            #![trigger rounds_of_blur(rounds, width, height, radius)]
            rounds.len() == passes + 1 && rounds[0] == data && rounds[passes as int] == blurred(
                data,
                width,
                height,
                radius,
                passes,
            ) && rounds_of_blur(rounds, width, height, radius),
{
    let rounds = Seq::new(passes + 1, |n: int| blurred(data, width, height, radius, n as nat));
    assert forall|n: int| 0 < n < rounds.len() implies is_round(
        rounds[n - 1],
        #[trigger] rounds[n],
        width,
        height,
        radius,
    ) by {
        let before = rounds[n - 1];
        let between = box_blurred(before, width, height, radius, Axis::Horizontal);
        a_box_blur_is_the_mean_of_the_neighbours(before, width, height, radius);
        a_box_blur_is_the_mean_of_the_neighbours(between, width, height, radius);
        assert(rounds[n] == box_blurred(between, width, height, radius, Axis::Vertical));
        assert(spread_along(between, rounds[n], width, height, radius));
    }
    assert(rounds_of_blur(rounds, width, height, radius));
}

/// A blur of several rounds is those rounds made one after the other.
pub proof fn rounds_of_a_blur_add_up(
    data: Seq<u8>,
    width: int,
    height: int,
    radius: int,
    first: nat,
    second: nat,
)
    ensures
        blurred(data, width, height, radius, first + second) == blurred(
            blurred(data, width, height, radius, first),
            width,
            height,
            radius,
            second,
        ),
    decreases second,
{
    if second > 0 {
        rounds_of_a_blur_add_up(data, width, height, radius, first, (second - 1) as nat);
    }
}

/// Blur an image by `passes` box blurs of the given `radius`.
///
/// Three box blurs come close to a Gaussian, and each is separable: a
/// horizontal pass and then a vertical one.
pub fn blur(image: &Image, radius: u32, passes: u32) -> (out: Image)
    requires
        image.well_formed(),
    ensures
        out.well_formed(),
        out.width == image.width,
        out.height == image.height,
        radius == 0 || image.width == 0 || image.height == 0 ==> out.data@ == image.data@,
        radius > 0 && image.width > 0 && image.height > 0 ==> out.data@ == blurred(
            image.data@,
            image.width as int,
            image.height as int,
            radius as int,
            passes as nat,
        ),
{
    if radius == 0 || passes == 0 || image.width == 0 || image.height == 0 {
        return image.clone();
    }
    let mut current: Image = image.clone();
    for n in 0..passes
        invariant
            image.width > 0,
            image.height > 0,
            current.well_formed(),
            current.width == image.width,
            current.height == image.height,
            current.data@ == blurred(
                image.data@,
                image.width as int,
                image.height as int,
                radius as int,
                n as nat,
            ),
    {
        let across: Image = box_pass(&current, radius, Axis::Horizontal);
        current = box_pass(&across, radius, Axis::Vertical);
    }
    current
}

/// One separable box blur.
///
/// A running sum keeps the cost of a pixel independent of the radius. Edges
/// clamp to the nearest pixel; to treat the outside as transparent black would
/// darken the borders.
#[verifier::rlimit(60)]
pub fn box_pass(src: &Image, radius: u32, axis: Axis) -> (out: Image)
    requires
        src.well_formed(),
        src.width > 0,
        src.height > 0,
    ensures
        out.well_formed(),
        out.width == src.width,
        out.height == src.height,
        out.data@ == box_blurred(
            src.data@,
            src.width as int,
            src.height as int,
            radius as int,
            axis,
        ),
{
    let ghost w = src.width as int;
    let ghost h = src.height as int;
    let ghost r = radius as int;
    let window: u64 = radius as u64 * 2 + 1;
    let (outer, inner): (u32, u32) = match axis {
        Axis::Horizontal => (src.height, src.width),
        Axis::Vertical => (src.width, src.height),
    };
    let len: usize = src.data.len();
    let mut data: Vec<u8> = vec![0u8; len];
    for c in 0..4usize
        invariant
            src.well_formed(),
            w == src.width,
            h == src.height,
            r == radius,
            w > 0,
            h > 0,
            window == 2 * r + 1,
            outer == (if axis == Axis::Horizontal { h } else { w }),
            inner == (if axis == Axis::Horizontal { w } else { h }),
            data@.len() == pixels::byte_count(w, h) <= usize::MAX,
            forall|x: int, y: int, cc: int|
                0 <= x < w && 0 <= y < h && 0 <= cc < c ==> data@[#[trigger] pixels::position(w, x, y, cc)]
                    == box_value(src.data@, w, h, r, axis, x, y, cc),
    {
        for o in 0..outer
            invariant
                src.well_formed(),
                w == src.width,
                h == src.height,
                r == radius,
                w > 0,
                h > 0,
                c < 4,
                window == 2 * r + 1,
                outer == (if axis == Axis::Horizontal { h } else { w }),
                inner == (if axis == Axis::Horizontal { w } else { h }),
                data@.len() == pixels::byte_count(w, h) <= usize::MAX,
                forall|x: int, y: int, cc: int|
                    0 <= x < w && 0 <= y < h && 0 <= cc <= c && written(axis, c as int, o as int, 0, x, y, cc)
                        ==> data@[#[trigger] pixels::position(w, x, y, cc)] == box_value(
                        src.data@, w, h, r, axis, x, y, cc,
                    ),
        {
            let mut sum: u64 = prime_sum(src, radius, axis, o, c);
            for i in 0..inner
                invariant
                    src.well_formed(),
                    w == src.width,
                    h == src.height,
                    r == radius,
                    w > 0,
                    h > 0,
                    c < 4,
                    o < outer,
                    window == 2 * r + 1,
                    outer == (if axis == Axis::Horizontal { h } else { w }),
                    inner == (if axis == Axis::Horizontal { w } else { h }),
                    data@.len() == pixels::byte_count(w, h) <= usize::MAX,
                    sum == window_sum(src.data@, w, h, axis, o as int, c as int, i - r, i + r + 1),
                    forall|x: int, y: int, cc: int|
                        0 <= x < w && 0 <= y < h && 0 <= cc <= c
                            && written(axis, c as int, o as int, i as int, x, y, cc)
                            ==> data@[#[trigger] pixels::position(w, x, y, cc)] == box_value(
                            src.data@, w, h, r, axis, x, y, cc,
                        ),
            {
                proof {
                    lemma_window_bound(src.data@, w, h, axis, o as int, c as int, i - r, i + r + 1);
                    lemma_mean_range(sum as int, window as int, 0, 255);
                }
                let p: usize = sample_at(src.width, src.height, axis, o, i as i64, c);
                let ghost before = data@;
                data.set(p, (sum / window) as u8);
                proof {
                    lemma_write(
                        src.data@, w, h, r, axis, c as int, o as int, i as int, before, data@, p as int,
                    );
                    lemma_window_front(
                        src.data@, w, h, axis, o as int, c as int, i - r, i + r + 1,
                    );
                    lemma_window_bound(
                        src.data@, w, h, axis, o as int, c as int, i - r + 1, i + r + 2,
                    );
                    lemma_window_bound(
                        src.data@, w, h, axis, o as int, c as int, i - r + 1, i + r + 1,
                    );
                }
                let leaving: usize = sample_at(
                    src.width, src.height, axis, o, i as i64 - radius as i64, c,
                );
                let entering: usize = sample_at(
                    src.width, src.height, axis, o, i as i64 + radius as i64 + 1, c,
                );
                sum = sum - src.data[leaving] as u64 + src.data[entering] as u64;
            }
        }
    }
    proof {
        pixels::lemma_byte_count(w, h);
        let want = box_blurred(src.data@, w, h, r, axis);
        assert forall|k: int| 0 <= k < data@.len() implies data@[k] == want[k] by {
            pixels::lemma_position_of(w, h, k);
            let x = (k / 4) % w;
            let y = (k / 4) / w;
            assert(data@[pixels::position(w, x, y, k % 4)] == box_value(
                src.data@, w, h, r, axis, x, y, k % 4,
            ));
        }
        assert(data@ =~= want);
    }
    Image::new(src.width, src.height, data)
}

/// Whether the pass has come past channel `cc` of `(x, y)`, when it stands at
/// sample `i` of line `o` of channel `c`.
spec fn written(axis: Axis, c: int, o: int, i: int, x: int, y: int, cc: int) -> bool {
    let (line, along) = match axis {
        Axis::Horizontal => (y, x),
        Axis::Vertical => (x, y),
    };
    cc < c || (cc == c && (line < o || (line == o && along < i)))
}

proof fn lemma_write(
    src: Seq<u8>,
    w: int,
    h: int,
    r: int,
    axis: Axis,
    c: int,
    o: int,
    i: int,
    before: Seq<u8>,
    after: Seq<u8>,
    p: int,
)
    requires
        w > 0,
        h > 0,
        0 <= c < 4,
        0 <= o < (if axis == Axis::Horizontal { h } else { w }),
        0 <= i < (if axis == Axis::Horizontal { w } else { h }),
        before.len() == pixels::byte_count(w, h),
        p == sample_position(w, h, axis, o, i, c),
        after == before.update(
            p,
            (window_sum(src, w, h, axis, o, c, i - r, i + r + 1) / (2 * r + 1)) as u8,
        ),
        0 <= window_sum(src, w, h, axis, o, c, i - r, i + r + 1) / (2 * r + 1) <= 255,
        forall|x: int, y: int, cc: int|
            0 <= x < w && 0 <= y < h && 0 <= cc <= c && written(axis, c, o, i, x, y, cc)
                ==> before[#[trigger] pixels::position(w, x, y, cc)] == box_value(
                src, w, h, r, axis, x, y, cc,
            ),
    ensures
        forall|x: int, y: int, cc: int|
            0 <= x < w && 0 <= y < h && 0 <= cc <= c && written(axis, c, o, i + 1, x, y, cc)
                ==> after[#[trigger] pixels::position(w, x, y, cc)] == box_value(
                src, w, h, r, axis, x, y, cc,
            ),
{
    let (px, py) = match axis {
        Axis::Horizontal => (i, o),
        Axis::Vertical => (o, i),
    };
    pixels::lemma_position_bounds(w, h, px, py, c);
    assert forall|x: int, y: int, cc: int|
        0 <= x < w && 0 <= y < h && 0 <= cc <= c && written(axis, c, o, i + 1, x, y, cc)
        implies after[#[trigger] pixels::position(w, x, y, cc)] == box_value(
        src, w, h, r, axis, x, y, cc,
    ) by {
        pixels::lemma_position_bounds(w, h, x, y, cc);
        if x == px && y == py && cc == c {
        } else {
            assert(pixels::position(w, x, y, cc) != p);
            assert(written(axis, c, o, i, x, y, cc));
        }
    }
}

proof fn lemma_window_bound(
    data: Seq<u8>,
    width: int,
    height: int,
    axis: Axis,
    o: int,
    c: int,
    lo: int,
    hi: int,
)
    requires
        lo <= hi,
    ensures
        0 <= window_sum(data, width, height, axis, o, c, lo, hi) <= 255 * (hi - lo),
{
    lemma_window_range(data, width, height, axis, o, c, lo, hi, 0, 255);
}

/// Where the sample `i` of line `o` stands, `i` clamped to the line.
fn sample_at(width: u32, height: u32, axis: Axis, o: u32, i: i64, c: usize) -> (p: usize)
    requires
        width > 0,
        height > 0,
        o < (if axis == Axis::Horizontal { height } else { width }),
        c < 4,
        pixels::byte_count(width as int, height as int) <= usize::MAX,
    ensures
        p == sample_position(width as int, height as int, axis, o as int, i as int, c as int),
        0 <= p < pixels::byte_count(width as int, height as int),
{
    let inner: u32 = match axis {
        Axis::Horizontal => width,
        Axis::Vertical => height,
    };
    let near: u32 = if i < 0 {
        0
    } else if i >= inner as i64 {
        inner - 1
    } else {
        i as u32
    };
    let (x, y): (u32, u32) = match axis {
        Axis::Horizontal => (near, o),
        Axis::Vertical => (o, near),
    };
    proof {
        pixels::lemma_position_bounds(width as int, height as int, x as int, y as int, c as int);
    }
    (y as usize * width as usize + x as usize) * 4 + c
}

/// The sum of the window centred on the first pixel of line `o`.
fn prime_sum(src: &Image, radius: u32, axis: Axis, o: u32, c: usize) -> (sum: u64)
    requires
        src.well_formed(),
        src.width > 0,
        src.height > 0,
        o < (if axis == Axis::Horizontal { src.height } else { src.width }),
        c < 4,
    ensures
        sum == window_sum(
            src.data@,
            src.width as int,
            src.height as int,
            axis,
            o as int,
            c as int,
            -radius,
            radius + 1,
        ),
{
    let len: usize = src.data.len();
    let mut sum: u64 = 0;
    let mut i: i64 = -(radius as i64);
    while i <= radius as i64
        invariant
            src.well_formed(),
            src.width > 0,
            src.height > 0,
            o < (if axis == Axis::Horizontal { src.height } else { src.width }),
            c < 4,
            src.data@.len() == len,
            -radius <= i <= radius + 1,
            sum == window_sum(
                src.data@,
                src.width as int,
                src.height as int,
                axis,
                o as int,
                c as int,
                -radius,
                i as int,
            ),
        decreases radius + 1 - i,
    {
        let p: usize = sample_at(src.width, src.height, axis, o, i, c);
        proof {
            lemma_window_bound(
                src.data@,
                src.width as int,
                src.height as int,
                axis,
                o as int,
                c as int,
                -radius,
                i as int,
            );
        }
        sum = sum + src.data[p] as u64;
        i = i + 1;
    }
    sum
}

/// How samples are weighed when an image is resized.
#[derive(Debug, Clone, Copy, PartialEq, Eq, Structural)]
pub enum Filter {
    Triangle,
    CatmullRom,
}

/// What `image::imageops::resize` makes of the RGBA8 image in `data` with the
/// triangle filter, whose weights come of sums, products and quotients alone.
pub uninterp spec fn resized(
    data: Seq<u8>,
    width: u32,
    height: u32,
    to_width: u32,
    to_height: u32,
) -> Seq<u8>;

/// Whether buffers of this size, four bytes to a channel, can be allocated.
pub open spec fn allocatable(width: int, height: int) -> bool {
    pixels::byte_count(width, height) * 4 <= isize::MAX
}

/// The longest side of an image that can be resized. Positions are worked out in
/// single precision, which beyond this can leave a pixel without any weight.
pub const LONGEST_SIDE: u32 = 4_194_304;

/// Calls `image::imageops::resize`, between `RgbaImage::from_raw` and
/// `into_raw`.
///
/// Claimed of it: `from_raw` refuses exactly the buffers that are too short for
/// the size, and the resized buffer has exactly the size asked for; an image
/// without pixels comes out as zeroes, and one that has the size already as it
/// is. With the triangle filter the bytes are a function of the arguments; how
/// they are weighed is left to the name. The Catmull-Rom filter raises to powers
/// with `f32::powi`, whose precision may differ between machines, so of its
/// bytes nothing more is said. The intermediate buffer (source width, target
/// height, four-byte channels) must be one that can be allocated, and no side
/// longer than `LONGEST_SIDE`.
#[verifier::external_body]
fn resize(
    data: Vec<u8>,
    width: u32,
    height: u32,
    to_width: u32,
    to_height: u32,
    filter: Filter,
) -> (out: Option<Vec<u8>>)
    requires
        width <= LONGEST_SIDE,
        height <= LONGEST_SIDE,
        to_width <= LONGEST_SIDE,
        to_height <= LONGEST_SIDE,
        width > 0 && height > 0 ==> allocatable(width as int, to_height as int),
        allocatable(to_width as int, to_height as int),
    ensures
        out is Some <==> data@.len() >= pixels::byte_count(width as int, height as int),
        out is Some ==> out->Some_0@.len() == pixels::byte_count(to_width as int, to_height as int),
        out is Some && (width == 0 || height == 0) ==> forall|k: int|
            0 <= k < out->Some_0@.len() ==> #[trigger] out->Some_0@[k] == 0,
        out is Some && width > 0 && height > 0 && width == to_width && height == to_height
            ==> out->Some_0@ == data@.take(pixels::byte_count(width as int, height as int)),
        out is Some && filter == Filter::Triangle ==> out->Some_0@ == resized(
            data@,
            width,
            height,
            to_width,
            to_height,
        ),
{
    let kind = match filter {
        Filter::Triangle => image::imageops::FilterType::Triangle,
        Filter::CatmullRom => image::imageops::FilterType::CatmullRom,
    };
    let full = image::RgbaImage::from_raw(width, height, data)?;
    Some(image::imageops::resize(&full, to_width, to_height, kind).into_raw())
}

/// `(x, y)`, `(width, height)` cut down to what lies within an image.
pub open spec fn crop_within(
    image_width: u32,
    image_height: u32,
    crop: (u32, u32, u32, u32),
) -> (int, int, int, int) {
    let x = if crop.0 < image_width { crop.0 as int } else { image_width as int };
    let y = if crop.1 < image_height { crop.1 as int } else { image_height as int };
    let w = if crop.2 < image_width - x { crop.2 as int } else { image_width - x };
    let h = if crop.3 < image_height - y { crop.3 as int } else { image_height - y };
    (x, y, w, h)
}

/// The bytes of the part of an image that starts at `(x, y)` and is `w` by `h`.
pub open spec fn cropped(data: Seq<u8>, width: int, x: int, y: int, w: int, h: int) -> Seq<u8> {
    Seq::new(
        pixels::byte_count(w, h) as nat,
        |k: int| data[pixels::position(width, x + (k / 4) % w, y + (k / 4) / w, k % 4)],
    )
}

/// A part of an image, cut down to what lies within it.
pub fn crop(image: &Image, part: (u32, u32, u32, u32)) -> (out: Image)
    requires
        image.well_formed(),
    ensures
        out.well_formed(),
        out.width == crop_within(image.width, image.height, part).2,
        out.height == crop_within(image.width, image.height, part).3,
        ({
            let (x, y, w, h) = crop_within(image.width, image.height, part);
            out.data@ == cropped(image.data@, image.width as int, x, y, w, h)
        }),
{
    let x: u32 = lesser(part.0, image.width);
    let y: u32 = lesser(part.1, image.height);
    let w: u32 = lesser(part.2, image.width - x);
    let h: u32 = lesser(part.3, image.height - y);
    let ghost all = cropped(image.data@, image.width as int, x as int, y as int, w as int, h as int);
    let mut data: Vec<u8> = Vec::new();
    proof {
        pixels::lemma_byte_count(w as int, h as int);
        assert(pixels::position(w as int, 0, 0, 0) == 0);
    }
    for row in 0..h
        invariant
            image.well_formed(),
            x + w <= image.width,
            y + h <= image.height,
            all == cropped(image.data@, image.width as int, x as int, y as int, w as int, h as int),
            data@.len() == pixels::position(w as int, 0, row as int, 0),
            data@.len() <= all.len(),
            data@ =~= all.take(data@.len() as int),
    {
        for column in 0..w
            invariant
                image.well_formed(),
                x + w <= image.width,
                y + h <= image.height,
                row < h,
                all == cropped(
                    image.data@,
                    image.width as int,
                    x as int,
                    y as int,
                    w as int,
                    h as int,
                ),
                data@.len() == pixels::position(w as int, column as int, row as int, 0),
                data@.len() <= all.len(),
                data@ =~= all.take(data@.len() as int),
        {
            let rgba: [u8; 4] = image.pixel(x + column, y + row);
            let ghost at = data@.len() as int;
            proof {
                lemma_cropped_pixel(image, x, y, w, h, column, row);
            }
            data.push(rgba[0]);
            data.push(rgba[1]);
            data.push(rgba[2]);
            data.push(rgba[3]);
            proof {
                assert(data@[at] == all[at + 0]);
                assert(data@[at + 1] == all[at + 1]);
                assert(data@[at + 2] == all[at + 2]);
                assert(data@[at + 3] == all[at + 3]);
            }
        }
        proof {
            lemma_row_end(w as int, h as int, row as int);
            if w == 0 {
                assert(pixels::position(0, 0, row as int, 0) == 0) by (nonlinear_arith);
            }
        }
    }
    proof {
        assert(pixels::position(w as int, 0, h as int, 0) == pixels::byte_count(w as int, h as int))
            by (nonlinear_arith);
        assert(data@ =~= all);
    }
    Image::new(w, h, data)
}

/// A part that is cut out of an image shows the same pixels, as far as the image
/// reaches.
pub proof fn a_cut_shows_the_part(
    data: Seq<u8>,
    width: u32,
    height: u32,
    part: (u32, u32, u32, u32),
    i: int,
    j: int,
    c: int,
)
    requires
        part.0 <= width,
        part.1 <= height,
        0 <= i < part.2,
        0 <= j < part.3,
        part.0 + i < width,
        part.1 + j < height,
        0 <= c < 4,
    ensures
        ({
            let (x, y, w, h) = crop_within(width, height, part);
            &&& w == if part.0 + part.2 <= width {
                part.2 as int
            } else {
                width - part.0
            }
            &&& h == if part.1 + part.3 <= height {
                part.3 as int
            } else {
                height - part.1
            }
            &&& cropped(data, width as int, x, y, w, h).len() == w * h * 4
            &&& cropped(data, width as int, x, y, w, h)[(j * w + i) * 4 + c] == data[((part.1 + j)
                * width + (part.0 + i)) * 4 + c]
        }),
{
    let (x, y, w, h) = crop_within(width, height, part);
    pixels::lemma_byte_count(w, h);
    pixels::lemma_position_bounds(w, h, i, j, c);
    assert(cropped(data, width as int, x, y, w, h)[pixels::position(w, i, j, c)]
        == data[pixels::position(width as int, x + i, y + j, c)]);
}

fn lesser(a: u32, b: u32) -> (least: u32)
    ensures
        least == if a < b { a } else { b },
{
    if a < b {
        a
    } else {
        b
    }
}

proof fn lemma_row_end(w: int, h: int, row: int)
    requires
        0 <= w,
        0 <= row < h,
    ensures
        pixels::position(w, w, row, 0) == pixels::position(w, 0, row + 1, 0),
        pixels::position(w, w, row, 0) <= pixels::byte_count(w, h),
{
    assert(row * w + w == (row + 1) * w) by (nonlinear_arith);
    assert((row + 1) * w <= w * h) by (nonlinear_arith)
        requires
            0 <= w,
            row + 1 <= h,
    ;
}

proof fn lemma_cropped_pixel(image: &Image, x: u32, y: u32, w: u32, h: u32, column: u32, row: u32)
    requires
        x + w <= image.width,
        y + h <= image.height,
        column < w,
        row < h,
    ensures
        ({
            let all = cropped(
                image.data@,
                image.width as int,
                x as int,
                y as int,
                w as int,
                h as int,
            );
            let at = pixels::position(w as int, column as int, row as int, 0);
            &&& 0 <= at
            &&& at + 4 <= all.len()
            &&& forall|c: int|
                0 <= c < 4 ==> #[trigger] all[at + c] == image.data@[pixels::position(
                    image.width as int,
                    x + column,
                    y + row,
                    c,
                )]
        }),
{
    let at = pixels::position(w as int, column as int, row as int, 0);
    pixels::lemma_byte_count(w as int, h as int);
    pixels::lemma_position_bounds(w as int, h as int, column as int, row as int, 3);
    let all = cropped(image.data@, image.width as int, x as int, y as int, w as int, h as int);
    assert forall|c: int| 0 <= c < 4 implies #[trigger] all[at + c]
        == image.data@[pixels::position(image.width as int, x + column, y + row, c)] by {
        pixels::lemma_position_bounds(w as int, h as int, column as int, row as int, c);
        assert(at + c == pixels::position(w as int, column as int, row as int, c));
    }
}

pub open spec fn at_least_one(n: u32) -> u32 {
    if n == 0 {
        1
    } else {
        n
    }
}

fn floor_at_one(n: u32) -> (m: u32)
    ensures
        m == at_least_one(n),
{
    if n == 0 {
        1
    } else {
        n
    }
}

/// Scale a part of a decoded wallpaper to cover the output.
///
/// `part` is the one that has the shape of the output, in whole pixels; a part
/// without any width or height counts as one pixel wide or high. What `crop`
/// makes of it is what is scaled, and `scaled_to` makes the image of the bytes
/// that come out; which bytes those are is left to the scaling.
pub fn load_scaled(source: &Image, part: (u32, u32, u32, u32), output: (u32, u32)) -> (scaled:
    Image)
    requires
        source.well_formed(),
        ({
            let wanted = (part.0, part.1, at_least_one(part.2), at_least_one(part.3));
            let (x, y, w, h) = crop_within(source.width, source.height, wanted);
            w <= LONGEST_SIDE && h <= LONGEST_SIDE
        }),
        output.0 <= LONGEST_SIDE,
        output.1 <= LONGEST_SIDE,
        allocatable(source.width as int, at_least_one(output.1) as int),
        allocatable(at_least_one(output.0) as int, at_least_one(output.1) as int),
    ensures
        scaled.well_formed(),
        scaled.width == at_least_one(output.0),
        scaled.height == at_least_one(output.1),
        ({
            let wanted = (part.0, part.1, at_least_one(part.2), at_least_one(part.3));
            let (x, y, w, h) = crop_within(source.width, source.height, wanted);
            &&& w == 0 || h == 0 ==> forall|k: int|
                0 <= k < scaled.data@.len() ==> #[trigger] scaled.data@[k] == 0
            &&& w == scaled.width && h == scaled.height ==> scaled.data@ == cropped(
                source.data@,
                source.width as int,
                x,
                y,
                w,
                h,
            )
        }),
{
    let out_w: u32 = floor_at_one(output.0);
    let out_h: u32 = floor_at_one(output.1);
    let part: (u32, u32, u32, u32) = (
        part.0,
        part.1,
        floor_at_one(part.2),
        floor_at_one(part.3),
    );
    let cut: Image = crop(source, part);
    let (cut_w, cut_h): (u32, u32) = (cut.width, cut.height);
    proof {
        lemma_allocatable(source.width as int, out_h as int, cut_w as int, out_h as int);
    }
    let ghost bytes = cut.data@;
    match resize(cut.data, cut_w, cut_h, out_w, out_h, Filter::CatmullRom) {
        Some(data) => {
            assert(bytes.take(bytes.len() as int) =~= bytes);
            scaled_to(output, data)
        },
        None => source.clone(),
    }
}

/// The scaled wallpaper, from the bytes that scaling came to.
pub fn scaled_to(output: (u32, u32), data: Vec<u8>) -> (scaled: Image)
    requires
        data@.len() == pixels::byte_count(
            at_least_one(output.0) as int,
            at_least_one(output.1) as int,
        ),
    ensures
        scaled.well_formed(),
        scaled.data == data,
        scaled.width == at_least_one(output.0),
        scaled.height == at_least_one(output.1),
{
    Image::new(floor_at_one(output.0), floor_at_one(output.1), data)
}

proof fn lemma_allocatable(w: int, h: int, smaller_w: int, smaller_h: int)
    requires
        allocatable(w, h),
        0 <= smaller_w <= w,
        0 <= smaller_h <= h,
    ensures
        allocatable(smaller_w, smaller_h),
{
    assert(smaller_w * smaller_h <= w * h) by (nonlinear_arith)
        requires
            0 <= smaller_w <= w,
            0 <= smaller_h <= h,
    ;
}

pub open spec fn half(n: u32) -> u32 {
    at_least_one((n / 2) as u32)
}

/// The buffer that an image blurred at half its resolution comes to.
pub open spec fn half_blurred(
    data: Seq<u8>,
    width: u32,
    height: u32,
    radius: u32,
    passes: u32,
) -> Seq<u8> {
    let small = resized(data, width, height, half(width), half(height));
    let soft = blurred(
        small,
        half(width) as int,
        half(height) as int,
        half(radius) as int,
        passes as nat,
    );
    resized(soft, half(width), half(height), width, height)
}

/// The blurred wallpaper is the sharp one scaled to half its size, blurred there
/// in as many rounds as were asked for with half the radius, and scaled back. No
/// half is less than one pixel.
pub proof fn the_wallpaper_is_blurred_at_half_size(
    data: Seq<u8>,
    width: u32,
    height: u32,
    radius: u32,
    passes: u32,
    w: u32,
    h: u32,
    reach: u32,
)
    requires
        width < 2 ==> w == 1,
        width >= 2 ==> w == width / 2,
        height < 2 ==> h == 1,
        height >= 2 ==> h == height / 2,
        radius < 2 ==> reach == 1,
        radius >= 2 ==> reach == radius / 2,
    ensures
        exists|rounds: Seq<Seq<u8>>|
            #![trigger rounds_of_blur(rounds, w as int, h as int, reach as int)]
            rounds.len() == passes + 1 && rounds[0] == resized(data, width, height, w, h)
                && rounds_of_blur(rounds, w as int, h as int, reach as int) && half_blurred(
                data,
                width,
                height,
                radius,
                passes,
            ) == resized(rounds[passes as int], w, h, width, height),
{
    let small = resized(data, width, height, w, h);
    a_blur_is_made_in_rounds(small, w as int, h as int, reach as int, passes as nat);
    let rounds = choose|rounds: Seq<Seq<u8>>|
        #![trigger rounds_of_blur(rounds, w as int, h as int, reach as int)]
        rounds.len() == passes + 1 && rounds[0] == small && rounds[passes as int] == blurred(
            small,
            w as int,
            h as int,
            reach as int,
            passes as nat,
        ) && rounds_of_blur(rounds, w as int, h as int, reach as int);
    assert(rounds_of_blur(rounds, w as int, h as int, reach as int));
}

/// Blur an already-scaled wallpaper, working at half resolution.
///
/// The result has the size of the input, so one window rectangle indexes the
/// sharp and the blurred image alike. The radius halves with the resolution. A
/// buffer that is too short for its size comes back as it is.
pub fn blurred_from(sharp: &Image, radius: u32, passes: u32) -> (out: Image)
    requires
        sharp.width <= LONGEST_SIDE,
        sharp.height <= LONGEST_SIDE,
        allocatable(at_least_one(sharp.width) as int, at_least_one(sharp.height) as int),
    ensures
        out.width == sharp.width,
        out.height == sharp.height,
        sharp.data@.len() < pixels::byte_count(sharp.width as int, sharp.height as int) ==> out.data@
            == sharp.data@,
        sharp.data@.len() >= pixels::byte_count(sharp.width as int, sharp.height as int) ==> {
            &&& out.well_formed()
            &&& out.data@ == half_blurred(sharp.data@, sharp.width, sharp.height, radius, passes)
        },
{
    let (w, h): (u32, u32) = (sharp.width, sharp.height);
    let half_w: u32 = floor_at_one(w / 2);
    let half_h: u32 = floor_at_one(h / 2);
    proof {
        let (most_w, most_h) = (at_least_one(w) as int, at_least_one(h) as int);
        lemma_allocatable(most_w, most_h, w as int, half_h as int);
        lemma_allocatable(most_w, most_h, half_w as int, half_h as int);
        lemma_allocatable(most_w, most_h, half_w as int, h as int);
        lemma_allocatable(most_w, most_h, w as int, h as int);
    }
    let copy: Image = sharp.clone();
    let small: Vec<u8> = match resize(copy.data, w, h, half_w, half_h, Filter::Triangle) {
        Some(small) => small,
        None => {
            return sharp.clone();
        },
    };
    let soft: Image = blur(&Image::new(half_w, half_h, small), floor_at_one(radius / 2), passes);
    match resize(soft.data, half_w, half_h, w, h, Filter::Triangle) {
        Some(data) => Image::new(w, h, data),
        None => sharp.clone(),
    }
}

} // verus!
