//! Text: which font to use, how much of a title fits, and putting glyphs
//! together.
//!
//! A font says how wide a character is and what it covers; what is made of that
//! stands here. Nothing is shaped: no ligatures, no joining, no reordering.

use vstd::prelude::*;

use crate::chars;
use crate::pixels;
use crate::wallpaper::Image;

verus! {

/// Fonts to look for, in order, when none is configured: ordinary sans faces
/// that a system is likely to have.
pub const CANDIDATES: [&'static str; 7] = [
    "/usr/share/fonts/noto/NotoSans-Regular.ttf",
    "/usr/share/fonts/liberation-fonts/LiberationSans-Regular.ttf",
    "/usr/share/fonts/dejavu/DejaVuSans.ttf",
    "/usr/share/fonts/truetype/dejavu/DejaVuSans.ttf",
    "/usr/share/fonts/TTF/DejaVuSans.ttf",
    "/usr/share/fonts/urw-fonts/NimbusSans-Regular.ttf",
    "/usr/share/fonts/liberation/LiberationSans-Regular.ttf",
];

pub open spec fn candidates() -> Seq<Seq<char>> {
    seq![
        "/usr/share/fonts/noto/NotoSans-Regular.ttf"@,
        "/usr/share/fonts/liberation-fonts/LiberationSans-Regular.ttf"@,
        "/usr/share/fonts/dejavu/DejaVuSans.ttf"@,
        "/usr/share/fonts/truetype/dejavu/DejaVuSans.ttf"@,
        "/usr/share/fonts/TTF/DejaVuSans.ttf"@,
        "/usr/share/fonts/urw-fonts/NimbusSans-Regular.ttf"@,
        "/usr/share/fonts/liberation/LiberationSans-Regular.ttf"@,
    ]
}

/// The first of a list, from `from` on, that is among the files.
pub open spec fn first_present(list: Seq<Seq<char>>, files: Seq<Seq<char>>, from: int) -> Option<
    Seq<char>,
>
    decreases list.len() - from,
{
    if from < 0 || from >= list.len() {
        None
    } else if files.contains(list[from]) {
        Some(list[from])
    } else {
        first_present(list, files, from + 1)
    }
}

/// The font to use, given the files that there are. A configured one that is
/// missing is not replaced: that would show the wrong typeface with nothing said
/// about it.
pub open spec fn chosen_font(configured: Seq<char>, files: Seq<Seq<char>>) -> Option<Seq<char>> {
    let wanted = chars::trimmed(configured);
    if wanted.len() > 0 {
        if files.contains(wanted) {
            Some(wanted)
        } else {
            None
        }
    } else {
        first_present(candidates(), files, 0)
    }
}

/// The files whose presence decides which font is used.
pub fn font_files(configured: &str) -> (paths: Vec<String>)
    ensures
        chars::views(paths@) == if chars::trimmed(configured@).len() > 0 {
            seq![chars::trimmed(configured@)]
        } else {
            candidates()
        },
{
    let configured: Vec<char> = chars::chars_of(configured);
    let wanted: Vec<char> = chars::trim(&configured);
    let mut paths: Vec<String> = Vec::new();
    if wanted.len() > 0 {
        paths.push(chars::text_of(&wanted));
        assert(chars::views(paths@) =~= seq![wanted@]);
    } else {
        for i in 0..7
            invariant
                paths@.len() == i,
                forall|k: int| 0 <= k < i ==> (#[trigger] paths@[k])@ == candidates()[k],
        {
            paths.push(CANDIDATES[i].to_owned());
        }
        assert(chars::views(paths@) =~= candidates());
    }
    paths
}

/// The first usable font among the files that there are, or `None`.
pub fn find_font(configured: &str, files: &[String]) -> (path: Option<String>)
    ensures
        match path {
            Some(path) => chosen_font(configured@, chars::views(files@)) == Some(path@),
            None => chosen_font(configured@, chars::views(files@)) is None,
        },
{
    let given: Vec<char> = chars::chars_of(configured);
    let wanted: Vec<char> = chars::trim(&given);
    let ghost present = chars::views(files@);
    if wanted.len() > 0 {
        return match chars::position_of(files, &wanted) {
            Some(_) => Some(chars::text_of(&wanted)),
            None => None,
        };
    }
    for i in 0..7
        invariant
            present == chars::views(files@),
            first_present(candidates(), present, i as int) == first_present(
                candidates(),
                present,
                0,
            ),
            chosen_font(configured@, present) == first_present(candidates(), present, 0),
    {
        let path: Vec<char> = chars::chars_of(CANDIDATES[i]);
        assert(path@ == candidates()[i as int]);
        if chars::position_of(files, &path).is_some() {
            return Some(chars::text_of(&path));
        }
    }
    None
}

/// How many characters of a text stand before the first that no longer fits,
/// `widths` telling how wide the text is up to and with each character, an
/// ellipsis behind it.
pub open spec fn fitting(widths: Seq<i32>, max_width: i32, from: int) -> int
    decreases widths.len() - from,
{
    if from < 0 || from >= widths.len() || widths[from] > max_width {
        from
    } else {
        fitting(widths, max_width, from + 1)
    }
}

/// A text, shortened with an ellipsis to fit within a width. `width` is how wide
/// it is, and `ellipsis` how wide the ellipsis alone.
pub open spec fn shortened(
    text: Seq<char>,
    width: i32,
    ellipsis: i32,
    widths: Seq<i32>,
    max_width: i32,
) -> Seq<char> {
    if max_width <= 0 {
        Seq::empty()
    } else if width <= max_width {
        text
    } else if ellipsis > max_width {
        // Not even the ellipsis fits, and alone it says nothing.
        Seq::empty()
    } else {
        text.take(fitting(widths, max_width, 0)).push('…')
    }
}

/// Shorten a string with an ellipsis so that it fits within `max_width`.
///
/// By measured width, not by a count of characters: in a proportional font no
/// count means a width.
pub fn truncate(text: &str, width: i32, ellipsis: i32, widths: &[i32], max_width: i32) -> (cut:
    String)
    requires
        widths@.len() == text@.len(),
    ensures
        cut@ == shortened(text@, width, ellipsis, widths@, max_width),
{
    if max_width <= 0 {
        return String::new();
    }
    if width <= max_width {
        return text.to_owned();
    }
    if ellipsis > max_width {
        return String::new();
    }
    let characters: Vec<char> = chars::chars_of(text);
    let mut n: usize = 0;
    while n < widths.len() && widths[n] <= max_width
        invariant
            n <= widths@.len(),
            fitting(widths@, max_width, n as int) == fitting(widths@, max_width, 0),
        decreases widths@.len() - n,
    {
        n = n + 1;
    }
    let mut kept: Vec<char> = chars::part(&characters, 0, n);
    kept.push('…');
    assert(kept@ =~= text@.take(n as int).push('…'));
    chars::text_of(&kept)
}

/// What is kept of a shortened text fits, its ellipsis included: unless nothing
/// is kept but the ellipsis, which fits by itself.
pub proof fn truncated_text_fits(widths: Seq<i32>, max_width: i32, from: int)
    requires
        0 <= from <= widths.len(),
    ensures
        from <= fitting(widths, max_width, from) <= widths.len(),
        forall|k: int|
            from <= k < fitting(widths, max_width, from) ==> #[trigger] widths[k] <= max_width,
    decreases widths.len() - from,
{
    if from < widths.len() && widths[from] <= max_width {
        truncated_text_fits(widths, max_width, from + 1);
    }
}

/// A text that is too wide keeps as many of its characters as fit with the
/// ellipsis behind them, and one that fits stays as it is.
pub proof fn as_much_is_kept_as_fits(
    text: Seq<char>,
    width: i32,
    ellipsis: i32,
    widths: Seq<i32>,
    max_width: i32,
)
    requires
        widths.len() == text.len(),
        0 < max_width,
        ellipsis <= max_width,
    ensures
        ({
            let cut = shortened(text, width, ellipsis, widths, max_width);
            let kept = cut.len() - 1;
            &&& width <= max_width ==> cut == text
            &&& width > max_width ==> {
                &&& 0 <= kept <= text.len()
                &&& cut[kept] == '…'
                &&& forall|k: int| 0 <= k < kept ==> #[trigger] cut[k] == text[k]
                &&& forall|k: int| 0 <= k < kept ==> #[trigger] widths[k] <= max_width
                &&& kept < text.len() ==> widths[kept] > max_width
            }
        }),
{
    truncated_text_fits(widths, max_width, 0);
    lemma_first_too_wide(widths, max_width, 0);
}

proof fn lemma_first_too_wide(widths: Seq<i32>, max_width: i32, from: int)
    requires
        0 <= from <= widths.len(),
    ensures
        fitting(widths, max_width, from) < widths.len() ==> widths[fitting(
            widths,
            max_width,
            from,
        )] > max_width,
    decreases widths.len() - from,
{
    if from < widths.len() && widths[from] <= max_width {
        lemma_first_too_wide(widths, max_width, from + 1);
    }
}

/// A character as a font draws it: how much of each pixel it covers, and where
/// it goes. `pen` is the column that the character starts at, rounded.
#[derive(Debug)]
pub struct Glyph {
    pub pen: i32,
    /// From the pen to the left edge.
    pub xmin: i32,
    /// From the baseline up to the *bottom* edge.
    pub ymin: i32,
    pub width: usize,
    pub height: usize,
    pub coverage: Vec<u8>,
}

impl Glyph {
    pub open spec fn valid(self) -> bool {
        self.coverage@.len() == self.width * self.height
    }

    /// The column of its left edge.
    pub open spec fn left(self) -> int {
        self.pen + self.xmin
    }

    /// The row of its top edge, the baseline being `ascent` below the top of the
    /// line.
    pub open spec fn top(self, ascent: i32) -> int {
        ascent - self.ymin - self.height
    }

    /// Which of its cells covers a pixel.
    pub open spec fn cell(self, ascent: i32, x: int, y: int) -> Option<int> {
        let (gx, gy) = (x - self.left(), y - self.top(ascent));
        if 0 <= gx < self.width && 0 <= gy < self.height {
            Some(gy * self.width + gx)
        } else {
            None
        }
    }

    /// How much of a pixel its first `upto` cells cover; nothing, where none of
    /// them does.
    pub open spec fn inks(self, ascent: i32, upto: int, x: int, y: int) -> Option<u8> {
        match self.cell(ascent, x, y) {
            Some(k) => if k < upto && self.coverage@[k] != 0 {
                Some(self.coverage@[k])
            } else {
                None
            },
            None => None,
        }
    }
}

/// How much of a pixel the last of the first `n` glyphs covers that covers it at
/// all.
pub open spec fn ink(glyphs: Seq<Glyph>, ascent: i32, n: int, x: int, y: int) -> Option<u8>
    decreases n,
{
    if n <= 0 {
        None
    } else {
        match glyphs[n - 1].inks(ascent, glyphs[n - 1].coverage@.len() as int, x, y) {
            Some(alpha) => Some(alpha),
            None => ink(glyphs, ascent, n - 1, x, y),
        }
    }
}

/// A channel of a pixel that is covered so much.
pub open spec fn shade(shades: Seq<[u8; 4]>, covered: Option<u8>, c: int) -> u8 {
    match covered {
        Some(alpha) => shades[alpha as int]@[c],
        None => 0,
    }
}

/// The bytes of a line of text.
pub open spec fn line_bytes(
    glyphs: Seq<Glyph>,
    ascent: i32,
    shades: Seq<[u8; 4]>,
    width: int,
    height: int,
) -> Seq<u8> {
    Seq::new(
        pixels::byte_count(width, height) as nat,
        |k: int|
            shade(
                shades,
                ink(glyphs, ascent, glyphs.len() as int, (k / 4) % width, (k / 4) / width),
                k % 4,
            ),
    )
}

proof fn lemma_cell(glyph: Glyph, ascent: i32, k: int, x: int, y: int)
    requires
        glyph.valid(),
        0 <= k < glyph.coverage@.len(),
    ensures
        glyph.width > 0,
        0 <= k % (glyph.width as int) < glyph.width,
        0 <= k / (glyph.width as int) < glyph.height,
        glyph.cell(ascent, x, y) == Some(k) <==> x == glyph.left() + k % (glyph.width as int) && y
            == glyph.top(ascent) + k / (glyph.width as int),
{
    let (w, h) = (glyph.width as int, glyph.height as int);
    assert(w > 0) by (nonlinear_arith)
        requires
            0 <= k < w * h,
            w >= 0,
    ;
    vstd::arithmetic::div_mod::lemma_fundamental_div_mod(k, w);
    vstd::arithmetic::div_mod::lemma_mod_bound(k, w);
    let (q, r) = (k / w, k % w);
    assert(q * w == w * q) by (nonlinear_arith);
    assert(0 <= q < h) by (nonlinear_arith)
        requires
            k == w * q + r,
            0 <= r < w,
            0 <= k < w * h,
            w > 0,
    ;
    let (gx, gy) = (x - glyph.left(), y - glyph.top(ascent));
    if 0 <= gx < w && 0 <= gy < h && gy * w + gx == k {
        assert(w * gy == gy * w) by (nonlinear_arith);
        vstd::arithmetic::div_mod::lemma_fundamental_div_mod_converse(k, w, gy, gx);
    }
}

/// Put the cells of one glyph on a line.
fn draw(
    data: &mut Vec<u8>,
    width: i32,
    height: i32,
    glyphs: &Vec<Glyph>,
    n: usize,
    ascent: i32,
    shades: &[[u8; 4]],
)
    requires
        0 < width,
        0 < height,
        n < glyphs@.len(),
        glyphs@[n as int].valid(),
        shades@.len() == 256,
        old(data)@.len() == pixels::byte_count(width as int, height as int),
        forall|k: int|
            0 <= k < old(data)@.len() ==> #[trigger] old(data)@[k] == shade(
                shades@,
                ink(glyphs@, ascent, n as int, (k / 4) % (width as int), (k / 4) / (width as int)),
                k % 4,
            ),
    ensures
        final(data)@.len() == old(data)@.len(),
        forall|k: int|
            0 <= k < final(data)@.len() ==> #[trigger] final(data)@[k] == shade(
                shades@,
                ink(glyphs@, ascent, n + 1, (k / 4) % (width as int), (k / 4) / (width as int)),
                k % 4,
            ),
{
    let glyph: &Glyph = &glyphs[n];
    let count: usize = glyph.coverage.len();
    let ghost w = width as int;
    let left: i64 = glyph.pen as i64 + glyph.xmin as i64;
    for cell in 0..count
        invariant
            0 < width,
            0 < height,
            w == width,
            count == glyph.coverage@.len(),
            n < glyphs@.len(),
            *glyph == glyphs@[n as int],
            glyph.valid(),
            left == glyph.left(),
            shades@.len() == 256,
            data@.len() == pixels::byte_count(width as int, height as int),
            forall|k: int|
                0 <= k < data@.len() ==> #[trigger] data@[k] == shade(
                    shades@,
                    match glyph.inks(ascent, cell as int, (k / 4) % w, (k / 4) / w) {
                        Some(alpha) => Some(alpha),
                        None => ink(glyphs@, ascent, n as int, (k / 4) % w, (k / 4) / w),
                    },
                    k % 4,
                ),
    {
        let ghost before = data@;
        proof {
            lemma_cell(*glyph, ascent, cell as int, 0, 0);
        }
        let gx: usize = cell % glyph.width;
        let gy: usize = cell / glyph.width;
        let alpha: u8 = glyph.coverage[cell];
        // Coordinates far beyond what a line can hold need more room than it has.
        let x: i128 = left as i128 + gx as i128;
        let y: i128 = ascent as i128 - glyph.ymin as i128 - glyph.height as i128 + gy as i128;
        if alpha != 0 && 0 <= x && x < width as i128 && 0 <= y && y < height as i128 {
            let len: usize = data.len();
            proof {
                pixels::lemma_position_bounds(w, height as int, x as int, y as int, 3);
                pixels::lemma_position_bounds(w, height as int, x as int, y as int, 0);
            }
            let i: usize = (y as usize * width as usize + x as usize) * 4;
            let rgba: [u8; 4] = shades[alpha as usize];
            data.set(i, rgba[0]);
            data.set(i + 1, rgba[1]);
            data.set(i + 2, rgba[2]);
            data.set(i + 3, rgba[3]);
        }
        proof {
            assert forall|k: int| 0 <= k < data@.len() implies #[trigger] data@[k] == shade(
                shades@,
                match glyph.inks(ascent, cell + 1, (k / 4) % w, (k / 4) / w) {
                    Some(alpha) => Some(alpha),
                    None => ink(glyphs@, ascent, n as int, (k / 4) % w, (k / 4) / w),
                },
                k % 4,
            ) by {
                let (px, py) = ((k / 4) % w, (k / 4) / w);
                pixels::lemma_position_of(w, height as int, k);
                lemma_cell(*glyph, ascent, cell as int, px, py);
                assert(before[k] == shade(
                    shades@,
                    match glyph.inks(ascent, cell as int, px, py) {
                        Some(alpha) => Some(alpha),
                        None => ink(glyphs@, ascent, n as int, px, py),
                    },
                    k % 4,
                ));
                if glyph.cell(ascent, px, py) == Some(cell as int) {
                    assert(px == x && py == y);
                    assert(k == pixels::position(w, px, py, k % 4));
                } else if alpha != 0 && 0 <= x < w && 0 <= y < height {
                    assert(k != pixels::position(w, x as int, y as int, k % 4)) by {
                        pixels::lemma_position_bounds(w, height as int, x as int, y as int, k % 4);
                    }
                }
            }
        }
    }
}

/// What glyph `i` covers of a line shows in the line: as many columns from its
/// left edge and rows from its top as in the glyph, in the shade of how much it
/// covers there. A later glyph may cover it again; what no glyph covers stays
/// clear.
pub proof fn glyphs_show_where_they_stand(
    glyphs: Seq<Glyph>,
    ascent: i32,
    shades: Seq<[u8; 4]>,
    width: int,
    height: int,
    i: int,
    column: int,
    row: int,
    c: int,
)
    requires
        0 <= i < glyphs.len(),
        glyphs[i].valid(),
        0 <= column < glyphs[i].width,
        0 <= row < glyphs[i].height,
        0 <= c < 4,
        0 <= glyphs[i].pen + glyphs[i].xmin + column < width,
        0 <= ascent - glyphs[i].ymin - glyphs[i].height + row < height,
        glyphs[i].coverage@[row * glyphs[i].width + column] != 0,
        forall|j: int|
            i < j < glyphs.len() ==> (#[trigger] glyphs[j]).inks(
                ascent,
                glyphs[j].coverage@.len() as int,
                glyphs[i].pen + glyphs[i].xmin + column,
                ascent - glyphs[i].ymin - glyphs[i].height + row,
            ) is None,
    ensures
        ({
            let (x, y) = (
                glyphs[i].pen + glyphs[i].xmin + column,
                ascent - glyphs[i].ymin - glyphs[i].height + row,
            );
            line_bytes(glyphs, ascent, shades, width, height)[(y * width + x) * 4 + c]
                == shades[glyphs[i].coverage@[row * glyphs[i].width + column] as int]@[c]
        }),
{
    let (x, y) = (
        glyphs[i].pen + glyphs[i].xmin + column,
        ascent - glyphs[i].ymin - glyphs[i].height + row,
    );
    let k = row * glyphs[i].width + column;
    pixels::lemma_position_bounds(width, height, x, y, c);
    pixels::lemma_byte_count(width, height);
    assert(k < glyphs[i].coverage@.len()) by (nonlinear_arith)
        requires
            k == row * glyphs[i].width + column,
            column < glyphs[i].width,
            row < glyphs[i].height,
            glyphs[i].coverage@.len() == glyphs[i].width * glyphs[i].height,
    ;
    lemma_ink(glyphs, ascent, i, glyphs.len() as int, x, y);
    let at = pixels::position(width, x, y, c);
    assert(line_bytes(glyphs, ascent, shades, width, height)[at] == shade(
        shades,
        ink(glyphs, ascent, glyphs.len() as int, x, y),
        c,
    ));
}

proof fn lemma_ink(glyphs: Seq<Glyph>, ascent: i32, i: int, n: int, x: int, y: int)
    requires
        0 <= i < n <= glyphs.len(),
        glyphs[i].inks(ascent, glyphs[i].coverage@.len() as int, x, y) is Some,
        forall|j: int|
            i < j < n ==> (#[trigger] glyphs[j]).inks(
                ascent,
                glyphs[j].coverage@.len() as int,
                x,
                y,
            ) is None,
    ensures
        ink(glyphs, ascent, n, x, y) == glyphs[i].inks(
            ascent,
            glyphs[i].coverage@.len() as int,
            x,
            y,
        ),
    decreases n,
{
    if i < n - 1 {
        assert(glyphs[n - 1].inks(ascent, glyphs[n - 1].coverage@.len() as int, x, y) is None);
        lemma_ink(glyphs, ascent, i, n - 1, x, y);
    }
}

/// Put glyphs together to a line, so wide and so high, the baseline being
/// `ascent` below its top. `shades` gives the premultiplied colour for each
/// coverage. `None` for anything with no ink, so that nothing is uploaded.
pub fn rasterise(
    glyphs: &Vec<Glyph>,
    width: i32,
    height: i32,
    ascent: i32,
    shades: &[[u8; 4]],
) -> (image: Option<Image>)
    requires
        forall|i: int| 0 <= i < glyphs@.len() ==> (#[trigger] glyphs@[i]).valid(),
        shades@.len() == 256,
        0 < width && 0 < height ==> width * height * 4 <= i32::MAX,
    ensures
        match image {
            Some(image) => {
                &&& 0 < width && 0 < height
                &&& image.width == width
                &&& image.height == height
                &&& image.data@ == line_bytes(
                    glyphs@,
                    ascent,
                    shades@,
                    width as int,
                    height as int,
                )
                &&& exists|k: int|
                    0 <= k < image.data@.len() && k % 4 == 3 && #[trigger] image.data@[k] != 0
            },
            None => 0 < width && 0 < height ==> forall|k: int|
                0 <= k < pixels::byte_count(width as int, height as int) && k % 4 == 3
                    ==> #[trigger] line_bytes(
                    glyphs@,
                    ascent,
                    shades@,
                    width as int,
                    height as int,
                )[k] == 0,
        },
{
    if width <= 0 || height <= 0 {
        return None;
    }
    proof {
        pixels::lemma_byte_count(width as int, height as int);
        assert(0 <= width * height) by (nonlinear_arith)
            requires
                0 < width,
                0 < height,
        ;
    }
    let count: usize = (width * height * 4) as usize;
    let mut data: Vec<u8> = Vec::new();
    for k in 0..count
        invariant
            data@.len() == k,
            forall|i: int| 0 <= i < k ==> data@[i] == 0,
    {
        data.push(0);
    }
    let ghost w = width as int;
    for n in 0..glyphs.len()
        invariant
            0 < width,
            0 < height,
            w == width,
            count == pixels::byte_count(width as int, height as int),
            forall|i: int| 0 <= i < glyphs@.len() ==> (#[trigger] glyphs@[i]).valid(),
            shades@.len() == 256,
            data@.len() == count,
            forall|k: int|
                0 <= k < data@.len() ==> #[trigger] data@[k] == shade(
                    shades@,
                    ink(glyphs@, ascent, n as int, (k / 4) % w, (k / 4) / w),
                    k % 4,
                ),
    {
        draw(&mut data, width, height, glyphs, n, ascent, shades);
    }
    let ghost bytes = line_bytes(glyphs@, ascent, shades@, width as int, height as int);
    assert(data@ =~= bytes);
    let mut i: usize = 3;
    while i < count
        invariant
            data@ == bytes,
            data@.len() == count,
            count % 4 == 0,
            i % 4 == 3,
            i <= count + 3,
            count <= i32::MAX,
            0 < width,
            0 < height,
            count == pixels::byte_count(width as int, height as int),
            bytes == line_bytes(glyphs@, ascent, shades@, width as int, height as int),
            forall|k: int| 0 <= k < i && k < count && k % 4 == 3 ==> #[trigger] bytes[k] == 0,
        decreases count + 3 - i,
    {
        if data[i] != 0 {
            let image: Image = Image::new(width as u32, height as u32, data);
            assert(image.data@[i as int] != 0);
            return Some(image);
        }
        i = i + 4;
    }
    None
}

/// A line that was put together before: its text, its size and its colour, by
/// the bits of their numbers, and what it came to.
#[derive(Debug)]
pub struct Line {
    pub text: String,
    pub size: u32,
    pub colour: [u32; 4],
    pub image: Option<Image>,
}

/// Lines that were put together before. A title changes rarely and is drawn with
/// every frame.
#[derive(Debug)]
pub struct Face {
    lines: Vec<Line>,
}

/// Whether a line is this text at this size and in this colour.
pub open spec fn is_line(line: Line, text: Seq<char>, size: u32, colour: Seq<u32>) -> bool {
    line.text@ == text && line.size == size && line.colour@ == colour
}

/// Where a line stands among lines, from `from` on.
pub open spec fn line_from(
    lines: Seq<Line>,
    text: Seq<char>,
    size: u32,
    colour: Seq<u32>,
    from: int,
) -> Option<int>
    decreases lines.len() - from,
{
    if from < 0 || from >= lines.len() {
        None
    } else if is_line(lines[from], text, size, colour) {
        Some(from)
    } else {
        line_from(lines, text, size, colour, from + 1)
    }
}

fn same_colour(a: &[u32; 4], b: &[u32; 4]) -> (same: bool)
    ensures
        same == (a@ == b@),
{
    if a[0] == b[0] && a[1] == b[1] && a[2] == b[2] && a[3] == b[3] {
        assert(a@ =~= b@);
        true
    } else {
        false
    }
}

impl Face {
    pub closed spec fn lines(&self) -> Seq<Line> {
        self.lines@
    }

    pub fn new() -> (face: Face)
        ensures
            face.lines() == Seq::<Line>::empty(),
    {
        Face { lines: Vec::new() }
    }

    /// Which line is this text at this size and in this colour, if it was put
    /// together before.
    pub fn find(&self, text: &str, size: u32, colour: [u32; 4]) -> (found: Option<usize>)
        ensures
            match found {
                Some(i) => line_from(self.lines(), text@, size, colour@, 0) == Some(i as int) && i
                    < self.lines().len() && is_line(
                    self.lines()[i as int],
                    text@,
                    size,
                    colour@,
                ),
                None => line_from(self.lines(), text@, size, colour@, 0) is None,
            },
    {
        for i in 0..self.lines.len()
            invariant
                line_from(self.lines(), text@, size, colour@, i as int) == line_from(
                    self.lines(),
                    text@,
                    size,
                    colour@,
                    0,
                ),
        {
            if self.lines[i].size == size && same_colour(&self.lines[i].colour, &colour)
                && chars::equal(self.lines[i].text.as_str(), text) {
                return Some(i);
            }
        }
        None
    }

    /// Keep a line that was put together.
    pub fn keep(&mut self, line: Line)
        ensures
            final(self).lines() == old(self).lines().push(line),
    {
        self.lines.push(line);
    }

    /// The picture of a line; nothing, where it has no ink.
    pub fn image(&self, i: usize) -> (image: Option<&Image>)
        requires
            i < self.lines().len(),
        ensures
            match image {
                Some(image) => self.lines()[i as int].image == Some(*image),
                None => self.lines()[i as int].image is None,
            },
    {
        match &self.lines[i].image {
            Some(image) => Some(image),
            None => None,
        }
    }
}

/// A line that is kept is found again, as it was kept.
pub proof fn a_kept_line_is_found(lines: Seq<Line>, line: Line, from: int)
    requires
        0 <= from <= lines.len(),
        line_from(lines, line.text@, line.size, line.colour@, from) is None,
    ensures
        line_from(lines.push(line), line.text@, line.size, line.colour@, from) == Some(
            lines.len() as int,
        ),
    decreases lines.len() - from,
{
    let more = lines.push(line);
    if from < lines.len() {
        assert(more[from] == lines[from]);
        a_kept_line_is_found(lines, line, from + 1);
    } else {
        assert(more[from] == line);
    }
}

/// What is found was kept for that text, that size and that colour.
pub proof fn what_is_found_was_kept_for_that(
    lines: Seq<Line>,
    text: Seq<char>,
    size: u32,
    colour: Seq<u32>,
    from: int,
)
    requires
        0 <= from <= lines.len(),
    ensures
        line_from(lines, text, size, colour, from) matches Some(i) ==> from <= i < lines.len()
            && is_line(lines[i], text, size, colour),
    decreases lines.len() - from,
{
    if from < lines.len() && !is_line(lines[from], text, size, colour) {
        what_is_found_was_kept_for_that(lines, text, size, colour, from + 1);
    }
}

proof fn lemma_first_present(list: Seq<Seq<char>>, files: Seq<Seq<char>>, from: int)
    requires
        0 <= from <= list.len(),
    ensures
        match first_present(list, files, from) {
            Some(path) => exists|i: int|
                from <= i < list.len() && #[trigger] list[i] == path && files.contains(path)
                    && forall|k: int| from <= k < i ==> !files.contains(#[trigger] list[k]),
            None => forall|k: int|
                from <= k < list.len() ==> !files.contains(#[trigger] list[k]),
        },
    decreases list.len() - from,
{
    if from < list.len() && !files.contains(list[from]) {
        lemma_first_present(list, files, from + 1);
        match first_present(list, files, from + 1) {
            Some(path) => {
                let i = choose|i: int|
                    from + 1 <= i < list.len() && #[trigger] list[i] == path && files.contains(
                        path,
                    ) && forall|k: int|
                        from + 1 <= k < i ==> !files.contains(#[trigger] list[k]);
                assert(list[i] == path);
            },
            None => {},
        }
    }
}

/// A font is used only if its file is there. One that is configured is used or
/// none is; without one the first that is there is used, and none only where none
/// of them is there.
pub proof fn the_font_used_is_there(configured: Seq<char>, files: Seq<Seq<char>>)
    ensures
        ({
            let wanted = chars::trimmed(configured);
            let font = chosen_font(configured, files);
            &&& font is Some ==> files.contains(font->Some_0)
            &&& wanted.len() > 0 && font is Some ==> font->Some_0 == wanted
            &&& wanted.len() > 0 && files.contains(wanted) ==> font is Some
            &&& wanted.len() == 0 && font is Some ==> exists|i: int|
                0 <= i < 7 && #[trigger] CANDIDATES@[i]@ == font->Some_0 && forall|k: int|
                    0 <= k < i ==> !files.contains(#[trigger] CANDIDATES@[k]@)
            &&& wanted.len() == 0 && font is None ==> forall|k: int|
                0 <= k < 7 ==> !files.contains(#[trigger] CANDIDATES@[k]@)
        }),
{
    lemma_first_present(candidates(), files, 0);
    assert forall|k: int| 0 <= k < 7 implies #[trigger] CANDIDATES@[k]@ == candidates()[k] by {}
    if chars::trimmed(configured).len() == 0 {
        match chosen_font(configured, files) {
            Some(path) => {
                let i = choose|i: int|
                    0 <= i < candidates().len() && #[trigger] candidates()[i] == path
                        && files.contains(path) && forall|k: int|
                        0 <= k < i ==> !files.contains(#[trigger] candidates()[k]);
                assert(CANDIDATES@[i]@ == path);
            },
            None => {},
        }
    }
}

} // verus!
