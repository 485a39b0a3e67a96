use cusk::text::{font_files, rasterise, truncate, Face, Glyph, Line, CANDIDATES};
use cusk::wallpaper::Image;

// A font whose every letter is a box of half its size in width, in lines one
// and a quarter sizes high.
fn advance(px: f32) -> i32 {
    (px / 2.0) as i32
}

fn line_height(px: f32) -> i32 {
    (px * 1.25) as i32
}

fn measure(text: &str, px: f32) -> i32 {
    text.chars().count() as i32 * advance(px)
}

fn truncated(text: &str, px: f32, max_width: i32) -> String {
    let widths: Vec<i32> = (1..=text.chars().count())
        .map(|n| measure(&text.chars().take(n).collect::<String>(), px) + measure("…", px))
        .collect();
    truncate(text, measure(text, px), measure("…", px), &widths, max_width)
}

fn glyphs(text: &str, px: f32) -> Vec<Glyph> {
    let side = advance(px) as usize - 2;
    let mut list = Vec::new();
    for (i, letter) in text.chars().enumerate() {
        if letter != ' ' {
            let below = if letter == 'g' { -3 } else { 0 };
            let mut coverage = vec![255; side * side];
            coverage[0] = 100;
            list.push(Glyph {
                pen: i as i32 * advance(px),
                xmin: 1,
                ymin: below,
                width: side,
                height: side,
                coverage,
            });
        }
    }
    list
}

fn shades(colour: [f32; 4]) -> Vec<[u8; 4]> {
    (0..=255u32)
        .map(|coverage| {
            let a = colour[3] * coverage as f32 / 255.0;
            [
                (colour[0] * a * 255.0) as u8,
                (colour[1] * a * 255.0) as u8,
                (colour[2] * a * 255.0) as u8,
                (a * 255.0) as u8,
            ]
        })
        .collect()
}

fn render(text: &str, px: f32, colour: [f32; 4]) -> Option<Image> {
    rasterise(&glyphs(text, px), measure(text, px), line_height(px), px as i32, &shades(colour))
}

fn find_font(configured: &str) -> Option<String> {
    let files = [CANDIDATES[3].to_string(), CANDIDATES[1].to_string(), "/home/me/mine.ttf".to_string()];
    cusk::text::find_font(configured, &files)
}

#[test]
fn a_font_is_found_on_this_system() {
    assert!(find_font("").is_some(), "no candidate font exists");
}

#[test]
fn a_configured_font_that_is_missing_is_not_replaced() {
    assert_eq!(find_font("/nonexistent/font.ttf"), None);
}

#[test]
fn an_empty_setting_falls_back_to_the_system() {
    assert!(find_font("   ").is_some());
}

#[test]
fn text_that_fits_is_not_truncated() {
    let text = "Terminal";
    let width = measure(text, 14.0);
    assert_eq!(truncated(text, 14.0, width + 10), text);
}

#[test]
fn truncated_text_fits_the_budget() {
    let text = "A window title that is far too long for the space available";
    for budget in [40, 80, 160, 300] {
        let cut = truncated(text, 14.0, budget);
        assert!(
            measure(&cut, 14.0) <= budget,
            "{budget}px budget produced {:?} at {}px",
            cut,
            measure(&cut, 14.0)
        );
        assert!(cut.chars().count() < text.chars().count());
    }
}

#[test]
fn a_budget_too_small_for_anything_yields_nothing() {
    assert_eq!(truncated("something", 14.0, 0), "");
    assert_eq!(truncated("something", 14.0, -5), "");
}

#[test]
fn rendering_produces_an_image_of_the_measured_size() {
    let image = render("Hello", 16.0, [1.0, 1.0, 1.0, 1.0]);
    let image = image.expect("visible text should rasterise");
    assert_eq!(image.width as i32, measure("Hello", 16.0));
    assert_eq!(image.height as i32, line_height(16.0));
    assert_eq!(image.data.len(), (image.width * image.height * 4) as usize);
}

#[test]
fn rendered_text_has_ink_but_is_not_a_block() {
    let image = render("Hello", 20.0, [1.0, 1.0, 1.0, 1.0]).unwrap();
    let inked = image.data.chunks(4).filter(|p| p[3] > 0).count();
    let total = (image.width * image.height) as usize;
    assert!(inked > 0, "nothing drawn");
    assert!(inked < total, "everything drawn");
}

#[test]
fn rendered_text_is_premultiplied() {
    let image = render("Wg", 18.0, [1.0, 1.0, 1.0, 1.0]).unwrap();
    for p in image.data.chunks(4) {
        assert!(p[0] <= p[3] && p[1] <= p[3] && p[2] <= p[3], "{p:?}");
    }
}

#[test]
fn descenders_sit_below_the_baseline_of_round_letters() {
    let lowest = |text: &str| -> u32 {
        let image = render(text, 40.0, [1.0, 1.0, 1.0, 1.0]).unwrap();
        let mut lowest = 0;
        for y in 0..image.height {
            for x in 0..image.width {
                if image.pixel(x, y)[3] > 0 {
                    lowest = lowest.max(y);
                }
            }
        }
        lowest
    };
    assert!(lowest("g") > lowest("o"), "a descender must reach below a round letter");
}

#[test]
fn nothing_visible_renders_to_nothing() {
    assert!(render("", 16.0, [1.0; 4]).is_none());
    assert!(render("   ", 16.0, [1.0; 4]).is_none());
}

fn rendered(face: &mut Face, text: &str, px: f32) -> Option<Image> {
    let size = px.to_bits();
    let colour = [1.0f32.to_bits(); 4];
    if face.find(text, size, colour).is_none() {
        let image = render(text, px, [1.0; 4]);
        face.keep(Line { text: text.to_string(), size, colour, image });
    }
    let found = face.find(text, size, colour).expect("a kept line is found");
    face.image(found).cloned()
}

#[test]
fn the_cache_returns_a_matching_image() {
    let mut face = Face::new();
    let first = rendered(&mut face, "cached", 16.0).unwrap();
    let second = rendered(&mut face, "cached", 16.0).unwrap();
    assert_eq!(first, second);
}

#[test]
fn a_kept_line_is_found_by_its_text_size_and_colour() {
    let white = [1.0f32.to_bits(); 4];
    let red = [1.0f32.to_bits(), 0, 0, 1.0f32.to_bits()];
    let mut face = Face::new();
    rendered(&mut face, "one", 16.0);
    rendered(&mut face, "two", 16.0);
    rendered(&mut face, "one", 18.0);
    assert_eq!(face.find("one", 16.0f32.to_bits(), white), Some(0));
    assert_eq!(face.find("two", 16.0f32.to_bits(), white), Some(1));
    assert_eq!(face.find("one", 18.0f32.to_bits(), white), Some(2));
    assert_eq!(face.find("two", 18.0f32.to_bits(), white), None);
    assert_eq!(face.find("one", 16.0f32.to_bits(), red), None);
    let size = 16.0f32.to_bits();
    let image = render("one", 16.0, [1.0, 0.0, 0.0, 1.0]);
    face.keep(Line { text: "one".to_string(), size, colour: red, image: image.clone() });
    assert_eq!(face.find("one", size, white), Some(0));
    assert_eq!(face.find("one", size, red), Some(3));
    assert_eq!(face.image(3), image.as_ref());
    assert_ne!(face.image(0), face.image(3));
}

#[test]
fn the_first_candidate_that_is_there_is_taken() {
    assert_eq!(find_font(""), Some(CANDIDATES[1].to_string()));
    assert_eq!(find_font(" /home/me/mine.ttf "), Some("/home/me/mine.ttf".to_string()));
    assert_eq!(font_files("").len(), 7);
    assert_eq!(font_files("/a.ttf"), vec!["/a.ttf".to_string()]);
}

#[test]
fn a_cut_keeps_as_much_as_fits_before_the_mark() {
    assert_eq!(truncated("abcdef", 10.0, 20), "abc…");
    assert_eq!(truncated("abcdef", 10.0, 29), "abcd…");
    assert_eq!(truncated("abcdef", 10.0, 30), "abcdef");
    assert_eq!(truncated("abcdef", 10.0, 5), "…");
    assert_eq!(truncated("abcdef", 10.0, 4), "");
}

#[test]
fn a_pixel_of_a_letter_has_the_shade_of_its_coverage() {
    let glyph = Glyph { pen: 1, xmin: 0, ymin: 0, width: 1, height: 2, coverage: vec![255, 128] };
    let image = rasterise(&vec![glyph], 3, 4, 3, &shades([1.0, 0.5, 0.0, 1.0])).unwrap();
    assert_eq!(image.pixel(1, 1), [255, 127, 0, 255]);
    assert_eq!(image.pixel(1, 2), [128, 64, 0, 128]);
    assert_eq!(image.pixel(0, 1), [0, 0, 0, 0]);
    assert_eq!(image.pixel(1, 3), [0, 0, 0, 0]);
}
