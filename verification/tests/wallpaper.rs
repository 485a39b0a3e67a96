use cusk::wallpaper::{blur, blurred_from, box_pass, crop, load_scaled, scaled_to, Axis, Image};

fn solid(w: u32, h: u32, colour: [u8; 4]) -> Image {
    Image::new(w, h, colour.iter().copied().cycle().take((w * h * 4) as usize).collect())
}

#[test]
fn a_uniform_image_is_unchanged_by_blur() {
    let image = solid(16, 16, [80, 120, 200, 255]);
    assert_eq!(blur(&image, 4, 3), image);
}

#[test]
fn edges_do_not_darken() {
    let image = solid(12, 12, [200, 200, 200, 255]);
    let blurred = blur(&image, 3, 2);
    for (x, y) in [(0, 0), (11, 0), (0, 11), (11, 11), (5, 0), (0, 5)] {
        assert_eq!(
            blurred.pixel(x, y),
            [200, 200, 200, 255],
            "corner/edge ({x},{y}) darkened"
        );
    }
}

#[test]
fn blur_preserves_dimensions() {
    let image = solid(23, 7, [10, 20, 30, 255]);
    let blurred = blur(&image, 5, 3);
    assert_eq!((blurred.width, blurred.height), (23, 7));
    assert_eq!(blurred.data.len(), image.data.len());
}

#[test]
fn an_impulse_spreads() {
    let mut image = solid(21, 21, [0, 0, 0, 255]);
    let centre = image.index(10, 10);
    image.data[centre] = 255;

    let blurred = blur(&image, 3, 1);
    assert!(blurred.pixel(10, 10)[0] < 255, "the peak must fall");
    assert!(blurred.pixel(11, 10)[0] > 0, "light must reach the neighbour");
    assert!(blurred.pixel(10, 11)[0] > 0, "and vertically too");
    assert_eq!(blurred.pixel(0, 0)[0], 0, "but not across the whole image");
}

#[test]
fn more_passes_blur_further() {
    let mut image = solid(41, 41, [0, 0, 0, 255]);
    let centre = image.index(20, 20);
    image.data[centre] = 255;

    let once = blur(&image, 3, 1);
    let thrice = blur(&image, 3, 3);
    assert!(
        thrice.pixel(20, 20)[0] <= once.pixel(20, 20)[0],
        "three passes must not leave a sharper peak than one"
    );
    assert!(
        thrice.pixel(26, 20)[0] >= once.pixel(26, 20)[0],
        "three passes must reach further out"
    );
}

#[test]
fn a_zero_radius_is_a_no_op() {
    let image = solid(8, 8, [1, 2, 3, 4]);
    assert_eq!(blur(&image, 0, 3), image);
    assert_eq!(blur(&image, 5, 0), image);
}

#[test]
fn a_radius_larger_than_the_image_is_safe() {
    let image = solid(4, 4, [100, 100, 100, 255]);
    assert_eq!(blur(&image, 50, 2), image);
}

#[test]
fn the_sharp_and_blurred_images_are_the_same_size() {
    // A deliberately wrong aspect ratio, so the crop has work to do, and
    // high-frequency detail so the blur has something to remove.
    let source = image::RgbaImage::from_fn(400, 100, |x, y| {
        let v = if (x / 3 + y / 3) % 2 == 0 { 255 } else { 20 };
        image::Rgba([v, 60, 120, 255])
    });
    let source = Image::new(400, 100, source.into_raw());
    let sharp = load_scaled(&source, (133, 0, 133, 100), (320, 240));
    assert_eq!((sharp.width, sharp.height), (320, 240));

    let blurred = blurred_from(&sharp, 16, 3);
    assert_eq!((blurred.width, blurred.height), (320, 240));
    assert_eq!(sharp.data.len(), blurred.data.len());
    assert_ne!(blurred.data, sharp.data, "a detailed image must actually change");
}


#[test]
fn a_box_is_the_mean_of_its_window() {
    let mut image = solid(5, 1, [0, 0, 0, 255]);
    image.data[2 * 4] = 90;
    let passed = box_pass(&image, 1, Axis::Horizontal);
    let reds: Vec<u8> = (0..5).map(|x| passed.pixel(x, 0)[0]).collect();
    assert_eq!(reds, vec![0, 30, 30, 30, 0]);
    assert_eq!(box_pass(&image, 1, Axis::Vertical), image);
}

#[test]
fn scaling_takes_the_part_it_is_given() {
    let mut source = solid(4, 2, [10, 10, 10, 255]);
    for y in 0..2 {
        for x in 2..4 {
            let at = source.index(x, y);
            source.data[at..at + 3].copy_from_slice(&[200, 100, 50]);
        }
    }
    let right = load_scaled(&source, (2, 0, 2, 2), (3, 3));
    assert_eq!((right.width, right.height), (3, 3));
    for chunk in right.data.chunks(4) {
        assert_eq!(chunk, [200, 100, 50, 255]);
    }
    let left = load_scaled(&source, (0, 0, 2, 2), (0, 1));
    assert_eq!((left.width, left.height), (1, 1));
    assert_eq!(left.pixel(0, 0), [10, 10, 10, 255]);
}

#[test]
fn a_short_buffer_is_handed_back_unblurred() {
    let short = Image { data: vec![1, 2, 3, 4], width: 4, height: 4 };
    assert_eq!(blurred_from(&short, 4, 2), short);
}

#[test]
fn a_blurred_image_keeps_a_uniform_colour() {
    let image = solid(20, 10, [12, 34, 56, 255]);
    assert_eq!(blurred_from(&image, 6, 2), image);
}

#[test]
fn a_part_is_cut_down_to_the_image() {
    let data: Vec<u8> = (0..3 * 2 * 4).collect();
    let source = Image::new(3, 2, data);
    let part = crop(&source, (1, 1, 5, 5));
    assert_eq!((part.width, part.height), (2, 1));
    assert_eq!(part.data, (16..24).collect::<Vec<u8>>());
    assert_eq!(crop(&source, (0, 0, 3, 2)), source);
    assert_eq!(crop(&source, (2, 0, 1, 2)).data, vec![8, 9, 10, 11, 20, 21, 22, 23]);
    let nothing = crop(&source, (3, 0, 2, 2));
    assert_eq!((nothing.width, nothing.height, nothing.data.len()), (0, 2, 0));
    let full = image::RgbaImage::from_raw(3, 2, source.data.clone()).unwrap();
    for part in [(0, 0, 2, 2), (1, 0, 9, 1), (2, 1, 1, 1), (0, 1, 3, 1)] {
        let wanted = image::imageops::crop_imm(&full, part.0, part.1, part.2, part.3).to_image();
        assert_eq!(crop(&source, part).data, wanted.into_raw());
    }
}

#[test]
fn a_part_that_has_the_size_of_the_output_is_not_touched() {
    let data: Vec<u8> = (0..4 * 3 * 4).collect();
    let source = Image::new(4, 3, data);
    assert_eq!(load_scaled(&source, (1, 0, 2, 3), (2, 3)), crop(&source, (1, 0, 2, 3)));
    assert_eq!(load_scaled(&source, (4, 0, 1, 3), (2, 1)).data, vec![0; 8]);
    assert_eq!(scaled_to((0, 1), vec![1, 2, 3, 4]), Image::new(1, 1, vec![1, 2, 3, 4]));
}
