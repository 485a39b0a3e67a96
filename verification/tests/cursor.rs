use cusk::cursor::{arrow, Cursor};

fn alpha_at(cursor: &Cursor, x: u32, y: u32) -> u8 {
    cursor.image.pixel(x, y)[3]
}

#[test]
fn the_arrow_is_the_size_asked_for() {
    let c = arrow(24);
    assert_eq!((c.image.width, c.image.height), (24, 24));
    assert_eq!(c.image.data.len(), 24 * 24 * 4);
}

#[test]
fn the_hotspot_is_the_tip_and_the_tip_is_drawn() {
    let c = arrow(24);
    assert_eq!(c.hotspot, (0, 0));
    assert!(alpha_at(&c, 0, 0) > 0, "nothing drawn at the hotspot");
    assert!(alpha_at(&c, 1, 1) > 0, "the tip should be solid");
}

#[test]
fn the_arrow_is_neither_empty_nor_a_block() {
    let c = arrow(24);
    let opaque = c.image.data.chunks(4).filter(|p| p[3] > 0).count();
    let total = (c.image.width * c.image.height) as usize;
    assert!(opaque > total / 12, "too little drawn: {opaque}/{total}");
    assert!(opaque < total * 3 / 4, "too much drawn: {opaque}/{total}");
}

#[test]
fn the_far_corner_is_transparent() {
    let c = arrow(24);
    assert_eq!(alpha_at(&c, 23, 0), 0, "top right must be empty");
    assert_eq!(alpha_at(&c, 23, 23), 0, "bottom right must be empty");
}

#[test]
fn the_arrow_has_a_white_body_and_a_dark_outline() {
    let c = arrow(32);
    let mut white = 0;
    let mut dark = 0;
    for p in c.image.data.chunks(4) {
        if p[3] == 0 {
            continue;
        }
        if p[0] > 200 {
            white += 1;
        } else if p[0] < 60 {
            dark += 1;
        }
    }
    assert!(white > 0, "no body");
    assert!(dark > 0, "no outline");
}

#[test]
fn colours_are_premultiplied() {
    let c = arrow(24);
    for p in c.image.data.chunks(4) {
        assert!(
            p[0] <= p[3] && p[1] <= p[3] && p[2] <= p[3],
            "channel exceeds alpha: {p:?}"
        );
    }
}

#[test]
fn every_reasonable_size_produces_a_usable_arrow() {
    for size in [8, 16, 24, 32, 48, 64, 96, 128] {
        let c = arrow(size);
        assert_eq!(c.image.width, size);
        assert!(
            c.image.data.chunks(4).any(|p| p[3] > 0),
            "size {size} drew nothing"
        );
        assert!(alpha_at(&c, 0, 0) > 0, "size {size} has no tip");
    }
}

#[test]
fn absurd_sizes_are_clamped_rather_than_trusted() {
    assert_eq!(arrow(0).image.width, 8);
    assert_eq!(arrow(100_000).image.width, 128);
}
