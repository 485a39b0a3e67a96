use cusk::chrome::{clamp_radius, corner_patches, ring_band};
use cusk::utils::{Point, Rectangle, Size};

fn rect(x: i32, y: i32, w: i32, h: i32) -> Rectangle {
    Rectangle::new(Point { x: x, y: y }, Size { w: w, h: h })
}

#[test]
fn the_patches_sit_in_the_four_corners() {
    let patches = corner_patches(rect(100, 200, 400, 300), 12);
    let corners: Vec<(i32, i32)> = patches.iter().map(|p| (p.rect.loc.x, p.rect.loc.y)).collect();
    assert_eq!(corners, vec![(100, 200), (488, 200), (100, 488), (488, 488)]);
    for patch in patches {
        let patch = patch.rect;
        assert_eq!((patch.size.w, patch.size.h), (12, 12));
    }
}

#[test]
fn each_arc_is_one_radius_inside_its_corner() {
    let r = 16;
    let window = rect(0, 0, 200, 100);
    for corner in corner_patches(window, r) {
        let (patch, arc) = (corner.rect, corner.arc);
        let nearest_x = if patch.loc.x == window.loc.x { window.loc.x } else { window.loc.x + window.size.w };
        let nearest_y = if patch.loc.y == window.loc.y { window.loc.y } else { window.loc.y + window.size.h };
        assert_eq!((arc.x - nearest_x).abs(), r, "arc x for patch at {:?}", patch.loc);
        assert_eq!((arc.y - nearest_y).abs(), r, "arc y for patch at {:?}", patch.loc);
    }
}

#[test]
fn patches_stay_within_the_window() {
    let window = rect(30, 40, 300, 200);
    for patch in corner_patches(window, 20) {
        let patch = patch.rect;
        assert!(window.contains_rect(patch), "{patch:?} escapes {window:?}");
    }
}

#[test]
fn a_radius_of_half_the_window_still_tiles_the_corners() {
    let window = rect(0, 0, 40, 40);
    let patches = corner_patches(window, 20);
    for patch in patches {
        let patch = patch.rect;
        assert!(window.contains_rect(patch));
    }
}

#[test]
fn a_radius_is_kept_to_half_the_shorter_side() {
    assert_eq!(clamp_radius(12, Size { w: 400, h: 300 }), 12);
    assert_eq!(clamp_radius(500, Size { w: 400, h: 300 }), 150);
    assert_eq!(clamp_radius(500, Size { w: 41, h: 300 }), 20);
    assert_eq!(clamp_radius(12, Size { w: 0, h: 300 }), 0);
    assert_eq!(clamp_radius(-3, Size { w: 400, h: 300 }), 0);
}

#[test]
fn clamped_patches_do_not_overlap() {
    let window = rect(10, 10, 30, 20);
    let patches = corner_patches(window, clamp_radius(99, window.size));
    for (i, a) in patches.iter().enumerate() {
        for b in &patches[i + 1..] {
            assert!(!a.rect.overlaps(b.rect), "{a:?} overlaps {b:?}");
        }
    }
}

#[test]
fn the_ring_is_one_width_around_the_window() {
    assert_eq!(ring_band(rect(10, 20, 30, 40), 2), rect(8, 18, 34, 44));
}
