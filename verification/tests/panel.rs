use cusk::panel::{contains, full_span, panel_area, pill_at, pills, usable_area};
use cusk::utils::{Point, Size};

fn screen() -> Size {
    Size { w: 1280, h: 800 }
}

#[test]
fn the_panel_takes_its_height_off_the_top() {
    let usable = usable_area(screen(), 28);
    assert_eq!(usable.loc, Point { x: 0, y: 28 });
    assert_eq!(usable.size, Size { w: 1280, h: 772 });
}

#[test]
fn the_panel_and_the_usable_area_tile_the_output() {
    for height in [0, 1, 24, 28, 60] {
        let panel = panel_area(screen(), height, full_span(screen()));
        let usable = usable_area(screen(), height);
        assert_eq!(panel.size.h + usable.size.h, 800, "height {height}");
        assert_eq!(panel.loc.y + panel.size.h, usable.loc.y, "height {height}");
    }
}

#[test]
fn an_absurd_panel_height_still_leaves_somewhere_to_put_windows() {
    let usable = usable_area(screen(), 100_000);
    assert!(usable.size.w > 0 && usable.size.h > 0);
}

#[test]
fn there_is_one_pill_per_workspace() {
    assert_eq!(pills(screen(), 28, 4, 0).len(), 4);
    assert_eq!(pills(screen(), 28, 9, 3).len(), 9);
    assert!(pills(screen(), 28, 0, 0).is_empty());
}

#[test]
fn the_active_pill_is_wider_than_the_others() {
    let pills = pills(screen(), 28, 4, 2);
    assert!(pills[2].size.w > pills[0].size.w);
    assert_eq!(pills[0].size.w, pills[1].size.w);
    assert_eq!(pills[1].size.w, pills[3].size.w);
}

#[test]
fn pills_never_overlap_and_run_left_to_right() {
    for active in 0..6 {
        let pills = pills(screen(), 28, 6, active);
        for pair in pills.windows(2) {
            assert!(
                pair[0].loc.x + pair[0].size.w < pair[1].loc.x,
                "active {active}: {:?} touches {:?}",
                pair[0],
                pair[1]
            );
        }
    }
}

#[test]
fn pills_stay_inside_the_panel() {
    let height = 28;
    let panel = panel_area(screen(), height, full_span(screen()));
    for pill in pills(screen(), height, 5, 1) {
        assert!(panel.contains_rect(pill), "{pill:?} escapes {panel:?}");
    }
}

#[test]
fn a_screen_too_narrow_for_the_pills_gets_none() {
    let narrow = Size { w: 100, h: 800 };
    assert!(pills(narrow, 28, 9, 0).is_empty());
}

#[test]
fn a_click_finds_the_pill_it_is_inside() {
    let pills = pills(screen(), 28, 4, 0);
    for (index, pill) in pills.iter().enumerate() {
        let centre = Point { x: pill.loc.x + pill.size.w / 2, y: pill.loc.y + pill.size.h / 2 };
        assert_eq!(pill_at(&pills, centre), Some(index));
    }
}

#[test]
fn a_click_between_pills_hits_nothing() {
    let pills = pills(screen(), 28, 4, 0);
    let between = Point { x: pills[0].loc.x + pills[0].size.w + 2, y: 14 };
    assert_eq!(pill_at(&pills, between), None);
    assert_eq!(pill_at(&pills, Point { x: 900, y: 14 }), None, "empty panel");
}

#[test]
fn the_panel_owns_the_top_strip_and_nothing_below_it() {
    let all = full_span(screen());
    assert!(contains(screen(), 28, all, Point { x: 640, y: 0 }));
    assert!(contains(screen(), 28, all, Point { x: 640, y: 27 }));
    assert!(!contains(screen(), 28, all, Point { x: 640, y: 28 }));
    assert!(!contains(screen(), 0, all, Point { x: 640, y: 0 }), "disabled owns nothing");

    // The strip a dock has reserved is the dock's, including the corner.
    let beside_dock = (0, 1224);
    assert!(contains(screen(), 28, beside_dock, Point { x: 640, y: 10 }));
    assert!(
        !contains(screen(), 28, beside_dock, Point { x: 1250, y: 10 }),
        "the panel must not own the dock's corner, or its top icon is unclickable"
    );
}
