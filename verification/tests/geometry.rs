use cusk::geometry::FloatingGeometry;
use cusk::utils::{Point, Rectangle, Size};

fn rect(x: i32, y: i32, w: i32, h: i32) -> Rectangle {
    Rectangle::new(Point { x: x, y: y }, Size { w: w, h: h })
}

#[test]
fn nothing_is_remembered_until_something_is_recorded() {
    assert_eq!(FloatingGeometry::default().recall(), None);
}

#[test]
fn the_most_recent_floating_rectangle_wins() {
    let mut g = FloatingGeometry::default();
    g.remember(rect(10, 10, 100, 100));
    g.remember(rect(50, 60, 300, 200));
    assert_eq!(g.recall(), Some(rect(50, 60, 300, 200)));
}

#[test]
fn displacement_freezes_the_remembered_rectangle() {
    let mut g = FloatingGeometry::default();
    let floating = rect(137, 42, 640, 480);
    g.remember(floating);

    g.set_displaced(true);
    g.remember(rect(0, 0, 1920, 1080)); // maximised — must not stick
    assert_eq!(g.recall(), Some(floating));

    g.set_displaced(false);
    assert_eq!(g.recall(), Some(floating), "restoring must return the original");
}

#[test]
fn recording_resumes_once_restored() {
    let mut g = FloatingGeometry::default();
    g.remember(rect(0, 0, 100, 100));
    g.set_displaced(true);
    g.remember(rect(0, 0, 1920, 1080));
    g.set_displaced(false);
    g.remember(rect(300, 300, 200, 200));
    assert_eq!(g.recall(), Some(rect(300, 300, 200, 200)));
}

#[test]
fn an_uncommitted_window_is_not_remembered() {
    let mut g = FloatingGeometry::default();
    g.remember(rect(0, 0, 0, 0));
    assert_eq!(g.recall(), None, "0x0 would restore to an invisible window");
}

#[test]
fn a_zero_size_does_not_clobber_a_real_one() {
    let mut g = FloatingGeometry::default();
    g.remember(rect(10, 10, 400, 300));
    g.remember(rect(0, 0, 0, 0));
    assert_eq!(g.recall(), Some(rect(10, 10, 400, 300)));
}

#[test]
fn a_window_starts_undisplaced_and_unexempt() {
    let g = FloatingGeometry::default();
    assert!(!g.displaced());
    assert!(!g.exempt(), "windows tile by default; exemption is opt-in");
}

#[test]
fn exemption_and_displacement_are_independent() {
    let mut g = FloatingGeometry::default();
    g.set_exempt(true);
    assert!(!g.displaced());
    g.set_displaced(true);
    assert!(g.exempt(), "displacing must not clear exemption");
}
