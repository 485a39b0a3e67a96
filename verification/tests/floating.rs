use cusk::floating::{self, is_released, ResizeEdge as E, ResizeGrab};
use cusk::number::Number;
use cusk::utils::{Point, Rectangle, Size};

fn number(x: f64) -> Number {
    Number { bits: x.to_bits() }
}

fn nearest_edge(rect: Rectangle, at: (f64, f64)) -> E {
    let relative = (number(at.0 - rect.loc.x as f64), number(at.1 - rect.loc.y as f64));
    floating::nearest_edge(relative, rect.size)
}

fn rect(x: i32, y: i32, w: i32, h: i32) -> Rectangle {
    Rectangle::new(Point { x, y }, Size { w, h })
}

#[test]
fn quadrants_map_to_corners() {
    let r = rect(100, 100, 200, 100);
    assert_eq!(nearest_edge(r, (110.0, 110.0)), E::TopLeft);
    assert_eq!(nearest_edge(r, (290.0, 110.0)), E::TopRight);
    assert_eq!(nearest_edge(r, (110.0, 190.0)), E::BottomLeft);
    assert_eq!(nearest_edge(r, (290.0, 190.0)), E::BottomRight);
}

#[test]
fn quadrants_are_relative_to_the_window() {
    let r = rect(1000, 500, 200, 100);
    assert_eq!(nearest_edge(r, (1010.0, 510.0)), E::TopLeft);
    assert_eq!(nearest_edge(r, (1190.0, 590.0)), E::BottomRight);
}

fn grab(edges: E) -> ResizeGrab {
    let initial_rect = rect(100, 100, 300, 200);
    ResizeGrab { edges, initial_rect, last_requested: initial_rect.size }
}

#[test]
fn dragging_a_far_edge_keeps_the_place() {
    assert_eq!(grab(E::BottomRight).motion(20, 30), (rect(100, 100, 320, 230), true));
    assert_eq!(grab(E::Bottom).motion(20, 30), (rect(100, 100, 300, 230), true));
    assert_eq!(grab(E::Nothing).motion(20, 30), (rect(100, 100, 300, 200), false));
}

#[test]
fn dragging_a_near_edge_keeps_the_far_one() {
    assert_eq!(grab(E::TopLeft).motion(20, 30), (rect(120, 130, 280, 170), true));
    let (small, _) = grab(E::TopLeft).motion(10_000, 10_000);
    assert_eq!(small, rect(280, 240, 120, 60));
}

#[test]
fn a_size_is_asked_for_once() {
    let mut grab = grab(E::Right);
    assert!(grab.motion(5, 0).1);
    assert!(!grab.motion(5, 9).1, "the same size again");
    assert!(grab.motion(6, 9).1);
}

#[test]
fn a_grab_ends_with_its_own_button() {
    assert!(is_released(&[], 0x110));
    assert!(is_released(&[0x111], 0x110));
    assert!(!is_released(&[0x111, 0x110], 0x110));
}
