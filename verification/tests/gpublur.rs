use cusk::gpublur::{half_size, GpuBlur, Spread};
use cusk::number::Number;
use cusk::utils::{Point, Rectangle, Size};

struct Part {
    loc: (f64, f64),
    size: (f64, f64),
}

fn value(n: Number) -> f64 {
    f64::from_bits(n.bits)
}

fn half_src(rect: Rectangle) -> Part {
    let (loc, size) = GpuBlur::half_src(rect);
    Part { loc: (value(loc.0), value(loc.1)), size: (value(size.0), value(size.1)) }
}

fn rect(x: i32, y: i32, w: i32, h: i32) -> Rectangle {
    Rectangle::new(Point { x: x, y: y }, Size { w: w, h: h })
}

#[test]
fn a_screen_rect_maps_to_half_coordinates() {
    let src = half_src(rect(200, 100, 400, 300));
    assert_eq!(src.loc.0, 100.0);
    assert_eq!(src.loc.1, 50.0);
    assert_eq!(src.size.0, 200.0);
    assert_eq!(src.size.1, 150.0);
}

#[test]
fn odd_coordinates_keep_their_half_pixel() {
    let src = half_src(rect(41, 0, 101, 0));
    assert_eq!(src.loc.0, 20.5);
    assert_eq!(src.size.0, 50.5);
}

#[test]
fn the_origin_maps_to_the_origin() {
    let src = half_src(rect(0, 0, 1920, 1080));
    assert_eq!((src.loc.0, src.loc.1), (0.0, 0.0));
    assert_eq!((src.size.0, src.size.1), (960.0, 540.0));
}

#[test]
fn half_a_size_is_never_nothing() {
    assert_eq!(half_size(Size { w: 1920, h: 1080 }), Size { w: 960, h: 540 });
    assert_eq!(half_size(Size { w: 1, h: 0 }), Size { w: 1, h: 1 });
}

#[test]
fn each_pass_spreads_further_than_the_one_before() {
    let spreads = GpuBlur::blur_scene(12, 3);
    assert_eq!(spreads.len(), 3);
    let values: Vec<f64> = spreads.iter().map(|s| s.over as f64 / s.under as f64).collect();
    assert_eq!(values, vec![2.0, 4.0, 6.0]);
    let one: Spread = GpuBlur::blur_scene(8, 1)[0];
    assert_eq!(one.over as f64 / one.under as f64, 4.0);
}

#[test]
fn buffers_are_made_once_for_a_size() {
    let size = Size { w: 100, h: 50 };
    let mut blur = GpuBlur::new(true);
    assert_eq!(blur.wants(size), Some((size, Size { w: 50, h: 25 })));
    blur.allocated(size, true, true, true);
    assert_eq!(blur.wants(size), None);
    assert!(blur.begin(true));
    assert!(blur.wants(Size { w: 101, h: 50 }).is_some());
    assert!(!GpuBlur::new(false).begin(true));
}

#[test]
fn a_scene_that_is_not_put_back_is_made_again() {
    let size = Size { w: 100, h: 50 };
    let mut blur = GpuBlur::new(true);
    blur.allocated(size, true, true, true);
    assert!(blur.take_scene());
    assert!(!blur.take_scene());
    assert!(!blur.scaled_down(true), "there is no scene to scale down");
    assert!(blur.wants(size).is_some());
    blur.put_scene();
    assert_eq!(blur.wants(size), None);
}

#[test]
fn a_pass_that_goes_wrong_loses_its_buffers() {
    let size = Size { w: 100, h: 50 };
    let mut blur = GpuBlur::new(true);
    blur.allocated(size, true, true, true);
    let whole = blur;
    assert!(blur.scaled_down(true));
    assert!(blur.passed(true));
    assert_eq!(blur, whole);
    assert!(!blur.passed(false));
    assert_eq!((blur.scene, blur.ping, blur.pong), (true, false, false));
    assert!(!blur.passed(true));
    assert!(!blur.scaled_down(true));

    let mut blur = GpuBlur::new(true);
    blur.allocated(size, true, true, false);
    assert!(!blur.passed(true), "there is nothing to draw into");
    assert!(!blur.ping);

    let mut blur = whole;
    assert!(!blur.scaled_down(false));
    assert_eq!((blur.scene, blur.ping, blur.pong), (true, false, true));
}
