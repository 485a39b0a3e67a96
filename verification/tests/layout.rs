use cusk::layout::{self, divider_at, index_at, step, Gaps, Layout, MIN_MASTER};
use cusk::number::Number;
use cusk::utils::{Point, Rectangle, Size};

fn number(x: f64) -> Number {
    Number { bits: x.to_bits() }
}

fn value(n: Number) -> f64 {
    f64::from_bits(n.bits)
}

fn master_stack(ratio: f64) -> Layout {
    Layout::MasterStack { ratio: number(ratio) }
}

fn arrange(layout: Layout, area: Rectangle, n: usize, gaps: Gaps) -> Vec<Rectangle> {
    let wanted = match layout {
        Layout::MasterStack { ratio } => {
            (Layout::divisible_width(area, gaps) as f64 * value(ratio)).round() as i32
        }
        Layout::Columns => 0,
    };
    layout.arrange(area, n, gaps, wanted)
}

fn widen(layout: Layout, by: f64) -> Layout {
    match layout {
        Layout::MasterStack { ratio } => layout.widen(number(value(ratio) + by)),
        Layout::Columns => layout.widen(number(by)),
    }
}

fn ratio_at(area: Rectangle, x: i32, gaps: Gaps) -> f64 {
    let quotient = divider_at(area, x, gaps).map(|(over, under)| number(over as f64 / under as f64));
    value(layout::ratio_at(quotient))
}

fn screen() -> Rectangle {
    Rectangle::new(Point { x: 0, y: 0 }, Size { w: 1920, h: 1080 })
}

fn no_gaps() -> Gaps {
    Gaps { inner: 0, outer: 0 }
}

#[test]
fn no_windows_no_rectangles() {
    assert!(arrange(Layout::default(), screen(), 0, Gaps::default()).is_empty());
}

#[test]
fn every_window_gets_exactly_one_rectangle() {
    for n in 1..=12 {
        for layout in [Layout::default(), Layout::Columns] {
            assert_eq!(
                arrange(layout, screen(), n, Gaps::default()).len(),
                n,
                "{} with {n} windows",
                layout.name()
            );
        }
    }
}

#[test]
fn a_single_window_fills_the_area() {
    let r = arrange(Layout::default(), screen(), 1, no_gaps());
    assert_eq!(r[0], screen());
}

#[test]
fn master_takes_its_ratio_of_the_width() {
    let r = arrange(master_stack(0.6), screen(), 2, no_gaps());
    assert_eq!(r[0].size.w, 1152, "60% of 1920");
    assert_eq!(r[1].size.w, 768);
    assert_eq!(r[1].loc.x, 1152, "stack begins where master ends");
}

#[test]
fn the_stack_divides_the_remaining_height() {
    let r = arrange(master_stack(0.5), screen(), 4, no_gaps());
    assert_eq!(r[0].size.h, 1080, "master spans full height");
    for tile in &r[1..] {
        assert_eq!(tile.size.h, 360, "three stack tiles share 1080");
    }
}

#[test]
fn tiles_never_overlap() {
    for n in 1..=8 {
        for layout in [
            master_stack(0.6),
            master_stack(0.3),
            Layout::Columns,
        ] {
            let tiles = arrange(layout, screen(), n, Gaps::default());
            for (i, a) in tiles.iter().enumerate() {
                for b in &tiles[i + 1..] {
                    assert!(
                        a.intersection(*b).is_none(),
                        "{} n={n}: {a:?} overlaps {b:?}",
                        layout.name()
                    );
                }
            }
        }
    }
}

#[test]
fn tiles_exactly_fill_the_area() {
    for n in 1..=7 {
        let tiles = arrange(Layout::Columns, screen(), n, no_gaps());
        let covered: i32 = tiles.iter().map(|t| t.size.w).sum();
        assert_eq!(covered, 1920, "columns n={n} left a gap");
        assert_eq!(tiles[0].loc.x, 0);
        let last = tiles.last().unwrap();
        assert_eq!(last.loc.x + last.size.w, 1920, "columns n={n} overshot");
    }
}

#[test]
fn remainder_pixels_are_spread_not_dumped() {
    let odd = Rectangle::new(Point { x: 0, y: 0 }, Size { w: 1001, h: 100 });
    let tiles = arrange(Layout::Columns, odd, 3, no_gaps());
    let widths: Vec<i32> = tiles.iter().map(|t| t.size.w).collect();
    assert_eq!(widths, vec![334, 334, 333]);
    assert_eq!(widths.iter().sum::<i32>(), 1001);
}

#[test]
fn gaps_inset_the_outside_and_separate_the_inside() {
    let gaps = Gaps { inner: 10, outer: 20 };
    let tiles = arrange(Layout::Columns, screen(), 2, gaps);
    assert_eq!(tiles[0].loc.x, 20, "outer gap on the left");
    assert_eq!(tiles[0].loc.y, 20, "outer gap on top");
    assert_eq!(tiles[0].size.h, 1040, "outer gap top and bottom");
    let gap = tiles[1].loc.x - (tiles[0].loc.x + tiles[0].size.w);
    assert_eq!(gap, 10, "inner gap between them");
    let last = tiles.last().unwrap();
    assert_eq!(last.loc.x + last.size.w, 1900, "outer gap on the right");
}

#[test]
fn overlap_and_minimum_hold_together() {
    let small = Rectangle::new(Point { x: 0, y: 0 }, Size { w: 640, h: 480 });
    for n in 1..=20 {
      for layout in [Layout::default(), Layout::Columns] {
        let tiles = arrange(layout, small, n, Gaps::default());
        for (i, a) in tiles.iter().enumerate() {
            for b in &tiles[i + 1..] {
                assert!(a.intersection(*b).is_none(), "n={n}: {a:?} overlaps {b:?}");
            }
        }
        for t in &tiles {
            assert!(t.size.w > 0 && t.size.h > 0, "n={n}: {t:?} is degenerate");
            assert!(
                t.loc.y + t.size.h <= 480 && t.loc.x + t.size.w <= 640,
                "n={n}: {t:?} escapes the screen"
            );
        }
      }
    }
}

#[test]
fn the_ratio_is_clamped_rather_than_wrapped() {
    let mut l = Layout::default();
    for _ in 0..20 {
        l = widen(l, 0.05);
    }
    assert_eq!(l, master_stack(0.9));
    for _ in 0..40 {
        l = widen(l, -0.05);
    }
    assert_eq!(l, master_stack(0.1));
}

#[test]
fn an_extreme_ratio_does_not_starve_the_stack() {
    for ratio in [0.1, 0.9] {
        let tiles = arrange(master_stack(ratio), screen(), 3, Gaps::default());
        for tile in tiles {
            assert!(tile.size.w >= MIN_MASTER, "ratio {ratio} gave {tile:?}");
        }
    }
}

#[test]
fn cycling_layouts_returns_to_the_start() {
    let start = Layout::default();
    assert_eq!(start.next().next(), start);
}

#[test]
fn a_point_lands_in_the_tile_that_contains_it() {
    let tiles = arrange(Layout::Columns, screen(), 3, no_gaps());
    assert_eq!(index_at(&tiles, Point { x: 10, y: 10 }), Some(0));
    assert_eq!(index_at(&tiles, Point { x: 700, y: 500 }), Some(1));
    assert_eq!(index_at(&tiles, Point { x: 1900, y: 900 }), Some(2));
}

#[test]
fn a_point_in_a_gap_belongs_to_no_tile() {
    let tiles = arrange(Layout::Columns, screen(), 2, Gaps { inner: 20, outer: 20 });
    let between = tiles[0].loc.x + tiles[0].size.w + 10;
    assert_eq!(index_at(&tiles, Point { x: between, y: 500 }), None);
    assert_eq!(index_at(&tiles, Point { x: 5, y: 500 }), None, "outer gap");
}

#[test]
fn dragging_the_divider_gives_the_matching_ratio() {
    let a = screen();
    assert!((ratio_at(a, 960, no_gaps()) - 0.5).abs() < 0.01);
    assert!((ratio_at(a, 1440, no_gaps()) - 0.75).abs() < 0.01);
}

#[test]
fn the_divider_cannot_be_dragged_past_the_edge() {
    let a = screen();
    assert_eq!(ratio_at(a, -500, no_gaps()), 0.1);
    assert_eq!(ratio_at(a, 5000, no_gaps()), 0.9);
}

#[test]
fn stepping_moves_one_place() {
    assert_eq!(step(4, 0, 1), 1);
    assert_eq!(step(4, 2, -1), 1);
}

#[test]
fn stepping_wraps_at_both_ends() {
    assert_eq!(step(4, 3, 1), 0, "past the end wraps to the start");
    assert_eq!(step(4, 0, -1), 3, "before the start wraps to the end");
}

#[test]
fn a_lone_window_stays_put() {
    assert_eq!(step(1, 0, 1), 0);
    assert_eq!(step(1, 0, -1), 0);
}

#[test]
fn stepping_an_empty_set_is_harmless() {
    assert_eq!(step(0, 0, 1), 0);
    assert_eq!(step(0, 0, -1), 0);
}

#[test]
fn any_step_yields_a_valid_index() {
    for len in 1..=6usize {
        for from in 0..len {
            for delta in -9isize..=9 {
                assert!(step(len, from, delta) < len, "len={len} from={from} d={delta}");
            }
        }
    }
}

#[test]
fn a_step_back_undoes_a_step() {
    for len in 1..=6usize {
        for from in 0..len {
            for delta in -9isize..=9 {
                assert_eq!(step(len, step(len, from, delta), -delta), from);
            }
        }
    }
}

#[test]
fn a_moved_divider_goes_back_to_the_default_when_cycling() {
    assert_eq!(Layout::Columns.next().next(), Layout::Columns);
    assert_eq!(master_stack(0.3).next().next(), Layout::default());
    assert_eq!(master_stack(0.3).name(), "master-stack");
}

#[test]
fn a_screen_without_width_has_no_divider() {
    let nowhere = Rectangle::new(Point { x: 0, y: 0 }, Size { w: 0, h: 0 });
    assert_eq!(divider_at(nowhere, 10, no_gaps()), None);
    assert_eq!(ratio_at(nowhere, 10, no_gaps()), 0.5);
    assert_eq!(divider_at(screen(), 960, no_gaps()), Some((960, 1920)));
}

#[test]
fn a_layout_that_no_coordinate_can_hold_does_not_fit() {
    let none = Gaps { inner: 0, outer: 0 };
    for layout in [master_stack(0.5), Layout::Columns] {
        assert!(layout.fits(screen(), 5, Gaps { inner: 8, outer: 8 }, 900));
        assert!(layout.fits(screen(), 1, none, 900));
        assert!(layout.fits(screen(), 5000, none, 900));
        let far = Rectangle::new(Point { x: i32::MAX, y: 0 }, Size { w: 1920, h: 1080 });
        assert!(layout.fits(far, 0, none, 900));
        assert!(layout.fits(far, 1, none, 900));
        assert!(!layout.fits(far, 3, none, 900));
        assert!(!layout.fits(far, 1, Gaps { inner: 0, outer: 1 }, 900));
    }
    let wide = Rectangle::new(Point { x: 0, y: 0 }, Size { w: i32::MAX, h: i32::MAX });
    assert!(Layout::Columns.fits(wide, 3, none, 0));
    assert!(!Layout::Columns.fits(wide, 3, Gaps { inner: i32::MAX, outer: 0 }, 0));
}
