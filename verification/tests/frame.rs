use cusk::config::Config;
use cusk::frame::{
    backdrop_key, backing, keeps_square_corners, plan_scene, plan_screen, shown_title,
    title_budget, title_rect, Backdrops, Backing, Cursor, Draw, Layer, Look, Panel, Pill, Prepare,
};
use cusk::utils::{Point, Rectangle, Size};

const OUTPUT: Size = Size { w: 1280, h: 800 };

fn rect(x: i32, y: i32, w: i32, h: i32) -> Rectangle {
    Rectangle::new(Point { x, y }, Size { w, h })
}

fn layers() -> [Layer; 2] {
    [
        Layer { rect: rect(100, 100, 400, 300), focused: false },
        Layer { rect: rect(1200, 200, 400, 300), focused: true },
    ]
}

const LOOK: Look = Look { blur: true, corner_radius: 10, ring_width: 2 };

const NO_PANEL: Panel = Panel { height: 0, active: 0, title: None };

fn configured(wallpaper: &str) -> Config {
    let mut config = Config::default();
    config.wallpaper = wallpaper.to_string();
    config
}

#[test]
fn no_wallpaper_is_wanted_where_none_is_named() {
    assert!(backdrop_key(&configured("  "), OUTPUT).is_none());
    let key = backdrop_key(&configured(" /w.png "), OUTPUT).unwrap();
    assert_eq!(key.path, "/w.png");
    assert_eq!(key.image_size(), (1280, 800));
    let none = backdrop_key(&configured("/w.png"), Size { w: 0, h: -3 }).unwrap();
    assert_eq!(none.image_size(), (1, 1));
}

#[test]
fn a_wallpaper_is_read_once_and_a_bad_one_not_again() {
    let mut backdrops = Backdrops::new();
    let key = backdrop_key(&configured("/w.png"), OUTPUT);
    assert_eq!(backdrops.step(&key), Prepare::Build);
    backdrops.finish(key.clone(), true);
    assert!(backdrops.is_built());
    assert_eq!(backdrops.step(&key), Prepare::Keep);

    let mut softer = configured("/w.png");
    softer.blur_radius += 1;
    let softer = backdrop_key(&softer, OUTPUT);
    assert_eq!(backdrops.step(&softer), Prepare::Reblur);

    let bad = backdrop_key(&configured("/missing.png"), OUTPUT);
    assert_eq!(backdrops.step(&bad), Prepare::Build);
    backdrops.finish(bad.clone(), false);
    assert!(!backdrops.is_built());
    assert_eq!(backdrops.step(&bad), Prepare::Keep);
    assert_eq!(backdrops.step(&None), Prepare::Drop);
}

#[test]
fn windows_are_drawn_from_the_bottom_up() {
    let draws = plan_screen(
        &layers(),
        Backing::Plain,
        LOOK,
        OUTPUT,
        NO_PANEL,
        &[],
        Cursor::Named,
        Point { x: 50, y: 60 },
        Some(((2, 3), 24)),
    );
    assert_eq!(
        draws,
        vec![
            Draw::Clear,
            Draw::Window(0),
            Draw::Window(1),
            Draw::Ring { band: rect(1198, 198, 404, 304), radius: 10, width: 2 },
            Draw::Arrow(rect(48, 57, 24, 24)),
        ]
    );
}

#[test]
fn only_what_is_on_screen_shows_the_wallpaper() {
    let draws = plan_screen(
        &layers(),
        Backing::Wallpaper,
        LOOK,
        OUTPUT,
        NO_PANEL,
        &[],
        Cursor::Hidden,
        Point { x: 0, y: 0 },
        None,
    );
    assert_eq!(draws[1], Draw::Wallpaper);
    assert!(draws.contains(&Draw::Blurred(rect(1200, 200, 80, 300))));
    let corners = draws.iter().filter(|d| matches!(d, Draw::Corner { .. })).count();
    assert_eq!(corners, 6, "two corners of the second window are off the screen");
}

#[test]
fn a_live_scene_is_assembled_apart_and_then_shown() {
    let scene = plan_scene(&layers(), LOOK, OUTPUT);
    assert_eq!(scene[0], Draw::Clear);
    assert!(scene.contains(&Draw::Behind(rect(100, 100, 400, 300))));
    let screen = plan_screen(
        &layers(),
        Backing::Live,
        LOOK,
        OUTPUT,
        Panel { height: 28, active: 1, title: Some(rect(600, 4, 80, 20)) },
        &[true, false, false],
        Cursor::Surface,
        Point { x: 0, y: 0 },
        None,
    );
    assert_eq!(screen[..3], [Draw::Clear, Draw::Scene, Draw::Bar(rect(0, 0, 1280, 28))]);
    let states: Vec<Pill> = screen
        .iter()
        .filter_map(|d| match d {
            Draw::Workspace { state, .. } => Some(*state),
            _ => None,
        })
        .collect();
    assert_eq!(states, vec![Pill::Occupied, Pill::Active, Pill::Empty]);
    assert_eq!(screen.last(), Some(&Draw::ClientCursor));
}

#[test]
fn what_lies_behind_windows_depends_on_what_there_is() {
    assert_eq!(backing(true, true, true), Backing::Live);
    assert_eq!(backing(true, true, false), Backing::Wallpaper);
    assert_eq!(backing(false, true, true), Backing::Wallpaper);
    assert_eq!(backing(false, false, true), Backing::Plain);
    assert!(keeps_square_corners(&layers(), Backing::Plain, LOOK));
    assert!(!keeps_square_corners(&layers(), Backing::Wallpaper, LOOK));
}

#[test]
fn a_title_stands_in_the_middle_clear_of_the_pills() {
    assert_eq!(title_rect(OUTPUT, 28, 80, 20), rect(600, 4, 80, 20));
    assert_eq!(title_budget(OUTPUT, 28, 0, 0), 1280 - 32);
    let wide = title_budget(OUTPUT, 28, 4, 0);
    assert!(wide < 1280 - 32);
    assert_eq!(shown_title(Some(String::new())), None);
    assert_eq!(shown_title(Some("cusk".to_string())).as_deref(), Some("cusk"));
    assert_eq!(shown_title(None), None);
}
