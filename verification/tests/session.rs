use cusk::bindings::{Binding, ModifiersState};
use cusk::config::Config;
use cusk::floating::{ResizeEdge, ResizeGrab, BTN_LEFT, BTN_RIGHT};
use cusk::layout::Layout;
use cusk::number::Number;
use cusk::session::{Cusk, Step, OVERLAY_APP_ID};
use cusk::utils::{Point, Rectangle, Size};

const OUTPUT: Size = Size { w: 1280, h: 800 };

const NOTHING: ModifiersState =
    ModifiersState { ctrl: false, alt: false, shift: false, logo: false };

const SUPER: ModifiersState = ModifiersState { ctrl: false, alt: false, shift: false, logo: true };

fn number(x: f64) -> Number {
    Number { bits: x.to_bits() }
}

fn rect(x: i32, y: i32, w: i32, h: i32) -> Rectangle {
    Rectangle::new(Point { x, y }, Size { w, h })
}

fn wanted(session: &Cusk) -> i32 {
    match session.layout() {
        Layout::MasterStack { ratio } => {
            let width = Layout::divisible_width(session.area(), session.gaps());
            (width as f64 * f64::from_bits(ratio.bits)).round() as i32
        }
        Layout::Columns => 0,
    }
}

// Carries out what a session left for later.
fn settle(session: &mut Cusk, steps: Vec<Step>) -> Vec<Step> {
    let mut done = Vec::new();
    for step in steps {
        let more = match step {
            Step::Relayout => session.relayout(wanted(session)),
            Step::Redecorate => session.decorations(),
            Step::FocusTopmost => session.focus_topmost(),
            other => vec![other],
        };
        done.extend(more);
    }
    done
}

fn open(session: &mut Cusk, window: u64, size: Size) {
    let steps = session.new_toplevel(window, false);
    settle(session, steps);
    let steps = session.commit(window, size, Some("app"));
    settle(session, steps);
}

fn session() -> Cusk {
    let mut config = Config::default();
    config.inner_gap = 10;
    config.outer_gap = 20;
    config.panel_height = 30;
    Cusk::new(&config, None)
}

fn shown(session: &Cusk) -> Vec<u64> {
    session.stack().iter().map(|place| place.window).collect()
}

#[test]
fn a_new_window_is_focused_and_each_stands_a_little_further() {
    let mut session = session();
    let steps = session.new_toplevel(1, false);
    assert!(steps.contains(&Step::Put { window: 1, at: Point { x: 40, y: 70 }, activate: true }));
    assert!(steps.contains(&Step::SendConfigure(1)));
    assert!(steps.contains(&Step::Keyboard(Some(1))));
    assert_eq!(steps.last(), Some(&Step::Relayout));
    let steps = session.new_toplevel(2, false);
    assert!(steps.contains(&Step::Put { window: 2, at: Point { x: 70, y: 100 }, activate: true }));
    assert_eq!(session.focused(), Some(2));
    assert_eq!(session.order(), &vec![1, 2]);
}

#[test]
fn tiling_lays_windows_out_and_untiling_puts_them_back() {
    let mut session = session();
    open(&mut session, 1, Size { w: 300, h: 200 });
    open(&mut session, 2, Size { w: 400, h: 250 });
    let before = (session.window_rect(1), session.window_rect(2));
    let steps = session.toggle_tiling();
    let done = settle(&mut session, steps);
    assert!(session.tiling() && session.is_tiled(1));
    // Between the outer gaps and below the panel; the inner gap divides the rest.
    assert_eq!(session.area(), rect(0, 30, 1280, 770));
    assert_eq!(session.location(1), Some(Point { x: 20, y: 50 }));
    assert!(done.contains(&Step::Configure {
        window: 1,
        size: Size { w: 738, h: 730 },
        tiled: Some(true),
        maximized: None,
    }));
    assert_eq!(session.location(2), Some(Point { x: 768, y: 50 }));
    assert!(done.contains(&Step::Decorate { window: 1, server_side: true }));

    let steps = session.toggle_tiling();
    settle(&mut session, steps);
    assert_eq!((session.location(1), session.location(2)), (Some(before.0.loc), Some(before.1.loc)));
    assert!(!session.tiling());
}

#[test]
fn maximising_twice_returns_to_the_floating_rectangle() {
    let mut session = session();
    open(&mut session, 1, Size { w: 300, h: 200 });
    let steps = session.toggle_maximize(1, OUTPUT);
    assert!(steps.contains(&Step::Configure {
        window: 1,
        size: Size { w: 1280, h: 770 },
        tiled: None,
        maximized: Some(true),
    }));
    assert_eq!(session.location(1), Some(Point { x: 0, y: 30 }));
    let steps = session.toggle_maximize(1, OUTPUT);
    assert!(steps.contains(&Step::Configure {
        window: 1,
        size: Size { w: 300, h: 200 },
        tiled: None,
        maximized: Some(false),
    }));
    assert_eq!(session.location(1), Some(Point { x: 40, y: 70 }));
}

#[test]
fn a_window_can_be_floated_out_of_the_layout_and_back() {
    let mut session = session();
    open(&mut session, 1, Size { w: 300, h: 200 });
    let steps = session.toggle_tiling();
    settle(&mut session, steps);
    let steps = session.toggle_floating(1);
    settle(&mut session, steps);
    assert!(!session.is_tiled(1));
    assert!(session.tiled().is_empty());
    assert_eq!(session.location(1), Some(Point { x: 40, y: 70 }));
    let steps = session.toggle_floating(1);
    settle(&mut session, steps);
    assert_eq!(session.tiled(), vec![1]);
}

#[test]
fn switching_shows_one_workspace_at_a_time() {
    let mut session = session();
    open(&mut session, 1, Size { w: 300, h: 200 });
    let steps = session.switch_workspace(1);
    assert!(steps.contains(&Step::Hide(1)));
    assert!(steps.contains(&Step::Keyboard(None)));
    assert!(shown(&session).is_empty());
    open(&mut session, 2, Size { w: 300, h: 200 });
    let steps = session.switch_workspace(0);
    settle(&mut session, steps);
    assert_eq!(shown(&session), vec![1]);
    assert_eq!(session.focused(), Some(1));
    assert!(session.switch_workspace(0).is_empty());
    assert!(session.switch_workspace(99).is_empty());
}

#[test]
fn a_window_can_be_sent_away_and_is_focused_there() {
    let mut session = session();
    open(&mut session, 1, Size { w: 300, h: 200 });
    open(&mut session, 2, Size { w: 300, h: 200 });
    let steps = session.send_to_workspace(2);
    settle(&mut session, steps);
    assert_eq!(shown(&session), vec![1]);
    assert_eq!(session.focused(), Some(1));
    let steps = session.switch_workspace(2);
    settle(&mut session, steps);
    assert_eq!(shown(&session), vec![2]);
    assert_eq!(session.focused(), Some(2));
}

#[test]
fn focus_and_order_follow_the_keyboard() {
    let mut session = session();
    for window in 1..=3 {
        open(&mut session, window, Size { w: 300, h: 200 });
    }
    session.focus_step(1);
    assert_eq!(session.focused(), Some(1));
    session.focus_step(-1);
    assert_eq!(session.focused(), Some(3));
    session.move_in_order(-1);
    assert_eq!(session.order(), &vec![1, 3, 2]);
    session.promote();
    assert_eq!(session.order(), &vec![3, 1, 2]);
    session.promote();
    assert_eq!(session.order(), &vec![1, 3, 2], "pressed twice, it takes itself back");
    session.promote();
    assert_eq!(session.order(), &vec![3, 1, 2]);
    session.focus(1);
    session.promote();
    assert_eq!(session.order(), &vec![1, 3, 2], "promoting the old master undoes a promotion");
}

#[test]
fn a_closed_window_leaves_nothing_behind() {
    let mut session = session();
    open(&mut session, 1, Size { w: 300, h: 200 });
    open(&mut session, 2, Size { w: 300, h: 200 });
    let steps = session.toplevel_destroyed(2);
    settle(&mut session, steps);
    assert_eq!(session.focused(), Some(1));
    let steps = session.toplevel_destroyed(1);
    let done = settle(&mut session, steps);
    assert_eq!(session.focused(), None);
    assert!(done.contains(&Step::Keyboard(None)));
    assert!(session.order().is_empty() && session.stack().is_empty());
}

#[test]
fn a_window_closed_on_a_hidden_workspace_is_gone_too() {
    let mut session = session();
    open(&mut session, 1, Size { w: 300, h: 200 });
    let steps = session.switch_workspace(1);
    settle(&mut session, steps);
    let steps = session.toplevel_destroyed(1);
    settle(&mut session, steps);
    assert!(session.workspaces().occupied().iter().all(|held| !held));
}

#[test]
fn a_launcher_is_placed_over_everything() {
    let mut session = session();
    let steps = session.new_toplevel(1, false);
    settle(&mut session, steps);
    session.commit(1, Size { w: 0, h: 0 }, Some(OVERLAY_APP_ID));
    let steps = session.commit(1, Size { w: 600, h: 400 }, Some(OVERLAY_APP_ID));
    assert!(steps.is_empty() || session.location(1).is_some());
    session.commit(1, Size { w: 600, h: 400 }, Some(OVERLAY_APP_ID));
    assert_eq!(session.location(1), Some(Point { x: 340, y: 133 }));
    let steps = session.toggle_tiling();
    settle(&mut session, steps);
    assert!(!session.is_tiled(1));
}

#[test]
fn a_dialog_is_never_tiled() {
    let mut session = session();
    let steps = session.toggle_tiling();
    settle(&mut session, steps);
    session.new_toplevel(1, true);
    assert!(!session.is_tiled(1));
}

#[test]
fn a_press_on_the_panel_goes_to_the_panel() {
    let mut session = session();
    open(&mut session, 1, Size { w: 300, h: 200 });
    let mut steps = Vec::new();
    let pills = cusk::panel::pills(OUTPUT, 30, session.workspaces().len(), 0);
    let at = Point { x: pills[1].loc.x + 1, y: pills[1].loc.y + 1 };
    assert!(!session.press(BTN_LEFT, at, Some((1, (number(0.0), number(0.0)))), SUPER, &mut steps));
    assert_eq!(session.workspaces().active_index(), 1);
    let mut steps = Vec::new();
    assert!(!session.press(BTN_LEFT, Point { x: 1279, y: 29 }, None, NOTHING, &mut steps));
    assert!(steps.is_empty());
}

#[test]
fn a_press_on_a_window_focuses_it_and_may_start_a_drag() {
    let mut session = session();
    open(&mut session, 1, Size { w: 300, h: 200 });
    open(&mut session, 2, Size { w: 300, h: 200 });
    let at = Point { x: 50, y: 80 };
    let under = Some((1, (number(10.0), number(10.0))));
    let mut steps = Vec::new();
    assert!(session.press(BTN_LEFT, at, under, NOTHING, &mut steps));
    assert_eq!(session.focused(), Some(1));
    assert_eq!(shown(&session), vec![2, 1], "raised");

    let mut steps = Vec::new();
    assert!(!session.press(BTN_LEFT, at, under, SUPER, &mut steps));
    assert!(steps.contains(&Step::MoveGrab {
        window: 1,
        button: BTN_LEFT,
        at: Point { x: 40, y: 70 },
    }));
    let mut steps = Vec::new();
    assert!(!session.press(BTN_RIGHT, at, under, SUPER, &mut steps));
    assert!(steps.contains(&Step::ResizeGrab {
        window: 1,
        button: BTN_RIGHT,
        edges: ResizeEdge::TopLeft,
        rect: rect(40, 70, 300, 200),
    }));
    let mut steps = Vec::new();
    assert!(session.press(BTN_LEFT, Point { x: 900, y: 700 }, None, NOTHING, &mut steps));
    assert_eq!(steps, vec![Step::Keyboard(None)]);
}

#[test]
fn a_tile_is_dragged_onto_another_and_the_divider_along() {
    let mut session = session();
    open(&mut session, 1, Size { w: 300, h: 200 });
    open(&mut session, 2, Size { w: 300, h: 200 });
    let steps = session.toggle_tiling();
    settle(&mut session, steps);
    assert_eq!(session.start_move(1, BTN_LEFT), Step::SwapGrab { window: 1, button: BTN_LEFT });
    assert_eq!(
        session.start_resize(1, BTN_RIGHT, ResizeEdge::Right),
        Step::RatioGrab { button: BTN_RIGHT }
    );
    let width = wanted(&session);
    let steps = session.drop_tile(1, Point { x: 1000, y: 300 }, width);
    settle(&mut session, steps);
    assert_eq!(session.order(), &vec![2, 1]);
    assert!(session.drop_tile(1, Point { x: 1000, y: 300 }, width).is_empty());
    let steps = session.drag_divider(Some(number(0.25)));
    settle(&mut session, steps);
    assert_eq!(session.layout(), Layout::MasterStack { ratio: number(0.25) });
    assert_eq!(session.location(1), Some(Point { x: 338, y: 50 }));
}

#[test]
fn bindings_do_what_they_are_for() {
    let mut session = session();
    open(&mut session, 1, Size { w: 300, h: 200 });
    let wider = number(0.65);
    assert_eq!(session.apply_binding(Binding::Spawn, wider, OUTPUT), vec![Step::SpawnTerminal]);
    assert_eq!(session.apply_binding(Binding::Launcher, wider, OUTPUT), vec![Step::Launch]);
    assert_eq!(session.apply_binding(Binding::Keys, wider, OUTPUT), vec![Step::ShowKeys]);
    session.apply_binding(Binding::Widen(1), wider, OUTPUT);
    assert_eq!(session.layout(), Layout::MasterStack { ratio: wider });
    session.apply_binding(Binding::CycleLayout, wider, OUTPUT);
    assert_eq!(session.layout(), Layout::Columns);
    session.apply_binding(Binding::ToggleMaximize, wider, OUTPUT);
    assert_eq!(session.location(1), Some(Point { x: 0, y: 30 }));
    session.apply_binding(Binding::Workspace(1), wider, OUTPUT);
    assert_eq!(session.workspaces().active_index(), 1);
}

#[test]
fn focus_follows_the_pointer_only_where_asked() {
    let mut session = session();
    open(&mut session, 1, Size { w: 300, h: 200 });
    open(&mut session, 2, Size { w: 300, h: 200 });
    assert!(session.focus_under_pointer(Some(1)).is_empty());
    let mut config = Config::default();
    config.focus_follows_mouse = true;
    session.apply_config(&config, None);
    session.focus_under_pointer(Some(1));
    assert_eq!(session.focused(), Some(1));
    assert!(session.focus_under_pointer(Some(1)).is_empty(), "it has the focus already");
    assert!(session.focus_under_pointer(None).is_empty());
}

#[test]
fn a_configuration_read_again_keeps_what_was_chosen_since() {
    let mut session = session();
    open(&mut session, 1, Size { w: 300, h: 200 });
    let steps = session.toggle_tiling();
    settle(&mut session, steps);
    session.send_to_workspace(3);
    let mut config = Config::default();
    config.workspace_count = 1;
    config.inner_gap = 0;
    config.mod_key = "alt".to_string();
    let steps = session.apply_config(&config, Some("ctrl"));
    settle(&mut session, steps);
    assert!(session.tiling(), "tiling was turned on by hand");
    assert_eq!(session.workspaces().len(), 1);
    assert_eq!(shown(&session), vec![1], "the window came back to the workspace that is left");
    assert_eq!(session.gaps().inner, 0);
    assert_eq!(session.mod_key().label(), "ctrl");
    assert_eq!(session.output_size(), OUTPUT);
    assert!(session.set_output_size(OUTPUT).is_empty());
    assert_eq!(session.set_output_size(Size { w: 640, h: 480 }), vec![Step::Relayout]);
    assert_eq!(session.panel_height(), config.panel_height);
}

#[test]
fn a_dragged_window_comes_back_to_where_it_was_dropped() {
    let mut session = session();
    open(&mut session, 1, Size { w: 300, h: 200 });
    let at = Point { x: 410, y: 230 };
    let steps = session.drag_to(1, at);
    assert_eq!(steps, vec![Step::Put { window: 1, at, activate: true }]);
    session.end_drag(1);
    session.toggle_maximize(1, OUTPUT);
    let steps = session.toggle_maximize(1, OUTPUT);
    assert!(steps.iter().any(|step| matches!(step, Step::Put { window: 1, at: Point { x: 410, y: 230 }, .. })));
}

#[test]
fn dragging_an_edge_asks_for_each_size_once() {
    let mut session = session();
    open(&mut session, 1, Size { w: 300, h: 200 });
    let initial_rect = rect(40, 70, 300, 200);
    let mut grab = ResizeGrab {
        edges: ResizeEdge::TopLeft,
        initial_rect,
        last_requested: initial_rect.size,
    };
    let steps = session.resize_by(1, &mut grab, -10, -20);
    assert!(steps.contains(&Step::Configure {
        window: 1,
        size: Size { w: 310, h: 220 },
        tiled: None,
        maximized: None,
    }));
    assert!(steps
        .iter()
        .any(|step| matches!(step, Step::Put { window: 1, at: Point { x: 30, y: 50 }, .. })));
    assert_eq!(grab.last_requested, Size { w: 310, h: 220 });
    let steps = session.resize_by(1, &mut grab, -10, -20);
    assert!(!steps.iter().any(|step| matches!(step, Step::Configure { .. })));
}

#[test]
fn ending_the_drag_of_a_window_that_is_nowhere_notes_nothing() {
    let mut session = session();
    open(&mut session, 1, Size { w: 300, h: 200 });
    let before = shown(&session);
    session.end_drag(9);
    assert_eq!(shown(&session), before);
}

#[test]
fn what_is_drawn_out_of_sight_changes_nothing() {
    let mut session = session();
    open(&mut session, 1, Size { w: 300, h: 200 });
    let steps = session.switch_workspace(1);
    settle(&mut session, steps);
    assert!(session.commit(1, Size { w: 900, h: 700 }, Some("app")).is_empty());
    let steps = session.switch_workspace(0);
    settle(&mut session, steps);
    assert_eq!(session.window_rect(1).size, Size { w: 300, h: 200 });
}

#[test]
fn a_promotion_is_not_taken_back_once_the_order_has_changed() {
    let mut session = session();
    for window in 1..=3 {
        open(&mut session, window, Size { w: 300, h: 200 });
    }
    session.promote();
    assert_eq!(session.order(), &vec![3, 2, 1]);
    let steps = session.toplevel_destroyed(1);
    settle(&mut session, steps);
    session.focus(3);
    assert!(session.promote().is_empty(), "the window that made way is gone");
    assert_eq!(session.order(), &vec![3, 2]);
}

#[test]
fn the_layout_of_an_ordinary_screen_fits() {
    let mut session = session();
    for window in 1..=5 {
        open(&mut session, window, Size { w: 300, h: 200 });
    }
    let wanted = wanted(&session);
    assert!(session.fits(wanted));
    assert_eq!(session.tiles(wanted).len(), session.tiled().len());
}
