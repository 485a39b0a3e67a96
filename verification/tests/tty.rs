use cusk::number::Number;
use cusk::tty::{
    self, drain, drm_devices, framebuffer_flags, pick_crtc, pick_output, pump, vt_for_key, Active,
    Chord, Connector, Drm, Fault, InputEvent, Presented, Scroll, ScrollSource, SessionEvent,
    INVALID_MODIFIER, KEY_ESC,
};
use std::io::{Error, ErrorKind};

const LINEAR_MODIFIER: u64 = 0;

fn number(x: f64) -> Number {
    Number { bits: x.to_bits() }
}

fn clamp_pointer(at: (f64, f64), by: (f64, f64), output: (i32, i32)) -> (f64, f64) {
    let moved = (number(at.0 + by.0), number(at.1 + by.1));
    let (x, y) = tty::clamp_pointer(moved, output);
    (f64::from_bits(x.bits), f64::from_bits(y.bits))
}

fn is_revoked(error: &Error) -> bool {
    let fault = match error.kind() {
        ErrorKind::PermissionDenied => Fault::PermissionDenied,
        ErrorKind::NotConnected => Fault::NotConnected,
        _ => Fault::Other,
    };
    Drm::is_revoked(fault)
}

#[test]
fn the_pointer_cannot_leave_the_screen() {
    let output = (1920, 1080);
    assert_eq!(clamp_pointer((0.0, 0.0), (-500.0, -500.0), output), (0.0, 0.0));
    let far = clamp_pointer((1900.0, 1000.0), (500.0, 500.0), output);
    assert!(far.0 <= 1919.0 && far.1 <= 1079.0, "{far:?}");
}

#[test]
fn the_far_edge_stays_clickable() {
    let at = clamp_pointer((0.0, 0.0), (9999.0, 9999.0), (1920, 1080));
    assert_eq!(at, (1919.0, 1079.0));
}

#[test]
fn ordinary_motion_is_just_added() {
    assert_eq!(clamp_pointer((100.0, 100.0), (5.5, -3.0), (1920, 1080)), (105.5, 97.0));
}

#[test]
fn a_zero_sized_output_does_not_panic() {
    assert_eq!(clamp_pointer((0.0, 0.0), (10.0, 10.0), (0, 0)), (0.0, 0.0));
}

fn wheel(h: f64, v: f64) -> Scroll {
    Scroll {
        source: ScrollSource::Wheel,
        horizontal: number(h),
        vertical: number(v),
        v120: Some((number(h * 120.0), number(v * 120.0))),
    }
}

fn finger(h: f64, v: f64) -> Scroll {
    Scroll {
        source: ScrollSource::Finger,
        horizontal: number(h),
        vertical: number(v),
        v120: None,
    }
}

#[test]
fn an_empty_wheel_event_is_dropped() {
    assert!(wheel(0.0, 0.0).is_empty());
    assert!(!wheel(0.0, 1.0).is_empty());
    assert!(!wheel(-1.0, 0.0).is_empty());
}

#[test]
fn a_finger_lift_is_not_an_empty_event() {
    assert!(!finger(0.0, 0.0).is_empty());
    assert_eq!(finger(0.0, 0.0).stopped(), (true, true));
}

#[test]
fn each_axis_stops_independently() {
    assert_eq!(finger(0.0, 5.0).stopped(), (true, false));
    assert_eq!(finger(5.0, 0.0).stopped(), (false, true));
    assert_eq!(finger(5.0, 5.0).stopped(), (false, false));
}

#[test]
fn only_a_finger_reports_a_stop() {
    assert_eq!(wheel(0.0, 0.0).stopped(), (false, false));
    assert_eq!(
        Scroll {
            source: ScrollSource::Continuous,
            horizontal: number(0.0),
            vertical: number(0.0),
            v120: None,
        }
        .stopped(),
        (false, false)
    );
}

#[test]
fn a_revoked_device_is_not_a_fault() {
    assert!(is_revoked(&Error::from(ErrorKind::PermissionDenied)));
    assert!(is_revoked(&Error::from(ErrorKind::NotConnected)));
}

#[test]
fn other_errors_are_still_faults() {
    for kind in [ErrorKind::NotFound, ErrorKind::InvalidInput, ErrorKind::Other] {
        assert!(!is_revoked(&Error::from(kind)), "{kind:?}");
    }
}

#[test]
fn function_keys_map_to_the_terminal_they_name() {
    assert_eq!(vt_for_key(59), Some(1));
    assert_eq!(vt_for_key(60), Some(2));
    assert_eq!(vt_for_key(68), Some(10));
    assert_eq!(vt_for_key(87), Some(11));
    assert_eq!(vt_for_key(88), Some(12));
}

#[test]
fn other_keys_are_not_terminals() {
    for code in [1, 30, 57, 69, 86, 89, 200] {
        assert_eq!(vt_for_key(code), None, "code {code}");
    }
}

#[test]
fn the_chord_needs_ctrl_and_alt() {
    let mut chord = Chord::default();
    assert_eq!(chord.key(59, true), None, "F1 alone");

    chord.key(29, true);
    assert_eq!(chord.key(59, true), None, "ctrl alone");

    chord.key(56, true);
    assert_eq!(chord.key(59, true), Some(1), "ctrl+alt+F1");
}

#[test]
fn releasing_a_modifier_disarms_the_chord() {
    let mut chord = Chord::default();
    chord.key(29, true);
    chord.key(56, true);
    assert_eq!(chord.key(60, true), Some(2));

    chord.key(56, false);
    assert_eq!(chord.key(60, true), None, "alt released");
}

#[test]
fn only_the_press_switches() {
    let mut chord = Chord::default();
    chord.key(29, true);
    chord.key(56, true);
    assert_eq!(chord.key(59, true), Some(1));
    assert_eq!(chord.key(59, false), None, "release must do nothing");
}

#[test]
fn either_side_of_the_keyboard_works() {
    let mut chord = Chord::default();
    chord.key(97, true);
    chord.key(100, true);
    assert_eq!(chord.key(61, true), Some(3));
}

#[test]
fn a_real_modifier_sets_the_flag() {
    assert!(framebuffer_flags(Some(LINEAR_MODIFIER)));
}

#[test]
fn an_invalid_modifier_counts_as_none() {
    assert!(!framebuffer_flags(Some(INVALID_MODIFIER)));
}

#[test]
fn no_modifier_leaves_the_flag_clear() {
    assert!(!framebuffer_flags(None));
}

#[test]
fn a_drain_sorts_events_by_what_they_are() {
    let events = [
        InputEvent::Key { code: 30, pressed: true },
        InputEvent::Motion { dx: number(1.5), dy: number(-2.0) },
        InputEvent::Button { code: 0x110, pressed: true },
        InputEvent::Scroll(wheel(0.0, 1.0)),
        InputEvent::Other,
        InputEvent::Key { code: KEY_ESC, pressed: false },
        InputEvent::Motion { dx: number(0.5), dy: number(0.0) },
    ];
    let input = drain(Some(&events));
    assert_eq!(input.keys, vec![(30, true), (KEY_ESC, false)]);
    assert_eq!(input.motion, vec![(number(1.5), number(-2.0)), (number(0.5), number(0.0))]);
    assert_eq!(input.buttons, vec![(0x110, true)]);
    assert_eq!(input.scrolls.len(), 1);
    let nothing = drain(None);
    assert!(nothing.keys.is_empty() && nothing.motion.is_empty() && !nothing.escape);
}

#[test]
fn a_pump_collects_presses_until_escape() {
    let mut keys = vec![2];
    let events = [
        InputEvent::Key { code: 30, pressed: true },
        InputEvent::Key { code: 30, pressed: false },
        InputEvent::Other,
    ];
    assert!(!pump(&events, &mut keys));
    assert_eq!(keys, vec![2, 30]);
    assert!(pump(&[InputEvent::Key { code: KEY_ESC, pressed: true }], &mut keys));
}

#[test]
fn a_scroll_says_each_axis_on_its_own() {
    let (horizontal, vertical) = wheel(0.0, 2.0).axes();
    assert_eq!(horizontal.value, None);
    assert_eq!(horizontal.v120, None);
    assert_eq!(vertical.value, Some(number(2.0)));
    assert_eq!(vertical.v120, Some(number(240.0)));
    let (horizontal, vertical) = finger(0.0, 3.0).axes();
    assert!(horizontal.stop && !vertical.stop);
}

#[test]
fn a_session_that_comes_back_says_so_once() {
    let mut active = Active::started();
    assert!(active.active && !active.take_resumed());
    active.notify(SessionEvent::Pause);
    assert!(!active.active);
    active.notify(SessionEvent::Activate);
    assert!(active.active);
    assert!(active.take_resumed());
    assert!(!active.take_resumed());
}

#[test]
fn the_buffers_change_places_only_when_one_was_shown() {
    let mut drm = Drm::new();
    let mut active = Active::started();
    let back = drm.back();
    assert_eq!(drm.present(None, &mut active), Presented::Shown);
    assert_eq!(drm.front, back);
    assert_eq!(drm.present(Some(Fault::Other), &mut active), Presented::Failed);
    assert_eq!(drm.front, back);
    assert!(active.active);
    assert_eq!(drm.present(Some(Fault::PermissionDenied), &mut active), Presented::Paused);
    assert!(!active.active, "a revoked device means another terminal has it");
}

fn connector(name: &str, connected: bool, modes: usize) -> Connector {
    Connector { name: name.to_string(), connected, modes: vec![(1920, 1080, 60); modes] }
}

#[test]
fn the_first_connected_output_with_a_mode_is_picked() {
    let list = [connector("a", false, 2), connector("b", true, 0), connector("c", true, 1)];
    assert_eq!(pick_output(&list), Some(2));
    assert_eq!(pick_output(&list[..2]), None);
}

#[test]
fn the_crtc_in_use_is_preferred() {
    assert_eq!(pick_crtc(Some(7), &[3, 4]), Some(7));
    assert_eq!(pick_crtc(None, &[3, 4]), Some(3));
    assert_eq!(pick_crtc(None, &[]), None);
}

#[test]
fn only_cards_are_display_devices_and_in_order() {
    let names: Vec<String> =
        ["renderD128", "card1", "by-path", "card0"].iter().map(|n| n.to_string()).collect();
    assert_eq!(drm_devices(&names), vec![3, 1]);
}
