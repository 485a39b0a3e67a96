use cusk::bindings::{Binding, Keysym, ModKey, ModifiersState};
use cusk::driver::{
    begin, dispatch, intercept, is_over, keycode, moves, offer, watchdog_delay, Event, Offer, Turn,
};
use cusk::number::Number;
use cusk::tty::{drain, Active, Chord, InputEvent, Scroll, ScrollSource, SessionEvent, KEY_ESC};

fn number(x: f64) -> Number {
    Number { bits: x.to_bits() }
}

#[test]
fn a_limit_ends_a_session_and_none_does_not() {
    assert!(!is_over(999, 1));
    assert!(is_over(1000, 1));
    assert!(!is_over(u64::MAX, 0));
    assert_eq!(watchdog_delay(30), Some(33));
    assert_eq!(watchdog_delay(0), None);
}

#[test]
fn a_paused_session_waits_and_then_opens_its_devices_again() {
    let mut active = Active::started();
    assert_eq!(begin(&mut active), Turn::Draw { reopen: false });
    active.notify(SessionEvent::Pause);
    assert_eq!(begin(&mut active), Turn::Wait);
    active.notify(SessionEvent::Activate);
    assert_eq!(begin(&mut active), Turn::Draw { reopen: true });
    assert_eq!(begin(&mut active), Turn::Draw { reopen: false });
}

#[test]
fn motion_comes_before_buttons_and_keys_before_both() {
    let scroll = Scroll {
        source: ScrollSource::Wheel,
        horizontal: number(0.0),
        vertical: number(1.0),
        v120: None,
    };
    let silent = Scroll { vertical: number(0.0), ..scroll };
    let input = drain(Some(&[
        InputEvent::Button { code: 0x110, pressed: true },
        InputEvent::Scroll(silent),
        InputEvent::Scroll(scroll),
        InputEvent::Motion { dx: number(1.0), dy: number(0.0) },
        InputEvent::Key { code: 30, pressed: true },
    ]));
    let mut chord = Chord::default();
    assert_eq!(
        dispatch(&input, &mut chord),
        Some(vec![
            Event::Key { code: 30, pressed: true },
            Event::Motion,
            Event::Scroll(scroll),
            Event::Button { code: 0x110, pressed: true },
        ])
    );
}

#[test]
fn a_chord_switches_terminals_and_is_not_typed() {
    let mut chord = Chord { ctrl: true, alt: true };
    let input = drain(Some(&[InputEvent::Key { code: 60, pressed: true }]));
    assert_eq!(dispatch(&input, &mut chord), Some(vec![Event::SwitchVt(2)]));
    let escape = drain(Some(&[InputEvent::Key { code: KEY_ESC, pressed: true }]));
    assert_eq!(
        dispatch(&escape, &mut Chord::default()).is_some(),
        !escape.escape,
        "escape ends the session only with its chord"
    );
}

#[test]
fn a_bound_key_is_taken_only_with_the_modifier() {
    let held = ModifiersState { ctrl: false, alt: false, shift: false, logo: true };
    let bare = ModifiersState { logo: false, ..held };
    assert_eq!(
        intercept(true, ModKey::Super, held, Keysym(0x6d)),
        Some(Binding::ToggleMaximize)
    );
    assert_eq!(intercept(true, ModKey::Super, held, Keysym(0x2f)), Some(Binding::Keys));
    assert_eq!(intercept(true, ModKey::Super, bare, Keysym(0x6d)), None);
    assert_eq!(intercept(false, ModKey::Super, held, Keysym(0x6d)), None);
    assert_eq!(keycode(30), 38);
    assert!(moves((number(0.0), number(-0.5))));
    assert!(!moves((number(0.0), number(0.0))));
}

#[test]
fn buffers_are_offered_as_far_as_there_are_formats() {
    assert_eq!(offer(0, true), Offer::Nothing);
    assert_eq!(offer(3, true), Offer::WithDevice);
    assert_eq!(offer(3, false), Offer::FormatsOnly);
}
