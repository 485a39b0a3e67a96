use cusk::toplevel::{diff, Event, OutputId, Outputs, Snapshot, State, States};

fn snap(title: &str, app_id: &str, states: &[State], outputs: &[OutputId]) -> Snapshot {
    Snapshot {
        title: title.into(),
        app_id: app_id.into(),
        states: States::from_list(states),
        outputs: Outputs::from_list(outputs),
    }
}

#[test]
fn a_new_handle_is_told_everything() {
    let s = snap("Konsole", "org.kde.konsole", &[State::Activated], &[0]);
    let events = diff(None, &s);
    assert_eq!(
        events,
        vec![
            Event::Title("Konsole".into()),
            Event::AppId("org.kde.konsole".into()),
            Event::OutputEnter(0),
            Event::State(vec![State::Activated]),
            Event::Done,
        ]
    );
}

#[test]
fn no_change_sends_nothing_at_all() {
    let s = snap("Konsole", "org.kde.konsole", &[State::Activated], &[0]);
    assert!(diff(Some(&s), &s).is_empty());
}

#[test]
fn only_the_changed_field_is_sent() {
    let a = snap("one", "app", &[State::Activated], &[0]);
    let b = snap("two", "app", &[State::Activated], &[0]);
    assert_eq!(
        diff(Some(&a), &b),
        vec![Event::Title("two".into()), Event::Done]
    );
}

#[test]
fn every_burst_ends_with_exactly_one_done() {
    let a = snap("one", "app", &[], &[0]);
    let b = snap("two", "other", &[State::Maximized], &[1]);
    let events = diff(Some(&a), &b);
    assert_eq!(events.iter().filter(|e| **e == Event::Done).count(), 1);
    assert_eq!(events.last(), Some(&Event::Done));
}

#[test]
fn output_leave_precedes_output_enter() {
    let a = snap("w", "app", &[], &[0]);
    let b = snap("w", "app", &[], &[1]);
    let events = diff(Some(&a), &b);
    let leave = events.iter().position(|e| *e == Event::OutputLeave(0));
    let enter = events.iter().position(|e| *e == Event::OutputEnter(1));
    assert!(leave.is_some() && enter.is_some());
    assert!(leave < enter, "{events:?}");
}

#[test]
fn a_shared_output_is_not_re_announced() {
    let a = snap("w", "app", &[], &[0, 1]);
    let b = snap("w", "app", &[], &[1, 2]);
    let events = diff(Some(&a), &b);
    assert!(events.contains(&Event::OutputLeave(0)));
    assert!(events.contains(&Event::OutputEnter(2)));
    assert!(!events.contains(&Event::OutputEnter(1)), "1 was already entered");
    assert!(!events.contains(&Event::OutputLeave(1)));
}

#[test]
fn state_is_sent_whole_not_as_a_delta() {
    let a = snap("w", "app", &[State::Activated], &[]);
    let b = snap("w", "app", &[State::Activated, State::Maximized], &[]);
    let events = diff(Some(&a), &b);
    assert_eq!(
        events,
        vec![
            Event::State(vec![State::Maximized, State::Activated]),
            Event::Done,
        ],
        "both states must appear, not just the new one"
    );
}

#[test]
fn losing_the_last_state_sends_an_empty_array() {
    let a = snap("w", "app", &[State::Activated], &[]);
    let b = snap("w", "app", &[], &[]);
    assert_eq!(
        diff(Some(&a), &b),
        vec![Event::State(vec![]), Event::Done]
    );
}

#[test]
fn output_order_is_not_a_change() {
    let a = snap("w", "app", &[], &[0, 1, 2]);
    let mut b = a.clone();
    b.outputs = Outputs::from_list(&[2, 0, 1]);
    assert!(diff(Some(&a), &b).is_empty());
}

#[test]
fn an_untitled_window_still_gets_a_label() {
    assert_eq!(snap("Konsole", "org.kde.konsole", &[], &[]).label(), "Konsole");
    assert_eq!(snap("", "org.kde.konsole", &[], &[]).label(), "org.kde.konsole");
    assert_eq!(snap("", "", &[], &[]).label(), "(untitled)");
}

#[test]
fn state_predicates_read_the_set() {
    let s = snap("w", "app", &[State::Minimized], &[]);
    assert!(s.is_minimized());
    assert!(!s.is_activated());
}
