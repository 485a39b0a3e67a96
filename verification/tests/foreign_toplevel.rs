use cusk::foreign_toplevel::{
    action_for, all_but, encode_states, encode_with, messages, ForeignToplevelState, HandleRequest, Message,
    Request, ToplevelId,
};
use cusk::toplevel::{Event, Outputs, Snapshot, State, States};

#[test]
fn states_encode_as_native_endian_u32s() {
    let states = [State::Maximized, State::Activated];
    let bytes = encode_states(&states);
    assert_eq!(bytes.len(), 8);
    assert_eq!(&bytes[0..4], &0u32.to_ne_bytes());
    assert_eq!(&bytes[4..8], &2u32.to_ne_bytes());
}

#[test]
fn an_empty_state_set_encodes_to_an_empty_array() {
    let bytes = encode_states(&[]);
    assert!(bytes.is_empty());
}

fn snapshot(title: &str) -> Snapshot {
    Snapshot {
        title: title.to_string(),
        app_id: "app".to_string(),
        states: States::from_list(&[State::Activated]),
        outputs: Outputs::from_list(&[0]),
    }
}

const WINDOW: ToplevelId = ToplevelId(5);

#[test]
fn every_state_has_its_own_number() {
    assert_eq!(
        encode_states(&[State::Minimized, State::Fullscreen]),
        [1u32.to_ne_bytes(), 3u32.to_ne_bytes()].concat()
    );
}

#[test]
fn every_manager_is_told_of_a_window_and_each_handle_of_a_change() {
    let mut state = ForeignToplevelState::default();
    assert!(state.bind(1).is_empty());
    assert_eq!(state.add(WINDOW), vec![1]);
    state.attach(WINDOW, 10);
    assert!(state.contains(WINDOW));
    let delivery = state.publish(WINDOW, &snapshot("one"));
    assert_eq!(delivery.handles, vec![10]);
    assert_eq!(delivery.events.last(), Some(&Event::Done));
    let again = state.publish(WINDOW, &snapshot("one"));
    assert!(again.events.is_empty(), "nothing changed");
    let changed = state.publish(WINDOW, &snapshot("two"));
    assert_eq!(changed.events, vec![Event::Title("two".to_string()), Event::Done]);
    assert_eq!(state.remove(WINDOW), vec![10]);
    assert!(!state.contains(WINDOW));
}

#[test]
fn a_manager_that_binds_late_is_greeted_with_every_window() {
    let mut state = ForeignToplevelState::default();
    state.add(WINDOW);
    state.publish(WINDOW, &snapshot("one"));
    let greetings = state.bind(2);
    assert_eq!(greetings.len(), 1);
    assert_eq!(greetings[0].0, WINDOW);
    assert_eq!(greetings[0].1[0], Event::Title("one".to_string()));
    state.stop(2);
    assert!(state.add(ToplevelId(6)).is_empty(), "nobody listens any more");
}

#[test]
fn a_handle_that_is_gone_is_told_nothing() {
    let mut state = ForeignToplevelState::default();
    state.add(WINDOW);
    state.attach(WINDOW, 10);
    state.attach(WINDOW, 11);
    state.detach(WINDOW, 10);
    assert_eq!(state.publish(WINDOW, &snapshot("one")).handles, vec![11]);
    assert_eq!(all_but(&vec![1, 2, 1, 3], 1), vec![2, 3]);
}

#[test]
fn a_request_becomes_the_action_it_asks_for() {
    assert_eq!(action_for(HandleRequest::Activate), Some(Request::Activate));
    assert_eq!(action_for(HandleRequest::UnsetMinimized), Some(Request::SetMinimized(false)));
    assert_eq!(action_for(HandleRequest::SetMaximized), Some(Request::SetMaximized(true)));
    assert_eq!(action_for(HandleRequest::SetFullscreen), Some(Request::SetFullscreen(true)));
    assert_eq!(action_for(HandleRequest::Close), Some(Request::Close));
    assert_eq!(action_for(HandleRequest::SetRectangle), None);
    assert_eq!(action_for(HandleRequest::Destroy), None);
}

#[test]
fn outputs_are_not_sent_as_messages() {
    let events = [
        Event::Title("t".to_string()),
        Event::OutputEnter(0),
        Event::State(vec![State::Maximized]),
        Event::Done,
    ];
    assert_eq!(
        messages(&events),
        vec![
            Message::Title("t".to_string()),
            Message::State(0u32.to_ne_bytes().to_vec()),
            Message::Done,
        ]
    );
}

#[test]
fn states_are_written_with_the_bytes_of_their_numbers() {
    let numbers = [[10, 11, 12, 13], [20, 21, 22, 23], [30, 31, 32, 33], [40, 41, 42, 43]];
    assert_eq!(
        encode_with(&numbers, &[State::Activated, State::Maximized, State::Fullscreen]),
        vec![30, 31, 32, 33, 10, 11, 12, 13, 40, 41, 42, 43]
    );
    assert_eq!(
        encode_states(&[State::Minimized, State::Activated]),
        [1u32.to_ne_bytes(), 2u32.to_ne_bytes()].concat()
    );
}
