use cusk::foreign_toplevel::ToplevelId;
use cusk::stage::Snapshot;
use cusk::stage_server::{next_step, start_writing, stride, Attempt, StageState, WriteStep};

fn snapshot(bytes: usize) -> Snapshot {
    Snapshot { width: 3, height: 2, pixels: vec![0; bytes] }
}

#[test]
fn only_watchers_of_a_window_are_told() {
    let mut state = StageState::default();
    state.watch(ToplevelId(1), 10);
    state.watch(ToplevelId(1), 11);
    state.watch(ToplevelId(2), 12);
    assert_eq!(state.watched(), 2);
    assert_eq!(state.publish(ToplevelId(1), &snapshot(24)), vec![10, 11]);
    assert_eq!(state.clear(ToplevelId(2)), vec![12]);
    assert!(state.publish(ToplevelId(3), &snapshot(24)).is_empty());
    assert!(state.publish(ToplevelId(1), &snapshot(3)).is_empty(), "a broken one is not sent");
}

#[test]
fn unwatching_undoes_watching() {
    let mut state = StageState::default();
    state.watch(ToplevelId(1), 10);
    state.unwatch(ToplevelId(1), 10);
    assert_eq!(state.watched(), 0);
    assert!(state.clear(ToplevelId(1)).is_empty());
}

#[test]
fn a_picture_is_written_to_its_end() {
    assert_eq!(start_writing(&snapshot(24)), WriteStep::Write(0));
    assert_eq!(start_writing(&snapshot(23)), WriteStep::GiveUp, "it holds too little");
    let nothing = Snapshot { width: 0, height: 2, pixels: Vec::new() };
    assert_eq!(start_writing(&nothing), WriteStep::Seal);
    assert_eq!(next_step(0, 24, Attempt::Wrote(10)), WriteStep::Write(10));
    assert_eq!(next_step(10, 24, Attempt::Interrupted), WriteStep::Write(10));
    assert_eq!(next_step(10, 24, Attempt::Wrote(14)), WriteStep::Seal);
    assert_eq!(next_step(10, 24, Attempt::Wrote(0)), WriteStep::GiveUp);
    assert_eq!(next_step(10, 24, Attempt::Failed), WriteStep::GiveUp);
    assert_eq!(stride(&snapshot(24)), 12);
}
