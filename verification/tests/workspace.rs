use cusk::layout::Layout;
use cusk::workspace::Workspaces;

fn spaces(count: usize) -> Workspaces<u32> {
    Workspaces::new(count, false, Layout::default())
}

#[test]
fn there_is_always_at_least_one_workspace() {
    assert_eq!(spaces(0).len(), 1);
    assert_eq!(spaces(4).len(), 4);
}

#[test]
fn windows_land_on_the_active_workspace() {
    let mut w = spaces(3);
    w.insert(1);
    w.switch_to(1);
    w.insert(2);
    assert_eq!(w.active().order, vec![2]);
    assert_eq!(w.workspace_of(&1), Some(0));
    assert_eq!(w.workspace_of(&2), Some(1));
}

#[test]
fn switching_reports_what_to_hide_and_show() {
    let mut w = spaces(2);
    w.insert(1);
    w.insert(2);
    w.switch_to(1);
    w.insert(3);

    let switch = w.switch_to(0).unwrap();
    assert_eq!(switch.hide, vec![3]);
    assert_eq!(switch.show, vec![1, 2]);
}

#[test]
fn switching_to_the_active_workspace_is_a_no_op() {
    let mut w = spaces(3);
    w.insert(1);
    assert!(w.switch_to(0).is_none());
    assert_eq!(w.active_index(), 0);
}

#[test]
fn switching_out_of_range_does_nothing() {
    let mut w = spaces(2);
    assert!(w.switch_to(9).is_none());
    assert_eq!(w.active_index(), 0);
}

#[test]
fn focus_is_remembered_per_workspace() {
    let mut w = spaces(2);
    w.insert(1);
    w.insert(2);
    w.active_mut().focused = Some(1);
    w.switch_to(1);
    let back = w.switch_to(0).unwrap();
    assert_eq!(back.focus, Some(1));
}

#[test]
fn arriving_with_no_remembered_focus_still_focuses_something() {
    let mut w = spaces(2);
    w.switch_to(1);
    w.insert(7);
    w.active_mut().focused = None;
    w.switch_to(0);
    let switch = w.switch_to(1).unwrap();
    assert_eq!(switch.focus, Some(7));
}

#[test]
fn tiling_and_layout_are_per_workspace() {
    let mut w = spaces(2);
    w.active_mut().tiling = true;
    w.active_mut().layout = Layout::Columns;
    w.switch_to(1);
    assert!(!w.active().tiling, "the other workspace must be untouched");
    w.switch_to(0);
    assert!(w.active().tiling);
    assert_eq!(w.active().layout, Layout::Columns);
}

#[test]
fn a_window_can_be_moved_to_another_workspace() {
    let mut w = spaces(3);
    w.insert(1);
    w.insert(2);
    assert!(w.move_to(&2, 2).is_some());
    assert_eq!(w.active().order, vec![1]);
    assert_eq!(w.workspace_of(&2), Some(2));
}

#[test]
fn moving_the_focused_window_hands_focus_to_a_neighbour() {
    let mut w = spaces(2);
    w.insert(1);
    w.insert(2);
    w.active_mut().focused = Some(2);
    let focus = w.move_to(&2, 1).unwrap();
    assert_eq!(focus, Some(1), "focus stays on this workspace");
}

#[test]
fn a_moved_window_is_focused_where_it_arrives() {
    let mut w = spaces(2);
    w.insert(1);
    w.move_to(&1, 1);
    let switch = w.switch_to(1).unwrap();
    assert_eq!(switch.focus, Some(1));
}

#[test]
fn moving_to_the_current_workspace_does_nothing() {
    let mut w = spaces(2);
    w.insert(1);
    assert!(w.move_to(&1, 0).is_none());
    assert_eq!(w.active().order, vec![1]);
}

#[test]
fn removal_searches_every_workspace() {
    let mut w = spaces(3);
    w.insert(1);
    w.move_to(&1, 2);
    w.remove(&1);
    assert_eq!(w.workspace_of(&1), None);
    assert!(w.occupied().iter().all(|o| !o));
}

#[test]
fn removing_the_focused_window_moves_focus() {
    let mut w = spaces(1);
    w.insert(1);
    w.insert(2);
    w.active_mut().focused = Some(2);
    w.remove(&2);
    assert_eq!(w.active().focused, Some(1));
}

#[test]
fn occupancy_reports_which_workspaces_hold_windows() {
    let mut w = spaces(3);
    w.insert(1);
    w.move_to(&1, 2);
    assert_eq!(w.occupied(), vec![false, false, true]);
}

#[test]
fn shrinking_rehomes_windows_rather_than_dropping_them() {
    let mut w = spaces(4);
    w.insert(1);
    w.move_to(&1, 3);
    w.resize(2, false, Layout::default());
    assert_eq!(w.len(), 2);
    assert_eq!(w.workspace_of(&1), Some(1), "the window survived");
}

#[test]
fn shrinking_below_the_active_workspace_moves_you_somewhere_real() {
    let mut w = spaces(5);
    w.switch_to(4);
    w.resize(2, false, Layout::default());
    assert!(w.active_index() < w.len());
}

#[test]
fn growing_adds_empty_workspaces() {
    let mut w = spaces(2);
    w.insert(1);
    w.resize(6, false, Layout::default());
    assert_eq!(w.len(), 6);
    assert_eq!(w.workspace_of(&1), Some(0));
}

#[test]
fn switching_back_shows_what_was_hidden() {
    let mut w = spaces(2);
    w.insert(1);
    w.insert(2);
    let away = w.switch_to(1).unwrap();
    let back = w.switch_to(0).unwrap();
    assert_eq!(away.hide, back.show);
    assert_eq!(w.active().order, vec![1, 2]);
}

#[test]
fn resizing_keeps_every_window() {
    let mut w = spaces(5);
    for i in 0..5 {
        w.switch_to(i);
        w.insert(i as u32);
    }
    w.resize(2, false, Layout::default());
    assert_eq!(w.workspace_of(&0), Some(0));
    for i in 1..5 {
        assert_eq!(w.workspace_of(&i), Some(1), "window {i}");
    }
    w.resize(0, false, Layout::default());
    assert_eq!(w.len(), 1);
    assert!(!w.active().is_empty());
}
