use cusk::display::{Procedure, Run, Step};

fn carry_out(procedure: Procedure, failing: Option<Step>) -> (Vec<Step>, Run) {
    let mut run = Run::new(procedure);
    let mut steps = Vec::new();
    while let Some(step) = run.step() {
        steps.push(step);
        if Some(step) == failing {
            run.report(Err("why".to_string()));
        } else {
            run.report(Ok(()));
        }
    }
    (steps, run)
}

fn position(steps: &[Step], step: Step) -> Option<usize> {
    steps.iter().position(|s| *s == step)
}

#[test]
fn the_watchdog_is_armed_before_the_display_is_taken() {
    for procedure in [Procedure::Modeset, Procedure::Scanout] {
        let (steps, run) = carry_out(procedure, None);
        assert!(position(&steps, Step::ArmWatchdog) < position(&steps, Step::TakeMaster));
        assert!(run.failure().is_none());
    }
}

#[test]
fn a_taken_display_is_given_back_whatever_fails() {
    for procedure in [Procedure::Modeset, Procedure::Scanout] {
        let (all, _) = carry_out(procedure, None);
        let taken = position(&all, Step::TakeMaster).unwrap();
        for failing in &all[taken + 1..] {
            let (steps, _) = carry_out(procedure, Some(*failing));
            assert!(steps.contains(&Step::Restore), "{failing:?}");
            assert!(steps.contains(&Step::ReleaseMaster), "{failing:?}");
        }
    }
}

#[test]
fn a_failure_says_what_could_not_be_done() {
    let (steps, run) = carry_out(Procedure::Scanout, Some(Step::PickOutput));
    assert_eq!(steps.last(), Some(&Step::PickOutput));
    assert!(run.failure().unwrap().starts_with("no connected output with a mode"));
    let (_, run) = carry_out(Procedure::Render, Some(Step::Renderer));
    assert_eq!(run.failure().as_deref(), Some("no GL renderer: why"));
}

#[test]
fn a_missing_keyboard_is_noted_and_no_more() {
    let (steps, run) = carry_out(Procedure::Modeset, Some(Step::OpenKeyboard));
    assert!(steps.contains(&Step::SetMode));
    assert!(run.failure().is_none());
    assert_eq!(run.notes().len(), 1);
    assert_eq!(run.notes()[0], "  no keyboard (why); the watchdog is the only way out");
}

#[test]
fn opening_takes_nothing() {
    let (steps, _) = carry_out(Procedure::Open, None);
    assert!(!steps.contains(&Step::TakeMaster));
    assert!(!steps.contains(&Step::SetMode));
}
