use cusk::bindings::{
    binding_for, documented, in_group, rendered, resolve, Binding, Chord, Group, Keysym, ModKey,
    ModifiersState,
};

const A: Keysym = Keysym(0x0061);
const Z: Keysym = Keysym(0x007a);
const F5: Keysym = Keysym(0xffc2);
const ESCAPE: Keysym = Keysym(0xff1b);
const ZERO: Keysym = Keysym(0x0030);
const ONE: Keysym = Keysym(0x0031);
const NINE: Keysym = Keysym(0x0039);
const THREE: Keysym = Keysym(0x0033);
const SLASH: Keysym = Keysym(0x002f);
const QUESTION: Keysym = Keysym(0x003f);
const RETURN: Keysym = Keysym(0xff0d);
const D: Keysym = Keysym(0x0064);
const T: Keysym = Keysym(0x0074);
const E: Keysym = Keysym(0x0065);
const M: Keysym = Keysym(0x006d);
const SPACE: Keysym = Keysym(0x0020);
const J: Keysym = Keysym(0x006a);
const K: Keysym = Keysym(0x006b);
const L: Keysym = Keysym(0x006c);
const H: Keysym = Keysym(0x0068);
const CAPITAL_J: Keysym = Keysym(0x004a);
const CAPITAL_K: Keysym = Keysym(0x004b);
const CAPITAL_P: Keysym = Keysym(0x0050);

#[test]
fn every_documented_chord_resolves() {
    for row in documented() {
        let Some(sym) = row.check else { continue };
        assert!(
            resolve(sym, false).is_some(),
            "{:?} is documented as {:?} but resolves to nothing",
            sym,
            row.chord,
        );
    }
}

#[test]
fn every_binding_variant_is_documented() {
    // Constructed by hand precisely because `Binding` cannot be enumerated.
    // Adding a variant and forgetting this list fails to compile — the
    // match below is exhaustive with no wildcard, which is the mechanism.
    let described = |binding: Binding| -> &'static str {
        match binding {
            Binding::ToggleMaximize => "maximise / restore",
            Binding::ToggleTiling => "tiling on / off",
            Binding::ToggleFloating => "float this window out of the layout",
            Binding::CycleLayout => "cycle layout (master-stack, columns)",
            Binding::Widen(_) => "narrow / widen the master column",
            Binding::Spawn => "open another terminal",
            Binding::Launcher => "application launcher",
            Binding::Keys => "this list of shortcuts",
            Binding::FocusStep(_) => "focus next / previous window",
            Binding::MoveInOrder(_) => "move it earlier / later in the layout",
            Binding::Promote => "promote it to master",
            Binding::Workspace(_) => "switch workspace",
            Binding::SendToWorkspace(_) => "send this window to that workspace",
        }
    };

    for binding in [
        Binding::ToggleMaximize,
        Binding::ToggleTiling,
        Binding::ToggleFloating,
        Binding::CycleLayout,
        Binding::Widen(1),
        Binding::Spawn,
        Binding::Launcher,
        Binding::Keys,
        Binding::FocusStep(1),
        Binding::MoveInOrder(1),
        Binding::Promote,
        Binding::Workspace(0),
        Binding::SendToWorkspace(0),
    ] {
        let wanted = described(binding);
        assert!(
            documented().iter().any(|row| row.description == wanted),
            "{binding:?} is implemented but no row describes it",
        );
    }
}

#[test]
fn bindings_unbound_keys_are_not_claimed() {
    for sym in [A, Z, F5, ESCAPE, ZERO] {
        assert_eq!(resolve(sym, false), None, "{sym:?} was claimed");
    }
}

#[test]
fn bindings_digits_pick_a_workspace_and_shift_sends_to_it() {
    assert_eq!(resolve(ONE, false), Some(Binding::Workspace(0)));
    assert_eq!(resolve(NINE, false), Some(Binding::Workspace(8)));
    assert_eq!(resolve(ONE, true), Some(Binding::SendToWorkspace(0)));
    assert_eq!(resolve(THREE, true), Some(Binding::SendToWorkspace(2)));
}

#[test]
fn both_halves_of_the_help_key_work() {
    assert_eq!(resolve(SLASH, false), Some(Binding::Keys));
    assert_eq!(resolve(QUESTION, true), Some(Binding::Keys));
}

#[test]
fn the_modifier_is_rendered_not_assumed() {
    assert_eq!(Chord::Mod("m").render("super"), "super + m");
    assert_eq!(Chord::Mod("m").render("alt"), "alt + m");
    // The tty chords do not move.
    assert_eq!(
        Chord::Fixed("ctrl + alt + escape").render("alt"),
        "ctrl + alt + escape"
    );
}

#[test]
fn no_group_is_empty() {
    for group in Group::all() {
        assert!(in_group(group).len() > 0, "{group:?} has no bindings");
    }
    assert_eq!(
        rendered("super").iter().map(|(_, rows)| rows.len()).sum::<usize>(),
        documented().len(),
        "grouping lost or duplicated a row"
    );
}

#[test]
fn the_advertised_bindings_all_resolve() {
    for (sym, expected) in [
        (RETURN, Binding::Spawn),
        (D, Binding::Launcher),
        (T, Binding::ToggleTiling),
        (E, Binding::CycleLayout),
        (M, Binding::ToggleMaximize),
        (SPACE, Binding::ToggleFloating),
        (J, Binding::FocusStep(1)),
        (K, Binding::FocusStep(-1)),
        (L, Binding::Widen(1)),
        (H, Binding::Widen(-1)),
        (CAPITAL_J, Binding::MoveInOrder(1)),
        (CAPITAL_K, Binding::MoveInOrder(-1)),
        (CAPITAL_P, Binding::Promote),
    ] {
        assert_eq!(
            binding_for(sym, false),
            Some(expected),
            "{sym:?} resolves to nothing"
        );
    }
}

#[test]
fn main_digits_pick_a_workspace_and_shift_sends_to_it() {
    assert_eq!(binding_for(ONE, false), Some(Binding::Workspace(0)));
    assert_eq!(binding_for(NINE, false), Some(Binding::Workspace(8)));
    assert_eq!(binding_for(ONE, true), Some(Binding::SendToWorkspace(0)));
    assert_eq!(binding_for(THREE, true), Some(Binding::SendToWorkspace(2)));
}

#[test]
fn main_unbound_keys_are_not_claimed() {
    for sym in [A, Z, F5, ESCAPE, ZERO] {
        assert_eq!(binding_for(sym, false), None, "{sym:?} was claimed");
    }
}

fn modifiers(ctrl: bool, alt: bool, logo: bool) -> ModifiersState {
    ModifiersState { ctrl, alt, shift: false, logo }
}

#[test]
fn a_modifier_is_read_from_the_environment_before_the_file() {
    assert_eq!(ModKey::resolve("super", Some("alt")), ModKey::Alt);
    assert_eq!(ModKey::resolve("ctrl", None), ModKey::Ctrl);
    assert_eq!(ModKey::parse("Ctrl-Alt"), ModKey::CtrlAlt);
    assert_eq!(ModKey::parse("anything else"), ModKey::Super);
}

#[test]
fn a_modifier_is_held_when_its_keys_are() {
    assert!(ModKey::Super.held(&modifiers(false, false, true)));
    assert!(!ModKey::Super.held(&modifiers(true, true, false)));
    assert!(ModKey::Alt.held(&modifiers(false, true, false)));
    assert!(ModKey::Ctrl.held(&modifiers(true, false, false)));
    assert!(ModKey::CtrlAlt.held(&modifiers(true, true, false)));
    assert!(!ModKey::CtrlAlt.held(&modifiers(true, false, false)));
    assert_eq!(ModKey::CtrlAlt.label(), "ctrl + alt");
}

#[test]
fn each_group_keeps_the_order_of_the_whole_list() {
    let all = documented();
    for group in Group::all() {
        let rows: Vec<&str> = in_group(group).iter().map(|row| row.description).collect();
        let expected: Vec<&str> = all
            .iter()
            .filter(|row| row.group == group)
            .map(|row| row.description)
            .collect();
        assert_eq!(rows, expected, "{}", group.title());
    }
}
