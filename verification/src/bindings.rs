//! The keyboard bindings, described once.
//!
//! `resolve` is the executable truth and `documented` is the description of it.
//! Every documented single-key chord resolves, and every kind of binding has a
//! row that describes it.
//!
//! `Ctrl+Alt+Escape` and `Ctrl+Alt+F1..F12` belong to the tty driver, which sees
//! them before the bindings are consulted. They are listed here as `Fixed`,
//! because the configured modifier does not touch them.

use vstd::prelude::*;

use crate::chars;

verus! {

/// Which modifier arms the bindings.
#[derive(Clone, Copy, Debug, PartialEq, Eq, Structural)]
pub enum ModKey {
    Super,
    Alt,
    Ctrl,
    CtrlAlt,
}

/// Which modifiers are down.
#[derive(Clone, Copy, Debug, PartialEq, Eq, Structural)]
pub struct ModifiersState {
    pub ctrl: bool,
    pub alt: bool,
    pub shift: bool,
    pub logo: bool,
}

/// The modifier that a name stands for; a name that stands for none gives
/// `Super`.
pub open spec fn mod_key(name: Seq<char>) -> ModKey {
    let small = chars::lowered(name);
    if small == "alt"@ {
        ModKey::Alt
    } else if small == "ctrl"@ {
        ModKey::Ctrl
    } else if small == "ctrl-alt"@ || small == "ctrlalt"@ {
        ModKey::CtrlAlt
    } else {
        ModKey::Super
    }
}

impl ModKey {
    /// Resolve from the config, with an override from the environment.
    pub fn resolve(configured: &str, environment: Option<&str>) -> (key: ModKey)
        ensures
            environment is None ==> key == mod_key(configured@),
            environment is Some ==> key == mod_key(environment->Some_0@),
    {
        match environment {
            Some(chosen) => ModKey::parse(chosen),
            None => ModKey::parse(configured),
        }
    }

    /// The modifier that a name stands for, in any case.
    pub fn parse(name: &str) -> (key: ModKey)
        ensures
            key == mod_key(name@),
    {
        let name: Vec<char> = chars::chars_of(name);
        let small: Vec<char> = chars::ascii_lowercase(&name);
        if chars::spells(&small, "alt") {
            ModKey::Alt
        } else if chars::spells(&small, "ctrl") {
            ModKey::Ctrl
        } else if chars::spells(&small, "ctrl-alt") || chars::spells(&small, "ctrlalt") {
            ModKey::CtrlAlt
        } else {
            ModKey::Super
        }
    }

    pub open spec fn is_held(self, m: ModifiersState) -> bool {
        match self {
            ModKey::Super => m.logo,
            ModKey::Alt => m.alt,
            ModKey::Ctrl => m.ctrl,
            ModKey::CtrlAlt => m.ctrl && m.alt,
        }
    }

    pub fn held(self, m: &ModifiersState) -> (b: bool)
        ensures
            b == self.is_held(*m),
    {
        match self {
            ModKey::Super => m.logo,
            ModKey::Alt => m.alt,
            ModKey::Ctrl => m.ctrl,
            ModKey::CtrlAlt => m.ctrl && m.alt,
        }
    }

    pub open spec fn name(self) -> Seq<char> {
        match self {
            ModKey::Super => "super"@,
            ModKey::Alt => "alt"@,
            ModKey::Ctrl => "ctrl"@,
            ModKey::CtrlAlt => "ctrl + alt"@,
        }
    }

    pub fn label(self) -> (label: &'static str)
        ensures
            label@ == self.name(),
    {
        match self {
            ModKey::Super => "super",
            ModKey::Alt => "alt",
            ModKey::Ctrl => "ctrl",
            ModKey::CtrlAlt => "ctrl + alt",
        }
    }
}

/// A key symbol, by its number in the X keyboard extension. The symbols of
/// Latin letters, digits and marks are their code points.
#[derive(Debug, Clone, Copy, PartialEq, Eq, Structural)]
pub struct Keysym(pub u32);

/// One thing a key can ask the session to do.
#[derive(Debug, Clone, Copy, PartialEq, Eq, Structural)]
pub enum Binding {
    ToggleMaximize,
    ToggleTiling,
    ToggleFloating,
    CycleLayout,
    Widen(i32),
    Spawn,
    Launcher,
    /// Show the shortcut list.
    Keys,
    FocusStep(isize),
    MoveInOrder(isize),
    Promote,
    Workspace(usize),
    SendToWorkspace(usize),
}

/// Which part of the session a binding belongs to, narrowest scope first.
#[derive(Debug, Clone, Copy, PartialEq, Eq, PartialOrd, Ord, Structural)]
pub enum Group {
    Windows,
    Layout,
    Workspaces,
    Session,
}

impl Group {
    /// Every group, in the order the list shows them.
    pub fn all() -> (groups: [Group; 4])
        ensures
            groups@ == all_groups(),
    {
        let groups: [Group; 4] = [
            Group::Windows,
            Group::Layout,
            Group::Workspaces,
            Group::Session,
        ];
        assert(groups@ =~= all_groups());
        groups
    }

    pub fn title(self) -> (title: &'static str)
        ensures
            title@ == (match self {
                Group::Windows => "Windows"@,
                Group::Layout => "Layout"@,
                Group::Workspaces => "Workspaces"@,
                Group::Session => "Session"@,
            }),
    {
        match self {
            Group::Windows => "Windows",
            Group::Layout => "Layout",
            Group::Workspaces => "Workspaces",
            Group::Session => "Session",
        }
    }
}

pub open spec fn all_groups() -> Seq<Group> {
    seq![Group::Windows, Group::Layout, Group::Workspaces, Group::Session]
}

/// How a chord is written out.
#[derive(Debug, Clone, Copy, PartialEq, Eq)]
pub enum Chord {
    /// Armed by the configured modifier.
    Mod(&'static str),
    /// A chord that the modifier setting does not touch.
    Fixed(&'static str),
}

impl Chord {
    pub open spec fn written(self, mod_label: Seq<char>) -> Seq<char> {
        match self {
            Chord::Mod(keys) => mod_label + " + "@ + keys@,
            Chord::Fixed(keys) => keys@,
        }
    }

    /// Render the chord for display, given whatever the modifier is called.
    pub fn render(self, mod_label: &str) -> (text: String)
        ensures
            text@ == self.written(mod_label@),
    {
        let mut out: Vec<char> = Vec::new();
        match self {
            Chord::Mod(keys) => {
                chars::append(&mut out, mod_label);
                chars::append(&mut out, " + ");
                chars::append(&mut out, keys);
            },
            Chord::Fixed(keys) => {
                chars::append(&mut out, keys);
            },
        }
        assert(out@ =~= self.written(mod_label@));
        chars::text_of(&out)
    }
}

/// One row of the shortcut list.
#[derive(Debug, Clone, Copy)]
pub struct Documented {
    pub group: Group,
    pub chord: Chord,
    pub description: &'static str,
    /// The keysym that produces this binding, when one key does. `None` for
    /// pointer gestures, the tty chords, and ranges like `1..9`.
    pub check: Option<Keysym>,
}

pub open spec fn row(
    group: Group,
    chord: Chord,
    description: &'static str,
    check: Option<Keysym>,
) -> Documented {
    Documented { group, chord, description, check }
}

fn new_row(
    group: Group,
    chord: Chord,
    description: &'static str,
    check: Option<Keysym>,
) -> (r: Documented)
    ensures
        r == row(group, chord, description, check),
{
    Documented { group, chord, description, check }
}

/// Every binding, in the order the list shows them.
pub open spec fn documented_rows() -> Seq<Documented> {
    seq![
        row(Group::Windows, Chord::Fixed("click"), "focus and raise", None),
        row(Group::Windows, Chord::Mod("drag"), "move the window", None),
        row(Group::Windows, Chord::Mod("right drag"), "resize from the nearest corner", None),
        row(Group::Windows, Chord::Mod("m"), "maximise / restore", Some(Keysym(0x6d))),
        row(Group::Windows, Chord::Mod("space"), "float this window out of the layout", Some(Keysym(0x20))),
        row(Group::Windows, Chord::Mod("j / k"), "focus next / previous window", Some(Keysym(0x6a))),
        row(Group::Windows, Chord::Mod("shift + j / k"), "move it earlier / later in the layout", Some(Keysym(0x4a))),
        row(Group::Windows, Chord::Mod("shift + p"), "promote it to master", Some(Keysym(0x50))),
        row(Group::Layout, Chord::Mod("t"), "tiling on / off", Some(Keysym(0x74))),
        row(Group::Layout, Chord::Mod("e"), "cycle layout (master-stack, columns)", Some(Keysym(0x65))),
        row(Group::Layout, Chord::Mod("h / l"), "narrow / widen the master column", Some(Keysym(0x68))),
        row(Group::Workspaces, Chord::Mod("1..9"), "switch workspace", None),
        row(Group::Workspaces, Chord::Mod("shift + 1..9"), "send this window to that workspace", None),
        row(Group::Session, Chord::Mod("enter"), "open another terminal", Some(Keysym(0xff0d))),
        row(Group::Session, Chord::Mod("d"), "application launcher", Some(Keysym(0x64))),
        row(Group::Session, Chord::Mod("/"), "this list of shortcuts", Some(Keysym(0x2f))),
        row(Group::Session, Chord::Fixed("ctrl + alt + f1..f12"), "switch to another virtual terminal", None),
        row(Group::Session, Chord::Fixed("ctrl + alt + escape"), "end the session", None),
    ]
}

/// Every binding, in the order the list shows them.
pub fn documented() -> (rows: Vec<Documented>)
    ensures
        rows@ == documented_rows(),
{
    let mut rows: Vec<Documented> = Vec::new();
    rows.push(new_row(Group::Windows, Chord::Fixed("click"), "focus and raise", None));
    rows.push(new_row(Group::Windows, Chord::Mod("drag"), "move the window", None));
    rows.push(new_row(Group::Windows, Chord::Mod("right drag"), "resize from the nearest corner", None));
    rows.push(new_row(Group::Windows, Chord::Mod("m"), "maximise / restore", Some(Keysym(0x6d))));
    rows.push(new_row(Group::Windows, Chord::Mod("space"), "float this window out of the layout", Some(Keysym(0x20))));
    rows.push(new_row(Group::Windows, Chord::Mod("j / k"), "focus next / previous window", Some(Keysym(0x6a))));
    rows.push(new_row(Group::Windows, Chord::Mod("shift + j / k"), "move it earlier / later in the layout", Some(Keysym(0x4a))));
    rows.push(new_row(Group::Windows, Chord::Mod("shift + p"), "promote it to master", Some(Keysym(0x50))));
    rows.push(new_row(Group::Layout, Chord::Mod("t"), "tiling on / off", Some(Keysym(0x74))));
    rows.push(new_row(Group::Layout, Chord::Mod("e"), "cycle layout (master-stack, columns)", Some(Keysym(0x65))));
    rows.push(new_row(Group::Layout, Chord::Mod("h / l"), "narrow / widen the master column", Some(Keysym(0x68))));
    rows.push(new_row(Group::Workspaces, Chord::Mod("1..9"), "switch workspace", None));
    rows.push(new_row(Group::Workspaces, Chord::Mod("shift + 1..9"), "send this window to that workspace", None));
    rows.push(new_row(Group::Session, Chord::Mod("enter"), "open another terminal", Some(Keysym(0xff0d))));
    rows.push(new_row(Group::Session, Chord::Mod("d"), "application launcher", Some(Keysym(0x64))));
    rows.push(new_row(Group::Session, Chord::Mod("/"), "this list of shortcuts", Some(Keysym(0x2f))));
    rows.push(new_row(Group::Session, Chord::Fixed("ctrl + alt + f1..f12"), "switch to another virtual terminal", None));
    rows.push(new_row(Group::Session, Chord::Fixed("ctrl + alt + escape"), "end the session", None));
    assert(rows@ =~= documented_rows());
    rows
}

/// Which binding a keysym asks for, if any.
pub open spec fn bound(sym: Keysym, shift: bool) -> Option<Binding> {
    let n = sym.0;
    if n == 'm' as u32 {
        Some(Binding::ToggleMaximize)
    } else if n == 't' as u32 {
        Some(Binding::ToggleTiling)
    } else if n == ' ' as u32 {
        Some(Binding::ToggleFloating)
    } else if n == 'e' as u32 {
        Some(Binding::CycleLayout)
    } else if n == 'l' as u32 {
        Some(Binding::Widen(1))
    } else if n == 'h' as u32 {
        Some(Binding::Widen((-1int) as i32))
    } else if n == 0xff0d || n == 0xff8d {
        Some(Binding::Spawn)
    } else if n == 'd' as u32 {
        Some(Binding::Launcher)
    } else if n == '/' as u32 || n == '?' as u32 {
        Some(Binding::Keys)
    } else if n == 'j' as u32 {
        Some(Binding::FocusStep(1))
    } else if n == 'k' as u32 {
        Some(Binding::FocusStep((-1int) as isize))
    } else if n == 'J' as u32 {
        Some(Binding::MoveInOrder(1))
    } else if n == 'K' as u32 {
        Some(Binding::MoveInOrder((-1int) as isize))
    } else if n == 'P' as u32 {
        Some(Binding::Promote)
    } else if '1' as u32 <= n <= '9' as u32 {
        let index = (n - '1' as u32) as usize;
        Some(
            if shift {
                Binding::SendToWorkspace(index)
            } else {
                Binding::Workspace(index)
            },
        )
    } else {
        None
    }
}

/// Which binding a keysym asks for, if any.
///
/// Both halves of the help key count, since `?` is what someone reaching for
/// help presses. Digits pick a workspace and shifted digits send the window to
/// one: what Shift makes of a digit differs by layout, so the plain symbol is
/// read and the modifier taken separately.
pub fn resolve(sym: Keysym, shift: bool) -> (binding: Option<Binding>)
    ensures
        binding == bound(sym, shift),
{
    match sym.0 {
        0x6d => Some(Binding::ToggleMaximize),
        0x74 => Some(Binding::ToggleTiling),
        0x20 => Some(Binding::ToggleFloating),
        0x65 => Some(Binding::CycleLayout),
        0x6c => Some(Binding::Widen(1)),
        0x68 => Some(Binding::Widen(-1)),
        0xff0d | 0xff8d => Some(Binding::Spawn),
        0x64 => Some(Binding::Launcher),
        0x2f | 0x3f => Some(Binding::Keys),
        0x6a => Some(Binding::FocusStep(1)),
        0x6b => Some(Binding::FocusStep(-1)),
        0x4a => Some(Binding::MoveInOrder(1)),
        0x4b => Some(Binding::MoveInOrder(-1)),
        0x50 => Some(Binding::Promote),
        n => {
            if 0x31 <= n && n <= 0x39 {
                let index: usize = (n - 0x31) as usize;
                Some(
                    if shift {
                        Binding::SendToWorkspace(index)
                    } else {
                        Binding::Workspace(index)
                    },
                )
            } else {
                None
            }
        },
    }
}

/// Which binding a key asks for while the modifier is held.
pub fn binding_for(sym: Keysym, shift: bool) -> (binding: Option<Binding>)
    ensures
        binding == bound(sym, shift),
{
    resolve(sym, shift)
}

/// The rows of one group, in table order.
pub open spec fn rows_of(rows: Seq<Documented>, group: Group) -> Seq<Documented> {
    rows.filter(|r: Documented| r.group == group)
}

/// The rows of one group, in table order.
pub fn in_group(group: Group) -> (rows: Vec<Documented>)
    ensures
        rows@ == rows_of(documented_rows(), group),
{
    let all: Vec<Documented> = documented();
    let mut rows: Vec<Documented> = Vec::new();
    for i in 0..all.len()
        invariant
            all@ == documented_rows(),
            rows@ == rows_of(all@.take(i as int), group),
    {
        proof {
            reveal(Seq::filter);
            assert(all@.take(i + 1).drop_last() =~= all@.take(i as int));
        }
        if all[i].group == group {
            rows.push(all[i]);
        }
    }
    assert(all@.take(all@.len() as int) =~= all@);
    rows
}

/// A row as it is shown: how the chord is written, and what it does.
pub open spec fn shown(r: Documented, mod_label: Seq<char>, line: (String, &'static str)) -> bool {
    line.0@ == r.chord.written(mod_label) && line.1 == r.description
}

/// The whole list, grouped and rendered, ready to print or draw.
pub fn rendered(mod_label: &str) -> (list: Vec<(Group, Vec<(String, &'static str)>)>)
    ensures
        list@.len() == 4,
        forall|g: int|
            0 <= g < 4 ==> {
                &&& (#[trigger] list@[g]).0 == all_groups()[g]
                &&& list@[g].1@.len() == rows_of(documented_rows(), all_groups()[g]).len()
                &&& forall|i: int|
                    0 <= i < list@[g].1@.len() ==> shown(
                        rows_of(documented_rows(), all_groups()[g])[i],
                        mod_label@,
                        #[trigger] list@[g].1@[i],
                    )
            },
{
    let groups: [Group; 4] = Group::all();
    let mut list: Vec<(Group, Vec<(String, &'static str)>)> = Vec::new();
    for g in 0..4usize
        invariant
            groups@ == all_groups(),
            list@.len() == g,
            forall|k: int|
                0 <= k < g ==> {
                    &&& (#[trigger] list@[k]).0 == all_groups()[k]
                    &&& list@[k].1@.len() == rows_of(documented_rows(), all_groups()[k]).len()
                    &&& forall|i: int|
                        0 <= i < list@[k].1@.len() ==> shown(
                            rows_of(documented_rows(), all_groups()[k])[i],
                            mod_label@,
                            #[trigger] list@[k].1@[i],
                        )
                },
    {
        let group: Group = groups[g];
        let rows: Vec<Documented> = in_group(group);
        let mut lines: Vec<(String, &'static str)> = Vec::new();
        for i in 0..rows.len()
            invariant
                lines@.len() == i,
                forall|k: int|
                    0 <= k < i ==> shown(rows@[k], mod_label@, #[trigger] lines@[k]),
        {
            lines.push((rows[i].chord.render(mod_label), rows[i].description));
        }
        list.push((group, lines));
    }
    list
}

/// Every documented single-key chord asks for something.
pub proof fn every_documented_chord_resolves(i: int)
    requires
        0 <= i < documented_rows().len(),
        documented_rows()[i].check is Some,
    ensures
        bound(documented_rows()[i].check->Some_0, false) is Some,
{
}

/// The row that describes a binding.
pub open spec fn row_for(binding: Binding) -> int {
    match binding {
        Binding::ToggleMaximize => 3,
        Binding::ToggleFloating => 4,
        Binding::FocusStep(_) => 5,
        Binding::MoveInOrder(_) => 6,
        Binding::Promote => 7,
        Binding::ToggleTiling => 8,
        Binding::CycleLayout => 9,
        Binding::Widen(_) => 10,
        Binding::Workspace(_) => 11,
        Binding::SendToWorkspace(_) => 12,
        Binding::Spawn => 13,
        Binding::Launcher => 14,
        Binding::Keys => 15,
    }
}

/// What a row's key asks for is of the kind that the row describes, and every
/// kind of binding has such a row.
pub proof fn documentation_matches_the_bindings(i: int, binding: Binding)
    requires
        0 <= i < documented_rows().len(),
    ensures
        documented_rows()[i].check is Some ==> row_for(
            bound(documented_rows()[i].check->Some_0, false)->Some_0,
        ) == i,
        0 <= row_for(binding) < documented_rows().len(),
{
}

/// A digit picks the workspace that it counts to, and with Shift sends the window
/// to that same one.
pub proof fn a_digit_picks_its_workspace(n: int)
    requires
        1 <= n <= 9,
    ensures
        ({
            let sym = Keysym(('0' as int + n) as u32);
            &&& bound(sym, false) == Some(Binding::Workspace((n - 1) as usize))
            &&& bound(sym, true) == Some(Binding::SendToWorkspace((n - 1) as usize))
        }),
{
}

/// Two keys that ask for the same are the same key, but for the two halves of the
/// help key and the two Enter keys; so no key stands in another's way.
pub proof fn keys_do_not_clash(a: Keysym, b: Keysym, shift: bool)
    requires
        bound(a, shift) is Some,
        bound(a, shift) == bound(b, shift),
    ensures
        a == b || bound(a, shift) == Some(Binding::Keys) || bound(a, shift) == Some(Binding::Spawn),
{
}

/// Every row of a table is in exactly one of the groups.
pub proof fn grouping_keeps_every_row(rows: Seq<Documented>)
    ensures
        rows_of(rows, Group::Windows).len() + rows_of(rows, Group::Layout).len() + rows_of(
            rows,
            Group::Workspaces,
        ).len() + rows_of(rows, Group::Session).len() == rows.len(),
    decreases rows.len(),
{
    reveal(Seq::filter);
    if rows.len() > 0 {
        grouping_keeps_every_row(rows.drop_last());
    }
}

/// No group of the list is empty.
pub proof fn no_group_is_empty(group: Group)
    ensures
        rows_of(documented_rows(), group).len() > 0,
{
    broadcast use vstd::seq_lib::group_filter_ensures;

    let rows = documented_rows();
    let first = match group {
        Group::Windows => rows[0],
        Group::Layout => rows[8],
        Group::Workspaces => rows[11],
        Group::Session => rows[13],
    };
    assert(rows.contains(first));
    assert(rows_of(rows, group).contains(first));
}

/// A modifier is held only while its keys are, all of them, and no other key makes
/// up for one.
pub proof fn a_modifier_is_its_own_keys(key: ModKey, m: ModifiersState, n: ModifiersState)
    ensures
        m.ctrl && m.alt && m.logo ==> key.is_held(m),
        !m.ctrl && !m.alt && !m.logo ==> !key.is_held(m),
        key == ModKey::CtrlAlt ==> (key.is_held(m) <==> ModKey::Ctrl.is_held(m)
            && ModKey::Alt.is_held(m)),
        key == ModKey::Super && m.logo == n.logo ==> key.is_held(m) == key.is_held(n),
        key == ModKey::Alt && m.alt == n.alt ==> key.is_held(m) == key.is_held(n),
        key == ModKey::Ctrl && m.ctrl == n.ctrl ==> key.is_held(m) == key.is_held(n),
{
}

/// A modifier can be set by the name it is shown under, in small letters; a name
/// that stands for none gives `Super`.
pub proof fn a_modifier_is_set_by_its_name(key: ModKey)
    ensures
        key != ModKey::CtrlAlt ==> mod_key(key.name()) == key,
        mod_key("ctrl-alt"@) == ModKey::CtrlAlt,
        mod_key("ctrlalt"@) == ModKey::CtrlAlt,
        mod_key(Seq::empty()) == ModKey::Super,
{
    reveal_strlit("alt");
    reveal_strlit("ctrl");
    reveal_strlit("super");
    reveal_strlit("ctrl-alt");
    reveal_strlit("ctrlalt");
    assert(chars::lowered("alt"@) =~= "alt"@);
    assert(chars::lowered("ctrl"@) =~= "ctrl"@);
    assert(chars::lowered("super"@) =~= "super"@);
    assert(chars::lowered("ctrl-alt"@) =~= "ctrl-alt"@);
    assert(chars::lowered("ctrlalt"@) =~= "ctrlalt"@);
    assert("ctrl"@.len() != "alt"@.len());
    assert("super"@.len() == 5);
    assert("ctrl-alt"@.len() == 8 && "ctrlalt"@.len() == 7);
    assert(chars::lowered(Seq::empty()).len() == 0);
}

/// The keys for the next and the one before ask for opposite steps, with the
/// focus and with the window, and the big letter moves what the small one looks
/// at.
pub proof fn next_is_the_opposite_of_before(shift: bool)
    ensures
        bound(Keysym('j' as u32), shift) == Some(Binding::FocusStep(1)),
        bound(Keysym('k' as u32), shift) matches Some(Binding::FocusStep(delta)) && delta + 1 == 0,
        bound(Keysym('J' as u32), shift) == Some(Binding::MoveInOrder(1)),
        bound(Keysym('K' as u32), shift) matches Some(Binding::MoveInOrder(delta)) && delta + 1
            == 0,
        bound(Keysym('l' as u32), shift) == Some(Binding::Widen(1)),
        bound(Keysym('h' as u32), shift) matches Some(Binding::Widen(delta)) && delta + 1 == 0,
{
}

} // verus!
