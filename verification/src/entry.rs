//! Desktop entries: finding them, parsing them, and ranking them.
//!
//! The parts of the freedesktop Desktop Entry specification that a launcher
//! needs; actions, D-Bus activation and startup notification are not among
//! them. All of it is a function over text: whoever calls it reads the files.

use vstd::prelude::*;

use crate::chars;
use crate::fields;
use crate::fields::Field;
use crate::identity;
use crate::sort;
use crate::utils;

verus! {

/// One launchable application.
#[derive(Debug, PartialEq, Eq)]
pub struct Entry {
    /// Desktop file id, e.g. `org.kde.konsole.desktop`. The first file with a
    /// given id wins, so a user's own copy overrides the system one.
    pub id: String,
    pub name: String,
    pub comment: Option<String>,
    /// The command, already split and stripped of field codes.
    pub command: Vec<String>,
    /// Needs a terminal to run in.
    pub terminal: bool,
    /// The `Icon=` value: an absolute path or a theme name.
    pub icon: Option<String>,
    /// The raw `Categories=` list, as written.
    pub categories: Vec<String>,
}

/// An entry, as a mathematical value.
#[verifier::ext_equal]
pub struct Application {
    pub id: Seq<char>,
    pub name: Seq<char>,
    pub comment: Option<Seq<char>>,
    pub command: Seq<Seq<char>>,
    pub terminal: bool,
    pub icon: Option<Seq<char>>,
    pub categories: Seq<Seq<char>>,
}

impl View for Entry {
    type V = Application;

    open spec fn view(&self) -> Application {
        Application {
            id: self.id@,
            name: self.name@,
            comment: identity::text(self.comment),
            command: chars::views(self.command@),
            terminal: self.terminal,
            icon: identity::text(self.icon),
            categories: chars::views(self.categories@),
        }
    }
}

fn copy_texts(list: &Vec<String>) -> (copy: Vec<String>)
    ensures
        chars::views(copy@) == chars::views(list@),
{
    let mut copy: Vec<String> = Vec::new();
    for i in 0..list.len()
        invariant
            copy@.len() == i,
            forall|k: int| 0 <= k < i ==> (#[trigger] copy@[k])@ == list@[k]@,
    {
        copy.push(list[i].clone());
    }
    assert(chars::views(copy@) =~= chars::views(list@));
    copy
}

fn copy_text(s: &Option<String>) -> (copy: Option<String>)
    ensures
        identity::text(copy) == identity::text(*s),
{
    match s {
        Some(s) => Some(s.clone()),
        None => None,
    }
}

impl Clone for Entry {
    fn clone(&self) -> (copy: Entry)
        ensures
            copy@ == self@,
    {
        Entry {
            id: self.id.clone(),
            name: self.name.clone(),
            comment: copy_text(&self.comment),
            command: copy_texts(&self.command),
            terminal: self.terminal,
            icon: copy_text(&self.icon),
            categories: copy_texts(&self.categories),
        }
    }
}

/// The applications of a list of entries.
pub open spec fn applications(entries: Seq<Entry>) -> Seq<Application> {
    Seq::new(entries.len(), |i: int| entries[i]@)
}

// ── parsing ────────────────────────────────────────────────────────────────
/// Whether the line after the first `n` is in the main group. Only the header
/// of the main group opens it; any other header ends it.
pub open spec fn in_main_group(lines: Seq<Seq<char>>, n: int) -> bool
    decreases n,
{
    if n <= 0 {
        false
    } else if fields::is_content(lines[n - 1]) && lines[n - 1][0] == '[' {
        lines[n - 1] == "[Desktop Entry]"@
    } else {
        in_main_group(lines, n - 1)
    }
}

/// Whether a line of the main group gives the value of a key. A key with a
/// bracket in it is a localised one, and gives none.
pub open spec fn gives_value(line: Seq<char>) -> bool {
    &&& fields::is_content(line)
    &&& line[0] != '['
    &&& fields::has_value(line)
    &&& !fields::parted(line).0.contains('[')
}

/// The pairs that the first `n` lines of a file give in its main group.
pub open spec fn main_pairs(lines: Seq<Seq<char>>, n: int) -> Seq<(Seq<char>, Seq<char>)>
    decreases n,
{
    if n <= 0 {
        Seq::empty()
    } else {
        let before = main_pairs(lines, n - 1);
        if in_main_group(lines, n - 1) && gives_value(lines[n - 1]) {
            before.push(fields::parted(lines[n - 1]))
        } else {
            before
        }
    }
}

/// The first value of a key in the main group of a file.
pub open spec fn main_value(file: Seq<char>, key: Seq<char>) -> Option<Seq<char>> {
    let lines = fields::lines(file);
    fields::first_value(main_pairs(lines, lines.len() as int), key)
}

/// A value that is not empty.
pub open spec fn not_empty(value: Option<Seq<char>>) -> Option<Seq<char>> {
    match value {
        Some(value) => if value.len() > 0 {
            Some(value)
        } else {
            None
        },
        None => None,
    }
}

/// What a desktop file offers, if it is one that a launcher may offer: an
/// application that is neither hidden nor kept from menus, with a name and a
/// command.
pub open spec fn offered(file: Seq<char>, id: Seq<char>) -> Option<Application> {
    let name = main_value(file, "Name"@);
    let command = main_value(file, "Exec"@);
    if main_value(file, "Type"@) != Some("Application"@) {
        None
    } else if main_value(file, "NoDisplay"@) == Some("true"@) || main_value(file, "Hidden"@)
        == Some("true"@) {
        None
    } else if not_empty(name) is None || command is None || arguments(command->Some_0).len() == 0 {
        None
    } else {
        Some(
            Application {
                id,
                name: name->Some_0,
                comment: not_empty(main_value(file, "Comment"@)),
                command: arguments(command->Some_0),
                terminal: main_value(file, "Terminal"@) == Some("true"@),
                icon: not_empty(main_value(file, "Icon"@)),
                categories: match main_value(file, "Categories"@) {
                    Some(list) => listed(list, ';'),
                    None => Seq::empty(),
                },
            },
        )
    }
}

fn main_fields(file: &str) -> (list: Vec<Field>)
    ensures
        forall|key: Seq<char>|
            fields::first_value(fields::pairs(list@), key) == #[trigger] main_value(file@, key),
{
    let lines: Vec<Vec<char>> = fields::trimmed_lines(file);
    let ghost all = fields::lines(file@);
    let mut list: Vec<Field> = Vec::new();
    let mut in_group: bool = false;
    assert(fields::pairs(list@) =~= Seq::<(Seq<char>, Seq<char>)>::empty());
    assert(chars::texts(lines@).len() == lines@.len());
    for i in 0..lines.len()
        invariant
            chars::texts(lines@) == all,
            in_group == in_main_group(all, i as int),
            fields::pairs(list@) == main_pairs(all, i as int),
    {
        assert(lines@[i as int]@ == chars::texts(lines@)[i as int]);
        if lines[i].len() > 0 && lines[i][0] != '#' {
            if lines[i][0] == '[' {
                in_group = chars::spells(&lines[i], "[Desktop Entry]");
            } else if in_group {
                match fields::part(&lines[i]) {
                    Some(field) => {
                        let at: usize = chars::find(&field.key, '[', 0);
                        proof {
                            chars::lemma_next_index(field.key@, '[', 0);
                            if field.key@.contains('[') {
                                let k = field.key@.index_of('[');
                                assert(field.key@[k] == '[');
                            }
                        }
                        if at >= field.key.len() {
                            let ghost before = fields::pairs(list@);
                            let ghost held = field@;
                            list.push(field);
                            assert(fields::pairs(list@) =~= before.push(held));
                        }
                    },
                    None => {},
                }
            }
        }
    }
    list
}

fn is_true(list: &[Field], key: &str) -> (b: bool)
    ensures
        b == (fields::first_value(fields::pairs(list@), key@) == Some("true"@)),
{
    match fields::lookup(list, key) {
        Some(value) => chars::spells(value, "true"),
        None => false,
    }
}

fn text_field(list: &[Field], key: &str) -> (value: Option<String>)
    ensures
        identity::text(value) == not_empty(fields::first_value(fields::pairs(list@), key@)),
{
    match fields::lookup(list, key) {
        Some(value) => {
            if value.len() > 0 {
                Some(chars::text_of(value))
            } else {
                None
            }
        },
        None => None,
    }
}

/// Parse the `[Desktop Entry]` group of a `.desktop` file.
///
/// `None` for anything a launcher must not offer: a non-application, one marked
/// `NoDisplay` or `Hidden`, or one with no name or no runnable `Exec`.
pub fn parse(file: &str, id: &str) -> (entry: Option<Entry>)
    ensures
        match entry {
            Some(entry) => offered(file@, id@) == Some(entry@),
            None => offered(file@, id@) is None,
        },
{
    let list: Vec<Field> = main_fields(file);
    match fields::lookup(&list, "Type") {
        Some(kind) => {
            assert(main_value(file@, "Type"@) == Some(kind@));
            if !chars::spells(kind, "Application") {
                return None;
            }
        },
        None => {
            assert(main_value(file@, "Type"@) is None);
            return None;
        },
    }
    assert(main_value(file@, "NoDisplay"@) == fields::first_value(
        fields::pairs(list@),
        "NoDisplay"@,
    ));
    assert(main_value(file@, "Hidden"@) == fields::first_value(
        fields::pairs(list@),
        "Hidden"@,
    ));
    if is_true(&list, "NoDisplay") || is_true(&list, "Hidden") {
        return None;
    }
    assert(main_value(file@, "Name"@) == fields::first_value(fields::pairs(list@), "Name"@));
    let name: String = match text_field(&list, "Name") {
        Some(name) => name,
        None => {
            return None;
        },
    };
    assert(main_value(file@, "Exec"@) == fields::first_value(fields::pairs(list@), "Exec"@));
    let command: Vec<String> = match fields::lookup(&list, "Exec") {
        Some(line) => split_command(line),
        None => {
            return None;
        },
    };
    assert(chars::views(command@).len() == command@.len());
    if command.len() == 0 {
        return None;
    }
    let categories: Vec<String> = match fields::lookup(&list, "Categories") {
        Some(value) => split_at(value, ';'),
        None => Vec::new(),
    };
    let comment: Option<String> = text_field(&list, "Comment");
    let icon: Option<String> = text_field(&list, "Icon");
    let terminal: bool = is_true(&list, "Terminal");
    let entry: Entry = Entry {
        id: id.to_owned(),
        name,
        comment,
        command,
        terminal,
        icon,
        categories,
    };
    proof {
        let pairs = fields::pairs(list@);
        assert(main_value(file@, "Categories"@) == fields::first_value(pairs, "Categories"@));
        assert(main_value(file@, "Comment"@) == fields::first_value(pairs, "Comment"@));
        assert(main_value(file@, "Icon"@) == fields::first_value(pairs, "Icon"@));
        assert(main_value(file@, "Terminal"@) == fields::first_value(pairs, "Terminal"@));
        if main_value(file@, "Categories"@) is None {
            assert(chars::views(entry.categories@) =~= Seq::<Seq<char>>::empty());
        }
        assert(entry@ =~= offered(file@, id@)->Some_0);
    }
    Some(entry)
}

/// Whether a line, once trimmed, neither opens a group nor gives a value: one
/// that is blank, a comment, localised, or without a `=`.
pub open spec fn says_nothing(line: Seq<char>) -> bool {
    !fields::is_content(line) || (line[0] != '[' && !gives_value(line))
}

/// The lines that say something.
pub open spec fn telling(lines: Seq<Seq<char>>) -> Seq<Seq<char>> {
    lines.filter(|line: Seq<char>| !says_nothing(line))
}

proof fn lemma_same_start(a: Seq<Seq<char>>, b: Seq<Seq<char>>, n: int)
    requires
        n <= a.len(),
        n <= b.len(),
        forall|k: int| 0 <= k < n ==> #[trigger] a[k] == b[k],
    ensures
        in_main_group(a, n) == in_main_group(b, n),
        main_pairs(a, n) == main_pairs(b, n),
    decreases n,
{
    if n > 0 {
        assert(a[n - 1] == b[n - 1]);
        lemma_same_start(a, b, n - 1);
    }
}

proof fn lemma_telling(lines: Seq<Seq<char>>, n: int)
    requires
        0 <= n <= lines.len(),
    ensures
        ({
            let told = telling(lines.take(n));
            &&& in_main_group(lines, n) == in_main_group(told, told.len() as int)
            &&& main_pairs(lines, n) == main_pairs(told, told.len() as int)
        }),
    decreases n,
{
    reveal(Seq::filter);
    let told = telling(lines.take(n));
    if n > 0 {
        lemma_telling(lines, n - 1);
        let before = telling(lines.take(n - 1));
        let line = lines[n - 1];
        assert(lines.take(n).drop_last() =~= lines.take(n - 1));
        assert(lines.take(n).last() == line);
        if !says_nothing(line) {
            assert(told == before.push(line));
            lemma_same_start(told, before, before.len() as int);
        }
    }
}

/// Files that differ only in lines that say nothing offer the same.
pub proof fn lines_that_say_nothing_change_nothing(a: Seq<char>, b: Seq<char>, id: Seq<char>)
    requires
        telling(fields::lines(a)) == telling(fields::lines(b)),
    ensures
        offered(a, id) == offered(b, id),
{
    let (la, lb) = (fields::lines(a), fields::lines(b));
    lemma_telling(la, la.len() as int);
    lemma_telling(lb, lb.len() as int);
    assert(la.take(la.len() as int) =~= la);
    assert(lb.take(lb.len() as int) =~= lb);
    assert forall|key: Seq<char>| #[trigger] main_value(a, key) == main_value(b, key) by {}
}

proof fn lemma_telling_of_both(a: Seq<Seq<char>>, b: Seq<Seq<char>>)
    ensures
        telling(a + b) == telling(a) + telling(b),
    decreases b.len(),
{
    reveal(Seq::filter);
    if b.len() > 0 {
        lemma_telling_of_both(a, b.drop_last());
        assert((a + b).drop_last() =~= a + b.drop_last());
        assert((a + b).last() == b.last());
        assert(telling(a + b) =~= telling(a) + telling(b));
    } else {
        assert(a + b =~= a);
        assert(telling(a) + telling(b) =~= telling(a));
    }
}

/// A line that says nothing can stand anywhere in a file: before, between or
/// behind its lines.
pub proof fn a_line_that_says_nothing_can_stand_anywhere(
    before: Seq<char>,
    line: Seq<char>,
    after: Seq<char>,
    id: Seq<char>,
)
    requires
        !line.contains('\n'),
        says_nothing(chars::trimmed(line)),
    ensures
        offered(line + seq!['\n'] + after, id) == offered(after, id),
        offered(before + seq!['\n'] + line, id) == offered(before, id),
        offered(before + seq!['\n'] + (line + seq!['\n'] + after), id) == offered(
            before + seq!['\n'] + after,
            id,
        ),
{
    let (lb, ll, la) = (fields::lines(before), fields::lines(line), fields::lines(after));
    fields::lemma_one_line(line);
    fields::lemma_lines_of_both(line, after);
    fields::lemma_lines_of_both(before, line);
    fields::lemma_lines_of_both(before, after);
    fields::lemma_lines_of_both(before, line + seq!['\n'] + after);
    assert(telling(ll) =~= Seq::<Seq<char>>::empty()) by {
        reveal(Seq::filter);
        assert(telling(ll.drop_last()) =~= Seq::<Seq<char>>::empty());
    }
    lemma_telling_of_both(ll, la);
    lemma_telling_of_both(lb, ll);
    lemma_telling_of_both(lb, la);
    lemma_telling_of_both(lb, ll + la);
    assert(telling(ll + la) =~= telling(la));
    assert(telling(lb + ll) =~= telling(lb));
    lines_that_say_nothing_change_nothing(line + seq!['\n'] + after, after, id);
    lines_that_say_nothing_change_nothing(before + seq!['\n'] + line, before, id);
    lines_that_say_nothing_change_nothing(
        before + seq!['\n'] + (line + seq!['\n'] + after),
        before + seq!['\n'] + after,
        id,
    );
}

/// Whether a text is a word without any of the characters that mean something
/// in a line.
pub open spec fn plain_word(s: Seq<char>) -> bool {
    &&& s.len() > 0
    &&& forall|k: int|
        0 <= k < s.len() ==> !chars::white_space(#[trigger] s[k]) && s[k] != '[' && s[k] != '='
            && s[k] != '#'
}

/// A blank line and a comment say nothing.
pub proof fn blank_lines_and_comments_say_nothing(line: Seq<char>)
    requires
        (forall|k: int| 0 <= k < line.len() ==> chars::white_space(#[trigger] line[k])) || (
        line.len() > 0 && line[0] == '#'),
    ensures
        says_nothing(chars::trimmed(line)),
{
    if line.len() > 0 && line[0] == '#' {
        chars::lemma_trimmed_back(line);
    } else {
        chars::lemma_trimmed_blank(line);
    }
}

/// A value for one language, `Key[locale]=value`, says nothing.
pub proof fn localised_values_say_nothing(key: Seq<char>, locale: Seq<char>, value: Seq<char>)
    requires
        plain_word(key),
        !locale.contains('='),
    ensures
        says_nothing(chars::trimmed(key + seq!['['] + locale + seq![']', '='] + value)),
{
    let name = key + seq!['['] + locale + seq![']'];
    let line = key + seq!['['] + locale + seq![']', '='] + value;
    let at = name.len() as int;
    assert(line[at] == '=');
    assert(line[0] == key[0]);
    chars::lemma_trimmed_back(line);
    let left = chars::trimmed(line);
    assert(chars::trimmed_front(line) == line);
    assert(left == line.take(left.len() as int));
    assert(at < left.len());
    assert forall|k: int| 0 <= k < at implies #[trigger] left[k] != '=' by {
        if key.len() < k < key.len() + 1 + locale.len() {
            assert(left[k] == locale[k - key.len() - 1]);
        } else if k < key.len() {
            assert(left[k] == key[k]);
        }
    }
    chars::lemma_next_index(left, '=', 0);
    assert(chars::next_index(left, '=', 0) == at) by {
        assert(left[at] == '=');
    }
    assert(left.subrange(0, at) =~= name);
    assert(name[0] == key[0]);
    assert(name.last() == ']');
    assert(chars::trimmed(name) == name);
    assert(name[key.len() as int] == '[');
    assert(fields::parted(left).0.contains('['));
}

proof fn lemma_other_group(lines: Seq<Seq<char>>, from: int, n: int)
    requires
        0 <= from < n <= lines.len(),
        fields::is_content(lines[from]) && lines[from][0] == '[',
        forall|k: int| from <= k < n ==> #[trigger] lines[k] != "[Desktop Entry]"@,
    ensures
        !in_main_group(lines, n),
        main_pairs(lines, n) == main_pairs(lines, from) || in_main_group(lines, from),
        main_pairs(lines, n) == main_pairs(lines, from + 1),
    decreases n,
{
    assert(lines[n - 1] != "[Desktop Entry]"@);
    if from < n - 1 {
        lemma_other_group(lines, from, n - 1);
    }
}

proof fn lemma_later_group(
    file: Seq<char>,
    header: Seq<char>,
    group: Seq<Seq<char>>,
    longer: Seq<char>,
    id: Seq<char>,
)
    requires
        group.len() > 0,
        group[0] == chars::trimmed(header),
        fields::is_content(chars::trimmed(header)),
        chars::trimmed(header)[0] == '[',
        !group.contains("[Desktop Entry]"@),
        fields::lines(longer) == fields::lines(file) + group,
    ensures
        offered(longer, id) == offered(file, id),
{
    let (some, all) = (fields::lines(file), fields::lines(longer));
    let from = some.len() as int;
    assert(all[from] == group[0]);
    assert forall|k: int| from <= k < all.len() implies #[trigger] all[k] != "[Desktop Entry]"@ by {
        assert(all[k] == group[k - from]);
    }
    lemma_other_group(all, from, all.len() as int);
    assert(main_pairs(all, from + 1) == main_pairs(all, from));
    lemma_same_start(all, some, from);
    assert forall|key: Seq<char>| #[trigger] main_value(longer, key) == main_value(file, key) by {}
}

/// What follows the header of another group changes nothing, as long as the main
/// group is not opened again: actions do not leak into the entry.
pub proof fn a_later_group_changes_nothing(
    file: Seq<char>,
    header: Seq<char>,
    rest: Seq<char>,
    id: Seq<char>,
)
    requires
        !header.contains('\n'),
        fields::is_content(chars::trimmed(header)),
        chars::trimmed(header)[0] == '[',
        chars::trimmed(header) != "[Desktop Entry]"@,
        !fields::lines(rest).contains("[Desktop Entry]"@),
    ensures
        offered(file + seq!['\n'] + header, id) == offered(file, id),
        offered(file + seq!['\n'] + (header + seq!['\n'] + rest), id) == offered(file, id),
        file.len() > 0 && file.last() == '\n' ==> offered(
            file + (header + seq!['\n'] + rest),
            id,
        ) == offered(file, id),
{
    let head = seq![chars::trimmed(header)];
    let group = head + fields::lines(rest);
    let text = header + seq!['\n'] + rest;
    fields::lemma_one_line(header);
    fields::lemma_lines_of_both(header, rest);
    fields::lemma_lines_of_both(file, header);
    fields::lemma_lines_of_both(file, text);
    assert(!group.contains("[Desktop Entry]"@)) by {
        if group.contains("[Desktop Entry]"@) {
            let k = group.index_of("[Desktop Entry]"@);
            if k > 0 {
                assert(fields::lines(rest)[k - 1] == "[Desktop Entry]"@);
            }
        }
    }
    lemma_later_group(file, header, head, file + seq!['\n'] + header, id);
    lemma_later_group(file, header, group, file + seq!['\n'] + text, id);
    if file.len() > 0 && file.last() == '\n' {
        let front = file.drop_last();
        let nothing = Seq::<char>::empty();
        assert(file =~= front + seq!['\n'] + nothing);
        assert(file + text =~= front + seq!['\n'] + text);
        fields::lemma_lines_of_both(front, text);
        lemma_later_group(front, header, group, file + text, id);
        blank_lines_and_comments_say_nothing(nothing);
        a_line_that_says_nothing_can_stand_anywhere(front, nothing, nothing, id);
    }
}

/// The parts of a list between separators, trimmed, without those that are
/// empty then: the last one often is.
pub open spec fn listed(list: Seq<char>, separator: char) -> Seq<Seq<char>> {
    kept(chars::pieces(list, separator))
}

pub open spec fn kept(parts: Seq<Seq<char>>) -> Seq<Seq<char>>
    decreases parts.len(),
{
    if parts.len() == 0 {
        Seq::empty()
    } else {
        let before = kept(parts.drop_last());
        let part = chars::trimmed(parts.last());
        if part.len() > 0 {
            before.push(part)
        } else {
            before
        }
    }
}

fn split_at(list: &[char], separator: char) -> (parts: Vec<String>)
    ensures
        chars::views(parts@) == listed(list@, separator),
{
    let pieces: Vec<Vec<char>> = chars::split(list, separator);
    let ghost all = chars::pieces(list@, separator);
    let mut parts: Vec<String> = Vec::new();
    assert(chars::views(parts@) =~= Seq::<Seq<char>>::empty());
    assert(chars::texts(pieces@).len() == pieces@.len());
    for i in 0..pieces.len()
        invariant
            chars::texts(pieces@) == all,
            chars::views(parts@) == kept(all.take(i as int)),
    {
        assert(pieces@[i as int]@ == chars::texts(pieces@)[i as int]);
        assert(all.take(i + 1).drop_last() =~= all.take(i as int));
        let part: Vec<char> = chars::trim(&pieces[i]);
        if part.len() > 0 {
            let ghost before = chars::views(parts@);
            parts.push(chars::text_of(&part));
            assert(chars::views(parts@) =~= before.push(part@));
        }
    }
    assert(all.take(all.len() as int) =~= all);
    parts
}

/// Split a `;`-separated list.
pub fn split_list(value: &str) -> (parts: Vec<String>)
    ensures
        chars::views(parts@) == listed(value@, ';'),
{
    let value: Vec<char> = chars::chars_of(value);
    split_at(&value, ';')
}

/// The arguments in what is left of a command, when `current` has been read of
/// one. White space ends an argument unless it is quoted; quotes are dropped;
/// `%%` is a percent, and any other code stands for nothing.
pub open spec fn words(s: Seq<char>, quoted: bool, current: Seq<char>) -> Seq<Seq<char>>
    decreases s.len(),
{
    if s.len() == 0 {
        word(current)
    } else if s[0] == '"' {
        words(s.skip(1), !quoted, current)
    } else if s[0] == '%' && s.len() == 1 {
        word(current)
    } else if s[0] == '%' {
        words(
            s.skip(2),
            quoted,
            if s[1] == '%' {
                current.push('%')
            } else {
                current
            },
        )
    } else if chars::white_space(s[0]) && !quoted {
        word(current) + words(s.skip(1), quoted, Seq::empty())
    } else {
        words(s.skip(1), quoted, current.push(s[0]))
    }
}

pub open spec fn word(current: Seq<char>) -> Seq<Seq<char>> {
    if current.len() > 0 {
        seq![current]
    } else {
        Seq::empty()
    }
}

/// The arguments of a command line, without field codes.
pub open spec fn arguments(command: Seq<char>) -> Seq<Seq<char>> {
    words(command, false, Seq::empty())
}

fn push_word(args: &mut Vec<String>, current: &Vec<char>)
    ensures
        chars::views(final(args)@) == chars::views(old(args)@) + word(current@),
{
    if current.len() > 0 {
        args.push(chars::text_of(current));
    }
    assert(chars::views(args@) =~= chars::views(old(args)@) + word(current@));
}

fn split_command(command: &[char]) -> (args: Vec<String>)
    ensures
        chars::views(args@) == arguments(command@),
{
    let mut args: Vec<String> = Vec::new();
    let mut current: Vec<char> = Vec::new();
    let mut quoted: bool = false;
    let mut i: usize = 0;
    assert(command@.skip(0) =~= command@);
    assert(chars::views(args@) + arguments(command@) =~= arguments(command@));
    while i < command.len()
        invariant
            i <= command@.len(),
            chars::views(args@) + words(command@.skip(i as int), quoted, current@) == arguments(
                command@,
            ),
        decreases command@.len() - i,
    {
        let ghost rest = command@.skip(i as int);
        let ghost before = chars::views(args@);
        let ghost held = current@;
        assert(rest.skip(1) =~= command@.skip(i + 1));
        let c: char = command[i];
        if c == '"' {
            quoted = !quoted;
            i = i + 1;
        } else if c == '%' {
            if i + 1 >= command.len() {
                i = i + 1;
                assert(command@.skip(i as int).len() == 0);
                assert(words(command@.skip(i as int), quoted, current@) == words(rest, quoted, held));
            } else {
                assert(rest.skip(2) =~= command@.skip(i + 2));
                if command[i + 1] == '%' {
                    current.push('%');
                }
                i = i + 2;
            }
        } else if chars::is_white_space(c) && !quoted {
            push_word(&mut args, &current);
            current = Vec::new();
            assert(before + (word(held) + words(rest.skip(1), quoted, Seq::empty())) =~= (before
                + word(held)) + words(rest.skip(1), quoted, Seq::empty()));
            assert(current@ =~= Seq::<char>::empty());
            i = i + 1;
        } else {
            current.push(c);
            i = i + 1;
        }
    }
    assert(command@.skip(i as int).len() == 0);
    push_word(&mut args, &current);
    args
}

/// Split an `Exec=` line into arguments, dropping field codes.
///
/// Field codes are placeholders for files that are not passed; left in place
/// they would reach the program as arguments. `%%` stays as one percent.
pub fn strip_field_codes(command: &str) -> (args: Vec<String>)
    ensures
        chars::views(args@) == arguments(command@),
{
    let command: Vec<char> = chars::chars_of(command);
    split_command(&command)
}

pub open spec fn none_empty(list: Seq<Seq<char>>) -> bool {
    forall|i: int| 0 <= i < list.len() ==> (#[trigger] list[i]).len() > 0
}

pub open spec fn none_holds(list: Seq<Seq<char>>, c: char) -> bool {
    forall|i: int| 0 <= i < list.len() ==> !(#[trigger] list[i]).contains(c)
}

/// No argument of a command is empty.
pub proof fn no_argument_is_empty(s: Seq<char>, quoted: bool, current: Seq<char>)
    ensures
        none_empty(words(s, quoted, current)),
    decreases s.len(),
{
    if s.len() == 0 || (s[0] == '%' && s.len() == 1) {
        assert(words(s, quoted, current) == word(current));
    } else if s[0] == '"' {
        no_argument_is_empty(s.skip(1), !quoted, current);
    } else if s[0] == '%' {
        no_argument_is_empty(s.skip(2), quoted, current);
        no_argument_is_empty(s.skip(2), quoted, current.push('%'));
    } else if chars::white_space(s[0]) && !quoted {
        no_argument_is_empty(s.skip(1), quoted, Seq::empty());
    } else {
        no_argument_is_empty(s.skip(1), quoted, current.push(s[0]));
    }
}

/// Whether a text has a percent directly behind another.
pub open spec fn escapes_a_percent(s: Seq<char>) -> bool {
    exists|i: int| 0 <= i && i + 1 < s.len() && (#[trigger] s[i]) == '%' && s[i + 1] == '%'
}

/// Without an escaped percent no argument holds a percent: every field code is
/// gone.
pub proof fn field_codes_are_removed(s: Seq<char>, quoted: bool, current: Seq<char>)
    requires
        !escapes_a_percent(s),
        !current.contains('%'),
    ensures
        none_holds(words(s, quoted, current), '%'),
    decreases s.len(),
{
    assert forall|n: int| 0 < n <= s.len() implies !escapes_a_percent(#[trigger] s.skip(n)) by {
        let t = s.skip(n);
        if escapes_a_percent(t) {
            let i = choose|i: int|
                0 <= i && i + 1 < t.len() && (#[trigger] t[i]) == '%' && t[i + 1] == '%';
            assert(s[i + n] == '%' && s[i + n + 1] == '%');
        }
    }
    if s.len() == 0 || (s[0] == '%' && s.len() == 1) {
        assert(words(s, quoted, current) == word(current));
    } else if s[0] == '"' {
        field_codes_are_removed(s.skip(1), !quoted, current);
    } else if s[0] == '%' {
        if s[1] == '%' {
            assert(escapes_a_percent(s));
        }
        field_codes_are_removed(s.skip(2), quoted, current);
    } else if chars::white_space(s[0]) && !quoted {
        field_codes_are_removed(s.skip(1), quoted, Seq::empty());
    } else {
        let more = current.push(s[0]);
        if more.contains('%') {
            let k = more.index_of('%');
            assert(current[k] == '%');
        }
        field_codes_are_removed(s.skip(1), quoted, more);
    }
}

/// A command with its field codes taken out: each percent with the character
/// behind it, unless that is a percent too.
pub open spec fn without_codes(s: Seq<char>) -> Seq<char>
    decreases s.len(),
{
    if s.len() == 0 {
        s
    } else if s[0] == '%' && s.len() > 1 {
        if s[1] == '%' {
            seq!['%', '%'] + without_codes(s.skip(2))
        } else {
            without_codes(s.skip(2))
        }
    } else {
        seq![s[0]] + without_codes(s.skip(1))
    }
}

/// Taking the field codes out beforehand changes nothing.
pub proof fn field_codes_stand_for_nothing(s: Seq<char>, quoted: bool, current: Seq<char>)
    ensures
        words(without_codes(s), quoted, current) == words(s, quoted, current),
    decreases s.len(),
{
    let t = without_codes(s);
    if s.len() == 0 {
    } else if s[0] == '%' && s.len() > 1 {
        field_codes_stand_for_nothing(s.skip(2), quoted, current);
        field_codes_stand_for_nothing(s.skip(2), quoted, current.push('%'));
        if s[1] == '%' {
            assert(t.skip(2) =~= without_codes(s.skip(2)));
        }
    } else if s[0] == '%' {
        assert(without_codes(s.skip(1)) == s.skip(1));
        assert(t =~= s);
    } else {
        assert(t.skip(1) =~= without_codes(s.skip(1)));
        field_codes_stand_for_nothing(s.skip(1), !quoted, current);
        field_codes_stand_for_nothing(s.skip(1), quoted, Seq::empty());
        field_codes_stand_for_nothing(s.skip(1), quoted, current.push(s[0]));
    }
}

/// No argument holds a quote.
pub proof fn quotes_are_removed(s: Seq<char>, quoted: bool, current: Seq<char>)
    requires
        !current.contains('"'),
    ensures
        none_holds(words(s, quoted, current), '"'),
    decreases s.len(),
{
    if s.len() == 0 || (s[0] == '%' && s.len() == 1) {
        assert(words(s, quoted, current) == word(current));
    } else if s[0] == '"' {
        quotes_are_removed(s.skip(1), !quoted, current);
    } else {
        let c = if s[0] == '%' {
            '%'
        } else {
            s[0]
        };
        let more = current.push(c);
        if more.contains('"') {
            let k = more.index_of('"');
            assert(current[k] == '"');
        }
        if s[0] == '%' {
            quotes_are_removed(s.skip(2), quoted, current);
            quotes_are_removed(s.skip(2), quoted, more);
        } else if chars::white_space(s[0]) && !quoted {
            quotes_are_removed(s.skip(1), quoted, Seq::empty());
        } else {
            quotes_are_removed(s.skip(1), quoted, more);
        }
    }
}

/// How far a text goes without white space.
pub open spec fn run(s: Seq<char>) -> int
    decreases s.len(),
{
    if s.len() == 0 || chars::white_space(s[0]) {
        0
    } else {
        1 + run(s.skip(1))
    }
}

pub proof fn lemma_run(s: Seq<char>)
    ensures
        0 <= run(s) <= s.len(),
        s.len() > 0 && !chars::white_space(s[0]) ==> run(s) > 0,
    decreases s.len(),
{
    if s.len() > 0 && !chars::white_space(s[0]) {
        lemma_run(s.skip(1));
    }
}

/// The parts of a text between white space.
pub open spec fn spaced(s: Seq<char>) -> Seq<Seq<char>>
    decreases s.len(),
{
    if s.len() == 0 {
        Seq::empty()
    } else if chars::white_space(s[0]) {
        spaced(s.skip(1))
    } else {
        proof {
            lemma_run(s);
        }
        seq![s.take(run(s))] + spaced(s.skip(run(s)))
    }
}

proof fn lemma_plain_words(s: Seq<char>, current: Seq<char>)
    requires
        !s.contains('%'),
        !s.contains('"'),
    ensures
        words(s, false, current) == word(current + s.take(run(s))) + spaced(s.skip(run(s))),
        words(s, false, Seq::empty()) == spaced(s),
    decreases s.len(),
{
    let none = Seq::<char>::empty();
    lemma_run(s);
    if s.len() == 0 {
        assert(current + s.take(0) =~= current);
        assert(s.skip(0) =~= s);
    } else {
        let (c, rest) = (s[0], s.skip(1));
        assert(s.contains(c));
        assert forall|x: char| rest.contains(x) implies s.contains(x) by {
            let k = rest.index_of(x);
            assert(s[k + 1] == x);
        }
        lemma_plain_words(rest, none);
        if chars::white_space(c) {
            assert(current + s.take(0) =~= current);
            assert(s.skip(0) =~= s);
            assert(word(none) + spaced(rest) =~= spaced(rest));
        } else {
            lemma_plain_words(rest, current.push(c));
            lemma_plain_words(rest, none.push(c));
            lemma_run(rest);
            let n = run(rest);
            assert(run(s) == n + 1);
            assert(current.push(c) + rest.take(n) =~= current + s.take(n + 1));
            assert(none.push(c) + rest.take(n) =~= s.take(n + 1));
            assert(rest.skip(n) =~= s.skip(n + 1));
        }
    }
}

/// A command without quotes or percents is split at its white space.
pub proof fn a_plain_command_is_split_at_white_space(command: Seq<char>)
    requires
        !command.contains('%'),
        !command.contains('"'),
    ensures
        arguments(command) == spaced(command),
{
    lemma_plain_words(command, Seq::empty());
}

// ── icons and directories ──────────────────────────────────────────────────
/// The sizes of icons, largest first: to scale down looks better than to scale
/// up.
pub const ICON_SIZES: [&'static str; 9] = [
    "256",
    "128",
    "96",
    "64",
    "48",
    "32",
    "24",
    "22",
    "16",
];

/// The directories of icon themes, in the order they are searched.
pub const ICON_THEMES: [&'static str; 6] = [
    "/usr/share/icons/breeze",
    "/usr/share/icons/Adwaita",
    "/usr/share/icons/hicolor",
    "/usr/local/share/icons/breeze",
    "/usr/local/share/icons/Adwaita",
    "/usr/local/share/icons/hicolor",
];

/// A file that may be an icon, and the theme directory it counts under, if any.
#[derive(Debug)]
pub struct Candidate {
    pub theme: Option<String>,
    pub path: String,
}

impl View for Candidate {
    type V = (Option<Seq<char>>, Seq<char>);

    open spec fn view(&self) -> (Option<Seq<char>>, Seq<char>) {
        (identity::text(self.theme), self.path@)
    }
}

pub open spec fn candidates(list: Seq<Candidate>) -> Seq<(Option<Seq<char>>, Seq<char>)> {
    Seq::new(list.len(), |i: int| list[i]@)
}

/// The icons of one size in a theme: vectors before bitmaps, and each in the
/// two layouts that themes use.
pub open spec fn sized_icons(theme: Seq<char>, size: Seq<char>, name: Seq<char>) -> Seq<
    (Option<Seq<char>>, Seq<char>),
> {
    seq![
        (Some(theme), theme + "/apps/"@ + size + "/"@ + name + ".svg"@),
        (Some(theme), theme + "/"@ + size + "x"@ + size + "/apps/"@ + name + ".svg"@),
        (Some(theme), theme + "/apps/"@ + size + "/"@ + name + ".png"@),
        (Some(theme), theme + "/"@ + size + "x"@ + size + "/apps/"@ + name + ".png"@),
    ]
}

/// The icons of the first `n` sizes in a theme.
pub open spec fn theme_sizes(theme: Seq<char>, name: Seq<char>, n: int) -> Seq<
    (Option<Seq<char>>, Seq<char>),
>
    decreases n,
{
    if n <= 0 {
        Seq::empty()
    } else {
        theme_sizes(theme, name, n - 1) + sized_icons(theme, ICON_SIZES@[n - 1]@, name)
    }
}

/// The icons of the first `n` themes, each theme's vectors without a size last.
pub open spec fn theme_icons(name: Seq<char>, n: int) -> Seq<(Option<Seq<char>>, Seq<char>)>
    decreases n,
{
    if n <= 0 {
        Seq::empty()
    } else {
        let theme = ICON_THEMES@[n - 1]@;
        theme_icons(name, n - 1) + theme_sizes(theme, name, 9) + seq![
            (Some(theme), theme + "/scalable/apps/"@ + name + ".svg"@),
        ]
    }
}

pub open spec fn loose(path: Seq<char>) -> (Option<Seq<char>>, Seq<char>) {
    (None, path)
}

/// Every file that may be the icon of a name, in the order they are preferred.
pub open spec fn all_icons(name: Seq<char>) -> Seq<(Option<Seq<char>>, Seq<char>)> {
    theme_icons(name, 6) + seq![
        loose("/usr/share/pixmaps/"@ + name + ".png"@),
        loose("/usr/share/pixmaps/"@ + name + ".svg"@),
        loose("/usr/local/share/pixmaps/"@ + name + ".png"@),
        loose("/usr/local/share/pixmaps/"@ + name + ".svg"@),
    ]
}

fn joined(a: &str, b: &str, c: &str) -> (text: String)
    ensures
        text@ == a@ + b@ + c@,
{
    let mut out: Vec<char> = chars::chars_of(a);
    chars::append(&mut out, b);
    chars::append(&mut out, c);
    chars::text_of(&out)
}

fn push_candidate(list: &mut Vec<Candidate>, theme: Option<&str>, path: String)
    ensures
        candidates(final(list)@) == candidates(old(list)@).push(
            (
                match theme {
                    Some(theme) => Some(theme@),
                    None => None,
                },
                path@,
            ),
        ),
{
    let theme: Option<String> = match theme {
        Some(theme) => Some(theme.to_owned()),
        None => None,
    };
    let candidate: Candidate = Candidate { theme, path };
    let ghost held = candidate@;
    list.push(candidate);
    assert(candidates(list@) =~= candidates(old(list)@).push(held));
}

fn push_sized(list: &mut Vec<Candidate>, theme: &str, size: &str, name: &str)
    ensures
        candidates(final(list)@) == candidates(old(list)@) + sized_icons(theme@, size@, name@),
{
    let flat: String = joined(theme, "/apps/", size);
    let flat: String = joined(flat.as_str(), "/", name);
    let square: String = joined(theme, "/", size);
    let square: String = joined(square.as_str(), "x", size);
    let square: String = joined(square.as_str(), "/apps/", name);
    push_candidate(list, Some(theme), joined(flat.as_str(), ".svg", ""));
    push_candidate(list, Some(theme), joined(square.as_str(), ".svg", ""));
    push_candidate(list, Some(theme), joined(flat.as_str(), ".png", ""));
    push_candidate(list, Some(theme), joined(square.as_str(), ".png", ""));
    proof {
        reveal_strlit("");
        let (f, q) = (flat@, square@);
        assert(f + ".svg"@ + ""@ =~= f + ".svg"@);
        assert(q + ".svg"@ + ""@ =~= q + ".svg"@);
        assert(f + ".png"@ + ""@ =~= f + ".png"@);
        assert(q + ".png"@ + ""@ =~= q + ".png"@);
        assert(candidates(list@) =~= candidates(old(list)@) + sized_icons(theme@, size@, name@));
    }
}

/// Every file that may be the icon of a name, in the order they are preferred.
///
/// Two directory layouts are covered, since hicolor and Adwaita nest as
/// `SIZE/apps/name` and breeze as `apps/SIZE/name`; theme inheritance,
/// `index.theme` and scaled variants are not.
pub fn icon_candidates(name: &str) -> (list: Vec<Candidate>)
    ensures
        candidates(list@) == all_icons(name@),
{
    let mut list: Vec<Candidate> = Vec::new();
    assert(candidates(list@) =~= Seq::<(Option<Seq<char>>, Seq<char>)>::empty());
    for t in 0..6usize
        invariant
            candidates(list@) == theme_icons(name@, t as int),
    {
        let theme: &str = ICON_THEMES[t];
        let ghost before = candidates(list@);
        assert(before + theme_sizes(theme@, name@, 0) =~= before);
        for i in 0..9usize
            invariant
                candidates(list@) == before + theme_sizes(theme@, name@, i as int),
        {
            push_sized(&mut list, theme, ICON_SIZES[i], name);
            assert(candidates(list@) =~= before + theme_sizes(theme@, name@, i + 1));
        }
        push_candidate(&mut list, Some(theme), joined_three(theme, "/scalable/apps/", name, ".svg"));
        assert(candidates(list@) =~= theme_icons(name@, t + 1));
    }
    push_candidate(&mut list, None, joined("/usr/share/pixmaps/", name, ".png"));
    push_candidate(&mut list, None, joined("/usr/share/pixmaps/", name, ".svg"));
    push_candidate(&mut list, None, joined("/usr/local/share/pixmaps/", name, ".png"));
    push_candidate(&mut list, None, joined("/usr/local/share/pixmaps/", name, ".svg"));
    assert(candidates(list@) =~= all_icons(name@));
    list
}

fn joined_three(a: &str, b: &str, c: &str, d: &str) -> (text: String)
    ensures
        text@ == a@ + b@ + c@ + d@,
{
    let mut out: Vec<char> = chars::chars_of(a);
    chars::append(&mut out, b);
    chars::append(&mut out, c);
    chars::append(&mut out, d);
    chars::text_of(&out)
}

/// Whether a candidate is there: its theme is one of the directories and it is
/// one of the files.
pub open spec fn present(
    candidate: (Option<Seq<char>>, Seq<char>),
    dirs: Seq<Seq<char>>,
    files: Seq<Seq<char>>,
) -> bool {
    (candidate.0 is Some ==> dirs.contains(candidate.0->Some_0)) && files.contains(candidate.1)
}

/// Find an icon file for an `Icon=` value, among the directories and the files
/// that exist: an absolute path as it is given, and a name as the first of its
/// candidates that is there.
pub fn find_icon(name: &str, dirs: &[String], files: &[String]) -> (icon: Option<String>)
    ensures
        name@.len() > 0 && name@[0] == '/' ==> identity::text(icon) == (if chars::views(
            files@,
        ).contains(name@) {
            Some(name@)
        } else {
            None
        }),
        !(name@.len() > 0 && name@[0] == '/') ==> match icon {
            Some(path) => exists|i: int|
                0 <= i < all_icons(name@).len() && present(
                    #[trigger] all_icons(name@)[i],
                    chars::views(dirs@),
                    chars::views(files@),
                ) && path@ == all_icons(name@)[i].1 && forall|k: int|
                    0 <= k < i ==> !present(
                        #[trigger] all_icons(name@)[k],
                        chars::views(dirs@),
                        chars::views(files@),
                    ),
            None => forall|k: int|
                0 <= k < all_icons(name@).len() ==> !present(
                    #[trigger] all_icons(name@)[k],
                    chars::views(dirs@),
                    chars::views(files@),
                ),
        },
{
    let spelled: Vec<char> = chars::chars_of(name);
    if spelled.len() > 0 && spelled[0] == '/' {
        return if chars::position_of(files, &spelled).is_some() {
            Some(name.to_owned())
        } else {
            None
        };
    }
    let list: Vec<Candidate> = icon_candidates(name);
    let ghost all = all_icons(name@);
    assert(candidates(list@).len() == list@.len());
    for i in 0..list.len()
        invariant
            !(name@.len() > 0 && name@[0] == '/'),
            all == all_icons(name@),
            candidates(list@) == all,
            forall|k: int|
                0 <= k < i ==> !present(
                    #[trigger] all[k],
                    chars::views(dirs@),
                    chars::views(files@),
                ),
    {
        assert(all[i as int] == list@[i as int]@);
        let themed: bool = match &list[i].theme {
            Some(theme) => {
                let theme: Vec<char> = chars::chars_of(theme.as_str());
                chars::position_of(dirs, &theme).is_some()
            },
            None => true,
        };
        if themed {
            let path: Vec<char> = chars::chars_of(list[i].path.as_str());
            if chars::position_of(files, &path).is_some() {
                return Some(list[i].path.clone());
            }
        }
    }
    None
}

/// A path below a directory.
pub open spec fn below(dir: Seq<char>, rest: Seq<char>) -> Seq<char> {
    if dir.len() == 0 {
        rest
    } else if dir.last() == '/' {
        dir + rest
    } else {
        dir + "/"@ + rest
    }
}

pub(crate) fn path_below(dir: &Vec<char>, rest: &str) -> (path: Vec<char>)
    ensures
        path@ == below(dir@, rest@),
{
    let mut path: Vec<char> = chars::part(dir, 0, dir.len());
    assert(path@ =~= dir@);
    if path.len() > 0 && path[path.len() - 1] != '/' {
        chars::append(&mut path, "/");
    }
    chars::append(&mut path, rest);
    assert(path@ =~= below(dir@, rest@));
    path
}

/// The parts of a `:`-separated list, without empty ones.
pub open spec fn non_empty_parts(parts: Seq<Seq<char>>) -> Seq<Seq<char>> {
    parts.filter(|part: Seq<char>| part.len() > 0)
}

/// The directories that hold shared data, in precedence order: the user's own
/// first, then the system's.
pub open spec fn data_dirs(
    data_home: Option<Seq<char>>,
    home: Option<Seq<char>>,
    system: Option<Seq<char>>,
) -> Seq<Seq<char>> {
    let own = match not_empty(data_home) {
        Some(dir) => seq![dir],
        None => match home {
            Some(home) => seq![below(home, ".local/share"@)],
            None => Seq::empty(),
        },
    };
    let list = match not_empty(system) {
        Some(list) => list,
        None => "/usr/local/share:/usr/share"@,
    };
    own + non_empty_parts(chars::pieces(list, ':'))
}

pub open spec fn optional(s: Option<&str>) -> Option<Seq<char>> {
    match s {
        Some(s) => Some(s@),
        None => None,
    }
}

fn push_dir(dirs: &mut Vec<String>, dir: &Vec<char>)
    ensures
        chars::views(final(dirs)@) == chars::views(old(dirs)@).push(
            below(dir@, "applications"@),
        ),
{
    let path: Vec<char> = path_below(dir, "applications");
    dirs.push(chars::text_of(&path));
    assert(chars::views(dirs@) =~= chars::views(old(dirs)@).push(below(dir@, "applications"@)));
}

/// Where desktop files live, in precedence order, from the values of
/// `XDG_DATA_HOME`, `HOME` and `XDG_DATA_DIRS`.
pub fn search_dirs(data_home: Option<&str>, home: Option<&str>, system: Option<&str>) -> (dirs: Vec<
    String,
>)
    ensures
        chars::views(dirs@) == data_dirs(
            optional(data_home),
            optional(home),
            optional(system),
        ).map_values(|dir: Seq<char>| below(dir, "applications"@)),
{
    let ghost wanted = data_dirs(optional(data_home), optional(home), optional(system));
    let ghost below_it = |dir: Seq<char>| below(dir, "applications"@);
    let mut dirs: Vec<String> = Vec::new();
    let ghost mut own: Seq<Seq<char>> = Seq::empty();
    let chosen: Option<Vec<char>> = match data_home {
        Some(dir) => {
            if dir.is_empty() {
                None
            } else {
                Some(chars::chars_of(dir))
            }
        },
        None => None,
    };
    match chosen {
        Some(dir) => {
            push_dir(&mut dirs, &dir);
            proof {
                own = seq![dir@];
            }
        },
        None => match home {
            Some(home) => {
                let home: Vec<char> = chars::chars_of(home);
                let dir: Vec<char> = path_below(&home, ".local/share");
                push_dir(&mut dirs, &dir);
                proof {
                    own = seq![dir@];
                }
            },
            None => {},
        },
    }
    assert(chars::views(dirs@) =~= own.map_values(below_it));
    let list: Vec<char> = match system {
        Some(list) => {
            if list.is_empty() {
                chars::chars_of("/usr/local/share:/usr/share")
            } else {
                chars::chars_of(list)
            }
        },
        None => chars::chars_of("/usr/local/share:/usr/share"),
    };
    let parts: Vec<Vec<char>> = chars::split(&list, ':');
    let ghost all = chars::pieces(list@, ':');
    assert(chars::texts(parts@).len() == parts@.len());
    proof {
        reveal(Seq::filter);
        assert(non_empty_parts(all.take(0)) =~= Seq::<Seq<char>>::empty());
        assert(own + non_empty_parts(all.take(0)) =~= own);
    }
    for i in 0..parts.len()
        invariant
            chars::texts(parts@) == all,
            below_it == (|dir: Seq<char>| below(dir, "applications"@)),
            chars::views(dirs@) == (own + non_empty_parts(all.take(i as int))).map_values(
                below_it,
            ),
    {
        let ghost before = own + non_empty_parts(all.take(i as int));
        proof {
            reveal(Seq::filter);
            assert(all.take(i + 1).drop_last() =~= all.take(i as int));
            assert(parts@[i as int]@ == all[i as int]);
        }
        if parts[i].len() > 0 {
            push_dir(&mut dirs, &parts[i]);
            assert(own + non_empty_parts(all.take(i + 1)) =~= before.push(all[i as int]));
            assert(chars::views(dirs@) =~= (own + non_empty_parts(all.take(i + 1))).map_values(
                below_it,
            ));
        } else {
            assert(own + non_empty_parts(all.take(i + 1)) =~= before);
        }
    }
    assert(all.take(all.len() as int) =~= all);
    assert(own + non_empty_parts(all) =~= wanted);
    dirs
}

// ── ranking ────────────────────────────────────────────────────────────────
/// What `str::to_lowercase` makes of a text.
pub uninterp spec fn lowercase(s: Seq<char>) -> Seq<char>;

/// Calls `str::to_lowercase`.
///
/// Claimed of it: the result is a function of the text. Which letters have a
/// small form, and what it is, is left to Unicode.
#[verifier::external_body]
fn to_lowercase(s: &str) -> (small: String)
    ensures
        small@ == lowercase(s@),
{
    s.to_lowercase()
}

fn small_letters(s: &str) -> (small: Vec<char>)
    ensures
        small@ == lowercase(s@),
{
    let small: String = to_lowercase(s);
    chars::chars_of(small.as_str())
}

/// How many bytes a character takes in UTF-8.
pub open spec fn utf8_width(c: char) -> int {
    if (c as u32) < 0x80 {
        1
    } else if (c as u32) < 0x800 {
        2
    } else if (c as u32) < 0x10000 {
        3
    } else {
        4
    }
}

/// How many bytes a text takes in UTF-8.
pub open spec fn utf8_length(s: Seq<char>) -> int
    decreases s.len(),
{
    if s.len() == 0 {
        0
    } else {
        utf8_length(s.drop_last()) + utf8_width(s.last())
    }
}

/// The length of a name as far as it counts against it.
pub open spec fn length_penalty(name: Seq<char>) -> int {
    if utf8_length(name) < 200 {
        utf8_length(name)
    } else {
        200
    }
}

fn penalty(name: &[char]) -> (n: i32)
    ensures
        n == length_penalty(name@),
        0 <= n <= 200,
{
    let mut n: i32 = 0;
    for i in 0..name.len()
        invariant
            0 <= n <= 200,
            n == length_penalty(name@.take(i as int)),
    {
        assert(name@.take(i + 1).drop_last() =~= name@.take(i as int));
        let c: u32 = name[i] as u32;
        let width: i32 = if c < 0x80 {
            1
        } else if c < 0x800 {
            2
        } else if c < 0x10000 {
            3
        } else {
            4
        };
        n = if n + width < 200 {
            n + width
        } else {
            200
        };
    }
    assert(name@.take(name@.len() as int) =~= name@);
    n
}

/// Where the word that starts at `from` ends.
pub open spec fn word_end(s: Seq<char>, from: int) -> int
    decreases s.len() - from,
{
    if from >= s.len() || chars::white_space(s[from]) {
        from
    } else {
        word_end(s, from + 1)
    }
}

/// Whether a word starts at `at`.
pub open spec fn starts_word(s: Seq<char>, at: int) -> bool {
    &&& 0 <= at < s.len()
    &&& !chars::white_space(s[at])
    &&& at == 0 || chars::white_space(s[at - 1])
}

/// Whether some word of a name starts with the query.
pub open spec fn some_word_starts(name: Seq<char>, query: Seq<char>) -> bool {
    exists|at: int| #[trigger]
        starts_word(name, at) && chars::starts(name.subrange(at, word_end(name, at)), query)
}

fn a_word_starts(name: &[char], query: &[char]) -> (b: bool)
    ensures
        b == some_word_starts(name@, query@),
{
    for at in 0..name.len()
        invariant
            forall|k: int|
                0 <= k < at && #[trigger] starts_word(name@, k) ==> !chars::starts(
                    name@.subrange(k, word_end(name@, k)),
                    query@,
                ),
    {
        if !chars::is_white_space(name[at]) && (at == 0 || chars::is_white_space(name[at - 1])) {
            assert(starts_word(name@, at as int));
            let mut end: usize = at;
            while end < name.len() && !chars::is_white_space(name[end])
                invariant
                    at <= end <= name@.len(),
                    word_end(name@, end as int) == word_end(name@, at as int),
                decreases name@.len() - end,
            {
                end = end + 1;
            }
            let word: Vec<char> = chars::part(name, at, end);
            if chars::starts_with(&word, query) {
                return true;
            }
        }
    }
    false
}

/// How well a text matches a query, all of it in small letters: an exact name,
/// then a name that starts with the query, then a word inside the name, then
/// anywhere in the name, then the command, then the comment. Among names the
/// shorter ones come first.
pub open spec fn match_score(
    name: Seq<char>,
    query: Seq<char>,
    command: Option<Seq<char>>,
    comment: Option<Seq<char>>,
) -> Option<i32> {
    if name == query {
        Some(1000)
    } else if chars::starts(name, query) {
        Some((800 - length_penalty(name)) as i32)
    } else if some_word_starts(name, query) {
        Some((600 - length_penalty(name)) as i32)
    } else if chars::occurs(name, query) {
        Some((400 - length_penalty(name)) as i32)
    } else if command is Some && chars::occurs(command->Some_0, query) {
        Some(200)
    } else if comment is Some && chars::occurs(comment->Some_0, query) {
        Some(100)
    } else {
        None
    }
}

pub open spec fn list_text(s: Option<&Vec<char>>) -> Option<Seq<char>> {
    match s {
        Some(s) => Some(s@),
        None => None,
    }
}

/// How well a text matches a query, all of it in small letters.
pub fn score_of(
    name: &Vec<char>,
    query: &Vec<char>,
    command: Option<&Vec<char>>,
    comment: Option<&Vec<char>>,
) -> (score: Option<i32>)
    ensures
        score == match_score(name@, query@, list_text(command), list_text(comment)),
{
    if chars::same(name, query) {
        return Some(1000);
    }
    if chars::starts_with(name, query) {
        return Some(800 - penalty(name));
    }
    if a_word_starts(name, query) {
        return Some(600 - penalty(name));
    }
    if chars::contains(name, query) {
        return Some(400 - penalty(name));
    }
    match command {
        Some(command) => {
            if chars::contains(command, query) {
                return Some(200);
            }
        },
        None => {},
    }
    match comment {
        Some(comment) => {
            if chars::contains(comment, query) {
                return Some(100);
            }
        },
        None => {},
    }
    None
}

pub open spec fn lowercase_of(s: Option<Seq<char>>) -> Option<Seq<char>> {
    match s {
        Some(s) => Some(lowercase(s)),
        None => None,
    }
}

/// How well an application matches a query; without a query everything does.
pub open spec fn query_score(app: Application, query: Seq<char>) -> Option<i32> {
    if query.len() == 0 {
        Some(0)
    } else {
        match_score(
            lowercase(app.name),
            lowercase(query),
            lowercase_of(
                if app.command.len() > 0 {
                    Some(app.command[0])
                } else {
                    None
                },
            ),
            lowercase_of(app.comment),
        )
    }
}

/// How well an entry matches a query. Higher is better; `None` means no match.
pub fn score(entry: &Entry, query: &str) -> (score: Option<i32>)
    ensures
        score == query_score(entry@, query@),
{
    if query.is_empty() {
        return Some(0);
    }
    let query: Vec<char> = small_letters(query);
    let name: Vec<char> = small_letters(entry.name.as_str());
    let command: Option<Vec<char>> = if entry.command.len() > 0 {
        assert(chars::views(entry.command@)[0] == entry.command@[0]@);
        Some(small_letters(entry.command[0].as_str()))
    } else {
        None
    };
    let comment: Option<Vec<char>> = match &entry.comment {
        Some(comment) => Some(small_letters(comment.as_str())),
        None => None,
    };
    score_of(&name, &query, command.as_ref(), comment.as_ref())
}

/// The scores of a list of entries.
pub open spec fn query_scores(entries: Seq<Entry>, query: Seq<char>) -> Seq<Option<i32>> {
    Seq::new(entries.len(), |i: int| query_score(entries[i]@, query))
}

/// The names of a list of entries.
pub open spec fn entry_names(entries: Seq<Entry>) -> Seq<Seq<char>> {
    Seq::new(entries.len(), |i: int| entries[i]@.name)
}

/// The names of a list of entries, in small letters.
pub open spec fn small_names(entries: Seq<Entry>) -> Seq<Seq<char>> {
    Seq::new(entries.len(), |i: int| lowercase(entries[i]@.name))
}

/// Whether `chosen` are the entries that `order` lists, in that order.
pub open spec fn taken<'a>(chosen: Seq<&'a Entry>, entries: Seq<Entry>, order: Seq<usize>) -> bool {
    &&& chosen.len() == order.len()
    &&& forall|i: int|
        0 <= i < order.len() ==> *(#[trigger] chosen[i]) == entries[order[i] as int]
}

fn take<'a>(entries: &'a [Entry], order: &Vec<usize>) -> (chosen: Vec<&'a Entry>)
    requires
        forall|i: int| 0 <= i < order@.len() ==> (#[trigger] order@[i]) < entries@.len(),
    ensures
        taken(chosen@, entries@, order@),
{
    let mut chosen: Vec<&'a Entry> = Vec::new();
    for i in 0..order.len()
        invariant
            forall|k: int| 0 <= k < order@.len() ==> (#[trigger] order@[k]) < entries@.len(),
            chosen@.len() == i,
            forall|k: int|
                0 <= k < i ==> *(#[trigger] chosen@[k]) == entries@[order@[k] as int],
    {
        chosen.push(&entries[order[i]]);
    }
    chosen
}

/// The entries matching a query, best first; ties are broken by name, and
/// between equal names by the order they came in.
pub fn rank<'a>(entries: &'a [Entry], query: &str) -> (ranked: Vec<&'a Entry>)
    ensures
        exists|order: Seq<usize>| #[trigger]
            sort::is_ranking(order, query_scores(entries@, query@), entry_names(entries@))
                && taken(ranked@, entries@, order),
{
    let mut scores: Vec<Option<i32>> = Vec::new();
    let mut names: Vec<Vec<char>> = Vec::new();
    for i in 0..entries.len()
        invariant
            scores@.len() == i,
            names@.len() == i,
            forall|k: int| 0 <= k < i ==> scores@[k] == query_score(entries@[k]@, query@),
            forall|k: int| 0 <= k < i ==> (#[trigger] names@[k])@ == entries@[k]@.name,
    {
        scores.push(score(&entries[i], query));
        names.push(chars::chars_of(entries[i].name.as_str()));
    }
    assert(scores@ =~= query_scores(entries@, query@));
    assert(chars::texts(names@) =~= entry_names(entries@));
    let order: Vec<usize> = sort::ranking(&scores, &names);
    take(entries, &order)
}

/// Whether one text stands somewhere inside another.
pub open spec fn stands_inside(text: Seq<char>, part: Seq<char>) -> bool {
    exists|at: int|
        0 <= at && at + part.len() <= text.len() && #[trigger] text.subrange(
            at,
            at + part.len() as int,
        ) == part
}

proof fn lemma_stands_inside(text: Seq<char>, part: Seq<char>)
    ensures
        chars::occurs(text, part) == stands_inside(text, part),
{
    if chars::occurs(text, part) {
        let at = choose|at: int|
            0 <= at <= text.len() && chars::starts(#[trigger] text.skip(at), part);
        assert(text.subrange(at, at + part.len() as int) =~= text.skip(at).take(
            part.len() as int,
        ));
    }
    if stands_inside(text, part) {
        let at = choose|at: int|
            0 <= at && at + part.len() <= text.len() && #[trigger] text.subrange(
                at,
                at + part.len() as int,
            ) == part;
        assert(text.skip(at).take(part.len() as int) =~= text.subrange(
            at,
            at + part.len() as int,
        ));
        assert(chars::starts(text.skip(at), part));
    }
}

proof fn lemma_length(s: Seq<char>)
    ensures
        utf8_length(s) >= s.len(),
    decreases s.len(),
{
    if s.len() > 0 {
        lemma_length(s.drop_last());
    }
}

proof fn lemma_word_end(s: Seq<char>, from: int)
    requires
        0 <= from <= s.len(),
    ensures
        from <= word_end(s, from) <= s.len(),
        forall|k: int| from <= k < word_end(s, from) ==> !chars::white_space(s[k]),
        word_end(s, from) < s.len() ==> chars::white_space(s[word_end(s, from)]),
    decreases s.len() - from,
{
    if from < s.len() && !chars::white_space(s[from]) {
        lemma_word_end(s, from + 1);
    }
}

proof fn lemma_starts_inside(text: Seq<char>, part: Seq<char>)
    ensures
        chars::starts(text, part) || some_word_starts(text, part) ==> stands_inside(text, part),
{
    if chars::starts(text, part) {
        assert(text.subrange(0, 0 + part.len() as int) =~= text.take(part.len() as int));
    } else if some_word_starts(text, part) {
        let at = choose|at: int| #[trigger]
            starts_word(text, at) && chars::starts(text.subrange(at, word_end(text, at)), part);
        lemma_word_end(text, at);
        let word = text.subrange(at, word_end(text, at));
        assert(text.subrange(at, at + part.len() as int) =~= word.take(part.len() as int));
    }
}

/// An application whose name holds the query is found, whatever else it has to
/// show, and no application is above it whose name does not hold it; nor beside
/// it, unless the name takes two hundred bytes.
pub proof fn a_name_that_holds_the_query_is_found(
    app: Application,
    other: Application,
    query: Seq<char>,
)
    requires
        query.len() > 0,
        stands_inside(lowercase(app.name), lowercase(query)),
    ensures
        query_score(app, query) is Some,
        !stands_inside(lowercase(other.name), lowercase(query)) && query_score(other, query)
            is Some ==> {
            let (ours, theirs) = (
                query_score(app, query)->Some_0,
                query_score(other, query)->Some_0,
            );
            &&& ours >= theirs
            &&& utf8_length(lowercase(app.name)) < 200 ==> ours > theirs
        },
{
    lemma_stands_inside(lowercase(app.name), lowercase(query));
    lemma_stands_inside(lowercase(other.name), lowercase(query));
    lemma_length(lowercase(app.name));
    lemma_starts_inside(lowercase(other.name), lowercase(query));
    assert(lowercase(other.name).subrange(0, lowercase(other.name).len() as int)
        =~= lowercase(other.name));
}

/// What is found is what holds the query: in its name, in the command that it
/// runs, or in its comment. Everything is found without a query.
pub proof fn what_holds_the_query_is_found_and_nothing_else(app: Application, query: Seq<char>)
    ensures
        query_score(app, query) is Some <==> {
            ||| query.len() == 0
            ||| stands_inside(lowercase(app.name), lowercase(query))
            ||| app.command.len() > 0 && stands_inside(
                lowercase(app.command[0]),
                lowercase(query),
            )
            ||| app.comment is Some && stands_inside(
                lowercase(app.comment->Some_0),
                lowercase(query),
            )
        },
{
    let name = lowercase(app.name);
    lemma_stands_inside(name, lowercase(query));
    lemma_starts_inside(name, lowercase(query));
    assert(name.subrange(0, name.len() as int) =~= name);
    if app.command.len() > 0 {
        lemma_stands_inside(lowercase(app.command[0]), lowercase(query));
    }
    if app.comment is Some {
        lemma_stands_inside(lowercase(app.comment->Some_0), lowercase(query));
    }
}

/// A name that is the query comes before every other; one that begins with it
/// before those that do not; one that has a word that begins with it before
/// those that have none; and a command that holds it before a comment that does.
pub proof fn closer_matches_come_first(app: Application, other: Application, query: Seq<char>)
    requires
        query.len() > 0,
        query_score(app, query) is Some,
        query_score(other, query) is Some,
    ensures
        ({
            let sought = lowercase(query);
            let (name, theirs) = (lowercase(app.name), lowercase(other.name));
            let (score, less) = (query_score(app, query)->Some_0, query_score(other, query)->Some_0);
            &&& name == sought && theirs != sought ==> score > less
            &&& sought.is_prefix_of(name) && !sought.is_prefix_of(theirs) ==> score > less
            &&& forall|at: int|
                0 < at && at + sought.len() <= name.len() && #[trigger] name.subrange(
                    at,
                    at + sought.len() as int,
                ) == sought && sought.len() > 0 && chars::white_space(name[at - 1]) && (forall|
                    k: int,
                |
                    0 <= k < sought.len() ==> !chars::white_space(#[trigger] sought[k]))
                    && !sought.is_prefix_of(theirs) && !some_word_starts(theirs, sought)
                    ==> score > less
            &&& !stands_inside(name, sought) && !stands_inside(theirs, sought)
                && app.command.len() > 0 && stands_inside(lowercase(app.command[0]), sought) && !(
            other.command.len() > 0 && stands_inside(lowercase(other.command[0]), sought))
                ==> score > less
        }),
{
    let sought = lowercase(query);
    let (name, theirs) = (lowercase(app.name), lowercase(other.name));
    lemma_length(name);
    lemma_length(theirs);
    lemma_stands_inside(name, sought);
    lemma_stands_inside(theirs, sought);
    lemma_starts_inside(name, sought);
    lemma_starts_inside(theirs, sought);
    assert(name.subrange(0, name.len() as int) =~= name);
    assert(theirs.subrange(0, theirs.len() as int) =~= theirs);
    lemma_prefix(name, sought);
    lemma_prefix(theirs, sought);
    if app.command.len() > 0 {
        lemma_stands_inside(lowercase(app.command[0]), sought);
    }
    if other.command.len() > 0 {
        lemma_stands_inside(lowercase(other.command[0]), sought);
    }
    assert forall|at: int|
        0 < at && at + sought.len() <= name.len() && #[trigger] name.subrange(
            at,
            at + sought.len() as int,
        ) == sought && sought.len() > 0 && chars::white_space(name[at - 1]) && (forall|k: int|
            0 <= k < sought.len() ==> !chars::white_space(#[trigger] sought[k]))
        implies some_word_starts(name, sought) by {
        let part = name.subrange(at, at + sought.len() as int);
        assert(part[0] == name[at] && !chars::white_space(sought[0]));
        assert(starts_word(name, at));
        lemma_word_end(name, at);
        if word_end(name, at) < at + sought.len() {
            let k = word_end(name, at) - at;
            assert(sought[k] == name[at + k]);
        }
        let word = name.subrange(at, word_end(name, at));
        assert(word.take(sought.len() as int) =~= part);
    }
}

proof fn lemma_prefix(s: Seq<char>, prefix: Seq<char>)
    ensures
        chars::starts(s, prefix) == prefix.is_prefix_of(s),
        s == prefix ==> chars::starts(s, prefix),
        chars::starts(s, prefix) && s.len() == 0 ==> s == prefix,
{
    assert(s.take(prefix.len() as int) =~= s.subrange(0, prefix.len() as int));
    if prefix.len() == s.len() {
        assert(s.take(s.len() as int) =~= s);
    }
}

/// Of two names that both begin with the query the shorter comes first, and so
/// of two that merely hold it: in bytes, and as far as two hundred of them.
pub proof fn shorter_names_come_first(app: Application, other: Application, query: Seq<char>)
    requires
        query.len() > 0,
        lowercase(app.name) != lowercase(query),
        lowercase(other.name) != lowercase(query),
        utf8_length(lowercase(app.name)) < 200,
        utf8_length(lowercase(app.name)) < utf8_length(lowercase(other.name)),
    ensures
        ({
            let sought = lowercase(query);
            let (name, theirs) = (lowercase(app.name), lowercase(other.name));
            let alike = sought.is_prefix_of(name) && sought.is_prefix_of(theirs) || (
            stands_inside(name, sought) && stands_inside(theirs, sought) && !some_word_starts(
                name,
                sought,
            ) && !some_word_starts(theirs, sought) && !sought.is_prefix_of(name)
                && !sought.is_prefix_of(theirs));
            alike ==> query_score(app, query) is Some && query_score(other, query) is Some
                && query_score(app, query)->Some_0 > query_score(other, query)->Some_0
        }),
{
    let sought = lowercase(query);
    let (name, theirs) = (lowercase(app.name), lowercase(other.name));
    lemma_length(name);
    lemma_length(theirs);
    lemma_stands_inside(name, sought);
    lemma_stands_inside(theirs, sought);
    lemma_prefix(name, sought);
    lemma_prefix(theirs, sought);
}

/// What `rank` returns are the entries that have a score, each of them once, and
/// one that scores higher stands before one that scores lower; between equals
/// the name decides.
pub proof fn rank_lists_what_matches_best_first<'a>(
    ranked: Seq<&'a Entry>,
    entries: Seq<Entry>,
    query: Seq<char>,
    order: Seq<usize>,
    i: usize,
    j: usize,
)
    requires
        sort::is_ranking(order, query_scores(entries, query), entry_names(entries)),
        taken(ranked, entries, order),
        i < entries.len(),
        j < entries.len(),
    ensures
        order.contains(i) <==> query_score(entries[i as int]@, query) is Some,
        ranked.len() == order.len(),
        order.contains(i) ==> *ranked[order.index_of(i)] == entries[i as int],
        order.no_duplicates(),
        order.contains(i) && order.contains(j) && query_score(entries[i as int]@, query)->Some_0
            > query_score(entries[j as int]@, query)->Some_0 ==> order.index_of(i)
            < order.index_of(j),
        order.contains(i) && order.contains(j) && query_score(entries[i as int]@, query)
            == query_score(entries[j as int]@, query) && chars::before(
            entries[i as int]@.name,
            entries[j as int]@.name,
        ) ==> order.index_of(i) < order.index_of(j),
{
    let (scores, names) = (query_scores(entries, query), entry_names(entries));
    assert(scores[i as int] == query_score(entries[i as int]@, query));
    assert(scores[j as int] == query_score(entries[j as int]@, query));
    assert(names[i as int] == entries[i as int]@.name && names[j as int]
        == entries[j as int]@.name);
    if order.contains(i) {
        assert(order[order.index_of(i)] == i);
    }
    if order.contains(j) {
        assert(order[order.index_of(j)] == j);
    }
    assert forall|a: int, b: int|
        0 <= a < order.len() && 0 <= b < order.len() && a != b implies order[a] != order[b] by {
        sort::lemma_precedes_total(
            sort::ranked_by(order[a], scores, names),
            sort::ranked_by(order[b], scores, names),
        );
        assert(sort::precedes(
            sort::ranked_by(order[if a < b { a } else { b }], scores, names),
            sort::ranked_by(order[if a < b { b } else { a }], scores, names),
        ));
    }
    sort::lemma_precedes_total(
        sort::ranked_by(i, scores, names),
        sort::ranked_by(j, scores, names),
    );
    chars::before_is_total(names[i as int], names[j as int]);
}

// ── sections ───────────────────────────────────────────────────────────────
/// One heading in the launcher's menu.
#[derive(Debug, Clone, Copy, PartialEq, Eq, PartialOrd, Ord, Hash, Structural)]
pub enum Section {
    Development,
    Education,
    Games,
    Graphics,
    Internet,
    Multimedia,
    Office,
    Settings,
    System,
    Utilities,
    /// Anything with no category, or only categories none of the above claim.
    /// An application that is installed must be reachable from the menu.
    Other,
}

/// Every section, in the order the sidebar lists them.
pub open spec fn all_sections() -> Seq<Section> {
    seq![
        Section::Development,
        Section::Education,
        Section::Games,
        Section::Graphics,
        Section::Internet,
        Section::Multimedia,
        Section::Office,
        Section::Settings,
        Section::System,
        Section::Utilities,
        Section::Other,
    ]
}

impl Section {
    /// Every section, in the order the sidebar lists them.
    pub fn all() -> (list: [Section; 11])
        ensures
            list@ == all_sections(),
    {
        let list: [Section; 11] = [
            Section::Development,
            Section::Education,
            Section::Games,
            Section::Graphics,
            Section::Internet,
            Section::Multimedia,
            Section::Office,
            Section::Settings,
            Section::System,
            Section::Utilities,
            Section::Other,
        ];
        assert(list@ =~= all_sections());
        list
    }

    pub fn title(self) -> (title: &'static str)
        ensures
            title@ == (match self {
                Section::Development => "Development"@,
                Section::Education => "Education"@,
                Section::Games => "Games"@,
                Section::Graphics => "Graphics"@,
                Section::Internet => "Internet"@,
                Section::Multimedia => "Multimedia"@,
                Section::Office => "Office"@,
                Section::Settings => "Settings"@,
                Section::System => "System"@,
                Section::Utilities => "Utilities"@,
                Section::Other => "Other"@,
            }),
    {
        match self {
            Section::Development => "Development",
            Section::Education => "Education",
            Section::Games => "Games",
            Section::Graphics => "Graphics",
            Section::Internet => "Internet",
            Section::Multimedia => "Multimedia",
            Section::Office => "Office",
            Section::Settings => "Settings",
            Section::System => "System",
            Section::Utilities => "Utilities",
            Section::Other => "Other",
        }
    }
}

/// Which category belongs to which section, most specific first: it is this
/// order that decides, not the order of the categories in a file.
pub open spec fn section_for(categories: Seq<Seq<char>>) -> Section {
    if categories.contains("Settings"@) {
        Section::Settings
    } else if categories.contains("Development"@) {
        Section::Development
    } else if categories.contains("Game"@) {
        Section::Games
    } else if categories.contains("Graphics"@) {
        Section::Graphics
    } else if categories.contains("Office"@) {
        Section::Office
    } else if categories.contains("Network"@) {
        Section::Internet
    } else if categories.contains("AudioVideo"@) || categories.contains("Audio"@)
        || categories.contains("Video"@) {
        Section::Multimedia
    } else if categories.contains("Education"@) || categories.contains("Science"@) {
        Section::Education
    } else if categories.contains("System"@) {
        Section::System
    } else if categories.contains("Utility"@) {
        Section::Utilities
    } else {
        Section::Other
    }
}

fn has_category(entry: &Entry, category: &str) -> (b: bool)
    ensures
        b == entry@.categories.contains(category@),
{
    let category: Vec<char> = chars::chars_of(category);
    chars::position_of(&entry.categories, &category).is_some()
}

/// Which section an entry belongs in.
pub fn section(entry: &Entry) -> (s: Section)
    ensures
        s == section_for(entry@.categories),
{
    if has_category(entry, "Settings") {
        Section::Settings
    } else if has_category(entry, "Development") {
        Section::Development
    } else if has_category(entry, "Game") {
        Section::Games
    } else if has_category(entry, "Graphics") {
        Section::Graphics
    } else if has_category(entry, "Office") {
        Section::Office
    } else if has_category(entry, "Network") {
        Section::Internet
    } else if has_category(entry, "AudioVideo") || has_category(entry, "Audio") || has_category(
        entry,
        "Video",
    ) {
        Section::Multimedia
    } else if has_category(entry, "Education") || has_category(entry, "Science") {
        Section::Education
    } else if has_category(entry, "System") {
        Section::System
    } else if has_category(entry, "Utility") {
        Section::Utilities
    } else {
        Section::Other
    }
}

/// Which entries belong in a section: those have a score.
pub open spec fn section_scores(entries: Seq<Entry>, wanted: Section) -> Seq<Option<i32>> {
    Seq::new(
        entries.len(),
        |i: int|
            if section_for(entries[i]@.categories) == wanted {
                Some(0i32)
            } else {
                None
            },
    )
}

/// Whether a section has an entry.
pub open spec fn populated(entries: Seq<Entry>, wanted: Section) -> bool {
    exists|i: int|
        0 <= i < entries.len() && section_for((#[trigger] entries[i])@.categories) == wanted
}

/// The sections that have an entry, in the order the sidebar lists them.
pub open spec fn populated_sections(entries: Seq<Entry>, all: Seq<Section>) -> Seq<Section> {
    all.filter(|s: Section| populated(entries, s))
}

/// Whether `found` are the entries of a section, sorted by name without regard
/// to case.
pub open spec fn section_holds<'a>(
    entries: Seq<Entry>,
    wanted: Section,
    found: Seq<&'a Entry>,
) -> bool {
    exists|order: Seq<usize>| #[trigger]
        sort::is_ranking(order, section_scores(entries, wanted), small_names(entries)) && taken(
            found,
            entries,
            order,
        )
}

/// Group entries into the sections that have something in them, each sorted by
/// name.
pub fn sections(entries: &[Entry]) -> (grouped: Vec<(Section, Vec<&Entry>)>)
    ensures
        grouped@.len() == populated_sections(entries@, all_sections()).len(),
        forall|i: int|
            0 <= i < grouped@.len() ==> {
                &&& (#[trigger] grouped@[i]).0 == populated_sections(entries@, all_sections())[i]
                &&& section_holds(entries@, grouped@[i].0, grouped@[i].1@)
            },
{
    let mut names: Vec<Vec<char>> = Vec::new();
    for i in 0..entries.len()
        invariant
            names@.len() == i,
            forall|k: int|
                0 <= k < i ==> (#[trigger] names@[k])@ == lowercase(entries@[k]@.name),
    {
        names.push(small_letters(entries[i].name.as_str()));
    }
    assert(chars::texts(names@) =~= small_names(entries@));
    let all: [Section; 11] = Section::all();
    let mut grouped: Vec<(Section, Vec<&Entry>)> = Vec::new();
    proof {
        reveal(Seq::filter);
        assert(all_sections().take(0) =~= Seq::<Section>::empty());
    }
    for s in 0..11usize
        invariant
            all@ == all_sections(),
            names@.len() == entries@.len(),
            chars::texts(names@) == small_names(entries@),
            grouped@.len() == populated_sections(entries@, all@.take(s as int)).len(),
            forall|i: int|
                0 <= i < grouped@.len() ==> {
                    &&& (#[trigger] grouped@[i]).0 == populated_sections(
                        entries@,
                        all@.take(s as int),
                    )[i]
                    &&& section_holds(entries@, grouped@[i].0, grouped@[i].1@)
                },
    {
        let wanted: Section = all[s];
        let mut scores: Vec<Option<i32>> = Vec::new();
        for i in 0..entries.len()
            invariant
                scores@.len() == i,
                forall|k: int|
                    0 <= k < i ==> scores@[k] == (if section_for(entries@[k]@.categories)
                        == wanted {
                        Some(0i32)
                    } else {
                        None
                    }),
        {
            scores.push(
                if section(&entries[i]) == wanted {
                    Some(0)
                } else {
                    None
                },
            );
        }
        assert(scores@ =~= section_scores(entries@, wanted));
        let order: Vec<usize> = sort::ranking(&scores, &names);
        let found: Vec<&Entry> = take(entries, &order);
        proof {
            reveal(Seq::filter);
            assert(all@.take(s + 1).drop_last() =~= all@.take(s as int));
            assert(section_holds(entries@, wanted, found@));
            if populated(entries@, wanted) {
                let i = choose|i: int|
                    0 <= i < entries@.len() && section_for((#[trigger] entries@[i])@.categories)
                        == wanted;
                assert(order@.contains(i as usize));
            } else if order@.len() > 0 {
                let k = order@[0] as int;
                assert(section_for(entries@[k]@.categories) == wanted);
            }
        }
        if found.len() > 0 {
            grouped.push((wanted, found));
        }
    }
    assert(all@.take(11) =~= all@);
    grouped
}

/// Every section that an entry can belong in is listed, and none twice: a menu
/// of all sections shows every entry exactly once.
pub proof fn every_section_is_listed_once(entry: Entry)
    ensures
        all_sections().contains(section_for(entry@.categories)),
        all_sections().no_duplicates(),
{
    let s = section_for(entry@.categories);
    let at = match s {
        Section::Development => 0int,
        Section::Education => 1int,
        Section::Games => 2int,
        Section::Graphics => 3int,
        Section::Internet => 4int,
        Section::Multimedia => 5int,
        Section::Office => 6int,
        Section::Settings => 7int,
        Section::System => 8int,
        Section::Utilities => 9int,
        Section::Other => 10int,
    };
    assert(all_sections()[at] == s);
}

// ── pins and the catalogue ─────────────────────────────────────────────────
/// Whether two texts are the same but for the case of `A` to `Z`.
pub open spec fn alike(a: Seq<char>, b: Seq<char>) -> bool {
    chars::lowered(a) == chars::lowered(b)
}

fn is_alike(a: &[char], b: &[char]) -> (eq: bool)
    ensures
        eq == alike(a@, b@),
{
    let a: Vec<char> = chars::ascii_lowercase(a);
    let b: Vec<char> = chars::ascii_lowercase(b);
    chars::same(&a, &b)
}

/// The last part of a path.
pub open spec fn file_name(path: Seq<char>) -> Seq<char> {
    chars::pieces(path, '/').last()
}

/// By which of its properties a pin can name an entry, in the order they are
/// tried: its id, the program it runs, its visible name.
#[derive(Debug, Clone, Copy, PartialEq, Eq, Structural)]
pub enum NamedBy {
    Id,
    Program,
    Name,
}

pub open spec fn goes_by(app: Application, by: NamedBy, pin: Seq<char>) -> bool {
    match by {
        NamedBy::Id => alike(app.id, pin),
        NamedBy::Program => app.command.len() > 0 && alike(file_name(app.command[0]), pin),
        NamedBy::Name => alike(app.name, pin),
    }
}

/// Whether `i` is the first entry that a pin names by one property.
pub open spec fn first_by(apps: Seq<Application>, by: NamedBy, pin: Seq<char>, i: int) -> bool {
    &&& 0 <= i < apps.len()
    &&& goes_by(apps[i], by, pin)
    &&& forall|k: int| 0 <= k < i ==> !goes_by(#[trigger] apps[k], by, pin)
}

pub open spec fn none_by(apps: Seq<Application>, by: NamedBy, pin: Seq<char>) -> bool {
    forall|k: int| 0 <= k < apps.len() ==> !goes_by(#[trigger] apps[k], by, pin)
}

/// Whether a pin means entry `i`.
pub open spec fn pin_means(apps: Seq<Application>, pin: Seq<char>, i: int) -> bool {
    ||| first_by(apps, NamedBy::Id, pin, i)
    ||| none_by(apps, NamedBy::Id, pin) && first_by(apps, NamedBy::Program, pin, i)
    ||| none_by(apps, NamedBy::Id, pin) && none_by(apps, NamedBy::Program, pin) && first_by(
        apps,
        NamedBy::Name,
        pin,
        i,
    )
}

/// Whether a pin means nothing that is installed.
pub open spec fn pin_is_stale(apps: Seq<Application>, pin: Seq<char>) -> bool {
    none_by(apps, NamedBy::Id, pin) && none_by(apps, NamedBy::Program, pin) && none_by(
        apps,
        NamedBy::Name,
        pin,
    )
}

/// The entry that a pin means.
pub open spec fn meant(apps: Seq<Application>, pin: Seq<char>) -> int {
    choose|i: int| pin_means(apps, pin, i)
}

/// The entries that a list of pins means, in the order of the pins; stale pins
/// are dropped.
pub open spec fn pinned(apps: Seq<Application>, pins: Seq<Seq<char>>) -> Seq<Application>
    decreases pins.len(),
{
    if pins.len() == 0 {
        Seq::empty()
    } else {
        let before = pinned(apps, pins.drop_last());
        if pin_is_stale(apps, pins.last()) {
            before
        } else {
            before.push(apps[meant(apps, pins.last())])
        }
    }
}

fn named_by(entry: &Entry, by: NamedBy, pin: &[char]) -> (b: bool)
    ensures
        b == goes_by(entry@, by, pin@),
{
    match by {
        NamedBy::Id => {
            let id: Vec<char> = chars::chars_of(entry.id.as_str());
            is_alike(&id, pin)
        },
        NamedBy::Program => {
            if entry.command.len() == 0 {
                return false;
            }
            assert(chars::views(entry.command@)[0] == entry.command@[0]@);
            let path: Vec<char> = chars::chars_of(entry.command[0].as_str());
            let parts: Vec<Vec<char>> = chars::split(&path, '/');
            assert(chars::texts(parts@).len() == parts@.len());
            assert(chars::pieces(path@, '/').len() > 0);
            assert(parts@[parts@.len() - 1]@ == chars::texts(parts@).last());
            is_alike(&parts[parts.len() - 1], pin)
        },
        NamedBy::Name => {
            let name: Vec<char> = chars::chars_of(entry.name.as_str());
            is_alike(&name, pin)
        },
    }
}

fn find_by(available: &[Entry], by: NamedBy, pin: &[char]) -> (found: Option<usize>)
    ensures
        match found {
            Some(i) => first_by(applications(available@), by, pin@, i as int),
            None => none_by(applications(available@), by, pin@),
        },
{
    for i in 0..available.len()
        invariant
            forall|k: int|
                0 <= k < i ==> !goes_by(#[trigger] applications(available@)[k], by, pin@),
    {
        if named_by(&available[i], by, pin) {
            assert(applications(available@)[i as int] == available@[i as int]@);
            return Some(i);
        }
        assert(applications(available@)[i as int] == available@[i as int]@);
    }
    None
}

fn find_pin(available: &[Entry], pin: &[char]) -> (found: Option<usize>)
    ensures
        match found {
            Some(i) => {
                &&& i < available@.len()
                &&& i == meant(applications(available@), pin@)
                &&& !pin_is_stale(applications(available@), pin@)
            },
            None => pin_is_stale(applications(available@), pin@),
        },
{
    let ghost apps = applications(available@);
    let found: Option<usize> = match find_by(available, NamedBy::Id, pin) {
        Some(i) => Some(i),
        None => match find_by(available, NamedBy::Program, pin) {
            Some(i) => Some(i),
            None => find_by(available, NamedBy::Name, pin),
        },
    };
    proof {
        if found is Some {
            let i = found->Some_0 as int;
            assert(pin_means(apps, pin@, i));
            let j = meant(apps, pin@);
            assert(pin_means(apps, pin@, j));
            assert(i == j);
        }
    }
    found
}

/// Resolve a pinned list — desktop ids, comma separated — into entries.
///
/// The order is the user's. A pin may name an id, a program or a visible name,
/// without regard to case. One that names nothing installed is dropped.
pub fn resolve_pinned(list: &str, available: &[Entry]) -> (entries: Vec<Entry>)
    ensures
        applications(entries@) == pinned(applications(available@), listed(list@, ',')),
{
    let spelled: Vec<char> = chars::chars_of(list);
    let pins: Vec<String> = split_at(&spelled, ',');
    let ghost all = listed(list@, ',');
    let ghost apps = applications(available@);
    let mut entries: Vec<Entry> = Vec::new();
    assert(applications(entries@) =~= Seq::<Application>::empty());
    assert(chars::views(pins@).len() == pins@.len());
    for i in 0..pins.len()
        invariant
            chars::views(pins@) == all,
            apps == applications(available@),
            applications(entries@) == pinned(apps, all.take(i as int)),
    {
        assert(all.take(i + 1).drop_last() =~= all.take(i as int));
        assert(all[i as int] == pins@[i as int]@);
        let pin: Vec<char> = chars::chars_of(pins[i].as_str());
        match find_pin(available, &pin) {
            Some(k) => {
                let ghost before = applications(entries@);
                entries.push(available[k].clone());
                assert(applications(entries@) =~= before.push(apps[k as int]));
            },
            None => {},
        }
    }
    assert(all.take(all.len() as int) =~= all);
    entries
}

/// Whether a file is a desktop file, by its name.
pub fn is_desktop_file(name: &str) -> (b: bool)
    ensures
        b == (chars::ends(name@, ".desktop"@) && name@.len() > ".desktop"@.len()),
{
    let name: Vec<char> = chars::chars_of(name);
    let suffix: Vec<char> = chars::chars_of(".desktop");
    chars::ends_with(&name, &suffix) && name.len() > suffix.len()
}

/// What each of a list of files, an id and a text to each, offers.
pub open spec fn offers(files: Seq<(String, String)>) -> Seq<Option<Application>> {
    Seq::new(files.len(), |i: int| offered(files[i].1@, files[i].0@))
}

/// Whether a file is the first with its id, and offers something. A first file
/// that offers nothing hides those after it.
pub open spec fn wins(files: Seq<(String, String)>, i: int) -> bool {
    &&& offers(files)[i] is Some
    &&& forall|k: int| 0 <= k < i ==> (#[trigger] files[k]).0@ != files[i].0@
}

pub open spec fn winning_scores(files: Seq<(String, String)>) -> Seq<Option<i32>> {
    Seq::new(
        files.len(),
        |i: int|
            if wins(files, i) {
                Some(0i32)
            } else {
                None
            },
    )
}

pub open spec fn offered_names(files: Seq<(String, String)>) -> Seq<Seq<char>> {
    Seq::new(
        files.len(),
        |i: int|
            match offers(files)[i] {
                Some(app) => lowercase(app.name),
                None => Seq::empty(),
            },
    )
}

/// The first file with an id decides: what it offers is listed, under that id
/// nothing else is, and where it offers nothing, nothing is.
pub proof fn the_first_file_with_an_id_decides(
    files: Seq<(String, String)>,
    order: Seq<usize>,
    i: usize,
)
    requires
        sort::is_ranking(order, winning_scores(files), offered_names(files)),
        i < files.len(),
        forall|k: int| 0 <= k < i ==> (#[trigger] files[k]).0@ != files[i as int].0@,
    ensures
        order.contains(i) <==> offers(files)[i as int] is Some,
        order.no_duplicates(),
        forall|n: int|
            0 <= n < order.len() && offers(files)[#[trigger] order[n] as int]->Some_0.id
                == files[i as int].0@ ==> order[n] == i,
        offers(files)[i as int] is Some ==> offers(files)[i as int]->Some_0.id
            == files[i as int].0@,
{
    let scores = winning_scores(files);
    let names = offered_names(files);
    assert(wins(files, i as int) == (offers(files)[i as int] is Some));
    assert(scores[i as int] is Some <==> wins(files, i as int));
    if order.contains(i) {
        let n = order.index_of(i);
        assert(scores[order[n] as int] is Some);
    }
    assert forall|a: int, b: int| 0 <= a < b < order.len() implies order[a] != order[b] by {
        let (x, y) = (
            sort::ranked_by(order[a], scores, names),
            sort::ranked_by(order[b], scores, names),
        );
        assert(sort::precedes(x, y));
        chars::before_is_total(names[order[a] as int], names[order[b] as int]);
    }
    assert forall|n: int|
        0 <= n < order.len() && offers(files)[#[trigger] order[n] as int]->Some_0.id
            == files[i as int].0@ implies order[n] == i by {
        let k = order[n];
        assert(scores[k as int] is Some);
        assert(wins(files, k as int));
        assert(offers(files)[k as int]->Some_0.id == files[k as int].0@);
        if i < k {
            assert(files[i as int].0@ != files[k as int].0@);
        }
    }
}

/// Every desktop entry of a list of files, given in precedence order as an id
/// and a text each: of each id what the first file offers, if it offers
/// anything, sorted by name without regard to case.
pub fn load_all(files: &[(String, String)]) -> (entries: Vec<Entry>)
    ensures
        exists|order: Seq<usize>| #[trigger]
            sort::is_ranking(order, winning_scores(files@), offered_names(files@))
                && entries@.len() == order.len() && forall|i: int|
                0 <= i < order.len() ==> Some((#[trigger] entries@[i])@) == offers(
                    files@,
                )[order[i] as int],
{
    let mut parsed: Vec<Option<Entry>> = Vec::new();
    let mut names: Vec<Vec<char>> = Vec::new();
    let mut scores: Vec<Option<i32>> = Vec::new();
    for i in 0..files.len()
        invariant
            parsed@.len() == i,
            names@.len() == i,
            scores@.len() == i,
            forall|k: int|
                0 <= k < i ==> match #[trigger] parsed@[k] {
                    Some(entry) => offers(files@)[k] == Some(entry@),
                    None => offers(files@)[k] is None,
                },
            forall|k: int|
                0 <= k < i ==> (#[trigger] names@[k])@ == offered_names(files@)[k],
            forall|k: int|
                0 <= k < i ==> #[trigger] scores@[k] == winning_scores(files@)[k],
    {
        let entry: Option<Entry> = parse(files[i].1.as_str(), files[i].0.as_str());
        let mut first: bool = entry.is_some();
        let id: Vec<char> = chars::chars_of(files[i].0.as_str());
        for k in 0..i
            invariant
                i < files@.len(),
                id@ == files@[i as int].0@,
                first == (entry is Some && forall|j: int|
                    0 <= j < k ==> (#[trigger] files@[j]).0@ != files@[i as int].0@),
        {
            if chars::spells(&id, files[k].0.as_str()) {
                assert(files@[k as int].0@ == files@[i as int].0@);
                first = false;
            }
        }
        let name: Vec<char> = match &entry {
            Some(entry) => small_letters(entry.name.as_str()),
            None => Vec::new(),
        };
        assert(name@ =~= offered_names(files@)[i as int]);
        names.push(name);
        scores.push(
            if first {
                Some(0)
            } else {
                None
            },
        );
        parsed.push(entry);
    }
    assert(scores@ =~= winning_scores(files@));
    assert(chars::texts(names@) =~= offered_names(files@));
    let order: Vec<usize> = sort::ranking(&scores, &names);
    let mut entries: Vec<Entry> = Vec::new();
    for i in 0..order.len()
        invariant
            parsed@.len() == files@.len(),
            sort::is_ranking(order@, winning_scores(files@), offered_names(files@)),
            forall|k: int|
                0 <= k < parsed@.len() ==> match #[trigger] parsed@[k] {
                    Some(entry) => offers(files@)[k] == Some(entry@),
                    None => offers(files@)[k] is None,
                },
            entries@.len() == i,
            forall|k: int|
                0 <= k < i ==> Some((#[trigger] entries@[k])@) == offers(
                    files@,
                )[order@[k] as int],
    {
        let at: usize = order[i];
        assert(winning_scores(files@)[at as int] is Some);
        match &parsed[at] {
            Some(entry) => {
                entries.push(entry.clone());
            },
            None => {},
        }
    }
    entries
}

// ── laws ───────────────────────────────────────────────────────────────────
proof fn lemma_in_main_group(lines: Seq<Seq<char>>, header: int, n: int)
    requires
        0 <= header < n <= lines.len(),
        lines[header] == "[Desktop Entry]"@,
        forall|k: int|
            header < k < n ==> !((#[trigger] lines[k]).len() > 0 && lines[k][0] == '['),
    ensures
        in_main_group(lines, n),
    decreases n,
{
    reveal_strlit("[Desktop Entry]");
    if header < n - 1 {
        lemma_in_main_group(lines, header, n - 1);
        assert(!(lines[n - 1].len() > 0 && lines[n - 1][0] == '['));
    }
}

proof fn lemma_no_such_key(lines: Seq<Seq<char>>, key: Seq<char>, n: int)
    requires
        0 <= n <= lines.len(),
        forall|k: int| 0 <= k < n ==> fields::parted(#[trigger] lines[k]).0 != key,
    ensures
        forall|p: int|
            0 <= p < main_pairs(lines, n).len() ==> (#[trigger] main_pairs(lines, n)[p]).0 != key,
    decreases n,
{
    if n > 0 {
        lemma_no_such_key(lines, key, n - 1);
        assert(fields::parted(lines[n - 1]).0 != key);
        let (before, now) = (main_pairs(lines, n - 1), main_pairs(lines, n));
        assert forall|p: int| 0 <= p < now.len() implies (#[trigger] now[p]).0 != key by {
            if p < before.len() {
                assert(now[p] == before[p]);
            }
        }
    }
}

proof fn lemma_more_pairs(lines: Seq<Seq<char>>, i: int, n: int)
    requires
        0 <= i <= n <= lines.len(),
    ensures
        main_pairs(lines, i).is_prefix_of(main_pairs(lines, n)),
    decreases n,
{
    if i < n {
        lemma_more_pairs(lines, i, n - 1);
        assert(main_pairs(lines, i).is_prefix_of(main_pairs(lines, n)));
    }
}

proof fn lemma_first_value(pairs: Seq<(Seq<char>, Seq<char>)>, key: Seq<char>, at: int)
    requires
        0 <= at < pairs.len(),
        pairs[at].0 == key,
        forall|p: int| 0 <= p < at ==> (#[trigger] pairs[p]).0 != key,
    ensures
        fields::first_value(pairs, key) == Some(pairs[at].1),
    decreases at,
{
    if at > 0 {
        let rest = pairs.skip(1);
        assert forall|p: int| 0 <= p < at - 1 implies (#[trigger] rest[p]).0 != key by {
            assert(rest[p] == pairs[p + 1]);
        }
        lemma_first_value(rest, key, at - 1);
    }
}

/// A line of a key, an equals sign and a value below the header of the main group
/// gives that key that value, where no line before it is about the key; further
/// equals signs belong to the value.
pub proof fn a_value_of_the_main_group_is_read(
    file: Seq<char>,
    header: int,
    i: int,
    key: Seq<char>,
    value: Seq<char>,
)
    requires
        0 <= header < i < fields::lines(file).len(),
        fields::lines(file)[header] == "[Desktop Entry]"@,
        forall|k: int|
            header < k < i ==> !((#[trigger] fields::lines(file)[k]).len() > 0 && fields::lines(
                file,
            )[k][0] == '['),
        forall|k: int| 0 <= k < i ==> fields::parted(#[trigger] fields::lines(file)[k]).0 != key,
        fields::lines(file)[i] == key + seq!['='] + value,
        plain_word(key),
        key[0] != '#',
        chars::trimmed(value) == value,
    ensures
        main_value(file, key) == Some(value),
{
    let lines = fields::lines(file);
    let line = lines[i];
    let n = lines.len() as int;
    lemma_in_main_group(lines, header, i);
    lemma_no_such_key(lines, key, i);
    chars::lemma_next_index(line, '=', 0);
    let at = chars::next_index(line, '=', 0);
    assert(line[key.len() as int] == '=');
    if at < key.len() {
        assert(line[at] == key[at]);
        assert(key.contains('='));
    }
    assert(line.subrange(0, at) =~= key);
    assert(line.subrange(at + 1, line.len() as int) =~= value);
    assert(line[0] == key[0]);
    if key[0] == '[' {
        assert(key.contains('['));
    }
    assert(gives_value(line));
    let before = main_pairs(lines, i);
    let now = main_pairs(lines, i + 1);
    assert(now == before.push((key, value)));
    lemma_more_pairs(lines, i + 1, n);
    let all = main_pairs(lines, n);
    assert(all[before.len() as int] == now[before.len() as int]);
    assert forall|p: int| 0 <= p < before.len() implies (#[trigger] all[p]).0 != key by {
        assert(all[p] == now[p] && now[p] == before[p]);
    }
    lemma_first_value(all, key, before.len() as int);
}

/// What is offered can be launched: it is an application that is not kept from
/// menus, has a name to show and a program to run, and shows what its file says.
pub proof fn what_is_offered_can_be_launched(file: Seq<char>, id: Seq<char>)
    requires
        offered(file, id) is Some,
    ensures
        ({
            let app = offered(file, id)->Some_0;
            &&& app.id == id
            &&& app.name.len() > 0
            &&& Some(app.name) == main_value(file, "Name"@)
            &&& app.command.len() > 0
            &&& app.command[0].len() > 0
            &&& main_value(file, "Type"@) == Some("Application"@)
            &&& main_value(file, "NoDisplay"@) != Some("true"@)
            &&& main_value(file, "Hidden"@) != Some("true"@)
            &&& app.terminal <==> main_value(file, "Terminal"@) == Some("true"@)
            &&& app.icon is Some ==> app.icon == main_value(file, "Icon"@)
            &&& app.comment is Some ==> app.comment == main_value(file, "Comment"@)
        }),
{
    let command = main_value(file, "Exec"@)->Some_0;
    no_argument_is_empty(command, false, Seq::empty());
    assert(arguments(command)[0].len() > 0);
}

proof fn lemma_kept_of_both(a: Seq<Seq<char>>, b: Seq<Seq<char>>)
    ensures
        kept(a + b) == kept(a) + kept(b),
    decreases b.len(),
{
    if b.len() == 0 {
        assert(a + b =~= a);
        assert(kept(a) + kept(b) =~= kept(a));
    } else {
        lemma_kept_of_both(a, b.drop_last());
        assert((a + b).drop_last() =~= a + b.drop_last());
        assert(kept(a + b) =~= kept(a) + kept(b));
    }
}

/// Two lists with a separator between them are the items of the first and then
/// those of the second; an item without white space around it stands as it is,
/// and an empty one is none.
pub proof fn a_list_is_read_item_by_item(a: Seq<char>, b: Seq<char>, separator: char)
    ensures
        listed(a + seq![separator] + b, separator) == listed(a, separator) + listed(b, separator),
        !a.contains(separator) && chars::trimmed(a) == a && a.len() > 0 ==> listed(a, separator)
            == seq![a],
        listed(Seq::empty(), separator) == Seq::<Seq<char>>::empty(),
{
    chars::lemma_pieces_of_both(a, b, separator);
    lemma_kept_of_both(chars::pieces(a, separator), chars::pieces(b, separator));
    if !a.contains(separator) {
        chars::lemma_one_piece(a, separator);
        let one = chars::pieces(a, separator);
        assert(one.drop_last() =~= Seq::<Seq<char>>::empty());
        assert(kept(one.drop_last()) =~= Seq::<Seq<char>>::empty());
        if chars::trimmed(a) == a && a.len() > 0 {
            assert(kept(one) =~= seq![a]);
        }
    }
    let none = Seq::<char>::empty();
    chars::lemma_one_piece(none, separator);
    let blank = chars::pieces(none, separator);
    assert(blank.drop_last() =~= Seq::<Seq<char>>::empty());
    assert(chars::trimmed(none).len() == 0);
    assert(blank.last() == none);
    assert(kept(blank.drop_last()) =~= Seq::<Seq<char>>::empty());
    assert(kept(blank) =~= Seq::<Seq<char>>::empty());
}

/// Which section a category stands for, if it stands for one.
pub open spec fn stands_for(category: Seq<char>, section: Section) -> bool {
    match section {
        Section::Development => category == "Development"@,
        Section::Education => category == "Education"@ || category == "Science"@,
        Section::Games => category == "Game"@,
        Section::Graphics => category == "Graphics"@,
        Section::Internet => category == "Network"@,
        Section::Multimedia => category == "AudioVideo"@ || category == "Audio"@ || category
            == "Video"@,
        Section::Office => category == "Office"@,
        Section::Settings => category == "Settings"@,
        Section::System => category == "System"@,
        Section::Utilities => category == "Utility"@,
        Section::Other => false,
    }
}

/// An application is in a section that one of its categories stands for, and in
/// the last resort only where none of them stands for one. The order of its
/// categories makes no difference.
pub proof fn an_application_is_in_a_section_of_its_own(
    categories: Seq<Seq<char>>,
    others: Seq<Seq<char>>,
    category: Seq<char>,
    section: Section,
)
    requires
        categories.contains(category),
        stands_for(category, section),
        forall|c: Seq<char>| #[trigger] others.contains(c) == categories.contains(c),
    ensures
        section_for(categories) != Section::Other,
        exists|c: Seq<char>| #[trigger]
            categories.contains(c) && stands_for(c, section_for(categories)),
        section_for(others) == section_for(categories),
        (forall|c: Seq<char>, s: Section|
            categories.contains(c) && #[trigger] stands_for(c, s) ==> s == section)
            ==> section_for(categories) == section,
{
    let found = section_for(categories);
    assert(found != Section::Other);
    let c = if found is Multimedia {
        if categories.contains("AudioVideo"@) {
            "AudioVideo"@
        } else if categories.contains("Audio"@) {
            "Audio"@
        } else {
            "Video"@
        }
    } else if found is Education {
        if categories.contains("Education"@) {
            "Education"@
        } else {
            "Science"@
        }
    } else if found is Development {
        "Development"@
    } else if found is Games {
        "Game"@
    } else if found is Graphics {
        "Graphics"@
    } else if found is Internet {
        "Network"@
    } else if found is Office {
        "Office"@
    } else if found is Settings {
        "Settings"@
    } else if found is System {
        "System"@
    } else {
        "Utility"@
    };
    assert(categories.contains(c) && stands_for(c, found));
    assert(others.contains("Settings"@) == categories.contains("Settings"@));
}

/// Without a category that stands for a section an application is still listed,
/// in the last one.
pub proof fn an_application_without_a_section_is_listed_last(categories: Seq<Seq<char>>)
    requires
        forall|c: Seq<char>, s: Section|
            categories.contains(c) ==> !#[trigger] stands_for(c, s),
    ensures
        section_for(categories) == Section::Other,
{
    assert(!(categories.contains("Settings"@) && stands_for("Settings"@, Section::Settings)));
    assert(!(categories.contains("Development"@) && stands_for(
        "Development"@,
        Section::Development,
    )));
    assert(!(categories.contains("Game"@) && stands_for("Game"@, Section::Games)));
    assert(!(categories.contains("Graphics"@) && stands_for("Graphics"@, Section::Graphics)));
    assert(!(categories.contains("Office"@) && stands_for("Office"@, Section::Office)));
    assert(!(categories.contains("Network"@) && stands_for("Network"@, Section::Internet)));
    assert(!(categories.contains("AudioVideo"@) && stands_for(
        "AudioVideo"@,
        Section::Multimedia,
    )));
    assert(!(categories.contains("Audio"@) && stands_for("Audio"@, Section::Multimedia)));
    assert(!(categories.contains("Video"@) && stands_for("Video"@, Section::Multimedia)));
    assert(!(categories.contains("Education"@) && stands_for("Education"@, Section::Education)));
    assert(!(categories.contains("Science"@) && stands_for("Science"@, Section::Education)));
    assert(!(categories.contains("System"@) && stands_for("System"@, Section::System)));
    assert(!(categories.contains("Utility"@) && stands_for("Utility"@, Section::Utilities)));
}

/// Pins keep their order: those of two lists, one after the other, are those of
/// the first and then those of the second.
pub proof fn pins_keep_their_order(
    apps: Seq<Application>,
    first: Seq<Seq<char>>,
    second: Seq<Seq<char>>,
)
    ensures
        pinned(apps, first + second) == pinned(apps, first) + pinned(apps, second),
    decreases second.len(),
{
    let all = first + second;
    if second.len() == 0 {
        assert(all =~= first);
        assert(pinned(apps, first) + pinned(apps, second) =~= pinned(apps, first));
    } else {
        pins_keep_their_order(apps, first, second.drop_last());
        assert(all.drop_last() =~= first + second.drop_last());
        assert(all.last() == second.last());
        assert(pinned(apps, all) =~= pinned(apps, first) + pinned(apps, second));
    }
}

/// A pin that is the id of an application, in capitals or not, pins that
/// application where no other has the id; and a pin that is no application's id,
/// program or name pins nothing.
pub proof fn a_pin_finds_what_it_names(apps: Seq<Application>, pin: Seq<char>, i: int)
    requires
        0 <= i < apps.len(),
        chars::lowered(apps[i].id) == chars::lowered(pin),
        forall|k: int|
            0 <= k < apps.len() && k != i ==> chars::lowered((#[trigger] apps[k]).id)
                != chars::lowered(pin),
    ensures
        pinned(apps, seq![pin]) == seq![apps[i]],
{
    let pins = seq![pin];
    assert(goes_by(apps[i], NamedBy::Id, pin));
    assert(first_by(apps, NamedBy::Id, pin, i));
    assert(pin_means(apps, pin, i));
    assert(!none_by(apps, NamedBy::Id, pin));
    let found = meant(apps, pin);
    assert(pin_means(apps, pin, found));
    assert(first_by(apps, NamedBy::Id, pin, found));
    assert(goes_by(apps[found], NamedBy::Id, pin));
    assert(pins.drop_last() =~= Seq::<Seq<char>>::empty());
    assert(pinned(apps, pins.drop_last()) =~= Seq::<Application>::empty());
    assert(pinned(apps, pins) =~= seq![apps[i]]);
}

proof fn lemma_theme_sizes(theme: Seq<char>, name: Seq<char>, n: int, i: int)
    requires
        0 <= i < n <= 9,
    ensures
        theme_sizes(theme, name, n).len() == 4 * n,
        theme_sizes(theme, name, n).subrange(4 * i, 4 * i + 4) == sized_icons(
            theme,
            ICON_SIZES@[i]@,
            name,
        ),
    decreases n,
{
    let all = theme_sizes(theme, name, n);
    let before = theme_sizes(theme, name, n - 1);
    let here = sized_icons(theme, ICON_SIZES@[n - 1]@, name);
    if n > 1 {
        lemma_theme_sizes(theme, name, n - 1, if i < n - 1 {
            i
        } else {
            0
        });
    }
    assert(before.len() == 4 * (n - 1));
    if i < n - 1 {
        assert(all.subrange(4 * i, 4 * i + 4) =~= before.subrange(4 * i, 4 * i + 4));
    } else {
        assert(all.subrange(4 * i, 4 * i + 4) =~= here);
    }
}

proof fn lemma_theme_icons(name: Seq<char>, n: int, t: int)
    requires
        0 <= t < n <= 6,
    ensures
        theme_icons(name, n).len() == 37 * n,
        theme_icons(name, n).subrange(37 * t, 37 * t + 36) == theme_sizes(
            ICON_THEMES@[t]@,
            name,
            9,
        ),
        theme_icons(name, n)[37 * t + 36] == (
            Some(ICON_THEMES@[t]@),
            ICON_THEMES@[t]@ + "/scalable/apps/"@ + name + ".svg"@,
        ),
    decreases n,
{
    let all = theme_icons(name, n);
    let before = theme_icons(name, n - 1);
    let sizes = theme_sizes(ICON_THEMES@[n - 1]@, name, 9);
    lemma_theme_sizes(ICON_THEMES@[n - 1]@, name, 9, 0);
    if n > 1 {
        lemma_theme_icons(name, n - 1, if t < n - 1 {
            t
        } else {
            0
        });
    }
    assert(before.len() == 37 * (n - 1));
    if t < n - 1 {
        assert(all.subrange(37 * t, 37 * t + 36) =~= before.subrange(37 * t, 37 * t + 36));
        assert(all[37 * t + 36] == before[37 * t + 36]);
    } else {
        assert(all.subrange(37 * t, 37 * t + 36) =~= sizes);
    }
}

proof fn lemma_icon(name: Seq<char>, theme: int, size: int, k: int)
    requires
        0 <= theme < 6,
        0 <= size < 9,
        0 <= k < 4,
    ensures
        all_icons(name)[37 * theme + 4 * size + k] == sized_icons(
            ICON_THEMES@[theme]@,
            ICON_SIZES@[size]@,
            name,
        )[k],
        all_icons(name)[37 * theme + 4 * size + k].0 == Some(ICON_THEMES@[theme]@),
{
    let dir = ICON_THEMES@[theme]@;
    let side = ICON_SIZES@[size]@;
    lemma_theme_icons(name, 6, theme);
    lemma_theme_sizes(dir, name, 9, size);
    let (all, icons) = (all_icons(name), theme_icons(name, 6));
    let sizes = theme_sizes(dir, name, 9);
    let at = 37 * theme + 4 * size + k;
    assert(all[at] == icons[at]);
    assert(icons.subrange(37 * theme, 37 * theme + 36)[4 * size + k] == icons[at]);
    assert(sizes.subrange(4 * size, 4 * size + 4)[k] == sizes[4 * size + k]);
}

proof fn lemma_other_icons(name: Seq<char>, theme: int)
    requires
        0 <= theme < 6,
    ensures
        all_icons(name).len() == 226,
        all_icons(name)[37 * theme + 36] == (
            Some(ICON_THEMES@[theme]@),
            ICON_THEMES@[theme]@ + "/scalable/apps/"@ + name + ".svg"@,
        ),
        all_icons(name)[222] == loose("/usr/share/pixmaps/"@ + name + ".png"@),
        all_icons(name)[223] == loose("/usr/share/pixmaps/"@ + name + ".svg"@),
        all_icons(name)[224] == loose("/usr/local/share/pixmaps/"@ + name + ".png"@),
        all_icons(name)[225] == loose("/usr/local/share/pixmaps/"@ + name + ".svg"@),
{
    lemma_theme_icons(name, 6, theme);
    assert(all_icons(name)[37 * theme + 36] == theme_icons(name, 6)[37 * theme + 36]);
}

/// Where an icon of a theme stands among the files that are tried: the themes in
/// their order, in each the sizes from the biggest down, in each size the vectors
/// before the bitmaps, and what has no theme after all of those. So a bigger icon
/// is preferred to a smaller one of the same theme, and a theme to those after it.
#[verifier::spinoff_prover]
pub proof fn bigger_icons_are_tried_first(name: Seq<char>, theme: int, size: int)
    requires
        0 <= theme < 6,
        0 <= size < 9,
    ensures
        ({
            let all = all_icons(name);
            let (dir, side) = (ICON_THEMES@[theme]@, ICON_SIZES@[size]@);
            let at = 37 * theme + 4 * size;
            &&& all.len() == 226
            &&& all[at].1 == dir + "/apps/"@ + side + "/"@ + name + ".svg"@
            &&& all[at + 1].1 == dir + "/"@ + side + "x"@ + side + "/apps/"@ + name + ".svg"@
            &&& all[at + 2].1 == dir + "/apps/"@ + side + "/"@ + name + ".png"@
            &&& all[at + 3].1 == dir + "/"@ + side + "x"@ + side + "/apps/"@ + name + ".png"@
            &&& all[37 * theme + 36].1 == dir + "/scalable/apps/"@ + name + ".svg"@
            &&& forall|k: int| at <= k < at + 4 ==> (#[trigger] all[k]).0 == Some(dir)
            &&& all[37 * theme + 36].0 == Some(dir)
            &&& forall|k: int| 222 <= k < 226 ==> (#[trigger] all[k]).0 is None
            &&& all[222].1 == "/usr/share/pixmaps/"@ + name + ".png"@
            &&& all[223].1 == "/usr/share/pixmaps/"@ + name + ".svg"@
            &&& all[224].1 == "/usr/local/share/pixmaps/"@ + name + ".png"@
            &&& all[225].1 == "/usr/local/share/pixmaps/"@ + name + ".svg"@
        }),
{
    let all = all_icons(name);
    let at = 37 * theme + 4 * size;
    lemma_icon(name, theme, size, 0);
    lemma_icon(name, theme, size, 1);
    lemma_icon(name, theme, size, 2);
    lemma_icon(name, theme, size, 3);
    lemma_other_icons(name, theme);
    assert forall|k: int| at <= k < at + 4 implies (#[trigger] all[k]).0 == Some(
        ICON_THEMES@[theme]@,
    ) by {
        lemma_icon(name, theme, size, k - at);
    }
}

/// The user's own data comes first: what is set for it, else a directory below
/// the home; after it stand the parts of the system's list, in their order and
/// without empty ones.
pub proof fn own_data_comes_first(
    data_home: Option<Seq<char>>,
    home: Option<Seq<char>>,
    system: Seq<char>,
    dir: Seq<char>,
)
    requires
        system.len() > 0,
    ensures
        ({
            let with_own = data_dirs(Some(dir), home, Some(system));
            let at_home = data_dirs(None, Some(dir), Some(system));
            let shared = data_dirs(None, None, Some(system));
            &&& dir.len() > 0 ==> with_own == seq![dir] + shared
            &&& dir.len() == 0 ==> with_own == data_dirs(None, home, Some(system))
            &&& dir.len() > 0 && dir.last() != '/' ==> at_home == seq![dir + "/.local/share"@]
                + shared
            &&& shared.contains(dir) <==> dir.len() > 0 && chars::pieces(system, ':').contains(
                dir,
            )
            &&& data_dirs(data_home, home, None) == data_dirs(
                data_home,
                home,
                Some("/usr/local/share:/usr/share"@),
            )
            &&& data_dirs(data_home, home, Some(Seq::empty())) == data_dirs(data_home, home, None)
        }),
{
    let parts = chars::pieces(system, ':');
    let shared = data_dirs(None, None, Some(system));
    reveal_strlit("/");
    reveal_strlit(".local/share");
    reveal_strlit("/.local/share");
    reveal_strlit("/usr/local/share:/usr/share");
    assert("/"@ + ".local/share"@ =~= "/.local/share"@);
    assert(dir + "/"@ + ".local/share"@ =~= dir + "/.local/share"@);
    assert(shared =~= non_empty_parts(parts));
    utils::lemma_filter_members(parts, |part: Seq<char>| part.len() > 0, dir);
    assert(data_dirs(Some(dir), home, Some(system)) =~= if dir.len() > 0 {
        seq![dir] + shared
    } else {
        data_dirs(None, home, Some(system))
    });
}

/// A path below a directory has one slash between the two, whether or not the
/// directory ends in one.
pub proof fn one_slash_stands_between(dir: Seq<char>, rest: Seq<char>)
    requires
        dir.len() > 0,
        dir.last() != '/',
    ensures
        below(dir, rest) == dir + seq!['/'] + rest,
        below(dir + seq!['/'], rest) == dir + seq!['/'] + rest,
{
    reveal_strlit("/");
    assert("/"@ =~= seq!['/']);
}

/// What is listed stands in the order of its names, whatever the case of their
/// letters.
pub proof fn applications_are_listed_by_name(
    files: Seq<(String, String)>,
    order: Seq<usize>,
    i: int,
    j: int,
)
    requires
        sort::is_ranking(order, winning_scores(files), offered_names(files)),
        0 <= i < j < order.len(),
    ensures
        ({
            let (a, b) = (offers(files)[order[i] as int], offers(files)[order[j] as int]);
            &&& a is Some
            &&& b is Some
            &&& !chars::before(lowercase(b->Some_0.name), lowercase(a->Some_0.name))
        }),
{
    let (scores, names) = (winning_scores(files), offered_names(files));
    assert(scores[order[i] as int] is Some && scores[order[j] as int] is Some);
    assert(wins(files, order[i] as int) && wins(files, order[j] as int));
    assert(sort::precedes(
        sort::ranked_by(order[i], scores, names),
        sort::ranked_by(order[j], scores, names),
    ));
    chars::before_is_total(names[order[i] as int], names[order[j] as int]);
}

/// A section lists the applications that are in it, every one of them, and no
/// others, in the order of their names.
pub proof fn a_section_lists_what_is_in_it(
    entries: Seq<Entry>,
    wanted: Section,
    order: Seq<usize>,
    k: usize,
    i: int,
    j: int,
)
    requires
        sort::is_ranking(order, section_scores(entries, wanted), small_names(entries)),
        k < entries.len(),
        0 <= i < j < order.len(),
    ensures
        order.contains(k) <==> section_for(entries[k as int]@.categories) == wanted,
        order[i] != order[j],
        !chars::before(
            lowercase(entries[order[j] as int]@.name),
            lowercase(entries[order[i] as int]@.name),
        ),
{
    let (scores, names) = (section_scores(entries, wanted), small_names(entries));
    assert(scores[k as int] is Some <==> section_for(entries[k as int]@.categories) == wanted);
    if order.contains(k) {
        let n = order.index_of(k);
        assert(scores[order[n] as int] is Some);
    }
    assert(scores[order[i] as int] is Some && scores[order[j] as int] is Some);
    assert(sort::precedes(
        sort::ranked_by(order[i], scores, names),
        sort::ranked_by(order[j], scores, names),
    ));
    chars::before_is_total(names[order[i] as int], names[order[j] as int]);
}

} // verus!
