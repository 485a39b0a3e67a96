//! The command line, and what is printed.

use vstd::prelude::*;

use crate::bindings::ModKey;
use crate::chars;

verus! {

/// What the program was asked to do.
#[derive(Debug, PartialEq)]
pub enum Command {
    /// Report what a session on the tty would have to drive.
    ProbeDrm,
    /// Draw with the GPU on the render node, and read the picture back.
    ProbeRender,
    /// Draw with the GPU and scan that out, for so many seconds.
    ProbeScanout(u64),
    /// Run on a virtual terminal, for so many seconds; for none, without a
    /// limit.
    Tty(u64),
    /// Set a mode and show a colour, for so many seconds.
    ModesetTest(u64),
    /// Run as a window of another session.
    Nested {
        /// Whether to start a client.
        spawn: bool,
        /// The client to start, if one was named.
        program: Option<String>,
    },
}

/// The value of a text of digits; none, where it has another character or none
/// at all.
pub open spec fn digits_value(digits: Seq<char>) -> Option<nat>
    decreases digits.len(),
{
    if digits.len() == 0 {
        None
    } else if !('0' <= digits.last() <= '9') {
        None
    } else {
        let last = (digits.last() as u32 - '0' as u32) as nat;
        if digits.len() == 1 {
            Some(last)
        } else {
            match digits_value(digits.drop_last()) {
                Some(value) => Some(value * 10 + last),
                None => None,
            }
        }
    }
}

/// A text, read as a whole number: digits, with or without a plus before them.
pub open spec fn whole_number(text: Seq<char>) -> Option<u64> {
    let digits = if text.len() > 0 && text[0] == '+' {
        text.skip(1)
    } else {
        text
    };
    match digits_value(digits) {
        Some(value) => if value <= u64::MAX {
            Some(value as u64)
        } else {
            None
        },
        None => None,
    }
}

proof fn lemma_bad_digit(digits: Seq<char>, k: int)
    requires
        0 <= k < digits.len(),
        !('0' <= digits[k] <= '9'),
    ensures
        digits_value(digits) is None,
    decreases digits.len(),
{
    if k < digits.len() - 1 {
        lemma_bad_digit(digits.drop_last(), k);
    }
}

proof fn lemma_prefix_value(digits: Seq<char>, k: int)
    requires
        0 < k <= digits.len(),
        digits_value(digits) is Some,
    ensures
        digits_value(digits.take(k)) is Some,
        digits_value(digits.take(k))->Some_0 <= digits_value(digits)->Some_0,
    decreases digits.len(),
{
    if k == digits.len() {
        assert(digits.take(k) =~= digits);
    } else {
        lemma_prefix_value(digits.drop_last(), k);
        assert(digits.drop_last().take(k) =~= digits.take(k));
    }
}

fn read_number(text: &[char]) -> (number: Option<u64>)
    ensures
        number == whole_number(text@),
{
    let from: usize = if text.len() > 0 && text[0] == '+' {
        1
    } else {
        0
    };
    let ghost digits = if text@.len() > 0 && text@[0] == '+' {
        text@.skip(1)
    } else {
        text@
    };
    assert(digits =~= text@.skip(from as int));
    if from == text.len() {
        return None;
    }
    let mut value: u64 = 0;
    for i in from..text.len()
        invariant
            from < text@.len(),
            digits == text@.skip(from as int),
            whole_number(text@) == (match digits_value(digits) {
                Some(value) => if value <= u64::MAX {
                    Some(value as u64)
                } else {
                    None
                },
                None => None,
            }),
            i == from ==> value == 0,
            i > from ==> digits_value(digits.take(i - from)) == Some(value as nat),
    {
        let c: char = text[i];
        let ghost k = i - from;
        assert(digits[k] == c);
        if !('0' <= c && c <= '9') {
            proof {
                lemma_bad_digit(digits, k);
            }
            return None;
        }
        let last: u64 = (c as u32 - 48) as u64;
        assert(digits.take(k + 1).drop_last() =~= digits.take(k));
        assert(digits.take(k + 1).last() == c);
        assert(digits_value(digits.take(k + 1)) == Some((value * 10 + last) as nat));
        if value > (u64::MAX - last) / 10 {
            proof {
                if digits_value(digits) is Some {
                    lemma_prefix_value(digits, k + 1);
                }
            }
            return None;
        }
        value = value * 10 + last;
    }
    assert(digits.take(digits.len() as int) =~= digits);
    Some(value)
}

/// Whether an argument is given.
pub open spec fn given(args: Seq<Seq<char>>, flag: Seq<char>) -> bool {
    args.contains(flag)
}

fn is_given(args: &[String], flag: &str) -> (b: bool)
    ensures
        b == given(chars::views(args@), flag@),
{
    let flag: Vec<char> = chars::chars_of(flag);
    chars::position_of(args, &flag).is_some()
}

/// How many seconds are asked for, from `from` on: what the first argument of
/// that kind says, if it says a number.
pub open spec fn seconds_from(args: Seq<Seq<char>>, default: u64, from: int) -> u64
    decreases args.len() - from,
{
    if from < 0 || from >= args.len() {
        default
    } else if chars::starts(args[from], "--seconds="@) {
        match whole_number(args[from].skip("--seconds="@.len() as int)) {
            Some(seconds) => seconds,
            None => default,
        }
    } else {
        seconds_from(args, default, from + 1)
    }
}

fn read_seconds(args: &[String], default: u64) -> (seconds: u64)
    ensures
        seconds == seconds_from(chars::views(args@), default, 0),
{
    let prefix: Vec<char> = chars::chars_of("--seconds=");
    let ghost all = chars::views(args@);
    for i in 0..args.len()
        invariant
            all == chars::views(args@),
            prefix@ == "--seconds="@,
            seconds_from(all, default, i as int) == seconds_from(all, default, 0),
    {
        let arg: Vec<char> = chars::chars_of(args[i].as_str());
        assert(all[i as int] == arg@);
        if chars::starts_with(&arg, &prefix) {
            let rest: Vec<char> = chars::part(&arg, prefix.len(), arg.len());
            assert(rest@ =~= arg@.skip(prefix@.len() as int));
            return match read_number(&rest) {
                Some(seconds) => seconds,
                None => default,
            };
        }
    }
    default
}

/// The first argument, from `from` on, that is no option.
pub open spec fn program_from(args: Seq<Seq<char>>, from: int) -> Option<Seq<char>>
    decreases args.len() - from,
{
    if from < 0 || from >= args.len() {
        None
    } else if args[from].len() > 0 && args[from][0] == '-' {
        program_from(args, from + 1)
    } else {
        Some(args[from])
    }
}

fn read_program(args: &[String]) -> (program: Option<String>)
    ensures
        match program {
            Some(program) => program_from(chars::views(args@), 0) == Some(program@),
            None => program_from(chars::views(args@), 0) is None,
        },
{
    let ghost all = chars::views(args@);
    for i in 0..args.len()
        invariant
            all == chars::views(args@),
            program_from(all, i as int) == program_from(all, 0),
    {
        let arg: Vec<char> = chars::chars_of(args[i].as_str());
        assert(all[i as int] == arg@);
        if !(arg.len() > 0 && arg[0] == '-') {
            return Some(args[i].clone());
        }
    }
    None
}

/// What the arguments ask for. The probes come first, and the first of them that
/// is given is run.
pub fn parse(args: &[String]) -> (command: Command)
    ensures
        ({
            let all = chars::views(args@);
            if given(all, "--probe-drm"@) {
                command == Command::ProbeDrm
            } else if given(all, "--probe-render"@) {
                command == Command::ProbeRender
            } else if given(all, "--probe-scanout"@) {
                command == Command::ProbeScanout(seconds_from(all, 5, 0))
            } else if given(all, "--tty"@) {
                command == Command::Tty(seconds_from(all, 30, 0))
            } else if given(all, "--modeset-test"@) {
                command == Command::ModesetTest(seconds_from(all, 5, 0))
            } else {
                command matches Command::Nested { spawn, program } && spawn == !given(
                    all,
                    "--no-spawn"@,
                ) && match program {
                    Some(program) => program_from(all, 0) == Some(program@),
                    None => program_from(all, 0) is None,
                }
            }
        }),
{
    if is_given(args, "--probe-drm") {
        Command::ProbeDrm
    } else if is_given(args, "--probe-render") {
        Command::ProbeRender
    } else if is_given(args, "--probe-scanout") {
        Command::ProbeScanout(read_seconds(args, 5))
    } else if is_given(args, "--tty") {
        Command::Tty(read_seconds(args, 30))
    } else if is_given(args, "--modeset-test") {
        Command::ModesetTest(read_seconds(args, 5))
    } else {
        Command::Nested { spawn: !is_given(args, "--no-spawn"), program: read_program(args) }
    }
}

fn push_line(lines: &mut Vec<String>, line: &Vec<char>)
    ensures
        chars::views(final(lines)@) == chars::views(old(lines)@).push(line@),
{
    lines.push(chars::text_of(line));
    assert(chars::views(lines@) =~= chars::views(old(lines)@).push(line@));
}

fn push_text(lines: &mut Vec<String>, text: &str)
    ensures
        chars::views(final(lines)@) == chars::views(old(lines)@).push(text@),
{
    let line: Vec<char> = chars::chars_of(text);
    push_line(lines, &line);
}

fn push_around(lines: &mut Vec<String>, before: &str, text: &str, after: &str)
    ensures
        chars::views(final(lines)@) == chars::views(old(lines)@).push(before@ + text@ + after@),
{
    let mut line: Vec<char> = chars::chars_of(before);
    chars::append(&mut line, text);
    chars::append(&mut line, after);
    push_line(lines, &line);
}

/// The modifier to suggest in place of one that the host keeps for itself: the
/// one in use would be no help.
pub open spec fn other_modifier(mod_key: ModKey) -> Seq<char> {
    if mod_key == ModKey::Alt {
        "ctrl-alt"@
    } else {
        "alt"@
    }
}

/// What is printed once a nested session is running.
pub open spec fn banner_lines(socket: Seq<char>, mod_key: ModKey) -> Seq<Seq<char>> {
    let label = mod_key.name();
    seq![
        ""@,
        "  cusk is running. From another terminal, while this one stays open:"@,
        ""@,
        "      WAYLAND_DISPLAY="@ + socket + " alacritty"@,
        ""@,
        "  bindings use "@ + label + "   (set CUSK_MOD="@ + other_modifier(mod_key) + " if the host eats it)"@,
        ""@,
        "      click           focus and raise"@,
        "      "@ + label + " + drag     move"@,
        "      "@ + label + " + right    resize from the nearest corner"@,
        "      "@ + label + " + m        maximise / restore"@,
        "      "@ + label + " + t        tiling on / off"@,
        "      "@ + label + " + e        cycle layout (master-stack, columns)"@,
        "      "@ + label + " + h / l    narrow / widen the master column"@,
        "      "@ + label + " + space    float this window out of the layout"@,
        "      "@ + label + " + enter    open another terminal"@,
        "      "@ + label + " + d        application launcher"@,
        "      "@ + label + " + j / k    focus next / previous window"@,
        "      "@ + label + " + shift + j / k"@,
        "                      move it earlier / later in the layout"@,
        "      "@ + label + " + shift + p    promote it to master"@,
        "      "@ + label + " + 1..9      switch workspace"@,
        "      "@ + label + " + shift + 1..9"@,
        "                      send this window to that workspace"@,
        "      close window    quit"@,
        ""@,
    ]
}

/// What is printed once a nested session is running: above all the name of its
/// socket, which a client needs.
pub fn banner(socket_name: &str, mod_key: ModKey) -> (lines: Vec<String>)
    ensures
        chars::views(lines@) == banner_lines(socket_name@, mod_key),
{
    let label: &'static str = mod_key.label();
    let other: &'static str = if mod_key == ModKey::Alt {
        "ctrl-alt"
    } else {
        "alt"
    };
    let mut lines: Vec<String> = Vec::new();
    assert(chars::views(lines@) =~= Seq::<Seq<char>>::empty());
    push_text(&mut lines, "");
    push_text(&mut lines, "  cusk is running. From another terminal, while this one stays open:");
    push_text(&mut lines, "");
    push_around(&mut lines, "      WAYLAND_DISPLAY=", socket_name, " alacritty");
    push_text(&mut lines, "");
    let mut line: Vec<char> = chars::chars_of("  bindings use ");
    chars::append(&mut line, label);
    chars::append(&mut line, "   (set CUSK_MOD=");
    chars::append(&mut line, other);
    chars::append(&mut line, " if the host eats it)");
    push_line(&mut lines, &line);
    push_text(&mut lines, "");
    push_text(&mut lines, "      click           focus and raise");
    push_around(&mut lines, "      ", label, " + drag     move");
    push_around(&mut lines, "      ", label, " + right    resize from the nearest corner");
    push_around(&mut lines, "      ", label, " + m        maximise / restore");
    push_around(&mut lines, "      ", label, " + t        tiling on / off");
    push_around(&mut lines, "      ", label, " + e        cycle layout (master-stack, columns)");
    push_around(&mut lines, "      ", label, " + h / l    narrow / widen the master column");
    push_around(&mut lines, "      ", label, " + space    float this window out of the layout");
    push_around(&mut lines, "      ", label, " + enter    open another terminal");
    push_around(&mut lines, "      ", label, " + d        application launcher");
    push_around(&mut lines, "      ", label, " + j / k    focus next / previous window");
    push_around(&mut lines, "      ", label, " + shift + j / k");
    push_text(&mut lines, "                      move it earlier / later in the layout");
    push_around(&mut lines, "      ", label, " + shift + p    promote it to master");
    push_around(&mut lines, "      ", label, " + 1..9      switch workspace");
    push_around(&mut lines, "      ", label, " + shift + 1..9");
    push_text(&mut lines, "                      send this window to that workspace");
    push_text(&mut lines, "      close window    quit");
    push_text(&mut lines, "");
    assert(chars::views(lines@) =~= banner_lines(socket_name@, mod_key));
    lines
}

/// What is printed when a session on the tty starts.
pub open spec fn tty_lines(seat: Seq<char>, size: (i32, i32), socket: Seq<char>, seconds: u64) -> Seq<
    Seq<char>,
> {
    seq![
        ""@,
        "  cusk on "@ + seat + ", "@ + chars::signed_decimal(size.0 as int) + "x"@
            + chars::signed_decimal(size.1 as int),
        "  WAYLAND_DISPLAY="@ + socket + ""@,
        "  escape to quit    ctrl+alt+F1..F12 to switch terminal"@,
    ] + (if seconds > 0 {
        seq!["  "@ + chars::decimal(seconds as nat) + "s limit"@]
    } else {
        Seq::empty()
    }) + seq![""@]
}

pub fn tty_banner(seat: &str, size: (i32, i32), socket_name: &str, seconds: u64) -> (lines: Vec<
    String,
>)
    ensures
        chars::views(lines@) == tty_lines(seat@, size, socket_name@, seconds),
{
    let mut lines: Vec<String> = Vec::new();
    assert(chars::views(lines@) =~= Seq::<Seq<char>>::empty());
    push_text(&mut lines, "");
    let mut line: Vec<char> = chars::chars_of("  cusk on ");
    chars::append(&mut line, seat);
    chars::append(&mut line, ", ");
    chars::append_signed(&mut line, size.0 as i64);
    chars::append(&mut line, "x");
    chars::append_signed(&mut line, size.1 as i64);
    push_line(&mut lines, &line);
    push_around(&mut lines, "  WAYLAND_DISPLAY=", socket_name, "");
    push_text(&mut lines, "  escape to quit    ctrl+alt+F1..F12 to switch terminal");
    if seconds > 0 {
        let mut line: Vec<char> = chars::chars_of("  ");
        chars::append_decimal(&mut line, seconds);
        chars::append(&mut line, "s limit");
        push_line(&mut lines, &line);
    }
    push_text(&mut lines, "");
    assert(chars::views(lines@) =~= tty_lines(seat@, size, socket_name@, seconds));
    lines
}

/// What is printed when the configuration of a session on the tty cannot be
/// read: every setting is then at its default, and nothing else would say why.
pub fn config_failure(path: &str, error: &str) -> (lines: Vec<String>)
    ensures
        chars::views(lines@) == seq![
            ""@,
            "  "@ + path@ + " could not be read:"@,
            "    "@ + error@ + ""@,
            ""@,
            "  Every setting is at its default until that is fixed."@,
            "  Duplicate keys and repeated [section] headers are the usual cause."@,
            ""@,
        ],
{
    let mut lines: Vec<String> = Vec::new();
    assert(chars::views(lines@) =~= Seq::<Seq<char>>::empty());
    push_text(&mut lines, "");
    push_around(&mut lines, "  ", path, " could not be read:");
    push_around(&mut lines, "    ", error, "");
    push_text(&mut lines, "");
    push_text(&mut lines, "  Every setting is at its default until that is fixed.");
    push_text(&mut lines, "  Duplicate keys and repeated [section] headers are the usual cause.");
    push_text(&mut lines, "");
    lines
}

/// Which of the terminals that can be launched to take: the first that is
/// installed.
pub fn pick_terminal(installed: &[bool]) -> (found: Option<usize>)
    ensures
        match found {
            Some(i) => i < installed@.len() && installed@[i as int] && forall|k: int|
                0 <= k < i ==> !installed@[k],
            None => forall|k: int| 0 <= k < installed@.len() ==> !installed@[k],
        },
{
    for i in 0..installed.len()
        invariant
            forall|k: int| 0 <= k < i ==> !installed@[k],
    {
        if installed[i] {
            return Some(i);
        }
    }
    None
}

/// The terminal to start: the one asked for, else the configured one, which is
/// taken at its word, and else the one that was found.
pub fn choose_terminal(
    requested: Option<&str>,
    configured: &str,
    found: Option<&str>,
) -> (terminal: Option<String>)
    ensures
        match terminal {
            Some(terminal) => terminal@ == match requested {
                Some(requested) => requested@,
                None => if configured@ == "auto"@ {
                    found->Some_0@
                } else {
                    configured@
                },
            },
            None => requested is None && configured@ == "auto"@ && found is None,
        },
        requested is None && configured@ == "auto"@ && found is None ==> terminal is None,
{
    match requested {
        Some(requested) => Some(requested.to_owned()),
        None => {
            if chars::equal(configured, "auto") {
                match found {
                    Some(found) => Some(found.to_owned()),
                    None => None,
                }
            } else {
                Some(configured.to_owned())
            }
        },
    }
}

/// The launcher to run: a name with a path in it as it is, and a bare one beside
/// this program where there is one, `sibling` being that, and else on the path.
pub fn resolve_launcher(name: &str, sibling: Option<&str>) -> (program: String)
    ensures
        program@ == if name@.contains('/') || sibling is None {
            name@
        } else {
            sibling->Some_0@
        },
{
    let characters: Vec<char> = chars::chars_of(name);
    let at: usize = chars::find(&characters, '/', 0);
    proof {
        chars::lemma_next_index(name@, '/', 0);
        if at < name@.len() {
            assert(name@[at as int] == '/');
        }
    }
    if at < characters.len() {
        return name.to_owned();
    }
    match sibling {
        Some(path) => path.to_owned(),
        None => name.to_owned(),
    }
}

proof fn lemma_digits(digits: Seq<char>)
    requires
        digits.len() > 0,
        forall|i: int| 0 <= i < digits.len() ==> '0' <= #[trigger] digits[i] <= '9',
    ensures
        chars::numeral(digits) >= 0,
        digits_value(digits) == Some(chars::numeral(digits) as nat),
    decreases digits.len(),
{
    assert('0' <= digits[digits.len() - 1] <= '9');
    if digits.len() > 1 {
        let less = digits.drop_last();
        assert forall|i: int| 0 <= i < less.len() implies '0' <= #[trigger] less[i] <= '9' by {
            assert(less[i] == digits[i]);
        }
        lemma_digits(less);
    } else {
        assert(digits.drop_last() =~= Seq::<char>::empty());
        assert(chars::numeral(digits.drop_last()) == 0);
    }
}

/// A number is read as it is written, with or without a plus before it; one that
/// is too big is none, and so are one with a minus before it and an empty text.
pub proof fn a_number_is_read_as_written(n: nat)
    ensures
        whole_number(chars::decimal(n)) == if n <= u64::MAX {
            Some(n as u64)
        } else {
            None
        },
        whole_number(seq!['+'] + chars::decimal(n)) == whole_number(chars::decimal(n)),
        whole_number(seq!['-'] + chars::decimal(n)) is None,
        whole_number(Seq::empty()) is None,
{
    let digits = chars::decimal(n);
    chars::a_written_number_is_that_number(n);
    lemma_digits(digits);
    assert('0' <= digits[0] <= '9');
    assert((seq!['+'] + digits).skip(1) =~= digits);
    lemma_bad_digit(seq!['-'] + digits, 0);
}

/// The first argument of that kind says how many seconds are asked for; without
/// one, or where it says no number, the default holds.
pub proof fn the_seconds_asked_for_are_taken(
    args: Seq<Seq<char>>,
    default: u64,
    from: int,
    i: int,
    n: u64,
)
    requires
        0 <= from <= i <= args.len(),
        forall|k: int| from <= k < i ==> !chars::starts(#[trigger] args[k], "--seconds="@),
        i < args.len() ==> args[i] == "--seconds="@ + chars::decimal(n as nat),
    ensures
        seconds_from(args, default, from) == if i < args.len() {
            n
        } else {
            default
        },
    decreases i - from,
{
    if from < i {
        assert(!chars::starts(args[from], "--seconds="@));
        the_seconds_asked_for_are_taken(args, default, from + 1, i, n);
    } else if i < args.len() {
        let flag = "--seconds="@;
        a_number_is_read_as_written(n as nat);
        assert(args[i].take(flag.len() as int) =~= flag);
        assert(args[i].skip(flag.len() as int) =~= chars::decimal(n as nat));
    }
}

/// The client to start is the first argument that does not begin with a dash, and
/// there is none where all of them do.
pub proof fn the_first_argument_that_is_no_option_is_started(
    args: Seq<Seq<char>>,
    from: int,
    i: int,
)
    requires
        0 <= from <= i <= args.len(),
        forall|k: int| from <= k < i ==> chars::starts(#[trigger] args[k], seq!['-']),
        i < args.len() ==> !chars::starts(args[i], seq!['-']),
    ensures
        program_from(args, from) == if i < args.len() {
            Some(args[i])
        } else {
            None
        },
    decreases i - from,
{
    if from < i {
        assert(chars::starts(args[from], seq!['-']));
        assert(args[from].take(1)[0] == args[from][0]);
        the_first_argument_that_is_no_option_is_started(args, from + 1, i);
    } else if i < args.len() {
        if args[i].len() > 0 && args[i][0] == '-' {
            assert(args[i].take(1) =~= seq!['-']);
        }
    }
}

} // verus!
