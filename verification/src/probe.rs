//! What the probes report.
//!
//! The lines that a probe of the display hardware prints, and what is made of the
//! picture that a render probe reads back.

use vstd::prelude::*;

use crate::chars;
use crate::tty::{Access, Card, Connector};

verus! {

/// Appends a line.
fn say(lines: &mut Vec<String>, text: &str)
    ensures
        chars::views(final(lines)@) == chars::views(old(lines)@).push(text@),
{
    lines.push(text.to_owned());
    assert(chars::views(lines@) =~= chars::views(old(lines)@).push(text@));
}

/// A text, with spaces behind it up to a width.
pub open spec fn padded(text: Seq<char>, width: int) -> Seq<char>
    decreases width - text.len(),
{
    if text.len() >= width {
        text
    } else {
        padded(text.push(' '), width)
    }
}

fn pad(text: &mut Vec<char>, width: usize)
    ensures
        final(text)@ == padded(old(text)@, width as int),
{
    while text.len() < width
        invariant
            padded(text@, width as int) == padded(old(text)@, width as int),
        decreases width - text@.len(),
    {
        text.push(' ');
    }
}

/// A mode, as it is shown: its size and its refresh rate.
pub open spec fn mode_text(mode: (u16, u16, u32)) -> Seq<char> {
    chars::decimal(mode.0 as nat) + "x"@ + chars::decimal(mode.1 as nat) + "@"@ + chars::decimal(
        mode.2 as nat,
    )
}

fn write_mode(out: &mut Vec<char>, mode: (u16, u16, u32))
    ensures
        final(out)@ == old(out)@ + mode_text(mode),
{
    chars::append_decimal(out, mode.0 as u64);
    chars::append(out, "x");
    chars::append_decimal(out, mode.1 as u64);
    chars::append(out, "@");
    chars::append_decimal(out, mode.2 as u64);
    assert(out@ =~= old(out)@ + mode_text(mode));
}

/// What is said of a connector.
pub open spec fn connector_lines(connector: Connector) -> Seq<Seq<char>> {
    let state = if connector.connected {
        "connected"@
    } else {
        "disconnected"@
    };
    seq!["      "@ + padded(connector.name@, 12) + " "@ + state] + (if connector.modes@.len() > 0 {
        seq!["          preferred  "@ + mode_text(connector.modes@[0])]
    } else {
        Seq::empty()
    }) + (if connector.modes@.len() > 1 {
        seq!["          "@ + chars::decimal(connector.modes@.len()) + " modes total"@]
    } else {
        Seq::empty()
    })
}

fn report_connector(connector: &Connector, lines: &mut Vec<String>)
    ensures
        chars::views(final(lines)@) == chars::views(old(lines)@) + connector_lines(*connector),
{
    let mut line: Vec<char> = chars::chars_of("      ");
    let mut name: Vec<char> = chars::chars_of(connector.name.as_str());
    pad(&mut name, 12);
    chars::extend(&mut line, &name);
    chars::append(&mut line, " ");
    if connector.connected {
        chars::append(&mut line, "connected");
    } else {
        chars::append(&mut line, "disconnected");
    }
    let ghost first = line@;
    say(lines, chars::text_of(&line).as_str());
    if connector.modes.len() > 0 {
        let mut line: Vec<char> = chars::chars_of("          preferred  ");
        write_mode(&mut line, connector.modes[0]);
        say(lines, chars::text_of(&line).as_str());
    }
    if connector.modes.len() > 1 {
        let mut line: Vec<char> = chars::chars_of("          ");
        chars::append_decimal(&mut line, connector.modes.len() as u64);
        chars::append(&mut line, " modes total");
        say(lines, chars::text_of(&line).as_str());
    }
    assert(chars::views(lines@) =~= chars::views(old(lines)@) + connector_lines(*connector));
}

pub open spec fn all_connector_lines(connectors: Seq<Connector>, n: int) -> Seq<Seq<char>>
    decreases n,
{
    if n <= 0 {
        Seq::empty()
    } else {
        all_connector_lines(connectors, n - 1) + connector_lines(connectors[n - 1])
    }
}

/// What is said of a device.
pub open spec fn card_lines(card: Card) -> Seq<Seq<char>> {
    seq![""@, "  "@ + card.path@] + match card.error {
        Some(error) => seq!["      "@ + error@],
        None => (if card.connectors@.len() == 0 {
            seq!["      no connectors"@]
        } else {
            Seq::empty()
        }) + all_connector_lines(card.connectors@, card.connectors@.len() as int),
    }
}

fn report_card(card: &Card, lines: &mut Vec<String>)
    ensures
        chars::views(final(lines)@) == chars::views(old(lines)@) + card_lines(*card),
{
    say(lines, "");
    let mut line: Vec<char> = chars::chars_of("  ");
    chars::append(&mut line, card.path.as_str());
    say(lines, chars::text_of(&line).as_str());
    match &card.error {
        Some(error) => {
            let mut line: Vec<char> = chars::chars_of("      ");
            chars::append(&mut line, error.as_str());
            say(lines, chars::text_of(&line).as_str());
        },
        None => {
            if card.connectors.len() == 0 {
                say(lines, "      no connectors");
            }
            let ghost before = chars::views(lines@);
            assert(before + all_connector_lines(card.connectors@, 0) =~= before);
            for i in 0..card.connectors.len()
                invariant
                    chars::views(lines@) == before + all_connector_lines(
                        card.connectors@,
                        i as int,
                    ),
            {
                report_connector(&card.connectors[i], lines);
                assert((before + all_connector_lines(card.connectors@, i as int))
                    + connector_lines(card.connectors@[i as int]) =~= before + (
                all_connector_lines(card.connectors@, i as int) + connector_lines(
                    card.connectors@[i as int],
                )));
            }
        },
    }
    assert(chars::views(lines@) =~= chars::views(old(lines)@) + card_lines(*card));
}

pub open spec fn all_card_lines(cards: Seq<Card>, n: int) -> Seq<Seq<char>>
    decreases n,
{
    if n <= 0 {
        Seq::empty()
    } else {
        all_card_lines(cards, n - 1) + card_lines(cards[n - 1])
    }
}

/// Whether a device has a display that could be read.
pub open spec fn has_display(card: Card) -> bool {
    card.error is None && exists|i: int|
        0 <= i < card.connectors@.len() && (#[trigger] card.connectors@[i]).connected
}

fn shows_display(card: &Card) -> (b: bool)
    ensures
        b == has_display(*card),
{
    if card.error.is_some() {
        return false;
    }
    for i in 0..card.connectors.len()
        invariant
            card.error is None,
            forall|k: int| 0 <= k < i ==> !(#[trigger] card.connectors@[k]).connected,
    {
        if card.connectors[i].connected {
            return true;
        }
    }
    false
}

pub open spec fn access_lines(access: Access) -> Seq<Seq<char>> {
    match access {
        Access::Session(seat) => seq!["  session acquired, seat: "@ + seat@],
        Access::Direct(reason) => seq![
            "  no session ("@ + reason@ + ")"@,
            "  reading devices directly instead — this is expected inside a"@,
            "  running desktop, because session control is held by one process"@,
            "  at a time and the compositor already running holds it."@,
        ],
    }
}

/// What it comes to: whether any device has a display that could be read.
pub open spec fn outcome_line(cards: Seq<Card>) -> Seq<char> {
    if exists|i: int| 0 <= i < cards.len() && has_display(#[trigger] cards[i]) {
        "  A display is reachable and its modes are readable."@
    } else {
        "  No connected display was readable — see the errors above."@
    }
}

pub open spec fn advice_lines(access: Access) -> Seq<Seq<char>> {
    match access {
        Access::Session(_) => Seq::empty(),
        Access::Direct(_) => seq![
            ""@,
            "  To test the session path, run this from a free VT"@,
            "  (ctrl+alt+F3, log in, then run cusk --probe-drm)."@,
        ],
    }
}

pub open spec fn report_lines(access: Access, cards: Seq<Card>) -> Seq<Seq<char>> {
    seq![""@] + access_lines(access) + all_card_lines(cards, cards.len() as int) + seq![
        ""@,
        outcome_line(cards),
    ] + advice_lines(access) + seq![""@]
}

/// What was found, in a form that answers "will this work": the lines to print.
pub fn report(access: &Access, cards: &[Card]) -> (lines: Vec<String>)
    ensures
        chars::views(lines@) == report_lines(*access, cards@),
{
    let mut lines: Vec<String> = Vec::new();
    assert(chars::views(lines@) =~= Seq::<Seq<char>>::empty());
    say(&mut lines, "");
    match access {
        Access::Session(seat) => {
            let mut line: Vec<char> = chars::chars_of("  session acquired, seat: ");
            chars::append(&mut line, seat.as_str());
            say(&mut lines, chars::text_of(&line).as_str());
        },
        Access::Direct(reason) => {
            let mut line: Vec<char> = chars::chars_of("  no session (");
            chars::append(&mut line, reason.as_str());
            chars::append(&mut line, ")");
            say(&mut lines, chars::text_of(&line).as_str());
            say(&mut lines, "  reading devices directly instead — this is expected inside a");
            say(&mut lines, "  running desktop, because session control is held by one process");
            say(&mut lines, "  at a time and the compositor already running holds it.");
        },
    }
    let ghost head = seq![""@] + access_lines(*access);
    assert(chars::views(lines@) =~= head);
    let mut usable: bool = false;
    assert(head + all_card_lines(cards@, 0) =~= head);
    for i in 0..cards.len()
        invariant
            chars::views(lines@) == head + all_card_lines(cards@, i as int),
            usable == (exists|k: int| 0 <= k < i && has_display(#[trigger] cards@[k])),
    {
        report_card(&cards[i], &mut lines);
        if shows_display(&cards[i]) {
            usable = true;
        }
        assert((head + all_card_lines(cards@, i as int)) + card_lines(cards@[i as int]) =~= head
            + (all_card_lines(cards@, i as int) + card_lines(cards@[i as int])));
    }
    say(&mut lines, "");
    if usable {
        say(&mut lines, "  A display is reachable and its modes are readable.");
    } else {
        say(&mut lines, "  No connected display was readable — see the errors above.");
    }
    match access {
        Access::Session(_) => {},
        Access::Direct(_) => {
            say(&mut lines, "");
            say(&mut lines, "  To test the session path, run this from a free VT");
            say(&mut lines, "  (ctrl+alt+F3, log in, then run cusk --probe-drm).");
        },
    }
    say(&mut lines, "");
    assert(chars::views(lines@) =~= report_lines(*access, cards@));
    lines
}

/// Numbers, as a list is shown.
pub open spec fn listed(numbers: Seq<u32>, n: int) -> Seq<char>
    decreases n,
{
    if n <= 0 {
        "["@
    } else if n == 1 {
        "["@ + chars::decimal(numbers[0] as nat)
    } else {
        listed(numbers, n - 1) + ", "@ + chars::decimal(numbers[n - 1] as nat)
    }
}

/// What is said of the keys that arrived while the picture was up.
pub open spec fn key_lines(keys: Seq<u32>, escaped: bool) -> Seq<Seq<char>> {
    (if escaped {
        seq!["  escape pressed — ended early"@]
    } else {
        Seq::empty()
    }) + seq![
        if keys.len() == 0 {
            "  no key events arrived (was anything typed?)"@
        } else {
            "  "@ + chars::decimal(keys.len()) + " key press(es) seen, codes: "@ + listed(
                keys,
                keys.len() as int,
            ) + "]"@
        },
    ]
}

/// The lines that report the keys that arrived.
pub fn report_keys(keys: &[u32], escaped: bool) -> (lines: Vec<String>)
    ensures
        chars::views(lines@) == key_lines(keys@, escaped),
{
    let mut lines: Vec<String> = Vec::new();
    assert(chars::views(lines@) =~= Seq::<Seq<char>>::empty());
    if escaped {
        say(&mut lines, "  escape pressed — ended early");
    }
    if keys.len() == 0 {
        say(&mut lines, "  no key events arrived (was anything typed?)");
    } else {
        let mut line: Vec<char> = chars::chars_of("  ");
        chars::append_decimal(&mut line, keys.len() as u64);
        chars::append(&mut line, " key press(es) seen, codes: ");
        let ghost head = line@;
        chars::append(&mut line, "[");
        for i in 0..keys.len()
            invariant
                line@ == head + listed(keys@, i as int),
        {
            if i > 0 {
                chars::append(&mut line, ", ");
            }
            chars::append_decimal(&mut line, keys[i] as u64);
            assert(line@ =~= head + listed(keys@, i + 1));
        }
        chars::append(&mut line, "]");
        say(&mut lines, chars::text_of(&line).as_str());
    }
    assert(chars::views(lines@) =~= key_lines(keys@, escaped));
    lines
}

/// What a test says before it takes the display: the output, its mode, and for
/// how long.
pub open spec fn announcement(
    name: Seq<char>,
    mode: (u16, u16, u32),
    what: Seq<char>,
    seconds: u64,
    after: Seq<char>,
) -> Seq<Seq<char>> {
    seq![
        ""@,
        "  "@ + name + "  "@ + mode_text(mode),
        what + chars::decimal(seconds as nat) + after,
        ""@,
    ]
}

fn announce(
    name: &str,
    mode: (u16, u16, u32),
    what: &str,
    seconds: u64,
    after: &str,
) -> (lines: Vec<String>)
    ensures
        chars::views(lines@) == announcement(name@, mode, what@, seconds, after@),
{
    let mut lines: Vec<String> = Vec::new();
    say(&mut lines, "");
    let mut line: Vec<char> = chars::chars_of("  ");
    chars::append(&mut line, name);
    chars::append(&mut line, "  ");
    write_mode(&mut line, mode);
    say(&mut lines, chars::text_of(&line).as_str());
    let mut line: Vec<char> = chars::chars_of(what);
    chars::append_decimal(&mut line, seconds);
    chars::append(&mut line, after);
    say(&mut lines, chars::text_of(&line).as_str());
    say(&mut lines, "");
    assert(chars::views(lines@) =~= announcement(name@, mode, what@, seconds, after@));
    lines
}

pub fn announce_modeset(name: &str, mode: (u16, u16, u32), seconds: u64) -> (lines: Vec<String>)
    ensures
        chars::views(lines@) == announcement(
            name@,
            mode,
            "  showing a colour for "@,
            seconds,
            "s, then restoring"@,
        ),
{
    announce(name, mode, "  showing a colour for ", seconds, "s, then restoring")
}

pub fn announce_scanout(name: &str, mode: (u16, u16, u32), seconds: u64) -> (lines: Vec<String>)
    ensures
        chars::views(lines@) == announcement(
            name@,
            mode,
            "  rendering with the GPU into a scanout buffer for "@,
            seconds,
            "s"@,
        ),
{
    announce(name, mode, "  rendering with the GPU into a scanout buffer for ", seconds, "s")
}

/// How long the watchdog of a test waits: longer than the picture is up.
pub fn watchdog_delay(seconds: u64) -> (delay: u64)
    requires
        seconds <= u64::MAX - 2,
    ensures
        delay == seconds + 2,
{
    seconds + 2
}

/// The colour that a mode test shows, in the order its bytes lie in memory.
pub open spec fn shown_byte(i: int) -> u8 {
    if i % 4 == 0 {
        0x1a
    } else if i % 4 == 1 {
        0x11
    } else if i % 4 == 2 {
        0x08
    } else {
        0x00
    }
}

/// Fill a buffer of whole pixels with the colour that a mode test shows; bytes
/// that make no whole pixel stay as they are.
pub fn fill(bytes: &mut [u8])
    ensures
        final(bytes)@.len() == old(bytes)@.len(),
        forall|i: int|
            0 <= i < old(bytes)@.len() ==> #[trigger] final(bytes)@[i] == if i < old(
                bytes,
            )@.len() / 4 * 4 {
                shown_byte(i)
            } else {
                old(bytes)@[i]
            },
{
    let whole: usize = bytes.len() / 4 * 4;
    let mut i: usize = 0;
    while i < whole
        invariant
            i <= whole <= bytes@.len(),
            whole == old(bytes)@.len() / 4 * 4,
            bytes@.len() == old(bytes)@.len(),
            forall|k: int|
                0 <= k < bytes@.len() ==> #[trigger] bytes@[k] == if k < i {
                    shown_byte(k)
                } else {
                    old(bytes)@[k]
                },
        decreases whole - i,
    {
        let part: usize = i % 4;
        bytes[i] = if part == 0 {
            0x1a
        } else if part == 1 {
            0x11
        } else if part == 2 {
            0x08
        } else {
            0x00
        };
        i = i + 1;
    }
}

/// A digit of a number to the base of sixteen.
pub open spec fn hex_digit(n: int) -> char {
    if n < 10 {
        ('0' as u32 + n) as char
    } else {
        ('A' as u32 + (n - 10)) as char
    }
}

pub open spec fn hex(byte: u8) -> Seq<char> {
    seq![hex_digit(byte as int / 16), hex_digit(byte as int % 16)]
}

/// Three bytes, as a list of them is shown.
pub open spec fn colour_text(a: u8, b: u8, c: u8) -> Seq<char> {
    "["@ + hex(a) + ", "@ + hex(b) + ", "@ + hex(c) + "]"@
}

fn digit(n: u8) -> (c: char)
    requires
        n < 16,
    ensures
        c == hex_digit(n as int),
{
    if n < 10 {
        (48 + n) as char
    } else {
        (55 + n) as char
    }
}

fn write_hex(out: &mut Vec<char>, byte: u8)
    ensures
        final(out)@ == old(out)@ + hex(byte),
{
    out.push(digit(byte / 16));
    out.push(digit(byte % 16));
    assert(out@ =~= old(out)@ + hex(byte));
}

fn write_colour(out: &mut Vec<char>, a: u8, b: u8, c: u8)
    ensures
        final(out)@ == old(out)@ + colour_text(a, b, c),
{
    chars::append(out, "[");
    write_hex(out, a);
    chars::append(out, ", ");
    write_hex(out, b);
    chars::append(out, ", ");
    write_hex(out, c);
    chars::append(out, "]");
    assert(out@ =~= old(out)@ + colour_text(a, b, c));
}

/// What is wrong with a picture that was to start with the colour that a render
/// probe draws, whose three channels differ; nothing, if it does.
pub open spec fn colour_fault(pixels: Seq<u8>) -> Option<Seq<char>> {
    if pixels.len() < 3 {
        Some("readback was empty"@)
    } else if pixels[0] != 0x11 || pixels[1] != 0x99 || pixels[2] != 0x33 {
        Some(
            "rendered the wrong colour: expected "@ + colour_text(0x11, 0x99, 0x33) + ", got "@
                + colour_text(pixels[0], pixels[1], pixels[2]),
        )
    } else {
        None
    }
}

/// What is made of a picture that was read back.
///
/// That every call returned is not the same as that the pixels are right, and
/// only the second is worth claiming.
pub fn check_colour(pixels: &[u8]) -> (outcome: Result<(), String>)
    ensures
        match outcome {
            Ok(_) => colour_fault(pixels@) is None,
            Err(text) => colour_fault(pixels@) == Some(text@),
        },
{
    if pixels.len() < 3 {
        return Err("readback was empty".to_owned());
    }
    if pixels[0] != 0x11 || pixels[1] != 0x99 || pixels[2] != 0x33 {
        let mut text: Vec<char> = chars::chars_of("rendered the wrong colour: expected ");
        write_colour(&mut text, 0x11, 0x99, 0x33);
        chars::append(&mut text, ", got ");
        write_colour(&mut text, pixels[0], pixels[1], pixels[2]);
        assert(text@ =~= colour_fault(pixels@)->Some_0);
        return Err(chars::text_of(&text));
    }
    Ok(())
}

/// Whether a picture is to stay up: until its time is over, in milliseconds, or
/// Escape was pressed.
pub fn keeps_showing(elapsed: u64, seconds: u64, escaped: bool) -> (b: bool)
    ensures
        b == (!escaped && elapsed < seconds * 1000),
{
    !escaped && (elapsed as u128) < seconds as u128 * 1000
}

/// A device that could not be opened, or not be read.
pub fn unreadable_card(path: String, what: &str, reason: &str) -> (card: Card)
    ensures
        card.path@ == path@,
        card.connectors@.len() == 0,
        card.error is Some,
        card.error->Some_0@ == what@ + reason@,
{
    let mut text: Vec<char> = chars::chars_of(what);
    chars::append(&mut text, reason);
    Card { path, connectors: Vec::new(), error: Some(chars::text_of(&text)) }
}

/// The connectors that could be read, in order.
pub open spec fn readable(found: Seq<Option<Connector>>) -> Seq<Connector>
    decreases found.len(),
{
    if found.len() == 0 {
        Seq::empty()
    } else {
        match found.last() {
            Some(connector) => readable(found.drop_last()).push(connector),
            None => readable(found.drop_last()),
        }
    }
}

/// A device and those of its connectors that could be read. One that could not
/// is passed over: a probe that stops at the first problem hides the state of
/// everything after it.
pub fn interrogated(path: String, found: Vec<Option<Connector>>) -> (card: Card)
    ensures
        card.path@ == path@,
        card.connectors@ == readable(found@),
        card.error is None,
{
    let ghost all = found@;
    let mut rest: Vec<Option<Connector>> = found;
    let mut connectors: Vec<Connector> = Vec::new();
    assert(readable(all.take(0)) =~= Seq::<Connector>::empty());
    let n: usize = rest.len();
    assert(all.skip(0) =~= all);
    for i in 0..n
        invariant
            n == all.len(),
            rest@ == all.skip(i as int),
            connectors@ == readable(all.take(i as int)),
    {
        assert(all.take(i + 1).drop_last() =~= all.take(i as int));
        match rest.remove(0) {
            Some(connector) => connectors.push(connector),
            None => {},
        }
        assert(rest@ =~= all.skip(i + 1));
    }
    assert(all.take(all.len() as int) =~= all);
    Card { path, connectors, error: None }
}

/// A text that is padded is as long as it was to be, and begins as it was, with
/// spaces behind it; a longer one is not cut.
pub proof fn padding_adds_spaces_behind(text: Seq<char>, width: int, i: int)
    ensures
        padded(text, width).len() == if text.len() < width {
            width
        } else {
            text.len() as int
        },
        0 <= i < text.len() ==> padded(text, width)[i] == text[i],
        text.len() <= i < width ==> padded(text, width)[i] == ' ',
    decreases width - text.len(),
{
    if text.len() < width {
        padding_adds_spaces_behind(text.push(' '), width, i);
    }
}

/// A byte is shown as its two digits to the base of sixteen: no two bytes are
/// shown alike.
pub proof fn bytes_are_shown_apart(a: u8, b: u8)
    ensures
        hex(a).len() == 2,
        hex(a) == hex(b) ==> a == b,
        a < 10 ==> hex(a) == seq!['0', chars::digit(a as int)],
{
    let (high, low) = (a as int / 16, a as int % 16);
    assert(hex(a)[0] == hex_digit(high) && hex(a)[1] == hex_digit(low));
    assert(hex(b)[0] == hex_digit(b as int / 16) && hex(b)[1] == hex_digit(b as int % 16));
    if a < 10 {
        assert(hex(a) =~= seq!['0', chars::digit(a as int)]);
    }
}

/// A picture passes if it starts with the colour that was drawn, and only then.
pub proof fn only_the_right_colour_passes(pixels: Seq<u8>)
    ensures
        colour_fault(pixels) is None <==> pixels.len() >= 3 && pixels.take(3) == seq![
            0x11u8,
            0x99u8,
            0x33u8,
        ],
{
    if pixels.len() >= 3 {
        let start = pixels.take(3);
        assert(start[0] == pixels[0] && start[1] == pixels[1] && start[2] == pixels[2]);
        if colour_fault(pixels) is None {
            assert(start =~= seq![0x11u8, 0x99u8, 0x33u8]);
        }
    }
}

/// Every connector that could be read is kept, in its place, and one that could
/// not takes nothing else with it.
pub proof fn what_can_be_read_is_kept(
    a: Seq<Option<Connector>>,
    b: Seq<Option<Connector>>,
    connector: Connector,
)
    ensures
        readable(a + b) == readable(a) + readable(b),
        readable(seq![Some(connector)]) == seq![connector],
        readable(seq![None::<Connector>]) == Seq::<Connector>::empty(),
        readable(Seq::empty()) == Seq::<Connector>::empty(),
    decreases b.len(),
{
    let nothing = Seq::<Option<Connector>>::empty();
    assert(readable(nothing) == Seq::<Connector>::empty());
    assert(seq![Some(connector)].drop_last() =~= nothing);
    assert(seq![None::<Connector>].drop_last() =~= nothing);
    assert(Seq::<Connector>::empty().push(connector) =~= seq![connector]);
    if b.len() == 0 {
        assert(a + b =~= a);
        assert(readable(a) + readable(b) =~= readable(a));
    } else {
        what_can_be_read_is_kept(a, b.drop_last(), connector);
        assert((a + b).drop_last() =~= a + b.drop_last());
        assert((a + b).last() == b.last());
        assert(readable(a + b) =~= readable(a) + readable(b));
    }
}

/// A display is reachable where a device that could be read has one connected,
/// and the report says so.
pub proof fn one_display_is_enough(access: Access, cards: Seq<Card>, i: int, k: int)
    requires
        0 <= i < cards.len(),
        0 <= k < cards[i].connectors@.len(),
        cards[i].error is None,
        cards[i].connectors@[k].connected,
    ensures
        outcome_line(cards) == "  A display is reachable and its modes are readable."@,
        report_lines(access, cards).contains(outcome_line(cards)),
{
    assert(has_display(cards[i]));
    let front = seq![""@] + access_lines(access) + all_card_lines(cards, cards.len() as int);
    let all = report_lines(access, cards);
    assert(all[(front.len() + 1) as int] == outcome_line(cards));
}

} // verus!
