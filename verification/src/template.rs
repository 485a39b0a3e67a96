//! The generated configuration file.
//!
//! It documents every setting and gives a value to none: each of its lines is
//! blank, a comment or the header of a section, so that it reads as the defaults.
//! Each setting is shown at its default, so that it reads as the defaults too
//! once those lines are uncommented.

use vstd::arithmetic::power2::pow2;
use vstd::prelude::*;

use crate::chars;
use crate::config;
use crate::config::{Apply, Meaning, Row, Rule, Trouble};
use crate::document;
use crate::document::Held;
use crate::number;
use crate::number::Number;

verus! {

/// Whether a text can stand in a comment that shows no setting.
pub open spec fn plain(s: Seq<char>) -> bool {
    forall|i: int| 0 <= i < s.len() ==> document::in_comment(#[trigger] s[i]) && s[i] != '='
}

/// Whether a text is made of two names and the dot between them.
pub open spec fn sectioned(s: Seq<char>, dot: int) -> bool {
    &&& 0 < dot < s.len() - 1
    &&& s[dot] == '.'
    &&& forall|i: int| 0 <= i < s.len() && i != dot ==> document::in_name(#[trigger] s[i])
}

proof fn lemma_decimal_is_plain(n: nat)
    ensures
        plain(chars::decimal(n)),
    decreases n,
{
    if n >= 10 {
        lemma_decimal_is_plain(n / 10);
    }
}

proof fn lemma_signed_decimal_is_plain(n: int)
    ensures
        plain(chars::signed_decimal(n)),
{
    if n < 0 {
        lemma_decimal_is_plain((-n) as nat);
    } else {
        lemma_decimal_is_plain(n as nat);
    }
}

/// Whether every text in a rule is one that a comment can hold.
pub open spec fn plain_rule(rule: Rule) -> bool {
    match rule {
        Rule::Int { .. } => true,
        Rule::Float { default, min, max } => plain(default.1) && plain(min.1) && plain(max.1),
        Rule::Bool { .. } => true,
        Rule::Text { default } => plain(default),
        Rule::Choice { default, options } => plain(default) && forall|k: int|
            0 <= k < options.len() ==> plain(#[trigger] options[k]),
    }
}

proof fn lemma_joined_is_plain(names: Seq<Seq<char>>)
    requires
        forall|k: int| 0 <= k < names.len() ==> plain(#[trigger] names[k]),
    ensures
        plain(config::comma_joined(names)),
    decreases names.len(),
{
    reveal_strlit(", ");
    if names.len() > 1 {
        lemma_joined_is_plain(names.drop_last());
        assert(plain(names.last()));
    }
}

proof fn lemma_rule_is_plain(rule: Rule)
    requires
        plain_rule(rule),
    ensures
        plain(config::rendered_default(rule)),
        plain(config::rule_name(rule)),
        config::bounds(rule) matches Some(text) ==> plain(text),
{
    reveal_strlit(" to ");
    reveal_strlit("\"");
    reveal_strlit("true");
    reveal_strlit("false");
    reveal_strlit("integer");
    reveal_strlit("number");
    reveal_strlit("boolean");
    reveal_strlit("text");
    reveal_strlit("choice");
    match rule {
        Rule::Int { default, min, max } => {
            lemma_signed_decimal_is_plain(default);
            lemma_signed_decimal_is_plain(min);
            lemma_signed_decimal_is_plain(max);
        },
        Rule::Choice { options, .. } => {
            lemma_joined_is_plain(options);
        },
        _ => {},
    }
}

proof fn lemma_docs_are_plain(i: int)
    requires
        0 <= i < config::schema_rows().len(),
    ensures
        plain(config::schema_rows()[i].doc),
{
    assert(plain("Space between tiles, in pixels."@)) by {
        reveal_strlit("Space between tiles, in pixels.");
    }
    assert(plain("Space between tiles and the screen edge, in pixels."@)) by {
        reveal_strlit("Space between tiles and the screen edge, in pixels.");
    }
    assert(plain("Fraction of the width taken by the master column."@)) by {
        reveal_strlit("Fraction of the width taken by the master column.");
    }
    assert(plain("Which arrangement tiled workspaces start in."@)) by {
        reveal_strlit("Which arrangement tiled workspaces start in.");
    }
    assert(plain("Whether new workspaces tile rather than float."@)) by {
        reveal_strlit("Whether new workspaces tile rather than float.");
    }
    assert(plain("How many workspaces exist."@)) by {
        reveal_strlit("How many workspaces exist.");
    }
    assert(plain("The modifier that arms compositor bindings."@)) by {
        reveal_strlit("The modifier that arms compositor bindings.");
    }
    assert(plain("Whether hovering a window focuses it, without a click."@)) by {
        reveal_strlit("Whether hovering a window focuses it, without a click.");
    }
    assert(plain("Image shown behind windows. Leave empty for a plain background."@)) by {
        reveal_strlit("Image shown behind windows. Leave empty for a plain background.");
    }
    assert(plain("Blur the wallpaper where it shows through a window."@)) by {
        reveal_strlit("Blur the wallpaper where it shows through a window.");
    }
    assert(plain("How far the blur spreads, in pixels."@)) by {
        reveal_strlit("How far the blur spreads, in pixels.");
    }
    assert(plain("Path to a font file. Empty finds one on the system."@)) by {
        reveal_strlit("Path to a font file. Empty finds one on the system.");
    }
    assert(plain("Height of the workspace bar along the top edge. Zero hides it."@)) by {
        reveal_strlit("Height of the workspace bar along the top edge. Zero hides it.");
    }
    assert(plain("How opaque windows are. Below 1.0 the blur behind them becomes visible."@)) by {
        reveal_strlit("How opaque windows are. Below 1.0 the blur behind them becomes visible.");
    }
    assert(plain("Blur what is actually behind a window, not just the wallpaper. Costs a blur per window per frame."@)) by {
        reveal_strlit("Blur what is actually behind a window, not just the wallpaper. Costs a blur per window per frame.");
    }
    assert(plain("Rounding of window corners, in pixels."@)) by {
        reveal_strlit("Rounding of window corners, in pixels.");
    }
    assert(plain("Thickness of the ring around the focused window. Zero hides it."@)) by {
        reveal_strlit("Thickness of the ring around the focused window. Zero hides it.");
    }
    assert(plain("Box-blur passes. Three approximates a Gaussian closely."@)) by {
        reveal_strlit("Box-blur passes. Three approximates a Gaussian closely.");
    }
    assert(plain("Program the launcher binding runs. A bare name is looked for beside cusk, then on PATH."@)) by {
        reveal_strlit("Program the launcher binding runs. A bare name is looked for beside cusk, then on PATH.");
    }
    assert(plain("Terminal opened by the spawn binding."@)) by {
        reveal_strlit("Terminal opened by the spawn binding.");
    }
}

/// How long the name of a setting's section is.
spec fn section_length(i: int) -> int {
    if i < 5 {
        6
    } else if i == 5 {
        10
    } else if i < 8 {
        5
    } else if i < 18 {
        10
    } else {
        8
    }
}

proof fn lemma_keys_are_sectioned(i: int)
    requires
        0 <= i < config::schema_rows().len(),
    ensures
        sectioned(config::schema_rows()[i].key, section_length(i)),
{
    assert(sectioned("layout.inner-gap"@, 6)) by {
        reveal_strlit("layout.inner-gap");
    }
    assert(sectioned("layout.outer-gap"@, 6)) by {
        reveal_strlit("layout.outer-gap");
    }
    assert(sectioned("layout.master-ratio"@, 6)) by {
        reveal_strlit("layout.master-ratio");
    }
    assert(sectioned("layout.default"@, 6)) by {
        reveal_strlit("layout.default");
    }
    assert(sectioned("layout.tile-by-default"@, 6)) by {
        reveal_strlit("layout.tile-by-default");
    }
    assert(sectioned("workspaces.count"@, 10)) by {
        reveal_strlit("workspaces.count");
    }
    assert(sectioned("input.mod-key"@, 5)) by {
        reveal_strlit("input.mod-key");
    }
    assert(sectioned("input.focus-follows-mouse"@, 5)) by {
        reveal_strlit("input.focus-follows-mouse");
    }
    assert(sectioned("appearance.wallpaper"@, 10)) by {
        reveal_strlit("appearance.wallpaper");
    }
    assert(sectioned("appearance.blur"@, 10)) by {
        reveal_strlit("appearance.blur");
    }
    assert(sectioned("appearance.blur-radius"@, 10)) by {
        reveal_strlit("appearance.blur-radius");
    }
    assert(sectioned("appearance.font"@, 10)) by {
        reveal_strlit("appearance.font");
    }
    assert(sectioned("appearance.panel-height"@, 10)) by {
        reveal_strlit("appearance.panel-height");
    }
    assert(sectioned("appearance.window-opacity"@, 10)) by {
        reveal_strlit("appearance.window-opacity");
    }
    assert(sectioned("appearance.window-blur"@, 10)) by {
        reveal_strlit("appearance.window-blur");
    }
    assert(sectioned("appearance.corner-radius"@, 10)) by {
        reveal_strlit("appearance.corner-radius");
    }
    assert(sectioned("appearance.focus-ring"@, 10)) by {
        reveal_strlit("appearance.focus-ring");
    }
    assert(sectioned("appearance.blur-passes"@, 10)) by {
        reveal_strlit("appearance.blur-passes");
    }
    assert(sectioned("commands.launcher"@, 8)) by {
        reveal_strlit("commands.launcher");
    }
    assert(sectioned("commands.terminal"@, 8)) by {
        reveal_strlit("commands.terminal");
    }
}

proof fn lemma_rules_are_plain(i: int)
    requires
        0 <= i < config::schema_rows().len(),
    ensures
        plain_rule(config::schema_rows()[i].rule),
{
    assert(plain("0.6"@)) by {
        reveal_strlit("0.6");
    }
    assert(plain("0.1"@)) by {
        reveal_strlit("0.1");
    }
    assert(plain("0.9"@)) by {
        reveal_strlit("0.9");
    }
    assert(plain("master-stack"@)) by {
        reveal_strlit("master-stack");
    }
    assert(plain("columns"@)) by {
        reveal_strlit("columns");
    }
    assert(plain("super"@)) by {
        reveal_strlit("super");
    }
    assert(plain("alt"@)) by {
        reveal_strlit("alt");
    }
    assert(plain("ctrl"@)) by {
        reveal_strlit("ctrl");
    }
    assert(plain("ctrl-alt"@)) by {
        reveal_strlit("ctrl-alt");
    }
    assert(plain(""@)) by {
        reveal_strlit("");
    }
    assert(plain("1"@)) by {
        reveal_strlit("1");
    }
    assert(plain("0.2"@)) by {
        reveal_strlit("0.2");
    }
    assert(plain("cusk-launcher"@)) by {
        reveal_strlit("cusk-launcher");
    }
    assert(plain("auto"@)) by {
        reveal_strlit("auto");
    }
    assert(plain("foot"@)) by {
        reveal_strlit("foot");
    }
    assert(plain("alacritty"@)) by {
        reveal_strlit("alacritty");
    }
    assert(plain("kitty"@)) by {
        reveal_strlit("kitty");
    }
    assert(plain("weston-terminal"@)) by {
        reveal_strlit("weston-terminal");
    }
    assert(plain("konsole"@)) by {
        reveal_strlit("konsole");
    }
}

/// Whether a line shows a setting, commented out.
pub open spec fn shows_setting(line: Seq<char>, i: int) -> bool {
    &&& 0 <= i < config::schema_rows().len()
    &&& chars::starts(line, "# "@ + config::leaf_of(config::schema_rows()[i].key) + " ="@)
}

/// A line, uncommented where it shows a setting.
pub open spec fn uncommented_line(line: Seq<char>) -> Seq<char> {
    if exists|i: int| #[trigger] shows_setting(line, i) {
        line.skip(2)
    } else {
        line
    }
}

/// Lines, with every setting that they show uncommented.
pub open spec fn uncommented(lines: Seq<Seq<char>>) -> Seq<Seq<char>> {
    Seq::new(lines.len(), |i: int| uncommented_line(lines[i]))
}

proof fn lemma_shows_nothing(line: Seq<char>)
    requires
        forall|k: int| 0 <= k < line.len() ==> #[trigger] line[k] != '=',
    ensures
        uncommented_line(line) == line,
{
    reveal_strlit(" =");
    assert forall|i: int| !#[trigger] shows_setting(line, i) by {
        let shown = "# "@ + config::leaf_of(config::schema_rows()[i].key) + " ="@;
        if shows_setting(line, i) {
            assert(shown.last() == '=');
            assert(line.take(shown.len() as int).last() == line[shown.len() - 1]);
        }
    }
}

/// Whether a text is made of whole lines, each of them blank, a comment or a
/// header, and the headers name these tables.
pub open spec fn heads(text: Seq<char>, names: Seq<Seq<char>>) -> bool {
    let lines = chars::pieces(text, '\n');
    &&& lines.last().len() == 0
    &&& document::without_values(lines)
    &&& document::headed(lines) == names
}

/// Whether the settings that a text shows, uncommented, make this document.
pub open spec fn shows(text: Seq<char>, sections: Seq<(Seq<char>, Option<Seq<(Seq<char>, Held)>>)>) -> bool {
    document::spells(uncommented(chars::pieces(text, '\n')), sections)
}

proof fn lemma_add_line(
    text: Seq<char>,
    names: Seq<Seq<char>>,
    before: Seq<(Seq<char>, Option<Seq<(Seq<char>, Held)>>)>,
    line: Seq<char>,
    after: Seq<(Seq<char>, Option<Seq<(Seq<char>, Held)>>)>,
)
    requires
        heads(text, names),
        shows(text, before),
        line.len() == 0 || document::is_comment(line) || document::is_header(line),
        document::adds(uncommented_line(line), before, after),
    ensures
        heads(
            text + line + seq!['\n'],
            if document::is_header(line) {
                names.push(line.subrange(1, line.len() - 1))
            } else {
                names
            },
        ),
        shows(text + line + seq!['\n'], after),
{
    let none = Seq::<char>::empty();
    let old_lines = chars::pieces(text, '\n');
    assert(!line.contains('\n')) by {
        if line.contains('\n') {
            let k = line.index_of('\n');
            assert(line[k] == '\n');
            if document::is_comment(line) {
                assert(document::in_comment(line[k]));
            } else if 0 < k < line.len() - 1 {
                assert(document::in_name(line[k]));
            }
        }
    }
    chars::lemma_one_piece(line, '\n');
    chars::lemma_one_piece(none, '\n');
    chars::lemma_pieces_of_both(text + line, none, '\n');
    assert(text + line + seq!['\n'] + none =~= text + line + seq!['\n']);
    let front = old_lines.drop_last();
    assert(chars::pieces(text + line, '\n') =~= front.push(line)) by {
        lemma_last_piece(text, line);
    }
    let lines = chars::pieces(text + line + seq!['\n'], '\n');
    assert(lines =~= front.push(line).push(none));
    assert(lines.drop_last() =~= front.push(line));
    assert(front.push(line).drop_last() =~= front);
    assert(document::without_values(lines)) by {
        assert forall|i: int| 0 <= i < lines.len() implies (#[trigger] lines[i]).len() == 0
            || document::is_comment(lines[i]) || document::is_header(lines[i]) by {
            if i < front.len() {
                assert(lines[i] == old_lines[i]);
            }
        }
    }
    assert(document::headed(old_lines) == document::headed(front));
    assert(document::headed(lines) == document::headed(front.push(line)));
    lemma_blank_end(old_lines, before);
    let shown = uncommented(front).push(uncommented_line(line));
    assert(shown.drop_last() =~= uncommented(front));
    assert(document::adds(shown.last(), before, after));
    assert(document::spells(shown, after));
    lemma_shows_nothing(none);
    assert(uncommented(lines) =~= shown.push(none));
    assert(uncommented(lines).drop_last() =~= shown);
    assert(document::adds(uncommented(lines).last(), after, after));
}

/// A blank line at the end makes no difference.
proof fn lemma_blank_end(lines: Seq<Seq<char>>, sections: Seq<(Seq<char>, Option<Seq<(Seq<char>, Held)>>)>)
    requires
        lines.len() > 0,
        lines.last().len() == 0,
        document::spells(uncommented(lines), sections),
    ensures
        document::spells(uncommented(lines.drop_last()), sections),
        document::spells(uncommented(lines).drop_last(), sections),
{
    let (all, last) = (uncommented(lines), lines.last());
    lemma_shows_nothing(last);
    assert(all.drop_last() =~= uncommented(lines.drop_last()));
    assert(all.last() == last);
    let before = choose|before: Seq<(Seq<char>, Option<Seq<(Seq<char>, Held)>>)>|
        document::spells(all.drop_last(), before) && #[trigger] document::adds(
            all.last(),
            before,
            sections,
        );
    assert(document::adds(last, before, sections));
    assert forall|name: Seq<char>, held: Held| !#[trigger] document::gives(last, name, held) by {}
}

/// A line that is blank or a comment without an equals sign shows no setting.
proof fn lemma_add_remark(
    text: Seq<char>,
    names: Seq<Seq<char>>,
    sections: Seq<(Seq<char>, Option<Seq<(Seq<char>, Held)>>)>,
    line: Seq<char>,
)
    requires
        heads(text, names),
        shows(text, sections),
        line.len() == 0 || document::is_comment(line),
        forall|k: int| 0 <= k < line.len() ==> #[trigger] line[k] != '=',
    ensures
        heads(text + line + seq!['\n'], names),
        shows(text + line + seq!['\n'], sections),
{
    lemma_shows_nothing(line);
    lemma_add_line(text, names, sections, line, sections);
}

/// What is written behind a text of whole lines is the last of its lines.
proof fn lemma_last_piece(text: Seq<char>, line: Seq<char>)
    requires
        chars::pieces(text, '\n').last().len() == 0,
        !line.contains('\n'),
    ensures
        chars::pieces(text + line, '\n') == chars::pieces(text, '\n').drop_last().push(line),
{
    let none = Seq::<char>::empty();
    chars::lemma_one_piece(line, '\n');
    chars::lemma_one_piece(none, '\n');
    if text.len() == 0 {
        assert(text =~= none);
        assert(text + line =~= line);
        assert(chars::pieces(text, '\n').drop_last().push(line) =~= seq![line]);
    } else {
        lemma_ends_with_a_break(text, 0);
        let front = text.drop_last();
        assert(text =~= front + seq!['\n'] + none);
        assert(text + line =~= front + seq!['\n'] + line);
        chars::lemma_pieces_of_both(front, none, '\n');
        chars::lemma_pieces_of_both(front, line, '\n');
        assert(chars::pieces(text, '\n').drop_last() =~= chars::pieces(front, '\n'));
        assert(chars::pieces(text + line, '\n') =~= chars::pieces(front, '\n').push(line));
    }
}

proof fn lemma_ends_with_a_break(text: Seq<char>, from: int)
    requires
        0 <= from <= text.len(),
        from < text.len() || (from > 0 && text[from - 1] == '\n'),
        chars::pieces_from(text, '\n', from).last().len() == 0,
    ensures
        text.last() == '\n',
    decreases text.len() - from,
{
    chars::lemma_next_index(text, '\n', from);
    let at = chars::next_index(text, '\n', from);
    if at < text.len() {
        let rest = chars::pieces_from(text, '\n', at + 1);
        chars::lemma_next_index(text, '\n', at + 1);
        assert(rest.len() > 0);
        assert(chars::pieces_from(text, '\n', from).last() == rest.last());
        lemma_ends_with_a_break(text, at + 1);
    }
}

proof fn lemma_comment(body: Seq<char>)
    requires
        forall|i: int| 0 <= i < body.len() ==> document::in_comment(#[trigger] body[i]),
    ensures
        document::is_comment(seq!['#', ' '] + body),
{
}

/// The sections that the first `n` settings are headed by: each where it differs
/// from the one before.
pub open spec fn headings(n: int) -> Seq<Seq<char>>
    decreases n,
{
    if n <= 0 {
        Seq::empty()
    } else {
        let table = config::table_of(config::schema_rows()[n - 1].key);
        if table != config::section_before(n - 1) {
            headings(n - 1).push(table)
        } else {
            headings(n - 1)
        }
    }
}

proof fn lemma_table_is_a_name(i: int)
    requires
        0 <= i < config::schema_rows().len(),
    ensures
        ({
            let row = config::schema_rows()[i];
            let header = seq!['['] + config::table_of(row.key) + seq![']'];
            let leaf = config::leaf_of(row.key);
            &&& document::is_header(header)
            &&& header.subrange(1, header.len() - 1) == config::table_of(row.key)
            &&& forall|k: int| 0 <= k < header.len() ==> #[trigger] header[k] != '='
            &&& leaf.len() > 0
            &&& forall|k: int| 0 <= k < leaf.len() ==> document::in_name(#[trigger] leaf[k])
        }),
{
    let key = config::schema_rows()[i].key;
    let dot = section_length(i);
    lemma_keys_are_sectioned(i);
    chars::lemma_next_index(key, '.', 0);
    let at = chars::next_index(key, '.', 0);
    if at < dot {
        assert(document::in_name(key[at]));
    }
    let table = config::table_of(key);
    let header = seq!['['] + table + seq![']'];
    assert(header.subrange(1, header.len() - 1) =~= table);
    assert forall|k: int| 0 < k < header.len() - 1 implies document::in_name(
        #[trigger] header[k],
    ) by {
        assert(header[k] == table[k - 1]);
        assert(table[k - 1] == key[k - 1]);
    }
    assert forall|k: int| 0 <= k < header.len() implies #[trigger] header[k] != '=' by {
        if 0 < k < header.len() - 1 {
            assert(document::in_name(header[k]));
        }
    }
    let leaf = config::leaf_of(key);
    assert forall|k: int| 0 <= k < leaf.len() implies document::in_name(#[trigger] leaf[k]) by {
        assert(leaf[k] == key[dot + 1 + k]);
    }
}

proof fn lemma_purpose_lines(
    text: Seq<char>,
    names: Seq<Seq<char>>,
    sections: Seq<(Seq<char>, Option<Seq<(Seq<char>, Held)>>)>,
    row: Row,
)
    requires
        heads(text, names),
        shows(text, sections),
        plain(row.doc),
    ensures
        heads(text + config::purpose_lines(row), names),
        shows(text + config::purpose_lines(row), sections),
{
    let (none, nl) = (Seq::<char>::empty(), seq!['\n']);
    let told = seq!['#', ' '] + row.doc;
    lemma_comment(row.doc);
    lemma_add_remark(text, names, sections, none);
    lemma_add_remark(text + none + nl, names, sections, told);
    let described = text + none + nl + told + nl;
    reveal_strlit("\n# ");
    reveal_strlit("\n");
    if row.apply == Apply::Restart {
        let restart = "# takes effect on restart\n"@.drop_last();
        assert(document::is_comment(restart) && "# takes effect on restart\n"@ == restart + nl
            && forall|k: int| 0 <= k < restart.len() ==> #[trigger] restart[k] != '=') by {
            reveal_strlit("# takes effect on restart\n");
            assert("# takes effect on restart\n"@ =~= restart + nl);
        }
        lemma_add_remark(described, names, sections, restart);
        assert(text + config::purpose_lines(row) =~= described + restart + nl);
    } else {
        assert(text + config::purpose_lines(row) =~= described);
    }
}

proof fn lemma_range_line(
    text: Seq<char>,
    names: Seq<Seq<char>>,
    sections: Seq<(Seq<char>, Option<Seq<(Seq<char>, Held)>>)>,
    row: Row,
)
    requires
        heads(text, names),
        shows(text, sections),
        plain_rule(row.rule),
    ensures
        heads(text + config::range_line(row), names),
        shows(text + config::range_line(row), sections),
{
    lemma_rule_is_plain(row.rule);
    match config::bounds(row.rule) {
        Some(range) => {
            reveal_strlit("# ");
            reveal_strlit(": ");
            reveal_strlit("\n");
            let body = config::rule_name(row.rule) + ": "@ + range;
            assert(plain(body));
            lemma_comment(body);
            lemma_add_remark(text, names, sections, seq!['#', ' '] + body);
            assert(text + config::range_line(row) =~= text + (seq!['#', ' '] + body) + seq!['\n']);
        },
        None => {
            assert(text + config::range_line(row) =~= text);
        },
    }
}

proof fn lemma_preamble_line(text: Seq<char>, line: Seq<char>)
    requires
        heads(text, Seq::empty()),
        shows(text, Seq::empty()),
        line.len() > 0,
        line.last() == '\n',
        document::is_comment(line.drop_last()),
        plain(line.drop_last()),
    ensures
        heads(text + line, Seq::empty()),
        shows(text + line, Seq::empty()),
{
    lemma_add_remark(text, Seq::empty(), Seq::empty(), line.drop_last());
    assert(text + line =~= text + line.drop_last() + seq!['\n']);
}

proof fn lemma_preamble()
    ensures
        heads(config::preamble(), Seq::empty()),
        shows(config::preamble(), Seq::empty()),
{
    let none = Seq::<char>::empty();
    chars::lemma_one_piece(none, '\n');
    let blank = chars::pieces(none, '\n');
    assert(document::headed(blank.drop_last()) =~= Seq::<Seq<char>>::empty());
    assert(document::headed(blank) =~= Seq::<Seq<char>>::empty());
    lemma_shows_nothing(none);
    assert(uncommented(blank) =~= blank);
    let nothing: Seq<(Seq<char>, Option<Seq<(Seq<char>, Held)>>)> = Seq::empty();
    assert(document::spells(blank.drop_last(), nothing));
    assert(document::adds(blank.last(), nothing, nothing));

    let line0 = "# cusk configuration\n"@;
    assert(document::is_comment(line0.drop_last()) && plain(line0.drop_last()) && line0.last()
        == '\n' && line0.len() > 0) by {
        reveal_strlit("# cusk configuration\n");
    }
    lemma_preamble_line(none, line0);
    let line1 = "#\n"@;
    assert(document::is_comment(line1.drop_last()) && plain(line1.drop_last()) && line1.last()
        == '\n' && line1.len() > 0) by {
        reveal_strlit("#\n");
    }
    lemma_preamble_line(none + line0, line1);
    let line2 = "# Every setting below is shown at its default and commented out.\n"@;
    assert(document::is_comment(line2.drop_last()) && plain(line2.drop_last()) && line2.last()
        == '\n' && line2.len() > 0) by {
        reveal_strlit("# Every setting below is shown at its default and commented out.\n");
    }
    lemma_preamble_line(none + line0 + line1, line2);
    let line3 = "# Uncomment a line to change it. Comments and ordering are preserved\n"@;
    assert(document::is_comment(line3.drop_last()) && plain(line3.drop_last()) && line3.last()
        == '\n' && line3.len() > 0) by {
        reveal_strlit("# Uncomment a line to change it. Comments and ordering are preserved\n");
    }
    lemma_preamble_line(none + line0 + line1 + line2, line3);
    let line4 = "# when the settings GUI writes to this file.\n"@;
    assert(document::is_comment(line4.drop_last()) && plain(line4.drop_last()) && line4.last()
        == '\n' && line4.len() > 0) by {
        reveal_strlit("# when the settings GUI writes to this file.\n");
    }
    lemma_preamble_line(none + line0 + line1 + line2 + line3, line4);
    assert(config::preamble() =~= none + line0 + line1 + line2 + line3 + line4);
}

proof fn lemma_tables()
    ensures
        config::table_of(config::schema_rows()[0].key) == "layout"@,
        config::table_of(config::schema_rows()[1].key) == "layout"@,
        config::table_of(config::schema_rows()[2].key) == "layout"@,
        config::table_of(config::schema_rows()[3].key) == "layout"@,
        config::table_of(config::schema_rows()[4].key) == "layout"@,
        config::table_of(config::schema_rows()[5].key) == "workspaces"@,
        config::table_of(config::schema_rows()[6].key) == "input"@,
        config::table_of(config::schema_rows()[7].key) == "input"@,
        config::table_of(config::schema_rows()[8].key) == "appearance"@,
        config::table_of(config::schema_rows()[9].key) == "appearance"@,
        config::table_of(config::schema_rows()[10].key) == "appearance"@,
        config::table_of(config::schema_rows()[11].key) == "appearance"@,
        config::table_of(config::schema_rows()[12].key) == "appearance"@,
        config::table_of(config::schema_rows()[13].key) == "appearance"@,
        config::table_of(config::schema_rows()[14].key) == "appearance"@,
        config::table_of(config::schema_rows()[15].key) == "appearance"@,
        config::table_of(config::schema_rows()[16].key) == "appearance"@,
        config::table_of(config::schema_rows()[17].key) == "appearance"@,
        config::table_of(config::schema_rows()[18].key) == "commands"@,
        config::table_of(config::schema_rows()[19].key) == "commands"@,
{
    assert(config::table_of("layout.inner-gap"@) == "layout"@) by {
        reveal_strlit("layout.inner-gap");
        reveal_strlit("layout");
        lemma_table("layout.inner-gap"@, "layout"@);
    }
    assert(config::table_of("layout.outer-gap"@) == "layout"@) by {
        reveal_strlit("layout.outer-gap");
        reveal_strlit("layout");
        lemma_table("layout.outer-gap"@, "layout"@);
    }
    assert(config::table_of("layout.master-ratio"@) == "layout"@) by {
        reveal_strlit("layout.master-ratio");
        reveal_strlit("layout");
        lemma_table("layout.master-ratio"@, "layout"@);
    }
    assert(config::table_of("layout.default"@) == "layout"@) by {
        reveal_strlit("layout.default");
        reveal_strlit("layout");
        lemma_table("layout.default"@, "layout"@);
    }
    assert(config::table_of("layout.tile-by-default"@) == "layout"@) by {
        reveal_strlit("layout.tile-by-default");
        reveal_strlit("layout");
        lemma_table("layout.tile-by-default"@, "layout"@);
    }
    assert(config::table_of("workspaces.count"@) == "workspaces"@) by {
        reveal_strlit("workspaces.count");
        reveal_strlit("workspaces");
        lemma_table("workspaces.count"@, "workspaces"@);
    }
    assert(config::table_of("input.mod-key"@) == "input"@) by {
        reveal_strlit("input.mod-key");
        reveal_strlit("input");
        lemma_table("input.mod-key"@, "input"@);
    }
    assert(config::table_of("input.focus-follows-mouse"@) == "input"@) by {
        reveal_strlit("input.focus-follows-mouse");
        reveal_strlit("input");
        lemma_table("input.focus-follows-mouse"@, "input"@);
    }
    assert(config::table_of("appearance.wallpaper"@) == "appearance"@) by {
        reveal_strlit("appearance.wallpaper");
        reveal_strlit("appearance");
        lemma_table("appearance.wallpaper"@, "appearance"@);
    }
    assert(config::table_of("appearance.blur"@) == "appearance"@) by {
        reveal_strlit("appearance.blur");
        reveal_strlit("appearance");
        lemma_table("appearance.blur"@, "appearance"@);
    }
    assert(config::table_of("appearance.blur-radius"@) == "appearance"@) by {
        reveal_strlit("appearance.blur-radius");
        reveal_strlit("appearance");
        lemma_table("appearance.blur-radius"@, "appearance"@);
    }
    assert(config::table_of("appearance.font"@) == "appearance"@) by {
        reveal_strlit("appearance.font");
        reveal_strlit("appearance");
        lemma_table("appearance.font"@, "appearance"@);
    }
    assert(config::table_of("appearance.panel-height"@) == "appearance"@) by {
        reveal_strlit("appearance.panel-height");
        reveal_strlit("appearance");
        lemma_table("appearance.panel-height"@, "appearance"@);
    }
    assert(config::table_of("appearance.window-opacity"@) == "appearance"@) by {
        reveal_strlit("appearance.window-opacity");
        reveal_strlit("appearance");
        lemma_table("appearance.window-opacity"@, "appearance"@);
    }
    assert(config::table_of("appearance.window-blur"@) == "appearance"@) by {
        reveal_strlit("appearance.window-blur");
        reveal_strlit("appearance");
        lemma_table("appearance.window-blur"@, "appearance"@);
    }
    assert(config::table_of("appearance.corner-radius"@) == "appearance"@) by {
        reveal_strlit("appearance.corner-radius");
        reveal_strlit("appearance");
        lemma_table("appearance.corner-radius"@, "appearance"@);
    }
    assert(config::table_of("appearance.focus-ring"@) == "appearance"@) by {
        reveal_strlit("appearance.focus-ring");
        reveal_strlit("appearance");
        lemma_table("appearance.focus-ring"@, "appearance"@);
    }
    assert(config::table_of("appearance.blur-passes"@) == "appearance"@) by {
        reveal_strlit("appearance.blur-passes");
        reveal_strlit("appearance");
        lemma_table("appearance.blur-passes"@, "appearance"@);
    }
    assert(config::table_of("commands.launcher"@) == "commands"@) by {
        reveal_strlit("commands.launcher");
        reveal_strlit("commands");
        lemma_table("commands.launcher"@, "commands"@);
    }
    assert(config::table_of("commands.terminal"@) == "commands"@) by {
        reveal_strlit("commands.terminal");
        reveal_strlit("commands");
        lemma_table("commands.terminal"@, "commands"@);
    }
}

proof fn lemma_table(key: Seq<char>, table: Seq<char>)
    requires
        table.len() < key.len(),
        key[table.len() as int] == '.',
        forall|k: int| 0 <= k < table.len() ==> #[trigger] key[k] == table[k] && table[k] != '.',
    ensures
        config::table_of(key) == table,
{
    chars::lemma_next_index(key, '.', 0);
    let at = chars::next_index(key, '.', 0);
    if at < table.len() {
        assert(key[at] == table[at]);
    }
    assert(config::table_of(key) =~= table);
}

proof fn lemma_headings()
    ensures
        headings(config::schema_rows().len() as int).no_duplicates(),
{
    lemma_tables();
    reveal_strlit("layout");
    reveal_strlit("workspaces");
    reveal_strlit("input");
    reveal_strlit("appearance");
    reveal_strlit("commands");
    assert("workspaces"@[0] != "appearance"@[0]);
    assert(config::section_before(0) =~= Seq::<char>::empty());
    assert("layout"@.len() != config::section_before(0).len());

    assert(headings(0) =~= Seq::<Seq<char>>::empty());
    assert(headings(1) =~= seq!["layout"@]);
    assert(headings(2) =~= seq!["layout"@]);
    assert(headings(3) =~= seq!["layout"@]);
    assert(headings(4) =~= seq!["layout"@]);
    assert(headings(5) =~= seq!["layout"@]);
    assert(headings(6) =~= seq!["layout"@, "workspaces"@]);
    assert(headings(7) =~= seq!["layout"@, "workspaces"@, "input"@]);
    assert(headings(8) =~= seq!["layout"@, "workspaces"@, "input"@]);
    assert(headings(9) =~= seq!["layout"@, "workspaces"@, "input"@, "appearance"@]);
    assert(headings(10) =~= seq!["layout"@, "workspaces"@, "input"@, "appearance"@]);
    assert(headings(11) =~= seq!["layout"@, "workspaces"@, "input"@, "appearance"@]);
    assert(headings(12) =~= seq!["layout"@, "workspaces"@, "input"@, "appearance"@]);
    assert(headings(13) =~= seq!["layout"@, "workspaces"@, "input"@, "appearance"@]);
    assert(headings(14) =~= seq!["layout"@, "workspaces"@, "input"@, "appearance"@]);
    assert(headings(15) =~= seq!["layout"@, "workspaces"@, "input"@, "appearance"@]);
    assert(headings(16) =~= seq!["layout"@, "workspaces"@, "input"@, "appearance"@]);
    assert(headings(17) =~= seq!["layout"@, "workspaces"@, "input"@, "appearance"@]);
    assert(headings(18) =~= seq!["layout"@, "workspaces"@, "input"@, "appearance"@]);
    assert(headings(19) =~= seq!["layout"@, "workspaces"@, "input"@, "appearance"@, "commands"@]);
    assert(headings(20) =~= seq!["layout"@, "workspaces"@, "input"@, "appearance"@, "commands"@]);
    assert(config::schema_rows().len() == 20);
    let all = headings(20);
    assert(all.len() == 5);
    assert(all[0].len() == 6 && all[1].len() == 10 && all[2].len() == 5 && all[3].len() == 10
        && all[4].len() == 8);
    assert(all[1][0] != all[3][0]);
    assert forall|i: int, j: int| 0 <= i < all.len() && 0 <= j < all.len() && i != j implies all[i]
        != all[j] by {
        if all[i] == all[j] {
            assert(all[i].len() == all[j].len());
            assert(all[i][0] == all[j][0]);
        }
    }
}

/// What a default, as the generated file shows it, reads as: a whole number for
/// the one number among them that shows no fraction.
spec fn shown_held(rule: Rule) -> Held {
    match config::default_of(rule) {
        Meaning::Float(number, written) => if written == "1"@ {
            Held::Integer(1)
        } else {
            Held::Float(number, written)
        },
        m => config::held_of(m),
    }
}

/// What the first `n` settings and the header of the next one's section make of
/// a document.
spec fn headed_sections(n: int) -> Seq<(Seq<char>, Option<Seq<(Seq<char>, Held)>>)>
    decreases n, 1int,
{
    let table = config::table_of(config::schema_rows()[n].key);
    if table != config::section_before(n) {
        shown_sections(n).push((table, Some(Seq::empty())))
    } else {
        shown_sections(n)
    }
}

/// What the first `n` settings make of a document, each at its default.
spec fn shown_sections(n: int) -> Seq<(Seq<char>, Option<Seq<(Seq<char>, Held)>>)>
    decreases n, 0int,
{
    if n <= 0 {
        Seq::empty()
    } else {
        let row = config::schema_rows()[n - 1];
        document::extended(
            headed_sections(n - 1),
            config::leaf_of(row.key),
            shown_held(row.rule),
        )
    }
}

/// Whether an entry of a table is a setting's, at its default.
spec fn is_row(table: Seq<char>, entry: (Seq<char>, Held), j: int) -> bool {
    let row = config::schema_rows()[j];
    table == config::table_of(row.key) && entry == (
        config::leaf_of(row.key),
        shown_held(row.rule),
    )
}

/// Whether an entry of a table is one of the first `n` settings.
spec fn among_rows(table: Seq<char>, entry: (Seq<char>, Held), n: int) -> bool {
    exists|j: int| 0 <= j < n && #[trigger] is_row(table, entry, j)
}

/// Whether every entry of a document is one of the first `n` settings.
spec fn only_rows(sections: Seq<(Seq<char>, Option<Seq<(Seq<char>, Held)>>)>, n: int) -> bool {
    forall|k: int, e: int|
        0 <= k < sections.len() && 0 <= e < sections[k].1->Some_0.len() ==> among_rows(
            sections[k].0,
            #[trigger] sections[k].1->Some_0[e],
            n,
        )
}

/// Whether a document has an entry for a setting.
spec fn has_row(sections: Seq<(Seq<char>, Option<Seq<(Seq<char>, Held)>>)>, j: int) -> bool {
    exists|k: int, e: int|
        0 <= k < sections.len() && 0 <= e < sections[k].1->Some_0.len() && is_row(
            sections[k].0,
            #[trigger] sections[k].1->Some_0[e],
            j,
        )
}

/// Whether the tables of a document have these names.
spec fn named(sections: Seq<(Seq<char>, Option<Seq<(Seq<char>, Held)>>)>, names: Seq<Seq<char>>) -> bool {
    &&& sections.len() == names.len()
    &&& forall|k: int|
        0 <= k < sections.len() ==> (#[trigger] sections[k]).0 == names[k] && sections[k].1 is Some
}

proof fn lemma_headings_differ(n: int)
    requires
        0 <= n <= config::schema_rows().len(),
    ensures
        headings(n).no_duplicates(),
    decreases config::schema_rows().len() - n,
{
    if n == config::schema_rows().len() {
        lemma_headings();
    } else {
        lemma_headings_differ(n + 1);
        let (some, more) = (headings(n), headings(n + 1));
        assert forall|i: int, j: int|
            0 <= i < some.len() && 0 <= j < some.len() && i != j implies some[i] != some[j] by {
            assert(some[i] == more[i] && some[j] == more[j]);
        }
    }
}

proof fn lemma_same_key(i: int, j: int)
    requires
        0 <= i < config::schema_rows().len(),
        0 <= j < config::schema_rows().len(),
        config::table_of(config::schema_rows()[i].key) == config::table_of(
            config::schema_rows()[j].key,
        ),
        config::leaf_of(config::schema_rows()[i].key) == config::leaf_of(
            config::schema_rows()[j].key,
        ),
    ensures
        i == j,
{
    config::every_key_is_sectioned(i);
    config::every_key_is_sectioned(j);
    if i < j {
        config::keys_are_unique(i, j);
    } else if j < i {
        config::keys_are_unique(j, i);
    }
}

/// The header of the next setting's section names a new table, or that section
/// is the last one; and the setting is new in it.
proof fn lemma_headed_sections(n: int)
    requires
        0 <= n < config::schema_rows().len(),
        named(shown_sections(n), headings(n)),
        n > 0 ==> shown_sections(n).len() > 0 && shown_sections(n).last().0
            == config::section_before(n),
        only_rows(shown_sections(n), n),
    ensures
        ({
            let row = config::schema_rows()[n];
            let table = config::table_of(row.key);
            let headed = headed_sections(n);
            &&& table != config::section_before(n) ==> document::place(shown_sections(n), table)
                is None
            &&& named(headed, headings(n + 1))
            &&& headed.len() > 0
            &&& headed.last().0 == table
            &&& only_rows(headed, n)
            &&& document::place(headed.last().1->Some_0, config::leaf_of(row.key)) is None
        }),
{
    let row = config::schema_rows()[n];
    let table = config::table_of(row.key);
    let leaf = config::leaf_of(row.key);
    let (shown, headed) = (shown_sections(n), headed_sections(n));
    config::every_key_is_sectioned(n);
    lemma_headings_differ(n + 1);
    if table != config::section_before(n) {
        document::lemma_place_from(shown, table, 0);
        if document::place(shown, table) is Some {
            let k = document::place(shown, table)->Some_0;
            assert(shown[k].0 == headings(n)[k]);
            assert(headings(n + 1)[k] == headings(n)[k] && headings(n + 1).last() == table);
        }
        assert forall|k: int| 0 <= k < headed.len() implies (#[trigger] headed[k]).0 == headings(
            n + 1,
        )[k] && headed[k].1 is Some by {
            if k < shown.len() {
                assert(headed[k] == shown[k]);
            }
        }
        assert forall|k: int, e: int|
            0 <= k < headed.len() && 0 <= e < headed[k].1->Some_0.len() implies among_rows(
            headed[k].0,
            #[trigger] headed[k].1->Some_0[e],
            n,
        ) by {
            assert(headed[k] == shown[k]);
            assert(shown[k].1->Some_0[e] == headed[k].1->Some_0[e]);
        }
    } else {
        assert(n > 0);
    }
    let entries = headed.last().1->Some_0;
    document::lemma_place_from(entries, leaf, 0);
    if document::place(entries, leaf) is Some {
        let e = document::place(entries, leaf)->Some_0;
        let k = headed.len() - 1;
        assert(headed[k].1->Some_0[e] == entries[e]);
        let j = choose|j: int| 0 <= j < n && #[trigger] is_row(headed[k].0, entries[e], j);
        lemma_same_key(j, n);
    }
}

proof fn lemma_shown_sections(n: int)
    requires
        0 <= n <= config::schema_rows().len(),
    ensures
        named(shown_sections(n), headings(n)),
        n > 0 ==> shown_sections(n).len() > 0 && shown_sections(n).last().0
            == config::section_before(n),
        only_rows(shown_sections(n), n),
        forall|j: int| 0 <= j < n ==> #[trigger] has_row(shown_sections(n), j),
    decreases n,
{
    if n > 0 {
        let i = n - 1;
        lemma_shown_sections(i);
        lemma_headed_sections(i);
        let row = config::schema_rows()[i];
        let (old_shown, headed, shown) = (shown_sections(i), headed_sections(i), shown_sections(n));
        let last = shown.len() - 1;
        let entries = headed[last].1->Some_0;
        let entry = (config::leaf_of(row.key), shown_held(row.rule));
        assert(shown.len() == headed.len());
        assert(shown[last] == (headed[last].0, Some(entries.push(entry))));
        assert forall|k: int| 0 <= k < last implies #[trigger] shown[k] == headed[k] by {}
        assert(named(shown, headings(n)));
        assert forall|k: int, e: int|
            0 <= k < shown.len() && 0 <= e < shown[k].1->Some_0.len() implies among_rows(
            shown[k].0,
            #[trigger] shown[k].1->Some_0[e],
            n,
        ) by {
            if k == last && e == entries.len() {
                assert(is_row(shown[k].0, shown[k].1->Some_0[e], i));
            } else {
                assert(shown[k].1->Some_0[e] == headed[k].1->Some_0[e]);
                let j = choose|j: int|
                    0 <= j < i && #[trigger] is_row(headed[k].0, headed[k].1->Some_0[e], j);
                assert(is_row(shown[k].0, shown[k].1->Some_0[e], j));
            }
        }
        assert forall|j: int| 0 <= j < n implies #[trigger] has_row(shown, j) by {
            if j == i {
                assert(is_row(
                    shown[last].0,
                    shown[last].1->Some_0[entries.len() as int],
                    j,
                ));
            } else {
                assert(has_row(old_shown, j));
                let (k, e) = choose|k: int, e: int|
                    0 <= k < old_shown.len() && 0 <= e < old_shown[k].1->Some_0.len() && is_row(
                        old_shown[k].0,
                        #[trigger] old_shown[k].1->Some_0[e],
                        j,
                    );
                assert(headed[k] == old_shown[k]);
                assert(shown[k].1->Some_0[e] == headed[k].1->Some_0[e]);
                assert(is_row(shown[k].0, shown[k].1->Some_0[e], j));
            }
        }
    }
}

proof fn lemma_header_lines(text: Seq<char>, i: int)
    requires
        0 <= i < config::schema_rows().len(),
        heads(text, headings(i)),
        shows(text, shown_sections(i)),
    ensures
        ({
            let head = config::header_lines(config::section_before(i), config::schema_rows()[i]);
            &&& heads(text + head, headings(i + 1))
            &&& shows(text + head, headed_sections(i))
        }),
{
    let row = config::schema_rows()[i];
    let table = config::table_of(row.key);
    let head = config::header_lines(config::section_before(i), row);
    let (none, nl) = (Seq::<char>::empty(), seq!['\n']);
    let header = seq!['['] + table + seq![']'];
    if table != config::section_before(i) {
        lemma_table_is_a_name(i);
        lemma_shown_sections(i);
        lemma_headed_sections(i);
        lemma_add_remark(text, headings(i), shown_sections(i), none);
        lemma_shows_nothing(header);
        lemma_add_line(
            text + none + nl,
            headings(i),
            shown_sections(i),
            header,
            headed_sections(i),
        );
        reveal_strlit("\n[");
        reveal_strlit("]\n");
        assert(text + head =~= text + none + nl + header + nl);
    } else {
        assert(text + head =~= text);
    }
}

/// The number nearest to six tenths.
proof fn lemma_six_tenths()
    ensures
        (Number { bits: 0x3fe3_3333_3333_3333 }).nearest(6, 10),
{
    let n = Number { bits: 0x3fe3_3333_3333_3333 };
    let place = pow2(1021) as int;
    vstd::arithmetic::power2::lemma_pow2_pos(1021);
    vstd::arithmetic::power2::lemma_pow2_adds(1021, 53);
    vstd::arithmetic::power2::lemma2_to64_rest();
    assert(pow2(1074) == place * 0x20_0000_0000_0000);
    assert(n.units() == 0x13_3333_3333_3333 * place);
    assert(n.distance(6, 10) == 2 * place);
    number::within_half_a_place_is_nearest(n, 6, 10);
}

/// Whether a text needs no escapes between quotes.
spec fn unescaped(s: Seq<char>) -> bool {
    forall|i: int|
        0 <= i < s.len() ==> document::in_comment(#[trigger] s[i]) && s[i] != '"' && s[i] != '\\'
}

/// Each default, as the generated file shows it, is a literal.
proof fn lemma_default_is_a_literal(i: int)
    requires
        0 <= i < config::schema_rows().len(),
    ensures
        ({
            let rule = config::schema_rows()[i].rule;
            document::stands_for(config::rendered_default(rule), shown_held(rule))
        }),
{
    let rule = config::schema_rows()[i].rule;
    assert(unescaped("master-stack"@)) by {
        reveal_strlit("master-stack");
    }
    assert(unescaped("super"@)) by {
        reveal_strlit("super");
    }
    assert(unescaped(""@)) by {
        reveal_strlit("");
    }
    assert(unescaped("cusk-launcher"@)) by {
        reveal_strlit("cusk-launcher");
    }
    assert(unescaped("auto"@)) by {
        reveal_strlit("auto");
    }
    match config::default_of(rule) {
        Meaning::Int(v) => {
            assert(0 <= v <= 100);
        },
        Meaning::Float(number, written) => {
            reveal_strlit("1");
            reveal_strlit("0.6");
            if i == 2 {
                assert("1"@.len() != written.len());
                assert(document::is_decimal(written, 1));
                let digits = written.remove(1);
                assert(digits =~= seq!['0', '6']);
                assert(digits.drop_last() =~= seq!['0']);
                assert(digits.drop_last().drop_last().len() == 0);
                reveal_with_fuel(chars::numeral, 3);
                assert(chars::numeral(digits) == 6);
                vstd::arithmetic::power::lemma_pow1(10);
                lemma_six_tenths();
            } else {
                assert(written == "1"@);
                assert(chars::decimal(1) =~= "1"@);
            }
        },
        Meaning::Bool(_) => {},
        Meaning::Text(text) => {
            assert(unescaped(text));
        },
    }
}

proof fn lemma_default_line(text: Seq<char>, i: int)
    requires
        0 <= i < config::schema_rows().len(),
        heads(text, headings(i + 1)),
        shows(text, headed_sections(i)),
    ensures
        ({
            let line = config::default_line(config::schema_rows()[i]);
            &&& heads(text + line, headings(i + 1))
            &&& shows(text + line, shown_sections(i + 1))
        }),
{
    let row = config::schema_rows()[i];
    let (leaf, held) = (config::leaf_of(row.key), shown_held(row.rule));
    let literal = config::rendered_default(row.rule);
    lemma_rules_are_plain(i);
    lemma_rule_is_plain(row.rule);
    lemma_table_is_a_name(i);
    reveal_strlit("# ");
    reveal_strlit(" = ");
    reveal_strlit(" =");
    reveal_strlit("\n");
    let body = leaf + " = "@ + literal;
    let line = seq!['#', ' '] + body;
    assert forall|k: int| 0 <= k < body.len() implies document::in_comment(#[trigger] body[k]) by {
        if k < leaf.len() {
            assert(document::in_name(leaf[k]));
        } else if k >= leaf.len() + 3 {
            assert(document::in_comment(literal[k - leaf.len() - 3]));
        }
    }
    lemma_comment(body);
    let shown = "# "@ + leaf + " ="@;
    assert(line.take(shown.len() as int) =~= shown);
    assert(shows_setting(line, i));
    assert(line.skip(2) =~= body);
    lemma_default_is_a_literal(i);
    lemma_shown_sections(i);
    lemma_headed_sections(i);
    assert(body.take(leaf.len() as int + 3) =~= leaf + " = "@);
    assert(body.skip(leaf.len() as int + 3) =~= literal);
    assert(document::gives(body, leaf, held));
    let last = headed_sections(i).len() - 1;
    assert(headed_sections(i)[last].1 is Some);
    assert(document::adds(body, headed_sections(i), shown_sections(i + 1)));
    lemma_add_line(text, headings(i + 1), headed_sections(i), line, shown_sections(i + 1));
    assert(text + config::default_line(row) =~= text + line + seq!['\n']);
}

proof fn lemma_row(text: Seq<char>, i: int)
    requires
        0 <= i < config::schema_rows().len(),
        heads(text, headings(i)),
        shows(text, shown_sections(i)),
    ensures
        ({
            let row = config::documented_row(
                config::section_before(i),
                config::schema_rows()[i],
            );
            &&& heads(text + row, headings(i + 1))
            &&& shows(text + row, shown_sections(i + 1))
        }),
{
    let row = config::schema_rows()[i];
    let current = config::section_before(i);
    let (names, sections) = (headings(i + 1), headed_sections(i));
    lemma_docs_are_plain(i);
    lemma_rules_are_plain(i);
    lemma_header_lines(text, i);
    let headed = text + config::header_lines(current, row);
    lemma_purpose_lines(headed, names, sections, row);
    let explained = headed + config::purpose_lines(row);
    lemma_range_line(explained, names, sections, row);
    let ranged = explained + config::range_line(row);
    lemma_default_line(ranged, i);
    assert(text + config::documented_row(current, row) =~= ranged + config::default_line(row));
}

proof fn lemma_file(n: int)
    requires
        0 <= n <= config::schema_rows().len(),
    ensures
        heads(config::documented_file(n), headings(n)),
        shows(config::documented_file(n), shown_sections(n)),
    decreases n,
{
    if n > 0 {
        lemma_file(n - 1);
        lemma_row(config::documented_file(n - 1), n - 1);
    } else {
        lemma_preamble();
    }
}

/// Each default is accepted as it reads in the generated file, and is then the
/// default.
proof fn lemma_shown_default_is_accepted(i: int)
    requires
        0 <= i < config::schema_rows().len(),
    ensures
        ({
            let rule = config::schema_rows()[i].rule;
            &&& config::meaning_of(shown_held(rule)) is Some
            &&& config::checked(rule, config::meaning_of(shown_held(rule))->Some_0) == Ok::<
                Meaning,
                Trouble,
            >(config::default_of(rule))
        }),
{
    let rule = config::schema_rows()[i].rule;
    config::every_default_satisfies_its_rule(i);
    match config::default_of(rule) {
        Meaning::Int(v) => {
            assert(0 <= v <= 100);
        },
        Meaning::Float(_, written) => {
            if i != 2 {
                let one = Number { bits: 0x3ff0_0000_0000_0000 };
                vstd::arithmetic::power2::lemma2_to64();
                vstd::arithmetic::power2::lemma2_to64_rest();
                assert(one.is_fraction(1, 0)) by {
                    let e: int = 0;
                    assert(1 * vstd::arithmetic::power2::pow2((52 - e) as nat)
                        == 0x10_0000_0000_0000);
                }
                number::every_whole_number_is_one(1);
                number::whole_numbers_keep_their_order(number::whole(1), 1, one, 1, 0);
                reveal_strlit("1");
                assert(chars::signed_decimal(1) =~= "1"@);
            } else {
                reveal_strlit("1");
                reveal_strlit("0.6");
                assert(written.len() != "1"@.len());
            }
        },
        _ => {},
    }
}

proof fn lemma_shown_is_held(j: int)
    requires
        0 <= j < config::schema_rows().len(),
    ensures
        ({
            let row = config::schema_rows()[j];
            let sections = shown_sections(config::schema_rows().len() as int);
            document::held_at(sections, config::table_of(row.key), config::leaf_of(row.key))
                == Some(shown_held(row.rule))
        }),
{
    let n = config::schema_rows().len() as int;
    let row = config::schema_rows()[j];
    let (table, leaf) = (config::table_of(row.key), config::leaf_of(row.key));
    let sections = shown_sections(n);
    lemma_shown_sections(n);
    lemma_headings();
    assert(has_row(sections, j));
    let (k, e) = choose|k: int, e: int|
        0 <= k < sections.len() && 0 <= e < sections[k].1->Some_0.len() && is_row(
            sections[k].0,
            #[trigger] sections[k].1->Some_0[e],
            j,
        );
    document::lemma_place_from(sections, table, 0);
    let at = document::place(sections, table)->Some_0;
    assert(sections[k].0 == headings(n)[k] && sections[at].0 == headings(n)[at]);
    assert(at == k);
    let entries = sections[k].1->Some_0;
    document::lemma_place_from(entries, leaf, 0);
    assert(entries[e].0 == leaf);
    let found = document::place(entries, leaf)->Some_0;
    assert(sections[k].1->Some_0[found].0 == leaf);
    let i = choose|i: int| 0 <= i < n && #[trigger] is_row(sections[k].0, entries[found], i);
    lemma_same_key(i, j);
}

proof fn lemma_nothing_to_object_to(n: int)
    requires
        0 <= n <= config::schema_rows().len(),
    ensures
        config::objections(shown_sections(config::schema_rows().len() as int), n) == Seq::<
            (Seq<char>, Trouble),
        >::empty(),
    decreases n,
{
    if n > 0 {
        lemma_nothing_to_object_to(n - 1);
        lemma_shown_is_held(n - 1);
        lemma_shown_default_is_accepted(n - 1);
    }
}

proof fn lemma_no_stray_entries(sections: Seq<(Seq<char>, Option<Seq<(Seq<char>, Held)>>)>, k: int, n: int)
    requires
        0 <= k < sections.len(),
        0 <= n <= sections[k].1->Some_0.len(),
        only_rows(sections, config::schema_rows().len() as int),
    ensures
        config::stray_entries(sections[k].0, sections[k].1->Some_0, n) == Seq::<
            (Seq<char>, Trouble),
        >::empty(),
    decreases n,
{
    if n > 0 {
        lemma_no_stray_entries(sections, k, n - 1);
        let entry = sections[k].1->Some_0[n - 1];
        let j = choose|j: int|
            0 <= j < config::schema_rows().len() && #[trigger] is_row(sections[k].0, entry, j);
        config::every_key_is_sectioned(j);
        config::every_key_names_its_setting(j);
    }
}

proof fn lemma_no_strays(sections: Seq<(Seq<char>, Option<Seq<(Seq<char>, Held)>>)>, n: int)
    requires
        0 <= n <= sections.len(),
        only_rows(sections, config::schema_rows().len() as int),
    ensures
        config::strays(sections, n) == Seq::<(Seq<char>, Trouble)>::empty(),
    decreases n,
{
    if n > 0 {
        lemma_no_strays(sections, n - 1);
        if sections[n - 1].1 is Some {
            lemma_no_stray_entries(sections, n - 1, sections[n - 1].1->Some_0.len() as int);
        }
        assert(config::strays(sections, n) =~= Seq::<(Seq<char>, Trouble)>::empty());
    }
}

/// The generated file gives no values: each of its lines is blank, a comment or
/// the header of a section, and no section is headed twice.
pub proof fn the_generated_file_gives_no_values()
    ensures
        document::only_headers(config::documented_file(config::schema_rows().len() as int)),
{
    lemma_file(config::schema_rows().len() as int);
    lemma_headings();
}

/// The generated file with every setting uncommented still reads as the
/// defaults, without a complaint; the line break at its end may be there or not.
pub proof fn uncommenting_the_generated_file_changes_nothing(text: Seq<char>)
    requires
        ({
            let file = config::documented_file(config::schema_rows().len() as int);
            let lines = uncommented(chars::pieces(file, '\n'));
            chars::pieces(text, '\n') == lines || chars::pieces(text, '\n') == lines.drop_last()
        }),
    ensures
        exists|sections: Seq<(Seq<char>, Option<Seq<(Seq<char>, Held)>>)>| #[trigger]
            document::spells(chars::pieces(text, '\n'), sections) && config::settled(sections)
                == config::default_values() && config::complaints_of(sections) == Seq::<
                (Seq<char>, Trouble),
            >::empty(),
{
    let n = config::schema_rows().len() as int;
    let sections = shown_sections(n);
    lemma_file(n);
    lemma_shown_sections(n);
    lemma_blank_end(chars::pieces(config::documented_file(n), '\n'), sections);
    assert forall|j: int| 0 <= j < n implies #[trigger] config::settled(sections)[j]
        == config::default_values()[j] by {
        lemma_shown_is_held(j);
        lemma_shown_default_is_accepted(j);
    }
    assert(config::settled(sections) =~= config::default_values());
    lemma_nothing_to_object_to(n);
    lemma_no_strays(sections, sections.len() as int);
    assert(config::complaints_of(sections) =~= Seq::<(Seq<char>, Trouble)>::empty());
    assert(document::spells(chars::pieces(text, '\n'), sections));
}

/// The generated file shows what every setting is for, and the setting at its
/// default.
pub proof fn the_generated_file_shows_every_setting(i: int, n: int)
    requires
        0 <= i < n <= config::schema_rows().len(),
    ensures
        chars::occurs(config::documented_file(n), config::purpose_lines(config::schema_rows()[i])),
        chars::occurs(config::documented_file(n), config::default_line(config::schema_rows()[i])),
    decreases n,
{
    let row = config::schema_rows()[n - 1];
    let before = config::documented_file(n - 1);
    let current = config::section_before(n - 1);
    let (head, purpose) = (config::header_lines(current, row), config::purpose_lines(row));
    let (range, default) = (config::range_line(row), config::default_line(row));
    let file = config::documented_file(n);
    if i == n - 1 {
        lemma_occurs(before + head, purpose, range + default);
        assert(file =~= before + head + purpose + (range + default));
        lemma_occurs(before + head + purpose + range, default, Seq::empty());
        assert(file =~= before + head + purpose + range + default + Seq::empty());
    } else {
        the_generated_file_shows_every_setting(i, n - 1);
        let more = config::documented_row(current, row);
        lemma_still_occurs(before, more, config::purpose_lines(config::schema_rows()[i]));
        lemma_still_occurs(before, more, config::default_line(config::schema_rows()[i]));
    }
}

proof fn lemma_occurs(before: Seq<char>, s: Seq<char>, after: Seq<char>)
    ensures
        chars::occurs(before + s + after, s),
{
    let all = before + s + after;
    assert(all.skip(before.len() as int).take(s.len() as int) =~= s);
}

proof fn lemma_still_occurs(s: Seq<char>, more: Seq<char>, needle: Seq<char>)
    requires
        chars::occurs(s, needle),
    ensures
        chars::occurs(s + more, needle),
{
    let at = choose|at: int| 0 <= at <= s.len() && chars::starts(#[trigger] s.skip(at), needle);
    assert((s + more).skip(at).take(needle.len() as int) =~= s.skip(at).take(needle.len() as int));
}

} // verus!
