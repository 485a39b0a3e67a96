//! The configuration file as a syntax tree.
//!
//! `toml_edit` keeps comments, blank lines and ordering; this module says what
//! a document holds, over plain values, and hands the calls through.

use vstd::arithmetic::power::pow;
use vstd::prelude::*;

use toml_edit::{Table, Value};

use crate::chars;
use crate::number::{Decimal, Number};

verus! {

#[verifier::external_type_specification]
#[verifier::external_body]
pub struct ExDocumentMut(toml_edit::DocumentMut);

#[verifier::external_type_specification]
#[verifier::external_body]
pub struct ExDecor(toml_edit::Decor);

/// A value in a document, in the shapes that settings have.
#[derive(Debug)]
pub enum Leaf {
    Integer(i64),
    /// The bits of a number, and the number written out.
    Float(u64, String),
    Boolean(bool),
    Text(String),
    /// A date, an array or a table.
    Unsupported,
}

/// A value in a document, as a mathematical one.
pub enum Held {
    Integer(i64),
    Float(Number, Seq<char>),
    Boolean(bool),
    Text(Seq<char>),
    Unsupported,
}

impl View for Leaf {
    type V = Held;

    open spec fn view(&self) -> Held {
        match *self {
            Leaf::Integer(v) => Held::Integer(v),
            Leaf::Float(bits, written) => Held::Float(Number { bits }, written@),
            Leaf::Boolean(v) => Held::Boolean(v),
            Leaf::Text(v) => Held::Text(v@),
            Leaf::Unsupported => Held::Unsupported,
        }
    }
}

/// The entries of a table, in the order they stand.
pub type Entries = Vec<(String, Leaf)>;

pub open spec fn entry_views(entries: Seq<(String, Leaf)>) -> Seq<(Seq<char>, Held)> {
    Seq::new(entries.len(), |i: int| (entries[i].0@, entries[i].1@))
}

pub open spec fn section_views(sections: Seq<(String, Option<Entries>)>) -> Seq<
    (Seq<char>, Option<Seq<(Seq<char>, Held)>>),
> {
    Seq::new(
        sections.len(),
        |i: int|
            (
                sections[i].0@,
                match sections[i].1 {
                    Some(entries) => Some(entry_views(entries@)),
                    None => None,
                },
            ),
    )
}

/// What the top level of a document holds, in the order it stands: a name, and
/// under it the entries of a table, or nothing where it is no table.
pub uninterp spec fn sections_of(doc: toml_edit::DocumentMut) -> Seq<
    (Seq<char>, Option<Seq<(Seq<char>, Held)>>),
>;

/// The white space and comments that stand round each value of each table, by
/// the names of the table and the value.
pub uninterp spec fn decor_of(doc: toml_edit::DocumentMut) -> Map<
    (Seq<char>, Seq<char>),
    toml_edit::Decor,
>;

/// The white space and comments, as far as they are given, that stand before and
/// after each key of the top level and of the tables there, before and after
/// those tables' headers, and at the end of the document. A key is found under
/// its table's name, or none at the top level, and its own (`Key::leaf_decor`),
/// a header under its table's name alone (`Table::decor`), and the end under no
/// name (`DocumentMut::trailing`).
pub uninterp spec fn notes_of(doc: toml_edit::DocumentMut) -> Map<
    (Option<Seq<char>>, Option<Seq<char>>),
    (Option<Seq<char>>, Option<Seq<char>>),
>;

/// What `DocumentMut::from_str` reads in a text, or how it complains.
pub uninterp spec fn parsed(text: Seq<char>) -> Result<
    Seq<(Seq<char>, Option<Seq<(Seq<char>, Held)>>)>,
    Seq<char>,
>;

/// The number that `Value::from_str` reads in a text, if it reads
/// one.
pub uninterp spec fn number_in(text: Seq<char>) -> Option<(Number, Seq<char>)>;

/// Where a name first stands in a list, from `from` on.
pub open spec fn place_from<A>(list: Seq<(Seq<char>, A)>, name: Seq<char>, from: int) -> Option<
    int,
>
    decreases list.len() - from,
{
    if from < 0 || from >= list.len() {
        None
    } else if list[from].0 == name {
        Some(from)
    } else {
        place_from(list, name, from + 1)
    }
}

/// Where a name stands in a list.
pub open spec fn place<A>(list: Seq<(Seq<char>, A)>, name: Seq<char>) -> Option<int> {
    place_from(list, name, 0)
}

pub proof fn lemma_place_from<A>(list: Seq<(Seq<char>, A)>, name: Seq<char>, from: int)
    requires
        0 <= from <= list.len(),
    ensures
        match place_from(list, name, from) {
            Some(i) => from <= i < list.len() && list[i].0 == name && forall|k: int|
                from <= k < i ==> (#[trigger] list[k]).0 != name,
            None => forall|k: int| from <= k < list.len() ==> (#[trigger] list[k]).0 != name,
        },
    decreases list.len() - from,
{
    if from < list.len() && list[from].0 != name {
        lemma_place_from(list, name, from + 1);
    }
}

/// No name stands in a list twice.
pub open spec fn distinct<A>(list: Seq<(Seq<char>, A)>) -> bool {
    forall|i: int, j: int| 0 <= i < j < list.len() ==> (#[trigger] list[i]).0 != (
    #[trigger] list[j]).0
}

/// Whether every table of a document holds each name once, and the document
/// each table.
pub open spec fn well_formed(
    sections: Seq<(Seq<char>, Option<Seq<(Seq<char>, Held)>>)>,
) -> bool {
    distinct(sections) && forall|i: int|
        0 <= i < sections.len() && (#[trigger] sections[i]).1 is Some ==> distinct(
            sections[i].1->Some_0,
        )
}

/// What a document holds under a table and a name.
pub open spec fn held_at(
    sections: Seq<(Seq<char>, Option<Seq<(Seq<char>, Held)>>)>,
    table: Seq<char>,
    leaf: Seq<char>,
) -> Option<Held> {
    match place(sections, table) {
        Some(i) => match sections[i].1 {
            Some(entries) => match place(entries, leaf) {
                Some(k) => Some(entries[k].1),
                None => None,
            },
            None => None,
        },
        None => None,
    }
}

/// Whether `after` is `before` with one entry put under a name: in place of the
/// one that stood there, and else anywhere among the others, whose order stays.
pub open spec fn entry_put(
    before: Seq<(Seq<char>, Held)>,
    after: Seq<(Seq<char>, Held)>,
    leaf: Seq<char>,
    held: Held,
) -> bool {
    match place(before, leaf) {
        Some(k) => after == before.update(k, (leaf, held)),
        None => exists|k: int|
            0 <= k <= before.len() && after == #[trigger] before.insert(k, (leaf, held)),
    }
}

/// Whether `after` is `before` with one value put into a table.
pub open spec fn value_put(
    before: Seq<(Seq<char>, Option<Seq<(Seq<char>, Held)>>)>,
    after: Seq<(Seq<char>, Option<Seq<(Seq<char>, Held)>>)>,
    table: Seq<char>,
    leaf: Seq<char>,
    held: Held,
) -> bool {
    let i = place(before, table)->Some_0;
    &&& after.len() == before.len()
    &&& after[i].0 == table
    &&& after[i].1 is Some
    &&& entry_put(before[i].1->Some_0, after[i].1->Some_0, leaf, held)
    &&& forall|k: int| 0 <= k < before.len() && k != i ==> #[trigger] after[k] == before[k]
}

/// Whether a comment can hold a character.
pub open spec fn in_comment(c: char) -> bool {
    c == '\t' || ' ' <= c <= '~' || 0x80 <= c as u32
}

/// Whether a name can hold a character without quotes.
pub open spec fn in_name(c: char) -> bool {
    'a' <= c <= 'z' || 'A' <= c <= 'Z' || '0' <= c <= '9' || c == '-' || c == '_'
}

pub open spec fn is_comment(line: Seq<char>) -> bool {
    line.len() > 0 && line[0] == '#' && forall|i: int|
        0 <= i < line.len() ==> in_comment(#[trigger] line[i])
}

/// Whether a line is the header of a table, its name without quotes or dots.
pub open spec fn is_header(line: Seq<char>) -> bool {
    line.len() > 2 && line[0] == '[' && line.last() == ']' && forall|i: int|
        0 < i < line.len() - 1 ==> in_name(#[trigger] line[i])
}

/// Whether every line is blank, a comment or the header of a table.
pub open spec fn without_values(lines: Seq<Seq<char>>) -> bool {
    forall|i: int|
        0 <= i < lines.len() ==> (#[trigger] lines[i]).len() == 0 || is_comment(lines[i])
            || is_header(lines[i])
}

/// The names in the headers among some lines.
pub open spec fn headed(lines: Seq<Seq<char>>) -> Seq<Seq<char>>
    decreases lines.len(),
{
    if lines.len() == 0 {
        Seq::empty()
    } else {
        let before = headed(lines.drop_last());
        let line = lines.last();
        if is_header(line) {
            before.push(line.subrange(1, line.len() - 1))
        } else {
            before
        }
    }
}

/// Whether a text heads tables and gives no values: nothing but blank lines,
/// comments, and headers of which no two are the same.
pub open spec fn only_headers(text: Seq<char>) -> bool {
    without_values(chars::pieces(text, '\n')) && headed(chars::pieces(text, '\n')).no_duplicates()
}

/// Tables that hold nothing.
pub open spec fn empty_tables(names: Seq<Seq<char>>) -> Seq<
    (Seq<char>, Option<Seq<(Seq<char>, Held)>>),
> {
    Seq::new(names.len(), |i: int| (names[i], Some(Seq::empty())))
}

/// Whether a literal is written as digits with a dot among them, and without a
/// zero in front that could be left out.
pub open spec fn is_decimal(literal: Seq<char>, dot: int) -> bool {
    &&& 0 < dot < literal.len() - 1
    &&& literal[dot] == '.'
    &&& literal[0] == '0' ==> dot == 1
    &&& forall|i: int|
        0 <= i < literal.len() && i != dot ==> '0' <= #[trigger] literal[i] <= '9'
}

/// Whether a literal stands for a value: one of the two truths, a whole number
/// without a sign, the number nearest to a decimal fraction, or a text in quotes
/// that needs no escapes. How a number is written once it has been read is left
/// open.
pub open spec fn stands_for(literal: Seq<char>, held: Held) -> bool {
    match held {
        Held::Boolean(b) => literal == if b {
            "true"@
        } else {
            "false"@
        },
        Held::Integer(v) => 0 <= v && literal == chars::decimal(v as nat),
        Held::Float(number, _) => exists|dot: int| #[trigger]
            is_decimal(literal, dot) && number.nearest(
                chars::numeral(literal.remove(dot)),
                pow(10, (literal.len() - dot - 1) as nat),
            ),
        Held::Text(text) => literal == "\""@ + text + "\""@ && forall|i: int|
            0 <= i < text.len() ==> in_comment(#[trigger] text[i]) && text[i] != '"' && text[i]
                != '\\',
        Held::Unsupported => false,
    }
}

/// Whether a line gives a name this value: the name without quotes or dots, an
/// equals sign between two spaces, and a literal.
pub open spec fn gives(line: Seq<char>, name: Seq<char>, held: Held) -> bool {
    &&& name.len() > 0
    &&& forall|i: int| 0 <= i < name.len() ==> in_name(#[trigger] name[i])
    &&& chars::starts(line, name + " = "@)
    &&& stands_for(line.skip(name.len() as int + 3), held)
}

/// What a document holds once its last table holds one value more.
pub open spec fn extended(
    sections: Seq<(Seq<char>, Option<Seq<(Seq<char>, Held)>>)>,
    name: Seq<char>,
    held: Held,
) -> Seq<(Seq<char>, Option<Seq<(Seq<char>, Held)>>)> {
    let last = sections.last();
    sections.drop_last().push((last.0, Some(last.1->Some_0.push((name, held)))))
}

/// Whether a line takes a document from what it held before to what it holds
/// with it: a blank line or a comment adds nothing, a header a table, and a line
/// that gives a value adds that to the table headed last; no name twice.
pub open spec fn adds(
    line: Seq<char>,
    before: Seq<(Seq<char>, Option<Seq<(Seq<char>, Held)>>)>,
    after: Seq<(Seq<char>, Option<Seq<(Seq<char>, Held)>>)>,
) -> bool {
    ||| (line.len() == 0 || is_comment(line)) && after == before
    ||| {
        let name = line.subrange(1, line.len() - 1);
        &&& is_header(line)
        &&& place(before, name) is None
        &&& after == before.push((name, Some(Seq::empty())))
    }
    ||| exists|name: Seq<char>, held: Held| #[trigger]
        gives(line, name, held) && before.len() > 0 && before.last().1 is Some && place(
            before.last().1->Some_0,
            name,
        ) is None && after == extended(before, name, held)
}

/// Whether lines of these few kinds, one after the other, make a document that
/// holds this.
pub open spec fn spells(
    lines: Seq<Seq<char>>,
    sections: Seq<(Seq<char>, Option<Seq<(Seq<char>, Held)>>)>,
) -> bool
    decreases lines.len(),
{
    if lines.len() == 0 {
        sections.len() == 0
    } else {
        exists|before: Seq<(Seq<char>, Option<Seq<(Seq<char>, Held)>>)>|
            spells(lines.drop_last(), before) && #[trigger] adds(lines.last(), before, sections)
    }
}

/// Lines that head tables and give no values make a document of those tables,
/// each of them empty.
pub proof fn headers_make_empty_tables(lines: Seq<Seq<char>>)
    requires
        without_values(lines),
        headed(lines).no_duplicates(),
    ensures
        spells(lines, empty_tables(headed(lines))),
    decreases lines.len(),
{
    if lines.len() > 0 {
        let front = lines.drop_last();
        let line = lines.last();
        let (names, all) = (headed(front), headed(lines));
        assert(without_values(front)) by {
            assert forall|i: int| 0 <= i < front.len() implies (#[trigger] front[i]).len() == 0
                || is_comment(front[i]) || is_header(front[i]) by {
                assert(front[i] == lines[i]);
            }
        }
        assert(names.no_duplicates()) by {
            assert forall|i: int, j: int|
                0 <= i < names.len() && 0 <= j < names.len() && i != j implies names[i]
                != names[j] by {
                assert(names[i] == all[i] && names[j] == all[j]);
            }
        }
        headers_make_empty_tables(front);
        let before = empty_tables(names);
        if is_header(line) {
            let name = line.subrange(1, line.len() - 1);
            lemma_place_from(before, name, 0);
            if place(before, name) is Some {
                let k = place(before, name)->Some_0;
                assert(all[k] == names[k] && all.last() == name);
            }
            assert(empty_tables(all) =~= before.push((name, Some(Seq::empty()))));
        } else {
            assert(lines[lines.len() - 1] == line);
        }
        assert(adds(line, before, empty_tables(all)));
    }
}

/// Whether two values are the same, but for how a number is written.
pub open spec fn same_held(a: Held, b: Held) -> bool {
    match (a, b) {
        (Held::Float(a, _), Held::Float(b, _)) => a == b,
        _ => a == b,
    }
}

/// Whether two tables hold the same, but for how numbers are written.
pub open spec fn same_entries(a: Seq<(Seq<char>, Held)>, b: Seq<(Seq<char>, Held)>) -> bool {
    &&& a.len() == b.len()
    &&& forall|i: int|
        0 <= i < a.len() ==> (#[trigger] a[i]).0 == b[i].0 && same_held(a[i].1, b[i].1)
}

/// Whether two documents hold the same, but for how numbers are written.
pub open spec fn alike(
    a: Seq<(Seq<char>, Option<Seq<(Seq<char>, Held)>>)>,
    b: Seq<(Seq<char>, Option<Seq<(Seq<char>, Held)>>)>,
) -> bool {
    &&& a.len() == b.len()
    &&& forall|k: int|
        0 <= k < a.len() ==> (#[trigger] a[k]).0 == b[k].0 && match (a[k].1, b[k].1) {
            (Some(a), Some(b)) => same_entries(a, b),
            (a, b) => a is None && b is None,
        }
}

proof fn lemma_same_place<A>(
    a: Seq<(Seq<char>, A)>,
    b: Seq<(Seq<char>, A)>,
    name: Seq<char>,
    from: int,
)
    requires
        a.len() == b.len(),
        forall|i: int| 0 <= i < a.len() ==> (#[trigger] a[i]).0 == b[i].0,
        0 <= from,
    ensures
        place_from(a, name, from) == place_from(b, name, from),
    decreases a.len() - from,
{
    if from < a.len() {
        assert(a[from].0 == b[from].0);
        lemma_same_place(a, b, name, from + 1);
    }
}

/// Documents that are alike hold the same under every name, but for how a number
/// is written.
pub proof fn alike_documents_hold_the_same(
    a: Seq<(Seq<char>, Option<Seq<(Seq<char>, Held)>>)>,
    b: Seq<(Seq<char>, Option<Seq<(Seq<char>, Held)>>)>,
    table: Seq<char>,
    leaf: Seq<char>,
)
    requires
        alike(a, b),
    ensures
        match (held_at(a, table, leaf), held_at(b, table, leaf)) {
            (Some(a), Some(b)) => same_held(a, b),
            (a, b) => a is None && b is None,
        },
{
    lemma_same_place(a, b, table, 0);
    lemma_place_from(a, table, 0);
    if place(a, table) is Some {
        let k = place(a, table)->Some_0;
        assert(a[k].0 == b[k].0);
        if a[k].1 is Some {
            let (ours, theirs) = (a[k].1->Some_0, b[k].1->Some_0);
            lemma_same_place(ours, theirs, leaf, 0);
            lemma_place_from(ours, leaf, 0);
            if place(ours, leaf) is Some {
                let i = place(ours, leaf)->Some_0;
                assert(ours[i].0 == theirs[i].0);
            }
        }
    }
}

/// A document that is like one of empty tables is that one.
pub proof fn empty_tables_are_like_no_others(
    a: Seq<(Seq<char>, Option<Seq<(Seq<char>, Held)>>)>,
    names: Seq<Seq<char>>,
)
    requires
        alike(a, empty_tables(names)),
    ensures
        a == empty_tables(names),
{
    let b = empty_tables(names);
    assert forall|k: int| 0 <= k < a.len() implies #[trigger] a[k] == b[k] by {
        assert(a[k].0 == b[k].0);
        assert(a[k].1->Some_0 =~= b[k].1->Some_0);
    }
    assert(a =~= b);
}

/// Calls `DocumentMut::from_str`, and for its error `TomlError::to_string`.
///
/// Claimed of it: whether a text is a document, what the document then holds,
/// and how the error reads, are functions of the text; and a text that is made
/// of blank lines, comments, headers of tables and plain values, none of them
/// named twice, is a document of those tables and values. A number with a
/// fraction is read by `f64::from_str`, which gives the nearest one; how that is
/// then written, and the rest of the grammar, is left to the name.
#[verifier::external_body]
fn parse_document(text: &str) -> (doc: Result<toml_edit::DocumentMut, String>)
    ensures
        match doc {
            Ok(doc) => parsed(text@) == Ok::<_, Seq<char>>(sections_of(doc)),
            Err(message) => parsed(text@) == Err::<
                Seq<(Seq<char>, Option<Seq<(Seq<char>, Held)>>)>,
                _,
            >(message@),
        },
        forall|sections: Seq<(Seq<char>, Option<Seq<(Seq<char>, Held)>>)>| #[trigger]
            spells(chars::pieces(text@, '\n'), sections) ==> doc is Ok && alike(
                sections_of(doc->Ok_0),
                sections,
            ),
{
    text.parse::<toml_edit::DocumentMut>().map_err(|e| e.to_string())
}

/// Hands out what `DocumentMut::iter` and, for each table, `Table::iter` walk
/// over: names and values, in the order they stand.
///
/// Claimed of it: all that the document holds, in order, and no name twice on
/// one level, since tables are maps.
#[verifier::external_body]
fn read_sections(doc: &toml_edit::DocumentMut) -> (sections: Vec<(String, Option<Entries>)>)
    ensures
        section_views(sections@) == sections_of(*doc),
        well_formed(section_views(sections@)),
{
    let entries = |t: &Table| t.iter().map(|(k, v)| (k.to_string(), match v.as_value() {
        Some(Value::Integer(v)) => Leaf::Integer(*v.value()),
        Some(Value::Float(v)) => Leaf::Float(v.value().to_bits(), v.value().to_string()),
        Some(Value::Boolean(v)) => Leaf::Boolean(*v.value()),
        Some(Value::String(v)) => Leaf::Text(v.value().clone()),
        _ => Leaf::Unsupported,
    })).collect();
    doc.iter().map(|(k, v)| (k.to_string(), v.as_table().map(entries))).collect()
}

/// Calls `Table::insert` with a new table that prints its header
/// (`Table::set_implicit`).
///
/// Claimed of it: the document then holds an empty table of that name, and
/// everything else as before, in the same order, with the same decor, and with
/// the same white space and comments round keys and headers.
#[verifier::external_body]
fn insert_table(doc: &mut toml_edit::DocumentMut, name: &str)
    requires
        place(sections_of(*old(doc)), name@) is None,
    ensures
        exists|k: int|
            0 <= k <= sections_of(*old(doc)).len() && sections_of(*final(doc))
                == #[trigger] sections_of(*old(doc)).insert(
                k,
                (name@, Some(Seq::<(Seq<char>, Held)>::empty())),
            ),
        decor_of(*final(doc)) == decor_of(*old(doc)),
        notes_of(*old(doc)).submap_of(notes_of(*final(doc))),
{
    let mut table = Table::new();
    table.set_implicit(false);
    doc.insert(name, toml_edit::Item::Table(table));
}

/// Reads a value's decor (`Value::decor`), where the name stands for a value.
///
/// Claimed of it: the decor that the document has there, if it has one.
#[verifier::external_body]
fn value_decor(doc: &toml_edit::DocumentMut, table: &str, leaf: &str) -> (decor: Option<
    toml_edit::Decor,
>)
    ensures
        decor is Some <==> decor_of(*doc).contains_key((table@, leaf@)),
        decor is Some ==> decor->Some_0 == decor_of(*doc)[(table@, leaf@)],
{
    Some(doc.get(table)?.as_table()?.get(leaf)?.as_value()?.decor().clone())
}

/// Sets a value's decor (`Value::decor_mut`).
///
/// Claimed of it: the value there has this decor, and nothing else changes.
#[verifier::external_body]
fn set_decor(doc: &mut toml_edit::DocumentMut, table: &str, leaf: &str, decor: toml_edit::Decor)
    requires
        decor_of(*old(doc)).contains_key((table@, leaf@)),
    ensures
        decor_of(*final(doc)) == decor_of(*old(doc)).insert((table@, leaf@), decor),
        sections_of(*final(doc)) == sections_of(*old(doc)),
        notes_of(*final(doc)) == notes_of(*old(doc)),
{
    *doc[table][leaf].as_value_mut().expect("a value stands here").decor_mut() = decor;
}

/// A value to put into a document. A number is given as TOML writes it.
#[derive(Debug)]
pub enum Plain {
    Integer(i64),
    Number(String),
    Boolean(bool),
    Text(String),
}

/// What a document holds once a value has been put there.
pub open spec fn as_held(plain: Plain) -> Held {
    match plain {
        Plain::Integer(v) => Held::Integer(v),
        Plain::Number(text) => Held::Float(
            number_in(text@)->Some_0.0,
            number_in(text@)->Some_0.1,
        ),
        Plain::Boolean(v) => Held::Boolean(v),
        Plain::Text(v) => Held::Text(v@),
    }
}

/// Calls `Value::from_str` and, on what it reads, `Value::as_float`.
///
/// Claimed of it: whether a number is read, and which, is a function of the
/// text.
#[verifier::external_body]
pub(crate) fn read_number(text: &str) -> (number: Option<Decimal>)
    ensures
        match number {
            Some(number) => number_in(text@) == Some((number.number, number.written@)),
            None => number_in(text@) is None,
        },
{
    let value: Value = text.parse().ok()?;
    value.as_float().map(|v| Decimal {
        number: Number { bits: v.to_bits() },
        written: v.to_string(),
    })
}

/// Assigns a value through `IndexMut` of a table, the value made by
/// `Value::from` or, for a number, `Value::from_str`.
///
/// Claimed of it: the table then holds that value under that name, in place of
/// the one that stood there or else as a further one, everything else stays as
/// it was, in the same order, and neither another value's decor nor what stands
/// round a key or a header changes.
#[verifier::external_body]
fn put_value(doc: &mut toml_edit::DocumentMut, table: &str, leaf: &str, plain: Plain)
    requires
        place(sections_of(*old(doc)), table@) is Some,
        sections_of(*old(doc))[place(sections_of(*old(doc)), table@)->Some_0].1 is Some,
        plain matches Plain::Number(text) ==> number_in(text@) is Some,
    ensures
        value_put(
            sections_of(*old(doc)),
            sections_of(*final(doc)),
            table@,
            leaf@,
            as_held(plain),
        ),
        decor_of(*final(doc)).contains_key((table@, leaf@)),
        decor_of(*final(doc)).remove((table@, leaf@)) == decor_of(*old(doc)).remove(
            (table@, leaf@),
        ),
        notes_of(*old(doc)).submap_of(notes_of(*final(doc))),
{
    let value = match plain {
        Plain::Integer(v) => Value::from(v),
        Plain::Number(text) => text.parse().expect("a number is written here"),
        Plain::Boolean(v) => Value::from(v),
        Plain::Text(v) => Value::from(v),
    };
    doc[table][leaf] = toml_edit::Item::Value(value);
}

/// A parsed configuration file.
#[derive(Debug)]
pub struct Document {
    doc: toml_edit::DocumentMut,
}

impl Document {
    /// What the document holds.
    pub closed spec fn sections(&self) -> Seq<(Seq<char>, Option<Seq<(Seq<char>, Held)>>)> {
        sections_of(self.doc)
    }

    /// The white space and comments round its values.
    pub closed spec fn decor(&self) -> Map<(Seq<char>, Seq<char>), toml_edit::Decor> {
        decor_of(self.doc)
    }

    /// The white space and comments round its keys and headers and at its end.
    pub closed spec fn notes(&self) -> Map<
        (Option<Seq<char>>, Option<Seq<char>>),
        (Option<Seq<char>>, Option<Seq<char>>),
    > {
        notes_of(self.doc)
    }

    /// Parse a document; where the text is none, the error says why.
    pub fn parse(text: &str) -> (doc: Result<Document, String>)
        ensures
            match doc {
                Ok(doc) => parsed(text@) == Ok::<_, Seq<char>>(doc.sections()),
                Err(message) => parsed(text@) == Err::<
                    Seq<(Seq<char>, Option<Seq<(Seq<char>, Held)>>)>,
                    _,
                >(message@),
            },
            forall|sections: Seq<(Seq<char>, Option<Seq<(Seq<char>, Held)>>)>| #[trigger]
                spells(chars::pieces(text@, '\n'), sections) ==> doc is Ok && alike(
                    doc->Ok_0.sections(),
                    sections,
                ),
    {
        match parse_document(text) {
            Ok(doc) => Ok(Document { doc }),
            Err(message) => Err(message),
        }
    }

    /// The syntax tree itself, to be written out.
    pub fn tree(&self) -> (doc: &toml_edit::DocumentMut)
        ensures
            sections_of(*doc) == self.sections(),
            decor_of(*doc) == self.decor(),
            notes_of(*doc) == self.notes(),
    {
        &self.doc
    }

    /// Everything the document holds, in the order it stands.
    pub fn read(&self) -> (sections: Vec<(String, Option<Entries>)>)
        ensures
            section_views(sections@) == self.sections(),
            well_formed(self.sections()),
    {
        read_sections(&self.doc)
    }

    /// Add an empty table.
    pub fn add_table(&mut self, name: &str)
        requires
            place(old(self).sections(), name@) is None,
        ensures
            exists|k: int|
                0 <= k <= old(self).sections().len() && final(self).sections()
                    == #[trigger] old(self).sections().insert(
                    k,
                    (name@, Some(Seq::<(Seq<char>, Held)>::empty())),
                ),
            final(self).decor() == old(self).decor(),
            old(self).notes().submap_of(final(self).notes()),
    {
        insert_table(&mut self.doc, name);
    }

    /// Put a value into a table, leaving everything else exactly as it was: what
    /// stood round an old value stands round the new one.
    pub fn put(&mut self, table: &str, leaf: &str, plain: Plain)
        requires
            place(old(self).sections(), table@) is Some,
            old(self).sections()[place(old(self).sections(), table@)->Some_0].1 is Some,
            plain matches Plain::Number(text) ==> number_in(text@) is Some,
        ensures
            value_put(
                old(self).sections(),
                final(self).sections(),
                table@,
                leaf@,
                as_held(plain),
            ),
            forall|at: (Seq<char>, Seq<char>)|
                old(self).decor().contains_key(at) ==> {
                    &&& #[trigger] final(self).decor().contains_key(at)
                    &&& final(self).decor()[at] == old(self).decor()[at]
                },
            old(self).notes().submap_of(final(self).notes()),
    {
        let ghost before = self.decor();
        let decor: Option<toml_edit::Decor> = value_decor(&self.doc, table, leaf);
        put_value(&mut self.doc, table, leaf, plain);
        let ghost between = self.decor();
        match decor {
            Some(decor) => set_decor(&mut self.doc, table, leaf, decor),
            None => {},
        }
        proof {
            let edited = (table@, leaf@);
            assert forall|at: (Seq<char>, Seq<char>)| before.contains_key(at) implies {
                &&& #[trigger] self.decor().contains_key(at)
                &&& self.decor()[at] == before[at]
            } by {
                if at != edited {
                    assert(before.remove(edited).contains_key(at));
                    assert(between.remove(edited).contains_key(at));
                    assert(between.remove(edited)[at] == before.remove(edited)[at]);
                }
            }
        }
    }
}

proof fn lemma_place_is<A>(list: Seq<(Seq<char>, A)>, name: Seq<char>, i: int)
    requires
        distinct(list),
        0 <= i < list.len(),
        list[i].0 == name,
    ensures
        place(list, name) == Some(i),
{
    lemma_place_from(list, name, 0);
}

/// What is put into a document is what is read there, and every other value is
/// read as before.
pub proof fn what_is_put_is_read_back(
    before: Seq<(Seq<char>, Option<Seq<(Seq<char>, Held)>>)>,
    after: Seq<(Seq<char>, Option<Seq<(Seq<char>, Held)>>)>,
    table: Seq<char>,
    leaf: Seq<char>,
    held: Held,
    other_table: Seq<char>,
    other_leaf: Seq<char>,
)
    requires
        distinct(before),
        place(before, table) is Some,
        before[place(before, table)->Some_0].1 is Some,
        distinct(before[place(before, table)->Some_0].1->Some_0),
        value_put(before, after, table, leaf, held),
    ensures
        held_at(after, table, leaf) == Some(held),
        (other_table, other_leaf) != (table, leaf) ==> held_at(after, other_table, other_leaf)
            == held_at(before, other_table, other_leaf),
{
    lemma_place_from(before, table, 0);
    let i = place(before, table)->Some_0;
    let (old, new) = (before[i].1->Some_0, after[i].1->Some_0);
    assert(distinct(after)) by {
        assert forall|a: int, b: int| 0 <= a < b < after.len() implies (#[trigger] after[a]).0 != (
        #[trigger] after[b]).0 by {
            assert(before[a].0 != before[b].0);
        }
    }
    lemma_place_is(after, table, i);
    lemma_place_from(old, leaf, 0);
    let k = match place(old, leaf) {
        Some(k) => k,
        None => choose|k: int|
            0 <= k <= old.len() && new == #[trigger] old.insert(k, (leaf, held)),
    };
    assert(new[k] == (leaf, held));
    assert(distinct(new)) by {
        assert forall|a: int, b: int| 0 <= a < b < new.len() implies (#[trigger] new[a]).0 != (
        #[trigger] new[b]).0 by {
            if place(old, leaf) is Some {
                assert(old[a].0 != old[b].0);
            } else {
                let c = if a < k {
                    a
                } else {
                    a - 1
                };
                let d = if b < k {
                    b
                } else {
                    b - 1
                };
                if a != k {
                    assert(new[a] == old[c]);
                }
                if b != k {
                    assert(new[b] == old[d]);
                }
                if a != k && b != k {
                    assert(old[c].0 != old[d].0);
                }
            }
        }
    }
    lemma_place_is(new, leaf, k);
    if (other_table, other_leaf) != (table, leaf) {
        lemma_place_from(before, other_table, 0);
        lemma_place_from(after, other_table, 0);
        if other_table == table {
            lemma_place_from(old, other_leaf, 0);
            lemma_place_from(new, other_leaf, 0);
            match place(old, other_leaf) {
                Some(j) => {
                    let to = if place(old, leaf) is Some || j < k {
                        j
                    } else {
                        j + 1
                    };
                    assert(new[to] == old[j]);
                    lemma_place_is(new, other_leaf, to);
                },
                None => {
                    match place(new, other_leaf) {
                        Some(j) => {
                            assert(j != k);
                            let from = if place(old, leaf) is Some || j < k {
                                j
                            } else {
                                j - 1
                            };
                            assert(new[j] == old[from]);
                        },
                        None => {},
                    }
                },
            }
        } else {
            match place(before, other_table) {
                Some(j) => {
                    assert(after[j] == before[j]);
                    lemma_place_is(after, other_table, j);
                },
                None => {
                    match place(after, other_table) {
                        Some(j) => {
                            assert(after[j].0 == before[j].0);
                        },
                        None => {},
                    }
                },
            }
        }
    }
}

/// Whether `after` is `before` with one value set: in the table of that name,
/// which is added where there is none.
pub open spec fn value_set(
    before: Seq<(Seq<char>, Option<Seq<(Seq<char>, Held)>>)>,
    after: Seq<(Seq<char>, Option<Seq<(Seq<char>, Held)>>)>,
    table: Seq<char>,
    leaf: Seq<char>,
    held: Held,
) -> bool {
    match place(before, table) {
        Some(_) => value_put(before, after, table, leaf, held),
        None => exists|k: int|
            0 <= k <= before.len() && value_put(
                #[trigger] before.insert(k, (table, Some(Seq::<(Seq<char>, Held)>::empty()))),
                after,
                table,
                leaf,
                held,
            ),
    }
}

proof fn lemma_new_table(
    before: Seq<(Seq<char>, Option<Seq<(Seq<char>, Held)>>)>,
    k: int,
    name: Seq<char>,
    table: Seq<char>,
    leaf: Seq<char>,
)
    requires
        distinct(before),
        place(before, name) is None,
        0 <= k <= before.len(),
    ensures
        ({
            let after = before.insert(k, (name, Some(Seq::<(Seq<char>, Held)>::empty())));
            &&& distinct(after)
            &&& place(after, name) == Some(k)
            &&& held_at(after, table, leaf) == held_at(before, table, leaf)
        }),
{
    let after = before.insert(k, (name, Some(Seq::<(Seq<char>, Held)>::empty())));
    lemma_place_from(before, name, 0);
    assert(distinct(after)) by {
        assert forall|a: int, b: int| 0 <= a < b < after.len() implies (#[trigger] after[a]).0 != (
        #[trigger] after[b]).0 by {
            let c = if a < k {
                a
            } else {
                a - 1
            };
            let d = if b < k {
                b
            } else {
                b - 1
            };
            if a != k {
                assert(after[a] == before[c]);
            }
            if b != k {
                assert(after[b] == before[d]);
            }
            if a != k && b != k {
                assert(before[c].0 != before[d].0);
            }
        }
    }
    lemma_place_is(after, name, k);
    lemma_place_from(before, table, 0);
    lemma_place_from(after, table, 0);
    if table != name {
        match place(before, table) {
            Some(j) => {
                let to = if j < k {
                    j
                } else {
                    j + 1
                };
                assert(after[to] == before[j]);
                lemma_place_is(after, table, to);
            },
            None => {
                match place(after, table) {
                    Some(j) => {
                        let from = if j < k {
                            j
                        } else {
                            j - 1
                        };
                        assert(j != k);
                        assert(after[j] == before[from]);
                    },
                    None => {},
                }
            },
        }
    }
}

/// What is set in a document is what is read there, and every other value is
/// read as before.
pub proof fn what_is_set_is_read_back(
    before: Seq<(Seq<char>, Option<Seq<(Seq<char>, Held)>>)>,
    after: Seq<(Seq<char>, Option<Seq<(Seq<char>, Held)>>)>,
    table: Seq<char>,
    leaf: Seq<char>,
    held: Held,
    other_table: Seq<char>,
    other_leaf: Seq<char>,
)
    requires
        well_formed(before),
        place(before, table) matches Some(i) ==> before[i].1 is Some,
        value_set(before, after, table, leaf, held),
    ensures
        held_at(after, table, leaf) == Some(held),
        (other_table, other_leaf) != (table, leaf) ==> held_at(after, other_table, other_leaf)
            == held_at(before, other_table, other_leaf),
{
    lemma_place_from(before, table, 0);
    match place(before, table) {
        Some(i) => {
            assert(distinct(before[i].1->Some_0));
            what_is_put_is_read_back(before, after, table, leaf, held, other_table, other_leaf);
        },
        None => {
            let k = choose|k: int|
                0 <= k <= before.len() && value_put(
                    #[trigger] before.insert(k, (table, Some(Seq::<(Seq<char>, Held)>::empty()))),
                    after,
                    table,
                    leaf,
                    held,
                );
            let between = before.insert(k, (table, Some(Seq::<(Seq<char>, Held)>::empty())));
            lemma_new_table(before, k, table, other_table, other_leaf);
            what_is_put_is_read_back(between, after, table, leaf, held, other_table, other_leaf);
        },
    }
}

} // verus!
