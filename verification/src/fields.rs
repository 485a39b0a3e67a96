//! Lines of `key=value`, the common part of desktop files and os-release files.

use vstd::prelude::*;

use crate::chars;

verus! {

/// One `key=value` of a file.
#[derive(Debug)]
pub struct Field {
    pub key: Vec<char>,
    pub value: Vec<char>,
}

impl View for Field {
    type V = (Seq<char>, Seq<char>);

    open spec fn view(&self) -> (Seq<char>, Seq<char>) {
        (self.key@, self.value@)
    }
}

pub open spec fn pairs(fields: Seq<Field>) -> Seq<(Seq<char>, Seq<char>)> {
    Seq::new(fields.len(), |i: int| fields[i]@)
}

/// The value of the first pair with this key.
pub open spec fn first_value(pairs: Seq<(Seq<char>, Seq<char>)>, key: Seq<char>) -> Option<
    Seq<char>,
>
    decreases pairs.len(),
{
    if pairs.len() == 0 {
        None
    } else if pairs[0].0 == key {
        Some(pairs[0].1)
    } else {
        first_value(pairs.skip(1), key)
    }
}

/// The value of the first field with this key.
pub fn lookup<'a>(fields: &'a [Field], key: &str) -> (value: Option<&'a Vec<char>>)
    ensures
        match value {
            Some(v) => first_value(pairs(fields@), key@) == Some(v@),
            None => first_value(pairs(fields@), key@) is None,
        },
{
    let wanted: Vec<char> = chars::chars_of(key);
    let ghost all = pairs(fields@);
    assert(all.skip(0) =~= all);
    for i in 0..fields.len()
        invariant
            all == pairs(fields@),
            wanted@ == key@,
            first_value(all.skip(i as int), key@) == first_value(all, key@),
    {
        assert(all.skip(i as int)[0] == fields@[i as int]@);
        if chars::same(&fields[i].key, &wanted) {
            return Some(&fields[i].value);
        }
        assert(all.skip(i as int).skip(1) =~= all.skip(i + 1));
    }
    None
}

/// A line that is neither empty nor a comment, once trimmed.
pub open spec fn is_content(line: Seq<char>) -> bool {
    line.len() > 0 && line[0] != '#'
}

/// Whether a line has a `=` in it.
pub open spec fn has_value(line: Seq<char>) -> bool {
    chars::next_index(line, '=', 0) < line.len()
}

/// What stands before the first `=` of a line and what stands after it, both
/// trimmed.
pub open spec fn parted(line: Seq<char>) -> (Seq<char>, Seq<char>) {
    let at = chars::next_index(line, '=', 0);
    (
        chars::trimmed(line.subrange(0, at)),
        chars::trimmed(line.subrange(at + 1, line.len() as int)),
    )
}

/// Part a line at its first `=`, if it has one.
pub fn part(line: &[char]) -> (field: Option<Field>)
    ensures
        field is Some <==> has_value(line@),
        field is Some ==> field->Some_0@ == parted(line@),
{
    let at: usize = chars::find(line, '=', 0);
    if at >= line.len() {
        return None;
    }
    let key: Vec<char> = chars::part(line, 0, at);
    let value: Vec<char> = chars::part(line, at + 1, line.len());
    Some(Field { key: chars::trim(&key), value: chars::trim(&value) })
}

/// The lines of a text, each trimmed.
pub open spec fn lines(text: Seq<char>) -> Seq<Seq<char>> {
    let raw = chars::pieces(text, '\n');
    Seq::new(raw.len(), |i: int| chars::trimmed(raw[i]))
}

/// The lines of two texts with a line break between them are those of the first
/// and those of the second.
pub proof fn lemma_lines_of_both(a: Seq<char>, b: Seq<char>)
    ensures
        lines(a + seq!['\n'] + b) == lines(a) + lines(b),
{
    chars::lemma_pieces_of_both(a, b, '\n');
    assert(lines(a + seq!['\n'] + b) =~= lines(a) + lines(b));
}

/// A text without a line break is one line.
pub proof fn lemma_one_line(s: Seq<char>)
    requires
        !s.contains('\n'),
    ensures
        lines(s) == seq![chars::trimmed(s)],
{
    chars::lemma_one_piece(s, '\n');
    assert(lines(s) =~= seq![chars::trimmed(s)]);
}

pub fn trimmed_lines(text: &str) -> (list: Vec<Vec<char>>)
    ensures
        chars::texts(list@) == lines(text@),
{
    let all: Vec<char> = chars::chars_of(text);
    let raw: Vec<Vec<char>> = chars::split(&all, '\n');
    let ghost pieces = chars::pieces(text@, '\n');
    let mut list: Vec<Vec<char>> = Vec::new();
    for i in 0..raw.len()
        invariant
            chars::texts(raw@) == pieces,
            list@.len() == i,
            forall|k: int|
                0 <= k < i ==> (#[trigger] list@[k])@ == chars::trimmed(pieces[k]),
    {
        assert(raw@[i as int]@ == chars::texts(raw@)[i as int]);
        list.push(chars::trim(&raw[i]));
    }
    assert(raw@.len() == pieces.len()) by {
        assert(chars::texts(raw@).len() == raw@.len());
    }
    assert(chars::texts(list@) =~= lines(text@));
    list
}

/// A line parts at its first `=`: what stands before it is the key and all that
/// stands after it is the value, further `=` in it included.
pub proof fn a_line_parts_at_its_first_equals_sign(key: Seq<char>, value: Seq<char>)
    requires
        !key.contains('='),
    ensures
        has_value(key + seq!['='] + value),
        parted(key + seq!['='] + value) == (chars::trimmed(key), chars::trimmed(value)),
        !has_value(key),
{
    let line = key + seq!['='] + value;
    chars::lemma_next_index(key, '=', 0);
    chars::lemma_next_index(line, '=', 0);
    let at = chars::next_index(line, '=', 0);
    assert(line[key.len() as int] == '=');
    if at < key.len() {
        assert(line[at] == key[at]);
        assert(key.contains(key[at]));
    }
    assert(line.subrange(0, at) =~= key);
    assert(line.subrange(at + 1, line.len() as int) =~= value);
}

/// The first pair with a key has the value that is found.
pub proof fn the_first_pair_with_a_key_counts(
    pairs: Seq<(Seq<char>, Seq<char>)>,
    key: Seq<char>,
    i: int,
)
    requires
        0 <= i <= pairs.len(),
        forall|k: int| 0 <= k < i ==> (#[trigger] pairs[k]).0 != key,
        i < pairs.len() ==> pairs[i].0 == key,
    ensures
        first_value(pairs, key) == if i < pairs.len() {
            Some(pairs[i].1)
        } else {
            None
        },
    decreases i,
{
    if i > 0 {
        let rest = pairs.skip(1);
        assert(pairs[0].0 != key);
        assert forall|k: int| 0 <= k < i - 1 implies (#[trigger] rest[k]).0 != key by {
            assert(rest[k] == pairs[k + 1]);
        }
        the_first_pair_with_a_key_counts(rest, key, i - 1);
    }
}

} // verus!
