//! Text, as sequences of characters.
//!
//! Splitting, trimming, searching and comparing over lists of characters, and
//! the way from a string to such a list and back.

use vstd::prelude::*;

verus! {

broadcast use vstd::string::group_string_axioms;

/// `String::push` appends one character.
pub assume_specification[ String::push ](s: &mut String, c: char)
    ensures
        final(s)@ == old(s)@.push(c),
;

/// The characters of a string.
pub fn chars_of(s: &str) -> (chars: Vec<char>)
    ensures
        chars@ == s@,
{
    let mut chars: Vec<char> = Vec::new();
    for c in it: s.chars()
        invariant
            it.seq() == s@,
            chars@ == s@.take(it.index()),
    {
        assert(s@.take(it.index()).push(c) =~= s@.take(it.index() + 1));
        chars.push(c);
    }
    assert(chars@ =~= s@);
    chars
}

/// The string made of these characters.
pub fn text_of(chars: &[char]) -> (s: String)
    ensures
        s@ == chars@,
{
    let mut s: String = String::new();
    for i in 0..chars.len()
        invariant
            s@ == chars@.take(i as int),
    {
        s.push(chars[i]);
        assert(chars@.take(i as int).push(chars@[i as int]) =~= chars@.take(i + 1));
    }
    assert(chars@.take(chars@.len() as int) =~= chars@);
    s
}

/// Appends the characters of `more`.
pub fn extend(chars: &mut Vec<char>, more: &[char])
    ensures
        final(chars)@ == old(chars)@ + more@,
{
    for i in 0..more.len()
        invariant
            chars@ == old(chars)@ + more@.take(i as int),
    {
        chars.push(more[i]);
        assert(more@.take(i as int).push(more@[i as int]) =~= more@.take(i + 1));
        assert(chars@ =~= old(chars)@ + more@.take(i + 1));
    }
    assert(more@.take(more@.len() as int) =~= more@);
}

/// Appends the characters of a string.
pub fn append(chars: &mut Vec<char>, more: &str)
    ensures
        final(chars)@ == old(chars)@ + more@,
{
    let more: Vec<char> = chars_of(more);
    extend(chars, &more);
}

/// The characters from `from` up to `to`, without it.
pub fn part(chars: &[char], from: usize, to: usize) -> (piece: Vec<char>)
    requires
        from <= to <= chars@.len(),
    ensures
        piece@ == chars@.subrange(from as int, to as int),
{
    let mut piece: Vec<char> = Vec::new();
    for i in from..to
        invariant
            from <= to <= chars@.len(),
            piece@ == chars@.subrange(from as int, i as int),
    {
        piece.push(chars[i]);
        assert(chars@.subrange(from as int, i as int).push(chars@[i as int])
            =~= chars@.subrange(from as int, i + 1));
    }
    piece
}

/// Whether two lists hold the same characters.
pub fn same(a: &[char], b: &[char]) -> (eq: bool)
    ensures
        eq == (a@ == b@),
{
    if a.len() != b.len() {
        return false;
    }
    for i in 0..a.len()
        invariant
            a@.len() == b@.len(),
            forall|k: int| 0 <= k < i ==> a@[k] == b@[k],
    {
        if a[i] != b[i] {
            return false;
        }
    }
    assert(a@ =~= b@);
    true
}

/// Whether a list spells a string.
pub fn spells(chars: &[char], s: &str) -> (eq: bool)
    ensures
        eq == (chars@ == s@),
{
    let other: Vec<char> = chars_of(s);
    same(chars, &other)
}

/// Whether two strings are the same.
pub fn equal(a: &str, b: &str) -> (eq: bool)
    ensures
        eq == (a@ == b@),
{
    let a: Vec<char> = chars_of(a);
    spells(&a, b)
}

/// The Unicode property White_Space.
pub open spec fn white_space(c: char) -> bool {
    let n = c as u32;
    ||| 0x09 <= n <= 0x0d
    ||| n == 0x20
    ||| n == 0x85
    ||| n == 0xa0
    ||| n == 0x1680
    ||| 0x2000 <= n <= 0x200a
    ||| n == 0x2028
    ||| n == 0x2029
    ||| n == 0x202f
    ||| n == 0x205f
    ||| n == 0x3000
}

pub fn is_white_space(c: char) -> (b: bool)
    ensures
        b == white_space(c),
{
    let n: u32 = c as u32;
    (0x09 <= n && n <= 0x0d) || n == 0x20 || n == 0x85 || n == 0xa0 || n == 0x1680 || (0x2000 <= n
        && n <= 0x200a) || n == 0x2028 || n == 0x2029 || n == 0x202f || n == 0x205f || n
        == 0x3000
}

pub open spec fn trimmed_front(s: Seq<char>) -> Seq<char>
    decreases s.len(),
{
    if s.len() > 0 && white_space(s[0]) {
        trimmed_front(s.skip(1))
    } else {
        s
    }
}

pub open spec fn trimmed_back(s: Seq<char>) -> Seq<char>
    decreases s.len(),
{
    if s.len() > 0 && white_space(s.last()) {
        trimmed_back(s.drop_last())
    } else {
        s
    }
}

/// A text without the white space at both of its ends.
pub open spec fn trimmed(s: Seq<char>) -> Seq<char> {
    trimmed_back(trimmed_front(s))
}

/// A text without the white space at both of its ends.
pub fn trim(chars: &[char]) -> (piece: Vec<char>)
    ensures
        piece@ == trimmed(chars@),
{
    let mut from: usize = 0;
    assert(chars@.skip(0) =~= chars@);
    while from < chars.len() && is_white_space(chars[from])
        invariant
            from <= chars@.len(),
            trimmed_front(chars@.skip(from as int)) == trimmed_front(chars@),
        decreases chars@.len() - from,
    {
        assert(chars@.skip(from as int).skip(1) =~= chars@.skip(from + 1));
        from = from + 1;
    }
    let ghost front = chars@.skip(from as int);
    assert(front == trimmed_front(chars@));
    let mut to: usize = chars.len();
    assert(chars@.subrange(from as int, to as int) =~= front);
    while from < to && is_white_space(chars[to - 1])
        invariant
            from <= to <= chars@.len(),
            trimmed_back(chars@.subrange(from as int, to as int)) == trimmed_back(front),
        decreases to,
    {
        assert(chars@.subrange(from as int, to as int).drop_last() =~= chars@.subrange(
            from as int,
            to - 1,
        ));
        to = to - 1;
    }
    part(chars, from, to)
}

/// Where `c` first occurs at or after `from`; the length where it does not.
pub open spec fn next_index(s: Seq<char>, c: char, from: int) -> int
    decreases s.len() - from,
{
    if from >= s.len() || s[from] == c {
        from
    } else {
        next_index(s, c, from + 1)
    }
}

pub proof fn lemma_next_index(s: Seq<char>, c: char, from: int)
    requires
        0 <= from <= s.len(),
    ensures
        from <= next_index(s, c, from) <= s.len(),
        next_index(s, c, from) < s.len() ==> s[next_index(s, c, from)] == c,
        forall|k: int| from <= k < next_index(s, c, from) ==> s[k] != c,
    decreases s.len() - from,
{
    if from < s.len() && s[from] != c {
        lemma_next_index(s, c, from + 1);
    }
}

/// Where `c` first occurs at or after `from`; the length where it does not.
pub fn find(chars: &[char], c: char, from: usize) -> (at: usize)
    requires
        from <= chars@.len(),
    ensures
        at == next_index(chars@, c, from as int),
        from <= at <= chars@.len(),
        at < chars@.len() ==> chars@[at as int] == c,
{
    let mut at: usize = from;
    while at < chars.len() && chars[at] != c
        invariant
            from <= at <= chars@.len(),
            next_index(chars@, c, at as int) == next_index(chars@, c, from as int),
        decreases chars@.len() - at,
    {
        at = at + 1;
    }
    at
}

/// The pieces of a text between the occurrences of `c`, from `from` on.
pub open spec fn pieces_from(s: Seq<char>, c: char, from: int) -> Seq<Seq<char>>
    decreases s.len() - from,
{
    let at = next_index(s, c, from);
    if at < from || at >= s.len() {
        seq![s.subrange(from, s.len() as int)]
    } else {
        seq![s.subrange(from, at)] + pieces_from(s, c, at + 1)
    }
}

/// The pieces of a text between the occurrences of `c`: one more than `c`
/// occurs, and as many of them empty as stand next to each other.
pub open spec fn pieces(s: Seq<char>, c: char) -> Seq<Seq<char>> {
    pieces_from(s, c, 0)
}

proof fn lemma_later_pieces(front: Seq<char>, s: Seq<char>, c: char, from: int)
    requires
        0 <= from <= s.len(),
    ensures
        pieces_from(front + s, c, front.len() + from) == pieces_from(s, c, from),
    decreases s.len() - from,
{
    let all = front + s;
    let n = front.len() as int;
    lemma_next_index(s, c, from);
    lemma_next_index(all, c, n + from);
    let at = next_index(s, c, from);
    let there = next_index(all, c, n + from);
    if there < n + at {
        assert(all[there] == s[there - n]);
    }
    if n + at < there {
        assert(all[n + at] == s[at]);
    }
    assert(all.subrange(n + from, there) =~= s.subrange(from, at));
    if at < s.len() {
        lemma_later_pieces(front, s, c, at + 1);
    }
}

proof fn lemma_earlier_pieces(a: Seq<char>, b: Seq<char>, c: char, from: int)
    requires
        0 <= from <= a.len(),
    ensures
        pieces_from(a + seq![c] + b, c, from) == pieces_from(a, c, from) + pieces(b, c),
    decreases a.len() - from,
{
    let all = a + seq![c] + b;
    lemma_next_index(a, c, from);
    lemma_next_index(all, c, from);
    let at = next_index(a, c, from);
    let there = next_index(all, c, from);
    if there < at {
        assert(all[there] == a[there]);
    }
    if at < there {
        if at < a.len() {
            assert(all[at] == a[at]);
        } else {
            assert(all[at] == c);
        }
    }
    assert(all.subrange(from, at) =~= a.subrange(from, at));
    if at < a.len() {
        lemma_earlier_pieces(a, b, c, at + 1);
        assert(pieces_from(all, c, from) =~= pieces_from(a, c, from) + pieces(b, c));
    } else {
        lemma_later_pieces(a + seq![c], b, c, 0);
        assert(pieces_from(all, c, from) =~= pieces_from(a, c, from) + pieces(b, c));
    }
}

/// The pieces of two texts with `c` between them are those of the first and
/// those of the second.
pub proof fn lemma_pieces_of_both(a: Seq<char>, b: Seq<char>, c: char)
    ensures
        pieces(a + seq![c] + b, c) == pieces(a, c) + pieces(b, c),
{
    lemma_earlier_pieces(a, b, c, 0);
}

/// A text without `c` is one piece.
pub proof fn lemma_one_piece(s: Seq<char>, c: char)
    requires
        !s.contains(c),
    ensures
        pieces(s, c) == seq![s],
{
    lemma_next_index(s, c, 0);
    assert(s.subrange(0, s.len() as int) =~= s);
}

/// What is trimmed off the end of a text is white space.
pub proof fn lemma_trimmed_back(s: Seq<char>)
    ensures
        trimmed_back(s).len() <= s.len(),
        trimmed_back(s) == s.take(trimmed_back(s).len() as int),
        forall|k: int|
            0 <= k < s.len() && !white_space(#[trigger] s[k]) ==> k < trimmed_back(s).len(),
    decreases s.len(),
{
    if s.len() > 0 && white_space(s.last()) {
        let front = s.drop_last();
        lemma_trimmed_back(front);
        assert(trimmed_back(s) =~= s.take(trimmed_back(s).len() as int));
        assert forall|k: int| 0 <= k < s.len() && !white_space(#[trigger] s[k]) implies k
            < trimmed_back(s).len() by {
            assert(front[k] == s[k]);
        }
    } else {
        assert(s.take(s.len() as int) =~= s);
    }
}

/// Nothing is left of white space.
pub proof fn lemma_trimmed_blank(s: Seq<char>)
    requires
        forall|k: int| 0 <= k < s.len() ==> white_space(#[trigger] s[k]),
    ensures
        trimmed(s) == Seq::<char>::empty(),
    decreases s.len(),
{
    if s.len() > 0 {
        lemma_trimmed_blank(s.skip(1));
    } else {
        assert(s =~= Seq::<char>::empty());
    }
}

/// The texts that lists of characters hold.
pub open spec fn texts(lists: Seq<Vec<char>>) -> Seq<Seq<char>> {
    Seq::new(lists.len(), |i: int| lists[i]@)
}

/// The texts that strings hold.
pub open spec fn views(strings: Seq<String>) -> Seq<Seq<char>> {
    Seq::new(strings.len(), |i: int| strings[i]@)
}

pub fn split(chars: &[char], c: char) -> (list: Vec<Vec<char>>)
    ensures
        texts(list@) == pieces(chars@, c),
{
    let mut list: Vec<Vec<char>> = Vec::new();
    let mut from: usize = 0;
    assert(texts(list@) + pieces_from(chars@, c, 0) =~= pieces(chars@, c));
    loop
        invariant
            from <= chars@.len(),
            texts(list@) + pieces_from(chars@, c, from as int) == pieces(chars@, c),
        decreases chars@.len() - from,
    {
        let ghost before = texts(list@);
        let at: usize = find(chars, c, from);
        let piece: Vec<char> = part(chars, from, at);
        let ghost held = piece@;
        list.push(piece);
        assert(texts(list@) =~= before.push(held));
        if at >= chars.len() {
            assert(held =~= chars@.subrange(from as int, chars@.len() as int));
            assert(before + seq![held] =~= before.push(held));
            return list;
        }
        assert(before + (seq![held] + pieces_from(chars@, c, at + 1)) =~= texts(list@)
            + pieces_from(chars@, c, at + 1));
        from = at + 1;
    }
}

/// Whether `s` starts with `prefix`.
pub open spec fn starts(s: Seq<char>, prefix: Seq<char>) -> bool {
    prefix.len() <= s.len() && s.take(prefix.len() as int) == prefix
}

/// Whether `s` ends with `suffix`.
pub open spec fn ends(s: Seq<char>, suffix: Seq<char>) -> bool {
    suffix.len() <= s.len() && s.skip(s.len() - suffix.len()) == suffix
}

/// Whether `needle` occurs in `s`.
pub open spec fn occurs(s: Seq<char>, needle: Seq<char>) -> bool {
    exists|at: int| 0 <= at <= s.len() && starts(#[trigger] s.skip(at), needle)
}

fn matches_at(chars: &[char], needle: &[char], at: usize) -> (b: bool)
    requires
        at <= chars@.len(),
    ensures
        b == starts(chars@.skip(at as int), needle@),
{
    if needle.len() > chars.len() - at {
        return false;
    }
    let len: usize = chars.len();
    for i in 0..needle.len()
        invariant
            len == chars@.len(),
            at + needle@.len() <= len,
            forall|k: int| 0 <= k < i ==> chars@[at + k] == needle@[k],
    {
        if chars[at + i] != needle[i] {
            assert(chars@.skip(at as int).take(needle@.len() as int)[i as int]
                != needle@[i as int]);
            return false;
        }
    }
    assert(chars@.skip(at as int).take(needle@.len() as int) =~= needle@);
    true
}

pub fn starts_with(chars: &[char], prefix: &[char]) -> (b: bool)
    ensures
        b == starts(chars@, prefix@),
{
    assert(chars@.skip(0) =~= chars@);
    matches_at(chars, prefix, 0)
}

pub fn ends_with(chars: &[char], suffix: &[char]) -> (b: bool)
    ensures
        b == ends(chars@, suffix@),
{
    if suffix.len() > chars.len() {
        return false;
    }
    let at: usize = chars.len() - suffix.len();
    let ghost tail = chars@.skip(at as int);
    assert(tail.take(suffix@.len() as int) =~= tail);
    matches_at(chars, suffix, at)
}

pub fn contains(chars: &[char], needle: &[char]) -> (b: bool)
    ensures
        b == occurs(chars@, needle@),
{
    for at in 0..chars.len()
        invariant
            forall|k: int| 0 <= k < at ==> !starts(#[trigger] chars@.skip(k), needle@),
    {
        if matches_at(chars, needle, at) {
            assert(starts(chars@.skip(at as int), needle@));
            return true;
        }
    }
    let at: usize = chars.len();
    let b: bool = matches_at(chars, needle, at);
    assert(b == starts(chars@.skip(at as int), needle@));
    b
}

/// A letter of the alphabet `A` to `Z`, made small; any other character as it
/// is.
pub open spec fn lower(c: char) -> char {
    if 'A' <= c && c <= 'Z' {
        ((c as u32) + 32) as char
    } else {
        c
    }
}

pub open spec fn lowered(s: Seq<char>) -> Seq<char> {
    s.map_values(|c: char| lower(c))
}

fn lower_char(c: char) -> (l: char)
    ensures
        l == lower(c),
{
    if 'A' <= c && c <= 'Z' {
        ((c as u8) + 32) as char
    } else {
        c
    }
}

/// The text with the letters `A` to `Z` made small.
pub fn ascii_lowercase(chars: &[char]) -> (small: Vec<char>)
    ensures
        small@ == lowered(chars@),
{
    let mut small: Vec<char> = Vec::new();
    for i in 0..chars.len()
        invariant
            small@.len() == i,
            forall|k: int| 0 <= k < i ==> small@[k] == lower(chars@[k]),
    {
        small.push(lower_char(chars[i]));
    }
    assert(small@ =~= lowered(chars@));
    small
}

/// The order of dictionaries, by code point: `a` comes before `b`.
pub open spec fn before(a: Seq<char>, b: Seq<char>) -> bool
    decreases a.len(),
{
    if b.len() == 0 {
        false
    } else if a.len() == 0 {
        true
    } else if a[0] != b[0] {
        a[0] < b[0]
    } else {
        before(a.skip(1), b.skip(1))
    }
}

/// Whether `a` comes before `b`.
pub fn comes_before(a: &[char], b: &[char]) -> (less: bool)
    ensures
        less == before(a@, b@),
{
    let mut i: usize = 0;
    assert(a@.skip(0) =~= a@);
    assert(b@.skip(0) =~= b@);
    loop
        invariant
            i <= a@.len(),
            i <= b@.len(),
            before(a@.skip(i as int), b@.skip(i as int)) == before(a@, b@),
        decreases a@.len() - i,
    {
        if i >= b.len() {
            return false;
        }
        if i >= a.len() {
            return true;
        }
        if a[i] != b[i] {
            return a[i] < b[i];
        }
        assert(a@.skip(i as int).skip(1) =~= a@.skip(i + 1));
        assert(b@.skip(i as int).skip(1) =~= b@.skip(i + 1));
        i = i + 1;
    }
}

/// No text comes before itself, and of two texts that differ exactly one comes
/// before the other.
pub proof fn before_is_total(a: Seq<char>, b: Seq<char>)
    ensures
        !(before(a, b) && before(b, a)),
        a == b ==> !before(a, b),
        a != b ==> before(a, b) || before(b, a),
    decreases a.len(),
{
    if a.len() > 0 && b.len() > 0 && a[0] == b[0] {
        before_is_total(a.skip(1), b.skip(1));
        if a.skip(1) == b.skip(1) {
            assert(a =~= seq![a[0]] + a.skip(1));
            assert(b =~= seq![b[0]] + b.skip(1));
        }
    } else if a.len() == 0 && b.len() == 0 {
        assert(a =~= b);
    }
}

/// What comes before something that comes before a third comes before it too.
pub proof fn before_is_transitive(a: Seq<char>, b: Seq<char>, c: Seq<char>)
    requires
        before(a, b),
        before(b, c),
    ensures
        before(a, c),
    decreases a.len(),
{
    if a.len() > 0 && a[0] == b[0] && b[0] == c[0] {
        before_is_transitive(a.skip(1), b.skip(1), c.skip(1));
    }
}

pub open spec fn digit(n: int) -> char {
    (48 + n % 10) as char
}

/// A number, written in decimal.
pub open spec fn decimal(n: nat) -> Seq<char>
    decreases n,
{
    if n < 10 {
        seq![digit(n as int)]
    } else {
        decimal(n / 10).push(digit(n as int))
    }
}

/// The number that a row of digits is written for.
pub open spec fn numeral(digits: Seq<char>) -> int
    decreases digits.len(),
{
    if digits.len() == 0 {
        0
    } else {
        numeral(digits.drop_last()) * 10 + (digits.last() as int - '0' as int)
    }
}

/// A whole number, written in decimal with a sign where it is negative.
pub open spec fn signed_decimal(n: int) -> Seq<char> {
    if n < 0 {
        seq!['-'] + decimal((-n) as nat)
    } else {
        decimal(n as nat)
    }
}

/// Appends a number, written in decimal.
pub fn append_decimal(chars: &mut Vec<char>, n: u64)
    ensures
        final(chars)@ == old(chars)@ + decimal(n as nat),
    decreases n,
{
    if n >= 10 {
        append_decimal(chars, n / 10);
    }
    chars.push((48 + (n % 10) as u8) as char);
    assert(chars@ =~= old(chars)@ + decimal(n as nat));
}

/// Appends a whole number, written in decimal.
pub fn append_signed(chars: &mut Vec<char>, n: i64)
    ensures
        final(chars)@ == old(chars)@ + signed_decimal(n as int),
{
    if n < 0 {
        chars.push('-');
        let size: u64 = if n == i64::MIN {
            0x8000_0000_0000_0000
        } else {
            (-n) as u64
        };
        append_decimal(chars, size);
        assert(chars@ =~= old(chars)@ + signed_decimal(n as int));
    } else {
        append_decimal(chars, n as u64);
    }
}

/// The index of the first text in a list that equals `text`.
pub fn position_of(list: &[String], text: &[char]) -> (found: Option<usize>)
    ensures
        found is Some <==> views(list@).contains(text@),
        found is Some ==> {
            &&& found->Some_0 < list@.len()
            &&& list@[found->Some_0 as int]@ == text@
            &&& forall|k: int| 0 <= k < found->Some_0 ==> (#[trigger] list@[k])@ != text@
        },
{
    for i in 0..list.len()
        invariant
            forall|k: int| 0 <= k < i ==> (#[trigger] list@[k])@ != text@,
    {
        if spells(text, list[i].as_str()) {
            assert(views(list@)[i as int] == text@);
            return Some(i);
        }
    }
    None
}

proof fn lemma_trimmed_front(s: Seq<char>)
    ensures
        trimmed_front(s).len() <= s.len(),
        trimmed_front(s) == s.skip(s.len() - trimmed_front(s).len()),
        trimmed_front(s).len() > 0 ==> !white_space(trimmed_front(s)[0]),
        forall|k: int|
            0 <= k < s.len() - trimmed_front(s).len() ==> white_space(#[trigger] s[k]),
    decreases s.len(),
{
    if s.len() > 0 && white_space(s[0]) {
        let rest = s.skip(1);
        lemma_trimmed_front(rest);
        assert(trimmed_front(s) =~= s.skip(s.len() - trimmed_front(s).len()));
        assert forall|k: int| 0 <= k < s.len() - trimmed_front(s).len() implies white_space(
            #[trigger] s[k],
        ) by {
            if k > 0 {
                assert(rest[k - 1] == s[k]);
            }
        }
    } else {
        assert(s.skip(0) =~= s);
    }
}

proof fn lemma_last_kept(s: Seq<char>)
    ensures
        trimmed_back(s).len() > 0 ==> !white_space(trimmed_back(s).last()),
    decreases s.len(),
{
    if s.len() > 0 && white_space(s.last()) {
        lemma_last_kept(s.drop_last());
    }
}

/// Trimming takes the white space off both ends of a text and nothing else: text
/// that neither starts nor ends in white space is what is left of it, whatever
/// white space stands around it.
pub proof fn trimming_leaves_the_text(front: Seq<char>, text: Seq<char>, back: Seq<char>)
    requires
        forall|k: int| 0 <= k < front.len() ==> white_space(#[trigger] front[k]),
        forall|k: int| 0 <= k < back.len() ==> white_space(#[trigger] back[k]),
        text.len() > 0,
        !white_space(text[0]),
        !white_space(text.last()),
    ensures
        trimmed(front + text + back) == text,
{
    let all = front + text + back;
    lemma_trimmed_front(all);
    let kept = trimmed_front(all);
    let from = all.len() - kept.len();
    assert(all[front.len() as int] == text[0]);
    assert(from <= front.len());
    if from < front.len() {
        assert(kept[0] == front[from]);
    }
    assert(kept =~= text + back);
    lemma_trimmed_back(kept);
    lemma_last_kept(kept);
    let n = trimmed_back(kept).len() as int;
    assert(kept[text.len() - 1] == text.last());
    assert(text.len() <= n);
    if n > text.len() {
        assert(trimmed_back(kept).last() == back[n - 1 - text.len()]);
    }
    assert(trimmed_back(kept) =~= text);
}

/// A number that is written in decimal says that number: a row of digits, of
/// which the first is no zero but where it is the only one.
pub proof fn a_written_number_is_that_number(n: nat)
    ensures
        numeral(decimal(n)) == n,
        decimal(n).len() > 0,
        forall|i: int| 0 <= i < decimal(n).len() ==> '0' <= #[trigger] decimal(n)[i] <= '9',
        n > 0 ==> decimal(n)[0] != '0',
    decreases n,
{
    assert(numeral(Seq::<char>::empty()) == 0);
    if n >= 10 {
        a_written_number_is_that_number(n / 10);
        let (rest, all) = (decimal(n / 10), decimal(n));
        assert(all.drop_last() =~= rest);
        assert forall|i: int| 0 <= i < all.len() implies '0' <= #[trigger] all[i] <= '9' by {
            if i < rest.len() {
                assert(all[i] == rest[i]);
            }
        }
        assert(all[0] == rest[0]);
    } else {
        assert(decimal(n).drop_last() =~= Seq::<char>::empty());
    }
}

} // verus!
