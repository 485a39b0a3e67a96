//! What system this is, according to the system.
//!
//! Read from `os-release(5)` rather than compiled in: `/etc/os-release` wins,
//! and `/usr/lib/os-release` is the vendor fallback.

use vstd::prelude::*;

use crate::chars;
use crate::fields;
use crate::fields::Field;

verus! {

/// The two paths os-release(5) defines, in the order it defines them.
pub const PATHS: [&'static str; 2] = ["/etc/os-release", "/usr/lib/os-release"];

/// What HadalOS's own `os-release` sets `ID` to.
pub const HADALOS_ID: &'static str = "hadalos";

#[derive(Debug, Clone, PartialEq, Eq)]
pub struct Identity {
    /// `PRETTY_NAME`, or `NAME`, or the id.
    pub pretty_name: String,
    pub id: String,
    /// `ID_LIKE`, present on a derived distribution.
    pub id_like: Option<String>,
    pub version: Option<String>,
    pub home_url: Option<String>,
    pub bug_url: Option<String>,
    /// Which of the two paths this actually came from.
    pub source: String,
}

/// An identity, as a mathematical value.
pub struct Claims {
    pub pretty_name: Seq<char>,
    pub id: Seq<char>,
    pub id_like: Option<Seq<char>>,
    pub version: Option<Seq<char>>,
    pub home_url: Option<Seq<char>>,
    pub bug_url: Option<Seq<char>>,
    pub source: Seq<char>,
}

pub open spec fn text(s: Option<String>) -> Option<Seq<char>> {
    match s {
        Some(s) => Some(s@),
        None => None,
    }
}

impl View for Identity {
    type V = Claims;

    open spec fn view(&self) -> Claims {
        Claims {
            pretty_name: self.pretty_name@,
            id: self.id@,
            id_like: text(self.id_like),
            version: text(self.version),
            home_url: text(self.home_url),
            bug_url: text(self.bug_url),
            source: self.source@,
        }
    }
}

/// A value without one layer of shell quoting: only a matching pair goes, and
/// escapes stay.
pub open spec fn unquoted(value: Seq<char>) -> Seq<char> {
    if value.len() >= 2 && (value[0] == '"' || value[0] == '\'') && value.last() == value[0] {
        value.subrange(1, value.len() - 1)
    } else {
        value
    }
}

/// The pairs in the first `n` lines of a file.
pub open spec fn release_pairs(lines: Seq<Seq<char>>, n: int) -> Seq<(Seq<char>, Seq<char>)>
    decreases n,
{
    if n <= 0 {
        Seq::empty()
    } else {
        let before = release_pairs(lines, n - 1);
        let line = lines[n - 1];
        if fields::is_content(line) && fields::has_value(line) {
            let (key, value) = fields::parted(line);
            before.push((key, unquoted(value)))
        } else {
            before
        }
    }
}

/// The first value of a key in a file; a value that is empty is absent.
pub open spec fn release_value(file: Seq<char>, key: Seq<char>) -> Option<Seq<char>> {
    let lines = fields::lines(file);
    match fields::first_value(release_pairs(lines, lines.len() as int), key) {
        Some(value) => if value.len() > 0 {
            Some(value)
        } else {
            None
        },
        None => None,
    }
}

pub open spec fn or_else(a: Option<Seq<char>>, b: Option<Seq<char>>) -> Option<Seq<char>> {
    if a is Some {
        a
    } else {
        b
    }
}

/// What a file claims of the system: nothing, without an `ID`.
pub open spec fn claims(file: Seq<char>) -> Option<Claims> {
    match release_value(file, "ID"@) {
        None => None,
        Some(id) => Some(
            Claims {
                pretty_name: match or_else(
                    release_value(file, "PRETTY_NAME"@),
                    release_value(file, "NAME"@),
                ) {
                    Some(name) => name,
                    None => id,
                },
                id,
                id_like: release_value(file, "ID_LIKE"@),
                version: or_else(
                    release_value(file, "VERSION"@),
                    release_value(file, "VERSION_ID"@),
                ),
                home_url: release_value(file, "HOME_URL"@),
                bug_url: release_value(file, "BUG_REPORT_URL"@),
                source: Seq::empty(),
            },
        ),
    }
}

fn unquote_chars(value: Vec<char>) -> (bare: Vec<char>)
    ensures
        bare@ == unquoted(value@),
{
    let n: usize = value.len();
    if n >= 2 && (value[0] == '"' || value[0] == '\'') && value[n - 1] == value[0] {
        chars::part(&value, 1, n - 1)
    } else {
        value
    }
}

/// Strip one layer of shell quoting.
pub fn unquote(value: &str) -> (bare: String)
    ensures
        bare@ == unquoted(value@),
{
    let bare: Vec<char> = unquote_chars(chars::chars_of(value));
    chars::text_of(&bare)
}

fn get(list: &[Field], key: &str) -> (value: Option<String>)
    ensures
        text(value) == (match fields::first_value(fields::pairs(list@), key@) {
            Some(v) => if v.len() > 0 {
                Some(v)
            } else {
                None
            },
            None => None,
        }),
{
    match fields::lookup(list, key) {
        Some(value) => {
            if value.len() > 0 {
                Some(chars::text_of(value))
            } else {
                None
            }
        },
        None => None,
    }
}

impl Identity {
    /// Read the system's identity from the contents of the two files, in the
    /// order of `PATHS`; `None` for one that cannot be read.
    pub fn load(contents: [Option<&str>; 2]) -> (identity: Option<Identity>)
        ensures
            ({
                let first = match contents@[0] {
                    Some(file) => claims(file@),
                    None => None,
                };
                let second = match contents@[1] {
                    Some(file) => claims(file@),
                    None => None,
                };
                &&& identity is Some <==> first is Some || second is Some
                &&& first is Some ==> identity->Some_0@ == (Claims {
                    source: "/etc/os-release"@,
                    ..first->Some_0
                })
                &&& first is None && second is Some ==> identity->Some_0@ == (Claims {
                    source: "/usr/lib/os-release"@,
                    ..second->Some_0
                })
            }),
    {
        match contents[0] {
            Some(file) => match Identity::parse(file) {
                Some(identity) => {
                    let mut identity: Identity = identity;
                    identity.source = "/etc/os-release".to_owned();
                    return Some(identity);
                },
                None => {},
            },
            None => {},
        }
        match contents[1] {
            Some(file) => match Identity::parse(file) {
                Some(identity) => {
                    let mut identity: Identity = identity;
                    identity.source = "/usr/lib/os-release".to_owned();
                    Some(identity)
                },
                None => None,
            },
            None => None,
        }
    }

    /// Parse os-release content.
    pub fn parse(file: &str) -> (identity: Option<Identity>)
        ensures
            match identity {
                Some(identity) => claims(file@) == Some(identity@),
                None => claims(file@) is None,
            },
    {
        let lines: Vec<Vec<char>> = fields::trimmed_lines(file);
        let ghost all = fields::lines(file@);
        let mut list: Vec<Field> = Vec::new();
        assert(fields::pairs(list@) =~= Seq::<(Seq<char>, Seq<char>)>::empty());
        assert(chars::texts(lines@).len() == lines@.len());
        for i in 0..lines.len()
            invariant
                chars::texts(lines@) == all,
                fields::pairs(list@) == release_pairs(all, i as int),
        {
            assert(lines@[i as int]@ == chars::texts(lines@)[i as int]);
            if lines[i].len() > 0 && lines[i][0] != '#' {
                match fields::part(&lines[i]) {
                    Some(field) => {
                        let ghost before = fields::pairs(list@);
                        let field: Field = Field {
                            key: field.key,
                            value: unquote_chars(field.value),
                        };
                        let ghost held = field@;
                        list.push(field);
                        assert(fields::pairs(list@) =~= before.push(held));
                    },
                    None => {},
                }
            }
        }
        let id: String = match get(&list, "ID") {
            Some(id) => id,
            None => {
                return None;
            },
        };
        let pretty_name: String = match get(&list, "PRETTY_NAME") {
            Some(name) => name,
            None => match get(&list, "NAME") {
                Some(name) => name,
                None => id.clone(),
            },
        };
        let version: Option<String> = match get(&list, "VERSION") {
            Some(version) => Some(version),
            None => get(&list, "VERSION_ID"),
        };
        Some(
            Identity {
                pretty_name,
                id_like: get(&list, "ID_LIKE"),
                version,
                home_url: get(&list, "HOME_URL"),
                bug_url: get(&list, "BUG_REPORT_URL"),
                id,
                source: String::new(),
            },
        )
    }

    /// Whether this machine currently identifies as HadalOS: a question rather
    /// than an assumption.
    pub fn is_hadalos(&self) -> (b: bool)
        ensures
            b == (self@.id == "hadalos"@),
    {
        chars::equal(self.id.as_str(), HADALOS_ID)
    }
}

/// The running kernel, from the one line that procfs reports of it.
pub fn kernel_release(reported: Option<&str>) -> (release: Option<String>)
    ensures
        match reported {
            Some(line) => text(release) == (if chars::trimmed(line@).len() > 0 {
                Some(chars::trimmed(line@))
            } else {
                None
            }),
            None => release is None,
        },
{
    match reported {
        Some(line) => {
            let line: Vec<char> = chars::chars_of(line);
            let bare: Vec<char> = chars::trim(&line);
            if bare.len() > 0 {
                Some(chars::text_of(&bare))
            } else {
                None
            }
        },
        None => None,
    }
}

/// Nothing that is claimed of a system is empty.
pub proof fn no_claim_is_empty(file: Seq<char>)
    requires
        claims(file) is Some,
    ensures
        claims(file)->Some_0.id.len() > 0,
        claims(file)->Some_0.pretty_name.len() > 0,
        claims(file)->Some_0.version is Some ==> claims(file)->Some_0.version->Some_0.len() > 0,
{
}

proof fn lemma_no_such_key(lines: Seq<Seq<char>>, key: Seq<char>, n: int)
    requires
        0 <= n <= lines.len(),
        forall|k: int| 0 <= k < n ==> fields::parted(#[trigger] lines[k]).0 != key,
    ensures
        forall|p: int|
            0 <= p < release_pairs(lines, n).len() ==> (#[trigger] release_pairs(lines, n)[p]).0
                != key,
    decreases n,
{
    if n > 0 {
        lemma_no_such_key(lines, key, n - 1);
        assert(fields::parted(lines[n - 1]).0 != key);
        let before = release_pairs(lines, n - 1);
        assert forall|p: int| 0 <= p < release_pairs(lines, n).len() implies (
        #[trigger] release_pairs(lines, n)[p]).0 != key by {
            if p < before.len() {
                assert(release_pairs(lines, n)[p] == before[p]);
            }
        }
    }
}

proof fn lemma_more_pairs(lines: Seq<Seq<char>>, m: int, n: int)
    requires
        0 <= m <= n <= lines.len(),
    ensures
        release_pairs(lines, m).len() <= release_pairs(lines, n).len(),
        forall|p: int|
            0 <= p < release_pairs(lines, m).len() ==> #[trigger] release_pairs(lines, n)[p]
                == release_pairs(lines, m)[p],
    decreases n,
{
    if m < n {
        lemma_more_pairs(lines, m, n - 1);
        assert forall|p: int| 0 <= p < release_pairs(lines, m).len() implies
            #[trigger] release_pairs(lines, n)[p] == release_pairs(lines, m)[p] by {
            assert(release_pairs(lines, n - 1)[p] == release_pairs(lines, m)[p]);
        }
    }
}

/// One layer of quotes is taken off, of either kind, and what stands between them
/// is left alone, whatever it is; a value without quotes stays as it is.
pub proof fn one_layer_of_quotes_is_removed(quote: char, value: Seq<char>)
    requires
        quote == '"' || quote == '\'',
    ensures
        unquoted(seq![quote] + value + seq![quote]) == value,
        value.len() > 0 && value[0] != '"' && value[0] != '\'' ==> unquoted(value) == value
            && unquoted(seq![quote] + value.drop_last() + seq![value[0]]) == seq![quote]
            + value.drop_last() + seq![value[0]],
{
    let all = seq![quote] + value + seq![quote];
    assert(all.subrange(1, all.len() - 1) =~= value);
}

/// A line of a key, an equals sign and a value gives that key that value, with or
/// without quotes around it, where no line before it is about the key.
pub proof fn a_line_gives_its_key_its_value(
    file: Seq<char>,
    i: int,
    key: Seq<char>,
    quotes: Seq<char>,
    value: Seq<char>,
)
    requires
        0 <= i < fields::lines(file).len(),
        forall|k: int| 0 <= k < i ==> fields::parted(#[trigger] fields::lines(file)[k]).0 != key,
        fields::lines(file)[i] == key + seq!['='] + (quotes + value + quotes),
        chars::trimmed(quotes + value + quotes) == quotes + value + quotes,
        quotes == seq!['"'] || quotes == seq!['\''] || (quotes == Seq::<char>::empty()
            && value.len() > 0 && value[0] != '"' && value[0] != '\''),
        chars::trimmed(key) == key,
        !key.contains('='),
        key.len() > 0,
        key[0] != '#',
    ensures
        release_value(file, key) == if value.len() > 0 {
            Some(value)
        } else {
            None
        },
{
    let lines = fields::lines(file);
    let line = lines[i];
    let n = lines.len() as int;
    let written = quotes + value + quotes;
    fields::a_line_parts_at_its_first_equals_sign(key, written);
    if quotes.len() > 0 {
        one_layer_of_quotes_is_removed(quotes[0], value);
        assert(quotes =~= seq![quotes[0]]);
    } else {
        assert(written =~= value);
    }
    assert(unquoted(written) == value);
    assert(line[0] == key[0]);
    lemma_no_such_key(lines, key, i);
    lemma_more_pairs(lines, i + 1, n);
    let (before, now, all) = (
        release_pairs(lines, i),
        release_pairs(lines, i + 1),
        release_pairs(lines, n),
    );
    assert(now == before.push((key, value)));
    assert(all[before.len() as int] == now[before.len() as int]);
    assert forall|p: int| 0 <= p < before.len() implies (#[trigger] all[p]).0 != key by {
        assert(all[p] == now[p] && now[p] == before[p]);
    }
    fields::the_first_pair_with_a_key_counts(all, key, before.len() as int);
}

/// A system is known by its id and is shown under the best name there is: the
/// pretty one, else the plain one, else the id. What a file does not say is not
/// claimed.
pub proof fn a_system_is_shown_under_its_best_name(file: Seq<char>)
    ensures
        claims(file) is Some <==> release_value(file, "ID"@) is Some,
        claims(file) matches Some(of) ==> {
            &&& Some(of.id) == release_value(file, "ID"@)
            &&& release_value(file, "PRETTY_NAME"@) is Some ==> Some(of.pretty_name)
                == release_value(file, "PRETTY_NAME"@)
            &&& release_value(file, "PRETTY_NAME"@) is None && release_value(file, "NAME"@)
                is Some ==> Some(of.pretty_name) == release_value(file, "NAME"@)
            &&& release_value(file, "PRETTY_NAME"@) is None && release_value(file, "NAME"@)
                is None ==> of.pretty_name == of.id
            &&& release_value(file, "VERSION"@) is Some ==> of.version == release_value(
                file,
                "VERSION"@,
            )
            &&& release_value(file, "VERSION"@) is None ==> of.version == release_value(
                file,
                "VERSION_ID"@,
            )
            &&& of.id_like == release_value(file, "ID_LIKE"@)
            &&& of.home_url == release_value(file, "HOME_URL"@)
            &&& of.bug_url == release_value(file, "BUG_REPORT_URL"@)
        },
{
}

} // verus!
