//! The typed configuration schema.
//!
//! Every setting has a type, a default, a range and a description. The parser
//! validates against the schema and the documentation is generated from it:
//! there is no second list to keep in sync.
//!
//! The file is TOML, edited as a syntax tree, so that comments, blank lines and
//! ordering survive a change.

use vstd::arithmetic::power2::pow2;
use vstd::prelude::*;

use crate::chars;
use crate::document;
use crate::document::{Document, Entries, Held, Leaf, Plain};
use crate::entry;
use crate::number;
use crate::number::{Decimal, Number};
use crate::template;
use crate::utils;

verus! {

/// A configuration value, in the four shapes the schema supports.
#[derive(Debug, PartialEq)]
pub enum Value {
    Int(i32),
    Float(Decimal),
    Bool(bool),
    Text(String),
}

/// A value, as a mathematical one.
pub enum Meaning {
    Int(int),
    Float(Number, Seq<char>),
    Bool(bool),
    Text(Seq<char>),
}

impl View for Decimal {
    type V = Meaning;

    open spec fn view(&self) -> Meaning {
        Meaning::Float(self.number, self.written@)
    }
}

impl View for Value {
    type V = Meaning;

    open spec fn view(&self) -> Meaning {
        match *self {
            Value::Int(v) => Meaning::Int(v as int),
            Value::Float(v) => v@,
            Value::Bool(v) => Meaning::Bool(v),
            Value::Text(v) => Meaning::Text(v@),
        }
    }
}

impl Clone for Value {
    fn clone(&self) -> (copy: Value)
        ensures
            copy@ == self@,
    {
        match self {
            Value::Int(v) => Value::Int(*v),
            Value::Float(v) => Value::Float(v.clone()),
            Value::Bool(v) => Value::Bool(*v),
            Value::Text(v) => Value::Text(v.clone()),
        }
    }
}

pub open spec fn bool_text(b: bool) -> Seq<char> {
    if b {
        "true"@
    } else {
        "false"@
    }
}

/// A value, written out.
pub open spec fn shown(m: Meaning) -> Seq<char> {
    match m {
        Meaning::Int(v) => chars::signed_decimal(v),
        Meaning::Float(_, written) => written,
        Meaning::Bool(v) => bool_text(v),
        Meaning::Text(v) => v,
    }
}

impl Value {
    fn show(&self, out: &mut Vec<char>)
        ensures
            final(out)@ == old(out)@ + shown(self@),
    {
        match self {
            Value::Int(v) => chars::append_signed(out, *v as i64),
            Value::Float(v) => chars::append(out, v.written.as_str()),
            Value::Bool(v) => {
                if *v {
                    chars::append(out, "true")
                } else {
                    chars::append(out, "false")
                }
            },
            Value::Text(v) => chars::append(out, v.as_str()),
        }
    }

    /// The value, written out.
    pub fn to_text(&self) -> (text: String)
        ensures
            text@ == shown(self@),
    {
        let mut out: Vec<char> = Vec::new();
        self.show(&mut out);
        assert(out@ =~= shown(self@));
        chars::text_of(&out)
    }
}

/// What a setting accepts: its type, its default, and its bounds.
#[derive(Debug, Clone, PartialEq)]
pub enum Kind {
    Int { default: i32, min: i32, max: i32 },
    Float { default: Decimal, min: Decimal, max: Decimal },
    Bool { default: bool },
    /// Free text — a path, a command. Unvalidated beyond being a string.
    Text { default: &'static str },
    /// A closed set of names.
    Choice { default: &'static str, options: Vec<&'static str> },
}

/// A kind, as a mathematical value.
pub enum Rule {
    Int { default: int, min: int, max: int },
    Float { default: (Number, Seq<char>), min: (Number, Seq<char>), max: (Number, Seq<char>) },
    Bool { default: bool },
    Text { default: Seq<char> },
    Choice { default: Seq<char>, options: Seq<Seq<char>> },
}

pub open spec fn strs(list: Seq<&'static str>) -> Seq<Seq<char>> {
    Seq::new(list.len(), |i: int| list[i]@)
}

pub open spec fn number_of(bits: u64, written: Seq<char>) -> (Number, Seq<char>) {
    (Number { bits }, written)
}

fn decimal(bits: u64, written: &'static str) -> (d: Decimal)
    ensures
        d.number == (Number { bits }),
        d.written@ == written@,
{
    Decimal { number: Number { bits }, written: written.to_owned() }
}

impl View for Kind {
    type V = Rule;

    open spec fn view(&self) -> Rule {
        match *self {
            Kind::Int { default, min, max } => Rule::Int {
                default: default as int,
                min: min as int,
                max: max as int,
            },
            Kind::Float { default, min, max } => Rule::Float {
                default: (default.number, default.written@),
                min: (min.number, min.written@),
                max: (max.number, max.written@),
            },
            Kind::Bool { default } => Rule::Bool { default },
            Kind::Text { default } => Rule::Text { default: default@ },
            Kind::Choice { default, options } => Rule::Choice {
                default: default@,
                options: strs(options@),
            },
        }
    }
}

pub open spec fn rule_name(rule: Rule) -> Seq<char> {
    match rule {
        Rule::Int { .. } => "integer"@,
        Rule::Float { .. } => "number"@,
        Rule::Bool { .. } => "boolean"@,
        Rule::Text { .. } => "text"@,
        Rule::Choice { .. } => "choice"@,
    }
}

pub open spec fn default_of(rule: Rule) -> Meaning {
    match rule {
        Rule::Int { default, .. } => Meaning::Int(default),
        Rule::Float { default, .. } => Meaning::Float(default.0, default.1),
        Rule::Bool { default } => Meaning::Bool(default),
        Rule::Text { default } => Meaning::Text(default),
        Rule::Choice { default, .. } => Meaning::Text(default),
    }
}

/// Names, with a comma between each and the next.
pub open spec fn comma_joined(names: Seq<Seq<char>>) -> Seq<char>
    decreases names.len(),
{
    if names.len() == 0 {
        Seq::empty()
    } else if names.len() == 1 {
        names[0]
    } else {
        comma_joined(names.drop_last()) + ", "@ + names.last()
    }
}

/// Human-readable bounds.
pub open spec fn bounds(rule: Rule) -> Option<Seq<char>> {
    match rule {
        Rule::Int { min, max, .. } => Some(
            chars::signed_decimal(min) + " to "@ + chars::signed_decimal(max),
        ),
        Rule::Float { min, max, .. } => Some(min.1 + " to "@ + max.1),
        Rule::Bool { .. } => None,
        Rule::Text { .. } => None,
        Rule::Choice { options, .. } => Some(comma_joined(options)),
    }
}

/// The number that a whole one is, and how it is written.
pub open spec fn widened(v: int) -> Meaning {
    Meaning::Float(number::whole(v), chars::signed_decimal(v))
}

/// Why a value was not accepted, as a mathematical value.
pub enum Trouble {
    UnknownKey,
    WrongType { expected: Seq<char>, got: Seq<char> },
    OutOfRange { allowed: Seq<char> },
}

pub open spec fn meaning_name(m: Meaning) -> Seq<char> {
    match m {
        Meaning::Int(_) => "integer"@,
        Meaning::Float(..) => "number"@,
        Meaning::Bool(_) => "boolean"@,
        Meaning::Text(_) => "string"@,
    }
}

pub open spec fn out_of_range(rule: Rule) -> Trouble {
    Trouble::OutOfRange {
        allowed: match bounds(rule) {
            Some(text) => text,
            None => Seq::empty(),
        },
    }
}

/// A number, checked against the bounds of a rule: what is not a number lies
/// within none.
pub open spec fn checked_number(rule: Rule, number: Number, written: Seq<char>) -> Result<
    Meaning,
    Trouble,
> {
    if number.within(rule->Float_min.0, rule->Float_max.0) {
        Ok(Meaning::Float(number, written))
    } else {
        Err(out_of_range(rule))
    }
}

/// A value, checked against a rule: it is rejected rather than clamped. A whole
/// number where a number is wanted is widened, and then checked like any other.
pub open spec fn checked(rule: Rule, m: Meaning) -> Result<Meaning, Trouble> {
    match (rule, m) {
        (Rule::Int { min, max, .. }, Meaning::Int(v)) => if v < min || v > max {
            Err(out_of_range(rule))
        } else {
            Ok(m)
        },
        (Rule::Float { .. }, Meaning::Int(v)) => checked_number(
            rule,
            widened(v)->Float_0,
            widened(v)->Float_1,
        ),
        (Rule::Float { .. }, Meaning::Float(number, written)) => checked_number(
            rule,
            number,
            written,
        ),
        (Rule::Bool { .. }, Meaning::Bool(_)) => Ok(m),
        (Rule::Text { .. }, Meaning::Text(_)) => Ok(m),
        (Rule::Choice { options, .. }, Meaning::Text(v)) => if options.contains(v) {
            Ok(m)
        } else {
            Err(out_of_range(rule))
        },
        _ => Err(Trouble::WrongType { expected: rule_name(rule), got: meaning_name(m) }),
    }
}

/// Whether a value has the shape that a setting's field holds.
pub open spec fn has_shape(rule: Rule, m: Meaning) -> bool {
    match rule {
        Rule::Int { .. } => m is Int && i32::MIN <= m->Int_0 <= i32::MAX,
        Rule::Float { .. } => m is Float,
        Rule::Bool { .. } => m is Bool,
        Rule::Text { .. } => m is Text,
        Rule::Choice { .. } => m is Text,
    }
}

impl Kind {
    pub fn kind_name(&self) -> (name: &'static str)
        ensures
            name@ == rule_name(self@),
    {
        match self {
            Kind::Int { .. } => "integer",
            Kind::Float { .. } => "number",
            Kind::Bool { .. } => "boolean",
            Kind::Text { .. } => "text",
            Kind::Choice { .. } => "choice",
        }
    }

    pub fn default_value(&self) -> (value: Value)
        ensures
            value@ == default_of(self@),
    {
        match self {
            Kind::Int { default, .. } => Value::Int(*default),
            Kind::Float { default, .. } => Value::Float(default.clone()),
            Kind::Bool { default } => Value::Bool(*default),
            Kind::Text { default } => Value::Text((*default).to_owned()),
            Kind::Choice { default, .. } => Value::Text((*default).to_owned()),
        }
    }

    /// Human-readable bounds, for error messages and documentation.
    pub fn range(&self) -> (text: Option<String>)
        ensures
            match text {
                Some(text) => bounds(self@) == Some(text@),
                None => bounds(self@) is None,
            },
    {
        let mut out: Vec<char> = Vec::new();
        match self {
            Kind::Int { min, max, .. } => {
                chars::append_signed(&mut out, *min as i64);
                chars::append(&mut out, " to ");
                chars::append_signed(&mut out, *max as i64);
            },
            Kind::Float { min, max, .. } => {
                chars::append(&mut out, min.written.as_str());
                chars::append(&mut out, " to ");
                chars::append(&mut out, max.written.as_str());
            },
            Kind::Bool { .. } => {
                return None;
            },
            Kind::Text { .. } => {
                return None;
            },
            Kind::Choice { options, .. } => {
                let ghost all = strs(options@);
                assert(all.take(0) =~= Seq::<Seq<char>>::empty());
                for i in 0..options.len()
                    invariant
                        all == strs(options@),
                        out@ == comma_joined(all.take(i as int)),
                {
                    if i > 0 {
                        chars::append(&mut out, ", ");
                    }
                    chars::append(&mut out, options[i]);
                    assert(all.take(i + 1).drop_last() =~= all.take(i as int));
                    assert(out@ =~= comma_joined(all.take(i + 1)));
                }
                assert(all.take(all.len() as int) =~= all);
            },
        }
        assert(out@ =~= bounds(self@)->Some_0);
        Some(chars::text_of(&out))
    }

    fn beyond(&self) -> (problem: Problem)
        ensures
            problem@ == out_of_range(self@),
    {
        let allowed: String = match self.range() {
            Some(text) => text,
            None => String::new(),
        };
        assert(allowed@ =~= out_of_range(self@)->allowed);
        Problem::OutOfRange { allowed }
    }

    fn check_number(&self, number: &Decimal) -> (r: Result<Value, Problem>)
        requires
            self is Float,
        ensures
            judged(r) == checked_number(self@, number.number, number.written@),
    {
        match self {
            Kind::Float { min, max, .. } => {
                if number.number.is_within(min.number, max.number) {
                    Ok(Value::Float(number.clone()))
                } else {
                    Err(self.beyond())
                }
            },
            _ => Err(self.beyond()),
        }
    }

    fn mismatch(&self, value: &Value) -> (problem: Problem)
        ensures
            problem@ == (Trouble::WrongType {
                expected: rule_name(self@),
                got: meaning_name(value@),
            }),
    {
        Problem::WrongType {
            expected: self.kind_name(),
            got: match value {
                Value::Int(_) => "integer",
                Value::Float(_) => "number",
                Value::Bool(_) => "boolean",
                Value::Text(_) => "string",
            },
        }
    }

    /// Check a value against this setting, returning why it does not fit.
    ///
    /// Rejects rather than clamps: a clamped value would mean that the file says
    /// one thing and the session does another.
    pub fn check(&self, value: &Value) -> (r: Result<Value, Problem>)
        ensures
            judged(r) == checked(self@, value@),
    {
        match (self, value) {
            (Kind::Int { min, max, .. }, Value::Int(v)) => {
                if *v < *min || *v > *max {
                    Err(self.beyond())
                } else {
                    Ok(value.clone())
                }
            },
            (Kind::Float { .. }, Value::Int(v)) => {
                let mut out: Vec<char> = Vec::new();
                chars::append_signed(&mut out, *v as i64);
                assert(out@ =~= chars::signed_decimal(*v as int));
                let number: Number = Number::from_integer(*v);
                self.check_number(&Decimal { number, written: chars::text_of(&out) })
            },
            (Kind::Float { .. }, Value::Float(v)) => self.check_number(v),
            (Kind::Bool { .. }, Value::Bool(_)) => Ok(value.clone()),
            (Kind::Text { .. }, Value::Text(_)) => Ok(value.clone()),
            (Kind::Choice { options, .. }, Value::Text(v)) => {
                let ghost all = strs(options@);
                for i in 0..options.len()
                    invariant
                        all == strs(options@),
                        self@ is Choice,
                        self@->options == all,
                        value@ == Meaning::Text(v@),
                        forall|k: int| 0 <= k < i ==> #[trigger] all[k] != v@,
                {
                    if chars::equal(options[i], v.as_str()) {
                        assert(all[i as int] == v@);
                        return Ok(value.clone());
                    }
                }
                Err(self.beyond())
            },
            _ => Err(self.mismatch(value)),
        }
    }
}

/// What a check came to.
pub open spec fn judged(r: Result<Value, Problem>) -> Result<Meaning, Trouble> {
    match r {
        Ok(value) => Ok(value@),
        Err(problem) => Err(problem@),
    }
}

/// When a change to a setting takes effect.
#[derive(Debug, Clone, Copy, PartialEq, Eq, Structural)]
pub enum Apply {
    /// Takes effect the moment the file is saved.
    Live,
    /// Describes initial state, so reapplying it would fight the user.
    Restart,
}

/// One setting: everything the parser and the documentation need to know.
#[derive(Debug, Clone)]
pub struct Setting {
    /// Dotted path, matching the TOML structure: `section.name`.
    pub key: &'static str,
    pub kind: Kind,
    pub doc: &'static str,
    pub apply: Apply,
}

/// A setting, as a mathematical value.
pub struct Row {
    pub key: Seq<char>,
    pub rule: Rule,
    pub doc: Seq<char>,
    pub apply: Apply,
}

impl View for Setting {
    type V = Row;

    open spec fn view(&self) -> Row {
        Row { key: self.key@, rule: self.kind@, doc: self.doc@, apply: self.apply }
    }
}

pub open spec fn rows_of(settings: Seq<Setting>) -> Seq<Row> {
    Seq::new(settings.len(), |i: int| settings[i]@)
}

/// What stands before the first dot of a key.
pub open spec fn table_of(key: Seq<char>) -> Seq<char> {
    let at = chars::next_index(key, '.', 0);
    if at < key.len() {
        key.subrange(0, at)
    } else {
        Seq::empty()
    }
}

/// What stands behind the first dot of a key.
pub open spec fn leaf_of(key: Seq<char>) -> Seq<char> {
    let at = chars::next_index(key, '.', 0);
    if at < key.len() {
        key.subrange(at + 1, key.len() as int)
    } else {
        key
    }
}

impl Setting {
    /// Split the dotted key into its TOML table and leaf.
    pub fn path(&self) -> (path: (String, String))
        ensures
            path.0@ == table_of(self@.key),
            path.1@ == leaf_of(self@.key),
    {
        let key: Vec<char> = chars::chars_of(self.key);
        let at: usize = chars::find(&key, '.', 0);
        if at < key.len() {
            let table: Vec<char> = chars::part(&key, 0, at);
            let leaf: Vec<char> = chars::part(&key, at + 1, key.len());
            (chars::text_of(&table), chars::text_of(&leaf))
        } else {
            (String::new(), self.key.to_owned())
        }
    }
}

/// Why a value was not accepted.
#[derive(Debug, Clone, PartialEq)]
pub enum Problem {
    UnknownKey,
    WrongType { expected: &'static str, got: &'static str },
    OutOfRange { allowed: String },
}

impl View for Problem {
    type V = Trouble;

    open spec fn view(&self) -> Trouble {
        match *self {
            Problem::UnknownKey => Trouble::UnknownKey,
            Problem::WrongType { expected, got } => Trouble::WrongType {
                expected: expected@,
                got: got@,
            },
            Problem::OutOfRange { allowed } => Trouble::OutOfRange { allowed: allowed@ },
        }
    }
}

/// A problem, written out.
pub open spec fn told(trouble: Trouble) -> Seq<char> {
    match trouble {
        Trouble::UnknownKey => "no such setting"@,
        Trouble::WrongType { expected, got } => "expected "@ + expected + ", found "@ + got,
        Trouble::OutOfRange { allowed } => "allowed: "@ + allowed,
    }
}

impl Problem {
    fn tell(&self, out: &mut Vec<char>)
        ensures
            final(out)@ == old(out)@ + told(self@),
    {
        match self {
            Problem::UnknownKey => {
                chars::append(out, "no such setting");
            },
            Problem::WrongType { expected, got } => {
                chars::append(out, "expected ");
                chars::append(out, expected);
                chars::append(out, ", found ");
                chars::append(out, got);
            },
            Problem::OutOfRange { allowed } => {
                chars::append(out, "allowed: ");
                chars::append(out, allowed.as_str());
            },
        }
        assert(out@ =~= old(out)@ + told(self@));
    }

    /// The problem, written out.
    pub fn to_text(&self) -> (text: String)
        ensures
            text@ == told(self@),
    {
        let mut out: Vec<char> = Vec::new();
        self.tell(&mut out);
        assert(out@ =~= told(self@));
        chars::text_of(&out)
    }
}

/// A problem, attached to the key it concerns.
#[derive(Debug, Clone, PartialEq)]
pub struct Complaint {
    pub key: String,
    pub problem: Problem,
}

impl View for Complaint {
    type V = (Seq<char>, Trouble);

    open spec fn view(&self) -> (Seq<char>, Trouble) {
        (self.key@, self.problem@)
    }
}

pub open spec fn complaint_views(list: Seq<Complaint>) -> Seq<(Seq<char>, Trouble)> {
    Seq::new(list.len(), |i: int| list[i]@)
}

impl Complaint {
    /// The complaint, written out.
    pub fn to_text(&self) -> (text: String)
        ensures
            text@ == self@.0 + ": "@ + told(self@.1),
    {
        let mut out: Vec<char> = chars::chars_of(self.key.as_str());
        chars::append(&mut out, ": ");
        self.problem.tell(&mut out);
        chars::text_of(&out)
    }
}

fn layout_options() -> (options: Vec<&'static str>)
    ensures
        strs(options@) == seq!["master-stack"@, "columns"@],
{
    let mut options: Vec<&'static str> = Vec::new();
    options.push("master-stack");
    options.push("columns");
    assert(strs(options@) =~= seq!["master-stack"@, "columns"@]);
    options
}

fn mod_key_options() -> (options: Vec<&'static str>)
    ensures
        strs(options@) == seq!["super"@, "alt"@, "ctrl"@, "ctrl-alt"@],
{
    let mut options: Vec<&'static str> = Vec::new();
    options.push("super");
    options.push("alt");
    options.push("ctrl");
    options.push("ctrl-alt");
    assert(strs(options@) =~= seq!["super"@, "alt"@, "ctrl"@, "ctrl-alt"@]);
    options
}

fn terminal_options() -> (options: Vec<&'static str>)
    ensures
        strs(options@) == seq!["auto"@, "foot"@, "alacritty"@, "kitty"@, "weston-terminal"@, "konsole"@],
{
    let mut options: Vec<&'static str> = Vec::new();
    options.push("auto");
    options.push("foot");
    options.push("alacritty");
    options.push("kitty");
    options.push("weston-terminal");
    options.push("konsole");
    assert(strs(options@) =~= seq!["auto"@, "foot"@, "alacritty"@, "kitty"@, "weston-terminal"@, "konsole"@]);
    options
}

/// Every setting there is, in the order a reader meets them.
pub open spec fn schema_rows() -> Seq<Row> {
    seq![
        Row {
            key: "layout.inner-gap"@,
            rule: Rule::Int { default: 8, min: 0, max: 200 },
            doc: "Space between tiles, in pixels."@,
            apply: Apply::Live,
        },
        Row {
            key: "layout.outer-gap"@,
            rule: Rule::Int { default: 8, min: 0, max: 200 },
            doc: "Space between tiles and the screen edge, in pixels."@,
            apply: Apply::Live,
        },
        Row {
            key: "layout.master-ratio"@,
            rule: Rule::Float {
                default: number_of(0x3fe3_3333_3333_3333, "0.6"@),
                min: number_of(0x3fb9_9999_9999_999a, "0.1"@),
                max: number_of(0x3fec_cccc_cccc_cccd, "0.9"@),
            },
            doc: "Fraction of the width taken by the master column."@,
            apply: Apply::Live,
        },
        Row {
            key: "layout.default"@,
            rule: Rule::Choice {
                default: "master-stack"@,
                options: seq!["master-stack"@, "columns"@],
            },
            doc: "Which arrangement tiled workspaces start in."@,
            apply: Apply::Restart,
        },
        Row {
            key: "layout.tile-by-default"@,
            rule: Rule::Bool { default: false },
            doc: "Whether new workspaces tile rather than float."@,
            apply: Apply::Restart,
        },
        Row {
            key: "workspaces.count"@,
            rule: Rule::Int { default: 4, min: 1, max: 9 },
            doc: "How many workspaces exist."@,
            apply: Apply::Live,
        },
        Row {
            key: "input.mod-key"@,
            rule: Rule::Choice {
                default: "super"@,
                options: seq!["super"@, "alt"@, "ctrl"@, "ctrl-alt"@],
            },
            doc: "The modifier that arms compositor bindings."@,
            apply: Apply::Live,
        },
        Row {
            key: "input.focus-follows-mouse"@,
            rule: Rule::Bool { default: false },
            doc: "Whether hovering a window focuses it, without a click."@,
            apply: Apply::Live,
        },
        Row {
            key: "appearance.wallpaper"@,
            rule: Rule::Text { default: ""@ },
            doc: "Image shown behind windows. Leave empty for a plain background."@,
            apply: Apply::Live,
        },
        Row {
            key: "appearance.blur"@,
            rule: Rule::Bool { default: true },
            doc: "Blur the wallpaper where it shows through a window."@,
            apply: Apply::Live,
        },
        Row {
            key: "appearance.blur-radius"@,
            rule: Rule::Int { default: 24, min: 0, max: 120 },
            doc: "How far the blur spreads, in pixels."@,
            apply: Apply::Live,
        },
        Row {
            key: "appearance.font"@,
            rule: Rule::Text { default: ""@ },
            doc: "Path to a font file. Empty finds one on the system."@,
            apply: Apply::Restart,
        },
        Row {
            key: "appearance.panel-height"@,
            rule: Rule::Int { default: 28, min: 0, max: 64 },
            doc: "Height of the workspace bar along the top edge. Zero hides it."@,
            apply: Apply::Live,
        },
        Row {
            key: "appearance.window-opacity"@,
            rule: Rule::Float {
                default: number_of(0x3ff0_0000_0000_0000, "1"@),
                min: number_of(0x3fc9_9999_9999_999a, "0.2"@),
                max: number_of(0x3ff0_0000_0000_0000, "1"@),
            },
            doc: "How opaque windows are. Below 1.0 the blur behind them becomes visible."@,
            apply: Apply::Live,
        },
        Row {
            key: "appearance.window-blur"@,
            rule: Rule::Bool { default: false },
            doc: "Blur what is actually behind a window, not just the wallpaper. Costs a blur per window per frame."@,
            apply: Apply::Live,
        },
        Row {
            key: "appearance.corner-radius"@,
            rule: Rule::Int { default: 12, min: 0, max: 32 },
            doc: "Rounding of window corners, in pixels."@,
            apply: Apply::Live,
        },
        Row {
            key: "appearance.focus-ring"@,
            rule: Rule::Int { default: 2, min: 0, max: 8 },
            doc: "Thickness of the ring around the focused window. Zero hides it."@,
            apply: Apply::Live,
        },
        Row {
            key: "appearance.blur-passes"@,
            rule: Rule::Int { default: 3, min: 1, max: 5 },
            doc: "Box-blur passes. Three approximates a Gaussian closely."@,
            apply: Apply::Live,
        },
        Row {
            key: "commands.launcher"@,
            rule: Rule::Text { default: "cusk-launcher"@ },
            doc: "Program the launcher binding runs. A bare name is looked for beside cusk, then on PATH."@,
            apply: Apply::Live,
        },
        Row {
            key: "commands.terminal"@,
            rule: Rule::Choice {
                default: "auto"@,
                options: seq!["auto"@, "foot"@, "alacritty"@, "kitty"@, "weston-terminal"@, "konsole"@],
            },
            doc: "Terminal opened by the spawn binding."@,
            apply: Apply::Live,
        },
    ]
}

/// How many settings there are.
pub const SETTING_COUNT: usize = 20;

/// Every setting there is, in the order a reader meets them.
pub fn schema() -> (rows: Vec<Setting>)
    ensures
        rows_of(rows@) == schema_rows(),
        rows@.len() == SETTING_COUNT,
{
    let mut rows: Vec<Setting> = Vec::new();
    rows.push(
        Setting {
            key: "layout.inner-gap",
            kind: Kind::Int { default: 8, min: 0, max: 200 },
            doc: "Space between tiles, in pixels.",
            apply: Apply::Live,
        },
    );
    rows.push(
        Setting {
            key: "layout.outer-gap",
            kind: Kind::Int { default: 8, min: 0, max: 200 },
            doc: "Space between tiles and the screen edge, in pixels.",
            apply: Apply::Live,
        },
    );
    rows.push(
        Setting {
            key: "layout.master-ratio",
            kind: Kind::Float {
                default: decimal(0x3fe3_3333_3333_3333, "0.6"),
                min: decimal(0x3fb9_9999_9999_999a, "0.1"),
                max: decimal(0x3fec_cccc_cccc_cccd, "0.9"),
            },
            doc: "Fraction of the width taken by the master column.",
            apply: Apply::Live,
        },
    );
    rows.push(
        Setting {
            key: "layout.default",
            kind: Kind::Choice { default: "master-stack", options: layout_options() },
            doc: "Which arrangement tiled workspaces start in.",
            apply: Apply::Restart,
        },
    );
    rows.push(
        Setting {
            key: "layout.tile-by-default",
            kind: Kind::Bool { default: false },
            doc: "Whether new workspaces tile rather than float.",
            apply: Apply::Restart,
        },
    );
    rows.push(
        Setting {
            key: "workspaces.count",
            kind: Kind::Int { default: 4, min: 1, max: 9 },
            doc: "How many workspaces exist.",
            apply: Apply::Live,
        },
    );
    rows.push(
        Setting {
            key: "input.mod-key",
            kind: Kind::Choice { default: "super", options: mod_key_options() },
            doc: "The modifier that arms compositor bindings.",
            apply: Apply::Live,
        },
    );
    rows.push(
        Setting {
            key: "input.focus-follows-mouse",
            kind: Kind::Bool { default: false },
            doc: "Whether hovering a window focuses it, without a click.",
            apply: Apply::Live,
        },
    );
    rows.push(
        Setting {
            key: "appearance.wallpaper",
            kind: Kind::Text { default: "" },
            doc: "Image shown behind windows. Leave empty for a plain background.",
            apply: Apply::Live,
        },
    );
    rows.push(
        Setting {
            key: "appearance.blur",
            kind: Kind::Bool { default: true },
            doc: "Blur the wallpaper where it shows through a window.",
            apply: Apply::Live,
        },
    );
    rows.push(
        Setting {
            key: "appearance.blur-radius",
            kind: Kind::Int { default: 24, min: 0, max: 120 },
            doc: "How far the blur spreads, in pixels.",
            apply: Apply::Live,
        },
    );
    rows.push(
        Setting {
            key: "appearance.font",
            kind: Kind::Text { default: "" },
            doc: "Path to a font file. Empty finds one on the system.",
            apply: Apply::Restart,
        },
    );
    rows.push(
        Setting {
            key: "appearance.panel-height",
            kind: Kind::Int { default: 28, min: 0, max: 64 },
            doc: "Height of the workspace bar along the top edge. Zero hides it.",
            apply: Apply::Live,
        },
    );
    rows.push(
        Setting {
            key: "appearance.window-opacity",
            kind: Kind::Float {
                default: decimal(0x3ff0_0000_0000_0000, "1"),
                min: decimal(0x3fc9_9999_9999_999a, "0.2"),
                max: decimal(0x3ff0_0000_0000_0000, "1"),
            },
            doc: "How opaque windows are. Below 1.0 the blur behind them becomes visible.",
            apply: Apply::Live,
        },
    );
    rows.push(
        Setting {
            key: "appearance.window-blur",
            kind: Kind::Bool { default: false },
            doc: "Blur what is actually behind a window, not just the wallpaper. Costs a blur per window per frame.",
            apply: Apply::Live,
        },
    );
    rows.push(
        Setting {
            key: "appearance.corner-radius",
            kind: Kind::Int { default: 12, min: 0, max: 32 },
            doc: "Rounding of window corners, in pixels.",
            apply: Apply::Live,
        },
    );
    rows.push(
        Setting {
            key: "appearance.focus-ring",
            kind: Kind::Int { default: 2, min: 0, max: 8 },
            doc: "Thickness of the ring around the focused window. Zero hides it.",
            apply: Apply::Live,
        },
    );
    rows.push(
        Setting {
            key: "appearance.blur-passes",
            kind: Kind::Int { default: 3, min: 1, max: 5 },
            doc: "Box-blur passes. Three approximates a Gaussian closely.",
            apply: Apply::Live,
        },
    );
    rows.push(
        Setting {
            key: "commands.launcher",
            kind: Kind::Text { default: "cusk-launcher" },
            doc: "Program the launcher binding runs. A bare name is looked for beside cusk, then on PATH.",
            apply: Apply::Live,
        },
    );
    rows.push(
        Setting {
            key: "commands.terminal",
            kind: Kind::Choice { default: "auto", options: terminal_options() },
            doc: "Terminal opened by the spawn binding.",
            apply: Apply::Live,
        },
    );
    assert(rows_of(rows@) =~= schema_rows());
    rows
}

/// Where a key first stands among the rows from `from` on.
pub open spec fn row_index_from(rows: Seq<Row>, key: Seq<char>, from: int) -> Option<int>
    decreases rows.len() - from,
{
    if from < 0 || from >= rows.len() {
        None
    } else if rows[from].key == key {
        Some(from)
    } else {
        row_index_from(rows, key, from + 1)
    }
}

/// Which setting a key names.
pub open spec fn row_index(key: Seq<char>) -> Option<int> {
    row_index_from(schema_rows(), key, 0)
}

/// Which setting a key names.
pub fn index_of(key: &str) -> (found: Option<usize>)
    ensures
        match found {
            Some(i) => row_index(key@) == Some(i as int) && i < SETTING_COUNT
                && schema_rows()[i as int].key == key@,
            None => row_index(key@) is None,
        },
{
    let settings: Vec<Setting> = schema();
    for i in 0..settings.len()
        invariant
            rows_of(settings@) == schema_rows(),
            settings@.len() == SETTING_COUNT,
            row_index_from(schema_rows(), key@, i as int) == row_index(key@),
    {
        assert(schema_rows()[i as int] == settings@[i as int]@) by {
            assert(rows_of(settings@)[i as int] == settings@[i as int]@);
        }
        if chars::equal(settings[i].key, key) {
            return Some(i);
        }
    }
    None
}

/// The value of every setting.
#[derive(Debug, Clone, PartialEq)]
pub struct Config {
    pub inner_gap: i32,
    pub outer_gap: i32,
    pub master_ratio: Decimal,
    pub default_layout: String,
    pub tiling_on_start: bool,
    pub workspace_count: i32,
    pub mod_key: String,
    pub focus_follows_mouse: bool,
    pub wallpaper: String,
    pub blur: bool,
    pub blur_radius: i32,
    pub font: String,
    pub panel_height: i32,
    pub window_opacity: Decimal,
    pub window_blur: bool,
    pub corner_radius: i32,
    pub ring_width: i32,
    pub blur_passes: i32,
    pub launcher: String,
    pub terminal: String,
}

impl View for Config {
    type V = Seq<Meaning>;

    open spec fn view(&self) -> Seq<Meaning> {
        seq![
            Meaning::Int(self.inner_gap as int),
            Meaning::Int(self.outer_gap as int),
            self.master_ratio@,
            Meaning::Text(self.default_layout@),
            Meaning::Bool(self.tiling_on_start),
            Meaning::Int(self.workspace_count as int),
            Meaning::Text(self.mod_key@),
            Meaning::Bool(self.focus_follows_mouse),
            Meaning::Text(self.wallpaper@),
            Meaning::Bool(self.blur),
            Meaning::Int(self.blur_radius as int),
            Meaning::Text(self.font@),
            Meaning::Int(self.panel_height as int),
            self.window_opacity@,
            Meaning::Bool(self.window_blur),
            Meaning::Int(self.corner_radius as int),
            Meaning::Int(self.ring_width as int),
            Meaning::Int(self.blur_passes as int),
            Meaning::Text(self.launcher@),
            Meaning::Text(self.terminal@),
        ]
    }
}

/// The values that settings have when nothing sets them.
pub open spec fn default_values() -> Seq<Meaning> {
    Seq::new(schema_rows().len(), |i: int| default_of(schema_rows()[i].rule))
}

impl Default for Config {
    #[verifier::rlimit(50)]
    fn default() -> (config: Config)
        ensures
            config@ == default_values(),
    {
        let config: Config = Config {
            inner_gap: 8,
            outer_gap: 8,
            master_ratio: decimal(0x3fe3_3333_3333_3333, "0.6"),
            default_layout: "master-stack".to_owned(),
            tiling_on_start: false,
            workspace_count: 4,
            mod_key: "super".to_owned(),
            focus_follows_mouse: false,
            wallpaper: "".to_owned(),
            blur: true,
            blur_radius: 24,
            font: "".to_owned(),
            panel_height: 28,
            window_opacity: decimal(0x3ff0_0000_0000_0000, "1"),
            window_blur: false,
            corner_radius: 12,
            ring_width: 2,
            blur_passes: 3,
            launcher: "cusk-launcher".to_owned(),
            terminal: "auto".to_owned(),
        };
        assert(config@ =~= default_values());
        config
    }
}

impl Config {
    fn field(&self, i: usize) -> (value: Value)
        requires
            i < SETTING_COUNT,
        ensures
            value@ == self@[i as int],
    {
        match i {
            0 => Value::Int(self.inner_gap),
            1 => Value::Int(self.outer_gap),
            2 => Value::Float(self.master_ratio.clone()),
            3 => Value::Text(self.default_layout.clone()),
            4 => Value::Bool(self.tiling_on_start),
            5 => Value::Int(self.workspace_count),
            6 => Value::Text(self.mod_key.clone()),
            7 => Value::Bool(self.focus_follows_mouse),
            8 => Value::Text(self.wallpaper.clone()),
            9 => Value::Bool(self.blur),
            10 => Value::Int(self.blur_radius),
            11 => Value::Text(self.font.clone()),
            12 => Value::Int(self.panel_height),
            13 => Value::Float(self.window_opacity.clone()),
            14 => Value::Bool(self.window_blur),
            15 => Value::Int(self.corner_radius),
            16 => Value::Int(self.ring_width),
            17 => Value::Int(self.blur_passes),
            18 => Value::Text(self.launcher.clone()),
            _ => Value::Text(self.terminal.clone()),
        }
    }

    #[verifier::rlimit(50)]
    fn put(&mut self, i: usize, value: Value)
        requires
            i < SETTING_COUNT,
            has_shape(schema_rows()[i as int].rule, value@),
        ensures
            final(self)@ == old(self)@.update(i as int, value@),
    {
        let ghost m = value@;
        match (i, value) {
            (0, Value::Int(v)) => {
                self.inner_gap = v;
            },
            (1, Value::Int(v)) => {
                self.outer_gap = v;
            },
            (2, Value::Float(v)) => {
                self.master_ratio = v;
            },
            (3, Value::Text(v)) => {
                self.default_layout = v;
            },
            (4, Value::Bool(v)) => {
                self.tiling_on_start = v;
            },
            (5, Value::Int(v)) => {
                self.workspace_count = v;
            },
            (6, Value::Text(v)) => {
                self.mod_key = v;
            },
            (7, Value::Bool(v)) => {
                self.focus_follows_mouse = v;
            },
            (8, Value::Text(v)) => {
                self.wallpaper = v;
            },
            (9, Value::Bool(v)) => {
                self.blur = v;
            },
            (10, Value::Int(v)) => {
                self.blur_radius = v;
            },
            (11, Value::Text(v)) => {
                self.font = v;
            },
            (12, Value::Int(v)) => {
                self.panel_height = v;
            },
            (13, Value::Float(v)) => {
                self.window_opacity = v;
            },
            (14, Value::Bool(v)) => {
                self.window_blur = v;
            },
            (15, Value::Int(v)) => {
                self.corner_radius = v;
            },
            (16, Value::Int(v)) => {
                self.ring_width = v;
            },
            (17, Value::Int(v)) => {
                self.blur_passes = v;
            },
            (18, Value::Text(v)) => {
                self.launcher = v;
            },
            (19, Value::Text(v)) => {
                self.terminal = v;
            },
            _ => {},
        }
        assert(self@ =~= old(self)@.update(i as int, m));
    }

    /// The value of a setting.
    pub fn get(&self, key: &str) -> (value: Option<Value>)
        ensures
            match value {
                Some(value) => row_index(key@) is Some && value@ == self@[row_index(
                    key@,
                )->Some_0],
                None => row_index(key@) is None,
            },
    {
        match index_of(key) {
            Some(i) => Some(self.field(i)),
            None => None,
        }
    }

    /// Validate and apply one setting. A value that is not accepted changes
    /// nothing.
    pub fn set(&mut self, key: &str, value: Value) -> (r: Result<(), Problem>)
        ensures
            match row_index(key@) {
                None => r is Err && r->Err_0@ == Trouble::UnknownKey && final(self)@ == old(
                    self,
                )@,
                Some(i) => match checked(schema_rows()[i].rule, value@) {
                    Ok(m) => r is Ok && final(self)@ == old(self)@.update(i, m),
                    Err(trouble) => r is Err && r->Err_0@ == trouble && final(self)@ == old(
                        self,
                    )@,
                },
            },
    {
        let i: usize = match index_of(key) {
            Some(i) => i,
            None => {
                return Err(Problem::UnknownKey);
            },
        };
        let settings: Vec<Setting> = schema();
        assert(schema_rows()[i as int] == rows_of(settings@)[i as int]);
        match settings[i].kind.check(&value) {
            Ok(fit) => {
                self.put(i, fit);
                Ok(())
            },
            Err(problem) => Err(problem),
        }
    }

    /// The setting that a key names.
    pub fn setting(key: &str) -> (setting: Option<Setting>)
        ensures
            match setting {
                Some(setting) => row_index(key@) is Some && setting@ == schema_rows()[row_index(
                    key@,
                )->Some_0],
                None => row_index(key@) is None,
            },
    {
        match index_of(key) {
            Some(i) => {
                let mut settings: Vec<Setting> = schema();
                assert(schema_rows()[i as int] == rows_of(settings@)[i as int]);
                Some(settings.swap_remove(i))
            },
            None => None,
        }
    }
}

/// No two settings have the same key.
pub proof fn keys_are_unique(i: int, j: int)
    requires
        0 <= i < j < schema_rows().len(),
    ensures
        schema_rows()[i].key != schema_rows()[j].key,
{
    reveal_strlit("layout.inner-gap");
    reveal_strlit("layout.outer-gap");
    reveal_strlit("layout.master-ratio");
    reveal_strlit("layout.default");
    reveal_strlit("layout.tile-by-default");
    reveal_strlit("workspaces.count");
    reveal_strlit("input.mod-key");
    reveal_strlit("input.focus-follows-mouse");
    reveal_strlit("appearance.wallpaper");
    reveal_strlit("appearance.blur");
    reveal_strlit("appearance.blur-radius");
    reveal_strlit("appearance.font");
    reveal_strlit("appearance.panel-height");
    reveal_strlit("appearance.window-opacity");
    reveal_strlit("appearance.window-blur");
    reveal_strlit("appearance.corner-radius");
    reveal_strlit("appearance.focus-ring");
    reveal_strlit("appearance.blur-passes");
    reveal_strlit("commands.launcher");
    reveal_strlit("commands.terminal");
    let rows = schema_rows();
    assert(rows[0].key.len() == 16);
    assert(rows[1].key.len() == 16);
    assert(rows[2].key.len() == 19);
    assert(rows[3].key.len() == 14);
    assert(rows[4].key.len() == 22);
    assert(rows[5].key.len() == 16);
    assert(rows[6].key.len() == 13);
    assert(rows[7].key.len() == 25);
    assert(rows[8].key.len() == 20);
    assert(rows[9].key.len() == 15);
    assert(rows[10].key.len() == 22);
    assert(rows[11].key.len() == 15);
    assert(rows[12].key.len() == 23);
    assert(rows[13].key.len() == 25);
    assert(rows[14].key.len() == 22);
    assert(rows[15].key.len() == 24);
    assert(rows[16].key.len() == 21);
    assert(rows[17].key.len() == 22);
    assert(rows[18].key.len() == 17);
    assert(rows[19].key.len() == 17);
    assert(rows[0].key[7] != rows[1].key[7]);
    assert(rows[0].key[0] != rows[5].key[0]);
    assert(rows[1].key[0] != rows[5].key[0]);
    assert(rows[4].key[0] != rows[10].key[0]);
    assert(rows[4].key[0] != rows[14].key[0]);
    assert(rows[4].key[0] != rows[17].key[0]);
    assert(rows[7].key[0] != rows[13].key[0]);
    assert(rows[9].key[11] != rows[11].key[11]);
    assert(rows[10].key[11] != rows[14].key[11]);
    assert(rows[10].key[16] != rows[17].key[16]);
    assert(rows[14].key[11] != rows[17].key[11]);
    assert(rows[18].key[9] != rows[19].key[9]);
}

proof fn lemma_row_index_from(i: int, from: int)
    requires
        0 <= from <= i < schema_rows().len(),
    ensures
        row_index_from(schema_rows(), schema_rows()[i].key, from) == Some(i),
    decreases i - from,
{
    if from < i {
        keys_are_unique(from, i);
        lemma_row_index_from(i, from + 1);
    }
}

/// Every key names its own setting.
pub proof fn every_key_names_its_setting(i: int)
    requires
        0 <= i < schema_rows().len(),
    ensures
        row_index(schema_rows()[i].key) == Some(i),
{
    lemma_row_index_from(i, 0);
}

/// Every default satisfies the rule of its own setting.
pub proof fn every_default_satisfies_its_rule(i: int)
    requires
        0 <= i < schema_rows().len(),
    ensures
        checked(schema_rows()[i].rule, default_of(schema_rows()[i].rule)) == Ok::<Meaning, Trouble>(
            default_of(schema_rows()[i].rule),
        ),
{
    let rule = schema_rows()[i].rule;
    if rule is Choice {
        assert(rule->options[0] == default_of(rule)->Text_0);
    }
}

/// A value that was accepted is accepted again, as it is.
pub proof fn an_accepted_value_stays_acceptable(rule: Rule, m: Meaning)
    requires
        checked(rule, m) is Ok,
    ensures
        checked(rule, checked(rule, m)->Ok_0) == checked(rule, m),
{
}

/// What a value in a document means to a setting; nothing, where it has a type
/// that no setting has. A whole number beyond what a value holds counts as the
/// nearest one that it does hold, which no setting's range reaches.
pub open spec fn meaning_of(held: Held) -> Option<Meaning> {
    match held {
        Held::Integer(v) => Some(Meaning::Int(utils::saturated(v as int))),
        Held::Float(number, written) => Some(Meaning::Float(number, written)),
        Held::Boolean(v) => Some(Meaning::Bool(v)),
        Held::Text(v) => Some(Meaning::Text(v)),
        Held::Unsupported => None,
    }
}

fn leaf_to_value(leaf: &Leaf) -> (value: Option<Value>)
    ensures
        match value {
            Some(value) => meaning_of(leaf@) == Some(value@),
            None => meaning_of(leaf@) is None,
        },
{
    match leaf {
        Leaf::Integer(v) => Some(Value::Int(utils::narrowed(*v))),
        Leaf::Float(bits, written) => Some(
            Value::Float(Decimal { number: Number { bits: *bits }, written: written.clone() }),
        ),
        Leaf::Boolean(v) => Some(Value::Bool(*v)),
        Leaf::Text(v) => Some(Value::Text(v.clone())),
        Leaf::Unsupported => None,
    }
}

/// What a document says about a setting: nothing, a value that fits, or why the
/// value does not.
pub open spec fn reading(
    sections: Seq<(Seq<char>, Option<Seq<(Seq<char>, Held)>>)>,
    row: Row,
) -> Option<Result<Meaning, Trouble>> {
    match document::held_at(sections, table_of(row.key), leaf_of(row.key)) {
        None => None,
        Some(held) => Some(
            match meaning_of(held) {
                Some(m) => checked(row.rule, m),
                None => Err(
                    Trouble::WrongType {
                        expected: rule_name(row.rule),
                        got: "an unsupported type"@,
                    },
                ),
            },
        ),
    }
}

/// The value that a setting has once a document has been read: the one that the
/// document gives it, and its default where that is absent or does not fit.
pub open spec fn settled_at(
    sections: Seq<(Seq<char>, Option<Seq<(Seq<char>, Held)>>)>,
    row: Row,
) -> Meaning {
    match reading(sections, row) {
        Some(Ok(m)) => m,
        _ => default_of(row.rule),
    }
}

pub open spec fn settled(
    sections: Seq<(Seq<char>, Option<Seq<(Seq<char>, Held)>>)>,
) -> Seq<Meaning> {
    Seq::new(schema_rows().len(), |i: int| settled_at(sections, schema_rows()[i]))
}

/// What is wrong with the values that a document gives to the first `n`
/// settings, in the order of the schema.
pub open spec fn objections(
    sections: Seq<(Seq<char>, Option<Seq<(Seq<char>, Held)>>)>,
    n: int,
) -> Seq<(Seq<char>, Trouble)>
    decreases n,
{
    if n <= 0 {
        Seq::empty()
    } else {
        let before = objections(sections, n - 1);
        let row = schema_rows()[n - 1];
        match reading(sections, row) {
            Some(Err(trouble)) => before.push((row.key, trouble)),
            _ => before,
        }
    }
}

/// The key of an entry of a table.
pub open spec fn joined_key(table: Seq<char>, leaf: Seq<char>) -> Seq<char> {
    table + "."@ + leaf
}

/// The keys among the first `n` entries of a table that name no setting.
pub open spec fn stray_entries(
    table: Seq<char>,
    entries: Seq<(Seq<char>, Held)>,
    n: int,
) -> Seq<(Seq<char>, Trouble)>
    decreases n,
{
    if n <= 0 {
        Seq::empty()
    } else {
        let before = stray_entries(table, entries, n - 1);
        let key = joined_key(table, entries[n - 1].0);
        if row_index(key) is None {
            before.push((key, Trouble::UnknownKey))
        } else {
            before
        }
    }
}

/// The keys in the first `n` sections of a document that name no setting, in the
/// order they stand.
pub open spec fn strays(
    sections: Seq<(Seq<char>, Option<Seq<(Seq<char>, Held)>>)>,
    n: int,
) -> Seq<(Seq<char>, Trouble)>
    decreases n,
{
    if n <= 0 {
        Seq::empty()
    } else {
        strays(sections, n - 1) + match sections[n - 1].1 {
            Some(entries) => stray_entries(sections[n - 1].0, entries, entries.len() as int),
            None => Seq::empty(),
        }
    }
}

/// Everything that is wrong with a document: values first, unknown keys after.
pub open spec fn complaints_of(
    sections: Seq<(Seq<char>, Option<Seq<(Seq<char>, Held)>>)>,
) -> Seq<(Seq<char>, Trouble)> {
    objections(sections, schema_rows().len() as int) + strays(sections, sections.len() as int)
}

fn find_leaf<'a>(sections: &'a Vec<(String, Option<Entries>)>, table: &str, leaf: &str) -> (found:
    Option<&'a Leaf>)
    ensures
        match found {
            Some(found) => document::held_at(
                document::section_views(sections@),
                table@,
                leaf@,
            ) == Some(found@),
            None => document::held_at(document::section_views(sections@), table@, leaf@) is None,
        },
{
    let ghost all = document::section_views(sections@);
    for i in 0..sections.len()
        invariant
            all == document::section_views(sections@),
            document::place_from(all, table@, i as int) == document::place(all, table@),
    {
        if chars::equal(sections[i].0.as_str(), table) {
            match &sections[i].1 {
                Some(entries) => {
                    let ghost inner = document::entry_views(entries@);
                    assert(all[i as int].1 == Some(inner));
                    for k in 0..entries.len()
                        invariant
                            inner == document::entry_views(entries@),
                            document::place(all, table@) == Some(i as int),
                            all[i as int].1 == Some(inner),
                            all == document::section_views(sections@),
                            document::place_from(inner, leaf@, k as int) == document::place(
                                inner,
                                leaf@,
                            ),
                    {
                        if chars::equal(entries[k].0.as_str(), leaf) {
                            return Some(&entries[k].1);
                        }
                    }
                    return None;
                },
                None => {
                    return None;
                },
            }
        }
    }
    None
}

fn push_complaint(complaints: &mut Vec<Complaint>, key: String, problem: Problem)
    ensures
        complaint_views(final(complaints)@) == complaint_views(old(complaints)@).push(
            (key@, problem@),
        ),
{
    complaints.push(Complaint { key, problem });
    assert(complaint_views(complaints@) =~= complaint_views(old(complaints)@).push(
        (key@, problem@),
    ));
}

fn find_strays(table: &str, entries: &Entries, complaints: &mut Vec<Complaint>)
    ensures
        complaint_views(final(complaints)@) == complaint_views(old(complaints)@) + stray_entries(
            table@,
            document::entry_views(entries@),
            entries@.len() as int,
        ),
{
    let ghost inner = document::entry_views(entries@);
    let ghost before = complaint_views(complaints@);
    assert(before + Seq::<(Seq<char>, Trouble)>::empty() =~= before);
    for k in 0..entries.len()
        invariant
            inner == document::entry_views(entries@),
            complaint_views(complaints@) == before + stray_entries(table@, inner, k as int),
    {
        let mut key: Vec<char> = chars::chars_of(table);
        chars::append(&mut key, ".");
        chars::append(&mut key, entries[k].0.as_str());
        let key: String = chars::text_of(&key);
        assert(key@ =~= joined_key(table@, inner[k as int].0));
        if index_of(key.as_str()).is_none() {
            push_complaint(complaints, key, Problem::UnknownKey);
            assert(before + stray_entries(table@, inner, k as int).push(
                (key@, Trouble::UnknownKey),
            ) =~= (before + stray_entries(table@, inner, k as int)).push(
                (key@, Trouble::UnknownKey),
            ));
        }
    }
}

impl Config {
    /// Read a document, applying what is valid and reporting what is not.
    ///
    /// Deliberately not all-or-nothing: a session that refuses to start because
    /// of one bad line leaves no desktop to mend it from, and one that drops the
    /// line in silence gives no idea why a setting did nothing. So a value that
    /// does not fit leaves the default in place and is returned. Keys that no
    /// setting has are returned too.
    pub fn from_document(doc: &Document) -> (read: (Config, Vec<Complaint>))
        ensures
            read.0@ == settled(doc.sections()),
            complaint_views(read.1@) == complaints_of(doc.sections()),
    {
        let sections: Vec<(String, Option<Entries>)> = doc.read();
        let ghost all = doc.sections();
        let mut config: Config = Config::default();
        let mut complaints: Vec<Complaint> = Vec::new();
        let settings: Vec<Setting> = schema();
        assert(complaint_views(complaints@) =~= objections(all, 0));
        for i in 0..settings.len()
            invariant
                settings@.len() == SETTING_COUNT,
                rows_of(settings@) == schema_rows(),
                schema_rows().len() == SETTING_COUNT,
                document::section_views(sections@) == all,
                config@.len() == SETTING_COUNT,
                forall|k: int| 0 <= k < i ==> #[trigger] config@[k] == settled(all)[k],
                forall|k: int|
                    i <= k < SETTING_COUNT ==> #[trigger] config@[k] == default_values()[k],
                complaint_views(complaints@) == objections(all, i as int),
        {
            let setting: &Setting = &settings[i];
            let ghost row = schema_rows()[i as int];
            assert(rows_of(settings@)[i as int] == setting@);
            let (table, leaf) = setting.path();
            match find_leaf(&sections, table.as_str(), leaf.as_str()) {
                None => {},
                Some(found) => match leaf_to_value(found) {
                    None => {
                        push_complaint(
                            &mut complaints,
                            setting.key.to_owned(),
                            Problem::WrongType {
                                expected: setting.kind.kind_name(),
                                got: "an unsupported type",
                            },
                        );
                    },
                    Some(value) => match setting.kind.check(&value) {
                        Ok(fit) => config.put(i, fit),
                        Err(problem) => push_complaint(
                            &mut complaints,
                            setting.key.to_owned(),
                            problem,
                        ),
                    },
                },
            }
        }
        assert(config@ =~= settled(all));
        let ghost objected = objections(all, schema_rows().len() as int);
        assert(objected + strays(all, 0) =~= objected);
        for i in 0..sections.len()
            invariant
                document::section_views(sections@) == all,
                complaint_views(complaints@) == objected + strays(all, i as int),
        {
            let ghost before = strays(all, i as int);
            match &sections[i].1 {
                Some(entries) => {
                    find_strays(sections[i].0.as_str(), entries, &mut complaints);
                    assert(all[i as int] == (
                        sections@[i as int].0@,
                        Some(document::entry_views(entries@)),
                    ));
                    let ghost more = stray_entries(
                        sections@[i as int].0@,
                        document::entry_views(entries@),
                        entries@.len() as int,
                    );
                    assert((objected + before) + more =~= objected + (before + more));
                },
                None => {
                    assert(before + Seq::<(Seq<char>, Trouble)>::empty() =~= before);
                },
            }
        }
        (config, complaints)
    }

    /// Read a configuration file's text; where it is no document, the error says
    /// why.
    pub fn from_str(text: &str) -> (read: Result<(Config, Vec<Complaint>), String>)
        ensures
            match read {
                Ok((config, complaints)) => document::parsed(text@) is Ok && config@ == settled(
                    document::parsed(text@)->Ok_0,
                ) && complaint_views(complaints@) == complaints_of(
                    document::parsed(text@)->Ok_0,
                ),
                Err(message) => document::parsed(text@) == Err::<
                    Seq<(Seq<char>, Option<Seq<(Seq<char>, Held)>>)>,
                    _,
                >(message@),
            },
            forall|sections: Seq<(Seq<char>, Option<Seq<(Seq<char>, Held)>>)>| #[trigger]
                document::spells(chars::pieces(text@, '\n'), sections) ==> match read {
                    Ok((config, complaints)) => all_agree(config@, settled(sections))
                        && complaint_views(complaints@) == complaints_of(sections),
                    Err(_) => false,
                },
            document::only_headers(text@) ==> match read {
                Ok((config, complaints)) => config@ == default_values() && complaints@.len() == 0,
                Err(_) => false,
            },
    {
        proof {
            let lines = chars::pieces(text@, '\n');
            if document::only_headers(text@) {
                document::headers_make_empty_tables(lines);
                empty_tables_are_the_defaults(document::headed(lines));
            }
        }
        match Document::parse(text) {
            Ok(doc) => {
                let (config, complaints) = Config::from_document(&doc);
                proof {
                    let lines = chars::pieces(text@, '\n');
                    assert(complaint_views(complaints@).len() == complaints@.len());
                    assert forall|sections: Seq<(Seq<char>, Option<Seq<(Seq<char>, Held)>>)>|
                        #[trigger] document::spells(lines, sections) implies all_agree(
                        config@,
                        settled(sections),
                    ) && complaint_views(complaints@) == complaints_of(sections) by {
                        alike_documents_settle_the_same(doc.sections(), sections);
                    }
                    if document::only_headers(text@) {
                        document::empty_tables_are_like_no_others(
                            doc.sections(),
                            document::headed(lines),
                        );
                    }
                }
                Ok((config, complaints))
            },
            Err(message) => Err(message),
        }
    }
}

/// A number, as TOML writes it: with a fraction, and what is no number in small
/// letters.
pub open spec fn toml_number(written: Seq<char>) -> Seq<char> {
    if written == "NaN"@ {
        "nan"@
    } else if written.contains('.') || chars::ends(written, "inf"@) {
        written
    } else {
        written + ".0"@
    }
}

fn to_toml_number(written: &str) -> (text: String)
    ensures
        text@ == toml_number(written@),
{
    if chars::equal(written, "NaN") {
        return "nan".to_owned();
    }
    let mut text: Vec<char> = chars::chars_of(written);
    let ending: Vec<char> = chars::chars_of("inf");
    let at: usize = chars::find(&text, '.', 0);
    proof {
        chars::lemma_next_index(text@, '.', 0);
    }
    if at == text.len() && !chars::ends_with(&text, &ending) {
        assert(!text@.contains('.'));
        chars::append(&mut text, ".0");
    }
    chars::text_of(&text)
}

/// Whether a value can stand in a document: a number has to read back as
/// itself.
pub open spec fn writable(m: Meaning) -> bool {
    m matches Meaning::Float(number, written) ==> document::number_in(toml_number(written))
        == Some((number, written))
}

/// What a document holds where a value was written.
pub open spec fn held_of(m: Meaning) -> Held {
    match m {
        Meaning::Int(v) => Held::Integer(v as i64),
        Meaning::Float(number, written) => Held::Float(number, written),
        Meaning::Bool(v) => Held::Boolean(v),
        Meaning::Text(v) => Held::Text(v),
    }
}

fn value_to_plain(value: &Value) -> (plain: Plain)
    requires
        writable(value@),
    ensures
        document::as_held(plain) == held_of(value@),
        plain matches Plain::Number(text) ==> document::number_in(text@) is Some,
{
    match value {
        Value::Int(v) => Plain::Integer(*v as i64),
        Value::Float(v) => Plain::Number(to_toml_number(v.written.as_str())),
        Value::Bool(v) => Plain::Boolean(*v),
        Value::Text(v) => Plain::Text(v.clone()),
    }
}

/// What comes of setting a key to a value in a document: the value to write
/// there, or why nothing is written.
pub open spec fn edit(
    sections: Seq<(Seq<char>, Option<Seq<(Seq<char>, Held)>>)>,
    key: Seq<char>,
    m: Meaning,
) -> Result<Meaning, Trouble> {
    match row_index(key) {
        None => Err(Trouble::UnknownKey),
        Some(i) => match checked(schema_rows()[i].rule, m) {
            Err(trouble) => Err(trouble),
            Ok(fit) => match document::place(sections, table_of(key)) {
                // A section that is no table has no place for a setting.
                Some(k) => if sections[k].1 is None {
                    Err(Trouble::UnknownKey)
                } else {
                    Ok(fit)
                },
                None => Ok(fit),
            },
        },
    }
}

fn judge_edit(doc: &Document, key: &str, value: &Value) -> (r: Result<(Value, bool), Problem>)
    ensures
        match r {
            Ok((fit, present)) => edit(doc.sections(), key@, value@) == Ok::<_, Trouble>(fit@)
                && present == (document::place(doc.sections(), table_of(key@)) is Some),
            Err(problem) => edit(doc.sections(), key@, value@) == Err::<Meaning, _>(problem@),
        },
        document::well_formed(doc.sections()),
{
    let sections: Vec<(String, Option<Entries>)> = doc.read();
    let ghost all = doc.sections();
    let setting: Setting = match Config::setting(key) {
        Some(setting) => setting,
        None => {
            return Err(Problem::UnknownKey);
        },
    };
    proof {
        lemma_row_key(key@, 0);
    }
    let fit: Value = match setting.kind.check(value) {
        Ok(fit) => fit,
        Err(problem) => {
            return Err(problem);
        },
    };
    let (table, _) = setting.path();
    for i in 0..sections.len()
        invariant
            all == doc.sections(),
            all == document::section_views(sections@),
            document::well_formed(all),
            table@ == table_of(key@),
            row_index(key@) is Some,
            checked(schema_rows()[row_index(key@)->Some_0].rule, value@) == Ok::<_, Trouble>(fit@),
            document::place_from(all, table@, i as int) == document::place(all, table@),
    {
        if chars::equal(sections[i].0.as_str(), table.as_str()) {
            assert(document::place(all, table@) == Some(i as int));
            assert(all[i as int].1 is None <==> sections@[i as int].1 is None);
            if sections[i].1.is_none() {
                return Err(Problem::UnknownKey);
            }
            return Ok((fit, true));
        }
    }
    Ok((fit, false))
}

proof fn lemma_row_key(key: Seq<char>, from: int)
    requires
        0 <= from <= schema_rows().len(),
    ensures
        row_index_from(schema_rows(), key, from) matches Some(i) ==> from <= i
            < schema_rows().len() && schema_rows()[i].key == key,
    decreases schema_rows().len() - from,
{
    if from < schema_rows().len() && schema_rows()[from].key != key {
        lemma_row_key(key, from + 1);
    }
}

/// Whether a document, once edited, reads as the value that was set under that
/// key, and as before under every other.
pub open spec fn reads_back(
    before: Seq<(Seq<char>, Option<Seq<(Seq<char>, Held)>>)>,
    after: Seq<(Seq<char>, Option<Seq<(Seq<char>, Held)>>)>,
    key: Seq<char>,
    m: Meaning,
) -> bool {
    forall|i: int|
        0 <= i < schema_rows().len() ==> #[trigger] settled(after)[i] == if schema_rows()[i].key
            == key {
            m
        } else {
            settled(before)[i]
        }
}

/// Write one setting into a document, leaving everything else exactly as it was:
/// every other value, the order of them all, and the comments and white space
/// round each, the edited one's included, round the keys and headers, and at the
/// end. The document reads as the value that was set, and as before elsewhere.
pub fn set_in_document(doc: &mut Document, key: &str, value: Value) -> (r: Result<(), Problem>)
    requires
        edit(old(doc).sections(), key@, value@) matches Ok(m) ==> writable(m),
    ensures
        match edit(old(doc).sections(), key@, value@) {
            Err(trouble) => r is Err && r->Err_0@ == trouble && *final(doc) == *old(doc),
            Ok(m) => {
                &&& r is Ok
                &&& document::value_set(
                    old(doc).sections(),
                    final(doc).sections(),
                    table_of(key@),
                    leaf_of(key@),
                    held_of(m),
                )
                &&& forall|at: (Seq<char>, Seq<char>)|
                    old(doc).decor().contains_key(at) ==> {
                        &&& #[trigger] final(doc).decor().contains_key(at)
                        &&& final(doc).decor()[at] == old(doc).decor()[at]
                    }
                &&& old(doc).notes().submap_of(final(doc).notes())
                &&& reads_back(old(doc).sections(), final(doc).sections(), key@, m)
            },
        },
{
    let (fit, present) = match judge_edit(doc, key, &value) {
        Ok(fit) => fit,
        Err(problem) => {
            return Err(problem);
        },
    };
    let ghost before = doc.sections();
    let (table, leaf) = match Config::setting(key) {
        Some(setting) => setting.path(),
        None => (String::new(), String::new()),
    };
    proof {
        lemma_row_key(key@, 0);
        document::lemma_place_from(before, table@, 0);
    }
    if !present {
        doc.add_table(table.as_str());
        proof {
            let k = choose|k: int|
                0 <= k <= before.len() && doc.sections() == #[trigger] before.insert(
                    k,
                    (table@, Some(Seq::<(Seq<char>, Held)>::empty())),
                );
            document::lemma_place_from(doc.sections(), table@, 0);
            assert(doc.sections()[k].0 == table@);
            let i = document::place(doc.sections(), table@)->Some_0;
            if i != k {
                let from = if i < k {
                    i
                } else {
                    i - 1
                };
                assert(doc.sections()[i] == before[from]);
            }
        }
    }
    let ghost between = doc.notes();
    doc.put(table.as_str(), leaf.as_str(), value_to_plain(&fit));
    proof {
        assert(old(doc).notes().submap_of(between));
        assert(old(doc).notes().submap_of(doc.notes())) by {
            assert forall|at: (Option<Seq<char>>, Option<Seq<char>>)|
                #[trigger] old(doc).notes().dom().contains(at) implies doc.notes().dom().contains(
                at,
            ) && old(doc).notes()[at] == doc.notes()[at] by {
                assert(between.dom().contains(at));
            }
        }
        assert forall|i: int| 0 <= i < schema_rows().len() implies #[trigger] settled(
            doc.sections(),
        )[i] == if schema_rows()[i].key == key@ {
            fit@
        } else {
            settled(before)[i]
        } by {
            a_written_setting_is_read_back(before, doc.sections(), key@, value@, i);
        }
    }
    Ok(())
}

/// Write one setting into a document, where its value can stand there: nothing
/// comes back, and the document stays as it is, where the value is a number
/// whose text does not read back as that number.
pub fn try_set_in_document(doc: &mut Document, key: &str, value: Value) -> (r: Option<
    Result<(), Problem>,
>)
    ensures
        match edit(old(doc).sections(), key@, value@) {
            Err(trouble) => r matches Some(Err(problem)) && problem@ == trouble && *final(doc)
                == *old(doc),
            Ok(m) => if writable(m) {
                &&& r matches Some(Ok(_))
                &&& document::value_set(
                    old(doc).sections(),
                    final(doc).sections(),
                    table_of(key@),
                    leaf_of(key@),
                    held_of(m),
                )
                &&& forall|at: (Seq<char>, Seq<char>)|
                    old(doc).decor().contains_key(at) ==> {
                        &&& #[trigger] final(doc).decor().contains_key(at)
                        &&& final(doc).decor()[at] == old(doc).decor()[at]
                    }
                &&& old(doc).notes().submap_of(final(doc).notes())
                &&& reads_back(old(doc).sections(), final(doc).sections(), key@, m)
            } else {
                r is None && *final(doc) == *old(doc)
            },
        },
{
    match judge_edit(doc, key, &value) {
        Ok((Value::Float(fit), _)) => {
            let text: String = to_toml_number(fit.written.as_str());
            match document::read_number(text.as_str()) {
                Some(back) => {
                    if back.number != fit.number || !chars::equal(
                        back.written.as_str(),
                        fit.written.as_str(),
                    ) {
                        return None;
                    }
                },
                None => {
                    return None;
                },
            }
        },
        _ => {},
    }
    Some(set_in_document(doc, key, value))
}

/// A default, as the generated file shows it.
pub open spec fn rendered_default(rule: Rule) -> Seq<char> {
    match default_of(rule) {
        Meaning::Text(text) => "\""@ + text + "\""@,
        m => shown(m),
    }
}

/// The header of a setting's section, where the setting before it stands in
/// another one.
pub open spec fn header_lines(current: Seq<char>, row: Row) -> Seq<char> {
    if table_of(row.key) != current {
        "\n["@ + table_of(row.key) + "]\n"@
    } else {
        Seq::empty()
    }
}

/// What a setting is for, and when a change to it applies.
pub open spec fn purpose_lines(row: Row) -> Seq<char> {
    "\n# "@ + row.doc + "\n"@ + if row.apply == Apply::Restart {
        "# takes effect on restart\n"@
    } else {
        Seq::empty()
    }
}

/// What a setting accepts.
pub open spec fn range_line(row: Row) -> Seq<char> {
    match bounds(row.rule) {
        Some(range) => "# "@ + rule_name(row.rule) + ": "@ + range + "\n"@,
        None => Seq::empty(),
    }
}

/// A setting at its default, commented out.
pub open spec fn default_line(row: Row) -> Seq<char> {
    "# "@ + leaf_of(row.key) + " = "@ + rendered_default(row.rule) + "\n"@
}

/// What the generated file says about a setting that follows one of section
/// `current`.
pub open spec fn documented_row(current: Seq<char>, row: Row) -> Seq<char> {
    header_lines(current, row) + purpose_lines(row) + range_line(row) + default_line(row)
}

/// The section of the setting before the `n`th; of none, no section.
pub open spec fn section_before(n: int) -> Seq<char> {
    if n <= 0 {
        Seq::empty()
    } else {
        table_of(schema_rows()[n - 1].key)
    }
}

/// What the generated file starts with.
pub open spec fn preamble() -> Seq<char> {
    "# cusk configuration\n"@ + "#\n"@
        + "# Every setting below is shown at its default and commented out.\n"@
        + "# Uncomment a line to change it. Comments and ordering are preserved\n"@
        + "# when the settings GUI writes to this file.\n"@
}

/// The generated file up to and with its `n`th setting.
pub open spec fn documented_file(n: int) -> Seq<char>
    decreases n,
{
    if n <= 0 {
        preamble()
    } else {
        documented_file(n - 1) + documented_row(section_before(n - 1), schema_rows()[n - 1])
    }
}

fn write_header(current: &str, table: &str, setting: &Setting, out: &mut Vec<char>)
    requires
        table@ == table_of(setting@.key),
    ensures
        final(out)@ == old(out)@ + header_lines(current@, setting@),
{
    if !chars::equal(table, current) {
        chars::append(out, "\n[");
        chars::append(out, table);
        chars::append(out, "]\n");
    }
    assert(out@ =~= old(out)@ + header_lines(current@, setting@));
}

fn write_purpose(setting: &Setting, out: &mut Vec<char>)
    ensures
        final(out)@ == old(out)@ + purpose_lines(setting@),
{
    chars::append(out, "\n# ");
    chars::append(out, setting.doc);
    chars::append(out, "\n");
    if setting.apply == Apply::Restart {
        chars::append(out, "# takes effect on restart\n");
    }
    assert(out@ =~= old(out)@ + purpose_lines(setting@));
}

fn write_range(setting: &Setting, out: &mut Vec<char>)
    ensures
        final(out)@ == old(out)@ + range_line(setting@),
{
    match setting.kind.range() {
        Some(range) => {
            chars::append(out, "# ");
            chars::append(out, setting.kind.kind_name());
            chars::append(out, ": ");
            chars::append(out, range.as_str());
            chars::append(out, "\n");
        },
        None => {},
    }
    assert(out@ =~= old(out)@ + range_line(setting@));
}

fn write_default(leaf: &str, setting: &Setting, out: &mut Vec<char>)
    requires
        leaf@ == leaf_of(setting@.key),
    ensures
        final(out)@ == old(out)@ + default_line(setting@),
{
    chars::append(out, "# ");
    chars::append(out, leaf);
    chars::append(out, " = ");
    let default: Value = setting.kind.default_value();
    match &default {
        Value::Text(value) => {
            chars::append(out, "\"");
            chars::append(out, value.as_str());
            chars::append(out, "\"");
        },
        _ => default.show(out),
    }
    chars::append(out, "\n");
    assert(out@ =~= old(out)@ + default_line(setting@));
}

fn document_row(current: &str, setting: &Setting, out: &mut Vec<char>)
    ensures
        final(out)@ == old(out)@ + documented_row(current@, setting@),
{
    let (table, leaf) = setting.path();
    write_header(current, table.as_str(), setting, out);
    write_purpose(setting, out);
    write_range(setting, out);
    write_default(leaf.as_str(), setting, out);
    assert(out@ =~= old(out)@ + documented_row(current@, setting@));
}

impl Config {
    /// A commented file documenting every setting at its default, generated from
    /// the schema. It gives no values, so it reads as the defaults.
    pub fn default_file() -> (text: String)
        ensures
            text@ == documented_file(schema_rows().len() as int),
            document::only_headers(text@),
    {
        let mut out: Vec<char> = chars::chars_of("# cusk configuration\n");
        chars::append(&mut out, "#\n");
        chars::append(
            &mut out,
            "# Every setting below is shown at its default and commented out.\n",
        );
        chars::append(
            &mut out,
            "# Uncomment a line to change it. Comments and ordering are preserved\n",
        );
        chars::append(&mut out, "# when the settings GUI writes to this file.\n");
        assert(out@ =~= preamble());
        let settings: Vec<Setting> = schema();
        let mut current: String = String::new();
        assert(current@ =~= section_before(0));
        for i in 0..settings.len()
            invariant
                settings@.len() == schema_rows().len(),
                rows_of(settings@) == schema_rows(),
                current@ == section_before(i as int),
                out@ == documented_file(i as int),
        {
            assert(rows_of(settings@)[i as int] == settings@[i as int]@);
            document_row(current.as_str(), &settings[i], &mut out);
            let (table, _) = settings[i].path();
            current = table;
        }
        proof {
            template::the_generated_file_gives_no_values();
        }
        chars::text_of(&out)
    }
}

/// Terminals that can be launched, in order of preference: the choices of their
/// setting, without the one that leaves the choice open.
pub fn known_terminals() -> (names: Vec<&'static str>)
    ensures
        row_index("commands.terminal"@) is Some,
        strs(names@) == schema_rows()[row_index(
            "commands.terminal"@,
        )->Some_0].rule->options.filter(|name: Seq<char>| name != "auto"@),
{
    let mut names: Vec<&'static str> = Vec::new();
    proof {
        every_key_names_its_setting(19);
    }
    let ghost listed = |name: Seq<char>| name != "auto"@;
    match Config::setting("commands.terminal") {
        Some(setting) => match &setting.kind {
            Kind::Choice { options, .. } => {
                let ghost all = strs(options@);
                reveal(Seq::filter);
                assert(strs(names@) =~= all.take(0).filter(listed));
                for i in 0..options.len()
                    invariant
                        all == strs(options@),
                        listed == (|name: Seq<char>| name != "auto"@),
                        strs(names@) == all.take(i as int).filter(listed),
                {
                    let ghost before = strs(names@);
                    reveal(Seq::filter);
                    assert(all.take(i + 1).drop_last() =~= all.take(i as int));
                    assert(all.take(i + 1).last() == options@[i as int]@);
                    if !chars::equal(options[i], "auto") {
                        names.push(options[i]);
                        assert(strs(names@) =~= before.push(options@[i as int]@));
                    }
                }
                assert(all.take(all.len() as int) =~= all);
            },
            _ => {},
        },
        None => {},
    }
    names
}

/// Where the configuration lives, from the values of `XDG_CONFIG_HOME` and
/// `HOME`.
pub fn default_path(config_home: Option<&str>, home: Option<&str>) -> (path: String)
    ensures
        path@ == entry::below(
            entry::below(
                match (config_home, home) {
                    (Some(dir), _) => dir@,
                    (None, Some(home)) => entry::below(home@, ".config"@),
                    (None, None) => ".config"@,
                },
                "cusk"@,
            ),
            "cusk.toml"@,
        ),
{
    let base: Vec<char> = match config_home {
        Some(dir) => chars::chars_of(dir),
        None => match home {
            Some(home) => {
                let home: Vec<char> = chars::chars_of(home);
                entry::path_below(&home, ".config")
            },
            None => chars::chars_of(".config"),
        },
    };
    let dir: Vec<char> = entry::path_below(&base, "cusk");
    chars::text_of(&entry::path_below(&dir, "cusk.toml"))
}

/// The sections of the first `n` settings, each where it first appears.
pub open spec fn section_names(n: int) -> Seq<Seq<char>>
    decreases n,
{
    if n <= 0 {
        Seq::empty()
    } else {
        let before = section_names(n - 1);
        let table = table_of(schema_rows()[n - 1].key);
        if before.contains(table) {
            before
        } else {
            before.push(table)
        }
    }
}

/// The sections settings are grouped under, in the order the schema declares
/// them: that order is a choice about what a reader meets first.
pub fn sections() -> (names: Vec<String>)
    ensures
        chars::views(names@) == section_names(schema_rows().len() as int),
{
    let settings: Vec<Setting> = schema();
    let mut names: Vec<String> = Vec::new();
    assert(chars::views(names@) =~= section_names(0));
    for i in 0..settings.len()
        invariant
            settings@.len() == schema_rows().len(),
            rows_of(settings@) == schema_rows(),
            chars::views(names@) == section_names(i as int),
    {
        assert(rows_of(settings@)[i as int] == settings@[i as int]@);
        let ghost before = chars::views(names@);
        let (table, _) = settings[i].path();
        let ghost name = table@;
        let mut known: bool = false;
        for k in 0..names.len()
            invariant
                before == chars::views(names@),
                name == table@,
                known == (exists|j: int| 0 <= j < k && #[trigger] before[j] == name),
        {
            assert(before[k as int] == names@[k as int]@);
            if chars::equal(names[k].as_str(), table.as_str()) {
                known = true;
            }
        }
        assert(known == before.contains(name));
        if !known {
            names.push(table);
            assert(chars::views(names@) =~= before.push(name));
        }
    }
    names
}

/// Whether a setting stands in a section.
pub open spec fn stands_in(row: Row, section: Seq<char>) -> bool {
    table_of(row.key) == section
}

/// The settings in one section, in schema order.
pub fn settings_in(section: &str) -> (list: Vec<Setting>)
    ensures
        rows_of(list@) == schema_rows().filter(|row: Row| stands_in(row, section@)),
{
    let ghost wanted = |row: Row| stands_in(row, section@);
    let mut list: Vec<Setting> = schema();
    let ghost all = schema_rows();
    let mut i: usize = 0;
    let mut n: usize = 0;
    reveal(Seq::filter);
    assert(rows_of(list@) =~= all.take(0).filter(wanted) + all.skip(0));
    while n < SETTING_COUNT
        invariant
            all == schema_rows(),
            all.len() == SETTING_COUNT,
            wanted == (|row: Row| stands_in(row, section@)),
            n <= SETTING_COUNT,
            i == all.take(n as int).filter(wanted).len(),
            rows_of(list@) == all.take(n as int).filter(wanted) + all.skip(n as int),
        decreases SETTING_COUNT - n,
    {
        let ghost kept = all.take(n as int).filter(wanted);
        let ghost before = rows_of(list@);
        reveal(Seq::filter);
        assert(all.take(n + 1).drop_last() =~= all.take(n as int));
        assert(before.len() == kept.len() + all.skip(n as int).len());
        assert(before[i as int] == all[n as int]);
        assert(rows_of(list@)[i as int] == list@[i as int]@);
        let (table, _) = list[i].path();
        if chars::equal(table.as_str(), section) {
            i = i + 1;
            assert(kept.push(all[n as int]) + all.skip(n + 1) =~= kept + all.skip(n as int));
        } else {
            list.remove(i);
            assert(rows_of(list@) =~= before.remove(i as int));
            assert(kept + all.skip(n + 1) =~= before.remove(i as int));
        }
        n = n + 1;
    }
    assert(all.take(all.len() as int) =~= all);
    assert(all.filter(wanted) + all.skip(n as int) =~= all.filter(wanted));
    list
}

/// What a setting's name reads as: the dashes are spaces, and the first letter
/// is a capital.
pub open spec fn label(leaf: Seq<char>) -> Seq<char> {
    Seq::new(
        leaf.len(),
        |i: int|
            if leaf[i] == '-' {
                ' '
            } else if i == 0 && 'a' <= leaf[i] <= 'z' {
                ((leaf[i] as u32 - 32) as u32) as char
            } else {
                leaf[i]
            },
    )
}

/// The leaf name, formatted for display: `master-ratio` becomes `Master ratio`.
pub fn label_of(setting: &Setting) -> (text: String)
    ensures
        text@ == label(leaf_of(setting@.key)),
{
    let (_, leaf) = setting.path();
    let leaf: Vec<char> = chars::chars_of(leaf.as_str());
    let mut out: Vec<char> = Vec::new();
    for i in 0..leaf.len()
        invariant
            leaf@ == leaf_of(setting@.key),
            out@ == label(leaf@).take(i as int),
    {
        let c: char = leaf[i];
        let written: char = if c == '-' {
            ' '
        } else if i == 0 && 'a' <= c && c <= 'z' {
            ((c as u8) - 32) as char
        } else {
            c
        };
        out.push(written);
        assert(label(leaf@).take(i + 1) =~= label(leaf@).take(i as int).push(written));
    }
    assert(label(leaf@).take(leaf@.len() as int) =~= label(leaf@));
    chars::text_of(&out)
}

/// Whether two values are the same: numbers by what they are, not by how they
/// are written.
pub open spec fn agree(a: Meaning, b: Meaning) -> bool {
    match (a, b) {
        (Meaning::Float(a, _), Meaning::Float(b, _)) => a.same(b),
        _ => a == b,
    }
}

/// Whether two configurations are the same: numbers by what they are, not by how
/// they are written.
pub open spec fn all_agree(a: Seq<Meaning>, b: Seq<Meaning>) -> bool {
    a.len() == b.len() && forall|i: int| 0 <= i < a.len() ==> agree(#[trigger] a[i], b[i])
}

fn same_value(a: &Value, b: &Value) -> (same: bool)
    ensures
        same == agree(a@, b@),
{
    match (a, b) {
        (Value::Int(a), Value::Int(b)) => *a == *b,
        (Value::Float(a), Value::Float(b)) => a.number.equals(b.number),
        (Value::Bool(a), Value::Bool(b)) => *a == *b,
        (Value::Text(a), Value::Text(b)) => chars::equal(a.as_str(), b.as_str()),
        _ => false,
    }
}

/// The keys among the first `n` settings that only apply at startup and have
/// changed.
pub open spec fn pending_keys(old_values: Seq<Meaning>, new_values: Seq<Meaning>, n: int) -> Seq<
    Seq<char>,
>
    decreases n,
{
    if n <= 0 {
        Seq::empty()
    } else {
        let before = pending_keys(old_values, new_values, n - 1);
        let row = schema_rows()[n - 1];
        if row.apply == Apply::Restart && !agree(old_values[n - 1], new_values[n - 1]) {
            before.push(row.key)
        } else {
            before
        }
    }
}

/// Settings that differ between two configurations and only apply at startup.
pub fn restart_only_changes(old: &Config, new: &Config) -> (keys: Vec<&'static str>)
    ensures
        strs(keys@) == pending_keys(old@, new@, schema_rows().len() as int),
{
    let settings: Vec<Setting> = schema();
    let mut keys: Vec<&'static str> = Vec::new();
    assert(strs(keys@) =~= pending_keys(old@, new@, 0));
    for i in 0..settings.len()
        invariant
            settings@.len() == SETTING_COUNT,
            schema_rows().len() == SETTING_COUNT,
            rows_of(settings@) == schema_rows(),
            strs(keys@) == pending_keys(old@, new@, i as int),
    {
        assert(rows_of(settings@)[i as int] == settings@[i as int]@);
        let ghost before = strs(keys@);
        if settings[i].apply == Apply::Restart && !same_value(&old.field(i), &new.field(i)) {
            keys.push(settings[i].key);
            assert(strs(keys@) =~= before.push(settings@[i as int].key@));
        }
    }
    keys
}

/// A cheap fingerprint of the file, for detecting edits.
///
/// The time of modification alone is not enough: some filesystems keep it to the
/// second, and two saves within one are what happens when someone tries out a
/// setting. Length and inode tell the common cases apart.
#[derive(Debug, Clone, Copy, PartialEq, Eq, Structural)]
pub struct Stamp {
    /// In nanoseconds, where the filesystem tells.
    pub modified: Option<i128>,
    pub len: u64,
    pub inode: u64,
}

/// What a reload attempt produced.
#[derive(Debug)]
pub enum Reload {
    /// The file has not changed since the last look.
    Unchanged,
    /// A new configuration, with anything the file got wrong.
    Applied { config: Config, complaints: Vec<Complaint> },
    /// The file could not be read or parsed. The previous configuration stands.
    Failed(String),
}

/// How long a look at the file is good for, in nanoseconds.
pub const INTERVAL: u64 = 500_000_000;

/// Watches the configuration file and has it read again when it changes.
///
/// It polls: editors mostly save by renaming a new file over the old one, which
/// replaces the inode and silences a watch on it.
#[derive(Debug)]
pub struct Watcher {
    path: String,
    stamp: Option<Stamp>,
    last_checked: u64,
}

/// A watcher, as a mathematical value.
pub struct Watch {
    pub path: Seq<char>,
    pub stamp: Option<Stamp>,
    pub last_checked: u64,
}

impl View for Watcher {
    type V = Watch;

    closed spec fn view(&self) -> Watch {
        Watch { path: self.path@, stamp: self.stamp, last_checked: self.last_checked }
    }
}

impl Watcher {
    /// Watch a file that now, at a time in nanoseconds, has this fingerprint.
    pub fn new(path: String, stamp: Option<Stamp>, now: u64) -> (watcher: Watcher)
        ensures
            watcher@ == (Watch { path: path@, stamp, last_checked: now }),
    {
        Watcher { path, stamp, last_checked: now }
    }

    pub fn path(&self) -> (path: &str)
        ensures
            path@ == self@.path,
    {
        self.path.as_str()
    }

    /// Whether it is time for another look. Safe to call every frame: the rate
    /// limit is inside.
    pub fn poll(&mut self, now: u64) -> (due: bool)
        ensures
            due == (now - old(self)@.last_checked >= INTERVAL),
            final(self)@ == (Watch {
                last_checked: if due {
                    now
                } else {
                    old(self)@.last_checked
                },
                ..old(self)@
            }),
    {
        if now < self.last_checked || now - self.last_checked < INTERVAL {
            return false;
        }
        self.last_checked = now;
        true
    }

    /// Accept the file as it is now, without reporting it as a change: for a
    /// program that writes the file it is watching.
    pub fn resync(&mut self, stamp: Option<Stamp>)
        ensures
            final(self)@ == (Watch { stamp, ..old(self)@ }),
    {
        self.stamp = stamp;
    }

    /// Whether the file, which now has this fingerprint, is to be read again. A
    /// file that is gone is not: what is running stays until it comes back.
    pub fn check_now(&mut self, stamp: Option<Stamp>) -> (changed: bool)
        ensures
            changed == (stamp is Some && stamp != old(self)@.stamp),
            final(self)@ == (Watch {
                stamp: if changed {
                    stamp
                } else {
                    old(self)@.stamp
                },
                ..old(self)@
            }),
    {
        match (stamp, self.stamp) {
            (None, _) => false,
            (Some(stamp), Some(known)) => {
                if stamp == known {
                    false
                } else {
                    self.stamp = Some(stamp);
                    true
                }
            },
            (Some(stamp), None) => {
                self.stamp = Some(stamp);
                true
            },
        }
    }
}

/// What to make of a changed file: of its text, or of why it could not be read.
/// A file that is no document is not an instruction to fall back to the
/// defaults: editors save half-written files.
pub fn reload(read: Result<String, String>) -> (outcome: Reload)
    ensures
        match read {
            Err(message) => outcome matches Reload::Failed(told) && told@ == message@,
            Ok(text) => match document::parsed(text@) {
                Err(message) => outcome matches Reload::Failed(told) && told@ == message,
                Ok(sections) => outcome matches Reload::Applied { config, complaints } && config@
                    == settled(sections) && complaint_views(complaints@) == complaints_of(
                    sections,
                ),
            },
        },
{
    match read {
        Err(message) => Reload::Failed(message),
        Ok(text) => match Config::from_str(text.as_str()) {
            Ok((config, complaints)) => Reload::Applied { config, complaints },
            Err(message) => Reload::Failed(message),
        },
    }
}

/// Every key has a section, and is that section, a dot and a name.
pub proof fn every_key_is_sectioned(i: int)
    requires
        0 <= i < schema_rows().len(),
    ensures
        table_of(schema_rows()[i].key).len() > 0,
        joined_key(table_of(schema_rows()[i].key), leaf_of(schema_rows()[i].key))
            == schema_rows()[i].key,
{
    reveal_strlit("layout.inner-gap");
    reveal_strlit("layout.outer-gap");
    reveal_strlit("layout.master-ratio");
    reveal_strlit("layout.default");
    reveal_strlit("layout.tile-by-default");
    reveal_strlit("workspaces.count");
    reveal_strlit("input.mod-key");
    reveal_strlit("input.focus-follows-mouse");
    reveal_strlit("appearance.wallpaper");
    reveal_strlit("appearance.blur");
    reveal_strlit("appearance.blur-radius");
    reveal_strlit("appearance.font");
    reveal_strlit("appearance.panel-height");
    reveal_strlit("appearance.window-opacity");
    reveal_strlit("appearance.window-blur");
    reveal_strlit("appearance.corner-radius");
    reveal_strlit("appearance.focus-ring");
    reveal_strlit("appearance.blur-passes");
    reveal_strlit("commands.launcher");
    reveal_strlit("commands.terminal");
    reveal_strlit(".");
    let rows = schema_rows();
    assert(rows[0].key[6] == '.' && rows[0].key[0] != '.' && rows[0].key.len() == 16);
    assert(rows[1].key[6] == '.' && rows[1].key[0] != '.' && rows[1].key.len() == 16);
    assert(rows[2].key[6] == '.' && rows[2].key[0] != '.' && rows[2].key.len() == 19);
    assert(rows[3].key[6] == '.' && rows[3].key[0] != '.' && rows[3].key.len() == 14);
    assert(rows[4].key[6] == '.' && rows[4].key[0] != '.' && rows[4].key.len() == 22);
    assert(rows[5].key[10] == '.' && rows[5].key[0] != '.' && rows[5].key.len() == 16);
    assert(rows[6].key[5] == '.' && rows[6].key[0] != '.' && rows[6].key.len() == 13);
    assert(rows[7].key[5] == '.' && rows[7].key[0] != '.' && rows[7].key.len() == 25);
    assert(rows[8].key[10] == '.' && rows[8].key[0] != '.' && rows[8].key.len() == 20);
    assert(rows[9].key[10] == '.' && rows[9].key[0] != '.' && rows[9].key.len() == 15);
    assert(rows[10].key[10] == '.' && rows[10].key[0] != '.' && rows[10].key.len() == 22);
    assert(rows[11].key[10] == '.' && rows[11].key[0] != '.' && rows[11].key.len() == 15);
    assert(rows[12].key[10] == '.' && rows[12].key[0] != '.' && rows[12].key.len() == 23);
    assert(rows[13].key[10] == '.' && rows[13].key[0] != '.' && rows[13].key.len() == 25);
    assert(rows[14].key[10] == '.' && rows[14].key[0] != '.' && rows[14].key.len() == 22);
    assert(rows[15].key[10] == '.' && rows[15].key[0] != '.' && rows[15].key.len() == 24);
    assert(rows[16].key[10] == '.' && rows[16].key[0] != '.' && rows[16].key.len() == 21);
    assert(rows[17].key[10] == '.' && rows[17].key[0] != '.' && rows[17].key.len() == 22);
    assert(rows[18].key[8] == '.' && rows[18].key[0] != '.' && rows[18].key.len() == 17);
    assert(rows[19].key[8] == '.' && rows[19].key[0] != '.' && rows[19].key.len() == 17);
    let key = rows[i].key;
    assert(key.contains('.')) by {
        assert(rows[i].key[5] == '.' || rows[i].key[6] == '.' || rows[i].key[8] == '.' || rows[i].key[10] == '.');
    }
    let dot = choose|dot: int| 0 <= dot < key.len() && key[dot] == '.';
    chars::lemma_next_index(key, '.', 0);
    assert(chars::next_index(key, '.', 0) < key.len());
    assert(joined_key(table_of(key), leaf_of(key)) =~= key);
}

/// A document that holds nothing leaves every setting at its default, and
/// nothing to complain about.
pub proof fn an_empty_document_is_the_defaults()
    ensures
        settled(Seq::empty()) == default_values(),
        complaints_of(Seq::empty()) == Seq::<(Seq<char>, Trouble)>::empty(),
{
    let none: Seq<(Seq<char>, Option<Seq<(Seq<char>, Held)>>)> = Seq::empty();
    assert(document::empty_tables(Seq::empty()) =~= none);
    empty_tables_are_the_defaults(Seq::empty());
}

/// Tables that hold nothing leave every setting at its default, and nothing to
/// complain about.
pub proof fn empty_tables_are_the_defaults(names: Seq<Seq<char>>)
    ensures
        settled(document::empty_tables(names)) == default_values(),
        complaints_of(document::empty_tables(names)) == Seq::<(Seq<char>, Trouble)>::empty(),
{
    let sections = document::empty_tables(names);
    assert forall|table: Seq<char>, leaf: Seq<char>| #[trigger]
        document::held_at(sections, table, leaf) is None by {
        document::lemma_place_from(sections, table, 0);
    }
    assert(settled(sections) =~= default_values());
    lemma_no_objections(sections, schema_rows().len() as int);
    lemma_no_strays(names, names.len() as int);
    assert(complaints_of(sections) =~= Seq::<(Seq<char>, Trouble)>::empty());
}

/// Documents that are alike give every setting the same value, and the same to
/// complain about.
pub proof fn alike_documents_settle_the_same(
    a: Seq<(Seq<char>, Option<Seq<(Seq<char>, Held)>>)>,
    b: Seq<(Seq<char>, Option<Seq<(Seq<char>, Held)>>)>,
)
    requires
        document::alike(a, b),
    ensures
        all_agree(settled(a), settled(b)),
        complaints_of(a) == complaints_of(b),
{
    assert forall|i: int| 0 <= i < settled(a).len() implies agree(
        #[trigger] settled(a)[i],
        settled(b)[i],
    ) by {
        lemma_alike_readings(a, b, i);
    }
    lemma_alike_objections(a, b, schema_rows().len() as int);
    lemma_alike_strays(a, b, a.len() as int);
}

proof fn lemma_alike_readings(
    a: Seq<(Seq<char>, Option<Seq<(Seq<char>, Held)>>)>,
    b: Seq<(Seq<char>, Option<Seq<(Seq<char>, Held)>>)>,
    i: int,
)
    requires
        document::alike(a, b),
        0 <= i < schema_rows().len(),
    ensures
        ({
            let row = schema_rows()[i];
            &&& agree(settled_at(a, row), settled_at(b, row))
            &&& match (reading(a, row), reading(b, row)) {
                (Some(Err(a)), Some(Err(b))) => a == b,
                (a, b) => !(a matches Some(Err(_))) && !(b matches Some(Err(_))),
            }
        }),
{
    let row = schema_rows()[i];
    document::alike_documents_hold_the_same(a, b, table_of(row.key), leaf_of(row.key));
    every_default_satisfies_its_rule(i);
}

proof fn lemma_alike_objections(
    a: Seq<(Seq<char>, Option<Seq<(Seq<char>, Held)>>)>,
    b: Seq<(Seq<char>, Option<Seq<(Seq<char>, Held)>>)>,
    n: int,
)
    requires
        document::alike(a, b),
        0 <= n <= schema_rows().len(),
    ensures
        objections(a, n) == objections(b, n),
    decreases n,
{
    if n > 0 {
        lemma_alike_objections(a, b, n - 1);
        lemma_alike_readings(a, b, n - 1);
    }
}

proof fn lemma_alike_entries(
    table: Seq<char>,
    a: Seq<(Seq<char>, Held)>,
    b: Seq<(Seq<char>, Held)>,
    n: int,
)
    requires
        document::same_entries(a, b),
        0 <= n <= a.len(),
    ensures
        stray_entries(table, a, n) == stray_entries(table, b, n),
    decreases n,
{
    if n > 0 {
        lemma_alike_entries(table, a, b, n - 1);
        assert(a[n - 1].0 == b[n - 1].0);
    }
}

proof fn lemma_alike_strays(
    a: Seq<(Seq<char>, Option<Seq<(Seq<char>, Held)>>)>,
    b: Seq<(Seq<char>, Option<Seq<(Seq<char>, Held)>>)>,
    n: int,
)
    requires
        document::alike(a, b),
        0 <= n <= a.len(),
    ensures
        strays(a, n) == strays(b, n),
    decreases n,
{
    if n > 0 {
        lemma_alike_strays(a, b, n - 1);
        assert(a[n - 1].0 == b[n - 1].0);
        if a[n - 1].1 is Some {
            let (ours, theirs) = (a[n - 1].1->Some_0, b[n - 1].1->Some_0);
            lemma_alike_entries(a[n - 1].0, ours, theirs, ours.len() as int);
        }
    }
}

proof fn lemma_no_objections(
    sections: Seq<(Seq<char>, Option<Seq<(Seq<char>, Held)>>)>,
    n: int,
)
    requires
        forall|table: Seq<char>, leaf: Seq<char>| #[trigger]
            document::held_at(sections, table, leaf) is None,
    ensures
        objections(sections, n) == Seq::<(Seq<char>, Trouble)>::empty(),
    decreases n,
{
    if n > 0 {
        lemma_no_objections(sections, n - 1);
    }
}

proof fn lemma_no_strays(names: Seq<Seq<char>>, n: int)
    requires
        n <= names.len(),
    ensures
        strays(document::empty_tables(names), n) == Seq::<(Seq<char>, Trouble)>::empty(),
    decreases n,
{
    if n > 0 {
        lemma_no_strays(names, n - 1);
        let table = document::empty_tables(names)[n - 1];
        assert(stray_entries(table.0, table.1->Some_0, 0) =~= Seq::<(Seq<char>, Trouble)>::empty());
        assert(strays(document::empty_tables(names), n) =~= Seq::<(Seq<char>, Trouble)>::empty());
    }
}

/// A value that does not fit leaves its own setting at its default, and is
/// reported; every other setting is what it is in any document that says the
/// same of it.
pub proof fn a_bad_value_costs_only_its_own_setting(
    sections: Seq<(Seq<char>, Option<Seq<(Seq<char>, Held)>>)>,
    others: Seq<(Seq<char>, Option<Seq<(Seq<char>, Held)>>)>,
    bad: int,
    i: int,
)
    requires
        0 <= bad < schema_rows().len(),
        0 <= i < schema_rows().len(),
        reading(sections, schema_rows()[bad]) matches Some(Err(_)),
        i != bad ==> document::held_at(
            sections,
            table_of(schema_rows()[i].key),
            leaf_of(schema_rows()[i].key),
        ) == document::held_at(
            others,
            table_of(schema_rows()[i].key),
            leaf_of(schema_rows()[i].key),
        ),
    ensures
        settled(sections)[bad] == default_values()[bad],
        complaints_of(sections).contains(
            (schema_rows()[bad].key, reading(sections, schema_rows()[bad])->Some_0->Err_0),
        ),
        i != bad ==> settled(sections)[i] == settled(others)[i],
{
    let complaint = (
        schema_rows()[bad].key,
        reading(sections, schema_rows()[bad])->Some_0->Err_0,
    );
    lemma_objects(sections, bad, schema_rows().len() as int);
    let objected = objections(sections, schema_rows().len() as int);
    let k = choose|k: int| 0 <= k < objected.len() && objected[k] == complaint;
    assert(complaints_of(sections)[k] == complaint);
}

proof fn lemma_objects(
    sections: Seq<(Seq<char>, Option<Seq<(Seq<char>, Held)>>)>,
    bad: int,
    n: int,
)
    requires
        0 <= bad < n <= schema_rows().len(),
        reading(sections, schema_rows()[bad]) matches Some(Err(_)),
    ensures
        objections(sections, n).contains(
            (schema_rows()[bad].key, reading(sections, schema_rows()[bad])->Some_0->Err_0),
        ),
    decreases n,
{
    let complaint = (
        schema_rows()[bad].key,
        reading(sections, schema_rows()[bad])->Some_0->Err_0,
    );
    let now = objections(sections, n);
    if bad == n - 1 {
        assert(now.last() == complaint);
    } else {
        lemma_objects(sections, bad, n - 1);
        let before = objections(sections, n - 1);
        let k = choose|k: int| 0 <= k < before.len() && before[k] == complaint;
        assert(now[k] == complaint);
    }
}

/// A key that names no setting is reported.
pub proof fn an_unknown_key_is_reported(
    sections: Seq<(Seq<char>, Option<Seq<(Seq<char>, Held)>>)>,
    i: int,
    k: int,
)
    requires
        0 <= i < sections.len(),
        sections[i].1 is Some,
        0 <= k < sections[i].1->Some_0.len(),
        row_index(joined_key(sections[i].0, sections[i].1->Some_0[k].0)) is None,
    ensures
        complaints_of(sections).contains(
            (joined_key(sections[i].0, sections[i].1->Some_0[k].0), Trouble::UnknownKey),
        ),
{
    let complaint = (
        joined_key(sections[i].0, sections[i].1->Some_0[k].0),
        Trouble::UnknownKey,
    );
    lemma_stray(sections, i, k, sections.len() as int);
    let found = strays(sections, sections.len() as int);
    let at = choose|at: int| 0 <= at < found.len() && found[at] == complaint;
    assert(complaints_of(sections)[objections(sections, schema_rows().len() as int).len() + at]
        == complaint);
}

proof fn lemma_stray_entry(table: Seq<char>, entries: Seq<(Seq<char>, Held)>, k: int, n: int)
    requires
        0 <= k < n <= entries.len(),
        row_index(joined_key(table, entries[k].0)) is None,
    ensures
        stray_entries(table, entries, n).contains(
            (joined_key(table, entries[k].0), Trouble::UnknownKey),
        ),
    decreases n,
{
    let complaint = (joined_key(table, entries[k].0), Trouble::UnknownKey);
    let now = stray_entries(table, entries, n);
    if k == n - 1 {
        assert(now.last() == complaint);
    } else {
        lemma_stray_entry(table, entries, k, n - 1);
        let before = stray_entries(table, entries, n - 1);
        let at = choose|at: int| 0 <= at < before.len() && before[at] == complaint;
        assert(now[at] == complaint);
    }
}

proof fn lemma_stray(
    sections: Seq<(Seq<char>, Option<Seq<(Seq<char>, Held)>>)>,
    i: int,
    k: int,
    n: int,
)
    requires
        0 <= i < n <= sections.len(),
        sections[i].1 is Some,
        0 <= k < sections[i].1->Some_0.len(),
        row_index(joined_key(sections[i].0, sections[i].1->Some_0[k].0)) is None,
    ensures
        strays(sections, n).contains(
            (joined_key(sections[i].0, sections[i].1->Some_0[k].0), Trouble::UnknownKey),
        ),
    decreases n,
{
    let entries = sections[i].1->Some_0;
    let complaint = (joined_key(sections[i].0, entries[k].0), Trouble::UnknownKey);
    let before = strays(sections, n - 1);
    let now = strays(sections, n);
    if i == n - 1 {
        lemma_stray_entry(sections[i].0, entries, k, entries.len() as int);
        let more = stray_entries(sections[i].0, entries, entries.len() as int);
        let at = choose|at: int| 0 <= at < more.len() && more[at] == complaint;
        assert(now[before.len() + at] == complaint);
    } else {
        lemma_stray(sections, i, k, n - 1);
        let at = choose|at: int| 0 <= at < before.len() && before[at] == complaint;
        assert(now[at] == complaint);
    }
}

/// A whole number in a document is taken as it is written or not at all.
pub proof fn a_whole_number_is_taken_as_written(i: int, v: i64)
    requires
        0 <= i < schema_rows().len(),
        checked(schema_rows()[i].rule, meaning_of(Held::Integer(v))->Some_0) is Ok,
    ensures
        meaning_of(Held::Integer(v)) == Some(Meaning::Int(v as int)),
{
    if v < i32::MIN || i32::MAX < v {
        let rule = schema_rows()[i].rule;
        let far = utils::saturated(v as int);
        assert(rule is Int || rule is Float);
        if rule is Float {
            lemma_far_number(far);
        }
    }
}

proof fn lemma_far_number(v: int)
    requires
        v == i32::MIN || v == i32::MAX,
    ensures
        ({
            let n = widened(v)->Float_0;
            if v < 0 {
                n.less(Number { bits: 0 })
            } else {
                Number { bits: 0x3ff0_0000_0000_0000 }.less(n)
            }
        }),
{
    let one = Number { bits: 0x3ff0_0000_0000_0000 };
    let zero = Number { bits: 0 };
    vstd::arithmetic::power2::lemma2_to64();
    vstd::arithmetic::power2::lemma2_to64_rest();
    // 2 to the power of 31, and one less than that.
    let most = Number { bits: 0x41df_ffff_ffc0_0000 };
    let least = Number { bits: 0xc1e0_0000_0000_0000 };
    assert(most.is_fraction(i32::MAX as int, 0)) by {
        let e: int = 30;
        assert(0x7fff_ffff * pow2((52 - e) as nat) == 0x1f_ffff_ffc0_0000);
    }
    assert(least.is_fraction(i32::MIN as int, 0)) by {
        let e: int = 31;
        assert(0x8000_0000 * pow2((52 - e) as nat) == 0x10_0000_0000_0000);
    }
    let n = widened(v)->Float_0;
    let known = if v < 0 {
        least
    } else {
        most
    };
    number::whole_numbers_keep_their_order(n, v, known, v, 0);
}

/// A setting that was written into a document is read back from it, and every
/// other setting is read as before.
pub proof fn a_written_setting_is_read_back(
    before: Seq<(Seq<char>, Option<Seq<(Seq<char>, Held)>>)>,
    after: Seq<(Seq<char>, Option<Seq<(Seq<char>, Held)>>)>,
    key: Seq<char>,
    m: Meaning,
    i: int,
)
    requires
        document::well_formed(before),
        has_range(m),
        edit(before, key, m) is Ok,
        document::value_set(
            before,
            after,
            table_of(key),
            leaf_of(key),
            held_of(edit(before, key, m)->Ok_0),
        ),
        0 <= i < schema_rows().len(),
    ensures
        settled(after)[i] == if schema_rows()[i].key == key {
            edit(before, key, m)->Ok_0
        } else {
            settled(before)[i]
        },
{
    lemma_row_key(key, 0);
    let edited = row_index(key)->Some_0;
    let fit = edit(before, key, m)->Ok_0;
    let row = schema_rows()[i];
    every_key_is_sectioned(edited);
    every_key_is_sectioned(i);
    document::what_is_set_is_read_back(
        before,
        after,
        table_of(key),
        leaf_of(key),
        held_of(fit),
        table_of(row.key),
        leaf_of(row.key),
    );
    if row.key == key {
        if i < edited {
            keys_are_unique(i, edited);
        } else if edited < i {
            keys_are_unique(edited, i);
        }
        an_accepted_value_stays_acceptable(row.rule, m);
        assert(meaning_of(held_of(fit)) == Some(fit));
    }
}

/// Whether a value is one that a setting can be given: a whole number is an
/// `i32`.
pub open spec fn has_range(m: Meaning) -> bool {
    m matches Meaning::Int(v) ==> i32::MIN <= v <= i32::MAX
}

/// Every setting stands in exactly one of the sections, and no section is listed
/// twice.
pub proof fn every_setting_stands_in_one_section(i: int)
    requires
        0 <= i < schema_rows().len(),
    ensures
        exists|k: int|
            0 <= k < section_names(schema_rows().len() as int).len() && stands_in(
                schema_rows()[i],
                #[trigger] section_names(schema_rows().len() as int)[k],
            ),
        forall|k: int, j: int|
            0 <= k < j < section_names(schema_rows().len() as int).len()
                ==> #[trigger] section_names(schema_rows().len() as int)[k]
                != #[trigger] section_names(schema_rows().len() as int)[j],
{
    lemma_sections(i, schema_rows().len() as int);
    lemma_sections_differ(schema_rows().len() as int);
}

proof fn lemma_sections(i: int, n: int)
    requires
        0 <= i < n <= schema_rows().len(),
    ensures
        section_names(n).contains(table_of(schema_rows()[i].key)),
    decreases n,
{
    let table = table_of(schema_rows()[i].key);
    let before = section_names(n - 1);
    if i == n - 1 {
        if !before.contains(table) {
            assert(section_names(n).last() == table);
        }
    } else {
        lemma_sections(i, n - 1);
        let k = choose|k: int| 0 <= k < before.len() && before[k] == table;
        assert(section_names(n)[k] == table);
    }
}

proof fn lemma_sections_differ(n: int)
    requires
        0 <= n <= schema_rows().len(),
    ensures
        forall|k: int, j: int|
            0 <= k < j < section_names(n).len() ==> #[trigger] section_names(n)[k]
                != #[trigger] section_names(n)[j],
    decreases n,
{
    if n > 0 {
        lemma_sections_differ(n - 1);
        let before = section_names(n - 1);
        let now = section_names(n);
        assert forall|k: int, j: int| 0 <= k < j < now.len() implies #[trigger] now[k]
            != #[trigger] now[j] by {
            assert(now[k] == before[k]);
            if j < before.len() {
                assert(now[j] == before[j]);
            } else {
                assert(before.contains(before[k]));
            }
        }
    }
}

/// A value is accepted where it is of its setting's kind and within its bounds,
/// and is then taken as it is, never moved to a bound: a whole number from the
/// least to the greatest, a number in the same way, any text, and one of the
/// options of a choice.
pub proof fn a_value_is_accepted_within_its_bounds(rule: Rule, v: int, text: Seq<char>, b: bool)
    ensures
        rule matches Rule::Int { min, max, .. } ==> {
            &&& min <= v <= max ==> checked(rule, Meaning::Int(v)) == Ok::<Meaning, Trouble>(
                Meaning::Int(v),
            )
            &&& !(min <= v <= max) ==> checked(rule, Meaning::Int(v)) is Err && checked(
                rule,
                Meaning::Int(v),
            )->Err_0 is OutOfRange
            &&& checked(rule, Meaning::Text(text)) matches Err(trouble) && trouble is WrongType
            &&& checked(rule, Meaning::Bool(b)) matches Err(trouble) && trouble is WrongType
        },
        rule is Bool ==> checked(rule, Meaning::Bool(b)) == Ok::<Meaning, Trouble>(
            Meaning::Bool(b),
        ) && checked(rule, Meaning::Int(v)) is Err,
        rule is Text ==> checked(rule, Meaning::Text(text)) == Ok::<Meaning, Trouble>(
            Meaning::Text(text),
        ) && checked(rule, Meaning::Int(v)) is Err,
        rule matches Rule::Choice { options, .. } ==> {
            &&& options.contains(text) ==> checked(rule, Meaning::Text(text)) == Ok::<
                Meaning,
                Trouble,
            >(Meaning::Text(text))
            &&& !options.contains(text) ==> checked(rule, Meaning::Text(text)) is Err && checked(
                rule,
                Meaning::Text(text),
            )->Err_0 is OutOfRange
        },
{
}

/// A number is accepted from the least to the greatest and taken as it is; one
/// that is no number never is. A whole number counts as the number it is.
pub proof fn a_number_is_accepted_within_its_bounds(
    rule: Rule,
    n: Number,
    written: Seq<char>,
    v: int,
)
    requires
        rule is Float,
        !rule->Float_min.0.nan(),
        !rule->Float_max.0.nan(),
    ensures
        n.nan() || n.less(rule->Float_min.0) || rule->Float_max.0.less(n) <==> checked(
            rule,
            Meaning::Float(n, written),
        ) is Err,
        checked(rule, Meaning::Float(n, written)) is Ok ==> checked(
            rule,
            Meaning::Float(n, written),
        )->Ok_0 == Meaning::Float(n, written),
        checked(rule, Meaning::Int(v)) == checked(rule, widened(v)),
        checked(rule, Meaning::Bool(true)) is Err,
        checked(rule, Meaning::Text(written)) is Err,
{
}

/// A key is the name of its table, a dot, and the name in it, which may have dots
/// of its own.
pub proof fn a_key_parts_at_its_first_dot(table: Seq<char>, leaf: Seq<char>)
    requires
        !table.contains('.'),
    ensures
        table_of(table + seq!['.'] + leaf) == table,
        leaf_of(table + seq!['.'] + leaf) == leaf,
        table_of(table) == Seq::<char>::empty(),
        leaf_of(table) == table,
{
    let key = table + seq!['.'] + leaf;
    chars::lemma_next_index(table, '.', 0);
    chars::lemma_next_index(key, '.', 0);
    let at = chars::next_index(key, '.', 0);
    assert(key[table.len() as int] == '.');
    if at < table.len() {
        assert(key[at] == table[at]);
        assert(table.contains(table[at]));
    }
    assert(key.subrange(0, at) =~= table);
    assert(key.subrange(at + 1, key.len() as int) =~= leaf);
    if chars::next_index(table, '.', 0) < table.len() {
        assert(table.contains(table[chars::next_index(table, '.', 0)]));
    }
}

/// What waits for a restart is what only a start applies and has changed: every
/// such setting, and no other.
pub proof fn what_has_changed_waits_for_a_restart(
    was: Seq<Meaning>,
    is: Seq<Meaning>,
    n: int,
    key: Seq<char>,
)
    requires
        0 <= n <= schema_rows().len(),
    ensures
        pending_keys(was, is, n).contains(key) <==> exists|i: int|
            0 <= i < n && (#[trigger] schema_rows()[i]).key == key && schema_rows()[i].apply
                == Apply::Restart && !agree(was[i], is[i]),
    decreases n,
{
    if n > 0 {
        what_has_changed_waits_for_a_restart(was, is, n - 1, key);
        let before = pending_keys(was, is, n - 1);
        let row = schema_rows()[n - 1];
        let waits = row.apply == Apply::Restart && !agree(was[n - 1], is[n - 1]);
        let now = pending_keys(was, is, n);
        if waits {
            assert(now == before.push(row.key));
            assert(now[before.len() as int] == row.key);
            if before.contains(key) {
                assert(now[before.index_of(key)] == key);
            }
            if now.contains(key) && key != row.key {
                assert(before[now.index_of(key)] == key);
            }
        }
        if before.contains(key) {
            let i = choose|i: int|
                0 <= i < n - 1 && (#[trigger] schema_rows()[i]).key == key
                    && schema_rows()[i].apply == Apply::Restart && !agree(was[i], is[i]);
            assert(schema_rows()[i].key == key);
        }
    }
}

/// A name is shown with spaces for its dashes and a capital for its first letter,
/// and is otherwise as it is.
pub proof fn a_name_is_shown_as_words(leaf: Seq<char>, i: int)
    requires
        0 <= i < leaf.len(),
    ensures
        label(leaf).len() == leaf.len(),
        !label(leaf).contains('-'),
        leaf[i] == '-' ==> label(leaf)[i] == ' ',
        leaf[i] != '-' && i > 0 ==> label(leaf)[i] == leaf[i],
        i == 0 && 'a' <= leaf[0] <= 'z' ==> 'A' <= label(leaf)[0] <= 'Z' && chars::lower(
            label(leaf)[0],
        ) == leaf[0],
{
    let shown = label(leaf);
    if shown.contains('-') {
        let k = shown.index_of('-');
        assert(shown[k] == '-');
    }
}

} // verus!
