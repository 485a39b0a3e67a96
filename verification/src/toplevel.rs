//! Telling other clients what windows exist.
//!
//! The protocol is not "send the current state" but "send what changed, then
//! `done`". A client that receives a redundant event looks fine, and one that
//! never receives a `done` silently never updates, so what is sent is decided
//! here, apart from the objects that it is sent to.

use vstd::prelude::*;

use crate::chars;

verus! {

/// The four states the protocol can report, in the order of their numbers on
/// the wire.
#[derive(Debug, Clone, Copy, PartialEq, Eq, PartialOrd, Ord, Structural)]
pub enum State {
    Maximized,
    Minimized,
    Activated,
    Fullscreen,
}

/// Outputs are identified by index rather than by a protocol object.
pub type OutputId = usize;

/// A set of states.
#[derive(Debug, Clone, Copy, PartialEq, Eq, Structural)]
pub struct States {
    pub maximized: bool,
    pub minimized: bool,
    pub activated: bool,
    pub fullscreen: bool,
}

impl Default for States {
    fn default() -> (states: States)
        ensures
            forall|s: State| !states.has(s),
    {
        States { maximized: false, minimized: false, activated: false, fullscreen: false }
    }
}

pub open spec fn only_if<A>(wanted: bool, item: A) -> Seq<A> {
    if wanted {
        seq![item]
    } else {
        Seq::empty()
    }
}

impl States {
    pub open spec fn has(self, state: State) -> bool {
        match state {
            State::Maximized => self.maximized,
            State::Minimized => self.minimized,
            State::Activated => self.activated,
            State::Fullscreen => self.fullscreen,
        }
    }

    /// The states of the set, in the order of their numbers.
    pub open spec fn listed(self) -> Seq<State> {
        only_if(self.maximized, State::Maximized) + only_if(self.minimized, State::Minimized)
            + only_if(self.activated, State::Activated) + only_if(
            self.fullscreen,
            State::Fullscreen,
        )
    }

    pub fn insert(&mut self, state: State)
        ensures
            forall|s: State| final(self).has(s) == (old(self).has(s) || s == state),
    {
        match state {
            State::Maximized => {
                self.maximized = true;
            },
            State::Minimized => {
                self.minimized = true;
            },
            State::Activated => {
                self.activated = true;
            },
            State::Fullscreen => {
                self.fullscreen = true;
            },
        }
    }

    /// The set of the states in a list.
    pub fn from_list(list: &[State]) -> (states: States)
        ensures
            forall|s: State| states.has(s) == list@.contains(s),
    {
        let mut states: States = States::default();
        for i in 0..list.len()
            invariant
                forall|s: State| states.has(s) == list@.take(i as int).contains(s),
        {
            let ghost before = list@.take(i as int);
            let ghost after = list@.take(i + 1);
            states.insert(list[i]);
            assert(after =~= before.push(list@[i as int]));
            assert forall|s: State| states.has(s) == after.contains(s) by {
                if before.contains(s) {
                    assert(after[before.index_of(s)] == s);
                }
                if s == list@[i as int] {
                    assert(after[i as int] == s);
                }
                if after.contains(s) && s != list@[i as int] {
                    assert(before[after.index_of(s)] == s);
                }
            }
        }
        assert(list@.take(list@.len() as int) =~= list@);
        states
    }

    pub fn contains(&self, state: State) -> (b: bool)
        ensures
            b == self.has(state),
    {
        match state {
            State::Maximized => self.maximized,
            State::Minimized => self.minimized,
            State::Activated => self.activated,
            State::Fullscreen => self.fullscreen,
        }
    }

    /// The states of the set, in the order of their numbers.
    pub fn list(&self) -> (list: Vec<State>)
        ensures
            list@ == self.listed(),
    {
        let mut list: Vec<State> = Vec::new();
        if self.maximized {
            list.push(State::Maximized);
        }
        if self.minimized {
            list.push(State::Minimized);
        }
        if self.activated {
            list.push(State::Activated);
        }
        if self.fullscreen {
            list.push(State::Fullscreen);
        }
        assert(list@ =~= self.listed());
        list
    }
}

/// A set of outputs, kept in increasing order so that the order in which they
/// were found is not a change.
#[derive(Debug, PartialEq, Eq)]
pub struct Outputs {
    ids: Vec<OutputId>,
}

/// Whether a list is in strictly increasing order.
pub open spec fn increasing(ids: Seq<OutputId>) -> bool {
    forall|i: int, j: int| 0 <= i < j < ids.len() ==> ids[i] < ids[j]
}

impl View for Outputs {
    type V = Seq<OutputId>;

    closed spec fn view(&self) -> Seq<OutputId> {
        self.ids@
    }
}

impl Default for Outputs {
    fn default() -> (outputs: Outputs)
        ensures
            outputs@ == Seq::<OutputId>::empty(),
            increasing(outputs@),
    {
        Outputs { ids: Vec::new() }
    }
}

impl Clone for Outputs {
    fn clone(&self) -> (copy: Outputs)
        ensures
            copy@ == self@,
    {
        let ids: Vec<OutputId> = self.ids.clone();
        assert(ids@ =~= self.ids@);
        Outputs { ids }
    }
}

impl Outputs {
    pub fn insert(&mut self, id: OutputId)
        requires
            increasing(old(self)@),
        ensures
            increasing(final(self)@),
            forall|k: OutputId| final(self)@.contains(k) == (old(self)@.contains(k) || k == id),
    {
        let mut at: usize = 0;
        while at < self.ids.len() && self.ids[at] < id
            invariant
                at <= self.ids@.len(),
                self@ == old(self)@,
                forall|k: int| 0 <= k < at ==> self.ids@[k] < id,
            decreases self.ids@.len() - at,
        {
            at = at + 1;
        }
        let ghost before = self@;
        if at < self.ids.len() && self.ids[at] == id {
            assert(self@[at as int] == id);
            return;
        }
        self.ids.insert(at, id);
        proof {
            let after = self@;
            assert(after == before.insert(at as int, id));
            assert forall|k: OutputId| after.contains(k) == (before.contains(k) || k == id) by {
                if before.contains(k) {
                    let i = before.index_of(k);
                    if i < at {
                        assert(after[i] == k);
                    } else {
                        assert(after[i + 1] == k);
                    }
                }
                if k == id {
                    assert(after[at as int] == k);
                }
                if after.contains(k) && k != id {
                    let i = after.index_of(k);
                    if i < at {
                        assert(before[i] == k);
                    } else {
                        assert(before[i - 1] == k);
                    }
                }
            }
        }
    }

    /// The set of the outputs in a list.
    pub fn from_list(list: &[OutputId]) -> (outputs: Outputs)
        ensures
            increasing(outputs@),
            forall|k: OutputId| outputs@.contains(k) == list@.contains(k),
    {
        let mut outputs: Outputs = Outputs::default();
        for i in 0..list.len()
            invariant
                increasing(outputs@),
                forall|k: OutputId| outputs@.contains(k) == list@.take(i as int).contains(k),
        {
            let ghost before = list@.take(i as int);
            let ghost after = list@.take(i + 1);
            outputs.insert(list[i]);
            assert(after =~= before.push(list@[i as int]));
            assert forall|k: OutputId| outputs@.contains(k) == after.contains(k) by {
                if before.contains(k) {
                    assert(after[before.index_of(k)] == k);
                }
                if k == list@[i as int] {
                    assert(after[i as int] == k);
                }
                if after.contains(k) && k != list@[i as int] {
                    assert(before[after.index_of(k)] == k);
                }
            }
        }
        assert(list@.take(list@.len() as int) =~= list@);
        outputs
    }

    pub fn contains(&self, id: OutputId) -> (b: bool)
        ensures
            b == self@.contains(id),
    {
        for i in 0..self.ids.len()
            invariant
                forall|k: int| 0 <= k < i ==> self.ids@[k] != id,
        {
            if self.ids[i] == id {
                assert(self@[i as int] == id);
                return true;
            }
        }
        false
    }
}

/// Two sets with the same outputs are the same, whatever order they were found
/// in.
pub proof fn output_order_is_not_a_change(a: Seq<OutputId>, b: Seq<OutputId>)
    requires
        increasing(a),
        increasing(b),
        forall|k: OutputId| a.contains(k) == b.contains(k),
    ensures
        a == b,
    decreases a.len() + b.len(),
{
    if a.len() == 0 {
        if b.len() > 0 {
            assert(b.contains(b[0]));
        }
        assert(a =~= b);
    } else if b.len() == 0 {
        assert(a.contains(a[0]));
    } else {
        let (m, n) = (a.len() - 1, b.len() - 1);
        let (x, y) = (a[m], b[n]);
        assert(a.contains(x) && b.contains(y));
        let i = b.index_of(x);
        let j = a.index_of(y);
        assert(x == y);
        let (p, q) = (a.drop_last(), b.drop_last());
        assert forall|k: OutputId| p.contains(k) == q.contains(k) by {
            if p.contains(k) {
                assert(a[p.index_of(k)] == k);
                assert(b.contains(k));
                assert(q[b.index_of(k)] == k);
            }
            if q.contains(k) {
                assert(b[q.index_of(k)] == k);
                assert(a.contains(k));
                assert(p[a.index_of(k)] == k);
            }
        }
        output_order_is_not_a_change(p, q);
        assert(a =~= p.push(x));
        assert(b =~= q.push(y));
    }
}

/// Everything the protocol can say about one window, at one instant.
#[derive(Debug, PartialEq, Eq)]
pub struct Snapshot {
    pub title: String,
    pub app_id: String,
    pub states: States,
    /// Outputs this window is visible on.
    pub outputs: Outputs,
}

/// A snapshot, as a mathematical value.
pub struct Seen {
    pub title: Seq<char>,
    pub app_id: Seq<char>,
    pub states: States,
    pub outputs: Seq<OutputId>,
}

impl View for Snapshot {
    type V = Seen;

    open spec fn view(&self) -> Seen {
        Seen {
            title: self.title@,
            app_id: self.app_id@,
            states: self.states,
            outputs: self.outputs@,
        }
    }
}

impl Default for Snapshot {
    fn default() -> (s: Snapshot)
        ensures
            s@.title == Seq::<char>::empty(),
            s@.app_id == Seq::<char>::empty(),
            s@.outputs == Seq::<OutputId>::empty(),
            forall|state: State| !s@.states.has(state),
    {
        Snapshot {
            title: String::new(),
            app_id: String::new(),
            states: States::default(),
            outputs: Outputs::default(),
        }
    }
}

impl Clone for Snapshot {
    fn clone(&self) -> (copy: Snapshot)
        ensures
            copy@ == self@,
    {
        Snapshot {
            title: self.title.clone(),
            app_id: self.app_id.clone(),
            states: self.states,
            outputs: self.outputs.clone(),
        }
    }
}

/// One protocol event, in the order it must be sent.
#[derive(Debug, Clone, PartialEq, Eq)]
pub enum Event {
    Title(String),
    AppId(String),
    OutputEnter(OutputId),
    OutputLeave(OutputId),
    /// The whole state array, not a delta — the protocol replaces it wholesale.
    State(Vec<State>),
    /// Terminates every burst. Clients are entitled to treat everything before
    /// it as one atomic update.
    Done,
}

/// An event, as a mathematical value.
pub enum Said {
    Title(Seq<char>),
    AppId(Seq<char>),
    OutputEnter(OutputId),
    OutputLeave(OutputId),
    State(Seq<State>),
    Done,
}

impl View for Event {
    type V = Said;

    open spec fn view(&self) -> Said {
        match *self {
            Event::Title(title) => Said::Title(title@),
            Event::AppId(app_id) => Said::AppId(app_id@),
            Event::OutputEnter(output) => Said::OutputEnter(output),
            Event::OutputLeave(output) => Said::OutputLeave(output),
            Event::State(states) => Said::State(states@),
            Event::Done => Said::Done,
        }
    }
}

pub open spec fn said(events: Seq<Event>) -> Seq<Said> {
    Seq::new(events.len(), |i: int| events[i]@)
}

/// The outputs of `a` that are not in `b`.
pub open spec fn beyond(a: Seq<OutputId>, b: Seq<OutputId>) -> Seq<OutputId> {
    a.filter(|output: OutputId| !b.contains(output))
}

pub open spec fn enters(outputs: Seq<OutputId>) -> Seq<Said> {
    Seq::new(outputs.len(), |i: int| Said::OutputEnter(outputs[i]))
}

pub open spec fn leaves(outputs: Seq<OutputId>) -> Seq<Said> {
    Seq::new(outputs.len(), |i: int| Said::OutputLeave(outputs[i]))
}

/// What a client has to be told, without the event that ends it: everything,
/// where it knows nothing yet, and else what has changed. An output is left
/// before another is entered, so that a window never claims to be on both.
pub open spec fn news(prev: Option<Seen>, next: Seen) -> Seq<Said> {
    match prev {
        None => seq![Said::Title(next.title), Said::AppId(next.app_id)] + enters(next.outputs)
            + seq![Said::State(next.states.listed())],
        Some(prev) => only_if(prev.title != next.title, Said::Title(next.title)) + only_if(
            prev.app_id != next.app_id,
            Said::AppId(next.app_id),
        ) + leaves(beyond(prev.outputs, next.outputs)) + enters(
            beyond(next.outputs, prev.outputs),
        ) + only_if(prev.states != next.states, Said::State(next.states.listed())),
    }
}

/// A burst of events that ends with `done`; nothing at all where there is
/// nothing to tell.
pub open spec fn burst(news: Seq<Said>) -> Seq<Said> {
    if news.len() == 0 {
        news
    } else {
        news.push(Said::Done)
    }
}

fn outputs_beyond(a: &Outputs, b: &Outputs) -> (rest: Vec<OutputId>)
    ensures
        rest@ == beyond(a@, b@),
{
    let mut rest: Vec<OutputId> = Vec::new();
    for i in 0..a.ids.len()
        invariant
            rest@ == beyond(a.ids@.take(i as int), b@),
    {
        proof {
            reveal(Seq::filter);
            assert(a.ids@.take(i + 1).drop_last() =~= a.ids@.take(i as int));
        }
        if !b.contains(a.ids[i]) {
            rest.push(a.ids[i]);
        }
    }
    assert(a.ids@.take(a.ids@.len() as int) =~= a.ids@);
    rest
}

fn push_enters(out: &mut Vec<Event>, outputs: &Vec<OutputId>)
    ensures
        said(final(out)@) == said(old(out)@) + enters(outputs@),
{
    for i in 0..outputs.len()
        invariant
            said(out@) == said(old(out)@) + enters(outputs@.take(i as int)),
    {
        let ghost before = said(out@);
        out.push(Event::OutputEnter(outputs[i]));
        assert(said(out@) =~= before.push(Said::OutputEnter(outputs@[i as int])));
        assert(enters(outputs@.take(i + 1)) =~= enters(outputs@.take(i as int)).push(
            Said::OutputEnter(outputs@[i as int]),
        ));
        assert(said(out@) =~= said(old(out)@) + enters(outputs@.take(i + 1)));
    }
    assert(outputs@.take(outputs@.len() as int) =~= outputs@);
}

fn push_leaves(out: &mut Vec<Event>, outputs: &Vec<OutputId>)
    ensures
        said(final(out)@) == said(old(out)@) + leaves(outputs@),
{
    for i in 0..outputs.len()
        invariant
            said(out@) == said(old(out)@) + leaves(outputs@.take(i as int)),
    {
        let ghost before = said(out@);
        out.push(Event::OutputLeave(outputs[i]));
        assert(said(out@) =~= before.push(Said::OutputLeave(outputs@[i as int])));
        assert(leaves(outputs@.take(i + 1)) =~= leaves(outputs@.take(i as int)).push(
            Said::OutputLeave(outputs@[i as int]),
        ));
        assert(said(out@) =~= said(old(out)@) + leaves(outputs@.take(i + 1)));
    }
    assert(outputs@.take(outputs@.len() as int) =~= outputs@);
}

fn push_event(out: &mut Vec<Event>, event: Event)
    ensures
        said(final(out)@) == said(old(out)@) + seq![event@],
{
    out.push(event);
    assert(said(out@) =~= said(old(out)@) + seq![event@]);
}

/// What to send to bring a client from `prev` to `next`.
///
/// `None` means the handle has just been advertised and the client knows
/// nothing, so everything is sent. Empty when nothing changed: a bare `done` is
/// a wakeup with no information.
pub fn diff(prev: Option<&Snapshot>, next: &Snapshot) -> (events: Vec<Event>)
    ensures
        said(events@) == burst(
            news(
                match prev {
                    Some(prev) => Some(prev@),
                    None => None,
                },
                next@,
            ),
        ),
{
    let mut out: Vec<Event> = Vec::new();
    assert(said(out@) =~= Seq::<Said>::empty());
    match prev {
        None => {
            push_event(&mut out, Event::Title(next.title.clone()));
            push_event(&mut out, Event::AppId(next.app_id.clone()));
            push_enters(&mut out, &next.outputs.ids);
            push_event(&mut out, Event::State(next.states.list()));
            assert(said(out@) =~= news(None, next@));
        },
        Some(prev) => {
            if !chars::equal(prev.title.as_str(), next.title.as_str()) {
                push_event(&mut out, Event::Title(next.title.clone()));
            }
            if !chars::equal(prev.app_id.as_str(), next.app_id.as_str()) {
                push_event(&mut out, Event::AppId(next.app_id.clone()));
            }
            let left: Vec<OutputId> = outputs_beyond(&prev.outputs, &next.outputs);
            push_leaves(&mut out, &left);
            let entered: Vec<OutputId> = outputs_beyond(&next.outputs, &prev.outputs);
            push_enters(&mut out, &entered);
            if prev.states != next.states {
                push_event(&mut out, Event::State(next.states.list()));
            }
            assert(said(out@) =~= news(Some(prev@), next@));
        },
    }
    if out.len() > 0 {
        out.push(Event::Done);
        assert(said(out@) =~= said(out@.drop_last()).push(Said::Done));
    }
    out
}

impl Snapshot {
    pub fn is_activated(&self) -> (b: bool)
        ensures
            b == self@.states.has(State::Activated),
    {
        self.states.activated
    }

    pub fn is_minimized(&self) -> (b: bool)
        ensures
            b == self@.states.has(State::Minimized),
    {
        self.states.minimized
    }

    /// What a taskbar shows: the title, without one the app-id, and without
    /// either a placeholder.
    pub fn label(&self) -> (label: &str)
        ensures
            label@ == (if self@.title.len() > 0 {
                self@.title
            } else if self@.app_id.len() > 0 {
                self@.app_id
            } else {
                "(untitled)"@
            }),
    {
        if !self.title.as_str().is_empty() {
            self.title.as_str()
        } else if !self.app_id.as_str().is_empty() {
            self.app_id.as_str()
        } else {
            "(untitled)"
        }
    }
}

/// Where nothing changed, nothing is sent at all.
pub proof fn no_change_sends_nothing(s: Seen)
    ensures
        burst(news(Some(s), s)).len() == 0,
{
    let same = beyond(s.outputs, s.outputs);
    lemma_beyond_itself(s.outputs, s.outputs);
}

proof fn lemma_beyond_itself(a: Seq<OutputId>, b: Seq<OutputId>)
    requires
        forall|i: int| 0 <= i < a.len() ==> b.contains(#[trigger] a[i]),
    ensures
        beyond(a, b).len() == 0,
    decreases a.len(),
{
    reveal(Seq::filter);
    if a.len() > 0 {
        assert(b.contains(a[a.len() - 1]));
        assert forall|i: int| 0 <= i < a.drop_last().len() implies b.contains(
            #[trigger] a.drop_last()[i],
        ) by {
            assert(a.drop_last()[i] == a[i]);
        }
        lemma_beyond_itself(a.drop_last(), b);
    }
}

proof fn lemma_beyond_contains(a: Seq<OutputId>, b: Seq<OutputId>, k: OutputId)
    ensures
        beyond(a, b).contains(k) <==> a.contains(k) && !b.contains(k),
    decreases a.len(),
{
    reveal(Seq::filter);
    if a.len() > 0 {
        let less = a.drop_last();
        lemma_beyond_contains(less, b, k);
        let rest = beyond(less, b);
        if a.contains(k) && a.last() != k {
            assert(less[a.index_of(k)] == k);
        }
        if less.contains(k) {
            assert(a[less.index_of(k)] == k);
        }
        assert(a[a.len() - 1] == a.last());
        if !b.contains(a.last()) {
            let more = rest.push(a.last());
            assert(beyond(a, b) == more);
            if rest.contains(k) {
                assert(more[rest.index_of(k)] == k);
            }
            assert(more[rest.len() as int] == a.last());
            if more.contains(k) && k != a.last() {
                assert(rest[more.index_of(k)] == k);
            }
        }
    }
}

/// Every burst ends with exactly one `done`: it stands at the end, and nowhere
/// before it.
pub proof fn every_burst_ends_with_exactly_one_done(prev: Option<Seen>, next: Seen, i: int)
    requires
        0 <= i < burst(news(prev, next)).len(),
    ensures
        burst(news(prev, next))[i] is Done <==> i == burst(news(prev, next)).len() - 1,
{
}

/// No output is entered before every output that is left has been left.
pub proof fn output_leave_precedes_output_enter(prev: Option<Seen>, next: Seen, i: int, j: int)
    requires
        0 <= i < news(prev, next).len(),
        0 <= j < news(prev, next).len(),
        news(prev, next)[i] is OutputLeave,
        news(prev, next)[j] is OutputEnter,
    ensures
        i < j,
{
}

/// What a client knows about a window.
pub struct Known {
    pub title: Seq<char>,
    pub app_id: Seq<char>,
    pub states: Seq<State>,
    pub outputs: Set<OutputId>,
}

/// What a client knows after an event.
pub open spec fn learned(known: Known, event: Said) -> Known {
    match event {
        Said::Title(title) => Known { title, ..known },
        Said::AppId(app_id) => Known { app_id, ..known },
        Said::OutputEnter(output) => Known { outputs: known.outputs.insert(output), ..known },
        Said::OutputLeave(output) => Known { outputs: known.outputs.remove(output), ..known },
        Said::State(states) => Known { states, ..known },
        Said::Done => known,
    }
}

/// What a client knows after a list of events.
pub open spec fn learned_all(known: Known, events: Seq<Said>) -> Known
    decreases events.len(),
{
    if events.len() == 0 {
        known
    } else {
        learned(learned_all(known, events.drop_last()), events.last())
    }
}

/// What there is to know about a window.
pub open spec fn all_there_is(s: Seen) -> Known {
    Known {
        title: s.title,
        app_id: s.app_id,
        states: s.states.listed(),
        outputs: s.outputs.to_set(),
    }
}

proof fn lemma_learned_add(known: Known, a: Seq<Said>, b: Seq<Said>)
    ensures
        learned_all(known, a + b) == learned_all(learned_all(known, a), b),
    decreases b.len(),
{
    if b.len() == 0 {
        assert(a + b =~= a);
    } else {
        assert((a + b).drop_last() =~= a + b.drop_last());
        lemma_learned_add(known, a, b.drop_last());
    }
}

proof fn lemma_learned_enters(known: Known, outputs: Seq<OutputId>)
    ensures
        learned_all(known, enters(outputs)) == (Known {
            outputs: known.outputs.union(outputs.to_set()),
            ..known
        }),
    decreases outputs.len(),
{
    let all = learned_all(known, enters(outputs));
    if outputs.len() == 0 {
        assert(known.outputs.union(outputs.to_set()) =~= known.outputs);
    } else {
        let less = outputs.drop_last();
        lemma_learned_enters(known, less);
        assert(enters(outputs).drop_last() =~= enters(less));
        lemma_set_push(less, outputs);
        assert(all.outputs =~= known.outputs.union(outputs.to_set()));
    }
}

proof fn lemma_learned_leaves(known: Known, outputs: Seq<OutputId>)
    ensures
        learned_all(known, leaves(outputs)) == (Known {
            outputs: known.outputs.difference(outputs.to_set()),
            ..known
        }),
    decreases outputs.len(),
{
    let all = learned_all(known, leaves(outputs));
    if outputs.len() == 0 {
        assert(known.outputs.difference(outputs.to_set()) =~= known.outputs);
    } else {
        let less = outputs.drop_last();
        lemma_learned_leaves(known, less);
        assert(leaves(outputs).drop_last() =~= leaves(less));
        lemma_set_push(less, outputs);
        assert(all.outputs =~= known.outputs.difference(outputs.to_set()));
    }
}

proof fn lemma_set_push(less: Seq<OutputId>, outputs: Seq<OutputId>)
    requires
        outputs.len() > 0,
        less == outputs.drop_last(),
    ensures
        outputs.to_set() == less.to_set().insert(outputs.last()),
{
    assert forall|k: OutputId| outputs.to_set().contains(k) == less.to_set().insert(
        outputs.last(),
    ).contains(k) by {
        if outputs.contains(k) {
            let i = outputs.index_of(k);
            if i < less.len() {
                assert(less[i] == k);
            }
        }
        if less.contains(k) {
            assert(outputs[less.index_of(k)] == k);
        }
        assert(outputs[outputs.len() - 1] == outputs.last());
    }
    assert(outputs.to_set() =~= less.to_set().insert(outputs.last()));
}

proof fn lemma_learned_one(known: Known, event: Said)
    ensures
        learned_all(known, seq![event]) == learned(known, event),
{
    assert(seq![event].drop_last() =~= Seq::<Said>::empty());
    assert(learned_all(known, seq![event].drop_last()) == known);
}

proof fn lemma_learned_maybe(known: Known, wanted: bool, event: Said)
    ensures
        learned_all(known, only_if(wanted, event)) == (if wanted {
            learned(known, event)
        } else {
            known
        }),
{
    if wanted {
        lemma_learned_one(known, event);
    }
}

/// A client that knew everything about `prev`, and takes in what it is told,
/// knows everything about `next`; one that knew nothing does too.
pub proof fn a_burst_brings_a_client_up_to_date(prev: Option<Seen>, next: Seen, before: Known)
    requires
        prev is Some ==> before == all_there_is(prev->Some_0),
        prev is None ==> before.outputs == Set::<OutputId>::empty(),
    ensures
        learned_all(before, burst(news(prev, next))) == all_there_is(next),
{
    let told = news(prev, next);
    if told.len() > 0 {
        assert(burst(told).drop_last() =~= told);
    }
    assert(learned_all(before, burst(told)) == learned_all(before, told));
    match prev {
        None => {
            let a = seq![Said::Title(next.title), Said::AppId(next.app_id)];
            let b = enters(next.outputs);
            let c = seq![Said::State(next.states.listed())];
            lemma_learned_add(before, a + b, c);
            lemma_learned_add(before, a, b);
            let title = seq![Said::Title(next.title)];
            let app_id = seq![Said::AppId(next.app_id)];
            assert(a =~= title + app_id);
            lemma_learned_add(before, title, app_id);
            lemma_learned_one(before, Said::Title(next.title));
            let k1 = learned(before, Said::Title(next.title));
            lemma_learned_one(k1, Said::AppId(next.app_id));
            let k2 = learned(k1, Said::AppId(next.app_id));
            lemma_learned_enters(k2, next.outputs);
            let k3 = learned_all(k2, b);
            lemma_learned_one(k3, Said::State(next.states.listed()));
            assert(k3.outputs =~= next.outputs.to_set());
        },
        Some(prev) => {
            let a = only_if(prev.title != next.title, Said::Title(next.title));
            let b = only_if(prev.app_id != next.app_id, Said::AppId(next.app_id));
            let gone = beyond(prev.outputs, next.outputs);
            let come = beyond(next.outputs, prev.outputs);
            let c = leaves(gone);
            let d = enters(come);
            let e = only_if(prev.states != next.states, Said::State(next.states.listed()));
            lemma_learned_add(before, a + b + c + d, e);
            lemma_learned_add(before, a + b + c, d);
            lemma_learned_add(before, a + b, c);
            lemma_learned_add(before, a, b);
            lemma_learned_maybe(before, prev.title != next.title, Said::Title(next.title));
            let k1 = learned_all(before, a);
            lemma_learned_maybe(k1, prev.app_id != next.app_id, Said::AppId(next.app_id));
            let k2 = learned_all(k1, b);
            lemma_learned_leaves(k2, gone);
            let k3 = learned_all(k2, c);
            lemma_learned_enters(k3, come);
            let k4 = learned_all(k3, d);
            lemma_learned_maybe(
                k4,
                prev.states != next.states,
                Said::State(next.states.listed()),
            );
            assert forall|k: OutputId| k4.outputs.contains(k) == next.outputs.to_set().contains(
                k,
            ) by {
                lemma_beyond_contains(prev.outputs, next.outputs, k);
                lemma_beyond_contains(next.outputs, prev.outputs, k);
            }
            assert(k4.outputs =~= next.outputs.to_set());
        },
    }
}

/// The states of a set are listed, each once, and no others: two sets that list
/// the same are the same.
pub proof fn every_state_is_listed_once(states: States, others: States, state: State)
    ensures
        states.listed().contains(state) <==> states.has(state),
        states.listed().no_duplicates(),
        states.listed() == others.listed() ==> states == others,
{
    lemma_listed(states, State::Maximized);
    lemma_listed(states, State::Minimized);
    lemma_listed(states, State::Activated);
    lemma_listed(states, State::Fullscreen);
    lemma_listed(others, State::Maximized);
    lemma_listed(others, State::Minimized);
    lemma_listed(others, State::Activated);
    lemma_listed(others, State::Fullscreen);
}

proof fn lemma_listed(states: States, state: State)
    ensures
        states.listed().contains(state) <==> states.has(state),
{
    let all = states.listed();
    let a = only_if(states.maximized, State::Maximized);
    let b = only_if(states.minimized, State::Minimized);
    let c = only_if(states.activated, State::Activated);
    if states.has(state) {
        match state {
            State::Maximized => assert(all[0] == state),
            State::Minimized => assert(all[a.len() as int] == state),
            State::Activated => assert(all[(a + b).len() as int] == state),
            State::Fullscreen => assert(all[(a + b + c).len() as int] == state),
        }
    }
}

} // verus!
