//! Which windows exist, who has been told about them, and what they were told.
//!
//! A client that lists windows binds a manager and gets a handle of its own for
//! every window. All of them are told identical things, so one difference is
//! computed against the last snapshot and replayed to every handle. Managers
//! and handles are numbers here: whoever owns the objects behind the numbers
//! does the sending.

use vstd::prelude::*;

use crate::toplevel;
use crate::toplevel::{diff, Event, Snapshot, State};
use crate::workspace;

verus! {

/// Identifies one window for as long as it exists.
#[derive(Debug, Clone, Copy, PartialEq, Eq, PartialOrd, Ord, Hash, Structural)]
pub struct ToplevelId(pub u64);

/// What a client asked to be done to a window.
#[derive(Debug, Clone, Copy, PartialEq, Eq, Structural)]
pub enum Request {
    Activate,
    Close,
    SetMinimized(bool),
    SetMaximized(bool),
    SetFullscreen(bool),
}

/// A request as it arrives on a handle.
#[derive(Debug, Clone, Copy, PartialEq, Eq, Structural)]
pub enum HandleRequest {
    Activate,
    Close,
    SetMinimized,
    UnsetMinimized,
    SetMaximized,
    UnsetMaximized,
    SetFullscreen,
    UnsetFullscreen,
    /// A hint for animations.
    SetRectangle,
    Destroy,
}

/// What a request on a handle asks for. A hint for animations, of which there
/// are none, and the end of the handle ask for nothing.
pub open spec fn asked(request: HandleRequest) -> Option<Request> {
    match request {
        HandleRequest::Activate => Some(Request::Activate),
        HandleRequest::Close => Some(Request::Close),
        HandleRequest::SetMinimized => Some(Request::SetMinimized(true)),
        HandleRequest::UnsetMinimized => Some(Request::SetMinimized(false)),
        HandleRequest::SetMaximized => Some(Request::SetMaximized(true)),
        HandleRequest::UnsetMaximized => Some(Request::SetMaximized(false)),
        HandleRequest::SetFullscreen => Some(Request::SetFullscreen(true)),
        HandleRequest::UnsetFullscreen => Some(Request::SetFullscreen(false)),
        HandleRequest::SetRectangle => None,
        HandleRequest::Destroy => None,
    }
}

pub fn action_for(request: HandleRequest) -> (action: Option<Request>)
    ensures
        action == asked(request),
{
    match request {
        HandleRequest::Activate => Some(Request::Activate),
        HandleRequest::Close => Some(Request::Close),
        HandleRequest::SetMinimized => Some(Request::SetMinimized(true)),
        HandleRequest::UnsetMinimized => Some(Request::SetMinimized(false)),
        HandleRequest::SetMaximized => Some(Request::SetMaximized(true)),
        HandleRequest::UnsetMaximized => Some(Request::SetMaximized(false)),
        HandleRequest::SetFullscreen => Some(Request::SetFullscreen(true)),
        HandleRequest::UnsetFullscreen => Some(Request::SetFullscreen(false)),
        HandleRequest::SetRectangle => None,
        HandleRequest::Destroy => None,
    }
}

/// What a session does for the clients that list its windows.
pub trait ForeignToplevelHandler {
    fn foreign_toplevel_state(&mut self) -> &mut ForeignToplevelState;

    /// Act on a client request. To do nothing is allowed: the protocol has no
    /// failure reply.
    fn request(&mut self, id: ToplevelId, request: Request);
}

#[derive(Debug)]
struct Followed {
    id: u64,
    /// What every client has already been told; nothing, before the first
    /// snapshot is published.
    last: Option<Snapshot>,
    handles: Vec<u64>,
}

/// The windows that exist and the managers that are told about them.
///
/// Windows stand in the order they appeared, so that a manager that binds late
/// is told about them in that order.
#[derive(Debug)]
pub struct ForeignToplevelState {
    managers: Vec<u64>,
    toplevels: Vec<Followed>,
}

/// One window, as a mathematical value.
#[verifier::ext_equal]
pub struct Listed {
    pub id: u64,
    pub last: Option<toplevel::Seen>,
    pub handles: Seq<u64>,
}

/// All of the windows and managers, as a mathematical value.
#[verifier::ext_equal]
pub struct Roster {
    pub managers: Seq<u64>,
    pub windows: Seq<Listed>,
}

impl Roster {
    /// No window is listed twice.
    pub open spec fn distinct(self) -> bool {
        forall|i: int, j: int|
            0 <= i < j < self.windows.len() ==> (#[trigger] self.windows[i]).id != (
            #[trigger] self.windows[j]).id
    }

    pub open spec fn lists(self, id: u64) -> bool {
        exists|i: int| 0 <= i < self.windows.len() && (#[trigger] self.windows[i]).id == id
    }

    /// Where a listed window stands.
    pub open spec fn place(self, id: u64) -> int {
        choose|i: int| 0 <= i < self.windows.len() && (#[trigger] self.windows[i]).id == id
    }

    pub open spec fn window(self, id: u64) -> Listed {
        self.windows[self.place(id)]
    }

    pub open spec fn with_window(self, id: u64, window: Listed) -> Roster {
        Roster { windows: self.windows.update(self.place(id), window), ..self }
    }

    pub open spec fn added(self, id: u64) -> Roster {
        if self.lists(id) {
            self
        } else {
            Roster {
                windows: self.windows.push(Listed { id, last: None, handles: Seq::empty() }),
                ..self
            }
        }
    }

    pub open spec fn removed(self, id: u64) -> Roster {
        if self.lists(id) {
            Roster { windows: self.windows.remove(self.place(id)), ..self }
        } else {
            self
        }
    }

    pub open spec fn attached(self, id: u64, handle: u64) -> Roster {
        if self.lists(id) {
            let w = self.window(id);
            self.with_window(id, Listed { handles: w.handles.push(handle), ..w })
        } else {
            self
        }
    }

    pub open spec fn detached(self, id: u64, handle: u64) -> Roster {
        if self.lists(id) {
            let w = self.window(id);
            self.with_window(id, Listed { handles: workspace::without(w.handles, handle), ..w })
        } else {
            self
        }
    }

    /// What the clients of a window are told when `next` is published.
    pub open spec fn told(self, id: u64, next: toplevel::Seen) -> Seq<toplevel::Said> {
        if self.lists(id) {
            toplevel::burst(toplevel::news(self.window(id).last, next))
        } else {
            Seq::empty()
        }
    }

    pub open spec fn published(self, id: u64, next: toplevel::Seen) -> Roster {
        if self.told(id, next).len() > 0 {
            let w = self.window(id);
            self.with_window(id, Listed { last: Some(next), ..w })
        } else {
            self
        }
    }

    /// What a manager that has just bound is told about a window: all that has
    /// been published of it.
    pub open spec fn greeting(self, i: int) -> Seq<toplevel::Said> {
        match self.windows[i].last {
            Some(seen) => toplevel::burst(toplevel::news(None, seen)),
            None => Seq::empty(),
        }
    }
}

impl View for Followed {
    type V = Listed;

    closed spec fn view(&self) -> Listed {
        Listed {
            id: self.id,
            last: match self.last {
                Some(snapshot) => Some(snapshot@),
                None => None,
            },
            handles: self.handles@,
        }
    }
}

impl View for ForeignToplevelState {
    type V = Roster;

    closed spec fn view(&self) -> Roster {
        Roster {
            managers: self.managers@,
            windows: Seq::new(self.toplevels@.len(), |i: int| self.toplevels@[i]@),
        }
    }
}

/// What has to be sent, and to which handles.
#[derive(Debug)]
pub struct Delivery {
    pub handles: Vec<u64>,
    pub events: Vec<Event>,
}

fn copy_of(list: &Vec<u64>) -> (copy: Vec<u64>)
    ensures
        copy@ == list@,
{
    let copy: Vec<u64> = list.clone();
    assert(copy@ =~= list@);
    copy
}

/// A list without any of the occurrences of a number.
pub fn all_but(list: &Vec<u64>, number: u64) -> (rest: Vec<u64>)
    ensures
        rest@ == workspace::without(list@, number),
{
    let mut rest: Vec<u64> = Vec::new();
    for i in 0..list.len()
        invariant
            rest@ == workspace::without(list@.take(i as int), number),
    {
        proof {
            reveal(Seq::filter);
            assert(list@.take(i + 1).drop_last() =~= list@.take(i as int));
        }
        if list[i] != number {
            rest.push(list[i]);
        }
    }
    assert(list@.take(list@.len() as int) =~= list@);
    rest
}

impl Default for ForeignToplevelState {
    fn default() -> (state: ForeignToplevelState)
        ensures
            state@ == (Roster { managers: Seq::empty(), windows: Seq::empty() }),
            state@.distinct(),
    {
        let state: ForeignToplevelState = ForeignToplevelState {
            managers: Vec::new(),
            toplevels: Vec::new(),
        };
        assert(state@ =~= (Roster { managers: Seq::empty(), windows: Seq::empty() }));
        state
    }
}

impl ForeignToplevelState {
    fn find(&self, id: ToplevelId) -> (found: Option<usize>)
        requires
            self@.distinct(),
        ensures
            found is Some <==> self@.lists(id.0),
            found is Some ==> {
                &&& found->Some_0 < self.toplevels@.len()
                &&& found->Some_0 == self@.place(id.0)
                &&& self.toplevels@[found->Some_0 as int].id == id.0
            },
    {
        for i in 0..self.toplevels.len()
            invariant
                self@.distinct(),
                forall|k: int| 0 <= k < i ==> (#[trigger] self@.windows[k]).id != id.0,
        {
            if self.toplevels[i].id == id.0 {
                assert(self@.windows[i as int].id == id.0);
                assert(self@.windows[self@.place(id.0)].id == id.0);
                return Some(i);
            }
        }
        None
    }

    /// A window has appeared. Returns the managers to announce it to; nothing
    /// is said about it until the first `publish`.
    pub fn add(&mut self, id: ToplevelId) -> (managers: Vec<u64>)
        requires
            old(self)@.distinct(),
        ensures
            final(self)@ == old(self)@.added(id.0),
            final(self)@.distinct(),
            old(self)@.lists(id.0) ==> managers@ == Seq::<u64>::empty(),
            !old(self)@.lists(id.0) ==> managers@ == old(self)@.managers,
    {
        if self.find(id).is_some() {
            return Vec::new();
        }
        let managers: Vec<u64> = copy_of(&self.managers);
        let handles: Vec<u64> = Vec::new();
        assert(handles@ =~= Seq::<u64>::empty());
        self.toplevels.push(Followed { id: id.0, last: None, handles });
        assert(self@ =~= old(self)@.added(id.0));
        proof {
            let (before, after) = (old(self)@, self@);
            assert forall|i: int, j: int| 0 <= i < j < after.windows.len() implies (
            #[trigger] after.windows[i]).id != (#[trigger] after.windows[j]).id by {
                assert(after.windows[i] == before.windows[i]);
                if j < before.windows.len() {
                    assert(after.windows[j] == before.windows[j]);
                }
            }
        }
        managers
    }

    /// A window has been announced: `handle` now stands for it with a client.
    pub fn attach(&mut self, id: ToplevelId, handle: u64)
        requires
            old(self)@.distinct(),
        ensures
            final(self)@ == old(self)@.attached(id.0, handle),
            final(self)@.distinct(),
    {
        match self.find(id) {
            Some(i) => {
                self.toplevels[i].handles.push(handle);
                assert(self@ =~= old(self)@.attached(id.0, handle));
            },
            None => {},
        }
    }

    /// Publish the current state of a window, sending only what changed.
    ///
    /// Safe and cheap to call on every commit: where nothing changed, nothing
    /// is delivered.
    pub fn publish(&mut self, id: ToplevelId, snapshot: &Snapshot) -> (delivery: Delivery)
        requires
            old(self)@.distinct(),
        ensures
            toplevel::said(delivery.events@) == old(self)@.told(id.0, snapshot@),
            delivery.events@.len() > 0 ==> delivery.handles@ == old(self)@.window(id.0).handles,
            delivery.events@.len() == 0 ==> delivery.handles@ == Seq::<u64>::empty(),
            final(self)@ == old(self)@.published(id.0, snapshot@),
            final(self)@.distinct(),
    {
        let none: Delivery = Delivery { handles: Vec::new(), events: Vec::new() };
        assert(toplevel::said(none.events@) =~= Seq::<toplevel::Said>::empty());
        let i: usize = match self.find(id) {
            Some(i) => i,
            None => {
                return none;
            },
        };
        let events: Vec<Event> = diff(self.toplevels[i].last.as_ref(), snapshot);
        assert(toplevel::said(events@) == old(self)@.told(id.0, snapshot@));
        if events.len() == 0 {
            return none;
        }
        let handles: Vec<u64> = copy_of(&self.toplevels[i].handles);
        self.toplevels[i].last = Some(snapshot.clone());
        assert(self@ =~= old(self)@.published(id.0, snapshot@));
        Delivery { handles, events }
    }

    /// A window has gone. Returns the handles that have to be told `closed`;
    /// to destroy them is the client's part.
    pub fn remove(&mut self, id: ToplevelId) -> (handles: Vec<u64>)
        requires
            old(self)@.distinct(),
        ensures
            final(self)@ == old(self)@.removed(id.0),
            final(self)@.distinct(),
            !final(self)@.lists(id.0),
            old(self)@.lists(id.0) ==> handles@ == old(self)@.window(id.0).handles,
            !old(self)@.lists(id.0) ==> handles@ == Seq::<u64>::empty(),
    {
        match self.find(id) {
            Some(i) => {
                let gone: Followed = self.toplevels.remove(i);
                proof {
                    let (before, after) = (old(self)@, self@);
                    assert(after =~= before.removed(id.0));
                    assert forall|k: int| 0 <= k < after.windows.len() implies (
                    #[trigger] after.windows[k]).id != id.0 by {
                        let from = if k < i {
                            k
                        } else {
                            k + 1
                        };
                        assert(after.windows[k] == before.windows[from]);
                        assert(before.windows[i as int].id == id.0);
                    }
                    assert forall|k: int, l: int| 0 <= k < l < after.windows.len() implies (
                    #[trigger] after.windows[k]).id != (#[trigger] after.windows[l]).id by {
                        let from = if k < i {
                            k
                        } else {
                            k + 1
                        };
                        let to = if l < i {
                            l
                        } else {
                            l + 1
                        };
                        assert(after.windows[k] == before.windows[from]);
                        assert(after.windows[l] == before.windows[to]);
                    }
                }
                gone.handles
            },
            None => Vec::new(),
        }
    }

    pub fn contains(&self, id: ToplevelId) -> (b: bool)
        requires
            self@.distinct(),
        ensures
            b == self@.lists(id.0),
    {
        self.find(id).is_some()
    }

    /// A manager has been bound. Returns every window that exists, in the order
    /// they appeared, each with what brings a new client up to date about it.
    pub fn bind(&mut self, manager: u64) -> (greetings: Vec<(ToplevelId, Vec<Event>)>)
        ensures
            final(self)@ == (Roster {
                managers: old(self)@.managers.push(manager),
                ..old(self)@
            }),
            greetings@.len() == old(self)@.windows.len(),
            forall|i: int|
                0 <= i < greetings@.len() ==> {
                    &&& (#[trigger] greetings@[i]).0.0 == old(self)@.windows[i].id
                    &&& toplevel::said(greetings@[i].1@) == old(self)@.greeting(i)
                },
    {
        let mut greetings: Vec<(ToplevelId, Vec<Event>)> = Vec::new();
        for i in 0..self.toplevels.len()
            invariant
                self@ == old(self)@,
                greetings@.len() == i,
                forall|k: int|
                    0 <= k < i ==> {
                        &&& (#[trigger] greetings@[k]).0.0 == self@.windows[k].id
                        &&& toplevel::said(greetings@[k].1@) == self@.greeting(k)
                    },
        {
            let events: Vec<Event> = match &self.toplevels[i].last {
                Some(snapshot) => diff(None, snapshot),
                None => Vec::new(),
            };
            assert(self@.windows[i as int] == self.toplevels@[i as int]@);
            assert(toplevel::said(events@) =~= self@.greeting(i as int));
            greetings.push((ToplevelId(self.toplevels[i].id), events));
        }
        self.managers.push(manager);
        assert(self@ =~= (Roster {
            managers: old(self)@.managers.push(manager),
            ..old(self)@
        }));
        greetings
    }

    /// A manager wants no further events, or is gone.
    pub fn stop(&mut self, manager: u64)
        ensures
            final(self)@ == (Roster {
                managers: workspace::without(old(self)@.managers, manager),
                ..old(self)@
            }),
    {
        let rest: Vec<u64> = all_but(&self.managers, manager);
        self.managers = rest;
        assert(self@ =~= (Roster {
            managers: workspace::without(old(self)@.managers, manager),
            ..old(self)@
        }));
    }

    /// A handle has been destroyed.
    pub fn detach(&mut self, id: ToplevelId, handle: u64)
        requires
            old(self)@.distinct(),
        ensures
            final(self)@ == old(self)@.detached(id.0, handle),
            final(self)@.distinct(),
    {
        match self.find(id) {
            Some(i) => {
                let rest: Vec<u64> = all_but(&self.toplevels[i].handles, handle);
                self.toplevels[i].handles = rest;
                assert(self@ =~= old(self)@.detached(id.0, handle));
            },
            None => {},
        }
    }
}

/// What goes on the wire.
#[derive(Debug, PartialEq, Eq)]
pub enum Message {
    Title(String),
    AppId(String),
    /// The states, as the bytes of their numbers.
    State(Vec<u8>),
    Done,
}

/// The number of a state on the wire.
pub open spec fn state_number(state: State) -> u32 {
    match state {
        State::Maximized => 0,
        State::Minimized => 1,
        State::Activated => 2,
        State::Fullscreen => 3,
    }
}

/// The bytes of a number, least significant first.
pub open spec fn little_endian(n: u32) -> Seq<u8> {
    seq![
        (n % 256) as u8,
        (n / 256 % 256) as u8,
        (n / 65_536 % 256) as u8,
        (n / 16_777_216 % 256) as u8,
    ]
}

/// The bytes of a number, in one of the two orders.
pub open spec fn bytes_of(n: u32, little: bool) -> Seq<u8> {
    if little {
        little_endian(n)
    } else {
        little_endian(n).reverse()
    }
}

/// Whether each of `bytes` are those of the number in its place, in one order for
/// all of them.
pub open spec fn spelled(numbers: Seq<u32>, bytes: Seq<[u8; 4]>, little: bool) -> bool {
    &&& bytes.len() == numbers.len()
    &&& forall|i: int|
        0 <= i < numbers.len() ==> (#[trigger] bytes[i])@ == bytes_of(numbers[i], little)
}

/// Calls `u32::to_ne_bytes` on each of four numbers.
///
/// Claimed of it: the four bytes of each number, all in one order or all in the
/// other. Which of the two it is depends on the machine and is left unsaid.
#[verifier::external_body]
fn native_bytes(numbers: [u32; 4]) -> (bytes: [[u8; 4]; 4])
    ensures
        exists|little: bool| spelled(numbers@, bytes@, little),
{
    [
        numbers[0].to_ne_bytes(),
        numbers[1].to_ne_bytes(),
        numbers[2].to_ne_bytes(),
        numbers[3].to_ne_bytes(),
    ]
}

/// Whether `bytes` are the numbers of the states, four bytes to each, in one
/// order for all of them.
pub open spec fn encodes_in(states: Seq<State>, bytes: Seq<u8>, little: bool) -> bool {
    &&& bytes.len() == 4 * states.len()
    &&& forall|i: int|
        0 <= i < states.len() ==> bytes.subrange(4 * i, 4 * i + 4) == bytes_of(
            state_number(#[trigger] states[i]),
            little,
        )
}

/// Whether `bytes` are the numbers of the states in one of the two orders.
pub open spec fn encodes(states: Seq<State>, bytes: Seq<u8>) -> bool {
    exists|little: bool| encodes_in(states, bytes, little)
}

/// The states as the protocol sends them, from the bytes that each of the
/// numbers 0 to 3 has.
pub fn encode_with(numbers: &[[u8; 4]; 4], states: &[State]) -> (bytes: Vec<u8>)
    ensures
        bytes@.len() == 4 * states@.len(),
        forall|i: int|
            0 <= i < states@.len() ==> bytes@.subrange(4 * i, 4 * i + 4)
                == numbers@[state_number(#[trigger] states@[i]) as int]@,
{
    let mut bytes: Vec<u8> = Vec::new();
    for i in 0..states.len()
        invariant
            bytes@.len() == 4 * i,
            forall|k: int|
                0 <= k < i ==> bytes@.subrange(4 * k, 4 * k + 4)
                    == numbers@[state_number(#[trigger] states@[k]) as int]@,
    {
        let number: usize = match states[i] {
            State::Maximized => 0,
            State::Minimized => 1,
            State::Activated => 2,
            State::Fullscreen => 3,
        };
        let four: [u8; 4] = numbers[number];
        let ghost before = bytes@;
        bytes.push(four[0]);
        bytes.push(four[1]);
        bytes.push(four[2]);
        bytes.push(four[3]);
        proof {
            assert(bytes@.subrange(4 * i, 4 * i + 4) =~= four@);
            assert forall|k: int| 0 <= k < i + 1 implies bytes@.subrange(4 * k, 4 * k + 4)
                == numbers@[state_number(#[trigger] states@[k]) as int]@ by {
                if k < i {
                    assert(bytes@.subrange(4 * k, 4 * k + 4) =~= before.subrange(
                        4 * k,
                        4 * k + 4,
                    ));
                }
            }
        }
    }
    bytes
}

/// The states as the protocol sends them: an array of numbers in the machine's
/// own byte order.
pub fn encode_states(states: &[State]) -> (bytes: Vec<u8>)
    ensures
        encodes(states@, bytes@),
{
    let numbers: [[u8; 4]; 4] = native_bytes([0, 1, 2, 3]);
    let bytes: Vec<u8> = encode_with(&numbers, states);
    proof {
        let little = choose|little: bool| spelled([0u32, 1, 2, 3]@, numbers@, little);
        assert(encodes_in(states@, bytes@, little));
    }
    bytes
}

/// Whether a message says what an event says.
pub open spec fn carries(message: Message, event: toplevel::Said) -> bool {
    match event {
        toplevel::Said::Title(title) => message matches Message::Title(t) && t@ == title,
        toplevel::Said::AppId(app_id) => message matches Message::AppId(a) && a@ == app_id,
        toplevel::Said::State(states) => message matches Message::State(bytes) && encodes(
            states,
            bytes@,
        ),
        toplevel::Said::Done => message is Done,
        _ => false,
    }
}

/// Whether an event goes on the wire. Which outputs a window is on does not:
/// there is one output, and a client could learn nothing from it.
pub open spec fn is_sent(event: toplevel::Said) -> bool {
    !(event is OutputEnter) && !(event is OutputLeave)
}

/// The events of a burst that go on the wire.
pub open spec fn sent(events: Seq<toplevel::Said>) -> Seq<toplevel::Said> {
    events.filter(|event: toplevel::Said| is_sent(event))
}

/// Put one burst into the form in which it is sent.
pub fn messages(events: &[Event]) -> (list: Vec<Message>)
    ensures
        list@.len() == sent(toplevel::said(events@)).len(),
        forall|i: int|
            0 <= i < list@.len() ==> carries(
                #[trigger] list@[i],
                sent(toplevel::said(events@))[i],
            ),
{
    let ghost all = toplevel::said(events@);
    let mut list: Vec<Message> = Vec::new();
    for i in 0..events.len()
        invariant
            all == toplevel::said(events@),
            list@.len() == sent(all.take(i as int)).len(),
            forall|k: int|
                0 <= k < list@.len() ==> carries(
                    #[trigger] list@[k],
                    sent(all.take(i as int))[k],
                ),
    {
        proof {
            reveal(Seq::filter);
            assert(all.take(i + 1).drop_last() =~= all.take(i as int));
            assert(all.take(i + 1).last() == events@[i as int]@);
        }
        match &events[i] {
            Event::Title(title) => list.push(Message::Title(title.clone())),
            Event::AppId(app_id) => list.push(Message::AppId(app_id.clone())),
            Event::OutputEnter(_) => {},
            Event::OutputLeave(_) => {},
            Event::State(states) => list.push(Message::State(encode_states(states))),
            Event::Done => list.push(Message::Done),
        }
    }
    assert(all.take(events@.len() as int) =~= all);
    list
}

/// A client that binds late and takes in the greeting of a window knows all
/// that has been published of it.
pub proof fn a_late_client_is_brought_up_to_date(r: Roster, i: int, before: toplevel::Known)
    requires
        0 <= i < r.windows.len(),
        r.windows[i].last is Some,
        before.outputs == Set::<toplevel::OutputId>::empty(),
    ensures
        toplevel::learned_all(before, r.greeting(i)) == toplevel::all_there_is(
            r.windows[i].last->Some_0,
        ),
{
    toplevel::a_burst_brings_a_client_up_to_date(None, r.windows[i].last->Some_0, before);
}

/// A client that knows all that has been published of a window knows it after
/// the next publication too.
pub proof fn clients_stay_up_to_date(
    r: Roster,
    id: u64,
    next: toplevel::Seen,
    before: toplevel::Known,
)
    requires
        r.distinct(),
        r.lists(id),
        match r.window(id).last {
            Some(seen) => before == toplevel::all_there_is(seen),
            None => before.outputs == Set::<toplevel::OutputId>::empty(),
        },
    ensures
        toplevel::learned_all(before, r.told(id, next)) == toplevel::all_there_is(next),
        r.told(id, next).len() > 0 ==> r.published(id, next).windows[r.place(id)].last == Some(
            next,
        ),
{
    toplevel::a_burst_brings_a_client_up_to_date(r.window(id).last, next, before);
}

/// No two lists of states are the same bytes on the wire: what a client reads is
/// what was sent.
pub proof fn states_can_be_told_apart_on_the_wire(a: Seq<State>, b: Seq<State>, bytes: Seq<u8>)
    requires
        encodes(a, bytes),
        encodes(b, bytes),
    ensures
        a == b,
{
    let first = choose|little: bool| encodes_in(a, bytes, little);
    let second = choose|little: bool| encodes_in(b, bytes, little);
    assert forall|i: int| 0 <= i < a.len() implies a[i] == b[i] by {
        let four = bytes.subrange(4 * i, 4 * i + 4);
        assert(four == bytes_of(state_number(a[i]), first));
        assert(four == bytes_of(state_number(b[i]), second));
        assert(four[0] + four[3] == state_number(a[i]));
        assert(four[0] + four[3] == state_number(b[i]));
    }
    assert(a =~= b);
}

/// What goes on the wire tells a client the same of a window as all of the events
/// do, but for the outputs that it is on.
pub proof fn what_is_sent_tells_of_the_window(
    known: toplevel::Known,
    events: Seq<toplevel::Said>,
)
    ensures
        ({
            let (all, told) = (
                toplevel::learned_all(known, events),
                toplevel::learned_all(known, sent(events)),
            );
            &&& told.title == all.title
            &&& told.app_id == all.app_id
            &&& told.states == all.states
            &&& told.outputs == known.outputs
        }),
    decreases events.len(),
{
    reveal(Seq::filter);
    if events.len() > 0 {
        let less = events.drop_last();
        what_is_sent_tells_of_the_window(known, less);
        if is_sent(events.last()) {
            assert(sent(events) == sent(less).push(events.last()));
            assert(sent(events).drop_last() =~= sent(less));
        }
    }
}

/// A burst that ends in `done` still does so on the wire.
pub proof fn done_is_sent_last(events: Seq<toplevel::Said>)
    requires
        events.len() > 0,
        events.last() is Done,
    ensures
        sent(events).len() > 0,
        sent(events).last() is Done,
{
    reveal(Seq::filter);
}

proof fn lemma_place(r: Roster, id: u64)
    requires
        r.lists(id),
    ensures
        0 <= r.place(id) < r.windows.len(),
        r.window(id).id == id,
{
}

/// A window that appears is listed last, without a handle; those that were listed
/// stay as they are. One that is listed already is not listed again.
pub proof fn a_window_that_appears_is_listed_last(r: Roster, id: u64, i: int)
    requires
        r.distinct(),
    ensures
        r.added(id).lists(id),
        r.added(id).distinct(),
        !r.lists(id) ==> r.added(id).windows.len() == r.windows.len() + 1
            && r.added(id).windows.last().id == id && r.added(id).windows.last().handles.len()
            == 0 && r.added(id).windows.last().last is None,
        r.lists(id) ==> r.added(id) == r,
        0 <= i < r.windows.len() ==> r.added(id).windows[i] == r.windows[i],
        r.added(id).managers == r.managers,
{
    let after = r.added(id);
    if !r.lists(id) {
        assert(after.windows[r.windows.len() as int].id == id);
        assert forall|k: int, l: int| 0 <= k < l < after.windows.len() implies (
        #[trigger] after.windows[k]).id != (#[trigger] after.windows[l]).id by {
            assert(after.windows[k] == r.windows[k]);
            assert(r.windows[k].id != id);
            if l < r.windows.len() {
                assert(after.windows[l] == r.windows[l]);
            }
        }
    }
}

/// A handle that is attached to a window hears of it, one that is detached does
/// not, and the handles of other windows stay as they are.
pub proof fn a_handle_hears_of_its_window(r: Roster, id: u64, handle: u64, other: u64, held: u64)
    requires
        r.distinct(),
        r.lists(id),
        r.lists(other),
    ensures
        ({
            let (more, less) = (r.attached(id, handle), r.detached(id, handle));
            &&& more.window(id).handles.contains(handle)
            &&& !less.window(id).handles.contains(handle)
            &&& held != handle ==> more.window(id).handles.contains(held) == r.window(
                id,
            ).handles.contains(held)
            &&& held != handle ==> less.window(id).handles.contains(held) == r.window(
                id,
            ).handles.contains(held)
            &&& more.window(id).last == r.window(id).last
            &&& less.window(id).last == r.window(id).last
            &&& other != id ==> more.window(other) == r.window(other)
            &&& other != id ==> less.window(other) == r.window(other)
        }),
{
    let (more, less) = (r.attached(id, handle), r.detached(id, handle));
    lemma_place(r, id);
    lemma_place(r, other);
    let (at, off) = (r.place(id), r.place(other));
    assert(more.windows[at].id == id && less.windows[at].id == id);
    assert(more.windows[off].id == other && less.windows[off].id == other);
    lemma_place(more, id);
    lemma_place(more, other);
    lemma_place(less, id);
    lemma_place(less, other);
    assert forall|k: int| 0 <= k < r.windows.len() implies (#[trigger] more.windows[k]).id
        == r.windows[k].id && less.windows[k].id == r.windows[k].id by {}
    let places = (more.place(id), more.place(other), less.place(id), less.place(other));
    assert(more.windows[places.0].id == r.windows[places.0].id);
    assert(more.windows[places.1].id == r.windows[places.1].id);
    assert(less.windows[places.2].id == r.windows[places.2].id) by {
        assert(more.windows[places.2].id == r.windows[places.2].id);
    }
    assert(less.windows[places.3].id == r.windows[places.3].id) by {
        assert(more.windows[places.3].id == r.windows[places.3].id);
    }
    assert(places.0 == at && places.2 == at);
    assert(places.1 == off && places.3 == off);
    let handles = r.window(id).handles;
    let pushed = handles.push(handle);
    assert(pushed[handles.len() as int] == handle);
    if pushed.contains(held) && held != handle {
        assert(handles[pushed.index_of(held)] == held);
    }
    if handles.contains(held) {
        assert(pushed[handles.index_of(held)] == held);
    }
    workspace::lemma_members_without(handles, handle, handle);
    workspace::lemma_members_without(handles, handle, held);
}

/// To set something and to unset it ask for the opposite of the same, and no two
/// requests that ask for anything ask for the same.
pub proof fn setting_is_the_opposite_of_unsetting(a: HandleRequest, b: HandleRequest)
    ensures
        asked(a) is Some && asked(a) == asked(b) ==> a == b,
        asked(a) is None <==> a is SetRectangle || a is Destroy,
        asked(HandleRequest::SetMinimized) == Some(Request::SetMinimized(true)),
        asked(HandleRequest::UnsetMinimized) == Some(Request::SetMinimized(false)),
        asked(HandleRequest::SetMaximized) == Some(Request::SetMaximized(true)),
        asked(HandleRequest::UnsetMaximized) == Some(Request::SetMaximized(false)),
        asked(HandleRequest::SetFullscreen) == Some(Request::SetFullscreen(true)),
        asked(HandleRequest::UnsetFullscreen) == Some(Request::SetFullscreen(false)),
        a is Activate ==> asked(a) == Some(Request::Activate),
        a is Close ==> asked(a) == Some(Request::Close),
{
}

} // verus!
