//! Who is watching which thumbnail, and how a picture is handed to them.
//!
//! The pictures themselves live in the stage; a second copy here could disagree
//! with it. A watcher is a number, and whoever owns the object behind it does
//! the sending.

use vstd::prelude::*;

use std::collections::HashMap;

use crate::foreign_toplevel;
use crate::foreign_toplevel::ToplevelId;
use crate::pixels;
use crate::stage::Snapshot;
use crate::workspace;

verus! {

broadcast use vstd::std_specs::hash::group_hash_axioms;

/// What a session does for the clients that show its thumbnails.
pub trait StageHandler {
    fn stage_state(&mut self) -> &mut StageState;

    /// The current picture of a window, if there is one. Asked when a client
    /// starts watching, so that one that comes late is not left without a
    /// picture until something changes.
    fn thumbnail(&self, id: ToplevelId) -> Option<&Snapshot>;
}

#[derive(Debug)]
pub struct StageState {
    /// Live watchers, by window. A window with no watchers has no entry.
    watchers: HashMap<u64, Vec<u64>>,
}

impl View for StageState {
    type V = Map<u64, Seq<u64>>;

    closed spec fn view(&self) -> Map<u64, Seq<u64>> {
        self.watchers@.map_values(|list: Vec<u64>| list@)
    }
}

/// The watchers of a window.
pub open spec fn watching(watchers: Map<u64, Seq<u64>>, id: u64) -> Seq<u64> {
    if watchers.contains_key(id) {
        watchers[id]
    } else {
        Seq::empty()
    }
}

/// Every window with an entry has a watcher.
pub open spec fn tight(watchers: Map<u64, Seq<u64>>) -> bool {
    forall|id: u64| #[trigger] watchers.contains_key(id) ==> watchers[id].len() > 0
}

/// The watchers once one of them is gone: the entry goes with the last of them,
/// or the map would grow by one for every window ever watched.
pub open spec fn unwatched(watchers: Map<u64, Seq<u64>>, id: u64, watcher: u64) -> Map<
    u64,
    Seq<u64>,
> {
    let rest = workspace::without(watching(watchers, id), watcher);
    if rest.len() == 0 {
        watchers.remove(id)
    } else {
        watchers.insert(id, rest)
    }
}

impl Default for StageState {
    fn default() -> (state: StageState)
        ensures
            state@ == Map::<u64, Seq<u64>>::empty(),
            tight(state@),
    {
        let state: StageState = StageState { watchers: HashMap::new() };
        assert(state@ =~= Map::<u64, Seq<u64>>::empty());
        state
    }
}

impl StageState {
    fn list(&self, id: ToplevelId) -> (list: Vec<u64>)
        ensures
            list@ == watching(self@, id.0),
    {
        match self.watchers.get(&id.0) {
            Some(list) => {
                let copy: Vec<u64> = list.clone();
                assert(copy@ =~= list@);
                copy
            },
            None => Vec::new(),
        }
    }

    /// There is a new picture of this window. Returns everyone to send it to:
    /// nobody, where the picture does not hold what its size claims, since a
    /// client would map more bytes than there are.
    pub fn publish(&self, id: ToplevelId, snapshot: &Snapshot) -> (to: Vec<u64>)
        ensures
            to@ == (if snapshot.consistent() {
                watching(self@, id.0)
            } else {
                Seq::empty()
            }),
    {
        if !snapshot.is_consistent() {
            return Vec::new();
        }
        self.list(id)
    }

    /// There is no longer a picture of this window. Returns everyone to tell:
    /// the watchers stay, since a window can be hidden again.
    pub fn clear(&self, id: ToplevelId) -> (to: Vec<u64>)
        ensures
            to@ == watching(self@, id.0),
    {
        self.list(id)
    }

    /// How many windows are being watched.
    pub fn watched(&self) -> (n: usize)
        ensures
            n == self@.len(),
    {
        assert(self@.dom() =~= self.watchers@.dom());
        self.watchers.len()
    }

    /// A client has started watching a window.
    pub fn watch(&mut self, id: ToplevelId, watcher: u64)
        ensures
            final(self)@ == old(self)@.insert(id.0, watching(old(self)@, id.0).push(watcher)),
            tight(old(self)@) ==> tight(final(self)@),
    {
        let mut list: Vec<u64> = self.list(id);
        list.push(watcher);
        self.watchers.insert(id.0, list);
        assert(self@ =~= old(self)@.insert(id.0, watching(old(self)@, id.0).push(watcher)));
    }

    /// A client has stopped watching a window.
    pub fn unwatch(&mut self, id: ToplevelId, watcher: u64)
        ensures
            final(self)@ == unwatched(old(self)@, id.0, watcher),
            tight(old(self)@) ==> tight(final(self)@),
    {
        let list: Vec<u64> = self.list(id);
        let rest: Vec<u64> = foreign_toplevel::all_but(&list, watcher);
        if rest.len() == 0 {
            self.watchers.remove(&id.0);
        } else {
            self.watchers.insert(id.0, rest);
        }
        assert(self@ =~= unwatched(old(self)@, id.0, watcher));
    }
}

/// What came of an attempt to write.
#[derive(Debug, Clone, Copy, PartialEq, Eq, Structural)]
pub enum Attempt {
    /// So many bytes were taken.
    Wrote(usize),
    Interrupted,
    Failed,
}

/// What to do about a picture that is being written.
#[derive(Debug, Clone, Copy, PartialEq, Eq, Structural)]
pub enum WriteStep {
    /// Write the bytes from here on.
    Write(usize),
    /// Everything is written: seal it.
    Seal,
    /// Give up: nothing is sent, and clients keep showing what they showed.
    GiveUp,
}

/// How a picture starts to be written: not at all, where it does not hold what
/// its size claims.
pub fn start_writing(snapshot: &Snapshot) -> (step: WriteStep)
    ensures
        step == (if !snapshot.consistent() {
            WriteStep::GiveUp
        } else if snapshot.pixels@.len() == 0 {
            WriteStep::Seal
        } else {
            WriteStep::Write(0)
        }),
{
    if !snapshot.is_consistent() {
        WriteStep::GiveUp
    } else if snapshot.pixels.len() == 0 {
        WriteStep::Seal
    } else {
        WriteStep::Write(0)
    }
}

/// What to do after an attempt to write the bytes of `len` from `written` on.
///
/// A write may take fewer bytes than it was given, and one that was interrupted
/// is tried again. One that takes nothing would be tried for ever.
pub fn next_step(written: usize, len: usize, attempt: Attempt) -> (step: WriteStep)
    requires
        written < len,
        attempt matches Attempt::Wrote(n) ==> n <= len - written,
    ensures
        step == (match attempt {
            Attempt::Wrote(0) => WriteStep::GiveUp,
            Attempt::Wrote(n) => if written + n == len {
                WriteStep::Seal
            } else {
                WriteStep::Write((written + n) as usize)
            },
            Attempt::Interrupted => WriteStep::Write(written),
            Attempt::Failed => WriteStep::GiveUp,
        }),
        step matches WriteStep::Write(from) ==> from < len,
{
    match attempt {
        Attempt::Wrote(n) => {
            if n == 0 {
                WriteStep::GiveUp
            } else if n == len - written {
                WriteStep::Seal
            } else {
                WriteStep::Write(written + n)
            }
        },
        Attempt::Interrupted => WriteStep::Write(written),
        Attempt::Failed => WriteStep::GiveUp,
    }
}

/// How many bytes a row of a picture takes.
pub fn stride(snapshot: &Snapshot) -> (bytes: u32)
    requires
        snapshot.width * 4 <= u32::MAX,
    ensures
        bytes == snapshot.width * 4,
        snapshot.consistent() ==> snapshot.pixels@.len() == bytes * snapshot.height,
{
    proof {
        let (w, h) = (snapshot.width as int, snapshot.height as int);
        assert(w * 4 * h == w * h * 4) by (nonlinear_arith);
        assert(pixels::byte_count(w, h) == w * h * 4);
    }
    snapshot.width * 4
}

/// Watching and then stopping leaves the watchers as they were, where the
/// watcher was not one of them before.
pub proof fn unwatching_undoes_watching(watchers: Map<u64, Seq<u64>>, id: u64, watcher: u64)
    requires
        tight(watchers),
        !watching(watchers, id).contains(watcher),
    ensures
        unwatched(watchers.insert(id, watching(watchers, id).push(watcher)), id, watcher)
            == watchers,
{
    let list = watching(watchers, id);
    let more = list.push(watcher);
    reveal(Seq::filter);
    assert(more.drop_last() =~= list);
    lemma_nothing_dropped(list, watcher);
    assert(workspace::without(more, watcher) == list);
    assert(unwatched(watchers.insert(id, more), id, watcher) =~= watchers);
}

proof fn lemma_nothing_dropped(list: Seq<u64>, watcher: u64)
    requires
        !list.contains(watcher),
    ensures
        workspace::without(list, watcher) == list,
    decreases list.len(),
{
    reveal(Seq::filter);
    if list.len() > 0 {
        let less = list.drop_last();
        if less.contains(watcher) {
            assert(list[less.index_of(watcher)] == watcher);
        }
        lemma_nothing_dropped(less, watcher);
        assert(list[list.len() - 1] == list.last());
        assert(less.push(list.last()) =~= list);
    }
}

} // verus!
