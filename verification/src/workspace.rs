//! Workspaces.
//!
//! Order, tiling mode, layout and focus all belong to a workspace: switching to
//! a tiled workspace and back must not leave the other one tiled, and returning
//! to a workspace should put the keyboard where it was left. Window geometry is
//! not stored here, so a window carries its floating rectangle across a
//! workspace move.

use vstd::multiset::Multiset;
use vstd::prelude::*;

use crate::layout::Layout;
use crate::utils;

verus! {

/// What stands for a window in a workspace.
pub trait Element: Copy {
    fn same(&self, other: &Self) -> (b: bool)
        ensures
            b == (*self == *other),
    ;
}

impl Element for u32 {
    fn same(&self, other: &u32) -> (b: bool) {
        *self == *other
    }
}

impl Element for u64 {
    fn same(&self, other: &u64) -> (b: bool) {
        *self == *other
    }
}

#[derive(Debug, Clone)]
pub struct Workspace<T> {
    /// Tile order, oldest first — never stacking order.
    pub order: Vec<T>,
    pub tiling: bool,
    pub layout: Layout,
    /// Focus is per-workspace, so coming back puts the keyboard where it was.
    pub focused: Option<T>,
}

/// A workspace, as a mathematical value.
#[verifier::ext_equal]
pub struct Desk<T> {
    pub order: Seq<T>,
    pub tiling: bool,
    pub layout: Layout,
    pub focused: Option<T>,
}

impl<T> View for Workspace<T> {
    type V = Desk<T>;

    open spec fn view(&self) -> Desk<T> {
        Desk {
            order: self.order@,
            tiling: self.tiling,
            layout: self.layout,
            focused: self.focused,
        }
    }
}

/// The last of a list, if it has one.
pub open spec fn last_of<T>(order: Seq<T>) -> Option<T> {
    if order.len() == 0 {
        None
    } else {
        Some(order.last())
    }
}

/// A list without any of the occurrences of `window`.
pub open spec fn without<T>(order: Seq<T>, window: T) -> Seq<T> {
    order.filter(|w: T| w != window)
}

impl<T> Desk<T> {
    /// A workspace that nothing has been put on.
    pub open spec fn empty(tiling: bool, layout: Layout) -> Desk<T> {
        Desk { order: Seq::empty(), tiling, layout, focused: None }
    }

    /// Where the keyboard goes on arrival: to the window that had it, and else
    /// to the last one.
    pub open spec fn arrival_focus(self) -> Option<T> {
        if self.focused is Some {
            self.focused
        } else {
            last_of(self.order)
        }
    }

    /// The workspace once a window is gone.
    pub open spec fn forgetting(self, window: T) -> Desk<T> {
        let order = without(self.order, window);
        Desk {
            order,
            focused: if self.focused == Some(window) {
                last_of(order)
            } else {
                self.focused
            },
            ..self
        }
    }

    /// The workspace once the window at `position` has been sent elsewhere: a
    /// focus that it had goes to the window that takes its place, and else to
    /// the last one.
    pub open spec fn sending(self, position: int) -> Desk<T> {
        let order = self.order.remove(position);
        Desk {
            order,
            focused: if self.focused == Some(self.order[position]) {
                if position < order.len() {
                    Some(order[position])
                } else {
                    last_of(order)
                }
            } else {
                self.focused
            },
            ..self
        }
    }

    /// The workspace once a window has been sent to it.
    pub open spec fn receiving(self, window: T) -> Desk<T> {
        Desk { order: self.order.push(window), focused: Some(window), ..self }
    }
}

impl<T> Workspace<T> {
    fn new(tiling: bool, layout: Layout) -> (w: Workspace<T>)
        ensures
            w@ == Desk::<T>::empty(tiling, layout),
    {
        let w: Workspace<T> = Workspace { order: Vec::new(), tiling, layout, focused: None };
        assert(w@ =~= Desk::<T>::empty(tiling, layout));
        w
    }

    pub fn is_empty(&self) -> (b: bool)
        ensures
            b == (self@.order.len() == 0),
    {
        self.order.len() == 0
    }
}

#[derive(Debug, Clone)]
pub struct Workspaces<T> {
    spaces: Vec<Workspace<T>>,
    active: usize,
}

/// What has to be done on screen after a switch.
#[derive(Debug, Clone, PartialEq)]
pub struct Switch<T> {
    /// Windows to unmap — they belong to the workspace being left.
    pub hide: Vec<T>,
    /// Windows to map — they belong to the workspace being entered.
    pub show: Vec<T>,
    /// Where to put the keyboard afterwards.
    pub focus: Option<T>,
}

/// The set of workspaces, as a mathematical value: all of them, and the one on
/// screen.
#[verifier::ext_equal]
pub struct Desks<T> {
    pub all: Seq<Desk<T>>,
    pub active: int,
}

impl<T> Desks<T> {
    pub open spec fn current(self) -> Desk<T> {
        self.all[self.active]
    }

    /// There is always a workspace, and one of them is on screen.
    pub open spec fn valid(self) -> bool {
        0 <= self.active < self.all.len()
    }

    pub open spec fn fresh(count: int, tiling: bool, layout: Layout) -> Desks<T> {
        Desks {
            all: Seq::new(
                (if count < 1 {
                    1
                } else {
                    count
                }) as nat,
                |i: int| Desk::empty(tiling, layout),
            ),
            active: 0,
        }
    }

    /// Whether `index` is a workspace other than the one on screen.
    pub open spec fn elsewhere(self, index: int) -> bool {
        0 <= index < self.all.len() && index != self.active
    }

    pub open spec fn switched(self, index: int) -> Desks<T> {
        if self.elsewhere(index) {
            Desks { active: index, ..self }
        } else {
            self
        }
    }

    pub open spec fn with_current(self, desk: Desk<T>) -> Desks<T> {
        Desks { all: self.all.update(self.active, desk), ..self }
    }

    pub open spec fn inserted(self, window: T) -> Desks<T> {
        self.with_current(Desk { order: self.current().order.push(window), ..self.current() })
    }

    /// Whether a window can be sent to a workspace.
    pub open spec fn can_move(self, window: T, index: int) -> bool {
        self.elsewhere(index) && self.current().order.contains(window)
    }

    pub open spec fn moved(self, window: T, index: int) -> Desks<T> {
        if self.can_move(window, index) {
            let position = self.current().order.index_of_first(window)->Some_0;
            let left = self.with_current(self.current().sending(position));
            Desks { all: left.all.update(index, left.all[index].receiving(window)), ..left }
        } else {
            self
        }
    }

    pub open spec fn removed(self, window: T) -> Desks<T> {
        Desks {
            all: Seq::new(self.all.len(), |i: int| self.all[i].forgetting(window)),
            ..self
        }
    }

    /// The set with one workspace fewer: the windows of the last one go to the
    /// one before it.
    pub open spec fn shortened(self) -> Desks<T> {
        let n = self.all.len() as int;
        let heir = self.all[n - 2];
        Desks {
            all: self.all.take(n - 1).update(
                n - 2,
                Desk { order: heir.order + self.all[n - 1].order, ..heir },
            ),
            ..self
        }
    }

    pub open spec fn shrunk(self, count: int) -> Desks<T>
        decreases self.all.len(),
    {
        if count < 1 || self.all.len() <= count {
            self
        } else {
            self.shortened().shrunk(count)
        }
    }

    pub open spec fn grown(self, count: int, tiling: bool, layout: Layout) -> Desks<T> {
        Desks {
            all: self.all + Seq::new(
                (if count < self.all.len() {
                    0
                } else {
                    count - self.all.len()
                }) as nat,
                |i: int| Desk::empty(tiling, layout),
            ),
            ..self
        }
    }

    pub open spec fn resized(self, count: int, tiling: bool, layout: Layout) -> Desks<T> {
        let count = if count < 1 {
            1
        } else {
            count
        };
        let sized = self.grown(count, tiling, layout).shrunk(count);
        Desks {
            active: if sized.active < count {
                sized.active
            } else {
                count - 1
            },
            ..sized
        }
    }

    /// Every window on the first `n` workspaces, as often as it is there.
    pub open spec fn windows_on(self, n: int) -> Multiset<T>
        decreases n,
    {
        if n <= 0 {
            Multiset::empty()
        } else {
            self.windows_on(n - 1).add(self.all[n - 1].order.to_multiset())
        }
    }

    /// Every window on any workspace.
    pub open spec fn windows(self) -> Multiset<T> {
        self.windows_on(self.all.len() as int)
    }

    /// Whether a window is on any workspace.
    pub open spec fn holds(self, window: T) -> bool {
        exists|i: int| 0 <= i < self.all.len() && (#[trigger] self.all[i]).order.contains(window)
    }
}

impl<T> View for Workspaces<T> {
    type V = Desks<T>;

    closed spec fn view(&self) -> Desks<T> {
        Desks {
            all: Seq::new(self.spaces@.len(), |i: int| self.spaces@[i]@),
            active: self.active as int,
        }
    }
}

fn find<T: Element>(order: &Vec<T>, window: &T) -> (found: Option<usize>)
    ensures
        found is Some <==> order@.contains(*window),
        found is Some ==> {
            &&& found->Some_0 < order@.len()
            &&& order@[found->Some_0 as int] == *window
            &&& order@.index_of_first(*window) == Some(found->Some_0 as int)
        },
{
    for i in 0..order.len()
        invariant
            forall|k: int| 0 <= k < i ==> order@[k] != *window,
    {
        if order[i].same(window) {
            proof {
                order@.index_of_first_ensures(*window);
            }
            return Some(i);
        }
    }
    None
}

fn copy_of<T: Element>(order: &Vec<T>) -> (copy: Vec<T>)
    ensures
        copy@ == order@,
{
    let mut copy: Vec<T> = Vec::new();
    for i in 0..order.len()
        invariant
            copy@ == order@.take(i as int),
    {
        copy.push(order[i]);
        assert(order@.take(i as int).push(order@[i as int]) =~= order@.take(i + 1));
    }
    assert(order@.take(order@.len() as int) =~= order@);
    copy
}

fn last<T: Element>(order: &Vec<T>) -> (window: Option<T>)
    ensures
        window == last_of(order@),
{
    if order.len() == 0 {
        None
    } else {
        Some(order[order.len() - 1])
    }
}

fn is_window<T: Element>(focused: Option<T>, window: &T) -> (b: bool)
    ensures
        b == (focused == Some(*window)),
{
    match focused {
        Some(w) => w.same(window),
        None => false,
    }
}

impl<T: Element> Workspace<T> {
    fn forget(&mut self, window: &T)
        ensures
            final(self)@ == old(self)@.forgetting(*window),
    {
        let mut kept: Vec<T> = Vec::new();
        for i in 0..self.order.len()
            invariant
                self@ == old(self)@,
                kept@ == without(self.order@.take(i as int), *window),
        {
            proof {
                reveal(Seq::filter);
                let more = self.order@.take(i + 1);
                assert(more.drop_last() =~= self.order@.take(i as int));
            }
            if !self.order[i].same(window) {
                kept.push(self.order[i]);
            }
        }
        assert(self.order@.take(self.order@.len() as int) =~= self.order@);
        self.order = kept;
        if is_window(self.focused, window) {
            self.focused = last(&self.order);
        }
        assert(self@ =~= old(self)@.forgetting(*window));
    }
}

impl<T: Element> Workspaces<T> {
    /// Always at least one workspace: with none there is nowhere to map a
    /// window.
    pub fn new(count: usize, tiling: bool, layout: Layout) -> (w: Workspaces<T>)
        ensures
            w@ == Desks::<T>::fresh(count as int, tiling, layout),
            w@.valid(),
    {
        let count: usize = if count < 1 {
            1
        } else {
            count
        };
        let mut spaces: Vec<Workspace<T>> = Vec::new();
        for i in 0..count
            invariant
                spaces@.len() == i,
                forall|k: int|
                    0 <= k < i ==> (#[trigger] spaces@[k])@ == Desk::<T>::empty(tiling, layout),
        {
            spaces.push(Workspace::new(tiling, layout));
        }
        let w: Workspaces<T> = Workspaces { spaces, active: 0 };
        assert(w@ =~= Desks::<T>::fresh(count as int, tiling, layout));
        w
    }

    pub fn len(&self) -> (n: usize)
        ensures
            n == self@.all.len(),
    {
        self.spaces.len()
    }

    /// Whether there is no workspace: never, of a valid set.
    pub fn is_empty(&self) -> (b: bool)
        ensures
            b == (self@.all.len() == 0),
    {
        self.spaces.len() == 0
    }

    pub fn active_index(&self) -> (i: usize)
        ensures
            i == self@.active,
    {
        self.active
    }

    pub fn active(&self) -> (w: &Workspace<T>)
        requires
            self@.valid(),
        ensures
            w@ == self@.current(),
    {
        &self.spaces[self.active]
    }

    pub fn active_mut(&mut self) -> (w: &mut Workspace<T>)
        requires
            old(self)@.valid(),
        ensures
            w@ == old(self)@.current(),
            final(self)@ == old(self)@.with_current(final(w)@),
    {
        &mut self.spaces[self.active]
    }

    /// Which workspaces hold at least one window, for an indicator.
    pub fn occupied(&self) -> (held: Vec<bool>)
        ensures
            held@ == Seq::new(self@.all.len(), |i: int| self@.all[i].order.len() > 0),
    {
        let mut held: Vec<bool> = Vec::new();
        for i in 0..self.spaces.len()
            invariant
                held@.len() == i,
                forall|k: int| 0 <= k < i ==> held@[k] == (self@.all[k].order.len() > 0),
        {
            held.push(!self.spaces[i].is_empty());
        }
        assert(held@ =~= Seq::new(self@.all.len(), |i: int| self@.all[i].order.len() > 0));
        held
    }

    /// Switch to a workspace, reporting what has to be unmapped and mapped.
    ///
    /// `None` for the workspace already active, where to act would unmap and
    /// remap every window on screen for nothing, and for one that is not there.
    pub fn switch_to(&mut self, index: usize) -> (switch: Option<Switch<T>>)
        requires
            old(self)@.valid(),
        ensures
            final(self)@ == old(self)@.switched(index as int),
            final(self)@.valid(),
            switch is Some <==> old(self)@.elsewhere(index as int),
            switch is Some ==> {
                &&& switch->Some_0.hide@ == old(self)@.current().order
                &&& switch->Some_0.show@ == old(self)@.all[index as int].order
                &&& switch->Some_0.focus == old(self)@.all[index as int].arrival_focus()
            },
    {
        if index >= self.spaces.len() || index == self.active {
            return None;
        }
        let hide: Vec<T> = copy_of(&self.spaces[self.active].order);
        self.active = index;
        assert(self@ =~= old(self)@.switched(index as int));
        let show: Vec<T> = copy_of(&self.spaces[index].order);
        // Falling back to the last window rather than to nothing: a populated
        // workspace without keyboard focus makes the keyboard look broken.
        let focus: Option<T> = match self.spaces[index].focused {
            Some(w) => Some(w),
            None => last(&self.spaces[index].order),
        };
        Some(Switch { hide, show, focus })
    }

    /// Add a window to the active workspace.
    pub fn insert(&mut self, window: T)
        requires
            old(self)@.valid(),
        ensures
            final(self)@ == old(self)@.inserted(window),
            final(self)@.valid(),
    {
        let active: usize = self.active;
        self.spaces[active].order.push(window);
        assert(self@ =~= old(self)@.inserted(window));
    }

    /// Move a window from the active workspace to another.
    ///
    /// Returns where focus should go, or `None` if there was nothing to move.
    pub fn move_to(&mut self, window: &T, index: usize) -> (focus: Option<Option<T>>)
        requires
            old(self)@.valid(),
        ensures
            final(self)@ == old(self)@.moved(*window, index as int),
            final(self)@.valid(),
            focus is Some <==> old(self)@.can_move(*window, index as int),
            focus is Some ==> focus->Some_0 == final(self)@.current().focused,
    {
        if index >= self.spaces.len() || index == self.active {
            return None;
        }
        let active: usize = self.active;
        let position: usize = match find(&self.spaces[active].order, window) {
            Some(position) => position,
            None => {
                return None;
            },
        };
        let moved: T = self.spaces[active].order.remove(position);
        if is_window(self.spaces[active].focused, window) {
            // Focus cannot follow the window to a workspace that is not on
            // screen.
            let heir: Option<T> = if position < self.spaces[active].order.len() {
                Some(self.spaces[active].order[position])
            } else {
                last(&self.spaces[active].order)
            };
            self.spaces[active].focused = heir;
        }
        assert(self@ =~= old(self)@.with_current(old(self)@.current().sending(position as int)));
        let focus: Option<T> = self.spaces[active].focused;
        // The moved window becomes the focus of where it lands.
        self.spaces[index].order.push(moved);
        self.spaces[index].focused = Some(moved);
        assert(self@ =~= old(self)@.moved(*window, index as int));
        Some(focus)
    }

    /// Forget a window everywhere.
    ///
    /// Searches every workspace, not just the active one: a client can close a
    /// window on a workspace nobody is looking at.
    pub fn remove(&mut self, window: &T)
        ensures
            final(self)@ == old(self)@.removed(*window),
            old(self)@.valid() ==> final(self)@.valid(),
    {
        let count: usize = self.spaces.len();
        for i in 0..count
            invariant
                self.active == old(self).active,
                count == self.spaces@.len(),
                self.spaces@.len() == old(self).spaces@.len(),
                forall|k: int|
                    0 <= k < i ==> (#[trigger] self.spaces@[k])@ == old(self)@.all[k].forgetting(
                        *window,
                    ),
                forall|k: int|
                    i <= k < self.spaces@.len() ==> (#[trigger] self.spaces@[k])@ == old(
                        self,
                    )@.all[k],
        {
            self.spaces[i].forget(window);
        }
        assert(self@ =~= old(self)@.removed(*window));
    }

    /// Which workspace a window is on: the first, if it is on several.
    pub fn workspace_of(&self, window: &T) -> (found: Option<usize>)
        ensures
            found is Some <==> self@.holds(*window),
            found is Some ==> {
                &&& found->Some_0 < self@.all.len()
                &&& self@.all[found->Some_0 as int].order.contains(*window)
                &&& forall|k: int|
                    0 <= k < found->Some_0 ==> !(#[trigger] self@.all[k]).order.contains(*window)
            },
    {
        for i in 0..self.spaces.len()
            invariant
                forall|k: int|
                    0 <= k < i ==> !(#[trigger] self@.all[k]).order.contains(*window),
        {
            if find(&self.spaces[i].order, window).is_some() {
                assert(self@.all[i as int].order.contains(*window));
                return Some(i);
            }
        }
        None
    }

    /// Grow or shrink the set, keeping windows.
    ///
    /// Windows on workspaces that disappear are moved to the last surviving one
    /// rather than dropped.
    pub fn resize(&mut self, count: usize, tiling: bool, layout: Layout)
        requires
            old(self)@.valid(),
        ensures
            final(self)@ == old(self)@.resized(count as int, tiling, layout),
            final(self)@.valid(),
    {
        let count: usize = if count < 1 {
            1
        } else {
            count
        };
        let ghost start = self@;
        while self.spaces.len() < count
            invariant
                count >= 1,
                start.valid(),
                start.all.len() <= self.spaces@.len(),
                self.active == start.active,
                self.spaces@.len() <= count || self.spaces@.len() == start.all.len(),
                forall|k: int|
                    0 <= k < start.all.len() ==> (#[trigger] self.spaces@[k])@ == start.all[k],
                forall|k: int|
                    start.all.len() <= k < self.spaces@.len() ==> (#[trigger] self.spaces@[k])@
                        == Desk::<T>::empty(tiling, layout),
            decreases count - self.spaces@.len(),
        {
            self.spaces.push(Workspace::new(tiling, layout));
        }
        let ghost grown = start.grown(count as int, tiling, layout);
        assert(self@ =~= grown);
        while self.spaces.len() > count
            invariant
                count >= 1,
                self.active == start.active,
                self.spaces@.len() >= count,
                self@.shrunk(count as int) == grown.shrunk(count as int),
            decreases self.spaces@.len(),
        {
            let ghost before = self@;
            match self.spaces.pop() {
                Some(mut dropped) => {
                    let last: usize = self.spaces.len() - 1;
                    self.spaces[last].order.append(&mut dropped.order);
                },
                None => {},
            }
            assert(self@ =~= before.shortened());
        }
        assert(self@ == grown.shrunk(count as int));
        if self.active >= self.spaces.len() {
            self.active = self.spaces.len() - 1;
        }
        assert(self@ =~= start.resized(count as int, tiling, layout));
    }
}

proof fn lemma_windows_on_same<T>(a: Desks<T>, b: Desks<T>, n: int)
    requires
        0 <= n <= a.all.len(),
        n <= b.all.len(),
        forall|i: int| 0 <= i < n ==> a.all[i].order == b.all[i].order,
    ensures
        a.windows_on(n) == b.windows_on(n),
    decreases n,
{
    if n > 0 {
        lemma_windows_on_same(a, b, n - 1);
    }
}

proof fn lemma_grown_windows<T>(d: Desks<T>, count: int, tiling: bool, layout: Layout, n: int)
    requires
        d.all.len() <= n <= d.grown(count, tiling, layout).all.len(),
    ensures
        d.grown(count, tiling, layout).windows_on(n) == d.windows(),
    decreases n - d.all.len(),
{
    let g = d.grown(count, tiling, layout);
    if n == d.all.len() {
        lemma_windows_on_same(g, d, n);
    } else {
        lemma_grown_windows(d, count, tiling, layout, n - 1);
        assert(g.all[n - 1].order =~= Seq::<T>::empty());
        broadcast use vstd::seq_lib::group_to_multiset_ensures;

        assert(Seq::<T>::empty().to_multiset() =~= Multiset::empty()) by {
            assert(Seq::<T>::empty().to_multiset().len() == 0);
        }
        assert(g.windows_on(n) =~= g.windows_on(n - 1));
    }
}

proof fn lemma_shrunk_windows<T>(d: Desks<T>, count: int)
    requires
        count >= 1,
    ensures
        d.shrunk(count).windows() == d.windows(),
    decreases d.all.len(),
{
    if d.all.len() > count {
        let s = d.shortened();
        let n = d.all.len() as int;
        lemma_shrunk_windows(s, count);
        lemma_windows_on_same(s, d, n - 2);
        vstd::seq_lib::lemma_multiset_commutative(d.all[n - 2].order, d.all[n - 1].order);
        assert(s.all[n - 2].order == d.all[n - 2].order + d.all[n - 1].order);
        assert(d.windows() == d.windows_on(n - 2).add(d.all[n - 2].order.to_multiset()).add(
            d.all[n - 1].order.to_multiset(),
        )) by {
            assert(d.windows_on(n - 1) == d.windows_on(n - 2).add(
                d.all[n - 2].order.to_multiset(),
            ));
        }
        assert(s.windows() =~= d.windows());
    }
}

/// Growing or shrinking the set keeps every window, however often it is there.
pub proof fn resizing_loses_no_window<T>(d: Desks<T>, count: int, tiling: bool, layout: Layout)
    requires
        d.valid(),
    ensures
        d.resized(count, tiling, layout).windows() == d.windows(),
{
    let count = if count < 1 {
        1
    } else {
        count
    };
    let g = d.grown(count, tiling, layout);
    lemma_grown_windows(d, count, tiling, layout, g.all.len() as int);
    lemma_shrunk_windows(g, count);
    let sized = g.shrunk(count);
    lemma_windows_on_same(d.resized(count, tiling, layout), sized, sized.all.len() as int);
}

proof fn lemma_shrunk_len<T>(d: Desks<T>, count: int)
    requires
        count >= 1,
        d.all.len() >= count,
    ensures
        d.shrunk(count).all.len() == count,
        d.shrunk(count).active == d.active,
    decreases d.all.len(),
{
    if d.all.len() > count {
        lemma_shrunk_len(d.shortened(), count);
    }
}

/// After a resize there are as many workspaces as asked for, at least one, and
/// the one on screen is one of them.
pub proof fn resizing_gives_the_count_asked_for<T>(
    d: Desks<T>,
    count: int,
    tiling: bool,
    layout: Layout,
)
    requires
        d.valid(),
    ensures
        d.resized(count, tiling, layout).valid(),
        d.resized(count, tiling, layout).all.len() == (if count < 1 {
            1
        } else {
            count
        }),
{
    let count = if count < 1 {
        1
    } else {
        count
    };
    lemma_shrunk_len(d.grown(count, tiling, layout), count);
}

/// A window that is removed is on no workspace afterwards, nor has it the
/// focus of any.
pub proof fn a_removed_window_is_nowhere<T>(d: Desks<T>, window: T)
    ensures
        !d.removed(window).holds(window),
        forall|i: int|
            0 <= i < d.all.len() ==> (#[trigger] d.removed(window).all[i]).focused != Some(window),
{
    assert forall|i: int| 0 <= i < d.all.len() implies !(#[trigger] d.removed(
        window,
    ).all[i]).order.contains(window) && d.removed(window).all[i].focused != Some(window) by {
        let order = d.all[i].order;
        let pred = |w: T| w != window;
        broadcast use vstd::seq_lib::group_filter_ensures;

        let left = without(order, window);
        if left.contains(window) {
            let k = left.index_of(window);
            assert(pred(left[k]));
        }
        if left.len() > 0 {
            assert(pred(left[left.len() - 1]));
        }
    }
}

/// Going to another workspace and coming back leaves the set as it was.
pub proof fn switching_back_undoes_a_switch<T>(d: Desks<T>, index: int)
    requires
        d.valid(),
        d.elsewhere(index),
    ensures
        d.switched(index).switched(d.active) == d,
        d.switched(index).current() == d.all[index],
{
}

/// A window that is sent elsewhere is on the workspace it was sent to, has the
/// focus there, and keyboard focus stays on the workspace left behind.
pub proof fn a_moved_window_arrives<T>(d: Desks<T>, window: T, index: int)
    requires
        d.valid(),
        d.can_move(window, index),
    ensures
        d.moved(window, index).active == d.active,
        d.moved(window, index).all[index].order.last() == window,
        d.moved(window, index).all[index].arrival_focus() == Some(window),
        d.moved(window, index).current().order.len() == d.current().order.len() - 1,
{
    d.current().order.index_of_first_ensures(window);
}

/// A list without a window holds what it held, but for that one, and nothing
/// twice that it did not hold twice.
pub proof fn lemma_without<T>(order: Seq<T>, window: T, other: T)
    requires
        order.no_duplicates(),
    ensures
        without(order, window).contains(other) == (order.contains(other) && other != window),
        without(order, window).no_duplicates(),
{
    let keep = |w: T| w != window;
    utils::lemma_filter_members(order, keep, other);
    lemma_filter_distinct(order, keep);
}

proof fn lemma_filter_distinct<T>(order: Seq<T>, keep: spec_fn(T) -> bool)
    requires
        order.no_duplicates(),
    ensures
        order.filter(keep).no_duplicates(),
    decreases order.len(),
{
    reveal(Seq::filter);
    if order.len() > 0 {
        let rest = order.drop_last();
        lemma_filter_distinct(rest, keep);
        if keep(order.last()) {
            utils::lemma_filter_members(rest, keep, order.last());
            let kept = rest.filter(keep);
            let all = kept.push(order.last());
            assert(!rest.contains(order.last()));
            assert forall|i: int, j: int| 0 <= i < j < all.len() implies all[i] != all[j] by {
                if j == kept.len() {
                    assert(kept.contains(kept[i]));
                }
            }
        }
    }
}

/// A list without a window holds all that it held but that one.
pub proof fn lemma_members_without<T>(order: Seq<T>, window: T, other: T)
    ensures
        without(order, window).contains(other) == (order.contains(other) && other != window),
{
    utils::lemma_filter_members(order, |w: T| w != window, other);
}

/// When a window is gone its workspace loses nothing else, and the keyboard goes
/// to the last window that is left where the one that is gone had it.
pub proof fn the_last_window_takes_over<T>(desk: Desk<T>, window: T, other: T)
    ensures
        ({
            let after = desk.forgetting(window);
            &&& !after.order.contains(window)
            &&& other != window ==> after.order.contains(other) == desk.order.contains(other)
            &&& desk.focused != Some(window) ==> after.focused == desk.focused
            &&& desk.focused == Some(window) && after.order.len() > 0 ==> after.focused == Some(
                after.order.last(),
            )
            &&& desk.focused == Some(window) && after.order.len() == 0 ==> after.focused is None
            &&& after.tiling == desk.tiling
            &&& after.layout == desk.layout
        }),
{
    lemma_members_without(desk.order, window, window);
    lemma_members_without(desk.order, window, other);
}

/// A change of how many workspaces there are leaves the one on screen on screen,
/// where it stays, and shows the last one where it does not.
pub proof fn the_workspace_on_screen_stays<T>(
    d: Desks<T>,
    count: int,
    tiling: bool,
    layout: Layout,
)
    requires
        d.valid(),
        1 <= count,
    ensures
        d.active < count ==> d.resized(count, tiling, layout).active == d.active,
        d.active >= count ==> d.resized(count, tiling, layout).active == count - 1,
{
    lemma_shrunk_active(d.grown(count, tiling, layout), count);
}

proof fn lemma_shrunk_active<T>(d: Desks<T>, count: int)
    ensures
        d.shrunk(count).active == d.active,
    decreases d.all.len(),
{
    if !(count < 1 || d.all.len() <= count) {
        lemma_shrunk_active(d.shortened(), count);
    }
}

} // verus!
