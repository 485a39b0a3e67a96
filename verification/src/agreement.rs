//! The screen and the workspaces agree.
//!
//! Whatever is done to a session, the windows on screen are those of the active
//! workspace, every window is on one workspace and there once, and a workspace's
//! focus is one of its own windows. A window that is on screen but on no active
//! workspace would be hit by clicks and tiled by nothing; one that is on the
//! workspace but not on screen would leave a gap that nothing fills.

use vstd::prelude::*;

use crate::bindings::{Binding, ModKey, ModifiersState};
use crate::config::Config;
use crate::layout;
use crate::layout::Layout;
use crate::number::Number;
use crate::session;
use crate::session::{Place, Scene, Step, Turn};
use crate::utils;
use crate::utils::{Point, Rectangle, Size};
use crate::workspace;
use crate::workspace::{Desk, Desks};

verus! {

/// A workspace lists each window once, and its focus is one of them.
pub open spec fn sound_desk(desk: Desk<u64>) -> bool {
    desk.order.no_duplicates() && (desk.focused matches Some(window) ==> desk.order.contains(
        window,
    ))
}

/// Every workspace is sound, and no window is on two of them.
pub open spec fn sound(desks: Desks<u64>) -> bool {
    &&& desks.valid()
    &&& forall|i: int| 0 <= i < desks.all.len() ==> sound_desk(#[trigger] desks.all[i])
    &&& forall|i: int, j: int, window: u64|
        0 <= i < j < desks.all.len() && #[trigger] desks.all[i].order.contains(window)
            ==> !#[trigger] desks.all[j].order.contains(window)
}

/// Whether a window is on screen.
pub open spec fn shows(stack: Seq<Place>, window: u64) -> bool {
    session::location(stack, window) is Some
}

/// The workspaces are sound, and the screen shows the active one.
pub open spec fn agrees(scene: Scene) -> bool {
    &&& scene.valid()
    &&& sound(scene.desks)
    &&& forall|window: u64| #[trigger]
        shows(scene.stack, window) == scene.order().contains(window)
}

proof fn lemma_shows_from(stack: Seq<Place>, window: u64, from: int)
    requires
        0 <= from <= stack.len(),
    ensures
        session::location_from(stack, window, from) is Some == (exists|i: int|
            from <= i < stack.len() && (#[trigger] stack[i]).window == window),
    decreases stack.len() - from,
{
    if from < stack.len() && stack[from].window != window {
        lemma_shows_from(stack, window, from + 1);
    }
}

/// A window is on screen where some place is its own.
pub proof fn lemma_shows(stack: Seq<Place>, window: u64)
    ensures
        shows(stack, window) == (exists|i: int|
            0 <= i < stack.len() && (#[trigger] stack[i]).window == window),
{
    lemma_shows_from(stack, window, 0);
}

pub proof fn lemma_lifted(stack: Seq<Place>, gone: u64, window: u64)
    ensures
        shows(session::lifted(stack, gone), window) == (window != gone && shows(stack, window)),
{
    let keep = |place: Place| place.window != gone;
    let left = session::lifted(stack, gone);
    lemma_shows(stack, window);
    lemma_shows(left, window);
    if shows(left, window) {
        let i = choose|i: int| 0 <= i < left.len() && (#[trigger] left[i]).window == window;
        assert(left.contains(left[i]));
        utils::lemma_filter_members(stack, keep, left[i]);
        let k = stack.index_of(left[i]);
        assert(stack[k].window == window);
    }
    if window != gone && shows(stack, window) {
        let i = choose|i: int| 0 <= i < stack.len() && (#[trigger] stack[i]).window == window;
        assert(stack.contains(stack[i]));
        utils::lemma_filter_members(stack, keep, stack[i]);
        let k = left.index_of(stack[i]);
        assert(left[k].window == window);
    }
}

proof fn lemma_mapping(turn: Turn, window: u64, at: Point, activate: bool, other: u64)
    ensures
        shows(turn.mapping(window, at, activate).scene.stack, other) == (other == window || shows(
            turn.scene.stack,
            other,
        )),
        turn.mapping(window, at, activate).scene.desks == turn.scene.desks,
{
    let left = session::lifted(turn.scene.stack, window);
    let stack = turn.mapping(window, at, activate).scene.stack;
    lemma_lifted(turn.scene.stack, window, other);
    lemma_shows(stack, other);
    lemma_shows(left, other);
    if shows(left, other) {
        let i = choose|i: int| 0 <= i < left.len() && (#[trigger] left[i]).window == other;
        assert(stack[i].window == other);
    }
    if other == window {
        assert(stack[stack.len() - 1].window == window);
    }
    if shows(stack, other) && other != window {
        let i = choose|i: int| 0 <= i < stack.len() && (#[trigger] stack[i]).window == other;
        assert(left[i].window == other);
    }
}

proof fn lemma_take_push<T>(list: Seq<T>, n: int, item: T)
    requires
        0 < n <= list.len(),
    ensures
        list.take(n).contains(item) == (list.take(n - 1).contains(item) || list[n - 1] == item),
{
    let (now, before) = (list.take(n), list.take(n - 1));
    if before.contains(item) {
        assert(now[before.index_of(item)] == item);
    }
    if list[n - 1] == item {
        assert(now[n - 1] == item);
    }
    if now.contains(item) && list[n - 1] != item {
        assert(before[now.index_of(item)] == item);
    }
}

proof fn lemma_hiding_all(turn: Turn, windows: Seq<u64>, n: int, other: u64)
    requires
        0 <= n <= windows.len(),
    ensures
        shows(turn.hiding_all(windows, n).scene.stack, other) == (shows(turn.scene.stack, other)
            && !windows.take(n).contains(other)),
        turn.hiding_all(windows, n).scene.desks == turn.scene.desks,
        turn.hiding_all(windows, n).scene.output == turn.scene.output,
    decreases n,
{
    if n > 0 {
        lemma_hiding_all(turn, windows, n - 1, other);
        lemma_lifted(turn.hiding_all(windows, n - 1).scene.stack, windows[n - 1], other);
        lemma_take_push(windows, n, other);
    }
}

proof fn lemma_showing_all(turn: Turn, windows: Seq<u64>, n: int, other: u64)
    requires
        0 <= n <= windows.len(),
    ensures
        shows(turn.showing_all(windows, n).scene.stack, other) == (shows(turn.scene.stack, other)
            || windows.take(n).contains(other)),
        turn.showing_all(windows, n).scene.desks == turn.scene.desks,
        turn.showing_all(windows, n).scene.output == turn.scene.output,
    decreases n,
{
    if n > 0 {
        lemma_showing_all(turn, windows, n - 1, other);
        let before = turn.showing_all(windows, n - 1);
        lemma_mapping(
            before,
            windows[n - 1],
            session::or_corner(before.scene.window(windows[n - 1]).geometry.floating),
            false,
            other,
        );
        lemma_take_push(windows, n, other);
    }
}

proof fn lemma_tiling_all(turn: Turn, windows: Seq<u64>, tiles: Seq<Rectangle>, n: int, other: u64)
    requires
        0 <= n <= windows.len(),
    ensures
        shows(turn.tiling_all(windows, tiles, n).scene.stack, other) == (shows(
            turn.scene.stack,
            other,
        ) || windows.take(n).contains(other)),
        turn.tiling_all(windows, tiles, n).scene.desks == turn.scene.desks,
        turn.tiling_all(windows, tiles, n).scene.output == turn.scene.output,
    decreases n,
{
    if n > 0 {
        lemma_tiling_all(turn, windows, tiles, n - 1, other);
        let before = turn.tiling_all(windows, tiles, n - 1);
        let (window, tile) = (windows[n - 1], tiles[n - 1]);
        let asked = before.with_geometry(
            window,
            before.scene.remembering(window).marked_displaced(true),
        ).saying(
            Step::Configure { window, size: tile.size, tiled: Some(true), maximized: None },
        );
        lemma_mapping(asked, window, tile.loc, false, other);
        lemma_take_push(windows, n, other);
    }
}

proof fn lemma_untiling_all(turn: Turn, windows: Seq<u64>, n: int, other: u64)
    requires
        0 <= n <= windows.len(),
        forall|i: int|
            0 <= i < windows.len() ==> shows(turn.scene.stack, #[trigger] windows[i]),
    ensures
        shows(turn.untiling_all(windows, n).scene.stack, other) == shows(turn.scene.stack, other),
        turn.untiling_all(windows, n).scene.desks == turn.scene.desks,
        turn.untiling_all(windows, n).scene.output == turn.scene.output,
    decreases n,
{
    if n > 0 {
        lemma_untiling_all(turn, windows, n - 1, other);
        let before = turn.untiling_all(windows, n - 1);
        let window = windows[n - 1];
        let geometry = before.scene.window(window).geometry;
        let freed = before.with_geometry(window, geometry.marked_displaced(false));
        match geometry.floating {
            Some(rect) => {
                let asked = freed.saying(
                    Step::Configure {
                        window,
                        size: rect.size,
                        tiled: Some(false),
                        maximized: None,
                    },
                );
                lemma_mapping(asked, window, rect.loc, false, other);
                assert(shows(turn.scene.stack, windows[n - 1]));
            },
            None => {},
        }
    }
}

proof fn lemma_clearing(turn: Turn, stack: Seq<Place>, visible: Seq<u64>, n: int, other: u64)
    requires
        0 <= n <= stack.len(),
    ensures
        shows(turn.clearing(stack, visible, n).scene.stack, other) == (shows(
            turn.scene.stack,
            other,
        ) && (visible.contains(other) || !exists|i: int|
            0 <= i < n && (#[trigger] stack[i]).window == other)),
        turn.clearing(stack, visible, n).scene.desks == turn.scene.desks,
        turn.clearing(stack, visible, n).scene.output == turn.scene.output,
    decreases n,
{
    if n > 0 {
        lemma_clearing(turn, stack, visible, n - 1, other);
        let window = stack[n - 1].window;
        lemma_lifted(turn.clearing(stack, visible, n - 1).scene.stack, window, other);
        if exists|i: int| 0 <= i < n && (#[trigger] stack[i]).window == other {
            let i = choose|i: int| 0 <= i < n && (#[trigger] stack[i]).window == other;
            if window != other {
                assert(i < n - 1);
            }
        }
        if exists|i: int| 0 <= i < n - 1 && (#[trigger] stack[i]).window == other {
            let i = choose|i: int| 0 <= i < n - 1 && (#[trigger] stack[i]).window == other;
            assert(0 <= i < n && stack[i].window == other);
        }
        if window == other {
            assert(stack[n - 1].window == other);
        }
    }
}

proof fn lemma_filling(turn: Turn, visible: Seq<u64>, n: int, other: u64)
    requires
        0 <= n <= visible.len(),
    ensures
        shows(turn.filling(visible, n).scene.stack, other) == (shows(turn.scene.stack, other)
            || visible.take(n).contains(other)),
        turn.filling(visible, n).scene.desks == turn.scene.desks,
        turn.filling(visible, n).scene.output == turn.scene.output,
    decreases n,
{
    if n > 0 {
        lemma_filling(turn, visible, n - 1, other);
        lemma_filling(turn, visible, n - 1, visible[n - 1]);
        let before = turn.filling(visible, n - 1);
        lemma_mapping(
            before,
            visible[n - 1],
            session::or_corner(before.scene.window(visible[n - 1]).geometry.floating),
            false,
            other,
        );
        lemma_take_push(visible, n, other);
    }
}

/// Changing the workspace on screen in a way that keeps its windows, and gives
/// the focus to one of them or to none, keeps the set sound.
proof fn lemma_sound_desk(desks: Desks<u64>, desk: Desk<u64>)
    requires
        sound(desks),
        sound_desk(desk),
        forall|window: u64| #[trigger]
            desk.order.contains(window) ==> desks.current().order.contains(window),
    ensures
        sound(desks.with_current(desk)),
{
    let changed = desks.with_current(desk);
    assert forall|i: int, j: int, window: u64|
        0 <= i < j < changed.all.len() && #[trigger] changed.all[i].order.contains(
            window,
        ) implies !#[trigger] changed.all[j].order.contains(window) by {
        assert(desks.all[i].order.contains(window));
        assert(!desks.all[j].order.contains(window));
        if j == desks.active {
            assert(desk.order.contains(window) ==> desks.current().order.contains(window));
        }
    }
}

/// Giving the keyboard to a window of the active workspace keeps the agreement.
pub proof fn focusing_keeps_the_agreement(turn: Turn, window: u64)
    requires
        agrees(turn.scene),
        turn.scene.order().contains(window),
    ensures
        agrees(turn.focusing(window).scene),
        turn.focusing(window).scene.order() == turn.scene.order(),
{
    let desk = Desk { focused: Some(window), ..turn.scene.desks.current() };
    lemma_sound_desk(turn.scene.desks, desk);
    let given = turn.with_desk(desk);
    let at = session::or_origin(session::location(turn.scene.stack, window));
    assert forall|other: u64| #[trigger]
        shows(turn.focusing(window).scene.stack, other) == turn.focusing(
            window,
        ).scene.order().contains(other) by {
        lemma_mapping(given, window, at, true, other);
        assert(shows(turn.scene.stack, other) == turn.scene.order().contains(other));
    }
}

proof fn lemma_handing(turn: Turn, focus: Option<u64>)
    requires
        agrees(turn.scene),
        focus matches Some(window) ==> turn.scene.order().contains(window),
    ensures
        agrees(turn.handing(focus).scene),
{
    match focus {
        Some(window) => focusing_keeps_the_agreement(turn, window),
        None => {},
    }
}

/// Laying the windows out keeps the agreement.
pub proof fn relayout_keeps_the_agreement(turn: Turn, wanted: i32)
    requires
        agrees(turn.scene),
    ensures
        agrees(turn.laid_out(wanted).scene),
{
    let windows = turn.scene.tiled();
    let after = turn.laid_out(wanted);
    if turn.scene.desks.current().tiling {
        assert forall|other: u64| #[trigger]
            shows(after.scene.stack, other) == after.scene.order().contains(other) by {
            lemma_tiling_all(
                turn,
                windows,
                turn.scene.tiles(wanted),
                windows.len() as int,
                other,
            );
            assert(windows.take(windows.len() as int) =~= windows);
            utils::lemma_filter_members(
                turn.scene.order(),
                |window: u64| !turn.scene.window(window).geometry.exempt,
                other,
            );
            assert(shows(turn.scene.stack, other) == turn.scene.order().contains(other));
        }
        lemma_tiling_all(turn, windows, turn.scene.tiles(wanted), windows.len() as int, 0);
    }
}

/// Going to another workspace keeps the agreement.
pub proof fn switching_keeps_the_agreement(turn: Turn, index: int)
    requires
        agrees(turn.scene),
    ensures
        agrees(turn.switching(index).scene),
{
    let desks = turn.scene.desks;
    if desks.elsewhere(index) {
        let hide = desks.current().order;
        let show = desks.all[index].order;
        let switched = turn.with_desks(desks.switched(index));
        let hidden = switched.hiding_all(hide, hide.len() as int);
        let shown = hidden.showing_all(show, show.len() as int);
        assert(sound(desks.switched(index)));
        lemma_hiding_all(switched, hide, hide.len() as int, 0);
        lemma_showing_all(hidden, show, show.len() as int, 0);
        assert forall|other: u64| #[trigger]
            shows(shown.scene.stack, other) == shown.scene.order().contains(other) by {
            lemma_hiding_all(switched, hide, hide.len() as int, other);
            lemma_showing_all(hidden, show, show.len() as int, other);
            assert(hide.take(hide.len() as int) =~= hide);
            assert(show.take(show.len() as int) =~= show);
            assert(shows(turn.scene.stack, other) == turn.scene.order().contains(other));
        }
        let focus = desks.all[index].arrival_focus();
        assert(sound_desk(desks.all[index]));
        if focus is Some && desks.all[index].focused is None {
            assert(show[show.len() - 1] == focus->Some_0);
        }
        lemma_handing(shown, focus);
    }
}

proof fn lemma_removed_index(order: Seq<u64>, k: int, window: u64)
    requires
        order.no_duplicates(),
        0 <= k < order.len(),
    ensures
        order.remove(k).no_duplicates(),
        order.remove(k).contains(window) == (order.contains(window) && window != order[k]),
{
    let left = order.remove(k);
    assert forall|i: int| 0 <= i < left.len() implies #[trigger] left[i] == order[if i < k {
        i
    } else {
        i + 1
    }] by {}
    if left.contains(window) {
        let i = left.index_of(window);
        assert(order[if i < k {
            i
        } else {
            i + 1
        }] == window);
    }
    if order.contains(window) && window != order[k] {
        let i = order.index_of(window);
        assert(left[if i < k {
            i
        } else {
            i - 1
        }] == window);
    }
}

proof fn lemma_pushed(order: Seq<u64>, added: u64, window: u64)
    ensures
        order.push(added).contains(window) == (order.contains(window) || window == added),
        order.no_duplicates() && !order.contains(added) ==> order.push(added).no_duplicates(),
{
    let more = order.push(added);
    assert(more.take(more.len() as int) =~= more);
    assert(more.take(more.len() - 1) =~= order);
    lemma_take_push(more, more.len() as int, window);
    if order.no_duplicates() && !order.contains(added) {
        assert forall|i: int, j: int| 0 <= i < j < more.len() implies more[i] != more[j] by {
            if j == order.len() {
                assert(order.contains(order[i]));
            }
        }
    }
}

/// Sending a window to another workspace keeps the set sound.
proof fn lemma_moved(desks: Desks<u64>, window: u64, index: int)
    requires
        sound(desks),
        desks.can_move(window, index),
    ensures
        sound(desks.moved(window, index)),
        forall|other: u64| #[trigger]
            desks.moved(window, index).current().order.contains(other) == (
            desks.current().order.contains(other) && other != window),
{
    let order = desks.current().order;
    order.index_of_first_ensures(window);
    let position = order.index_of_first(window)->Some_0;
    let sent = desks.current().sending(position);
    let target = desks.all[index];
    let received = target.receiving(window);
    let moved = desks.moved(window, index);
    assert(sound_desk(desks.all[desks.active]));
    assert(sound_desk(target));
    assert(!target.order.contains(window)) by {
        if desks.active < index {
            assert(desks.all[desks.active].order.contains(window));
        } else if target.order.contains(window) {
            assert(!desks.all[desks.active].order.contains(window));
        }
    }
    lemma_removed_index(order, position, window);
    lemma_pushed(target.order, window, window);
    assert(sound_desk(received));
    assert(sound_desk(sent)) by {
        match sent.focused {
            Some(focus) => {
                lemma_removed_index(order, position, focus);
                if desks.current().focused == Some(window) {
                    if position < sent.order.len() {
                        assert(sent.order[position] == focus);
                    } else {
                        assert(sent.order[sent.order.len() - 1] == focus);
                    }
                }
            },
            None => {},
        }
    }
    assert(moved.all[desks.active] == sent);
    assert(moved.all[index] == received);
    assert forall|other: u64| #[trigger]
        moved.current().order.contains(other) == (order.contains(other) && other != window) by {
        lemma_removed_index(order, position, other);
    }
    assert forall|i: int, j: int, other: u64|
        0 <= i < j < moved.all.len() && #[trigger] moved.all[i].order.contains(
            other,
        ) implies !#[trigger] moved.all[j].order.contains(other) by {
        lemma_removed_index(order, position, other);
        lemma_pushed(target.order, window, other);
        let of_i = desks.all[i].order.contains(other);
        let of_j = desks.all[j].order.contains(other);
        assert(!(of_i && of_j));
        if other == window {
            // It was on the workspace that it left, and on no other.
            if i != desks.active && i != index {
                if i < desks.active {
                    assert(!desks.all[desks.active].order.contains(window));
                } else {
                    assert(desks.all[desks.active].order.contains(window));
                }
            }
            if j != desks.active && j != index {
                if j < desks.active {
                    assert(!desks.all[j].order.contains(window) || !desks.all[desks.active].order.contains(window));
                } else {
                    assert(desks.all[desks.active].order.contains(window));
                }
            }
        }
    }
}

/// Sending the focused window to another workspace keeps the agreement.
pub proof fn sending_keeps_the_agreement(turn: Turn, index: int)
    requires
        agrees(turn.scene),
    ensures
        agrees(turn.sending(index).scene),
{
    let desks = turn.scene.desks;
    match desks.current().focused {
        Some(window) => {
            if desks.can_move(window, index) {
                lemma_moved(desks, window, index);
                let moved = desks.moved(window, index);
                let left = turn.with_desks(moved).unmapping(window);
                assert forall|other: u64| #[trigger]
                    shows(left.scene.stack, other) == left.scene.order().contains(other) by {
                    lemma_lifted(turn.scene.stack, window, other);
                    assert(shows(turn.scene.stack, other) == turn.scene.order().contains(other));
                }
                assert(sound_desk(moved.all[moved.active]));
                lemma_handing(left, moved.current().focused);
            }
        },
        None => {},
    }
}

proof fn lemma_swapped(order: Seq<u64>, a: int, b: int, window: u64)
    requires
        order.no_duplicates(),
        0 <= a < order.len(),
        0 <= b < order.len(),
    ensures
        order.update(a, order[b]).update(b, order[a]).no_duplicates(),
        order.update(a, order[b]).update(b, order[a]).contains(window) == order.contains(window),
{
    let swapped = order.update(a, order[b]).update(b, order[a]);
    if order.contains(window) {
        let i = order.index_of(window);
        let k = if i == a {
            b
        } else if i == b {
            a
        } else {
            i
        };
        assert(swapped[k] == window);
    }
    if swapped.contains(window) {
        let i = swapped.index_of(window);
        let k = if i == b {
            a
        } else if i == a {
            b
        } else {
            i
        };
        assert(order[k] == window);
    }
}

/// Swapping two windows in the order keeps the agreement.
pub proof fn swapping_keeps_the_agreement(turn: Turn, a: int, b: int)
    requires
        agrees(turn.scene),
        0 <= a < turn.scene.order().len(),
        0 <= b < turn.scene.order().len(),
    ensures
        agrees(turn.swapping(a, b).scene),
{
    let order = turn.scene.order();
    let swapped = order.update(a, order[b]).update(b, order[a]);
    let desk = Desk { order: swapped, ..turn.scene.desks.current() };
    assert(sound_desk(turn.scene.desks.all[turn.scene.desks.active]));
    lemma_swapped(order, a, b, 0);
    assert forall|window: u64| #[trigger] swapped.contains(window) == order.contains(window) by {
        lemma_swapped(order, a, b, window);
    }
    lemma_sound_desk(turn.scene.desks, desk);
    let after = turn.swapping(a, b).scene;
    assert forall|other: u64| #[trigger]
        shows(after.stack, other) == after.order().contains(other) by {
        assert(shows(turn.scene.stack, other) == order.contains(other));
        assert(swapped.contains(other) == order.contains(other));
    }
}

/// Stepping the keyboard along the order, moving a window along it, and
/// promoting one, keep the agreement.
pub proof fn moving_along_keeps_the_agreement(turn: Turn, delta: int)
    requires
        agrees(turn.scene),
    ensures
        agrees(turn.stepping(delta).scene),
        agrees(turn.moving_in_order(delta).scene),
        agrees(turn.promoting().scene),
{
    let order = turn.scene.order();
    let n = order.len() as int;
    if n > 0 {
        let current = match turn.scene.focused() {
            Some(window) => match order.index_of_first(window) {
                Some(i) => i,
                None => 0,
            },
            None => 0,
        };
        vstd::arithmetic::div_mod::lemma_mod_bound(current + delta, n);
        let next = layout::stepped(n, current, delta);
        assert(order.contains(order[next]));
        focusing_keeps_the_agreement(turn, order[next]);
    }
    match turn.scene.focused() {
        Some(window) => {
            order.index_of_first_ensures(window);
            match order.index_of_first(window) {
                Some(from) => {
                    vstd::arithmetic::div_mod::lemma_mod_bound(from + delta, n);
                    swapping_keeps_the_agreement(turn, from, layout::stepped(n, from, delta));
                    let promotion = Some(
                        session::Promoted { window, displaced: order[0], at: from },
                    );
                    swapping_keeps_the_agreement(turn.with_promotion(promotion), 0, from);
                    if turn.scene.way_back() is Some {
                        swapping_keeps_the_agreement(
                            turn.with_promotion(None),
                            0,
                            turn.scene.way_back()->Some_0,
                        );
                    }
                },
                None => {},
            }
        },
        None => {},
    }
}

proof fn lemma_same_windows(turn: Turn, desk: Desk<u64>)
    requires
        agrees(turn.scene),
        desk.order == turn.scene.order(),
        desk.focused == turn.scene.focused(),
    ensures
        agrees(turn.with_desk(desk).scene),
{
    assert(sound_desk(turn.scene.desks.all[turn.scene.desks.active]));
    lemma_sound_desk(turn.scene.desks, desk);
    let after = turn.with_desk(desk).scene;
    assert forall|other: u64| #[trigger]
        shows(after.stack, other) == after.order().contains(other) by {
        assert(shows(turn.scene.stack, other) == turn.scene.order().contains(other));
    }
}

/// Turning tiling on or off keeps the agreement.
pub proof fn toggling_tiling_keeps_the_agreement(turn: Turn)
    requires
        agrees(turn.scene),
    ensures
        agrees(turn.toggling_tiling().scene),
{
    let on = !turn.scene.desks.current().tiling;
    let desk = Desk { tiling: on, ..turn.scene.desks.current() };
    lemma_same_windows(turn, desk);
    let toggled = turn.with_desk(desk);
    if !on {
        let windows = toggled.scene.tiled();
        assert forall|i: int| 0 <= i < windows.len() implies shows(
            toggled.scene.stack,
            #[trigger] windows[i],
        ) by {
            assert(windows.contains(windows[i]));
            utils::lemma_filter_members(
                toggled.scene.order(),
                |window: u64| !toggled.scene.window(window).geometry.exempt,
                windows[i],
            );
            assert(shows(toggled.scene.stack, windows[i]) == toggled.scene.order().contains(
                windows[i],
            ));
        }
        let after = toggled.untiling_all(windows, windows.len() as int);
        lemma_untiling_all(toggled, windows, windows.len() as int, 0);
        assert forall|other: u64| #[trigger]
            shows(after.scene.stack, other) == after.scene.order().contains(other) by {
            lemma_untiling_all(toggled, windows, windows.len() as int, other);
            assert(shows(toggled.scene.stack, other) == toggled.scene.order().contains(other));
        }
    }
}

proof fn lemma_remapped(turn: Turn, window: u64, at: Point, activate: bool)
    requires
        agrees(turn.scene),
        turn.scene.order().contains(window),
    ensures
        agrees(turn.mapping(window, at, activate).scene),
{
    let after = turn.mapping(window, at, activate).scene;
    assert forall|other: u64| #[trigger]
        shows(after.stack, other) == after.order().contains(other) by {
        lemma_mapping(turn, window, at, activate, other);
        assert(shows(turn.scene.stack, other) == turn.scene.order().contains(other));
    }
}

/// Floating a window of the active workspace, and maximising it, keep the
/// agreement.
pub proof fn toggling_a_window_keeps_the_agreement(turn: Turn, window: u64, output: Size)
    requires
        agrees(turn.scene),
        turn.scene.order().contains(window),
    ensures
        agrees(turn.toggling_floating(window).scene),
        agrees(turn.toggling_maximize(window, output).scene),
{
    let geometry = turn.scene.window(window).geometry;
    let freed = turn.with_geometry(window, geometry.marked_exempt(true).marked_displaced(false));
    assert(agrees(freed.scene));
    match geometry.floating {
        Some(rect) => {
            lemma_remapped(
                freed.saying(
                    Step::Configure { window, size: rect.size, tiled: None, maximized: None },
                ),
                window,
                rect.loc,
                true,
            );
            lemma_remapped(
                turn.with_geometry(window, geometry.marked_displaced(false)).saying(
                    Step::Configure {
                        window,
                        size: rect.size,
                        tiled: None,
                        maximized: Some(false),
                    },
                ),
                window,
                rect.loc,
                true,
            );
        },
        None => {},
    }
    let noted = turn.scene.remembering(window);
    let area = crate::panel::below_panel(output, turn.scene.panel_height);
    lemma_remapped(
        turn.with_geometry(window, noted.marked_displaced(true)).saying(
            Step::Configure { window, size: area.size, tiled: None, maximized: Some(true) },
        ),
        window,
        area.loc,
        true,
    );
}

/// Carrying out a binding keeps the agreement.
pub proof fn bindings_keep_the_agreement(
    turn: Turn,
    binding: Binding,
    wider: Number,
    output: Size,
)
    requires
        agrees(turn.scene),
    ensures
        agrees(turn.binding(binding, wider, output).scene),
{
    let desk = turn.scene.desks.current();
    assert(sound_desk(turn.scene.desks.all[turn.scene.desks.active]));
    match turn.scene.focused() {
        Some(window) => toggling_a_window_keeps_the_agreement(turn, window, output),
        None => {},
    }
    match binding {
        Binding::ToggleTiling => toggling_tiling_keeps_the_agreement(turn),
        Binding::CycleLayout => lemma_same_windows(
            turn,
            Desk { layout: desk.layout.following(), ..desk },
        ),
        Binding::Widen(_) => lemma_same_windows(
            turn,
            Desk { layout: desk.layout.widened(wider), ..desk },
        ),
        Binding::FocusStep(delta) => moving_along_keeps_the_agreement(turn, delta as int),
        Binding::MoveInOrder(delta) => moving_along_keeps_the_agreement(turn, delta as int),
        Binding::Promote => moving_along_keeps_the_agreement(turn, 0),
        Binding::Workspace(index) => switching_keeps_the_agreement(turn, index as int),
        Binding::SendToWorkspace(index) => sending_keeps_the_agreement(turn, index as int),
        _ => {},
    }
}

/// A window that appears, and was on no workspace before, keeps the agreement.
pub proof fn appearing_keeps_the_agreement(turn: Turn, window: u64, dialog: bool)
    requires
        agrees(turn.scene),
        !turn.scene.desks.holds(window),
    ensures
        agrees(turn.appearing(window, dialog).scene),
        turn.appearing(window, dialog).scene.focused() == Some(window),
{
    let desks = turn.scene.desks;
    let order = desks.current().order;
    let inserted = desks.inserted(window);
    assert(!desks.all[desks.active].order.contains(window));
    assert(sound_desk(desks.all[desks.active]));
    lemma_pushed(order, window, window);
    assert(sound_desk(inserted.all[desks.active])) by {
        match desks.current().focused {
            Some(focus) => lemma_pushed(order, window, focus),
            None => {},
        }
    }
    assert forall|i: int, j: int, other: u64|
        0 <= i < j < inserted.all.len() && #[trigger] inserted.all[i].order.contains(
            other,
        ) implies !#[trigger] inserted.all[j].order.contains(other) by {
        lemma_pushed(order, window, other);
        let of_i = desks.all[i].order.contains(other);
        let of_j = desks.all[j].order.contains(other);
        assert(!(of_i && of_j));
        if other == window {
            assert(!of_i && !of_j);
        }
    }
    assert(sound(inserted));
    let n = turn.scene.stack.len() as int;
    let at = Point {
        x: (40 + n * 30) as i32,
        y: (turn.scene.area().loc.y + 40 + n * 30) as i32,
    };
    let known = turn.knowing(window, session::unknown_window()).mapping(window, at, true).saying(
        Step::SendConfigure(window),
    );
    let exempted = if dialog {
        known.with_geometry(window, known.scene.remembering(window).marked_exempt(true))
    } else {
        known.with_geometry(window, known.scene.remembering(window))
    };
    let listed = exempted.with_desks(exempted.scene.desks.inserted(window));
    assert(listed.scene.desks == inserted);
    assert forall|other: u64| #[trigger]
        shows(listed.scene.stack, other) == listed.scene.order().contains(other) by {
        lemma_mapping(turn.knowing(window, session::unknown_window()), window, at, true, other);
        lemma_pushed(order, window, other);
        assert(shows(turn.scene.stack, other) == order.contains(other));
    }
    focusing_keeps_the_agreement(listed, window);
}

/// A window that is gone keeps the agreement: it is on no workspace and not on
/// screen.
pub proof fn vanishing_keeps_the_agreement(turn: Turn, window: u64)
    requires
        agrees(turn.scene),
    ensures
        agrees(turn.vanishing(window).scene),
        !shows(turn.vanishing(window).scene.stack, window),
        !turn.vanishing(window).scene.desks.holds(window),
{
    let desks = turn.scene.desks;
    let removed = desks.removed(window);
    workspace::a_removed_window_is_nowhere(desks, window);
    assert forall|i: int| 0 <= i < removed.all.len() implies sound_desk(#[trigger] removed.all[i])
        by {
        let desk = desks.all[i];
        assert(sound_desk(desk));
        let left = workspace::without(desk.order, window);
        workspace::lemma_without(desk.order, window, window);
        match removed.all[i].focused {
            Some(focus) => {
                workspace::lemma_without(desk.order, window, focus);
                if desk.focused == Some(window) {
                    assert(left[left.len() - 1] == focus);
                }
            },
            None => {},
        }
    }
    assert forall|i: int, j: int, other: u64|
        0 <= i < j < removed.all.len() && #[trigger] removed.all[i].order.contains(
            other,
        ) implies !#[trigger] removed.all[j].order.contains(other) by {
        assert(sound_desk(desks.all[i]));
        assert(sound_desk(desks.all[j]));
        workspace::lemma_without(desks.all[i].order, window, other);
        workspace::lemma_without(desks.all[j].order, window, other);
        assert(desks.all[i].order.contains(other));
    }
    let after = turn.vanishing(window).scene;
    assert(sound_desk(desks.all[desks.active]));
    assert forall|other: u64| #[trigger]
        shows(after.stack, other) == after.order().contains(other) by {
        lemma_lifted(turn.scene.stack, window, other);
        workspace::lemma_without(desks.current().order, window, other);
        assert(shows(turn.scene.stack, other) == desks.current().order.contains(other));
    }
    lemma_lifted(turn.scene.stack, window, window);
}

/// Focusing the topmost window keeps the agreement.
pub proof fn focusing_the_topmost_keeps_the_agreement(turn: Turn)
    requires
        agrees(turn.scene),
    ensures
        agrees(turn.focusing_topmost().scene),
{
    let stack = turn.scene.stack;
    if stack.len() > 0 {
        let window = stack.last().window;
        lemma_shows(stack, window);
        assert(stack[stack.len() - 1].window == window);
        assert(shows(stack, window) == turn.scene.order().contains(window));
        focusing_keeps_the_agreement(turn, window);
    } else {
        assert(sound_desk(turn.scene.desks.all[turn.scene.desks.active]));
        let desk = Desk { focused: None, ..turn.scene.desks.current() };
        lemma_sound_desk(turn.scene.desks, desk);
        let after = turn.with_desk(desk).scene;
        assert forall|other: u64| #[trigger]
            shows(after.stack, other) == after.order().contains(other) by {
            assert(shows(turn.scene.stack, other) == turn.scene.order().contains(other));
        }
    }
}

/// What a client draws keeps the agreement.
pub proof fn committing_keeps_the_agreement(
    turn: Turn,
    window: u64,
    size: Size,
    app_id: Option<Seq<char>>,
)
    requires
        agrees(turn.scene),
    ensures
        agrees(turn.committing(window, size, app_id).scene),
{
    let sized = turn.knowing(
        window,
        session::Window { size, ..turn.scene.window(window) },
    );
    assert(agrees(sized.scene));
    if shows(turn.scene.stack, window) {
        assert(turn.scene.order().contains(window));
        let before = sized.scene.window(window);
        let overlay = if before.overlay is None && app_id is Some {
            Some(app_id->Some_0 == session::OVERLAY_APP_ID@)
        } else {
            before.overlay
        };
        let exempt = before.geometry.marked_exempt(true);
        let placed = sized.knowing(window, session::Window { overlay, ..before }).knowing(
            window,
            session::Window { overlay, geometry: exempt, ..before },
        ).knowing(
            window,
            session::Window { overlay, geometry: exempt, placed: true, ..before },
        );
        let at = Point {
            x: session::share(sized.scene.output.w as int, before.size.w as int, 2) as i32,
            y: session::share(sized.scene.output.h as int, before.size.h as int, 3) as i32,
        };
        lemma_remapped(placed, window, at, true);
        let put = placed.mapping(window, at, true);
        let noted = put.with_geometry(window, put.scene.remembering(window));
        assert(agrees(noted.scene));
        focusing_keeps_the_agreement(noted, window);
    }
}

/// A press keeps the agreement, whatever of the screen it lands on.
pub proof fn pressing_keeps_the_agreement(
    turn: Turn,
    button: u32,
    at: Point,
    under: Option<(u64, (Number, Number))>,
    modifiers: ModifiersState,
)
    requires
        agrees(turn.scene),
        under matches Some((window, _)) ==> shows(turn.scene.stack, window),
    ensures
        agrees(turn.pressing(button, at, under, modifiers).scene),
{
    match turn.scene.pill_under(at) {
        Some(index) => switching_keeps_the_agreement(turn, index as int),
        None => {},
    }
    match under {
        Some((window, _)) => {
            assert(turn.scene.order().contains(window));
            focusing_keeps_the_agreement(turn, window);
        },
        None => {},
    }
}

/// Dragging a window that is on screen, or its edges, keeps the agreement, and so
/// does the end of the drag.
pub proof fn dragging_keeps_the_agreement(
    turn: Turn,
    window: u64,
    at: Point,
    rect: Rectangle,
    ask: bool,
)
    requires
        agrees(turn.scene),
        shows(turn.scene.stack, window),
    ensures
        agrees(turn.mapping(window, at, true).scene),
        agrees(turn.resizing(window, rect, ask).scene),
        agrees(turn.settling(window).scene),
{
    assert(turn.scene.order().contains(window));
    lemma_remapped(turn, window, at, true);
    let asked = turn.saying(
        Step::Configure { window, size: rect.size, tiled: None, maximized: None },
    );
    lemma_remapped(asked, window, rect.loc, true);
    lemma_remapped(turn, window, rect.loc, true);
    let settled = turn.settling(window).scene;
    assert(settled.stack == turn.scene.stack && settled.desks == turn.scene.desks);
    assert forall|other: u64| #[trigger]
        shows(settled.stack, other) == settled.order().contains(other) by {
        assert(shows(turn.scene.stack, other) == turn.scene.order().contains(other));
    }
}

proof fn lemma_grown(desks: Desks<u64>, count: int, tiling: bool, layout: Layout)
    requires
        sound(desks),
    ensures
        sound(desks.grown(count, tiling, layout)),
{
    let grown = desks.grown(count, tiling, layout);
    assert forall|i: int| 0 <= i < grown.all.len() implies sound_desk(#[trigger] grown.all[i]) by {
        if i < desks.all.len() {
            assert(grown.all[i] == desks.all[i]);
        } else {
            assert(grown.all[i] == Desk::<u64>::empty(tiling, layout));
        }
    }
    assert forall|i: int, j: int, window: u64|
        0 <= i < j < grown.all.len() && #[trigger] grown.all[i].order.contains(
            window,
        ) implies !#[trigger] grown.all[j].order.contains(window) by {
        if j < desks.all.len() {
            assert(grown.all[i] == desks.all[i] && grown.all[j] == desks.all[j]);
            assert(!desks.all[j].order.contains(window));
        } else {
            assert(grown.all[j] == Desk::<u64>::empty(tiling, layout));
        }
    }
}

/// Whether a set is sound but for the one that is on screen, which may have
/// gone.
spec fn sound_but_active(desks: Desks<u64>) -> bool {
    &&& desks.all.len() > 0
    &&& desks.active >= 0
    &&& sound(Desks { active: 0, ..desks })
}

proof fn lemma_shortened(desks: Desks<u64>)
    requires
        sound_but_active(desks),
        desks.all.len() >= 2,
    ensures
        sound_but_active(desks.shortened()),
{
    let n = desks.all.len() as int;
    let heir = desks.all[n - 2];
    let last = desks.all[n - 1];
    let whole = Desks { active: 0, ..desks };
    let order = heir.order + last.order;
    let short = Desks { active: 0, ..desks.shortened() };
    assert(sound_desk(whole.all[n - 2]));
    assert(sound_desk(whole.all[n - 1]));
    assert forall|i: int, j: int| 0 <= i < j < order.len() implies order[i] != order[j] by {
        if i < heir.order.len() && j >= heir.order.len() {
            assert(heir.order.contains(order[i]));
            assert(whole.all[n - 2].order.contains(order[i]));
            assert(!whole.all[n - 1].order.contains(order[i]));
            if order[i] == order[j] {
                assert(last.order[j - heir.order.len()] == order[i]);
            }
        }
    }
    assert forall|window: u64| #[trigger]
        order.contains(window) == (heir.order.contains(window) || last.order.contains(window)) by {
        if order.contains(window) {
            let k = order.index_of(window);
            if k < heir.order.len() {
                assert(heir.order[k] == window);
            } else {
                assert(last.order[k - heir.order.len()] == window);
            }
        }
        if heir.order.contains(window) {
            assert(order[heir.order.index_of(window)] == window);
        }
        if last.order.contains(window) {
            assert(order[heir.order.len() + last.order.index_of(window)] == window);
        }
    }
    assert(sound_desk(short.all[n - 2]));
    assert forall|i: int| 0 <= i < short.all.len() implies sound_desk(#[trigger] short.all[i]) by {
        if i < n - 2 {
            assert(short.all[i] == whole.all[i]);
        }
    }
    assert forall|i: int, j: int, window: u64|
        0 <= i < j < short.all.len() && #[trigger] short.all[i].order.contains(
            window,
        ) implies !#[trigger] short.all[j].order.contains(window) by {
        assert(short.all[i] == whole.all[i]);
        assert(whole.all[i].order.contains(window));
        assert(!whole.all[j].order.contains(window));
        if j == n - 2 {
            assert(!whole.all[n - 1].order.contains(window));
            assert(order.contains(window) == (heir.order.contains(window) || last.order.contains(
                window,
            )));
        }
    }
}

proof fn lemma_shrunk(desks: Desks<u64>, count: int)
    requires
        sound_but_active(desks),
        count >= 1,
    ensures
        sound_but_active(desks.shrunk(count)),
        desks.all.len() <= count ==> desks.shrunk(count) == desks,
        desks.all.len() > count ==> desks.shrunk(count).all.len() == count,
        desks.shrunk(count).active == desks.active,
    decreases desks.all.len(),
{
    if desks.all.len() > count {
        lemma_shortened(desks);
        lemma_shrunk(desks.shortened(), count);
    }
}

/// Changing how many workspaces there are keeps the set sound.
pub proof fn recounting_keeps_the_set_sound(
    desks: Desks<u64>,
    count: int,
    tiling: bool,
    layout: Layout,
)
    requires
        sound(desks),
    ensures
        sound(desks.resized(count, tiling, layout)),
{
    let wanted = if count < 1 {
        1
    } else {
        count
    };
    lemma_grown(desks, wanted, tiling, layout);
    let grown = desks.grown(wanted, tiling, layout);
    assert(sound(Desks { active: 0, ..grown })) by {
        let whole = Desks { active: 0, ..grown };
        assert(whole.all == grown.all);
    }
    lemma_shrunk(grown, wanted);
    let sized = grown.shrunk(wanted);
    let after = desks.resized(count, tiling, layout);
    assert(after.all == sized.all);
    assert(sound(Desks { active: 0, ..sized }));
    assert(after.valid());
    let whole = Desks { active: 0, ..sized };
    assert(forall|i: int| 0 <= i < after.all.len() ==> sound_desk(#[trigger] after.all[i])) by {
        assert(after.all == whole.all);
    }
}

/// Applying a configuration keeps the agreement.
pub proof fn configuring_keeps_the_agreement(turn: Turn, config: Config, mod_key: ModKey)
    requires
        agrees(turn.scene),
    ensures
        agrees(turn.configuring(config, mod_key).scene),
{
    let count = utils::larger(config.workspace_count as int, 1);
    let desks = turn.scene.desks;
    let recounted = turn.recounting(count, config.tiling_on_start);
    assert(agrees(recounted.scene)) by {
        if count != desks.all.len() {
            let layout = desks.current().layout;
            recounting_keeps_the_set_sound(desks, count, config.tiling_on_start, layout);
            let counted = turn.with_desks(desks.resized(count, config.tiling_on_start, layout));
            let visible = counted.scene.order();
            let stack = turn.scene.stack;
            let cleared = counted.clearing(stack, visible, stack.len() as int);
            lemma_clearing(counted, stack, visible, stack.len() as int, 0);
            lemma_filling(cleared, visible, visible.len() as int, 0);
            assert forall|other: u64| #[trigger]
                shows(recounted.scene.stack, other) == recounted.scene.order().contains(other) by {
                lemma_clearing(counted, stack, visible, stack.len() as int, other);
                lemma_filling(cleared, visible, visible.len() as int, other);
                lemma_shows(stack, other);
                assert(visible.take(visible.len() as int) =~= visible);
            }
        }
    }
    let set = Turn {
        scene: Scene {
            gaps: layout::Gaps { inner: config.inner_gap, outer: config.outer_gap },
            focus_follows_mouse: config.focus_follows_mouse,
            panel_height: config.panel_height,
            mod_key,
            ..recounted.scene
        },
        ..recounted
    };
    assert(agrees(set.scene)) by {
        assert forall|other: u64| #[trigger]
            shows(set.scene.stack, other) == set.scene.order().contains(other) by {
            assert(shows(recounted.scene.stack, other) == recounted.scene.order().contains(other));
        }
    }
    lemma_same_windows(
        set,
        Desk {
            layout: Layout::MasterStack { ratio: config.master_ratio.number },
            ..set.scene.desks.current()
        },
    );
}

/// A session starts in agreement: with nothing on any workspace, and nothing on
/// screen.
pub proof fn a_session_starts_in_agreement(config: Config, mod_key: ModKey)
    ensures
        agrees(session::starting_scene(config, mod_key)),
{
    let scene = session::starting_scene(config, mod_key);
    assert forall|other: u64| #[trigger]
        shows(scene.stack, other) == scene.order().contains(other) by {}
}

} // verus!
