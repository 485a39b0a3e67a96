//! What becomes of the windows.
//!
//! Each law says of an action where the keyboard, the order of the windows and
//! the windows themselves are afterwards, and that everything else is where it
//! was.

use vstd::prelude::*;

use crate::bindings::{Binding, ModKey, ModifiersState};
use crate::config::Config;
use crate::layout::Layout;
use crate::number::Number;
use crate::panel;
use crate::session;
use crate::session::{Place, Scene, Step, Turn, Window};
use crate::utils;
use crate::utils::{Point, Rectangle, Size};
use crate::workspace;
use crate::workspace::Desk;

verus! {

proof fn lemma_location_pushed(stack: Seq<Place>, place: Place, window: u64, from: int)
    requires
        0 <= from <= stack.len(),
    ensures
        session::location_from(stack.push(place), window, from) == match session::location_from(
            stack,
            window,
            from,
        ) {
            Some(at) => Some(at),
            None => if place.window == window {
                Some(place.at)
            } else {
                None
            },
        },
    decreases stack.len() - from,
{
    let more = stack.push(place);
    if from < stack.len() {
        assert(more[from] == stack[from]);
        lemma_location_pushed(stack, place, window, from + 1);
    } else {
        assert(more[from] == place);
        assert(session::location_from(more, window, from + 1) is None);
    }
}

/// A window stays where it is while another is taken off the screen.
proof fn lemma_location_lifted(stack: Seq<Place>, gone: u64, window: u64)
    ensures
        session::location(session::lifted(stack, gone), window) == if window == gone {
            None
        } else {
            session::location(stack, window)
        },
    decreases stack.len(),
{
    reveal(Seq::filter);
    if stack.len() > 0 {
        let (front, last) = (stack.drop_last(), stack.last());
        lemma_location_lifted(front, gone, window);
        assert(stack =~= front.push(last));
        lemma_location_pushed(front, last, window, 0);
        if last.window != gone {
            lemma_location_pushed(session::lifted(front, gone), last, window, 0);
        }
    }
}

/// Putting a window somewhere puts it there and over all others, and moves none
/// of them.
pub proof fn a_window_is_put_on_top(
    turn: Turn,
    window: u64,
    at: Point,
    activate: bool,
    other: u64,
)
    ensures
        ({
            let stack = turn.mapping(window, at, activate).scene.stack;
            &&& stack.len() > 0
            &&& stack.last() == (Place { window, at })
            &&& session::location(stack, other) == if other == window {
                Some(at)
            } else {
                session::location(turn.scene.stack, other)
            }
        }),
{
    lemma_location_lifted(turn.scene.stack, window, other);
    lemma_location_pushed(
        session::lifted(turn.scene.stack, window),
        Place { window, at },
        other,
        0,
    );
}

/// Taking a window off the screen takes off that one and moves no other.
pub proof fn a_window_is_taken_off(turn: Turn, window: u64, other: u64)
    ensures
        session::location(turn.unmapping(window).scene.stack, other) == if other == window {
            None
        } else {
            session::location(turn.scene.stack, other)
        },
{
    lemma_location_lifted(turn.scene.stack, window, other);
}

/// The window that is given the keyboard is the one that keys then go to, and the
/// topmost; neither it nor any other moves, and the order stays.
pub proof fn the_focused_window_is_the_topmost(turn: Turn, window: u64, other: u64)
    requires
        turn.scene.desks.valid(),
        session::location(turn.scene.stack, window) is Some,
    ensures
        ({
            let after = turn.focusing(window);
            &&& after.scene.focused() == Some(window)
            &&& after.steps.last() == Step::Keyboard(Some(window))
            &&& after.scene.stack.last().window == window
            &&& session::location(after.scene.stack, other) == session::location(
                turn.scene.stack,
                other,
            )
            &&& after.scene.order() == turn.scene.order()
            &&& after.scene.windows == turn.scene.windows
            &&& after.scene.desks.active == turn.scene.desks.active
            &&& forall|i: int|
                0 <= i < turn.scene.desks.all.len() && i != turn.scene.desks.active
                    ==> #[trigger] after.scene.desks.all[i] == turn.scene.desks.all[i]
        }),
{
    let held = turn.with_desk(Desk { focused: Some(window), ..turn.scene.desks.current() });
    let at = session::or_origin(session::location(turn.scene.stack, window));
    a_window_is_put_on_top(held, window, at, true, other);
}

proof fn lemma_first_index(order: Seq<u64>, i: int)
    requires
        order.no_duplicates(),
        0 <= i < order.len(),
    ensures
        order.index_of_first(order[i]) == Some(i),
{
    order.index_of_first_ensures(order[i]);
    assert(order.contains(order[i]));
    let first = order.index_of_first(order[i])->Some_0;
    assert(order[first] == order[i]);
}

/// A step along the order gives the keyboard to the window that stands that many
/// places further, counted round the end: it is the window on top then, and the
/// order is as it was. From no window it is as from the first.
pub proof fn a_step_moves_the_focus_along(turn: Turn, i: int, delta: int)
    requires
        turn.scene.desks.valid(),
        turn.scene.order().no_duplicates(),
        0 <= i < turn.scene.order().len(),
        turn.scene.focused() == Some(turn.scene.order()[i]) || (turn.scene.focused() is None && i
            == 0),
    ensures
        ({
            let order = turn.scene.order();
            let next = order[(i + delta) % (order.len() as int)];
            let after = turn.stepping(delta);
            &&& after.scene.focused() == Some(next)
            &&& after.scene.order() == order
            &&& after.scene.stack.last().window == next
            &&& after.steps.last() == Step::Keyboard(Some(next))
            &&& after.scene.desks.valid()
        }),
{
    let order = turn.scene.order();
    lemma_first_index(order, i);
    let to = (i + delta) % (order.len() as int);
    vstd::arithmetic::div_mod::lemma_mod_bound(i + delta, order.len() as int);
    let held = turn.with_desk(Desk { focused: Some(order[to]), ..turn.scene.desks.current() });
    let at = session::or_origin(session::location(turn.scene.stack, order[to]));
    a_window_is_put_on_top(held, order[to], at, true, order[to]);
}

/// Where there is another window a step of one goes to another window, and a
/// step and the step back come to where they started.
pub proof fn a_step_back_undoes_a_step(turn: Turn, i: int, delta: int)
    requires
        turn.scene.desks.valid(),
        turn.scene.order().no_duplicates(),
        0 <= i < turn.scene.order().len(),
        turn.scene.focused() == Some(turn.scene.order()[i]),
    ensures
        turn.stepping(delta).stepping(-delta).scene.focused() == turn.scene.focused(),
        turn.scene.order().len() > 1 ==> {
            &&& turn.stepping(1).scene.focused() != turn.scene.focused()
            &&& turn.stepping(-1).scene.focused() != turn.scene.focused()
        },
{
    let order = turn.scene.order();
    let n = order.len() as int;
    let to = (i + delta) % n;
    vstd::arithmetic::div_mod::lemma_mod_bound(i + delta, n);
    a_step_moves_the_focus_along(turn, i, delta);
    a_step_moves_the_focus_along(turn.stepping(delta), to, -delta);
    assert((to - delta) % n == i) by {
        vstd::arithmetic::div_mod::lemma_fundamental_div_mod(i + delta, n);
        let q = (i + delta) / n;
        assert(to - delta == n * (-q) + i) by (nonlinear_arith)
            requires
                i + delta == n * q + to,
        ;
        vstd::arithmetic::div_mod::lemma_fundamental_div_mod_converse(to - delta, n, -q, i);
    }
    if n > 1 {
        a_step_moves_the_focus_along(turn, i, 1);
        a_step_moves_the_focus_along(turn, i, -1);
        if i + 1 < n {
            vstd::arithmetic::div_mod::lemma_small_mod((i + 1) as nat, n as nat);
        } else {
            vstd::arithmetic::div_mod::lemma_fundamental_div_mod_converse(i + 1, n, 1, 0);
        }
        if i >= 1 {
            vstd::arithmetic::div_mod::lemma_small_mod((i - 1) as nat, n as nat);
        } else {
            vstd::arithmetic::div_mod::lemma_fundamental_div_mod_converse(i - 1, n, -1, n - 1);
        }
    }
}

/// A number of steps of one, each from where the one before came to.
pub open spec fn walked(turn: Turn, steps: int) -> Turn
    decreases steps,
{
    if steps <= 0 {
        turn
    } else {
        walked(turn, steps - 1).stepping(1)
    }
}

/// Steps of one come by every window of the order, in order, and after as many
/// steps as there are windows to the first of them again.
pub proof fn stepping_visits_every_window(turn: Turn, i: int, steps: int)
    requires
        turn.scene.desks.valid(),
        turn.scene.order().no_duplicates(),
        0 <= i < turn.scene.order().len(),
        turn.scene.focused() == Some(turn.scene.order()[i]),
        0 <= steps <= turn.scene.order().len(),
    ensures
        ({
            let order = turn.scene.order();
            let at = i + steps;
            let after = walked(turn, steps).scene;
            &&& after.desks.valid()
            &&& after.order() == order
            &&& after.focused() == Some(
                order[if at < order.len() {
                    at
                } else {
                    at - order.len()
                }],
            )
        }),
    decreases steps,
{
    if steps > 0 {
        stepping_visits_every_window(turn, i, steps - 1);
        let n = turn.scene.order().len() as int;
        let before = i + steps - 1;
        let from = if before < n {
            before
        } else {
            before - n
        };
        a_step_moves_the_focus_along(walked(turn, steps - 1), from, 1);
        if from + 1 < n {
            vstd::arithmetic::div_mod::lemma_small_mod((from + 1) as nat, n as nat);
        } else {
            vstd::arithmetic::div_mod::lemma_fundamental_div_mod_converse(from + 1, n, 1, 0);
        }
    }
}

/// Moving the focused window along the order makes it change places with the
/// window that stands that many places further, counted round the end. Every
/// other window keeps its place, and the focus stays.
pub proof fn moving_along_changes_places(turn: Turn, i: int, delta: int)
    requires
        turn.scene.desks.valid(),
        turn.scene.order().no_duplicates(),
        0 <= i < turn.scene.order().len(),
        turn.scene.focused() == Some(turn.scene.order()[i]),
    ensures
        ({
            let order = turn.scene.order();
            let to = (i + delta) % (order.len() as int);
            let after = turn.moving_in_order(delta);
            &&& after.scene.order().len() == order.len()
            &&& after.scene.order()[to] == order[i]
            &&& after.scene.order()[i] == order[to]
            &&& forall|k: int|
                0 <= k < order.len() && k != i && k != to ==> #[trigger] after.scene.order()[k]
                    == order[k]
            &&& after.scene.focused() == turn.scene.focused()
            &&& after.scene.stack == turn.scene.stack
            &&& order.len() > 1 ==> after.steps == turn.steps.push(Step::Relayout)
        }),
{
    let order = turn.scene.order();
    lemma_first_index(order, i);
    vstd::arithmetic::div_mod::lemma_mod_bound(i + delta, order.len() as int);
}

/// Promoting makes the focused window the first of the order, and puts the first
/// where it was. Every other window keeps its place, and the focus stays.
pub proof fn promoting_changes_places_with_the_first(turn: Turn, i: int)
    requires
        turn.scene.desks.valid(),
        turn.scene.order().no_duplicates(),
        0 < i < turn.scene.order().len(),
        turn.scene.focused() == Some(turn.scene.order()[i]),
    ensures
        ({
            let order = turn.scene.order();
            let after = turn.promoting();
            &&& after.scene.order().len() == order.len()
            &&& after.scene.order()[0] == order[i]
            &&& after.scene.order()[i] == order[0]
            &&& forall|k: int|
                0 < k < order.len() && k != i ==> #[trigger] after.scene.order()[k] == order[k]
            &&& after.scene.focused() == turn.scene.focused()
            &&& after.steps == turn.steps.push(Step::Relayout)
        }),
{
    lemma_first_index(turn.scene.order(), i);
}

/// Dropping a tile on another makes the two windows change places in the order,
/// and no other.
pub proof fn dropping_a_tile_changes_places(turn: Turn, from: int, to: int, target: usize)
    requires
        turn.scene.desks.valid(),
        turn.scene.order().no_duplicates(),
        0 <= from < turn.scene.order().len(),
        0 <= to < turn.scene.order().len(),
        from != to,
        ({
            let tiled = turn.scene.tiled();
            &&& tiled.contains(turn.scene.order()[from])
            &&& target < tiled.len()
            &&& tiled[target as int] == turn.scene.order()[to]
        }),
    ensures
        ({
            let order = turn.scene.order();
            let after = turn.dropping(order[from], Some(target));
            &&& after.scene.order().len() == order.len()
            &&& after.scene.order()[to] == order[from]
            &&& after.scene.order()[from] == order[to]
            &&& forall|k: int|
                0 <= k < order.len() && k != from && k != to
                    ==> #[trigger] after.scene.order()[k] == order[k]
            &&& after.scene.focused() == turn.scene.focused()
        }),
{
    let order = turn.scene.order();
    let tiled = turn.scene.tiled();
    let window = order[from];
    tiled.index_of_first_ensures(window);
    let source = tiled.index_of_first(window)->Some_0;
    assert(tiled[source] == window);
    lemma_first_index(order, from);
    lemma_first_index(order, to);
    assert(source != target);
}

/// The window that the keyboard goes to when a workspace comes on screen: the one
/// that had it, and else the last of its order.
pub open spec fn is_arrival(desk: Desk<u64>, focus: Option<u64>) -> bool {
    &&& desk.focused is Some ==> focus == desk.focused
    &&& desk.focused is None && desk.order.len() > 0 ==> focus == Some(
        desk.order[desk.order.len() - 1],
    )
    &&& desk.focused is None && desk.order.len() == 0 ==> focus is None
}

proof fn lemma_hiding_all(turn: Turn, windows: Seq<u64>, n: int, other: u64)
    requires
        0 <= n <= windows.len(),
    ensures
        ({
            let after = turn.hiding_all(windows, n);
            &&& after.scene.desks == turn.scene.desks
            &&& after.scene.windows == turn.scene.windows
            &&& session::location(after.scene.stack, other) == if windows.take(n).contains(other) {
                None
            } else {
                session::location(turn.scene.stack, other)
            }
            &&& after.steps.len() == turn.steps.len() + n
            &&& forall|k: int|
                0 <= k < turn.steps.len() ==> #[trigger] after.steps[k] == turn.steps[k]
            &&& forall|k: int|
                0 <= k < n ==> #[trigger] after.steps[turn.steps.len() + k] == Step::Hide(
                    windows[k],
                )
        }),
    decreases n,
{
    if n > 0 {
        lemma_hiding_all(turn, windows, n - 1, other);
        let before = turn.hiding_all(windows, n - 1);
        let after = turn.hiding_all(windows, n);
        a_window_is_taken_off(before, windows[n - 1], other);
        lemma_one_more(windows, n, other);
        assert forall|k: int| 0 <= k < n implies #[trigger] after.steps[turn.steps.len() + k]
            == Step::Hide(windows[k]) by {
            if k < n - 1 {
                assert(after.steps[turn.steps.len() + k] == before.steps[turn.steps.len() + k]);
            }
        }
    }
}

proof fn lemma_one_more(windows: Seq<u64>, n: int, other: u64)
    requires
        0 < n <= windows.len(),
    ensures
        windows.take(n).contains(other) == (windows.take(n - 1).contains(other) || windows[n - 1]
            == other),
{
    let (some, more) = (windows.take(n - 1), windows.take(n));
    if some.contains(other) {
        assert(more[some.index_of(other)] == other);
    }
    if windows[n - 1] == other {
        assert(more[n - 1] == other);
    }
    if more.contains(other) && windows[n - 1] != other {
        assert(some[more.index_of(other)] == other);
    }
}

proof fn lemma_showing_all(turn: Turn, windows: Seq<u64>, n: int, other: u64)
    requires
        0 <= n <= windows.len(),
    ensures
        ({
            let after = turn.showing_all(windows, n);
            &&& after.scene.desks == turn.scene.desks
            &&& after.scene.windows == turn.scene.windows
            &&& session::location(after.scene.stack, other) == if windows.take(n).contains(other) {
                Some(
                    match turn.scene.window(other).geometry.floating {
                        Some(rect) => rect.loc,
                        None => Point { x: 40, y: 40 },
                    },
                )
            } else {
                session::location(turn.scene.stack, other)
            }
        }),
    decreases n,
{
    if n > 0 {
        lemma_showing_all(turn, windows, n - 1, other);
        let before = turn.showing_all(windows, n - 1);
        let window = windows[n - 1];
        a_window_is_put_on_top(
            before,
            window,
            session::or_corner(before.scene.window(window).geometry.floating),
            false,
            other,
        );
        lemma_one_more(windows, n, other);
    }
}

/// Going to another workspace makes it the active one. Its windows come on
/// screen, each where it was left, those of the workspace that was left go off
/// it, and the keyboard goes to the window that had it there. No window changes
/// its workspace or its place in the order.
pub proof fn going_to_a_workspace_shows_it(turn: Turn, index: int, window: u64)
    requires
        turn.scene.desks.valid(),
        0 <= index < turn.scene.desks.all.len(),
        index != turn.scene.desks.active,
    ensures
        ({
            let (left, there) = (turn.scene.desks.current(), turn.scene.desks.all[index]);
            let after = turn.switching(index);
            &&& after.scene.desks.active == index
            &&& after.scene.desks.all.len() == turn.scene.desks.all.len()
            &&& forall|i: int|
                0 <= i < turn.scene.desks.all.len() ==> (#[trigger] after.scene.desks.all[i]).order
                    == turn.scene.desks.all[i].order
            &&& forall|i: int|
                0 <= i < turn.scene.desks.all.len() && i != index
                    ==> #[trigger] after.scene.desks.all[i] == turn.scene.desks.all[i]
            &&& is_arrival(there, after.scene.focused())
            &&& after.scene.focused() matches Some(focus) ==> after.scene.stack.last().window
                == focus
            &&& left.order.contains(window) && !there.order.contains(window)
                && after.scene.focused() != Some(window) ==> session::location(
                after.scene.stack,
                window,
            ) is None
            &&& there.order.contains(window) ==> session::location(after.scene.stack, window)
                == Some(
                match turn.scene.window(window).geometry.floating {
                    Some(rect) => rect.loc,
                    None => Point { x: 40, y: 40 },
                },
            )
            &&& after.steps.last() == Step::Relayout
            &&& after.steps[after.steps.len() - 2] == Step::Keyboard(after.scene.focused())
        }),
{
    let desks = turn.scene.desks;
    let (hide, show) = (desks.current().order, desks.all[index].order);
    let moved = turn.with_desks(desks.switched(index));
    let hidden = moved.hiding_all(hide, hide.len() as int);
    let shown = hidden.showing_all(show, show.len() as int);
    lemma_hiding_all(moved, hide, hide.len() as int, window);
    lemma_showing_all(hidden, show, show.len() as int, window);
    assert(hide.take(hide.len() as int) =~= hide);
    assert(show.take(show.len() as int) =~= show);
    let focus = desks.all[index].arrival_focus();
    match focus {
        Some(focus) => {
            lemma_hiding_all(moved, hide, hide.len() as int, focus);
            lemma_showing_all(hidden, show, show.len() as int, focus);
            let held = shown.with_desk(
                Desk { focused: Some(focus), ..shown.scene.desks.current() },
            );
            a_window_is_put_on_top(
                held,
                focus,
                session::or_origin(session::location(shown.scene.stack, focus)),
                true,
                window,
            );
        },
        None => {},
    }
}

/// Sending the focused window to another workspace puts it last in the order
/// there, with the focus, and takes it off the screen. The others stay, and the
/// keyboard goes to the one that takes its place in the order, or else to the
/// last.
pub proof fn a_window_that_is_sent_arrives(turn: Turn, index: int, i: int, other: u64)
    requires
        turn.scene.desks.valid(),
        0 <= index < turn.scene.desks.all.len(),
        index != turn.scene.desks.active,
        turn.scene.order().no_duplicates(),
        0 <= i < turn.scene.order().len(),
        turn.scene.focused() == Some(turn.scene.order()[i]),
    ensures
        ({
            let (order, window) = (turn.scene.order(), turn.scene.order()[i]);
            let (before, after) = (turn.scene.desks.all[index], turn.sending(index).scene);
            &&& after.desks.active == turn.scene.desks.active
            &&& after.desks.all[index].order == before.order.push(window)
            &&& after.desks.all[index].focused == Some(window)
            &&& after.order() == order.remove(i)
            &&& order.len() == 1 ==> after.focused() is None
            &&& i < order.len() - 1 ==> after.focused() == Some(order[i + 1])
            &&& i > 0 && i == order.len() - 1 ==> after.focused() == Some(order[i - 1])
            &&& session::location(after.stack, window) is None
            &&& other != window && session::location(turn.scene.stack, other) is Some
                ==> session::location(after.stack, other) == session::location(
                turn.scene.stack,
                other,
            )
            &&& turn.sending(index).steps.last() == Step::Relayout
            &&& turn.sending(index).steps[turn.sending(index).steps.len() - 2] == Step::Keyboard(
                after.focused(),
            )
        }),
{
    let desks = turn.scene.desks;
    let order = turn.scene.order();
    let window = order[i];
    lemma_first_index(order, i);
    assert(order.contains(window));
    let moved = desks.moved(window, index);
    let gone = turn.with_desks(moved).unmapping(window);
    a_window_is_taken_off(turn.with_desks(moved), window, window);
    a_window_is_taken_off(turn.with_desks(moved), window, other);
    let focus = moved.current().focused;
    match focus {
        Some(focus) => {
            let held = gone.with_desk(
                Desk { focused: Some(focus), ..gone.scene.desks.current() },
            );
            let at = session::or_origin(session::location(gone.scene.stack, focus));
            a_window_is_put_on_top(held, focus, at, true, window);
            a_window_is_put_on_top(held, focus, at, true, other);
        },
        None => {},
    }
}

/// A window that appears is the last of the active workspace's order, has the
/// keyboard, and is on top of all others, none of which moves. A dialog is left
/// alone by the layout.
pub proof fn a_new_window_appears_on_top(turn: Turn, window: u64, dialog: bool, other: u64)
    requires
        turn.scene.desks.valid(),
        !turn.scene.windows.contains_key(window),
    ensures
        ({
            let after = turn.appearing(window, dialog).scene;
            &&& after.order() == turn.scene.order().push(window)
            &&& after.focused() == Some(window)
            &&& after.stack.last().window == window
            &&& session::location(after.stack, window) is Some
            &&& other != window ==> session::location(after.stack, other) == session::location(
                turn.scene.stack,
                other,
            )
            &&& other != window ==> after.window(other) == turn.scene.window(other)
            &&& after.window(window).geometry.exempt == dialog
            &&& forall|i: int|
                0 <= i < turn.scene.desks.all.len() && i != turn.scene.desks.active
                    ==> #[trigger] after.desks.all[i] == turn.scene.desks.all[i]
            &&& turn.appearing(window, dialog).steps.last() == Step::Relayout
        }),
{
    let n = turn.scene.stack.len() as int;
    let at = Point {
        x: (40 + n * 30) as i32,
        y: (turn.scene.area().loc.y + 40 + n * 30) as i32,
    };
    let fresh = turn.knowing(window, session::unknown_window());
    a_window_is_put_on_top(fresh, window, at, true, window);
    a_window_is_put_on_top(fresh, window, at, true, other);
    let known = fresh.mapping(window, at, true).saying(Step::SendConfigure(window));
    let exempted = if dialog {
        known.with_geometry(window, known.scene.remembering(window).marked_exempt(true))
    } else {
        known.with_geometry(window, known.scene.remembering(window))
    };
    let listed = exempted.with_desks(exempted.scene.desks.inserted(window));
    let held = listed.with_desk(Desk { focused: Some(window), ..listed.scene.desks.current() });
    let place = session::or_origin(session::location(listed.scene.stack, window));
    a_window_is_put_on_top(held, window, place, true, window);
    a_window_is_put_on_top(held, window, place, true, other);
}

/// Of a window that is gone nothing is left, on screen or on any workspace; the
/// others stay where they are, are laid out again, and the topmost of them is to
/// get the keyboard.
pub proof fn a_window_that_is_gone_leaves_nothing(turn: Turn, window: u64, other: u64)
    requires
        turn.scene.desks.valid(),
    ensures
        ({
            let after = turn.vanishing(window).scene;
            &&& session::location(after.stack, window) is None
            &&& !after.windows.contains_key(window)
            &&& forall|i: int|
                0 <= i < after.desks.all.len() ==> !(#[trigger] after.desks.all[i]).order.contains(
                    window,
                ) && after.desks.all[i].focused != Some(window)
            &&& other != window ==> session::location(after.stack, other) == session::location(
                turn.scene.stack,
                other,
            )
            &&& other != window ==> after.window(other) == turn.scene.window(other)
            &&& other != window ==> forall|i: int|
                0 <= i < after.desks.all.len() ==> (#[trigger] after.desks.all[i]).order.contains(
                    other,
                ) == turn.scene.desks.all[i].order.contains(other)
            &&& after.desks.active == turn.scene.desks.active
            &&& after.desks.all.len() == turn.scene.desks.all.len()
            &&& turn.vanishing(window).steps.contains(Step::Relayout)
            &&& turn.vanishing(window).steps.last() == Step::FocusTopmost
        }),
{
    let desks = turn.scene.desks;
    let after = turn.vanishing(window).scene;
    let steps = turn.vanishing(window).steps;
    assert(steps[steps.len() - 2] == Step::Relayout);
    a_window_is_taken_off(turn, window, window);
    a_window_is_taken_off(turn, window, other);
    assert forall|i: int| 0 <= i < after.desks.all.len() implies !(
    #[trigger] after.desks.all[i]).order.contains(window) && after.desks.all[i].focused != Some(
        window,
    ) by {
        workspace::lemma_members_without(desks.all[i].order, window, window);
        let order = workspace::without(desks.all[i].order, window);
        if order.len() > 0 && order.last() == window {
            assert(order[order.len() - 1] == window);
        }
    }
    if other != window {
        assert forall|i: int| 0 <= i < after.desks.all.len() implies (
        #[trigger] after.desks.all[i]).order.contains(other) == desks.all[i].order.contains(
            other,
        ) by {
            workspace::lemma_members_without(desks.all[i].order, window, other);
        }
    }
}

/// The keyboard goes to the window that is on top, and to none where there is
/// none.
pub proof fn the_topmost_window_gets_the_keyboard(turn: Turn)
    requires
        turn.scene.desks.valid(),
    ensures
        ({
            let after = turn.focusing_topmost();
            let stack = turn.scene.stack;
            &&& stack.len() > 0 ==> after.scene.focused() == Some(stack[stack.len() - 1].window)
            &&& stack.len() == 0 ==> after.scene.focused() is None
            &&& after.steps.last() == Step::Keyboard(after.scene.focused())
            &&& after.scene.order() == turn.scene.order()
        }),
{
}

proof fn lemma_tiling_all(
    turn: Turn,
    windows: Seq<u64>,
    tiles: Seq<Rectangle>,
    n: int,
    other: u64,
)
    requires
        0 <= n <= windows.len() == tiles.len(),
        windows.no_duplicates(),
    ensures
        ({
            let after = turn.tiling_all(windows, tiles, n);
            &&& after.scene.desks == turn.scene.desks
            &&& !windows.take(n).contains(other) ==> {
                &&& session::location(after.scene.stack, other) == session::location(
                    turn.scene.stack,
                    other,
                )
                &&& after.scene.window(other) == turn.scene.window(other)
            }
            &&& forall|i: int|
                0 <= i < n && windows[i] == other ==> session::location(after.scene.stack, other)
                    == Some((#[trigger] tiles[i]).loc)
            &&& forall|i: int|
                0 <= i < n ==> after.steps.contains(
                    Step::Configure {
                        window: windows[i],
                        size: (#[trigger] tiles[i]).size,
                        tiled: Some(true),
                        maximized: None,
                    },
                )
            &&& after.steps.len() >= turn.steps.len()
        }),
    decreases n,
{
    if n > 0 {
        lemma_tiling_all(turn, windows, tiles, n - 1, other);
        let before = turn.tiling_all(windows, tiles, n - 1);
        let after = turn.tiling_all(windows, tiles, n);
        let (window, tile) = (windows[n - 1], tiles[n - 1]);
        let ask = Step::Configure { window, size: tile.size, tiled: Some(true), maximized: None };
        let asked = before.with_geometry(
            window,
            before.scene.remembering(window).marked_displaced(true),
        ).saying(ask);
        a_window_is_put_on_top(asked, window, tile.loc, false, other);
        lemma_one_more(windows, n, other);
        assert(after.steps[before.steps.len() as int] == ask);
        assert forall|i: int| 0 <= i < n implies after.steps.contains(
            Step::Configure {
                window: windows[i],
                size: (#[trigger] tiles[i]).size,
                tiled: Some(true),
                maximized: None,
            },
        ) by {
            if i < n - 1 {
                let step = Step::Configure {
                    window: windows[i],
                    size: tiles[i].size,
                    tiled: Some(true),
                    maximized: None,
                };
                assert(before.steps.contains(step));
                assert(after.steps[before.steps.index_of(step)] == step);
            }
        }
        assert forall|i: int| 0 <= i < n && windows[i] == other implies session::location(
            after.scene.stack,
            other,
        ) == Some((#[trigger] tiles[i]).loc) by {
            if i < n - 1 {
                assert(windows[i] != windows[n - 1]);
            }
        }
    }
}

/// Laying out puts each window that the layout owns on its tile, in the order of
/// the windows, and asks it to be as big as that; every other window stays where
/// it is. Without tiling nothing moves.
pub proof fn the_layout_puts_each_window_on_its_tile(turn: Turn, wanted: i32, i: int, other: u64)
    requires
        turn.scene.desks.valid(),
        turn.scene.desks.current().tiling,
        turn.scene.tiled().no_duplicates(),
        turn.scene.tiles(wanted).len() == turn.scene.tiled().len(),
        0 <= i < turn.scene.tiled().len(),
    ensures
        ({
            let (windows, tiles) = (turn.scene.tiled(), turn.scene.tiles(wanted));
            let after = turn.laid_out(wanted);
            &&& session::location(after.scene.stack, windows[i]) == Some(tiles[i].loc)
            &&& after.steps.contains(
                Step::Configure {
                    window: windows[i],
                    size: tiles[i].size,
                    tiled: Some(true),
                    maximized: None,
                },
            )
            &&& !windows.contains(other) ==> session::location(after.scene.stack, other)
                == session::location(turn.scene.stack, other)
            &&& after.scene.desks == turn.scene.desks
        }),
{
    let (windows, tiles) = (turn.scene.tiled(), turn.scene.tiles(wanted));
    lemma_tiling_all(turn, windows, tiles, windows.len() as int, windows[i]);
    lemma_tiling_all(turn, windows, tiles, windows.len() as int, other);
    assert(windows.take(windows.len() as int) =~= windows);
    let tile = tiles[i];
}

/// The layout owns the windows of the active workspace that are not exempt, in
/// their order, and no others.
pub proof fn the_layout_owns_what_is_not_exempt(scene: Scene, window: u64)
    ensures
        scene.tiled().contains(window) <==> scene.order().contains(window) && !scene.window(
            window,
        ).geometry.exempt,
{
    utils::lemma_filter_members(
        scene.order(),
        |w: u64| !scene.window(w).geometry.exempt,
        window,
    );
}

/// A press on a window gives it the keyboard and puts it on top, whatever button
/// and with or without the modifier; no window moves by that. Without the modifier
/// that is all; with it the left button takes hold of the window, or of its tile,
/// and the right one of its nearest corner, or of the divider.
pub proof fn a_press_takes_hold_of_the_window_under_it(
    turn: Turn,
    button: u32,
    at: Point,
    window: u64,
    relative: (Number, Number),
    modifiers: ModifiersState,
    other: u64,
)
    requires
        turn.scene.desks.valid(),
        !turn.scene.on_panel(at),
        session::location(turn.scene.stack, window) is Some,
    ensures
        ({
            let after = turn.pressing(button, at, Some((window, relative)), modifiers);
            let place = session::location(turn.scene.stack, window)->Some_0;
            let held = turn.scene.mod_key.is_held(modifiers);
            let last = after.steps.last();
            &&& after.scene.focused() == Some(window)
            &&& after.scene.stack.last().window == window
            &&& session::location(after.scene.stack, other) == session::location(
                turn.scene.stack,
                other,
            )
            &&& after.scene.order() == turn.scene.order()
            &&& !held ==> last == Step::Keyboard(Some(window))
            &&& held && button == 0x110 && !turn.scene.is_tiled(window) ==> last == Step::MoveGrab {
                window,
                button,
                at: place,
            }
            &&& held && button == 0x110 && turn.scene.is_tiled(window) ==> last == Step::SwapGrab {
                window,
                button,
            }
            &&& held && button == 0x111 && turn.scene.is_tiled(window) ==> last == Step::RatioGrab {
                button,
            }
            &&& held && button == 0x111 && !turn.scene.is_tiled(window) ==> last is ResizeGrab
                && last->ResizeGrab_window == window && last->rect.loc == place && last->rect.size
                == turn.scene.window(window).size
        }),
{
    the_focused_window_is_the_topmost(turn, window, other);
    the_focused_window_is_the_topmost(turn, window, window);
}

/// A press on nothing takes the keyboard from every window, and one on the panel
/// beside the pills does nothing at all.
pub proof fn a_press_on_nothing_moves_nothing(
    turn: Turn,
    button: u32,
    at: Point,
    under: Option<(u64, (Number, Number))>,
    modifiers: ModifiersState,
)
    ensures
        !turn.scene.on_panel(at) && under is None ==> turn.pressing(button, at, under, modifiers)
            == turn.saying(Step::Keyboard(None)),
        turn.scene.on_panel(at) && (forall|i: int|
            0 <= i < turn.scene.pills().len() ==> !(#[trigger] turn.scene.pills()[i]).holds(at))
            ==> turn.pressing(button, at, under, modifiers) == turn,
{
    if forall|i: int|
        0 <= i < turn.scene.pills().len() ==> !(#[trigger] turn.scene.pills()[i]).holds(at) {
        let nothing: Option<usize> = None;
        assert(utils::first_holding(turn.scene.pills(), at, nothing));
        let found = turn.scene.pill_under(at);
        assert(utils::first_holding(turn.scene.pills(), at, found));
    }
}

/// A press on the pill of a workspace goes to that workspace.
pub proof fn a_press_on_a_pill_goes_to_its_workspace(
    turn: Turn,
    button: u32,
    at: Point,
    under: Option<(u64, (Number, Number))>,
    modifiers: ModifiersState,
    i: int,
)
    requires
        turn.scene.desks.valid(),
        turn.scene.desks.all.len() <= usize::MAX,
        turn.scene.on_panel(at),
        2 <= turn.scene.panel_height <= turn.scene.output.h,
        0 <= i < turn.scene.pills().len(),
        turn.scene.pills()[i].holds(at),
    ensures
        turn.pressing(button, at, under, modifiers).scene.desks.active == i,
{
    let scene = turn.scene;
    let pills = scene.pills();
    let here: Option<usize> = Some(i as usize);
    panel::pills_stand_apart(
        scene.output,
        scene.panel_height,
        scene.desks.all.len() as int,
        scene.desks.active,
    );
    assert forall|k: int| 0 <= k < i implies !(#[trigger] pills[k]).holds(at) by {
        assert(pills[k].right() + panel::GAP <= pills[i].loc.x);
    }
    assert(utils::first_holding(pills, at, here));
    let found = scene.pill_under(at);
    assert(utils::first_holding(pills, at, found));
    panel::a_click_finds_the_pill_it_is_inside(
        scene.output,
        scene.panel_height,
        scene.desks.all.len() as int,
        scene.desks.active,
        i,
        at,
        found,
    );
    if i != scene.desks.active {
        going_to_a_workspace_shows_it(turn, i, 0);
    }
}

/// A maximised window fills the screen but for the panel, on top of all others,
/// none of which moves.
pub proof fn a_maximised_window_fills_the_screen(turn: Turn, window: u64, output: Size, other: u64)
    requires
        !turn.scene.is_tiled(window),
        session::location(turn.scene.stack, window) is Some,
        !turn.scene.window(window).geometry.displaced,
        turn.scene.window(window).size.w > 0,
        turn.scene.window(window).size.h > 0,
        0 <= turn.scene.panel_height < output.h,
    ensures
        ({
            let after = turn.toggling_maximize(window, output);
            let size = Size {
                w: output.w,
                h: (output.h - turn.scene.panel_height) as i32,
            };
            &&& session::location(after.scene.stack, window) == Some(
                Point { x: 0, y: turn.scene.panel_height },
            )
            &&& after.scene.stack.last().window == window
            &&& after.steps.contains(
                Step::Configure { window, size, tiled: None, maximized: Some(true) },
            )
            &&& other != window ==> session::location(after.scene.stack, other)
                == session::location(turn.scene.stack, other)
            &&& after.scene.desks == turn.scene.desks
        }),
{
    let noted = turn.scene.remembering(window);
    let area = panel::below_panel(output, turn.scene.panel_height);
    let ask = Step::Configure { window, size: area.size, tiled: None, maximized: Some(true) };
    let asked = turn.with_geometry(window, noted.marked_displaced(true)).saying(ask);
    a_window_is_put_on_top(asked, window, area.loc, true, window);
    a_window_is_put_on_top(asked, window, area.loc, true, other);
    let after = turn.toggling_maximize(window, output);
    assert(after == asked.mapping(window, area.loc, true));
    assert(after.steps[asked.steps.len() - 1] == ask);
    assert(area.size == (Size {
        w: output.w,
        h: (output.h - turn.scene.panel_height) as i32,
    }));
}

/// A window that is taken out of the layout is left alone by it and stands where
/// it floated; one that is put back is the layout's again. No other window moves.
pub proof fn a_window_leaves_the_layout_and_returns(turn: Turn, window: u64, other: u64)
    requires
        turn.scene.desks.valid(),
        turn.scene.order().contains(window),
    ensures
        ({
            let geometry = turn.scene.window(window).geometry;
            let after = turn.toggling_floating(window);
            &&& after.scene.tiled().contains(window) <==> geometry.exempt
            &&& turn.scene.tiled().contains(window) <==> !geometry.exempt
            &&& !geometry.exempt && geometry.floating is Some ==> session::location(
                after.scene.stack,
                window,
            ) == Some(geometry.floating->Some_0.loc)
            &&& other != window ==> session::location(after.scene.stack, other)
                == session::location(turn.scene.stack, other)
            &&& other != window ==> after.scene.window(other) == turn.scene.window(other)
            &&& after.scene.order() == turn.scene.order()
            &&& after.steps.last() == Step::Relayout
        }),
{
    let geometry = turn.scene.window(window).geometry;
    let after = turn.toggling_floating(window);
    the_layout_owns_what_is_not_exempt(turn.scene, window);
    the_layout_owns_what_is_not_exempt(after.scene, window);
    if !geometry.exempt {
        match geometry.floating {
            Some(rect) => {
                let asked = turn.with_geometry(
                    window,
                    geometry.marked_exempt(true).marked_displaced(false),
                ).saying(
                    Step::Configure { window, size: rect.size, tiled: None, maximized: None },
                );
                a_window_is_put_on_top(asked, window, rect.loc, true, window);
                a_window_is_put_on_top(asked, window, rect.loc, true, other);
            },
            None => {},
        }
    }
}

proof fn lemma_untiling_all(turn: Turn, windows: Seq<u64>, n: int, other: u64)
    requires
        0 <= n <= windows.len(),
    ensures
        ({
            let after = turn.untiling_all(windows, n);
            &&& after.scene.desks == turn.scene.desks
            &&& after.scene.window(other).geometry.floating == turn.scene.window(
                other,
            ).geometry.floating
            &&& after.scene.window(other).geometry.exempt == turn.scene.window(
                other,
            ).geometry.exempt
            &&& session::location(after.scene.stack, other) == if windows.take(n).contains(other)
                && turn.scene.window(other).geometry.floating is Some {
                Some(turn.scene.window(other).geometry.floating->Some_0.loc)
            } else {
                session::location(turn.scene.stack, other)
            }
        }),
    decreases n,
{
    if n > 0 {
        lemma_untiling_all(turn, windows, n - 1, other);
        lemma_one_more(windows, n, other);
        let before = turn.untiling_all(windows, n - 1);
        let window = windows[n - 1];
        let geometry = before.scene.window(window).geometry;
        let freed = before.with_geometry(window, geometry.marked_displaced(false));
        match geometry.floating {
            Some(rect) => {
                let asked = freed.saying(
                    Step::Configure {
                        window,
                        size: rect.size,
                        tiled: Some(false),
                        maximized: None,
                    },
                );
                a_window_is_put_on_top(asked, window, rect.loc, false, other);
            },
            None => {},
        }
    }
}

/// Tiling is turned on where it is off and off where it is on. When it goes off,
/// every window that the layout owned is back where it floated, and no other
/// moves; when it goes on, the windows are laid out.
pub proof fn tiling_is_turned_on_and_off(turn: Turn, window: u64)
    requires
        turn.scene.desks.valid(),
    ensures
        ({
            let after = turn.toggling_tiling();
            let floating = turn.scene.window(window).geometry.floating;
            &&& after.scene.desks.current().tiling == !turn.scene.desks.current().tiling
            &&& after.scene.order() == turn.scene.order()
            &&& after.scene.focused() == turn.scene.focused()
            &&& after.scene.desks.current().layout == turn.scene.desks.current().layout
            &&& turn.scene.desks.current().tiling && turn.scene.tiled().contains(window)
                && floating is Some ==> session::location(after.scene.stack, window) == Some(
                floating->Some_0.loc,
            )
            &&& turn.scene.desks.current().tiling && !turn.scene.tiled().contains(window)
                ==> session::location(after.scene.stack, window) == session::location(
                turn.scene.stack,
                window,
            )
            &&& !turn.scene.desks.current().tiling ==> after.scene.stack == turn.scene.stack
                && after.steps.contains(Step::Relayout)
            &&& after.steps.last() == Step::Redecorate
        }),
{
    let on = !turn.scene.desks.current().tiling;
    let toggled = turn.with_desk(Desk { tiling: on, ..turn.scene.desks.current() });
    let windows = toggled.scene.tiled();
    if on {
        assert(turn.toggling_tiling().steps[turn.steps.len() as int] == Step::Relayout);
    } else {
        the_layout_owns_what_is_not_exempt(turn.scene, window);
        the_layout_owns_what_is_not_exempt(toggled.scene, window);
        lemma_untiling_all(toggled, windows, windows.len() as int, window);
        assert(windows.take(windows.len() as int) =~= windows);
    }
}

/// An overlay is placed once it has a size: in the middle across, a third of the
/// free height from the top, on top and with the keyboard, and the layout leaves
/// it alone.
pub proof fn an_overlay_is_placed_in_the_middle(turn: Turn, window: u64, size: Size, other: u64)
    requires
        turn.scene.desks.valid(),
        session::location(turn.scene.stack, window) is Some,
        turn.scene.window(window).overlay is None,
        !turn.scene.window(window).placed,
        0 < size.w <= turn.scene.output.w,
        0 < size.h <= turn.scene.output.h,
    ensures
        ({
            let after = turn.committing(window, size, Some("cusk-launcher"@));
            let at = session::location(after.scene.stack, window)->Some_0;
            let (left, top) = (at.x as int, at.y as int);
            let (right, bottom) = (
                turn.scene.output.w - size.w - left,
                turn.scene.output.h - size.h - top,
            );
            &&& session::location(after.scene.stack, window) is Some
            &&& 0 <= right - left <= 1
            &&& 0 <= bottom - top * 2 <= 2
            &&& after.scene.focused() == Some(window)
            &&& after.scene.stack.last().window == window
            &&& after.scene.window(window).geometry.exempt
            &&& after.scene.window(window).size == size
            &&& other != window ==> session::location(after.scene.stack, other)
                == session::location(turn.scene.stack, other)
        }),
{
    let sized = turn.knowing(window, Window { size, ..turn.scene.window(window) });
    let before = sized.scene.window(window);
    let overlay = Some(true);
    assert(session::OVERLAY_APP_ID@ == "cusk-launcher"@);
    let known = sized.knowing(window, Window { overlay, ..before });
    let exempted = known.knowing(
        window,
        Window { overlay, geometry: before.geometry.marked_exempt(true), ..before },
    );
    let at = Point {
        x: session::share(turn.scene.output.w as int, size.w as int, 2) as i32,
        y: session::share(turn.scene.output.h as int, size.h as int, 3) as i32,
    };
    let marked = exempted.knowing(
        window,
        Window {
            overlay,
            geometry: before.geometry.marked_exempt(true),
            placed: true,
            ..before
        },
    );
    let placed = marked.mapping(window, at, true);
    a_window_is_put_on_top(marked, window, at, true, window);
    a_window_is_put_on_top(marked, window, at, true, other);
    let noted = placed.with_geometry(window, placed.scene.remembering(window));
    the_focused_window_is_the_topmost(noted, window, window);
    the_focused_window_is_the_topmost(noted, window, other);
}

/// A configuration that is read again sets the gaps, the panel and how the
/// keyboard follows the pointer, and the divider where the layout has one. It
/// leaves tiling, the layout and the windows as they were chosen, and asks for
/// the windows to be laid out.
pub proof fn a_configuration_leaves_what_was_chosen(turn: Turn, config: Config, mod_key: ModKey)
    requires
        turn.scene.desks.valid(),
        turn.scene.desks.all.len() == if config.workspace_count > 1 {
            config.workspace_count as int
        } else {
            1
        },
    ensures
        ({
            let after = turn.configuring(config, mod_key).scene;
            let (was, is) = (turn.scene.desks.current(), after.desks.current());
            &&& after.gaps.inner == config.inner_gap
            &&& after.gaps.outer == config.outer_gap
            &&& after.panel_height == config.panel_height
            &&& after.focus_follows_mouse == config.focus_follows_mouse
            &&& after.mod_key == mod_key
            &&& is.tiling == was.tiling
            &&& is.order == was.order
            &&& is.focused == was.focused
            &&& was.layout is Columns ==> is.layout == was.layout
            &&& was.layout is MasterStack ==> is.layout == Layout::MasterStack {
                ratio: config.master_ratio.number,
            }
            &&& after.stack == turn.scene.stack
            &&& after.windows == turn.scene.windows
            &&& after.desks.active == turn.scene.desks.active
            &&& turn.configuring(config, mod_key).steps.last() == Step::Relayout
        }),
{
}

/// When who draws the titlebars is told, every window on screen is told the same:
/// the session does where it tiles, and the windows do where they float.
pub proof fn every_window_is_told_who_draws_its_titlebar(turn: Turn, n: int, i: int)
    requires
        0 <= i < n <= turn.scene.stack.len(),
    ensures
        turn.decorating(n).scene == turn.scene,
        turn.decorating(n).steps.len() == turn.steps.len() + n,
        turn.decorating(n).steps[turn.steps.len() + i] == (Step::Decorate {
            window: turn.scene.stack[i].window,
            server_side: turn.scene.desks.current().tiling,
        }),
    decreases n,
{
    if n > 1 {
        if i < n - 1 {
            every_window_is_told_who_draws_its_titlebar(turn, n - 1, i);
        } else {
            every_window_is_told_who_draws_its_titlebar(turn, n - 1, 0);
        }
    } else {
        assert(turn.decorating(0) == turn);
    }
}

/// A divider that is dragged changes the share of the first window and nothing
/// else, and the windows are laid out again; a layout without one is left alone.
pub proof fn dragging_the_divider_changes_the_share(turn: Turn, ratio: Number)
    requires
        turn.scene.desks.valid(),
    ensures
        ({
            let after = turn.dragging_divider(ratio);
            let (was, is) = (turn.scene.desks.current(), after.scene.desks.current());
            &&& was.layout is MasterStack ==> is == (Desk {
                layout: Layout::MasterStack { ratio },
                ..was
            }) && after.steps == turn.steps.push(Step::Relayout)
            &&& was.layout is Columns ==> after == turn
            &&& after.scene.stack == turn.scene.stack
            &&& after.scene.windows == turn.scene.windows
            &&& after.scene.desks.active == turn.scene.desks.active
        }),
{
}

/// A screen of another size is taken note of and the windows are laid out for it;
/// one of the same size changes nothing.
pub proof fn a_resized_screen_is_laid_out_again(turn: Turn, output: Size)
    ensures
        turn.sizing(output).scene == (Scene { output, ..turn.scene }),
        output != turn.scene.output ==> turn.sizing(output).steps == turn.steps.push(
            Step::Relayout,
        ),
        output == turn.scene.output ==> turn.sizing(output).steps == turn.steps,
{
}

/// A binding that asks for something outside of the session asks for that and
/// changes nothing in it, and one that needs the focused window does nothing
/// without one.
pub proof fn a_binding_asks_for_its_own(turn: Turn, wider: Number, output: Size)
    ensures
        turn.binding(Binding::Spawn, wider, output) == turn.saying(Step::SpawnTerminal),
        turn.binding(Binding::Launcher, wider, output) == turn.saying(Step::Launch),
        turn.binding(Binding::Keys, wider, output) == turn.saying(Step::ShowKeys),
        turn.scene.focused() is None ==> turn.binding(Binding::ToggleMaximize, wider, output)
            == turn && turn.binding(Binding::ToggleFloating, wider, output) == turn,
        turn.scene.focused() matches Some(window) ==> turn.binding(
            Binding::ToggleMaximize,
            wider,
            output,
        ) == turn.toggling_maximize(window, output) && turn.binding(
            Binding::ToggleFloating,
            wider,
            output,
        ) == turn.toggling_floating(window),
{
}

/// A step of a binding is taken with what the binding names: a step of the focus
/// moves the focus, a step of the window the window, and a workspace is gone to or
/// sent to by its own number.
pub proof fn a_binding_goes_where_it_says(turn: Turn, n: isize, i: usize, wider: Number, size: Size)
    requires
        turn.scene.desks.valid(),
    ensures
        turn.binding(Binding::FocusStep(n), wider, size) == turn.stepping(n as int),
        turn.binding(Binding::MoveInOrder(n), wider, size) == turn.moving_in_order(n as int),
        turn.binding(Binding::Workspace(i), wider, size) == turn.switching(i as int),
        turn.binding(Binding::SendToWorkspace(i), wider, size) == turn.sending(i as int),
        turn.binding(Binding::Promote, wider, size) == turn.promoting(),
        turn.binding(Binding::ToggleTiling, wider, size) == turn.toggling_tiling(),
        turn.binding(Binding::CycleLayout, wider, size).scene.desks.current().layout
            == turn.scene.desks.current().layout.following(),
        turn.binding(Binding::CycleLayout, wider, size).steps.last() == Step::Relayout,
        turn.binding(Binding::Widen(1), wider, size).scene.desks.current().layout
            == turn.scene.desks.current().layout.widened(wider),
        turn.binding(Binding::Widen(1), wider, size).steps.last() == Step::Relayout,
{
}

/// A window that is dragged by its edges is where it was dragged to, on top, and
/// its client is asked for the size where that has to be.
pub proof fn a_resized_window_is_where_it_was_dragged(
    turn: Turn,
    window: u64,
    rect: Rectangle,
    ask: bool,
    other: u64,
)
    ensures
        ({
            let after = turn.resizing(window, rect, ask);
            &&& session::location(after.scene.stack, window) == Some(rect.loc)
            &&& after.scene.stack.last().window == window
            &&& other != window ==> session::location(after.scene.stack, other)
                == session::location(turn.scene.stack, other)
            &&& ask ==> after.steps.contains(
                Step::Configure { window, size: rect.size, tiled: None, maximized: None },
            )
            &&& after.scene.desks == turn.scene.desks
        }),
{
    let step = Step::Configure { window, size: rect.size, tiled: None, maximized: None };
    let asked = if ask {
        turn.saying(step)
    } else {
        turn
    };
    a_window_is_put_on_top(asked, window, rect.loc, true, window);
    a_window_is_put_on_top(asked, window, rect.loc, true, other);
    if ask {
        let after = turn.resizing(window, rect, ask);
        assert(after.steps[asked.steps.len() - 1] == step);
    }
}

/// A session starts with nothing open, on the first of as many workspaces as are
/// asked for and at least one, each as the configuration wants it.
pub proof fn a_session_starts_as_configured(config: Config, mod_key: ModKey, i: int)
    requires
        0 <= i < session::starting_scene(config, mod_key).desks.all.len(),
    ensures
        ({
            let scene = session::starting_scene(config, mod_key);
            let desk = scene.desks.all[i];
            &&& scene.stack.len() == 0
            &&& scene.desks.active == 0
            &&& scene.desks.all.len() >= 1
            &&& config.workspace_count >= 1 ==> scene.desks.all.len() == config.workspace_count
            &&& desk.order.len() == 0
            &&& desk.focused is None
            &&& desk.tiling == config.tiling_on_start
            &&& desk.layout is Columns <==> config.default_layout@ == "columns"@
            &&& desk.layout is MasterStack ==> desk.layout->ratio == config.master_ratio.number
            &&& scene.gaps.inner == config.inner_gap
            &&& scene.gaps.outer == config.outer_gap
            &&& scene.panel_height == config.panel_height
            &&& scene.mod_key == mod_key
        }),
{
}

} // verus!
