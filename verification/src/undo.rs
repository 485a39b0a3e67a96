//! What a gesture does, the same gesture undoes.
//!
//! There is no undo in a window manager, so a departure from floating has to
//! lead back: a window that was maximised or tiled returns to where it was.

use vstd::prelude::*;

use crate::agreement;
use crate::session;
use crate::session::{Place, Scene, Step, Turn};
use crate::utils::{Point, Rectangle, Size};
use crate::workspace::Desk;

verus! {

proof fn lemma_last_location(stack: Seq<Place>, window: u64, at: Point, from: int)
    requires
        0 <= from <= stack.len(),
        forall|i: int| 0 <= i < stack.len() ==> (#[trigger] stack[i]).window != window,
    ensures
        session::location_from(stack.push(Place { window, at }), window, from) == Some(at),
    decreases stack.len() - from,
{
    let more = stack.push(Place { window, at });
    if from < stack.len() {
        assert(more[from] == stack[from]);
        lemma_last_location(stack, window, at, from + 1);
    } else {
        assert(more[from] == (Place { window, at }));
    }
}

/// A window is where it was last put.
pub proof fn a_window_is_where_it_was_put(turn: Turn, window: u64, at: Point, activate: bool)
    ensures
        session::location(turn.mapping(window, at, activate).scene.stack, window) == Some(at),
{
    let left = session::lifted(turn.scene.stack, window);
    agreement::lemma_lifted(turn.scene.stack, window, window);
    agreement::lemma_shows(left, window);
    assert forall|i: int| 0 <= i < left.len() implies (#[trigger] left[i]).window != window by {
        if left[i].window == window {
            assert(agreement::shows(left, window));
        }
    }
    lemma_last_location(left, window, at, 0);
}

/// Whether a window floats on screen, and has drawn something.
pub open spec fn floats(scene: Scene, window: u64) -> bool {
    &&& session::location(scene.stack, window) is Some
    &&& !scene.window(window).geometry.displaced
    &&& scene.window(window).size.w > 0
    &&& scene.window(window).size.h > 0
}

/// Where a drag has left a window is where it returns to.
pub proof fn a_drag_is_remembered(turn: Turn, window: u64, at: Point)
    requires
        floats(turn.scene, window),
    ensures
        ({
            let dragged = turn.mapping(window, at, true).settling(window).scene;
            &&& dragged.rect(window) == (Rectangle { loc: at, size: turn.scene.window(window).size })
            &&& dragged.window(window).geometry.floating == Some(dragged.rect(window))
        }),
{
    a_window_is_where_it_was_put(turn, window, at, true);
}

/// A window that was maximised returns to where it floated, and is asked to be
/// as big as it was.
pub proof fn maximising_twice_returns_to_the_floating_rectangle(
    turn: Turn,
    window: u64,
    output: Size,
)
    requires
        floats(turn.scene, window),
        !turn.scene.is_tiled(window),
    ensures
        ({
            let back = turn.toggling_maximize(window, output).toggling_maximize(window, output);
            let rect = turn.scene.rect(window);
            &&& back.scene.rect(window) == rect
            &&& !back.scene.window(window).geometry.displaced
            &&& back.steps.contains(
                Step::Configure { window, size: rect.size, tiled: None, maximized: Some(false) },
            )
        }),
{
    let rect = turn.scene.rect(window);
    let area = crate::panel::below_panel(output, turn.scene.panel_height);
    let noted = turn.scene.remembering(window);
    assert(noted.floating == Some(rect));
    let big = turn.toggling_maximize(window, output);
    let back = big.toggling_maximize(window, output);
    assert(big.scene.window(window).geometry == noted.marked_displaced(true));
    let asked = big.with_geometry(window, noted.marked_displaced(false)).saying(
        Step::Configure { window, size: rect.size, tiled: None, maximized: Some(false) },
    );
    assert(big.scene.window(window).geometry.marked_displaced(false) == noted.marked_displaced(
        false,
    ));
    assert(back == asked.mapping(window, rect.loc, true));
    a_window_is_where_it_was_put(asked, window, rect.loc, true);
    assert(back.steps[asked.steps.len() - 1] == asked.steps.last());
}

/// A window that was tiled returns to where it floated, and is asked to be as
/// big as it was, wherever the layout had put it.
pub proof fn untiling_returns_to_the_floating_rectangle(turn: Turn, window: u64, tile: Rectangle)
    requires
        floats(turn.scene, window),
    ensures
        ({
            let back = turn.tiling(window, tile).untiling(window);
            let rect = turn.scene.rect(window);
            &&& back.scene.rect(window) == rect
            &&& !back.scene.window(window).geometry.displaced
            &&& back.steps.contains(
                Step::Configure { window, size: rect.size, tiled: Some(false), maximized: None },
            )
        }),
{
    let rect = turn.scene.rect(window);
    let noted = turn.scene.remembering(window);
    assert(noted.floating == Some(rect));
    let tiled = turn.tiling(window, tile);
    assert(tiled.scene.window(window).geometry == noted.marked_displaced(true));
    let asked = tiled.with_geometry(
        window,
        tiled.scene.window(window).geometry.marked_displaced(false),
    ).saying(
        Step::Configure { window, size: rect.size, tiled: Some(false), maximized: None },
    );
    let back = tiled.untiling(window);
    assert(back == asked.mapping(window, rect.loc, false));
    a_window_is_where_it_was_put(asked, window, rect.loc, false);
    assert(back.steps[asked.steps.len() - 1] == asked.steps.last());
}

/// A second relayout does not forget where a window floated.
pub proof fn tiling_again_keeps_the_floating_rectangle(
    turn: Turn,
    window: u64,
    first: Rectangle,
    second: Rectangle,
)
    ensures
        turn.tiling(window, first).tiling(window, second).scene.window(window).geometry
            == turn.tiling(window, first).scene.window(window).geometry,
{
}

proof fn lemma_tiling_keeps_the_desks(
    turn: Turn,
    windows: Seq<u64>,
    tiles: Seq<Rectangle>,
    n: int,
)
    ensures
        turn.tiling_all(windows, tiles, n).scene.desks == turn.scene.desks,
        turn.tiling_all(windows, tiles, n).scene.promotion == turn.scene.promotion,
    decreases n,
{
    if n > 0 {
        lemma_tiling_keeps_the_desks(turn, windows, tiles, n - 1);
    }
}

/// Promoting a window twice gives the order back, with the relayout that follows
/// the first time carried out in between or not.
pub proof fn promoting_twice_restores_the_order(turn: Turn, window: u64, wanted: i32)
    requires
        turn.scene.desks.valid(),
        turn.scene.focused() == Some(window),
        turn.scene.order().contains(window),
        turn.scene.order()[0] != window,
    ensures
        turn.promoting().scene.order()[0] == window,
        turn.promoting().promoting().scene.order() == turn.scene.order(),
        turn.promoting().laid_out(wanted).promoting().scene.order() == turn.scene.order(),
{
    let order = turn.scene.order();
    order.index_of_first_ensures(window);
    let from = order.index_of_first(window)->Some_0;
    let once = turn.promoting();
    let swapped = once.scene.order();
    assert(swapped == order.update(0, order[from]).update(from, order[0]));
    swapped.index_of_first_ensures(window);
    assert(swapped.index_of_first(window) == Some(0int)) by {
        assert(swapped[0] == window);
        assert(swapped.contains(window));
    }
    assert(once.scene.way_back() == Some(from));
    assert(once.promoting().scene.order() =~= order);
    lemma_tiling_keeps_the_desks(
        once,
        once.scene.tiled(),
        once.scene.tiles(wanted),
        once.scene.tiled().len() as int,
    );
    let laid = once.laid_out(wanted);
    assert(laid.scene.way_back() == Some(from));
    assert(laid.promoting().scene.order() =~= order);
}

/// Promoting a window and then the one that it displaced gives the order back.
pub proof fn promoting_the_old_master_undoes_a_promotion(turn: Turn, window: u64, from: int)
    requires
        turn.scene.desks.valid(),
        turn.scene.order().no_duplicates(),
        0 < from < turn.scene.order().len(),
        turn.scene.order()[from] == window,
        turn.scene.focused() == Some(window),
    ensures
        ({
            let master = turn.scene.order()[0];
            let once = turn.promoting();
            let again = once.with_desk(
                Desk { focused: Some(master), ..once.scene.desks.current() },
            ).promoting();
            &&& once.scene.order()[0] == window
            &&& again.scene.order() == turn.scene.order()
        }),
{
    let order = turn.scene.order();
    let master = order[0];
    order.index_of_first_ensures(window);
    assert(order.index_of_first(window) == Some(from)) by {
        assert(order.contains(window));
        let i = order.index_of_first(window)->Some_0;
        assert(order[i] == order[from]);
    }
    let once = turn.promoting();
    let swapped = once.scene.order();
    assert(swapped == order.update(0, order[from]).update(from, order[0]));
    let refocused = once.with_desk(Desk { focused: Some(master), ..once.scene.desks.current() });
    assert(refocused.scene.order() == swapped);
    assert(swapped[from] == master);
    swapped.index_of_first_ensures(master);
    assert(swapped.index_of_first(master) == Some(from)) by {
        assert(swapped.contains(master));
        let i = swapped.index_of_first(master)->Some_0;
        if i != from {
            if i == 0 {
                assert(order[from] == order[0]);
            } else {
                assert(order[i] == order[0]);
            }
        }
    }
    assert(refocused.promoting().scene.order() =~= order);
}

} // verus!
