//! The session: which windows there are, where they stand, and what has the
//! keyboard.
//!
//! The session decides; the driver acts. An operation changes the session's own
//! record of the screen and returns the steps that bring the real one in line
//! with it: windows to map and unmap, sizes to ask for, where the keyboard goes.
//! Some steps call back: after a change of the window set the driver has the
//! layout computed again, for which it first works out how wide the master
//! column is to be.

use std::collections::HashMap;

use vstd::prelude::*;

use crate::bindings;
use crate::bindings::{Binding, ModKey, ModifiersState};
use crate::chars;
use crate::config::Config;
use crate::floating;
use crate::floating::{ResizeEdge, ResizeGrab};
use crate::geometry::FloatingGeometry;
use crate::layout;
use crate::layout::{Gaps, Layout};
use crate::number::Number;
use crate::panel;
use crate::utils;
use crate::utils::{Point, Rectangle, Size};
use crate::workspace::{Desk, Desks, Switch, Workspaces};

verus! {

broadcast use vstd::std_specs::hash::group_hash_axioms;

/// What the session knows of a window.
#[derive(Debug, Clone, Copy, PartialEq, Eq)]
pub struct Window {
    pub geometry: FloatingGeometry,
    /// Whether this is an overlay, exempt from tiling and centred; unknown until
    /// the client has named itself.
    pub overlay: Option<bool>,
    /// Whether an overlay has been put in its place.
    pub placed: bool,
    /// How big the window is; nothing until it has drawn something.
    pub size: Size,
}

/// What is known of a window that has only just appeared.
pub open spec fn unknown_window() -> Window {
    Window {
        geometry: FloatingGeometry { floating: None, displaced: false, exempt: false },
        overlay: None,
        placed: false,
        size: Size { w: 0, h: 0 },
    }
}

/// A window on screen, and where.
#[derive(Debug, Clone, Copy, PartialEq, Eq, Structural)]
pub struct Place {
    pub window: u64,
    pub at: Point,
}

/// A window that was made the first of the order, the one that made way for it,
/// and where to.
pub struct Promoted {
    pub window: u64,
    pub displaced: u64,
    pub at: int,
}

#[derive(Debug, Clone, Copy)]
struct Promotion {
    window: u64,
    displaced: u64,
    at: usize,
}

impl View for Promotion {
    type V = Promoted;

    closed spec fn view(&self) -> Promoted {
        Promoted { window: self.window, displaced: self.displaced, at: self.at as int }
    }
}

/// Something the driver has to do.
#[derive(Debug, Clone, Copy, PartialEq, Eq)]
pub enum Step {
    /// Put a window there, on top of the others.
    Put { window: u64, at: Point, activate: bool },
    Hide(u64),
    /// Ask a client to take a size, and tell it whether it is tiled or maximised
    /// where that changes.
    Configure { window: u64, size: Size, tiled: Option<bool>, maximized: Option<bool> },
    /// Send a client what is pending. It draws nothing before it has that.
    SendConfigure(u64),
    /// Give the keyboard to a window, or to none.
    Keyboard(Option<u64>),
    /// Tell a client who draws its titlebar: the session, which draws none, or
    /// the client itself.
    Decorate { window: u64, server_side: bool },
    /// Follow the pointer with a window that stood there.
    MoveGrab { window: u64, button: u32, at: Point },
    /// Drop a tile on another.
    SwapGrab { window: u64, button: u32 },
    /// Drag edges of a window.
    ResizeGrab { window: u64, button: u32, edges: ResizeEdge, rect: Rectangle },
    /// Drag the divider of the layout.
    RatioGrab { button: u32 },
    /// Run the launcher.
    Launch,
    /// Show the list of shortcuts.
    ShowKeys,
    /// Run a terminal.
    SpawnTerminal,
    /// Have the layout computed again.
    Relayout,
    /// Tell every window who draws its titlebar.
    Redecorate,
    /// Focus the topmost window.
    FocusTopmost,
}

/// Where a window stands among places, from `from` on.
pub open spec fn location_from(stack: Seq<Place>, window: u64, from: int) -> Option<Point>
    decreases stack.len() - from,
{
    if from < 0 || from >= stack.len() {
        None
    } else if stack[from].window == window {
        Some(stack[from].at)
    } else {
        location_from(stack, window, from + 1)
    }
}

/// Where a window stands.
pub open spec fn location(stack: Seq<Place>, window: u64) -> Option<Point> {
    location_from(stack, window, 0)
}

/// The places without a window.
pub open spec fn lifted(stack: Seq<Place>, window: u64) -> Seq<Place> {
    stack.filter(|place: Place| place.window != window)
}

/// A point, and the origin where there is none.
pub open spec fn or_origin(at: Option<Point>) -> Point {
    match at {
        Some(at) => at,
        None => Point { x: 0, y: 0 },
    }
}

/// Where a window goes that never had a place of its own.
pub open spec fn or_corner(rect: Option<Rectangle>) -> Point {
    match rect {
        Some(rect) => rect.loc,
        None => Point { x: 40, y: 40 },
    }
}

/// The state of a session, as a mathematical value.
#[verifier::ext_equal]
pub struct Scene {
    /// Windows on screen, the topmost last.
    pub stack: Seq<Place>,
    pub windows: Map<u64, Window>,
    pub desks: Desks<u64>,
    pub gaps: Gaps,
    pub output: Size,
    pub panel_height: i32,
    pub focus_follows_mouse: bool,
    pub mod_key: ModKey,
    /// The last promotion that was not taken back.
    pub promotion: Option<Promoted>,
}

impl Scene {
    pub open spec fn valid(self) -> bool {
        self.desks.valid() && self.output.w >= 0 && self.output.h >= 0
    }

    /// What is known of a window.
    pub open spec fn window(self, window: u64) -> Window {
        if self.windows.contains_key(window) {
            self.windows[window]
        } else {
            unknown_window()
        }
    }

    pub open spec fn order(self) -> Seq<u64> {
        self.desks.current().order
    }

    pub open spec fn focused(self) -> Option<u64> {
        self.desks.current().focused
    }

    /// Where the first window of the order came from, as long as it and the one
    /// that made way for it stand where its promotion put them.
    pub open spec fn way_back(self) -> Option<int> {
        match self.promotion {
            Some(p) => if 0 < p.at < self.order().len() && self.order()[0] == p.window
                && self.order()[p.at] == p.displaced {
                Some(p.at)
            } else {
                None
            },
            None => None,
        }
    }

    /// Whether the layout owns a window's geometry: tiling can be off, and a
    /// window can be exempt from it while it is on.
    pub open spec fn is_tiled(self, window: u64) -> bool {
        self.desks.current().tiling && !self.window(window).geometry.exempt
    }

    /// The windows the layout is entitled to place, in order.
    pub open spec fn tiled(self) -> Seq<u64> {
        self.order().filter(|window: u64| !self.window(window).geometry.exempt)
    }

    /// The part of the screen that windows are laid out in.
    pub open spec fn area(self) -> Rectangle {
        panel::below_panel(self.output, self.panel_height)
    }

    /// Where the layout puts the windows that it places.
    pub open spec fn tiles(self, wanted: i32) -> Seq<Rectangle> {
        self.desks.current().layout.arrangement(
            self.area(),
            self.tiled().len() as int,
            self.gaps,
            wanted,
        )
    }

    /// Whether every coordinate of the layout can be held.
    pub open spec fn layout_fits(self, wanted: i32) -> bool {
        self.desks.current().layout.arrangement_fits(
            self.area(),
            self.tiled().len() as int,
            self.gaps,
            wanted,
        )
    }

    /// A window's rectangle on screen.
    pub open spec fn rect(self, window: u64) -> Rectangle {
        Rectangle {
            loc: or_origin(location(self.stack, window)),
            size: self.window(window).size,
        }
    }

    /// What a window remembers of its place, once it has been looked at: nothing
    /// new where it is not on screen.
    pub open spec fn remembering(self, window: u64) -> FloatingGeometry {
        match location(self.stack, window) {
            Some(at) => self.window(window).geometry.remembering(
                Rectangle { loc: at, size: self.window(window).size },
            ),
            None => self.window(window).geometry,
        }
    }
}

/// A state and the steps that led to it.
#[verifier::ext_equal]
pub struct Turn {
    pub scene: Scene,
    pub steps: Seq<Step>,
}

impl Turn {
    pub open spec fn from(scene: Scene) -> Turn {
        Turn { scene, steps: Seq::empty() }
    }

    pub open spec fn saying(self, step: Step) -> Turn {
        Turn { steps: self.steps.push(step), ..self }
    }

    pub open spec fn mapping(self, window: u64, at: Point, activate: bool) -> Turn {
        Turn {
            scene: Scene {
                stack: lifted(self.scene.stack, window).push(Place { window, at }),
                ..self.scene
            },
            steps: self.steps.push(Step::Put { window, at, activate }),
        }
    }

    pub open spec fn unmapping(self, window: u64) -> Turn {
        Turn {
            scene: Scene { stack: lifted(self.scene.stack, window), ..self.scene },
            steps: self.steps.push(Step::Hide(window)),
        }
    }

    pub open spec fn knowing(self, window: u64, known: Window) -> Turn {
        Turn {
            scene: Scene { windows: self.scene.windows.insert(window, known), ..self.scene },
            ..self
        }
    }

    pub open spec fn with_geometry(self, window: u64, geometry: FloatingGeometry) -> Turn {
        self.knowing(window, Window { geometry, ..self.scene.window(window) })
    }

    pub open spec fn with_desks(self, desks: Desks<u64>) -> Turn {
        Turn { scene: Scene { desks, ..self.scene }, ..self }
    }

    pub open spec fn with_desk(self, desk: Desk<u64>) -> Turn {
        self.with_desks(self.scene.desks.with_current(desk))
    }

    /// Raise a window and give it the keyboard, in one step: a window that has
    /// one without the other is typed into unseen.
    pub open spec fn focusing(self, window: u64) -> Turn {
        self.with_desk(
            Desk { focused: Some(window), ..self.scene.desks.current() },
        ).mapping(window, or_origin(location(self.scene.stack, window)), true).saying(
            Step::Keyboard(Some(window)),
        )
    }

    /// Give the keyboard to a window, or take it from all of them.
    pub open spec fn handing(self, focus: Option<u64>) -> Turn {
        match focus {
            Some(window) => self.focusing(window),
            None => self.saying(Step::Keyboard(None)),
        }
    }

    /// Put a window where the layout wants it. Its floating rectangle is noted
    /// before it is displaced, so that leaving the layout can put it back.
    pub open spec fn tiling(self, window: u64, tile: Rectangle) -> Turn {
        self.with_geometry(
            window,
            self.scene.remembering(window).marked_displaced(true),
        ).saying(
            Step::Configure { window, size: tile.size, tiled: Some(true), maximized: None },
        ).mapping(window, tile.loc, false)
    }

    pub open spec fn tiling_all(self, windows: Seq<u64>, tiles: Seq<Rectangle>, n: int) -> Turn
        decreases n,
    {
        if n <= 0 {
            self
        } else {
            self.tiling_all(windows, tiles, n - 1).tiling(windows[n - 1], tiles[n - 1])
        }
    }

    /// Put a window back where it floated.
    pub open spec fn untiling(self, window: u64) -> Turn {
        let freed = self.with_geometry(
            window,
            self.scene.window(window).geometry.marked_displaced(false),
        );
        match self.scene.window(window).geometry.floating {
            Some(rect) => freed.saying(
                Step::Configure { window, size: rect.size, tiled: Some(false), maximized: None },
            ).mapping(window, rect.loc, false),
            None => freed,
        }
    }

    pub open spec fn untiling_all(self, windows: Seq<u64>, n: int) -> Turn
        decreases n,
    {
        if n <= 0 {
            self
        } else {
            self.untiling_all(windows, n - 1).untiling(windows[n - 1])
        }
    }

    pub open spec fn hiding_all(self, windows: Seq<u64>, n: int) -> Turn
        decreases n,
    {
        if n <= 0 {
            self
        } else {
            self.hiding_all(windows, n - 1).unmapping(windows[n - 1])
        }
    }

    /// Put a window where it was left.
    pub open spec fn showing(self, window: u64) -> Turn {
        self.mapping(window, or_corner(self.scene.window(window).geometry.floating), false)
    }

    pub open spec fn showing_all(self, windows: Seq<u64>, n: int) -> Turn
        decreases n,
    {
        if n <= 0 {
            self
        } else {
            self.showing_all(windows, n - 1).showing(windows[n - 1])
        }
    }

    /// Compute and apply the layout over the current windows.
    pub open spec fn laid_out(self, wanted: i32) -> Turn {
        if self.scene.desks.current().tiling {
            self.tiling_all(
                self.scene.tiled(),
                self.scene.tiles(wanted),
                self.scene.tiled().len() as int,
            )
        } else {
            self
        }
    }

    /// Tell the first `n` windows on screen who draws their titlebars.
    pub open spec fn decorating(self, n: int) -> Turn
        decreases n,
    {
        if n <= 0 {
            self
        } else {
            self.decorating(n - 1).saying(
                Step::Decorate {
                    window: self.scene.stack[n - 1].window,
                    server_side: self.scene.desks.current().tiling,
                },
            )
        }
    }

    pub open spec fn switching(self, index: int) -> Turn {
        let desks = self.scene.desks;
        if desks.elsewhere(index) {
            let hide = desks.current().order;
            let show = desks.all[index].order;
            self.with_desks(desks.switched(index)).hiding_all(hide, hide.len() as int).showing_all(
                show,
                show.len() as int,
            ).handing(desks.all[index].arrival_focus()).saying(Step::Relayout)
        } else {
            self
        }
    }

    pub open spec fn sending(self, index: int) -> Turn {
        let desks = self.scene.desks;
        match desks.current().focused {
            Some(window) => if desks.can_move(window, index) {
                let moved = desks.moved(window, index);
                self.with_desks(moved).unmapping(window).handing(moved.current().focused).saying(
                    Step::Relayout,
                )
            } else {
                self
            },
            None => self,
        }
    }

    pub open spec fn with_order(self, order: Seq<u64>) -> Turn {
        self.with_desk(Desk { order, ..self.scene.desks.current() })
    }

    pub open spec fn swapping(self, a: int, b: int) -> Turn {
        let order = self.scene.order();
        self.with_order(order.update(a, order[b]).update(b, order[a])).saying(Step::Relayout)
    }

    /// Move the keyboard along the order of the windows.
    pub open spec fn stepping(self, delta: int) -> Turn {
        let order = self.scene.order();
        if order.len() == 0 {
            self
        } else {
            let current = match self.scene.focused() {
                Some(window) => match order.index_of_first(window) {
                    Some(i) => i,
                    None => 0,
                },
                None => 0,
            };
            self.focusing(order[layout::stepped(order.len() as int, current, delta)])
        }
    }

    /// Move the focused window along the order.
    pub open spec fn moving_in_order(self, delta: int) -> Turn {
        let order = self.scene.order();
        match self.scene.focused() {
            Some(window) => match order.index_of_first(window) {
                Some(from) => if order.len() < 2 {
                    self
                } else {
                    self.swapping(from, layout::stepped(order.len() as int, from, delta))
                },
                None => self,
            },
            None => self,
        }
    }

    pub open spec fn with_promotion(self, promotion: Option<Promoted>) -> Turn {
        Turn { scene: Scene { promotion, ..self.scene }, ..self }
    }

    /// Make the focused window the first of the order; the first goes where it
    /// was. Where it has been made the first, it goes back.
    pub open spec fn promoting(self) -> Turn {
        let order = self.scene.order();
        match self.scene.focused() {
            Some(window) => match order.index_of_first(window) {
                Some(from) => if from != 0 {
                    self.with_promotion(
                        Some(Promoted { window, displaced: order[0], at: from }),
                    ).swapping(0, from)
                } else {
                    match self.scene.way_back() {
                        Some(at) => self.with_promotion(None).swapping(0, at),
                        None => self,
                    }
                },
                None => self,
            },
            None => self,
        }
    }

    pub open spec fn toggling_tiling(self) -> Turn {
        let on = !self.scene.desks.current().tiling;
        let toggled = self.with_desk(Desk { tiling: on, ..self.scene.desks.current() });
        (if on {
            toggled.saying(Step::Relayout)
        } else {
            toggled.untiling_all(toggled.scene.tiled(), toggled.scene.tiled().len() as int)
        }).saying(Step::Redecorate)
    }

    pub open spec fn toggling_floating(self, window: u64) -> Turn {
        let geometry = self.scene.window(window).geometry;
        if geometry.exempt {
            self.with_geometry(window, geometry.marked_exempt(false)).saying(Step::Relayout)
        } else {
            let freed = self.with_geometry(
                window,
                geometry.marked_exempt(true).marked_displaced(false),
            );
            (match geometry.floating {
                Some(rect) => freed.saying(
                    Step::Configure { window, size: rect.size, tiled: None, maximized: None },
                ).mapping(window, rect.loc, true),
                None => freed,
            }).saying(Step::Relayout)
        }
    }

    /// Fill the output, or return to where the window floated. A window of the
    /// layout stays there, and one with nowhere to return to stays as it is.
    pub open spec fn toggling_maximize(self, window: u64, output: Size) -> Turn {
        let geometry = self.scene.window(window).geometry;
        if self.scene.is_tiled(window) {
            self
        } else if geometry.displaced {
            match geometry.floating {
                Some(rect) => self.with_geometry(
                    window,
                    geometry.marked_displaced(false),
                ).saying(
                    Step::Configure {
                        window,
                        size: rect.size,
                        tiled: None,
                        maximized: Some(false),
                    },
                ).mapping(window, rect.loc, true),
                None => self,
            }
        } else {
            let noted = self.scene.remembering(window);
            match noted.floating {
                Some(_) => {
                    let area = panel::below_panel(output, self.scene.panel_height);
                    self.with_geometry(window, noted.marked_displaced(true)).saying(
                        Step::Configure {
                            window,
                            size: area.size,
                            tiled: None,
                            maximized: Some(true),
                        },
                    ).mapping(window, area.loc, true)
                },
                None => self.with_geometry(window, noted),
            }
        }
    }

    pub open spec fn with_layout(self, layout: Layout) -> Turn {
        self.with_desk(Desk { layout, ..self.scene.desks.current() })
    }

    /// Where the `n`th window of the screen first goes: each a little further
    /// than the one before, so that a second window is visibly a second one.
    pub open spec fn appearing(self, window: u64, dialog: bool) -> Turn {
        let n = self.scene.stack.len() as int;
        let at = Point {
            x: (40 + n * 30) as i32,
            y: (self.scene.area().loc.y + 40 + n * 30) as i32,
        };
        let known = self.knowing(window, unknown_window()).mapping(window, at, true).saying(
            Step::SendConfigure(window),
        );
        let exempted = if dialog {
            known.with_geometry(
                window,
                known.scene.remembering(window).marked_exempt(true),
            )
        } else {
            known.with_geometry(window, known.scene.remembering(window))
        };
        exempted.with_desks(exempted.scene.desks.inserted(window)).focusing(window).saying(
            Step::Relayout,
        )
    }

    pub open spec fn vanishing(self, window: u64) -> Turn {
        let gone = if location(self.scene.stack, window) is Some {
            self.unmapping(window)
        } else {
            self
        };
        let forgotten = gone.with_desks(gone.scene.desks.removed(window));
        Turn {
            scene: Scene {
                windows: forgotten.scene.windows.remove(window),
                ..forgotten.scene
            },
            ..forgotten
        }.saying(Step::Relayout).saying(Step::FocusTopmost)
    }

    /// Focus the topmost window, or none where none is left: a focus does not
    /// outlive its window.
    pub open spec fn focusing_topmost(self) -> Turn {
        if self.scene.stack.len() > 0 {
            self.focusing(self.scene.stack.last().window)
        } else {
            self.with_desk(Desk { focused: None, ..self.scene.desks.current() }).saying(
                Step::Keyboard(None),
            )
        }
    }
}

/// Half, and a third, of what is left beside a length; nothing where nothing is.
pub open spec fn share(whole: int, length: int, parts: int) -> int {
    if whole < length {
        0
    } else {
        (whole - length) / parts
    }
}

/// The name by which an overlay is known.
pub const OVERLAY_APP_ID: &'static str = "cusk-launcher";

impl Turn {
    /// Decide what a window is, once it has drawn something.
    pub open spec fn classifying(self, window: u64, app_id: Option<Seq<char>>) -> Turn {
        let before = self.scene.window(window);
        let overlay = if before.overlay is None && app_id is Some {
            Some(app_id->Some_0 == OVERLAY_APP_ID@)
        } else {
            before.overlay
        };
        let known = self.knowing(window, Window { overlay, ..before });
        if overlay != Some(true) || before.placed {
            known
        } else {
            let exempted = known.knowing(
                window,
                Window { overlay, geometry: before.geometry.marked_exempt(true), ..before },
            );
            if before.size.w <= 0 || before.size.h <= 0 {
                exempted
            } else {
                // Centred across, and high: in the middle it would cover what
                // was being looked at.
                let at = Point {
                    x: share(self.scene.output.w as int, before.size.w as int, 2) as i32,
                    y: share(self.scene.output.h as int, before.size.h as int, 3) as i32,
                };
                let placed = exempted.knowing(
                    window,
                    Window {
                        overlay,
                        geometry: before.geometry.marked_exempt(true),
                        placed: true,
                        ..before
                    },
                ).mapping(window, at, true);
                placed.with_geometry(window, placed.scene.remembering(window)).focusing(
                    window,
                ).saying(Step::Relayout)
            }
        }
    }

    /// A client has drawn something. Nothing is made of that where the window is
    /// not on screen.
    pub open spec fn committing(self, window: u64, size: Size, app_id: Option<Seq<char>>) -> Turn {
        if location(self.scene.stack, window) is Some {
            self.knowing(
                window,
                Window { size, ..self.scene.window(window) },
            ).classifying(window, app_id).saying(Step::SendConfigure(window))
        } else {
            self
        }
    }

    /// The gesture is the same; what it means is not. A tiled window has no
    /// place of its own to change, so dragging it reorders.
    pub open spec fn starting_move(self, window: u64, button: u32) -> Turn {
        if self.scene.is_tiled(window) {
            self.saying(Step::SwapGrab { window, button })
        } else {
            self.saying(
                Step::MoveGrab {
                    window,
                    button,
                    at: or_origin(location(self.scene.stack, window)),
                },
            )
        }
    }

    /// A tile cannot be resized alone, so the gesture drags the divider.
    pub open spec fn starting_resize(self, window: u64, button: u32, edges: ResizeEdge) -> Turn {
        if self.scene.is_tiled(window) {
            self.saying(Step::RatioGrab { button })
        } else {
            self.saying(
                Step::ResizeGrab { window, button, edges, rect: self.scene.rect(window) },
            )
        }
    }
}

/// A session.
#[derive(Debug)]
pub struct Cusk {
    stack: Vec<Place>,
    windows: HashMap<u64, Window>,
    workspaces: Workspaces<u64>,
    gaps: Gaps,
    output_size: Size,
    panel_height: i32,
    focus_follows_mouse: bool,
    mod_key: ModKey,
    promotion: Option<Promotion>,
}

impl View for Cusk {
    type V = Scene;

    closed spec fn view(&self) -> Scene {
        Scene {
            stack: self.stack@,
            windows: self.windows@,
            desks: self.workspaces@,
            gaps: self.gaps,
            output: self.output_size,
            panel_height: self.panel_height,
            focus_follows_mouse: self.focus_follows_mouse,
            mod_key: self.mod_key,
            promotion: match self.promotion {
                Some(promotion) => Some(promotion@),
                None => None,
            },
        }
    }
}

/// The state and the steps, taken together.
pub open spec fn turn(scene: Scene, steps: Seq<Step>) -> Turn {
    Turn { scene, steps }
}

fn index_in(order: &Vec<u64>, window: u64) -> (found: Option<usize>)
    ensures
        match found {
            Some(i) => i < order@.len() && order@.index_of_first(window) == Some(i as int),
            None => order@.index_of_first(window) is None,
        },
{
    for i in 0..order.len()
        invariant
            forall|k: int| 0 <= k < i ==> order@[k] != window,
    {
        if order[i] == window {
            proof {
                order@.index_of_first_ensures(window);
            }
            return Some(i);
        }
    }
    proof {
        order@.index_of_first_ensures(window);
    }
    None
}

fn lift(stack: &mut Vec<Place>, window: u64)
    ensures
        final(stack)@ == lifted(old(stack)@, window),
{
    let mut kept: Vec<Place> = Vec::new();
    for i in 0..stack.len()
        invariant
            stack@ == old(stack)@,
            kept@ == lifted(stack@.take(i as int), window),
    {
        proof {
            reveal(Seq::filter);
            assert(stack@.take(i + 1).drop_last() =~= stack@.take(i as int));
        }
        if stack[i].window != window {
            kept.push(stack[i]);
        }
    }
    assert(stack@.take(stack@.len() as int) =~= stack@);
    *stack = kept;
}

fn copied(order: &Vec<u64>) -> (copy: Vec<u64>)
    ensures
        copy@ == order@,
{
    let copy: Vec<u64> = order.clone();
    assert(copy@ =~= order@);
    copy
}

fn origin_or(at: Option<Point>) -> (point: Point)
    ensures
        point == or_origin(at),
{
    match at {
        Some(at) => at,
        None => Point { x: 0, y: 0 },
    }
}

fn corner_or(rect: Option<Rectangle>) -> (point: Point)
    ensures
        point == or_corner(rect),
{
    match rect {
        Some(rect) => rect.loc,
        None => Point { x: 40, y: 40 },
    }
}

impl Cusk {
    fn known(&self, window: u64) -> (known: Window)
        ensures
            known == self@.window(window),
    {
        match self.windows.get(&window) {
            Some(known) => *known,
            None => Window {
                geometry: FloatingGeometry::default(),
                overlay: None,
                placed: false,
                size: Size { w: 0, h: 0 },
            },
        }
    }

    fn learn(&mut self, window: u64, known: Window)
        ensures
            final(self)@ == (Scene { windows: old(self)@.windows.insert(window, known), ..old(self)@ }),
    {
        self.windows.insert(window, known);
    }

    /// Where a window stands on screen.
    pub fn location(&self, window: u64) -> (at: Option<Point>)
        ensures
            at == location(self@.stack, window),
    {
        for i in 0..self.stack.len()
            invariant
                location_from(self@.stack, window, i as int) == location(self@.stack, window),
        {
            if self.stack[i].window == window {
                return Some(self.stack[i].at);
            }
        }
        None
    }

    /// A window's rectangle on screen.
    pub fn window_rect(&self, window: u64) -> (rect: Rectangle)
        ensures
            rect == self@.rect(window),
    {
        Rectangle { loc: origin_or(self.location(window)), size: self.known(window).size }
    }

    fn remembered(&self, window: u64) -> (geometry: FloatingGeometry)
        ensures
            geometry == self@.remembering(window),
    {
        let known: Window = self.known(window);
        let mut geometry: FloatingGeometry = known.geometry;
        match self.location(window) {
            Some(at) => geometry.remember(Rectangle { loc: at, size: known.size }),
            None => {},
        }
        geometry
    }

    fn set_geometry(&mut self, window: u64, geometry: FloatingGeometry)
        ensures
            forall|steps: Seq<Step>| #[trigger]
                turn(final(self)@, steps) == turn(old(self)@, steps).with_geometry(
                    window,
                    geometry,
                ),
    {
        let known: Window = self.known(window);
        self.learn(window, Window { geometry, ..known });
    }

    fn put(&mut self, window: u64, at: Point, activate: bool, steps: &mut Vec<Step>)
        ensures
            turn(final(self)@, final(steps)@) == turn(old(self)@, old(steps)@).mapping(
                window,
                at,
                activate,
            ),
    {
        lift(&mut self.stack, window);
        self.stack.push(Place { window, at });
        steps.push(Step::Put { window, at, activate });
    }

    fn take_off(&mut self, window: u64, steps: &mut Vec<Step>)
        ensures
            turn(final(self)@, final(steps)@) == turn(old(self)@, old(steps)@).unmapping(window),
    {
        lift(&mut self.stack, window);
        steps.push(Step::Hide(window));
    }

    fn set_focused(&mut self, focused: Option<u64>)
        requires
            old(self)@.valid(),
        ensures
            final(self)@.valid(),
            forall|steps: Seq<Step>| #[trigger]
                turn(final(self)@, steps) == turn(old(self)@, steps).with_desk(
                    Desk { focused, ..old(self)@.desks.current() },
                ),
    {
        let desk = self.workspaces.active_mut();
        desk.focused = focused;
    }

    fn focus_on(&mut self, window: u64, steps: &mut Vec<Step>)
        requires
            old(self)@.valid(),
        ensures
            final(self)@.valid(),
            turn(final(self)@, final(steps)@) == turn(old(self)@, old(steps)@).focusing(window),
    {
        let at: Point = origin_or(self.location(window));
        self.set_focused(Some(window));
        assert(turn(self@, steps@) == turn(old(self)@, old(steps)@).with_desk(
            Desk { focused: Some(window), ..old(self)@.desks.current() },
        ));
        self.put(window, at, true, steps);
        steps.push(Step::Keyboard(Some(window)));
    }

    fn hand(&mut self, focus: Option<u64>, steps: &mut Vec<Step>)
        requires
            old(self)@.valid(),
        ensures
            final(self)@.valid(),
            turn(final(self)@, final(steps)@) == turn(old(self)@, old(steps)@).handing(focus),
    {
        match focus {
            Some(window) => self.focus_on(window, steps),
            None => steps.push(Step::Keyboard(None)),
        }
    }

    /// The windows of the active workspace, in order.
    pub fn order(&self) -> (order: &Vec<u64>)
        requires
            self@.valid(),
        ensures
            order@ == self@.order(),
    {
        &self.workspaces.active().order
    }

    pub fn order_mut(&mut self) -> (order: &mut Vec<u64>)
        requires
            old(self)@.valid(),
        ensures
            order@ == old(self)@.order(),
            final(self)@ == turn(old(self)@, Seq::empty()).with_order(final(order)@).scene,
    {
        &mut self.workspaces.active_mut().order
    }

    pub fn tiling(&self) -> (b: bool)
        requires
            self@.valid(),
        ensures
            b == self@.desks.current().tiling,
    {
        self.workspaces.active().tiling
    }

    pub fn layout(&self) -> (layout: Layout)
        requires
            self@.valid(),
        ensures
            layout == self@.desks.current().layout,
    {
        self.workspaces.active().layout
    }

    pub fn focused(&self) -> (window: Option<u64>)
        requires
            self@.valid(),
        ensures
            window == self@.focused(),
    {
        self.workspaces.active().focused
    }

    pub fn workspaces(&self) -> (workspaces: &Workspaces<u64>)
        ensures
            workspaces@ == self@.desks,
    {
        &self.workspaces
    }

    /// Windows on screen, the topmost last.
    pub fn stack(&self) -> (stack: &Vec<Place>)
        ensures
            stack@ == self@.stack,
    {
        &self.stack
    }

    pub fn output_size(&self) -> (size: Size)
        ensures
            size == self@.output,
    {
        self.output_size
    }

    pub fn panel_height(&self) -> (height: i32)
        ensures
            height == self@.panel_height,
    {
        self.panel_height
    }

    pub fn gaps(&self) -> (gaps: Gaps)
        ensures
            gaps == self@.gaps,
    {
        self.gaps
    }

    pub fn mod_key(&self) -> (key: ModKey)
        ensures
            key == self@.mod_key,
    {
        self.mod_key
    }

    /// Whether the layout owns a window's geometry.
    pub fn is_tiled(&self, window: u64) -> (b: bool)
        requires
            self@.valid(),
        ensures
            b == self@.is_tiled(window),
    {
        self.tiling() && !self.known(window).geometry.exempt
    }

    /// The windows the layout is entitled to place, in order.
    pub fn tiled(&self) -> (windows: Vec<u64>)
        requires
            self@.valid(),
        ensures
            windows@ == self@.tiled(),
    {
        let order: &Vec<u64> = self.order();
        let ghost wanted = |window: u64| !self@.window(window).geometry.exempt;
        let mut windows: Vec<u64> = Vec::new();
        reveal(Seq::filter);
        assert(windows@ =~= order@.take(0).filter(wanted));
        for i in 0..order.len()
            invariant
                order@ == self@.order(),
                wanted == (|window: u64| !self@.window(window).geometry.exempt),
                windows@ == order@.take(i as int).filter(wanted),
        {
            proof {
                reveal(Seq::filter);
                assert(order@.take(i + 1).drop_last() =~= order@.take(i as int));
            }
            if !self.known(order[i]).geometry.exempt {
                windows.push(order[i]);
            }
        }
        assert(order@.take(order@.len() as int) =~= order@);
        windows
    }

    /// The part of the screen that windows are laid out in.
    pub fn area(&self) -> (area: Rectangle)
        requires
            self@.valid(),
        ensures
            area == self@.area(),
    {
        panel::usable_area(self.output_size, self.panel_height)
    }

    /// Whether every coordinate of the layout can be held, `wanted` being the
    /// width that the master fraction gives.
    pub fn fits(&self, wanted: i32) -> (fits: bool)
        requires
            self@.valid(),
        ensures
            fits == self@.layout_fits(wanted),
    {
        self.layout().fits(self.area(), self.tiled().len(), self.gaps, wanted)
    }

    /// Where the layout puts the windows that it places, `wanted` being the
    /// width that the master fraction gives.
    pub fn tiles(&self, wanted: i32) -> (tiles: Vec<Rectangle>)
        requires
            self@.valid(),
            self@.layout_fits(wanted),
        ensures
            tiles@ == self@.tiles(wanted),
            tiles@.len() == self@.tiled().len(),
    {
        let n: usize = self.tiled().len();
        self.layout().arrange(self.area(), n, self.gaps, wanted)
    }

    /// Compute and apply the layout over the current windows. Safe to call after
    /// any change to either.
    pub fn relayout(&mut self, wanted: i32) -> (steps: Vec<Step>)
        requires
            old(self)@.valid(),
            old(self)@.desks.current().tiling ==> old(self)@.layout_fits(wanted),
        ensures
            final(self)@.valid(),
            turn(final(self)@, steps@) == Turn::from(old(self)@).laid_out(wanted),
    {
        let mut steps: Vec<Step> = Vec::new();
        assert(steps@ =~= Seq::<Step>::empty());
        if !self.tiling() {
            return steps;
        }
        let windows: Vec<u64> = self.tiled();
        let tiles: Vec<Rectangle> = self.tiles(wanted);
        let ghost start = Turn::from(old(self)@);
        for i in 0..windows.len()
            invariant
                windows@.len() == tiles@.len(),
                self@.valid(),
                turn(self@, steps@) == start.tiling_all(windows@, tiles@, i as int),
        {
            let ghost before = turn(self@, steps@);
            let window: u64 = windows[i];
            let tile: Rectangle = tiles[i];
            let mut geometry: FloatingGeometry = self.remembered(window);
            geometry.set_displaced(true);
            self.set_geometry(window, geometry);
            assert(turn(self@, steps@) == before.with_geometry(window, geometry));
            steps.push(
                Step::Configure { window, size: tile.size, tiled: Some(true), maximized: None },
            );
            self.put(window, tile.loc, false, &mut steps);
            assert(turn(self@, steps@) == before.tiling(window, tile));
        }
        steps
    }

    /// Tell every window who draws its titlebar: where the layout places
    /// windows, the session does and draws none, and else the client does.
    pub fn decorations(&self) -> (steps: Vec<Step>)
        requires
            self@.valid(),
        ensures
            turn(self@, steps@) == Turn::from(self@).decorating(self@.stack.len() as int),
    {
        let mut steps: Vec<Step> = Vec::new();
        assert(steps@ =~= Seq::<Step>::empty());
        let tiling: bool = self.tiling();
        let ghost start = Turn::from(self@);
        for i in 0..self.stack.len()
            invariant
                self@.valid(),
                tiling == self@.desks.current().tiling,
                start == Turn::from(self@),
                turn(self@, steps@) == start.decorating(i as int),
        {
            steps.push(self.decoration(self.stack[i].window));
        }
        steps
    }

    /// Tell one window who draws its titlebar.
    pub fn decoration(&self, window: u64) -> (step: Step)
        requires
            self@.valid(),
        ensures
            step == (Step::Decorate { window, server_side: self@.desks.current().tiling }),
    {
        Step::Decorate { window, server_side: self.tiling() }
    }

    fn hide_all(&mut self, windows: &Vec<u64>, steps: &mut Vec<Step>)
        requires
            old(self)@.valid(),
        ensures
            final(self)@.valid(),
            turn(final(self)@, final(steps)@) == turn(old(self)@, old(steps)@).hiding_all(
                windows@,
                windows@.len() as int,
            ),
    {
        let ghost start = turn(self@, steps@);
        for i in 0..windows.len()
            invariant
                self@.valid(),
                turn(self@, steps@) == start.hiding_all(windows@, i as int),
        {
            self.take_off(windows[i], steps);
        }
    }

    fn show_all(&mut self, windows: &Vec<u64>, steps: &mut Vec<Step>)
        requires
            old(self)@.valid(),
        ensures
            final(self)@.valid(),
            turn(final(self)@, final(steps)@) == turn(old(self)@, old(steps)@).showing_all(
                windows@,
                windows@.len() as int,
            ),
    {
        let ghost start = turn(self@, steps@);
        for i in 0..windows.len()
            invariant
                self@.valid(),
                turn(self@, steps@) == start.showing_all(windows@, i as int),
        {
            let at: Point = corner_or(self.known(windows[i]).geometry.floating);
            self.put(windows[i], at, false, steps);
        }
    }

    fn switch_to(&mut self, index: usize, steps: &mut Vec<Step>)
        requires
            old(self)@.valid(),
        ensures
            final(self)@.valid(),
            turn(final(self)@, final(steps)@) == turn(old(self)@, old(steps)@).switching(
                index as int,
            ),
    {
        let ghost start = turn(self@, steps@);
        let switch: Switch<u64> = match self.workspaces.switch_to(index) {
            Some(switch) => switch,
            None => {
                assert(turn(self@, steps@) =~= start);
                return;
            },
        };
        assert(turn(self@, steps@) =~= start.with_desks(start.scene.desks.switched(index as int)));
        self.hide_all(&switch.hide, steps);
        self.show_all(&switch.show, steps);
        self.hand(switch.focus, steps);
        steps.push(Step::Relayout);
    }

    /// Show a different workspace. The windows of the one that is left are taken
    /// off the screen, not moved out of it.
    pub fn switch_workspace(&mut self, index: usize) -> (steps: Vec<Step>)
        requires
            old(self)@.valid(),
        ensures
            final(self)@.valid(),
            turn(final(self)@, steps@) == Turn::from(old(self)@).switching(index as int),
    {
        let mut steps: Vec<Step> = Vec::new();
        assert(steps@ =~= Seq::<Step>::empty());
        self.switch_to(index, &mut steps);
        steps
    }

    /// Send the focused window to another workspace.
    pub fn send_to_workspace(&mut self, index: usize) -> (steps: Vec<Step>)
        requires
            old(self)@.valid(),
        ensures
            final(self)@.valid(),
            turn(final(self)@, steps@) == Turn::from(old(self)@).sending(index as int),
    {
        let mut steps: Vec<Step> = Vec::new();
        assert(steps@ =~= Seq::<Step>::empty());
        let ghost start = Turn::from(old(self)@);
        let window: u64 = match self.focused() {
            Some(window) => window,
            None => {
                return steps;
            },
        };
        match self.workspaces.move_to(&window, index) {
            Some(focus) => {
                assert(turn(self@, steps@) =~= start.with_desks(
                    start.scene.desks.moved(window, index as int),
                ));
                self.take_off(window, &mut steps);
                self.hand(focus, &mut steps);
                steps.push(Step::Relayout);
            },
            None => {
                assert(turn(self@, steps@) =~= start);
            },
        }
        steps
    }

    fn swap(&mut self, a: usize, b: usize, steps: &mut Vec<Step>)
        requires
            old(self)@.valid(),
            a < old(self)@.order().len(),
            b < old(self)@.order().len(),
        ensures
            final(self)@.valid(),
            turn(final(self)@, final(steps)@) == turn(old(self)@, old(steps)@).swapping(
                a as int,
                b as int,
            ),
    {
        let ghost order = self@.order();
        let mut swapped: Vec<u64> = copied(self.order());
        let first: u64 = swapped[a];
        let second: u64 = swapped[b];
        swapped.set(a, second);
        swapped.set(b, first);
        let desk = self.workspaces.active_mut();
        desk.order = swapped;
        steps.push(Step::Relayout);
        assert(turn(self@, steps@) =~= turn(old(self)@, old(steps)@).swapping(a as int, b as int));
    }

    /// Move the keyboard to the next or previous window.
    ///
    /// Along the order, not the stack: that lists the windows by when they were
    /// last used, and walking it goes back and forth between two of them.
    pub fn focus_step(&mut self, delta: isize) -> (steps: Vec<Step>)
        requires
            old(self)@.valid(),
        ensures
            final(self)@.valid(),
            turn(final(self)@, steps@) == Turn::from(old(self)@).stepping(delta as int),
    {
        let mut steps: Vec<Step> = Vec::new();
        assert(steps@ =~= Seq::<Step>::empty());
        let order: Vec<u64> = copied(self.order());
        if order.len() == 0 {
            return steps;
        }
        let current: usize = match self.focused() {
            Some(window) => match index_in(&order, window) {
                Some(i) => i,
                None => 0,
            },
            None => 0,
        };
        let next: usize = layout::step(order.len(), current, delta);
        self.focus_on(order[next], &mut steps);
        steps
    }

    /// Move the focused window earlier or later in the order.
    pub fn move_in_order(&mut self, delta: isize) -> (steps: Vec<Step>)
        requires
            old(self)@.valid(),
        ensures
            final(self)@.valid(),
            turn(final(self)@, steps@) == Turn::from(old(self)@).moving_in_order(delta as int),
    {
        let mut steps: Vec<Step> = Vec::new();
        assert(steps@ =~= Seq::<Step>::empty());
        match self.focused() {
            Some(window) => match index_in(self.order(), window) {
                Some(from) => {
                    let n: usize = self.order().len();
                    if n >= 2 {
                        let to: usize = layout::step(n, from, delta);
                        self.swap(from, to, &mut steps);
                    }
                },
                None => {},
            },
            None => {},
        }
        steps
    }

    /// Where the first window of the order came from, if its promotion can be
    /// taken back.
    fn way_back(&self) -> (at: Option<usize>)
        requires
            self@.valid(),
        ensures
            match at {
                Some(at) => self@.way_back() == Some(at as int),
                None => self@.way_back() is None,
            },
    {
        match self.promotion {
            Some(p) => {
                let order: &Vec<u64> = self.order();
                if 0 < p.at && p.at < order.len() && order[0] == p.window && order[p.at]
                    == p.displaced {
                    Some(p.at)
                } else {
                    None
                }
            },
            None => None,
        }
    }

    /// Make the focused window the master; the old one goes where it was. A
    /// second time, the two change back.
    pub fn promote(&mut self) -> (steps: Vec<Step>)
        requires
            old(self)@.valid(),
        ensures
            final(self)@.valid(),
            turn(final(self)@, steps@) == Turn::from(old(self)@).promoting(),
    {
        let mut steps: Vec<Step> = Vec::new();
        assert(steps@ =~= Seq::<Step>::empty());
        match self.focused() {
            Some(window) => match index_in(self.order(), window) {
                Some(from) => {
                    if from != 0 {
                        let displaced: u64 = self.order()[0];
                        self.promotion = Some(Promotion { window, displaced, at: from });
                        assert(turn(self@, steps@) =~= Turn::from(old(self)@).with_promotion(
                            Some(Promoted { window, displaced, at: from as int }),
                        ));
                        self.swap(0, from, &mut steps);
                    } else {
                        match self.way_back() {
                            Some(at) => {
                                self.promotion = None;
                                assert(turn(self@, steps@) =~= Turn::from(
                                    old(self)@,
                                ).with_promotion(None));
                                self.swap(0, at, &mut steps);
                            },
                            None => {},
                        }
                    }
                },
                None => {},
            },
            None => {},
        }
        steps
    }

    /// Switch the workspace between tiled and floating.
    pub fn toggle_tiling(&mut self) -> (steps: Vec<Step>)
        requires
            old(self)@.valid(),
        ensures
            final(self)@.valid(),
            turn(final(self)@, steps@) == Turn::from(old(self)@).toggling_tiling(),
    {
        let mut steps: Vec<Step> = Vec::new();
        assert(steps@ =~= Seq::<Step>::empty());
        let on: bool = !self.tiling();
        let ghost start = Turn::from(old(self)@);
        let desk = self.workspaces.active_mut();
        desk.tiling = on;
        let ghost toggled = start.with_desk(Desk { tiling: on, ..start.scene.desks.current() });
        assert(turn(self@, steps@) =~= toggled);
        if on {
            steps.push(Step::Relayout);
        } else {
            let windows: Vec<u64> = self.tiled();
            for i in 0..windows.len()
                invariant
                    self@.valid(),
                    turn(self@, steps@) == toggled.untiling_all(windows@, i as int),
            {
                let ghost before = turn(self@, steps@);
                let window: u64 = windows[i];
                let mut geometry: FloatingGeometry = self.known(window).geometry;
                geometry.set_displaced(false);
                self.set_geometry(window, geometry);
                assert(turn(self@, steps@) == before.with_geometry(window, geometry));
                match geometry.floating {
                    Some(rect) => {
                        steps.push(
                            Step::Configure {
                                window,
                                size: rect.size,
                                tiled: Some(false),
                                maximized: None,
                            },
                        );
                        self.put(window, rect.loc, false, &mut steps);
                    },
                    None => {},
                }
                assert(turn(self@, steps@) == before.untiling(window));
            }
        }
        // Who draws the titlebar is part of the mode: leaving the bars behind
        // would be a mode half applied.
        steps.push(Step::Redecorate);
        steps
    }

    fn float(&mut self, window: u64, steps: &mut Vec<Step>)
        requires
            old(self)@.valid(),
        ensures
            final(self)@.valid(),
            turn(final(self)@, final(steps)@) == turn(old(self)@, old(steps)@).toggling_floating(
                window,
            ),
    {
        let ghost start = turn(self@, steps@);
        let mut geometry: FloatingGeometry = self.known(window).geometry;
        let now: bool = !geometry.exempt;
        geometry.set_exempt(now);
        if now {
            geometry.set_displaced(false);
            self.set_geometry(window, geometry);
            assert(turn(self@, steps@) == start.with_geometry(window, geometry));
            match geometry.floating {
                Some(rect) => {
                    steps.push(
                        Step::Configure { window, size: rect.size, tiled: None, maximized: None },
                    );
                    self.put(window, rect.loc, true, steps);
                },
                None => {},
            }
        } else {
            self.set_geometry(window, geometry);
            assert(turn(self@, steps@) == start.with_geometry(window, geometry));
        }
        steps.push(Step::Relayout);
    }

    /// Exempt a window from tiling, or return it to the layout.
    pub fn toggle_floating(&mut self, window: u64) -> (steps: Vec<Step>)
        requires
            old(self)@.valid(),
        ensures
            final(self)@.valid(),
            turn(final(self)@, steps@) == Turn::from(old(self)@).toggling_floating(window),
    {
        let mut steps: Vec<Step> = Vec::new();
        assert(steps@ =~= Seq::<Step>::empty());
        self.float(window, &mut steps);
        steps
    }

    fn maximize(&mut self, window: u64, output: Size, steps: &mut Vec<Step>)
        requires
            old(self)@.valid(),
            output.h >= 0,
        ensures
            final(self)@.valid(),
            turn(final(self)@, final(steps)@) == turn(old(self)@, old(steps)@).toggling_maximize(
                window,
                output,
            ),
    {
        let ghost start = turn(self@, steps@);
        if self.is_tiled(window) {
            return;
        }
        let mut geometry: FloatingGeometry = self.known(window).geometry;
        if geometry.displaced {
            match geometry.floating {
                Some(rect) => {
                    geometry.set_displaced(false);
                    self.set_geometry(window, geometry);
                    assert(turn(self@, steps@) == start.with_geometry(window, geometry));
                    steps.push(
                        Step::Configure {
                            window,
                            size: rect.size,
                            tiled: None,
                            maximized: Some(false),
                        },
                    );
                    self.put(window, rect.loc, true, steps);
                },
                None => {},
            }
        } else {
            // Noted before the window is displaced: that freezes what is noted.
            let mut noted: FloatingGeometry = self.remembered(window);
            if noted.floating.is_none() {
                self.set_geometry(window, noted);
                assert(turn(self@, steps@) == start.with_geometry(window, noted));
                return;
            }
            noted.set_displaced(true);
            let area: Rectangle = panel::usable_area(output, self.panel_height);
            self.set_geometry(window, noted);
            assert(turn(self@, steps@) == start.with_geometry(window, noted));
            steps.push(
                Step::Configure { window, size: area.size, tiled: None, maximized: Some(true) },
            );
            self.put(window, area.loc, true, steps);
        }
    }

    /// Fill the output, or return to the remembered floating rectangle.
    pub fn toggle_maximize(&mut self, window: u64, output: Size) -> (steps: Vec<Step>)
        requires
            old(self)@.valid(),
            output.h >= 0,
        ensures
            final(self)@.valid(),
            turn(final(self)@, steps@) == Turn::from(old(self)@).toggling_maximize(window, output),
    {
        let mut steps: Vec<Step> = Vec::new();
        assert(steps@ =~= Seq::<Step>::empty());
        self.maximize(window, output, &mut steps);
        steps
    }
}

/// The width of the panel, of which no client has claimed a part.
pub open spec fn whole_span(output: Size) -> (i32, i32) {
    (0i32, output.w)
}

impl Scene {
    /// Whether a point is on the panel.
    pub open spec fn on_panel(self, at: Point) -> bool {
        self.panel_height > 0 && panel::panel_within(
            self.output,
            self.panel_height,
            whole_span(self.output),
        ).holds(at)
    }

    pub open spec fn pills(self) -> Seq<Rectangle> {
        panel::pill_row(
            self.output,
            self.panel_height,
            self.desks.all.len() as int,
            self.desks.active,
        )
    }

    /// The workspace whose pill a point is on.
    pub open spec fn pill_under(self, at: Point) -> Option<usize> {
        choose|found: Option<usize>| utils::first_holding(self.pills(), at, found)
    }
}

/// Only one index is that of the first rectangle that holds a point.
proof fn lemma_first_holding(
    rects: Seq<Rectangle>,
    point: Point,
    a: Option<usize>,
    b: Option<usize>,
)
    requires
        utils::first_holding(rects, point, a),
        utils::first_holding(rects, point, b),
    ensures
        a == b,
{
    match (a, b) {
        (Some(i), Some(j)) => {
            if i < j {
                assert(!rects[i as int].holds(point));
            } else if j < i {
                assert(!rects[j as int].holds(point));
            }
        },
        (Some(i), None) => {
            assert(!rects[i as int].holds(point));
        },
        (None, Some(j)) => {
            assert(!rects[j as int].holds(point));
        },
        (None, None) => {},
    }
}

impl Turn {
    /// A click on the panel: a pill switches to its workspace, and the rest of
    /// the bar does nothing.
    pub open spec fn clicking_panel(self, at: Point) -> Turn {
        match self.scene.pill_under(at) {
            Some(index) => self.switching(index as int),
            None => self,
        }
    }

    /// A press of a button, the pointer being at `at` and over a window.
    pub open spec fn pressing(
        self,
        button: u32,
        at: Point,
        under: Option<(u64, (Number, Number))>,
        modifiers: ModifiersState,
    ) -> Turn {
        if self.scene.on_panel(at) {
            self.clicking_panel(at)
        } else {
            match under {
                None => self.saying(Step::Keyboard(None)),
                Some((window, relative)) => {
                    let focused = self.focusing(window);
                    if !self.scene.mod_key.is_held(modifiers) {
                        focused
                    } else if button == floating::BTN_LEFT {
                        focused.starting_move(window, button)
                    } else if button == floating::BTN_RIGHT {
                        focused.starting_resize(
                            window,
                            button,
                            floating::nearest(relative, self.scene.window(window).size),
                        )
                    } else {
                        focused
                    }
                },
            }
        }
    }

    /// What a binding asks for. `wider` is the master fraction that widening
    /// leads to.
    pub open spec fn binding(self, binding: Binding, wider: Number, output: Size) -> Turn {
        match binding {
            Binding::ToggleMaximize => match self.scene.focused() {
                Some(window) => self.toggling_maximize(window, output),
                None => self,
            },
            Binding::ToggleTiling => self.toggling_tiling(),
            Binding::ToggleFloating => match self.scene.focused() {
                Some(window) => self.toggling_floating(window),
                None => self,
            },
            Binding::CycleLayout => self.with_layout(
                self.scene.desks.current().layout.following(),
            ).saying(Step::Relayout),
            Binding::Widen(_) => self.with_layout(
                self.scene.desks.current().layout.widened(wider),
            ).saying(Step::Relayout),
            Binding::Spawn => self.saying(Step::SpawnTerminal),
            Binding::Launcher => self.saying(Step::Launch),
            Binding::Keys => self.saying(Step::ShowKeys),
            Binding::FocusStep(delta) => self.stepping(delta as int),
            Binding::MoveInOrder(delta) => self.moving_in_order(delta as int),
            Binding::Promote => self.promoting(),
            Binding::Workspace(index) => self.switching(index as int),
            Binding::SendToWorkspace(index) => self.sending(index as int),
        }
    }

    /// Take those of the first `n` places off the screen that are not among the
    /// windows to be seen.
    pub open spec fn clearing(self, stack: Seq<Place>, visible: Seq<u64>, n: int) -> Turn
        decreases n,
    {
        if n <= 0 {
            self
        } else {
            let before = self.clearing(stack, visible, n - 1);
            if visible.contains(stack[n - 1].window) {
                before
            } else {
                before.unmapping(stack[n - 1].window)
            }
        }
    }

    /// Put those of the first `n` windows on the screen that are not there.
    pub open spec fn filling(self, visible: Seq<u64>, n: int) -> Turn
        decreases n,
    {
        if n <= 0 {
            self
        } else {
            let before = self.filling(visible, n - 1);
            if location(before.scene.stack, visible[n - 1]) is None {
                before.showing(visible[n - 1])
            } else {
                before
            }
        }
    }

    /// Give the session so many workspaces. Windows of one that goes away move
    /// to the last that stays.
    pub open spec fn recounting(self, count: int, tiling: bool) -> Turn {
        let desks = self.scene.desks;
        if count == desks.all.len() {
            self
        } else {
            let counted = self.with_desks(desks.resized(count, tiling, desks.current().layout));
            let visible = counted.scene.order();
            counted.clearing(
                self.scene.stack,
                visible,
                self.scene.stack.len() as int,
            ).filling(visible, visible.len() as int)
        }
    }

    /// Apply a configuration that was read again. What describes the start of a
    /// session is left alone: reading the file must not overrule what has been
    /// chosen since.
    pub open spec fn configuring(self, config: Config, mod_key: ModKey) -> Turn {
        let counted = self.recounting(
            utils::larger(config.workspace_count as int, 1),
            config.tiling_on_start,
        );
        let set = Turn {
            scene: Scene {
                gaps: Gaps { inner: config.inner_gap, outer: config.outer_gap },
                focus_follows_mouse: config.focus_follows_mouse,
                panel_height: config.panel_height,
                mod_key,
                ..counted.scene
            },
            ..counted
        };
        // Columns have no divider to move.
        (match set.scene.desks.current().layout {
            Layout::MasterStack { .. } => set.with_layout(
                Layout::MasterStack { ratio: config.master_ratio.number },
            ),
            Layout::Columns => set,
        }).saying(Step::Relayout)
    }

    /// Drop a tile somewhere: it changes places with the tile it is dropped on.
    pub open spec fn dropping(self, window: u64, target: Option<usize>) -> Turn {
        let windows = self.scene.tiled();
        match (target, windows.index_of_first(window)) {
            (Some(target), Some(source)) => if source == target {
                self
            } else {
                let order = self.scene.order();
                self.swapping(
                    order.index_of_first(windows[source])->Some_0,
                    order.index_of_first(windows[target as int])->Some_0,
                )
            },
            _ => self,
        }
    }

    /// Drag a window by its edges, to a rectangle whose size may have to be asked
    /// of the client.
    pub open spec fn resizing(self, window: u64, rect: Rectangle, ask: bool) -> Turn {
        (if ask {
            self.saying(
                Step::Configure { window, size: rect.size, tiled: None, maximized: None },
            )
        } else {
            self
        }).mapping(window, rect.loc, true)
    }

    /// A drag has ended: where it left the window is where the window floats.
    pub open spec fn settling(self, window: u64) -> Turn {
        if location(self.scene.stack, window) is Some {
            self.with_geometry(window, self.scene.remembering(window))
        } else {
            self
        }
    }

    /// Drag the divider of the layout, where it has one.
    pub open spec fn dragging_divider(self, ratio: Number) -> Turn {
        match self.scene.desks.current().layout {
            Layout::MasterStack { .. } => self.with_layout(
                Layout::MasterStack { ratio },
            ).saying(Step::Relayout),
            Layout::Columns => self,
        }
    }

    /// Take note of the size of the screen.
    pub open spec fn sizing(self, output: Size) -> Turn {
        if self.scene.output == output {
            self
        } else {
            Turn { scene: Scene { output, ..self.scene }, ..self }.saying(Step::Relayout)
        }
    }
}

/// The layout that a configuration starts workspaces in.
pub open spec fn starting_layout(config: Config) -> Layout {
    if config.default_layout@ == "columns"@ {
        Layout::Columns
    } else {
        Layout::MasterStack { ratio: config.master_ratio.number }
    }
}

/// The state that a session starts in.
pub open spec fn starting_scene(config: Config, mod_key: ModKey) -> Scene {
    Scene {
        stack: Seq::empty(),
        windows: Map::empty(),
        desks: Desks::fresh(
            utils::larger(config.workspace_count as int, 1),
            config.tiling_on_start,
            starting_layout(config),
        ),
        gaps: Gaps { inner: config.inner_gap, outer: config.outer_gap },
        output: Size { w: 1280, h: 800 },
        panel_height: config.panel_height,
        focus_follows_mouse: config.focus_follows_mouse,
        mod_key,
        promotion: None,
    }
}

fn count_of(config: &Config) -> (count: usize)
    ensures
        count == utils::larger(config.workspace_count as int, 1),
{
    if config.workspace_count > 1 {
        config.workspace_count as usize
    } else {
        1
    }
}

impl Cusk {
    /// A session that nothing has been opened in, from a configuration and the
    /// value of `CUSK_MOD`.
    pub fn new(config: &Config, environment: Option<&str>) -> (session: Cusk)
        ensures
            session@.valid(),
            session@ == starting_scene(
                *config,
                bindings::mod_key(
                    match environment {
                        Some(chosen) => chosen@,
                        None => config.mod_key@,
                    },
                ),
            ),
    {
        let layout: Layout = if chars::equal(config.default_layout.as_str(), "columns") {
            Layout::Columns
        } else {
            Layout::MasterStack { ratio: config.master_ratio.number }
        };
        let session: Cusk = Cusk {
            stack: Vec::new(),
            windows: HashMap::new(),
            workspaces: Workspaces::new(count_of(config), config.tiling_on_start, layout),
            gaps: Gaps { inner: config.inner_gap, outer: config.outer_gap },
            output_size: Size { w: 1280, h: 800 },
            panel_height: config.panel_height,
            focus_follows_mouse: config.focus_follows_mouse,
            mod_key: ModKey::resolve(config.mod_key.as_str(), environment),
            promotion: None,
        };
        assert(session@.stack =~= Seq::<Place>::empty());
        assert(session@.windows =~= Map::<u64, Window>::empty());
        session
    }

    /// Take note of the size of the screen, and have the layout follow it.
    pub fn set_output_size(&mut self, output: Size) -> (steps: Vec<Step>)
        requires
            old(self)@.valid(),
            output.w >= 0,
            output.h >= 0,
        ensures
            final(self)@.valid(),
            turn(final(self)@, steps@) == Turn::from(old(self)@).sizing(output),
    {
        let mut steps: Vec<Step> = Vec::new();
        assert(steps@ =~= Seq::<Step>::empty());
        if self.output_size != output {
            self.output_size = output;
            steps.push(Step::Relayout);
        }
        steps
    }

    /// A client has a new window; `dialog`, if the window belongs to another.
    ///
    /// What a client calls itself arrives later, so nothing is made of that
    /// here. A dialog is exempt from tiling from the start.
    pub fn new_toplevel(&mut self, window: u64, dialog: bool) -> (steps: Vec<Step>)
        requires
            old(self)@.valid(),
            40 + old(self)@.stack.len() * 30 <= i32::MAX,
            old(self)@.area().loc.y + 40 + old(self)@.stack.len() * 30 <= i32::MAX,
        ensures
            final(self)@.valid(),
            turn(final(self)@, steps@) == Turn::from(old(self)@).appearing(window, dialog),
    {
        let mut steps: Vec<Step> = Vec::new();
        assert(steps@ =~= Seq::<Step>::empty());
        let ghost start = Turn::from(old(self)@);
        let n: i32 = self.stack.len() as i32;
        let at: Point = Point { x: 40 + n * 30, y: self.area().loc.y + 40 + n * 30 };
        let unknown: Window = Window {
            geometry: FloatingGeometry::default(),
            overlay: None,
            placed: false,
            size: Size { w: 0, h: 0 },
        };
        self.learn(window, unknown);
        assert(turn(self@, steps@) =~= start.knowing(window, unknown));
        self.put(window, at, true, &mut steps);
        steps.push(Step::SendConfigure(window));
        let ghost known = turn(self@, steps@);
        let mut geometry: FloatingGeometry = self.remembered(window);
        if dialog {
            geometry.set_exempt(true);
        }
        self.set_geometry(window, geometry);
        assert(turn(self@, steps@) == known.with_geometry(window, geometry));
        let ghost exempted = turn(self@, steps@);
        self.workspaces.insert(window);
        assert(turn(self@, steps@) =~= exempted.with_desks(
            exempted.scene.desks.inserted(window),
        ));
        self.focus_on(window, &mut steps);
        steps.push(Step::Relayout);
        steps
    }

    /// A window is gone. It leaves every workspace: a client can close a window
    /// that nobody is looking at.
    pub fn toplevel_destroyed(&mut self, window: u64) -> (steps: Vec<Step>)
        requires
            old(self)@.valid(),
        ensures
            final(self)@.valid(),
            turn(final(self)@, steps@) == Turn::from(old(self)@).vanishing(window),
    {
        let mut steps: Vec<Step> = Vec::new();
        assert(steps@ =~= Seq::<Step>::empty());
        if self.location(window).is_some() {
            self.take_off(window, &mut steps);
        }
        let ghost gone = turn(self@, steps@);
        self.workspaces.remove(&window);
        self.windows.remove(&window);
        assert(self@ =~= Scene {
            windows: gone.scene.windows.remove(window),
            desks: gone.scene.desks.removed(window),
            ..gone.scene
        });
        steps.push(Step::Relayout);
        steps.push(Step::FocusTopmost);
        steps
    }

    /// Focus the topmost window, or none where none is left.
    pub fn focus_topmost(&mut self) -> (steps: Vec<Step>)
        requires
            old(self)@.valid(),
        ensures
            final(self)@.valid(),
            turn(final(self)@, steps@) == Turn::from(old(self)@).focusing_topmost(),
    {
        let mut steps: Vec<Step> = Vec::new();
        assert(steps@ =~= Seq::<Step>::empty());
        if self.stack.len() > 0 {
            let window: u64 = self.stack[self.stack.len() - 1].window;
            self.focus_on(window, &mut steps);
        } else {
            self.set_focused(None);
            assert(turn(self@, steps@) == Turn::from(old(self)@).with_desk(
                Desk { focused: None, ..old(self)@.desks.current() },
            ));
            steps.push(Step::Keyboard(None));
        }
        steps
    }

    /// Raise a window and give it the keyboard.
    pub fn focus(&mut self, window: u64) -> (steps: Vec<Step>)
        requires
            old(self)@.valid(),
        ensures
            final(self)@.valid(),
            turn(final(self)@, steps@) == Turn::from(old(self)@).focusing(window),
    {
        let mut steps: Vec<Step> = Vec::new();
        assert(steps@ =~= Seq::<Step>::empty());
        self.focus_on(window, &mut steps);
        steps
    }

    /// Focus what the pointer is over, where focus follows it.
    ///
    /// Nothing under the pointer changes nothing, or crossing a gap between
    /// tiles would drop the focus; and a window that has the focus is not raised
    /// again with every motion.
    pub fn focus_under_pointer(&mut self, under: Option<u64>) -> (steps: Vec<Step>)
        requires
            old(self)@.valid(),
        ensures
            final(self)@.valid(),
            turn(final(self)@, steps@) == if old(self)@.focus_follows_mouse && under is Some && old(
                self,
            )@.focused() != under {
                Turn::from(old(self)@).focusing(under->Some_0)
            } else {
                Turn::from(old(self)@)
            },
    {
        let mut steps: Vec<Step> = Vec::new();
        assert(steps@ =~= Seq::<Step>::empty());
        if self.focus_follows_mouse {
            match (under, self.focused()) {
                (Some(window), Some(focused)) => {
                    if window != focused {
                        self.focus_on(window, &mut steps);
                    }
                },
                (Some(window), None) => self.focus_on(window, &mut steps),
                (None, _) => {},
            }
        }
        steps
    }

    fn classify(&mut self, window: u64, app_id: Option<&str>, steps: &mut Vec<Step>)
        requires
            old(self)@.valid(),
        ensures
            final(self)@.valid(),
            turn(final(self)@, final(steps)@) == turn(old(self)@, old(steps)@).classifying(
                window,
                match app_id {
                    Some(name) => Some(name@),
                    None => None,
                },
            ),
    {
        let ghost start = turn(self@, steps@);
        let mut known: Window = self.known(window);
        let ghost before = known;
        match (known.overlay, app_id) {
            (None, Some(name)) => {
                known.overlay = Some(chars::equal(name, OVERLAY_APP_ID));
            },
            _ => {},
        }
        self.learn(window, known);
        assert(turn(self@, steps@) =~= start.knowing(window, known));
        match known.overlay {
            Some(true) => {},
            _ => {
                return;
            },
        }
        if known.placed {
            return;
        }
        // Exempt as soon as it is known to be an overlay, before it is placed: a
        // relayout in between would tile it for a frame.
        let ghost learned = turn(self@, steps@);
        known.geometry.set_exempt(true);
        self.learn(window, known);
        assert(turn(self@, steps@) =~= learned.knowing(window, known));
        if known.size.w <= 0 || known.size.h <= 0 {
            return;
        }
        let ghost exempted = turn(self@, steps@);
        known.placed = true;
        self.learn(window, known);
        assert(turn(self@, steps@) =~= exempted.knowing(window, known));
        let at: Point = Point {
            x: if self.output_size.w < known.size.w {
                0
            } else {
                (self.output_size.w - known.size.w) / 2
            },
            y: if self.output_size.h < known.size.h {
                0
            } else {
                (self.output_size.h - known.size.h) / 3
            },
        };
        self.put(window, at, true, steps);
        let ghost placed = turn(self@, steps@);
        let geometry: FloatingGeometry = self.remembered(window);
        self.set_geometry(window, geometry);
        assert(turn(self@, steps@) == placed.with_geometry(window, geometry));
        self.focus_on(window, steps);
        steps.push(Step::Relayout);
    }

    /// A client has drawn a window, which is now so big, and may have named
    /// itself since.
    pub fn commit(&mut self, window: u64, size: Size, app_id: Option<&str>) -> (steps: Vec<Step>)
        requires
            old(self)@.valid(),
        ensures
            final(self)@.valid(),
            turn(final(self)@, steps@) == Turn::from(old(self)@).committing(
                window,
                size,
                match app_id {
                    Some(name) => Some(name@),
                    None => None,
                },
            ),
    {
        let mut steps: Vec<Step> = Vec::new();
        assert(steps@ =~= Seq::<Step>::empty());
        let ghost start = Turn::from(old(self)@);
        if self.location(window).is_some() {
            let known: Window = Window { size, ..self.known(window) };
            self.learn(window, known);
            assert(turn(self@, steps@) =~= start.knowing(window, known));
            self.classify(window, app_id, &mut steps);
            steps.push(Step::SendConfigure(window));
        }
        steps
    }

    fn begin_move(&self, window: u64, button: u32) -> (step: Step)
        requires
            self@.valid(),
        ensures
            forall|steps: Seq<Step>| #[trigger]
                turn(self@, steps).starting_move(window, button) == turn(self@, steps.push(step)),
    {
        if self.is_tiled(window) {
            Step::SwapGrab { window, button }
        } else {
            Step::MoveGrab { window, button, at: origin_or(self.location(window)) }
        }
    }

    fn begin_resize(&self, window: u64, button: u32, edges: ResizeEdge) -> (step: Step)
        requires
            self@.valid(),
        ensures
            forall|steps: Seq<Step>| #[trigger]
                turn(self@, steps).starting_resize(window, button, edges) == turn(
                    self@,
                    steps.push(step),
                ),
    {
        if self.is_tiled(window) {
            Step::RatioGrab { button }
        } else {
            Step::ResizeGrab { window, button, edges, rect: self.window_rect(window) }
        }
    }

    /// A client, or a gesture, asks for a window to be dragged.
    pub fn start_move(&self, window: u64, button: u32) -> (step: Step)
        requires
            self@.valid(),
        ensures
            Turn::from(self@).saying(step) == Turn::from(self@).starting_move(window, button),
    {
        let step: Step = self.begin_move(window, button);
        assert(turn(self@, Seq::empty()).starting_move(window, button) == turn(
            self@,
            Seq::empty().push(step),
        ));
        step
    }

    /// A client, or a gesture, asks for a window to be resized.
    pub fn start_resize(&self, window: u64, button: u32, edges: ResizeEdge) -> (step: Step)
        requires
            self@.valid(),
        ensures
            Turn::from(self@).saying(step) == Turn::from(self@).starting_resize(
                window,
                button,
                edges,
            ),
    {
        let step: Step = self.begin_resize(window, button, edges);
        assert(turn(self@, Seq::empty()).starting_resize(window, button, edges) == turn(
            self@,
            Seq::empty().push(step),
        ));
        step
    }

    /// A click on the panel, if it landed on one. The bar is the session's strip
    /// of screen: a click on it belongs to nothing else, wherever it lands.
    pub fn panel_click(&mut self, at: Point, steps: &mut Vec<Step>) -> (consumed: bool)
        requires
            old(self)@.valid(),
        ensures
            final(self)@.valid(),
            consumed == old(self)@.on_panel(at),
            turn(final(self)@, final(steps)@) == if consumed {
                turn(old(self)@, old(steps)@).clicking_panel(at)
            } else {
                turn(old(self)@, old(steps)@)
            },
    {
        let span: (i32, i32) = panel::full_span(self.output_size);
        if !panel::contains(self.output_size, self.panel_height, span, at) {
            return false;
        }
        let pills: Vec<Rectangle> = panel::pills(
            self.output_size,
            self.panel_height,
            self.workspaces.len(),
            self.workspaces.active_index(),
        );
        let found: Option<usize> = panel::pill_at(&pills, at);
        proof {
            lemma_first_holding(self@.pills(), at, found, self@.pill_under(at));
        }
        match found {
            Some(index) => self.switch_to(index, steps),
            None => {},
        }
        true
    }

    /// A button was pressed. Returns whether the client should still see it.
    ///
    /// The panel owns its strip outright and is asked first. Focus is taken
    /// before any modifier is looked at, so that a drag also focuses. A press
    /// that starts a drag is not forwarded, or it would select text in what is
    /// being dragged.
    pub fn press(
        &mut self,
        button: u32,
        at: Point,
        under: Option<(u64, (Number, Number))>,
        modifiers: ModifiersState,
        steps: &mut Vec<Step>,
    ) -> (forward: bool)
        requires
            old(self)@.valid(),
        ensures
            final(self)@.valid(),
            turn(final(self)@, final(steps)@) == turn(old(self)@, old(steps)@).pressing(
                button,
                at,
                under,
                modifiers,
            ),
            forward == !(old(self)@.on_panel(at) || (under is Some && old(self)@.mod_key.is_held(
                modifiers,
            ) && (button == floating::BTN_LEFT || button == floating::BTN_RIGHT))),
    {
        if self.panel_click(at, steps) {
            return false;
        }
        let (window, relative) = match under {
            Some(under) => under,
            None => {
                // A window that looks inert must not keep the keyboard.
                steps.push(Step::Keyboard(None));
                return true;
            },
        };
        self.focus_on(window, steps);
        if !self.mod_key.held(&modifiers) {
            return true;
        }
        if button == floating::BTN_LEFT {
            let step: Step = self.begin_move(window, button);
            assert(turn(self@, steps@).starting_move(window, button) == turn(
                self@,
                steps@.push(step),
            ));
            steps.push(step);
            false
        } else if button == floating::BTN_RIGHT {
            let edges: ResizeEdge = floating::nearest_edge(relative, self.known(window).size);
            let step: Step = self.begin_resize(window, button, edges);
            assert(turn(self@, steps@).starting_resize(window, button, edges) == turn(
                self@,
                steps@.push(step),
            ));
            steps.push(step);
            false
        } else {
            true
        }
    }

    fn set_layout(&mut self, layout: Layout)
        requires
            old(self)@.valid(),
        ensures
            final(self)@.valid(),
            forall|steps: Seq<Step>| #[trigger]
                turn(final(self)@, steps) == turn(old(self)@, steps).with_layout(layout),
    {
        let desk = self.workspaces.active_mut();
        desk.layout = layout;
    }

    /// Carry out a binding. `wider` is the master fraction that widening or
    /// narrowing leads to.
    pub fn apply_binding(&mut self, binding: Binding, wider: Number, output: Size) -> (steps: Vec<
        Step,
    >)
        requires
            old(self)@.valid(),
            output.h >= 0,
        ensures
            final(self)@.valid(),
            turn(final(self)@, steps@) == Turn::from(old(self)@).binding(binding, wider, output),
    {
        let mut steps: Vec<Step> = Vec::new();
        assert(steps@ =~= Seq::<Step>::empty());
        match binding {
            Binding::ToggleMaximize => match self.focused() {
                Some(window) => self.maximize(window, output, &mut steps),
                None => {},
            },
            Binding::ToggleTiling => {
                return self.toggle_tiling();
            },
            Binding::ToggleFloating => match self.focused() {
                Some(window) => self.float(window, &mut steps),
                None => {},
            },
            Binding::CycleLayout => {
                let layout: Layout = self.layout().next();
                self.set_layout(layout);
                assert(turn(self@, steps@) == Turn::from(old(self)@).with_layout(layout));
                steps.push(Step::Relayout);
            },
            Binding::Widen(_) => {
                let layout: Layout = self.layout().widen(wider);
                self.set_layout(layout);
                assert(turn(self@, steps@) == Turn::from(old(self)@).with_layout(layout));
                steps.push(Step::Relayout);
            },
            Binding::Spawn => steps.push(Step::SpawnTerminal),
            Binding::Launcher => steps.push(Step::Launch),
            Binding::Keys => steps.push(Step::ShowKeys),
            Binding::FocusStep(delta) => {
                return self.focus_step(delta);
            },
            Binding::MoveInOrder(delta) => {
                return self.move_in_order(delta);
            },
            Binding::Promote => {
                return self.promote();
            },
            Binding::Workspace(index) => self.switch_to(index, &mut steps),
            Binding::SendToWorkspace(index) => {
                return self.send_to_workspace(index);
            },
        }
        steps
    }

    fn recount(&mut self, count: usize, tiling: bool, steps: &mut Vec<Step>)
        requires
            old(self)@.valid(),
            count >= 1,
        ensures
            final(self)@.valid(),
            turn(final(self)@, final(steps)@) == turn(old(self)@, old(steps)@).recounting(
                count as int,
                tiling,
            ),
    {
        if count == self.workspaces.len() {
            return;
        }
        let ghost start = turn(self@, steps@);
        let layout: Layout = self.layout();
        let mut mapped: Vec<Place> = Vec::new();
        for i in 0..self.stack.len()
            invariant
                mapped@ == self.stack@.take(i as int),
        {
            mapped.push(self.stack[i]);
            assert(self.stack@.take(i + 1) =~= self.stack@.take(i as int).push(
                self.stack@[i as int],
            ));
        }
        assert(mapped@ =~= start.scene.stack);
        self.workspaces.resize(count, tiling, layout);
        let ghost counted = start.with_desks(
            start.scene.desks.resized(count as int, tiling, layout),
        );
        assert(turn(self@, steps@) =~= counted);
        let visible: Vec<u64> = copied(self.order());
        for i in 0..mapped.len()
            invariant
                self@.valid(),
                mapped@ == start.scene.stack,
                turn(self@, steps@) == counted.clearing(mapped@, visible@, i as int),
        {
            match index_in(&visible, mapped[i].window) {
                Some(k) => {
                    proof {
                        visible@.index_of_first_ensures(mapped@[i as int].window);
                    }
                },
                None => {
                    proof {
                        visible@.index_of_first_ensures(mapped@[i as int].window);
                    }
                    self.take_off(mapped[i].window, steps);
                },
            }
        }
        let ghost cleared = turn(self@, steps@);
        for i in 0..visible.len()
            invariant
                self@.valid(),
                turn(self@, steps@) == cleared.filling(visible@, i as int),
        {
            if self.location(visible[i]).is_none() {
                let at: Point = corner_or(self.known(visible[i]).geometry.floating);
                self.put(visible[i], at, false, steps);
            }
        }
    }

    /// Apply a configuration that was read again, with the value of `CUSK_MOD`.
    pub fn apply_config(&mut self, config: &Config, environment: Option<&str>) -> (steps: Vec<Step>)
        requires
            old(self)@.valid(),
        ensures
            final(self)@.valid(),
            turn(final(self)@, steps@) == Turn::from(old(self)@).configuring(
                *config,
                bindings::mod_key(
                    match environment {
                        Some(chosen) => chosen@,
                        None => config.mod_key@,
                    },
                ),
            ),
    {
        let mut steps: Vec<Step> = Vec::new();
        assert(steps@ =~= Seq::<Step>::empty());
        self.recount(count_of(config), config.tiling_on_start, &mut steps);
        let ghost counted = turn(self@, steps@);
        self.gaps = Gaps { inner: config.inner_gap, outer: config.outer_gap };
        self.focus_follows_mouse = config.focus_follows_mouse;
        self.panel_height = config.panel_height;
        self.mod_key = ModKey::resolve(config.mod_key.as_str(), environment);
        let ghost set = turn(self@, steps@);
        match self.layout() {
            Layout::MasterStack { .. } => {
                let layout: Layout = Layout::MasterStack { ratio: config.master_ratio.number };
                self.set_layout(layout);
                assert(turn(self@, steps@) == set.with_layout(layout));
            },
            Layout::Columns => {},
        }
        steps.push(Step::Relayout);
        steps
    }

    /// A tile was dropped at a point, `wanted` being the width that the master
    /// fraction gives: it changes places with the tile that it was dropped on.
    pub fn drop_tile(&mut self, window: u64, at: Point, wanted: i32) -> (steps: Vec<Step>)
        requires
            old(self)@.valid(),
            old(self)@.layout_fits(wanted),
        ensures
            final(self)@.valid(),
            exists|target: Option<usize>| #[trigger]
                utils::first_holding(old(self)@.tiles(wanted), at, target) && turn(
                    final(self)@,
                    steps@,
                ) == Turn::from(old(self)@).dropping(window, target),
    {
        let mut steps: Vec<Step> = Vec::new();
        assert(steps@ =~= Seq::<Step>::empty());
        let windows: Vec<u64> = self.tiled();
        let tiles: Vec<Rectangle> = self.tiles(wanted);
        let target: Option<usize> = layout::index_at(&tiles, at);
        let source: Option<usize> = index_in(&windows, window);
        match (source, target) {
            (Some(source), Some(target)) => {
                if source != target {
                    proof {
                        lemma_tiled_in_order(self@, source as int);
                        lemma_tiled_in_order(self@, target as int);
                    }
                    let a: Option<usize> = index_in(self.order(), windows[source]);
                    let b: Option<usize> = index_in(self.order(), windows[target]);
                    match (a, b) {
                        (Some(a), Some(b)) => self.swap(a, b, &mut steps),
                        _ => {},
                    }
                }
            },
            _ => {},
        }
        assert(utils::first_holding(old(self)@.tiles(wanted), at, target));
        steps
    }

    /// A window was dragged to a place.
    pub fn drag_to(&mut self, window: u64, at: Point) -> (steps: Vec<Step>)
        requires
            old(self)@.valid(),
        ensures
            final(self)@.valid(),
            turn(final(self)@, steps@) == Turn::from(old(self)@).mapping(window, at, true),
    {
        let mut steps: Vec<Step> = Vec::new();
        assert(steps@ =~= Seq::<Step>::empty());
        self.put(window, at, true, &mut steps);
        steps
    }

    /// A window was dragged by its edges, `(dx, dy)` away from where the grab
    /// began.
    pub fn resize_by(&mut self, window: u64, grab: &mut ResizeGrab, dx: i32, dy: i32) -> (steps: Vec<
        Step,
    >)
        requires
            old(self)@.valid(),
        ensures
            final(self)@.valid(),
            ({
                let rect = floating::resized(old(grab).initial_rect, old(grab).edges, dx, dy);
                &&& turn(final(self)@, steps@) == Turn::from(old(self)@).resizing(
                    window,
                    rect,
                    rect.size != old(grab).last_requested,
                )
                &&& *final(grab) == (ResizeGrab { last_requested: rect.size, ..*old(grab) })
            }),
    {
        let mut steps: Vec<Step> = Vec::new();
        assert(steps@ =~= Seq::<Step>::empty());
        let (rect, ask) = grab.motion(dx, dy);
        if ask {
            steps.push(
                Step::Configure { window, size: rect.size, tiled: None, maximized: None },
            );
        }
        self.put(window, rect.loc, true, &mut steps);
        steps
    }

    /// A drag of a window, or of its edges, has ended.
    ///
    /// Only now is the place noted: noted all along, it would be wrong after a
    /// drag that is called off.
    pub fn end_drag(&mut self, window: u64)
        requires
            old(self)@.valid(),
        ensures
            final(self)@.valid(),
            Turn::from(final(self)@) == Turn::from(old(self)@).settling(window),
    {
        if self.location(window).is_some() {
            let geometry: FloatingGeometry = self.remembered(window);
            self.set_geometry(window, geometry);
            assert(turn(self@, Seq::empty()) == turn(old(self)@, Seq::empty()).with_geometry(
                window,
                geometry,
            ));
        }
    }

    /// The divider of the layout was dragged to a fraction, from the quotient
    /// that `layout::divider_at` gives the parts of.
    pub fn drag_divider(&mut self, quotient: Option<Number>) -> (steps: Vec<Step>)
        requires
            old(self)@.valid(),
        ensures
            final(self)@.valid(),
            turn(final(self)@, steps@) == Turn::from(old(self)@).dragging_divider(
                match quotient {
                    Some(quotient) => layout::ratio_in_bounds(quotient),
                    None => Number { bits: layout::EVEN_RATIO },
                },
            ),
    {
        let mut steps: Vec<Step> = Vec::new();
        assert(steps@ =~= Seq::<Step>::empty());
        let ratio: Number = layout::ratio_at(quotient);
        match self.layout() {
            Layout::MasterStack { .. } => {
                let layout: Layout = Layout::MasterStack { ratio };
                self.set_layout(layout);
                assert(turn(self@, steps@) == Turn::from(old(self)@).with_layout(layout));
                steps.push(Step::Relayout);
            },
            Layout::Columns => {},
        }
        steps
    }
}

/// Every window that the layout places is in the order.
proof fn lemma_tiled_in_order(scene: Scene, i: int)
    requires
        0 <= i < scene.tiled().len(),
    ensures
        scene.order().contains(scene.tiled()[i]),
        scene.order().index_of_first(scene.tiled()[i]) is Some,
{
    let window = scene.tiled()[i];
    assert(scene.tiled().contains(window));
    utils::lemma_filter_members(
        scene.order(),
        |window: u64| !scene.window(window).geometry.exempt,
        window,
    );
    scene.order().index_of_first_ensures(window);
}

} // verus!
