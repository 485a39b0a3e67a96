//! What a frame is made of.
//!
//! Everything about *what* is on screen, whichever backend shows it: when the
//! wallpaper is prepared again, what is drawn and in which order, where the
//! title goes and what the pointer looks like. Drawing itself is the renderer's.

use vstd::prelude::*;

use crate::chars;
use crate::chrome;
use crate::config::Config;
use crate::panel;
use crate::utils;
use crate::utils::{Point, Rectangle, Size};

verus! {

/// Everything that the backdrop depends on.
#[derive(Debug)]
pub struct BackdropKey {
    pub path: String,
    pub size: Size,
    pub radius: i32,
    pub passes: i32,
}

/// What a backdrop depends on, as a mathematical value.
pub struct Wanted {
    pub path: Seq<char>,
    pub size: Size,
    pub radius: i32,
    pub passes: i32,
}

impl View for BackdropKey {
    type V = Wanted;

    open spec fn view(&self) -> Wanted {
        Wanted { path: self.path@, size: self.size, radius: self.radius, passes: self.passes }
    }
}

impl Clone for BackdropKey {
    fn clone(&self) -> (copy: BackdropKey)
        ensures
            copy@ == self@,
    {
        BackdropKey {
            path: self.path.clone(),
            size: self.size,
            radius: self.radius,
            passes: self.passes,
        }
    }
}

pub open spec fn key_view(key: Option<BackdropKey>) -> Option<Wanted> {
    match key {
        Some(key) => Some(key@),
        None => None,
    }
}

impl BackdropKey {
    fn same(&self, other: &BackdropKey) -> (b: bool)
        ensures
            b == (self@ == other@),
    {
        self.size == other.size && self.radius == other.radius && self.passes == other.passes
            && chars::equal(self.path.as_str(), other.path.as_str())
    }

    /// How big the wallpaper is made: at least one pixel each way.
    pub fn image_size(&self) -> (size: (u32, u32))
        ensures
            size.0 == utils::larger(self@.size.w as int, 1),
            size.1 == utils::larger(self@.size.h as int, 1),
    {
        (
            if self.size.w > 1 {
                self.size.w as u32
            } else {
                1
            },
            if self.size.h > 1 {
                self.size.h as u32
            } else {
                1
            },
        )
    }

    /// How far, and how often, the wallpaper is blurred.
    pub fn blur(&self) -> (blur: (u32, u32))
        ensures
            blur.0 == utils::larger(self@.radius as int, 0),
            blur.1 == utils::larger(self@.passes as int, 1),
    {
        (
            if self.radius > 0 {
                self.radius as u32
            } else {
                0
            },
            if self.passes > 1 {
                self.passes as u32
            } else {
                1
            },
        )
    }
}

/// The backdrop that a configuration and a screen call for: none where no
/// wallpaper is set.
pub open spec fn wanted_backdrop(config: Config, size: Size) -> Option<Wanted> {
    let path = chars::trimmed(config.wallpaper@);
    if path.len() == 0 {
        None
    } else {
        Some(Wanted { path, size, radius: config.blur_radius, passes: config.blur_passes })
    }
}

pub fn backdrop_key(config: &Config, size: Size) -> (key: Option<BackdropKey>)
    ensures
        key_view(key) == wanted_backdrop(*config, size),
{
    let given: Vec<char> = chars::chars_of(config.wallpaper.as_str());
    let path: Vec<char> = chars::trim(&given);
    if path.len() == 0 {
        return None;
    }
    Some(
        BackdropKey {
            path: chars::text_of(&path),
            size,
            radius: config.blur_radius,
            passes: config.blur_passes,
        },
    )
}

/// What is to be done about the backdrop before a frame.
#[derive(Debug, Clone, Copy, PartialEq, Eq, Structural)]
pub enum Prepare {
    /// There is to be none.
    Drop,
    /// What there is will do, or was refused before.
    Keep,
    /// Blur the wallpaper again, without reading it again.
    Reblur,
    /// Read, scale and blur the wallpaper.
    Build,
}

/// Which backdrop there is, and which could not be made.
#[derive(Debug)]
pub struct Backdrops {
    built: Option<BackdropKey>,
    /// What failed, so that it is not tried again with every frame.
    refused: Option<BackdropKey>,
}

/// Which backdrop there is, as a mathematical value.
#[verifier::ext_equal]
pub struct Prepared {
    pub built: Option<Wanted>,
    pub refused: Option<Wanted>,
}

impl View for Backdrops {
    type V = Prepared;

    closed spec fn view(&self) -> Prepared {
        Prepared { built: key_view(self.built), refused: key_view(self.refused) }
    }
}

impl Prepared {
    /// What a frame that wants a backdrop has to do first. Reading and scaling
    /// cost far more than blurring, so a change of the blur alone blurs again
    /// and no more.
    pub open spec fn step(self, wanted: Option<Wanted>) -> Prepare {
        match wanted {
            None => Prepare::Drop,
            Some(key) => if self.refused == Some(key) {
                Prepare::Keep
            } else {
                match self.built {
                    Some(built) => if built.path == key.path && built.size == key.size {
                        if built.radius == key.radius && built.passes == key.passes {
                            Prepare::Keep
                        } else {
                            Prepare::Reblur
                        }
                    } else {
                        Prepare::Build
                    },
                    None => Prepare::Build,
                }
            },
        }
    }

    /// Which backdrop there is once that has been done, well or not.
    pub open spec fn after(self, wanted: Option<Wanted>, done: bool) -> Prepared {
        match self.step(wanted) {
            Prepare::Drop => Prepared { built: None, ..self },
            Prepare::Keep => self,
            Prepare::Reblur => if done {
                Prepared { built: wanted, ..self }
            } else {
                self
            },
            Prepare::Build => if done {
                Prepared { built: wanted, refused: None }
            } else {
                Prepared { built: None, refused: wanted }
            },
        }
    }
}

fn same_key(a: &Option<BackdropKey>, b: &BackdropKey) -> (same: bool)
    ensures
        same == (key_view(*a) == Some(b@)),
{
    match a {
        Some(a) => a.same(b),
        None => false,
    }
}

impl Backdrops {
    pub fn new() -> (backdrops: Backdrops)
        ensures
            backdrops@ == (Prepared { built: None, refused: None }),
    {
        Backdrops { built: None, refused: None }
    }

    /// What is to be done before a frame.
    pub fn step(&self, wanted: &Option<BackdropKey>) -> (step: Prepare)
        ensures
            step == self@.step(key_view(*wanted)),
    {
        let key: &BackdropKey = match wanted {
            Some(key) => key,
            None => {
                return Prepare::Drop;
            },
        };
        if same_key(&self.refused, key) {
            return Prepare::Keep;
        }
        match &self.built {
            Some(built) => {
                if built.size == key.size && chars::equal(built.path.as_str(), key.path.as_str()) {
                    if built.radius == key.radius && built.passes == key.passes {
                        Prepare::Keep
                    } else {
                        Prepare::Reblur
                    }
                } else {
                    Prepare::Build
                }
            },
            None => Prepare::Build,
        }
    }

    /// Take note of how it went.
    pub fn finish(&mut self, wanted: Option<BackdropKey>, done: bool)
        ensures
            final(self)@ == old(self)@.after(key_view(wanted), done),
    {
        match self.step(&wanted) {
            Prepare::Drop => {
                self.built = None;
            },
            Prepare::Keep => {},
            Prepare::Reblur => {
                if done {
                    self.built = wanted;
                }
            },
            Prepare::Build => {
                if done {
                    self.built = wanted;
                    self.refused = None;
                } else {
                    self.built = None;
                    self.refused = wanted;
                }
            },
        }
    }

    /// Whether there is a backdrop to draw.
    pub fn is_built(&self) -> (b: bool)
        ensures
            b == (self@.built is Some),
    {
        self.built.is_some()
    }
}

/// A wallpaper that could not be made is not tried again, until something that
/// it depends on changes.
pub proof fn a_refused_wallpaper_is_not_retried(prepared: Prepared, wanted: Wanted)
    requires
        prepared.step(Some(wanted)) == Prepare::Build,
    ensures
        prepared.after(Some(wanted), false).step(Some(wanted)) == Prepare::Keep,
{
}

/// What was made is not made again while nothing changes, and a change of the
/// blur alone does not read the file again.
pub proof fn a_prepared_wallpaper_is_kept(prepared: Prepared, wanted: Wanted, radius: i32, passes: i32)
    requires
        prepared.step(Some(wanted)) == Prepare::Build,
    ensures
        prepared.after(Some(wanted), true).step(Some(wanted)) == Prepare::Keep,
        prepared.after(Some(wanted), true).step(Some(Wanted { radius, passes, ..wanted }))
            != Prepare::Build,
{
}

/// A window, as a frame draws it.
#[derive(Debug, Clone, Copy, PartialEq, Eq, Structural)]
pub struct Layer {
    pub rect: Rectangle,
    pub focused: bool,
}

/// What the configuration says of windows' looks.
#[derive(Debug, Clone, Copy, PartialEq, Eq, Structural)]
pub struct Look {
    /// Blur the wallpaper where it shows through a window.
    pub blur: bool,
    pub corner_radius: i32,
    pub ring_width: i32,
}

/// What a workspace's pill tells: an empty workspace has to look different from
/// one with windows, or going there looks like a hang.
#[derive(Debug, Clone, Copy, PartialEq, Eq, Structural)]
pub enum Pill {
    Active,
    Occupied,
    Empty,
}

/// Something to draw.
#[derive(Debug, Clone, Copy, PartialEq, Eq, Structural)]
pub enum Draw {
    /// Fill everything with the background.
    Clear,
    /// The wallpaper, sharp, over everything.
    Wallpaper,
    /// The blurred wallpaper, there.
    Blurred(Rectangle),
    /// What is drawn so far, blurred, behind a window.
    Behind(Rectangle),
    /// A window, by its place among the windows.
    Window(usize),
    /// The wallpaper over the corner of a window.
    Corner { patch: Rectangle, arc: Point, radius: i32 },
    /// A ring in a band around a window.
    Ring { band: Rectangle, radius: i32, width: i32 },
    /// What was assembled offscreen.
    Scene,
    /// The panel.
    Bar(Rectangle),
    Workspace { pill: Rectangle, state: Pill },
    /// The title of the focused window.
    Title(Rectangle),
    /// The cursor that a client draws.
    ClientCursor,
    /// The session's own pointer.
    Arrow(Rectangle),
}

/// How windows are put on the picture.
#[derive(Debug, Clone, Copy, PartialEq, Eq, Structural)]
pub enum Backing {
    /// There is no wallpaper.
    Plain,
    /// Over the wallpaper, blurred or not.
    Wallpaper,
    /// Each over what is behind it, blurred as it stands.
    Live,
}

/// The corners of a window that lie on the screen, the first `n` of its four.
pub open spec fn corners(rect: Rectangle, radius: i32, output: Size, n: int) -> Seq<Draw>
    decreases n,
{
    if n <= 0 {
        Seq::empty()
    } else {
        let before = corners(rect, radius, output, n - 1);
        let patch = chrome::patches(rect, radius)[n - 1];
        let screen = Rectangle { loc: Point { x: 0, y: 0 }, size: output };
        if patch.rect.meets(screen) {
            before.push(
                Draw::Corner { patch: shared(patch.rect, screen), arc: patch.arc, radius },
            )
        } else {
            before
        }
    }
}

/// The part that two rectangles share.
pub open spec fn shared(a: Rectangle, b: Rectangle) -> Rectangle {
    let (x, y) = (
        utils::larger(a.loc.x as int, b.loc.x as int),
        utils::larger(a.loc.y as int, b.loc.y as int),
    );
    utils::rectangle(
        x,
        y,
        utils::smaller(a.right(), b.right()) - x,
        utils::smaller(a.bottom(), b.bottom()) - y,
    )
}

/// What is drawn for one window, `i` of them: what shows through it, the window,
/// the wallpaper over its corners, and its ring. Corners come after the window
/// that they round and before the next one.
pub open spec fn layer_draws(
    layer: Layer,
    i: int,
    backing: Backing,
    look: Look,
    output: Size,
) -> Seq<Draw> {
    let screen = Rectangle { loc: Point { x: 0, y: 0 }, size: output };
    let radius = chrome::radius_within(look.corner_radius as int, layer.rect.size) as i32;
    (match backing {
        Backing::Plain => Seq::empty(),
        Backing::Wallpaper => if look.blur && layer.rect.meets(screen) {
            seq![Draw::Blurred(shared(layer.rect, screen))]
        } else {
            Seq::empty()
        },
        Backing::Live => seq![Draw::Behind(layer.rect)],
    }) + seq![Draw::Window(i as usize)] + (if backing != Backing::Plain && radius > 0 {
        corners(layer.rect, radius, output, 4)
    } else {
        Seq::empty()
    }) + (if layer.focused && look.ring_width > 0 {
        seq![
            Draw::Ring {
                band: chrome::band_around(layer.rect, look.ring_width as int),
                // The ring's own radius is the window's and the width that it
                // lies outside of, or the two drift apart.
                radius: utils::saturated(radius + look.ring_width) as i32,
                width: look.ring_width,
            },
        ]
    } else {
        Seq::empty()
    })
}

/// What is drawn for the first `n` windows, back to front.
pub open spec fn window_draws(
    layers: Seq<Layer>,
    backing: Backing,
    look: Look,
    output: Size,
    n: int,
) -> Seq<Draw>
    decreases n,
{
    if n <= 0 {
        Seq::empty()
    } else {
        window_draws(layers, backing, look, output, n - 1) + layer_draws(
            layers[n - 1],
            n - 1,
            backing,
            look,
            output,
        )
    }
}

fn draw_corners(rect: Rectangle, radius: i32, output: Size, draws: &mut Vec<Draw>)
    ensures
        final(draws)@ == old(draws)@ + corners(rect, radius, output, 4),
{
    let patches: [chrome::Patch; 4] = chrome::corner_patches(rect, radius);
    let screen: Rectangle = Rectangle { loc: Point { x: 0, y: 0 }, size: output };
    let ghost before = draws@;
    assert(before + corners(rect, radius, output, 0) =~= before);
    for n in 0..4usize
        invariant
            patches@ == chrome::patches(rect, radius),
            screen == (Rectangle { loc: Point { x: 0, y: 0 }, size: output }),
            draws@ == before + corners(rect, radius, output, n as int),
    {
        let patch: chrome::Patch = patches[n];
        match patch.rect.intersection(screen) {
            Some(part) => {
                let draw: Draw = Draw::Corner { patch: part, arc: patch.arc, radius };
                draws.push(draw);
                assert((before + corners(rect, radius, output, n as int)).push(draw) =~= before
                    + corners(rect, radius, output, n as int).push(draw));
            },
            None => {},
        }
    }
}

fn draw_layer(
    layer: Layer,
    i: usize,
    backing: Backing,
    look: Look,
    output: Size,
    draws: &mut Vec<Draw>,
)
    ensures
        final(draws)@ == old(draws)@ + layer_draws(layer, i as int, backing, look, output),
{
    let screen: Rectangle = Rectangle { loc: Point { x: 0, y: 0 }, size: output };
    match backing {
        Backing::Plain => {},
        Backing::Wallpaper => {
            if look.blur {
                match layer.rect.intersection(screen) {
                    Some(part) => draws.push(Draw::Blurred(part)),
                    None => {},
                }
            }
        },
        Backing::Live => draws.push(Draw::Behind(layer.rect)),
    }
    draws.push(Draw::Window(i));
    let radius: i32 = chrome::clamp_radius(look.corner_radius, layer.rect.size);
    if backing != Backing::Plain && radius > 0 {
        draw_corners(layer.rect, radius, output, draws);
    }
    if layer.focused && look.ring_width > 0 {
        draws.push(
            Draw::Ring {
                band: chrome::ring_band(layer.rect, look.ring_width),
                radius: utils::narrowed(radius as i64 + look.ring_width as i64),
                width: look.ring_width,
            },
        );
    }
    assert(draws@ =~= old(draws)@ + layer_draws(layer, i as int, backing, look, output));
}

fn draw_windows(
    layers: &[Layer],
    backing: Backing,
    look: Look,
    output: Size,
    draws: &mut Vec<Draw>,
)
    ensures
        final(draws)@ == old(draws)@ + window_draws(
            layers@,
            backing,
            look,
            output,
            layers@.len() as int,
        ),
{
    let ghost before = draws@;
    assert(before + window_draws(layers@, backing, look, output, 0) =~= before);
    for n in 0..layers.len()
        invariant
            draws@ == before + window_draws(layers@, backing, look, output, n as int),
    {
        draw_layer(layers[n], n, backing, look, output, draws);
        assert((before + window_draws(layers@, backing, look, output, n as int)) + layer_draws(
            layers@[n as int],
            n as int,
            backing,
            look,
            output,
        ) =~= before + (window_draws(layers@, backing, look, output, n as int) + layer_draws(
            layers@[n as int],
            n as int,
            backing,
            look,
            output,
        )));
    }
}

/// What is drawn offscreen, where windows blur what is behind them: the
/// wallpaper, and the windows over it, back to front.
pub open spec fn scene_plan(layers: Seq<Layer>, look: Look, output: Size) -> Seq<Draw> {
    seq![Draw::Clear, Draw::Wallpaper] + window_draws(
        layers,
        Backing::Live,
        look,
        output,
        layers.len() as int,
    )
}

pub fn plan_scene(layers: &[Layer], look: Look, output: Size) -> (draws: Vec<Draw>)
    ensures
        draws@ == scene_plan(layers@, look, output),
{
    let mut draws: Vec<Draw> = Vec::new();
    draws.push(Draw::Clear);
    draws.push(Draw::Wallpaper);
    draw_windows(layers, Backing::Live, look, output, &mut draws);
    assert(draws@ =~= scene_plan(layers@, look, output));
    draws
}

/// The panel of a frame.
#[derive(Debug, Clone, Copy, PartialEq, Eq, Structural)]
pub struct Panel {
    pub height: i32,
    pub active: usize,
    /// Where the title goes, if there is one.
    pub title: Option<Rectangle>,
}

pub open spec fn pill_state(index: int, active: int, occupied: Seq<bool>) -> Pill {
    if index == active {
        Pill::Active
    } else if index < occupied.len() && occupied[index] {
        Pill::Occupied
    } else {
        Pill::Empty
    }
}

/// The first `n` pills of a panel.
pub open spec fn pill_draws(pills: Seq<Rectangle>, active: int, occupied: Seq<bool>, n: int) -> Seq<
    Draw,
> {
    Seq::new(
        n as nat,
        |i: int|
            Draw::Workspace { pill: pills[i], state: pill_state(i, active, occupied) },
    )
}

/// What is drawn of the panel: nothing, where it is hidden.
pub open spec fn panel_draws(panel: Panel, occupied: Seq<bool>, output: Size) -> Seq<Draw> {
    if panel.height <= 0 {
        Seq::empty()
    } else {
        let pills = panel::pill_row(
            output,
            panel.height,
            occupied.len() as int,
            panel.active as int,
        );
        seq![Draw::Bar(panel::panel_within(output, panel.height, (0i32, output.w)))] + pill_draws(
            pills,
            panel.active as int,
            occupied,
            pills.len() as int,
        ) + match panel.title {
            Some(rect) => seq![Draw::Title(rect)],
            None => Seq::empty(),
        }
    }
}

fn draw_panel(panel: Panel, occupied: &[bool], output: Size, draws: &mut Vec<Draw>)
    requires
        output.w >= 0,
        output.h >= 0,
    ensures
        final(draws)@ == old(draws)@ + panel_draws(panel, occupied@, output),
{
    if panel.height <= 0 {
        assert(draws@ =~= old(draws)@ + panel_draws(panel, occupied@, output));
        return;
    }
    draws.push(Draw::Bar(panel::panel_area(output, panel.height, panel::full_span(output))));
    let pills: Vec<Rectangle> = panel::pills(output, panel.height, occupied.len(), panel.active);
    let ghost before = draws@;
    for i in 0..pills.len()
        invariant
            draws@ =~= before + pill_draws(pills@, panel.active as int, occupied@, i as int),
    {
        let state: Pill = if i == panel.active {
            Pill::Active
        } else if i < occupied.len() && occupied[i] {
            Pill::Occupied
        } else {
            Pill::Empty
        };
        draws.push(Draw::Workspace { pill: pills[i], state });
    }
    match panel.title {
        Some(rect) => draws.push(Draw::Title(rect)),
        None => {},
    }
    assert(draws@ =~= old(draws)@ + panel_draws(panel, occupied@, output));
}

/// What the pointer looks like.
#[derive(Debug, Clone, Copy, PartialEq, Eq, Structural)]
pub enum Cursor {
    Hidden,
    /// A client draws it.
    Surface,
    /// Some shape by name. All of them are the arrow: the wrong pointer can be
    /// used, and none cannot.
    Named,
}

/// The arrow's rectangle, so big and with its tip there, the pointer being at
/// `at`.
pub open spec fn arrow_rect(at: Point, hotspot: (i32, i32), size: i32) -> Rectangle {
    utils::rectangle(
        utils::saturated(at.x - hotspot.0),
        utils::saturated(at.y - hotspot.1),
        size as int,
        size as int,
    )
}

pub open spec fn cursor_draws(
    cursor: Cursor,
    at: Point,
    arrow: Option<((i32, i32), i32)>,
) -> Seq<Draw> {
    match cursor {
        Cursor::Hidden => Seq::empty(),
        Cursor::Surface => seq![Draw::ClientCursor],
        Cursor::Named => match arrow {
            Some((hotspot, size)) => seq![Draw::Arrow(arrow_rect(at, hotspot, size))],
            None => Seq::empty(),
        },
    }
}

/// What is drawn on screen: the windows, the panel over them, since a floating
/// window can be dragged over its strip, and the pointer over everything.
pub open spec fn screen_plan(
    layers: Seq<Layer>,
    backing: Backing,
    look: Look,
    output: Size,
    panel: Panel,
    occupied: Seq<bool>,
    cursor: Seq<Draw>,
) -> Seq<Draw> {
    seq![Draw::Clear] + (match backing {
        // Everything was assembled offscreen.
        Backing::Live => seq![Draw::Scene],
        Backing::Wallpaper => seq![Draw::Wallpaper] + window_draws(
            layers,
            backing,
            look,
            output,
            layers.len() as int,
        ),
        Backing::Plain => window_draws(layers, backing, look, output, layers.len() as int),
    }) + panel_draws(panel, occupied, output) + cursor
}

/// Everything a frame draws on screen, in order. `arrow` is the tip and the size
/// of the session's own pointer, if there is one.
pub fn plan_screen(
    layers: &[Layer],
    backing: Backing,
    look: Look,
    output: Size,
    panel: Panel,
    occupied: &[bool],
    cursor: Cursor,
    at: Point,
    arrow: Option<((i32, i32), i32)>,
) -> (draws: Vec<Draw>)
    requires
        output.w >= 0,
        output.h >= 0,
    ensures
        draws@ == screen_plan(
            layers@,
            backing,
            look,
            output,
            panel,
            occupied@,
            cursor_draws(cursor, at, arrow),
        ),
{
    let mut draws: Vec<Draw> = Vec::new();
    draws.push(Draw::Clear);
    match backing {
        Backing::Live => draws.push(Draw::Scene),
        Backing::Wallpaper => {
            draws.push(Draw::Wallpaper);
            draw_windows(layers, backing, look, output, &mut draws);
        },
        Backing::Plain => draw_windows(layers, backing, look, output, &mut draws),
    }
    draw_panel(panel, occupied, output, &mut draws);
    match cursor {
        Cursor::Hidden => {},
        Cursor::Surface => draws.push(Draw::ClientCursor),
        Cursor::Named => match arrow {
            Some((hotspot, size)) => draws.push(
                Draw::Arrow(
                    Rectangle {
                        loc: Point {
                            x: utils::narrowed(at.x as i64 - hotspot.0 as i64),
                            y: utils::narrowed(at.y as i64 - hotspot.1 as i64),
                        },
                        size: Size { w: size, h: size },
                    },
                ),
            ),
            None => {},
        },
    }
    assert(draws@ =~= screen_plan(
        layers@,
        backing,
        look,
        output,
        panel,
        occupied@,
        cursor_draws(cursor, at, arrow),
    ));
    draws
}

/// How windows are backed in a frame: over a blur of what is behind them only
/// where that is asked for, there is a wallpaper, and the blur can be drawn.
pub fn backing(window_blur: bool, wallpaper: bool, ready: bool) -> (backing: Backing)
    ensures
        backing == if window_blur && wallpaper && ready {
            Backing::Live
        } else if wallpaper {
            Backing::Wallpaper
        } else {
            Backing::Plain
        },
{
    if window_blur && wallpaper && ready {
        Backing::Live
    } else if wallpaper {
        Backing::Wallpaper
    } else {
        Backing::Plain
    }
}

/// Whether windows keep square corners that were to be round: corners are
/// rounded by painting the wallpaper over them, and there is none.
pub fn keeps_square_corners(layers: &[Layer], backing: Backing, look: Look) -> (b: bool)
    ensures
        b == (backing == Backing::Plain && exists|i: int|
            0 <= i < layers@.len() && chrome::radius_within(
                look.corner_radius as int,
                (#[trigger] layers@[i]).rect.size,
            ) > 0),
{
    if backing != Backing::Plain {
        return false;
    }
    for i in 0..layers.len()
        invariant
            backing == Backing::Plain,
            forall|k: int|
                0 <= k < i ==> chrome::radius_within(
                    look.corner_radius as int,
                    (#[trigger] layers@[k]).rect.size,
                ) <= 0,
    {
        if chrome::clamp_radius(look.corner_radius, layers[i].rect.size) > 0 {
            return true;
        }
    }
    false
}

/// The column behind the last pill; the first, where there is none.
pub open spec fn pills_end(pills: Seq<Rectangle>) -> int {
    if pills.len() == 0 {
        0
    } else {
        pills.last().loc.x + pills.last().size.w
    }
}

/// How wide a title may be: centred, it stays clear of the pills on both sides,
/// so that it cannot slide under them on a narrow screen.
pub fn title_budget(output: Size, panel_height: i32, count: usize, active: usize) -> (budget: i32)
    ensures
        budget == utils::saturated(
            output.w - (pills_end(
                panel::pill_row(output, panel_height, count as int, active as int),
            ) + 16) * 2,
        ),
{
    let pills: Vec<Rectangle> = panel::pills(output, panel_height, count, active);
    let end: i64 = if pills.len() == 0 {
        0
    } else {
        let last: Rectangle = pills[pills.len() - 1];
        last.loc.x as i64 + last.size.w as i64
    };
    utils::narrowed(output.w as i64 - (end + 16) * 2)
}

/// Half of a number, rounded towards zero.
pub open spec fn halved(n: int) -> int {
    if n < 0 {
        -((-n) / 2)
    } else {
        n / 2
    }
}

fn halve(n: i64) -> (half: i64)
    requires
        i64::MIN < n,
    ensures
        half == halved(n as int),
{
    if n < 0 {
        -((-n) / 2)
    } else {
        n / 2
    }
}

/// Where a title of that size goes: in the middle of the panel.
pub fn title_rect(output: Size, panel_height: i32, width: i32, height: i32) -> (rect: Rectangle)
    ensures
        rect == utils::rectangle(
            utils::saturated(halved(output.w - width)),
            utils::saturated(halved(panel_height - height)),
            width as int,
            height as int,
        ),
{
    Rectangle {
        loc: Point {
            x: utils::narrowed(halve(output.w as i64 - width as i64)),
            y: utils::narrowed(halve(panel_height as i64 - height as i64)),
        },
        size: Size { w: width, h: height },
    }
}

/// The title to show: one of nothing but white space is none.
pub fn shown_title(title: Option<String>) -> (shown: Option<String>)
    ensures
        match title {
            Some(text) => if chars::trimmed(text@).len() > 0 {
                shown == Some(text)
            } else {
                shown is None
            },
            None => shown is None,
        },
{
    match title {
        Some(text) => {
            let characters: Vec<char> = chars::chars_of(text.as_str());
            if chars::trim(&characters).len() > 0 {
                Some(text)
            } else {
                None
            }
        },
        None => None,
    }
}

/// Whether a draw covers what is behind a window: the blur that it stands on.
pub open spec fn lies_behind(draw: Draw) -> bool {
    draw is Blurred || draw is Behind
}

/// Whether nothing but corners is drawn between two places of a plan.
pub open spec fn only_corners_between(draws: Seq<Draw>, from: int, to: int) -> bool {
    from < to && forall|s: int| from < s < to ==> (#[trigger] draws[s]) is Corner
}

/// Whether a rectangle is what two others have in common.
pub open spec fn is_common(part: Rectangle, a: Rectangle, b: Rectangle) -> bool {
    forall|at: Point| #[trigger] part.holds(at) == (a.holds(at) && b.holds(at))
}

/// Whether a draw over a window is one of its own: its corners lie on it, and its
/// ring, which only a focused window has, goes around it.
pub open spec fn trims(draw: Draw, layer: Layer, look: Look) -> bool {
    match draw {
        Draw::Corner { patch, .. } => chrome::has_room(layer.rect, 0) && layer.rect.size.w >= 0
            && layer.rect.size.h >= 0 ==> forall|at: Point| #[trigger]
            patch.holds(at) ==> layer.rect.holds(at),
        Draw::Ring { band, width, .. } => {
            &&& layer.focused
            &&& width == look.ring_width
            &&& chrome::has_room(layer.rect, look.ring_width as int) && layer.rect.size.w >= 0
                && layer.rect.size.h >= 0 ==> band.holds_rect(layer.rect)
        },
        _ => false,
    }
}

/// Whether the windows of a plan are drawn back to front, each once and in one
/// piece: first the blur that it stands on, where it has one, then the window,
/// and over it its corners and its ring.
#[verifier::opaque]
pub open spec fn stacked(
    draws: Seq<Draw>,
    layers: Seq<Layer>,
    backing: Backing,
    look: Look,
    output: Size,
    n: int,
) -> bool {
    let screen = Rectangle { loc: Point { x: 0, y: 0 }, size: output };
    // Each window is there, and one that is in front comes later.
    &&& forall|i: int| 0 <= i < n ==> #[trigger] draws.contains(Draw::Window(i as usize))
    &&& forall|q: int|
        0 <= q < draws.len() && #[trigger] draws[q] is Window ==> draws[q]->Window_0 < n
    &&& forall|p: int, q: int|
        0 <= p < q < draws.len() && #[trigger] draws[p] is Window && #[trigger] draws[q] is Window
            ==> draws[p]->Window_0 < draws[q]->Window_0
    // A blur is drawn right before the window that stands on it.
    &&& forall|q: int|
        0 <= q < draws.len() && lies_behind(#[trigger] draws[q]) ==> q + 1 < draws.len()
            && draws[q + 1] is Window
    &&& forall|q: int|
        0 <= q < draws.len() && #[trigger] draws[q] is Window ==> {
            let rect = layers[draws[q]->Window_0 as int].rect;
            let under = draws[q - 1];
            &&& backing == Backing::Live ==> q > 0 && under == Draw::Behind(rect)
            &&& backing == Backing::Wallpaper && look.blur && rect.meets(screen) ==> q > 0
                && under is Blurred && is_common(under->Blurred_0, rect, screen)
            &&& q > 0 && under is Blurred ==> backing == Backing::Wallpaper && look.blur
            &&& q > 0 && under is Behind ==> backing == Backing::Live
        }
    // What is drawn over a window before the next one is its own.
    &&& forall|q: int|
        0 <= q < draws.len() && !(#[trigger] draws[q] is Window) && !lies_behind(draws[q])
            ==> exists|p: int|
            0 <= p && #[trigger] only_corners_between(draws, p, q) && draws[p] is Window && trims(
                draws[q],
                layers[draws[p]->Window_0 as int],
                look,
            )
    // A focused window has its ring.
    &&& forall|q: int|
        0 <= q < draws.len() && #[trigger] draws[q] is Window
            && layers[draws[q]->Window_0 as int].focused && look.ring_width > 0 ==> exists|r: int|
            r < draws.len() && #[trigger] only_corners_between(draws, q, r) && draws[r] is Ring
    // Without a wallpaper nothing is painted over corners.
    &&& backing == Backing::Plain ==> forall|q: int|
        0 <= q < draws.len() ==> !(#[trigger] draws[q] is Corner)
}

proof fn lemma_common(a: Rectangle, output: Size)
    requires
        a.meets(Rectangle { loc: Point { x: 0, y: 0 }, size: output }),
    ensures
        is_common(
            shared(a, Rectangle { loc: Point { x: 0, y: 0 }, size: output }),
            a,
            Rectangle { loc: Point { x: 0, y: 0 }, size: output },
        ),
{
}

proof fn lemma_corners(layer: Layer, radius: i32, look: Look, output: Size, n: int)
    requires
        0 <= n <= 4,
        0 < radius == chrome::radius_within(look.corner_radius as int, layer.rect.size),
    ensures
        forall|s: int|
            0 <= s < corners(layer.rect, radius, output, n).len() ==> (#[trigger] corners(
                layer.rect,
                radius,
                output,
                n,
            )[s]) is Corner && trims(corners(layer.rect, radius, output, n)[s], layer, look),
    decreases n,
{
    if n > 0 {
        lemma_corners(layer, radius, look, output, n - 1);
        let before = corners(layer.rect, radius, output, n - 1);
        let now = corners(layer.rect, radius, output, n);
        let patch = chrome::patches(layer.rect, radius)[n - 1];
        let screen = Rectangle { loc: Point { x: 0, y: 0 }, size: output };
        if patch.rect.meets(screen) {
            lemma_common(patch.rect, output);
            assert forall|s: int| 0 <= s < now.len() implies (#[trigger] now[s]) is Corner
                && trims(now[s], layer, look) by {
                if s < before.len() {
                    assert(now[s] == before[s]);
                } else if chrome::has_room(layer.rect, 0) && layer.rect.size.w >= 0
                    && layer.rect.size.h >= 0 {
                    chrome::patches_stay_within_the_window(layer.rect, radius, n - 1);
                    let part = shared(patch.rect, screen);
                    assert forall|at: Point| #[trigger] part.holds(at) implies layer.rect.holds(
                        at,
                    ) by {
                        assert(patch.rect.holds(at));
                    }
                }
            }
        }
    }
}

/// What is drawn for one window: so many draws before it, at most one and only
/// its blur, then the window, then its corners, then its ring.
proof fn lemma_layer(layer: Layer, i: int, backing: Backing, look: Look, output: Size) -> (at: int)
    requires
        0 <= i <= usize::MAX,
    ensures
        ({
            let draws = layer_draws(layer, i, backing, look, output);
            let screen = Rectangle { loc: Point { x: 0, y: 0 }, size: output };
            &&& 0 <= at <= 1
            &&& at < draws.len()
            &&& draws[at] == Draw::Window(i as usize)
            &&& at == 1 ==> lies_behind(draws[0])
            &&& backing == Backing::Live <==> at == 1 && draws[0] is Behind
            &&& backing == Backing::Live ==> draws[0] == Draw::Behind(layer.rect)
            &&& backing == Backing::Wallpaper && look.blur && layer.rect.meets(screen) <==> at == 1
                && draws[0] is Blurred
            &&& at == 1 && draws[0] is Blurred ==> is_common(
                draws[0]->Blurred_0,
                layer.rect,
                screen,
            )
            &&& forall|q: int|
                at < q < draws.len() ==> {
                    &&& (#[trigger] draws[q]) is Corner || draws[q] is Ring
                    &&& trims(draws[q], layer, look)
                    &&& draws[q] is Ring ==> q == draws.len() - 1
                    &&& draws[q] is Corner ==> backing != Backing::Plain
                }
            &&& layer.focused && look.ring_width > 0 ==> draws.last() is Ring && at < draws.len()
                - 1
        }),
{
    let draws = layer_draws(layer, i, backing, look, output);
    let screen = Rectangle { loc: Point { x: 0, y: 0 }, size: output };
    let radius = chrome::radius_within(look.corner_radius as int, layer.rect.size) as i32;
    let blurred = backing == Backing::Wallpaper && look.blur && layer.rect.meets(screen);
    let at = if blurred || backing == Backing::Live {
        1int
    } else {
        0
    };
    if blurred {
        lemma_common(layer.rect, output);
    }
    let round = if backing != Backing::Plain && radius > 0 {
        corners(layer.rect, radius, output, 4)
    } else {
        Seq::empty()
    };
    if backing != Backing::Plain && radius > 0 {
        lemma_corners(layer, radius, look, output, 4);
    }
    if layer.focused && look.ring_width > 0 && chrome::has_room(
        layer.rect,
        look.ring_width as int,
    ) && layer.rect.size.w >= 0 && layer.rect.size.h >= 0 {
        chrome::the_ring_lies_around_the_window(layer.rect, look.ring_width);
    }
    assert(draws[at] == Draw::Window(i as usize));
    assert forall|q: int| at < q < draws.len() implies {
        &&& (#[trigger] draws[q]) is Corner || draws[q] is Ring
        &&& trims(draws[q], layer, look)
        &&& draws[q] is Ring ==> q == draws.len() - 1
        &&& draws[q] is Corner ==> backing != Backing::Plain
    } by {
        let s = q - at - 1;
        if s < round.len() {
            assert(draws[q] == round[s]);
        }
    }
    at
}

proof fn lemma_stacked_window(
    layers: Seq<Layer>,
    backing: Backing,
    look: Look,
    output: Size,
    before: Seq<Draw>,
    n: int,
)
    requires
        0 < n <= layers.len(),
        n <= usize::MAX,
        stacked(before, layers, backing, look, output, n - 1),
    ensures
        stacked(
            before + layer_draws(layers[n - 1], n - 1, backing, look, output),
            layers,
            backing,
            look,
            output,
            n,
        ),
{
    reveal(stacked);
    let layer = layers[n - 1];
    let more = layer_draws(layer, n - 1, backing, look, output);
    let at = lemma_layer(layer, n - 1, backing, look, output);
    let draws = before + more;
    let b = before.len() as int;
    let own = b + at;
    assert forall|q: int| 0 <= q < b implies #[trigger] draws[q] == before[q] by {}
    assert forall|q: int| b <= q < draws.len() implies #[trigger] draws[q] == more[q - b] by {}
    assert(draws[own] == Draw::Window((n - 1) as usize));
    assert forall|i: int| 0 <= i < n implies #[trigger] draws.contains(
        Draw::Window(i as usize),
    ) by {
        if i < n - 1 {
            assert(before.contains(Draw::Window(i as usize)));
            let q = before.index_of(Draw::Window(i as usize));
            assert(draws[q] == before[q]);
        }
    }
    assert forall|q: int|
        0 <= q < draws.len() && !(#[trigger] draws[q] is Window) && !lies_behind(
            draws[q],
        ) implies exists|p: int|
        0 <= p && #[trigger] only_corners_between(draws, p, q) && draws[p] is Window && trims(
            draws[q],
            layers[draws[p]->Window_0 as int],
            look,
        ) by {
        if q < b {
            let p = choose|p: int|
                0 <= p && #[trigger] only_corners_between(before, p, q) && before[p] is Window
                    && trims(before[q], layers[before[p]->Window_0 as int], look);
            assert forall|s: int| p < s < q implies (#[trigger] draws[s]) is Corner by {
                assert(before[s] is Corner);
            }
            assert(only_corners_between(draws, p, q));
        } else {
            assert(q > own);
            assert forall|s: int| own < s < q implies (#[trigger] draws[s]) is Corner by {
                assert(more[s - b] is Corner || more[s - b] is Ring);
            }
            assert(only_corners_between(draws, own, q));
        }
    }
    assert forall|q: int|
        0 <= q < draws.len() && #[trigger] draws[q] is Window
            && layers[draws[q]->Window_0 as int].focused && look.ring_width > 0 implies exists|
        r: int,
    |
        r < draws.len() && #[trigger] only_corners_between(draws, q, r) && draws[r] is Ring by {
        if q < b {
            let r = choose|r: int|
                r < before.len() && #[trigger] only_corners_between(before, q, r)
                    && before[r] is Ring;
            assert forall|s: int| q < s < r implies (#[trigger] draws[s]) is Corner by {
                assert(before[s] is Corner);
            }
            assert(only_corners_between(draws, q, r));
        } else {
            assert(q == own);
            let r = draws.len() - 1;
            assert forall|s: int| q < s < r implies (#[trigger] draws[s]) is Corner by {
                assert(more[s - b] is Corner || more[s - b] is Ring);
            }
            assert(only_corners_between(draws, q, r));
        }
    }
}

proof fn lemma_stacked(
    layers: Seq<Layer>,
    backing: Backing,
    look: Look,
    output: Size,
    n: int,
)
    requires
        0 <= n <= layers.len(),
        n <= usize::MAX,
    ensures
        stacked(
            window_draws(layers, backing, look, output, n),
            layers,
            backing,
            look,
            output,
            n,
        ),
    decreases n,
{
    if n <= 0 {
        reveal(stacked);
    } else {
        lemma_stacked(layers, backing, look, output, n - 1);
        lemma_stacked_window(
            layers,
            backing,
            look,
            output,
            window_draws(layers, backing, look, output, n - 1),
            n,
        );
    }
}

/// How far up a draw belongs in a frame: the background, what lies over all of
/// it, the windows, the panel, its pills, the title, the pointer.
pub open spec fn height_of(draw: Draw) -> int {
    match draw {
        Draw::Clear => 0,
        Draw::Wallpaper | Draw::Scene => 1,
        Draw::Blurred(_) | Draw::Behind(_) | Draw::Window(_) => 2,
        Draw::Corner { .. } | Draw::Ring { .. } => 2,
        Draw::Bar(_) => 3,
        Draw::Workspace { .. } => 4,
        Draw::Title(_) => 5,
        Draw::ClientCursor | Draw::Arrow(_) => 6,
    }
}

/// Whether nothing in a plan is drawn over what belongs above it.
pub open spec fn rises(draws: Seq<Draw>) -> bool {
    forall|p: int, q: int|
        0 <= p < q < draws.len() ==> height_of(#[trigger] draws[p]) <= height_of(
            #[trigger] draws[q],
        )
}

proof fn lemma_window_heights(
    draws: Seq<Draw>,
    layers: Seq<Layer>,
    backing: Backing,
    look: Look,
    output: Size,
    n: int,
)
    requires
        stacked(draws, layers, backing, look, output, n),
    ensures
        forall|q: int| 0 <= q < draws.len() ==> height_of(#[trigger] draws[q]) == 2,
{
    reveal(stacked);
    assert forall|q: int| 0 <= q < draws.len() implies height_of(#[trigger] draws[q]) == 2 by {
        if !(draws[q] is Window) && !lies_behind(draws[q]) {
            let p = choose|p: int|
                0 <= p && #[trigger] only_corners_between(draws, p, q) && draws[p] is Window
                    && trims(draws[q], layers[draws[p]->Window_0 as int], look);
        }
    }
}

proof fn lemma_strip(panel: Panel, occupied: Seq<bool>, output: Size)
    ensures
        ({
            let strip = panel_draws(panel, occupied, output);
            &&& panel.height > 0 <==> strip.len() > 0
            &&& strip.len() > 0 ==> strip[0] is Bar
            &&& panel.height > 0 && panel.title is Some ==> strip.len() > 0 && strip.last()
                == Draw::Title(panel.title->Some_0)
            &&& forall|q: int|
                0 < q < strip.len() ==> (#[trigger] strip[q]) is Workspace || (strip[q] is Title
                    && q == strip.len() - 1)
        }),
{
}

proof fn lemma_rises(a: Seq<Draw>, b: Seq<Draw>, least: int)
    requires
        rises(a),
        rises(b),
        forall|q: int| 0 <= q < a.len() ==> height_of(#[trigger] a[q]) <= least,
        forall|q: int| 0 <= q < b.len() ==> height_of(#[trigger] b[q]) >= least,
    ensures
        rises(a + b),
{
    let all = a + b;
    assert forall|p: int, q: int| 0 <= p < q < all.len() implies height_of(#[trigger] all[p])
        <= height_of(#[trigger] all[q]) by {
        if q < a.len() {
            assert(all[p] == a[p] && all[q] == a[q]);
        } else if p < a.len() {
            assert(all[p] == a[p] && all[q] == b[q - a.len()]);
        } else {
            assert(all[p] == b[p - a.len()] && all[q] == b[q - a.len()]);
        }
    }
}

/// A frame is drawn from the back to the front: the background, the wallpaper or
/// what was assembled offscreen, the windows, the panel, the pointer. The windows
/// are those in the middle, stacked.
pub proof fn a_frame_is_drawn_back_to_front(
    layers: Seq<Layer>,
    backing: Backing,
    look: Look,
    output: Size,
    panel: Panel,
    occupied: Seq<bool>,
    cursor: Cursor,
    at: Point,
    arrow: Option<((i32, i32), i32)>,
)
    requires
        layers.len() <= usize::MAX,
    ensures
        ({
            let plan = screen_plan(
                layers,
                backing,
                look,
                output,
                panel,
                occupied,
                cursor_draws(cursor, at, arrow),
            );
            &&& rises(plan)
            &&& plan.len() > 0
            &&& plan[0] is Clear
            &&& backing == Backing::Wallpaper ==> plan.len() > 1 && plan[1] is Wallpaper
            &&& backing == Backing::Live ==> plan.len() > 1 && plan[1] is Scene
            &&& backing != Backing::Live ==> exists|from: int, to: int|
                0 <= from <= to <= plan.len() && #[trigger] stacked(
                    plan.subrange(from, to),
                    layers,
                    backing,
                    look,
                    output,
                    layers.len() as int,
                ) && (forall|q: int|
                    0 <= q < plan.len() && height_of(#[trigger] plan[q]) == 2 ==> from <= q < to)
            &&& panel.height > 0 ==> exists|q: int|
                0 <= q < plan.len() && (#[trigger] plan[q]) is Bar
            &&& panel.height > 0 && panel.title is Some ==> plan.contains(
                Draw::Title(panel.title->Some_0),
            )
            &&& panel.height <= 0 ==> forall|q: int|
                0 <= q < plan.len() ==> !(3 <= height_of(#[trigger] plan[q]) <= 5)
            &&& cursor == Cursor::Hidden ==> forall|q: int|
                0 <= q < plan.len() ==> height_of(#[trigger] plan[q]) < 6
        }),
{
    let n = layers.len() as int;
    let windows = shown_windows(layers, backing, look, output);
    let under = background(backing);
    let strip = panel_draws(panel, occupied, output);
    let pointer = cursor_draws(cursor, at, arrow);
    let plan = screen_plan(layers, backing, look, output, panel, occupied, pointer);
    assert(plan =~= under + windows + strip + pointer) by {
        assert(background(backing) =~= seq![Draw::Clear] + (match backing {
            Backing::Live => seq![Draw::Scene],
            Backing::Wallpaper => seq![Draw::Wallpaper],
            Backing::Plain => Seq::empty(),
        }));
    }
    lemma_strip(panel, occupied, output);
    lemma_shown_windows(layers, backing, look, output);
    lemma_frame(under, windows, strip, pointer);
    let from = under.len() as int;
    assert(plan.subrange(from, from + windows.len() as int) == windows);
}

/// What lies under the windows of a frame.
spec fn background(backing: Backing) -> Seq<Draw> {
    match backing {
        Backing::Live => seq![Draw::Clear, Draw::Scene],
        Backing::Wallpaper => seq![Draw::Clear, Draw::Wallpaper],
        Backing::Plain => seq![Draw::Clear],
    }
}

/// What a frame draws of the windows itself: nothing, where they were assembled
/// offscreen.
spec fn shown_windows(
    layers: Seq<Layer>,
    backing: Backing,
    look: Look,
    output: Size,
) -> Seq<Draw> {
    if backing == Backing::Live {
        Seq::empty()
    } else {
        window_draws(layers, backing, look, output, layers.len() as int)
    }
}

proof fn lemma_shown_windows(layers: Seq<Layer>, backing: Backing, look: Look, output: Size)
    requires
        layers.len() <= usize::MAX,
    ensures
        ({
            let windows = shown_windows(layers, backing, look, output);
            &&& forall|q: int| 0 <= q < windows.len() ==> height_of(#[trigger] windows[q]) == 2
            &&& backing != Backing::Live ==> stacked(
                windows,
                layers,
                backing,
                look,
                output,
                layers.len() as int,
            )
        }),
{
    let n = layers.len() as int;
    if backing != Backing::Live {
        lemma_stacked(layers, backing, look, output, n);
        lemma_window_heights(
            window_draws(layers, backing, look, output, n),
            layers,
            backing,
            look,
            output,
            n,
        );
    }
}

proof fn lemma_frame(under: Seq<Draw>, windows: Seq<Draw>, strip: Seq<Draw>, pointer: Seq<Draw>)
    requires
        rises(under),
        rises(strip),
        rises(pointer),
        forall|q: int| 0 <= q < under.len() ==> height_of(#[trigger] under[q]) < 2,
        forall|q: int| 0 <= q < windows.len() ==> height_of(#[trigger] windows[q]) == 2,
        forall|q: int| 0 <= q < strip.len() ==> 3 <= height_of(#[trigger] strip[q]) <= 5,
        forall|q: int| 0 <= q < pointer.len() ==> height_of(#[trigger] pointer[q]) == 6,
    ensures
        ({
            let plan = under + windows + strip + pointer;
            let (a, b) = (under.len() as int, (under.len() + windows.len()) as int);
            let c = b + strip.len();
            &&& rises(plan)
            &&& forall|q: int| 0 <= q < a ==> #[trigger] plan[q] == under[q]
            &&& forall|q: int| b <= q < c ==> #[trigger] plan[q] == strip[q - b]
            &&& forall|q: int|
                0 <= q < plan.len() ==> {
                    &&& height_of(#[trigger] plan[q]) == 2 <==> a <= q < b
                    &&& 3 <= height_of(plan[q]) <= 5 <==> b <= q < c
                    &&& height_of(plan[q]) == 6 <==> c <= q
                }
            &&& plan.subrange(a, b) == windows
            &&& strip.len() > 0 ==> plan[b] == strip[0] && plan.contains(strip.last())
        }),
{
    let plan = under + windows + strip + pointer;
    let (a, b) = (under.len() as int, (under.len() + windows.len()) as int);
    let c = b + strip.len();
    lemma_rises(under, windows, 2);
    lemma_rises(under + windows, strip, 3);
    lemma_rises(under + windows + strip, pointer, 6);
    assert forall|q: int| 0 <= q < plan.len() implies {
        &&& height_of(#[trigger] plan[q]) == 2 <==> a <= q < b
        &&& 3 <= height_of(plan[q]) <= 5 <==> b <= q < c
        &&& height_of(plan[q]) == 6 <==> c <= q
    } by {
        if q < a {
            assert(plan[q] == under[q]);
        } else if q < b {
            assert(plan[q] == windows[q - a]);
        } else if q < c {
            assert(plan[q] == strip[q - b]);
        } else {
            assert(plan[q] == pointer[q - c]);
        }
    }
    assert(plan.subrange(a, b) =~= windows);
    if strip.len() > 0 {
        assert(plan[c - 1] == strip.last());
    }
}

/// What is assembled offscreen is drawn from the back to the front too: the
/// background, the wallpaper, and the windows, each over a blur of what is behind
/// it.
pub proof fn a_scene_is_drawn_back_to_front(layers: Seq<Layer>, look: Look, output: Size)
    requires
        layers.len() <= usize::MAX,
    ensures
        ({
            let plan = scene_plan(layers, look, output);
            &&& plan.len() >= 2
            &&& plan[0] is Clear
            &&& plan[1] is Wallpaper
            &&& stacked(
                plan.skip(2),
                layers,
                Backing::Live,
                look,
                output,
                layers.len() as int,
            )
        }),
{
    let n = layers.len() as int;
    lemma_stacked(layers, Backing::Live, look, output, n);
    assert(scene_plan(layers, look, output).skip(2) =~= window_draws(
        layers,
        Backing::Live,
        look,
        output,
        n,
    ));
}

/// Each workspace has its pill on the panel, in order: the active one says so,
/// and of the others those that hold a window look different from those that
/// hold none.
pub proof fn every_workspace_shows_its_state(panel: Panel, occupied: Seq<bool>, output: Size, i: int)
    requires
        panel.height > 0,
        0 <= i < panel::pill_row(
            output,
            panel.height,
            occupied.len() as int,
            panel.active as int,
        ).len(),
        panel::pill_row(
            output,
            panel.height,
            occupied.len() as int,
            panel.active as int,
        ).len() <= occupied.len(),
    ensures
        ({
            let draws = panel_draws(panel, occupied, output);
            &&& draws[i + 1] is Workspace
            &&& draws[i + 1]->state is Active <==> i == panel.active
            &&& i != panel.active ==> (draws[i + 1]->state is Occupied <==> occupied[i])
            &&& draws[i + 1]->pill == panel::pill_row(
                output,
                panel.height,
                occupied.len() as int,
                panel.active as int,
            )[i]
        }),
{
}

/// The pointer is drawn last, over everything: a cursor that can be covered is
/// lost just when it is needed.
pub proof fn the_pointer_is_drawn_last(
    layers: Seq<Layer>,
    backing: Backing,
    look: Look,
    output: Size,
    panel: Panel,
    occupied: Seq<bool>,
    cursor: Cursor,
    at: Point,
    arrow: ((i32, i32), i32),
)
    requires
        cursor != Cursor::Hidden,
    ensures
        ({
            let plan = screen_plan(
                layers,
                backing,
                look,
                output,
                panel,
                occupied,
                cursor_draws(cursor, at, Some(arrow)),
            );
            plan.last() is ClientCursor || plan.last() is Arrow
        }),
{
}

proof fn lemma_layer_window(layer: Layer, i: int, backing: Backing, look: Look, output: Size)
    requires
        0 <= i <= usize::MAX,
    ensures
        layer_draws(layer, i, backing, look, output).contains(Draw::Window(i as usize)),
{
    let draws = layer_draws(layer, i, backing, look, output);
    let window = Draw::Window(i as usize);
    let k = if backing == Backing::Plain {
        0int
    } else if backing == Backing::Live {
        1
    } else if draws[0] == window {
        0
    } else {
        1
    };
    assert(draws[k] == window);
}

/// Every window is drawn, however it is backed.
pub proof fn every_window_is_drawn(
    layers: Seq<Layer>,
    backing: Backing,
    look: Look,
    output: Size,
    n: int,
    i: int,
)
    requires
        0 <= i < n <= layers.len(),
        n <= usize::MAX,
    ensures
        window_draws(layers, backing, look, output, n).contains(Draw::Window(i as usize)),
    decreases n,
{
    let before = window_draws(layers, backing, look, output, n - 1);
    let now = window_draws(layers, backing, look, output, n);
    let window = Draw::Window(i as usize);
    if i == n - 1 {
        lemma_layer_window(layers[i], i, backing, look, output);
        let more = layer_draws(layers[i], i, backing, look, output);
        assert(now[before.len() + more.index_of(window)] == window);
    } else {
        every_window_is_drawn(layers, backing, look, output, n - 1, i);
        assert(now[before.index_of(window)] == window);
    }
}

/// Once what a frame has to do first has been done, the backdrop that it wants is
/// there, unless that one was refused before; and the wallpaper is read again only
/// for another picture or another size.
pub proof fn what_is_wanted_is_prepared(prepared: Prepared, wanted: Option<Wanted>)
    requires
        wanted is Some ==> prepared.refused != wanted,
    ensures
        prepared.after(wanted, true).built == wanted,
        prepared.step(wanted) == Prepare::Build ==> prepared.built is None
            || prepared.built->Some_0.path != wanted->Some_0.path || prepared.built->Some_0.size
            != wanted->Some_0.size,
        prepared.step(wanted) == Prepare::Keep <==> wanted is Some && prepared.built == wanted,
        prepared.step(wanted) == Prepare::Drop <==> wanted is None,
{
}

/// A wallpaper is wanted where one is set, as it is set, at the size of the
/// screen.
pub proof fn the_wallpaper_that_is_set_is_wanted(config: Config, size: Size)
    ensures
        wanted_backdrop(config, size) is None <==> chars::trimmed(config.wallpaper@).len() == 0,
        wanted_backdrop(config, size) matches Some(wanted) ==> wanted.path == chars::trimmed(
            config.wallpaper@,
        ) && wanted.size == size && wanted.radius == config.blur_radius && wanted.passes
            == config.blur_passes,
{
}

/// The tip of the arrow is where the pointer is.
pub proof fn the_arrow_points_at_the_pointer(at: Point, hotspot: (i32, i32), size: i32)
    requires
        utils::in_range(at.x - hotspot.0),
        utils::in_range(at.y - hotspot.1),
    ensures
        arrow_rect(at, hotspot, size).loc.x + hotspot.0 == at.x,
        arrow_rect(at, hotspot, size).loc.y + hotspot.1 == at.y,
        arrow_rect(at, hotspot, size).size == (Size { w: size, h: size }),
{
}

/// What is put half of the free length in stands in the middle: as much is free
/// before it as behind it, up to one pixel.
pub proof fn halves_differ_by_one_at_most(whole: int, part: int)
    requires
        0 <= part <= whole,
    ensures
        ({
            let before = halved(whole - part);
            let after = whole - part - before;
            0 <= before <= after <= before + 1
        }),
        halved(part - whole) == -halved(whole - part),
{
}

} // verus!
