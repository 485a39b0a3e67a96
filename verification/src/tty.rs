//! The tty backend: what it decides.
//!
//! Opening devices, setting modes and reading events are the driver's. What
//! stands here is what it makes of them: which device and output to drive, what
//! a key asks for, where the pointer goes, what a failed frame means, and what
//! a probe has to report.

use vstd::prelude::*;

use crate::chars;
use crate::number;
use crate::number::Number;
use crate::sort;

verus! {

/// Escape, in evdev codes.
pub const KEY_ESC: u32 = 1;

pub const KEY_LEFTCTRL: u32 = 29;

pub const KEY_RIGHTCTRL: u32 = 97;

pub const KEY_LEFTALT: u32 = 56;

pub const KEY_RIGHTALT: u32 = 100;

pub const KEY_F1: u32 = 59;

pub const KEY_F10: u32 = 68;

pub const KEY_F11: u32 = 87;

pub const KEY_F12: u32 = 88;

/// The terminal that a function key names.
pub open spec fn terminal_of(code: u32) -> Option<i32> {
    if KEY_F1 <= code <= KEY_F10 {
        Some((code - KEY_F1 + 1) as i32)
    } else if code == KEY_F11 {
        Some(11i32)
    } else if code == KEY_F12 {
        Some(12i32)
    } else {
        None
    }
}

/// Which VT `Ctrl+Alt+F<n>` asks for, if this key is a function key.
///
/// Evdev codes rather than keysyms: switching terminals is an operation on
/// physical keys, and has to work whatever the layout is. F11 and F12 are not
/// adjacent to F1..F10 there.
pub fn vt_for_key(code: u32) -> (vt: Option<i32>)
    ensures
        vt == terminal_of(code),
{
    if KEY_F1 <= code && code <= KEY_F10 {
        Some((code - KEY_F1 + 1) as i32)
    } else if code == KEY_F11 {
        Some(11)
    } else if code == KEY_F12 {
        Some(12)
    } else {
        None
    }
}

pub open spec fn is_ctrl(code: u32) -> bool {
    code == KEY_LEFTCTRL || code == KEY_RIGHTCTRL
}

pub open spec fn is_alt(code: u32) -> bool {
    code == KEY_LEFTALT || code == KEY_RIGHTALT
}

/// Whether a VT-switch chord is armed.
///
/// Kept apart from the session's own modifier state: a VT switch has to work
/// whatever has the keyboard.
#[derive(Debug, Clone, Copy, PartialEq, Eq, Structural)]
pub struct Chord {
    pub ctrl: bool,
    pub alt: bool,
}

impl Default for Chord {
    fn default() -> (chord: Chord)
        ensures
            chord == (Chord { ctrl: false, alt: false }),
    {
        Chord { ctrl: false, alt: false }
    }
}

impl Chord {
    /// The chord once a key has been pressed or released.
    pub open spec fn after(self, code: u32, pressed: bool) -> Chord {
        if is_ctrl(code) {
            Chord { ctrl: pressed, ..self }
        } else if is_alt(code) {
            Chord { alt: pressed, ..self }
        } else {
            self
        }
    }

    /// Feed a key. Returns the VT to switch to, if this completes the chord: on
    /// the press only, or a switch would be undone by the release.
    pub fn key(&mut self, code: u32, pressed: bool) -> (vt: Option<i32>)
        ensures
            *final(self) == old(self).after(code, pressed),
            vt == if pressed && old(self).ctrl && old(self).alt && !is_ctrl(code) && !is_alt(
                code,
            ) {
                terminal_of(code)
            } else {
                None
            },
    {
        if code == KEY_LEFTCTRL || code == KEY_RIGHTCTRL {
            self.ctrl = pressed;
            None
        } else if code == KEY_LEFTALT || code == KEY_RIGHTALT {
            self.alt = pressed;
            None
        } else if pressed && self.ctrl && self.alt {
            vt_for_key(code)
        } else {
            None
        }
    }
}

/// Releasing a modifier disarms the chord: no key switches terminals until it is
/// held again.
pub proof fn a_released_modifier_disarms_the_chord(chord: Chord, modifier: u32, code: u32)
    requires
        is_ctrl(modifier) || is_alt(modifier),
    ensures
        ({
            let released = chord.after(modifier, false);
            !(released.ctrl && released.alt)
        }),
        // Any other key leaves it as it is.
        !is_ctrl(code) && !is_alt(code) ==> chord.after(code, true) == chord,
{
}

/// Holding a Ctrl key and an Alt key, whichever was first, arms the chord, and a
/// key that is neither leaves it armed.
pub proof fn ctrl_and_alt_arm_the_chord(chord: Chord, ctrl: u32, alt: u32, other: u32)
    requires
        is_ctrl(ctrl),
        is_alt(alt),
        !is_ctrl(other),
        !is_alt(other),
    ensures
        chord.after(ctrl, true).after(alt, true) == (Chord { ctrl: true, alt: true }),
        chord.after(alt, true).after(ctrl, true) == (Chord { ctrl: true, alt: true }),
        (Chord { ctrl: true, alt: true }).after(other, true) == (Chord { ctrl: true, alt: true }),
{
}

#[derive(Debug, Clone, Copy, PartialEq, Eq, Structural)]
pub enum ScrollSource {
    Wheel,
    Finger,
    Continuous,
}

/// One scroll event.
#[derive(Debug, Clone, Copy, PartialEq, Eq)]
pub struct Scroll {
    pub source: ScrollSource,
    /// Pixels. Positive is right and down, matching pointer motion.
    pub horizontal: Number,
    pub vertical: Number,
    /// Discrete steps, in 120ths of a notch. Wheels only.
    pub v120: Option<(Number, Number)>,
}

/// What a frame says about one axis of a scroll.
#[derive(Debug, Clone, Copy, PartialEq, Eq)]
pub struct AxisPart {
    /// Discrete steps, in 120ths of a notch.
    pub v120: Option<Number>,
    /// Pixels.
    pub value: Option<Number>,
    /// The finger has lifted.
    pub stop: bool,
}

pub open spec fn unless_zero(n: Number) -> Option<Number> {
    if n.rank() == 0 {
        None
    } else {
        Some(n)
    }
}

fn nonzero(n: Number) -> (kept: Option<Number>)
    ensures
        kept == unless_zero(n),
{
    if n.is_zero() {
        None
    } else {
        Some(n)
    }
}

impl Scroll {
    /// Whether a finger has lifted, per axis.
    ///
    /// A touchpad scroll ends with a zero on the axis that stopped, and a client
    /// needs that to end kinetic scrolling.
    pub fn stopped(&self) -> (axes: (bool, bool))
        ensures
            axes.0 == (self.source == ScrollSource::Finger && self.horizontal.rank() == 0),
            axes.1 == (self.source == ScrollSource::Finger && self.vertical.rank() == 0),
    {
        if self.source != ScrollSource::Finger {
            return (false, false);
        }
        (self.horizontal.is_zero(), self.vertical.is_zero())
    }

    /// Neither axis moved, and no finger was on the pad.
    pub open spec fn says_nothing(self) -> bool {
        self.horizontal.rank() == 0 && self.vertical.rank() == 0 && self.source
            != ScrollSource::Finger
    }

    /// What is said of the horizontal axis: what is zero is left out, and a
    /// finger lift is announced.
    pub open spec fn across(self) -> AxisPart {
        AxisPart {
            v120: match self.v120 {
                Some(steps) => unless_zero(steps.0),
                None => None,
            },
            value: unless_zero(self.horizontal),
            stop: self.source == ScrollSource::Finger && self.horizontal.rank() == 0,
        }
    }

    /// What is said of the vertical axis, in the same way.
    pub open spec fn down(self) -> AxisPart {
        AxisPart {
            v120: match self.v120 {
                Some(steps) => unless_zero(steps.1),
                None => None,
            },
            value: unless_zero(self.vertical),
            stop: self.source == ScrollSource::Finger && self.vertical.rank() == 0,
        }
    }

    /// Whether this event says nothing at all. Such an event is dropped: a frame
    /// without axes is taken for a stop by some clients.
    pub fn is_empty(&self) -> (b: bool)
        ensures
            b == self.says_nothing(),
    {
        self.horizontal.is_zero() && self.vertical.is_zero() && self.source
            != ScrollSource::Finger
    }

    /// What the client is told of each axis, the horizontal one first: what is
    /// zero is left out, and a finger lift is announced.
    pub fn axes(&self) -> (parts: (AxisPart, AxisPart))
        ensures
            parts == (self.across(), self.down()),
    {
        let (stop_h, stop_v) = self.stopped();
        let (steps_h, steps_v) = match self.v120 {
            Some(steps) => (nonzero(steps.0), nonzero(steps.1)),
            None => (None, None),
        };
        (
            AxisPart { v120: steps_h, value: nonzero(self.horizontal), stop: stop_h },
            AxisPart { v120: steps_v, value: nonzero(self.vertical), stop: stop_v },
        )
    }
}

/// Whether a frame says anything about an axis.
pub open spec fn says_something(part: AxisPart) -> bool {
    part.v120 is Some || part.value is Some || part.stop
}

/// An event that is not empty tells the client something.
pub proof fn a_scroll_that_is_sent_says_something(scroll: Scroll)
    requires
        !scroll.says_nothing(),
    ensures
        says_something(scroll.across()) || says_something(scroll.down()),
{
}

/// An event of an input device.
#[derive(Debug, Clone, Copy, PartialEq, Eq)]
pub enum InputEvent {
    Key { code: u32, pressed: bool },
    /// A movement by so much, right and down.
    Motion { dx: Number, dy: Number },
    Scroll(Scroll),
    Button { code: u32, pressed: bool },
    /// Anything else. Absolute devices are among these: where one *is* says
    /// nothing without the device's own range.
    Other,
}

/// What draining the devices produced.
#[derive(Debug)]
pub struct Input {
    pub escape: bool,
    /// Key presses and releases, as evdev codes.
    pub keys: Vec<(u32, bool)>,
    /// Pointer movement since the last drain: its sum is what the pointer moves
    /// by, once.
    pub motion: Vec<(Number, Number)>,
    pub buttons: Vec<(u32, bool)>,
    /// One entry per scroll event, not accumulated: the source and the stop
    /// flags are per event.
    pub scrolls: Vec<Scroll>,
}

/// What draining produced, as a mathematical value.
#[verifier::ext_equal]
pub struct Drained {
    pub escape: bool,
    pub keys: Seq<(u32, bool)>,
    pub motion: Seq<(Number, Number)>,
    pub buttons: Seq<(u32, bool)>,
    pub scrolls: Seq<Scroll>,
}

impl View for Input {
    type V = Drained;

    open spec fn view(&self) -> Drained {
        Drained {
            escape: self.escape,
            keys: self.keys@,
            motion: self.motion@,
            buttons: self.buttons@,
            scrolls: self.scrolls@,
        }
    }
}

impl Drained {
    pub open spec fn nothing() -> Drained {
        Drained {
            escape: false,
            keys: Seq::empty(),
            motion: Seq::empty(),
            buttons: Seq::empty(),
            scrolls: Seq::empty(),
        }
    }

    /// With one event more.
    pub open spec fn with(self, event: InputEvent) -> Drained {
        match event {
            InputEvent::Key { code, pressed } => Drained {
                escape: self.escape || (pressed && code == KEY_ESC),
                keys: self.keys.push((code, pressed)),
                ..self
            },
            InputEvent::Motion { dx, dy } => Drained { motion: self.motion.push((dx, dy)), ..self },
            InputEvent::Scroll(scroll) => Drained { scrolls: self.scrolls.push(scroll), ..self },
            InputEvent::Button { code, pressed } => Drained {
                buttons: self.buttons.push((code, pressed)),
                ..self
            },
            InputEvent::Other => self,
        }
    }
}

/// What a list of events comes to.
pub open spec fn drained(events: Seq<InputEvent>) -> Drained
    decreases events.len(),
{
    if events.len() == 0 {
        Drained::nothing()
    } else {
        drained(events.drop_last()).with(events.last())
    }
}

/// Events that arrive in two goes come to what both come to, one after the other.
pub proof fn draining_keeps_everything_in_order(a: Seq<InputEvent>, b: Seq<InputEvent>)
    ensures
        drained(a + b).escape == (drained(a).escape || drained(b).escape),
        drained(a + b).keys == drained(a).keys + drained(b).keys,
        drained(a + b).motion == drained(a).motion + drained(b).motion,
        drained(a + b).buttons == drained(a).buttons + drained(b).buttons,
        drained(a + b).scrolls == drained(a).scrolls + drained(b).scrolls,
    decreases b.len(),
{
    let all = a + b;
    if b.len() == 0 {
        assert(all =~= a);
        assert(drained(a).keys + drained(b).keys =~= drained(a).keys);
        assert(drained(a).motion + drained(b).motion =~= drained(a).motion);
        assert(drained(a).buttons + drained(b).buttons =~= drained(a).buttons);
        assert(drained(a).scrolls + drained(b).scrolls =~= drained(a).scrolls);
    } else {
        draining_keeps_everything_in_order(a, b.drop_last());
        assert(all.drop_last() =~= a + b.drop_last());
        assert(all.last() == b.last());
        assert(drained(all).keys =~= drained(a).keys + drained(b).keys);
        assert(drained(all).motion =~= drained(a).motion + drained(b).motion);
        assert(drained(all).buttons =~= drained(a).buttons + drained(b).buttons);
        assert(drained(all).scrolls =~= drained(a).scrolls + drained(b).scrolls);
    }
}

/// Each event is kept once, as what it is, and Escape is noticed where it is
/// pressed.
pub proof fn a_single_event_is_drained(event: InputEvent)
    ensures
        ({
            let one = drained(seq![event]);
            &&& one.keys.len() + one.motion.len() + one.buttons.len() + one.scrolls.len() == if event
                is Other {
                0int
            } else {
                1
            }
            &&& event matches InputEvent::Key { code, pressed } ==> one.keys[0] == (code, pressed)
                && one.keys.len() == 1
            &&& event matches InputEvent::Motion { dx, dy } ==> one.motion[0] == (dx, dy)
                && one.motion.len() == 1
            &&& event matches InputEvent::Button { code, pressed } ==> one.buttons[0] == (
                code,
                pressed,
            ) && one.buttons.len() == 1
            &&& event matches InputEvent::Scroll(scroll) ==> one.scrolls[0] == scroll
                && one.scrolls.len() == 1
            &&& one.escape <==> event is Key && event->Key_pressed && event->Key_code == KEY_ESC
        }),
{
    let events = seq![event];
    assert(events.drop_last() =~= Seq::<InputEvent>::empty());
    reveal_with_fuel(drained, 2);
}

/// Sort out the events that arrived; none did where reading them failed.
///
/// A plain value rather than calls back into the session: the caller needs the
/// session for itself.
pub fn drain(events: Option<&[InputEvent]>) -> (input: Input)
    ensures
        input@ == match events {
            Some(events) => drained(events@),
            None => Drained::nothing(),
        },
{
    let mut out: Input = Input {
        escape: false,
        keys: Vec::new(),
        motion: Vec::new(),
        buttons: Vec::new(),
        scrolls: Vec::new(),
    };
    assert(out@ =~= Drained::nothing());
    match events {
        None => {},
        Some(events) => {
            assert(events@.take(0) =~= Seq::<InputEvent>::empty());
            for i in 0..events.len()
                invariant
                    out@ == drained(events@.take(i as int)),
            {
                let ghost before = out@;
                assert(events@.take(i + 1).drop_last() =~= events@.take(i as int));
                match events[i] {
                    InputEvent::Key { code, pressed } => {
                        if pressed && code == KEY_ESC {
                            out.escape = true;
                        }
                        out.keys.push((code, pressed));
                    },
                    InputEvent::Motion { dx, dy } => out.motion.push((dx, dy)),
                    InputEvent::Scroll(scroll) => out.scrolls.push(scroll),
                    InputEvent::Button { code, pressed } => out.buttons.push((code, pressed)),
                    InputEvent::Other => {},
                }
                assert(out@ =~= before.with(events@[i as int]));
            }
            assert(events@.take(events@.len() as int) =~= events@);
        },
    }
    out
}

/// The keys that were pressed, in order.
pub open spec fn presses(events: Seq<InputEvent>) -> Seq<u32>
    decreases events.len(),
{
    if events.len() == 0 {
        Seq::empty()
    } else {
        match events.last() {
            InputEvent::Key { code, pressed: true } => presses(events.drop_last()).push(code),
            _ => presses(events.drop_last()),
        }
    }
}

/// Note the keys that were pressed, and report whether Escape was among them.
pub fn pump(events: &[InputEvent], keys: &mut Vec<u32>) -> (escape: bool)
    ensures
        final(keys)@ == old(keys)@ + presses(events@),
        escape == presses(events@).contains(KEY_ESC),
{
    let mut escape: bool = false;
    assert(events@.take(0) =~= Seq::<InputEvent>::empty());
    assert(old(keys)@ + presses(events@.take(0)) =~= old(keys)@);
    for i in 0..events.len()
        invariant
            keys@ == old(keys)@ + presses(events@.take(i as int)),
            escape == presses(events@.take(i as int)).contains(KEY_ESC),
    {
        let ghost seen = presses(events@.take(i as int));
        assert(events@.take(i + 1).drop_last() =~= events@.take(i as int));
        match events[i] {
            InputEvent::Key { code, pressed } => {
                if pressed {
                    keys.push(code);
                    assert((old(keys)@ + seen).push(code) =~= old(keys)@ + seen.push(code));
                    if code == KEY_ESC {
                        escape = true;
                        assert(seen.push(code).last() == KEY_ESC);
                    }
                    proof {
                        if seen.contains(KEY_ESC) {
                            let k = choose|k: int| 0 <= k < seen.len() && seen[k] == KEY_ESC;
                            assert(seen.push(code)[k] == KEY_ESC);
                        }
                        if seen.push(code).contains(KEY_ESC) && code != KEY_ESC {
                            let k = choose|k: int|
                                0 <= k < seen.push(code).len() && seen.push(code)[k] == KEY_ESC;
                            assert(seen[k] == KEY_ESC);
                        }
                    }
                }
            },
            _ => {},
        }
    }
    assert(events@.take(events@.len() as int) =~= events@);
    escape
}

/// One pixel short of the far edge of a side, and no less than its start.
pub open spec fn last_pixel(side: i32) -> int {
    if side < 1 {
        0
    } else {
        side - 1
    }
}

fn far_limit(side: i32) -> (limit: Number)
    ensures
        limit == number::whole(last_pixel(side)),
{
    if side < 1 {
        Number::from_integer(0)
    } else {
        Number::from_integer(side - 1)
    }
}

/// A coordinate, kept on a side of the screen.
pub open spec fn kept_on_screen(moved: Number, side: i32) -> Number {
    moved.kept_between(Number { bits: 0 }, number::whole(last_pixel(side)))
}

/// Keep a pointer, moved to `moved`, on screen.
///
/// A pointer that can leave the screen cannot be brought back. One pixel short
/// of the far edge: a pointer exactly at the width is outside every window, and
/// the rightmost column would never respond.
pub fn clamp_pointer(moved: (Number, Number), output: (i32, i32)) -> (at: (Number, Number))
    ensures
        at.0 == kept_on_screen(moved.0, output.0),
        at.1 == kept_on_screen(moved.1, output.1),
{
    let zero: Number = Number { bits: 0 };
    (moved.0.clamped(zero, far_limit(output.0)), moved.1.clamped(zero, far_limit(output.1)))
}

/// Wherever a pointer is moved, it is on the screen: no less than zero and no
/// more than the last pixel.
pub proof fn the_pointer_cannot_leave_the_screen(moved: Number, side: i32)
    requires
        !moved.nan(),
    ensures
        !kept_on_screen(moved, side).less(Number { bits: 0 }),
        !number::whole(last_pixel(side)).less(kept_on_screen(moved, side)),
{
    let zero = Number { bits: 0 };
    let last = last_pixel(side);
    let limit = number::whole(last);
    assert(zero.is_fraction(0, 0));
    number::every_whole_number_is_one(last);
    number::whole_numbers_keep_their_order(zero, 0, limit, last, 0);
    number::whole_numbers_keep_their_order(limit, last, zero, 0, 0);
}

/// A pointer that was moved to somewhere on the screen is there.
pub proof fn a_pointer_on_screen_is_where_it_was_moved(moved: Number, side: i32)
    requires
        !moved.less(Number { bits: 0 }),
        !number::whole(last_pixel(side)).less(moved),
    ensures
        kept_on_screen(moved, side) == moved,
{
}

/// What the session is told about who owns the hardware.
#[derive(Debug, Clone, Copy, PartialEq, Eq, Structural)]
pub enum SessionEvent {
    /// Another VT has the display.
    Pause,
    Activate,
}

/// Whether the session currently owns the hardware.
#[derive(Debug, Clone, Copy, PartialEq, Eq, Structural)]
pub struct Active {
    pub active: bool,
    /// Set on the transition, for the work that is done once on the way back.
    pub just_resumed: bool,
}

impl Default for Active {
    fn default() -> (active: Active)
        ensures
            active == (Active { active: false, just_resumed: false }),
    {
        Active { active: false, just_resumed: false }
    }
}

impl Active {
    /// A session starts active: it is launched from the VT that it runs on, and
    /// the activation has already happened.
    pub fn started() -> (active: Active)
        ensures
            active == (Active { active: true, just_resumed: false }),
    {
        Active { active: true, just_resumed: false }
    }

    pub open spec fn after(self, event: SessionEvent) -> Active {
        match event {
            SessionEvent::Pause => Active { active: false, ..self },
            SessionEvent::Activate => Active { active: true, just_resumed: true },
        }
    }

    pub fn notify(&mut self, event: SessionEvent)
        ensures
            *final(self) == old(self).after(event),
    {
        match event {
            SessionEvent::Pause => {
                self.active = false;
            },
            SessionEvent::Activate => {
                self.active = true;
                self.just_resumed = true;
            },
        }
    }

    /// Whether the session has come back since this was last asked.
    pub fn take_resumed(&mut self) -> (resumed: bool)
        ensures
            resumed == old(self).just_resumed,
            *final(self) == (Active { just_resumed: false, ..*old(self) }),
    {
        let resumed: bool = self.just_resumed;
        self.just_resumed = false;
        resumed
    }
}

/// The modifier that stands for none, as `DRM_FORMAT_MOD_INVALID` writes it.
pub const INVALID_MODIFIER: u64 = 0x00ff_ffff_ffff_ffff;

/// Whether a buffer's framebuffer is added with the `MODIFIERS` flag: exactly
/// where the buffer carries a real modifier. The invalid one counts as none,
/// also for a buffer that was asked for with an explicit one.
pub fn framebuffer_flags(modifier: Option<u64>) -> (modifiers: bool)
    ensures
        modifiers == (modifier is Some && modifier->Some_0 != INVALID_MODIFIER),
{
    match modifier {
        Some(modifier) => modifier != INVALID_MODIFIER,
        None => false,
    }
}

/// What went wrong with a device, as far as it matters.
#[derive(Debug, Clone, Copy, PartialEq, Eq, Structural)]
pub enum Fault {
    PermissionDenied,
    NotConnected,
    Other,
}

/// What to do once a frame was, or was not, put on screen.
#[derive(Debug, Clone, Copy, PartialEq, Eq, Structural)]
pub enum Presented {
    Shown,
    /// The display is not ours right now.
    Paused,
    Failed,
}

/// Which of the two scanout buffers is on screen.
#[derive(Debug, Clone, Copy, PartialEq, Eq, Structural)]
pub struct Drm {
    pub front: usize,
}

impl Drm {
    pub open spec fn valid(self) -> bool {
        self.front < 2
    }

    pub fn new() -> (drm: Drm)
        ensures
            drm == (Drm { front: 0 }),
            drm.valid(),
    {
        Drm { front: 0 }
    }

    /// The buffer to draw into: never the one that is being scanned out.
    pub fn back(&self) -> (back: usize)
        requires
            self.valid(),
        ensures
            back == 1 - self.front,
            back < 2,
            back != self.front,
    {
        1 - self.front
    }

    /// Whether a fault means that the session simply does not own the hardware.
    ///
    /// Access is revoked the instant a VT switch begins, and the notification
    /// arrives later: every frame in between fails, and it is not a fault.
    pub fn is_revoked(fault: Fault) -> (b: bool)
        ensures
            b == (fault == Fault::PermissionDenied || fault == Fault::NotConnected),
    {
        match fault {
            Fault::PermissionDenied => true,
            Fault::NotConnected => true,
            Fault::Other => false,
        }
    }

    /// Take note of how showing the back buffer went. Only a frame that was
    /// shown makes that buffer the front one.
    pub fn present(&mut self, fault: Option<Fault>, active: &mut Active) -> (outcome: Presented)
        requires
            old(self).valid(),
        ensures
            final(self).valid(),
            fault is None ==> outcome == Presented::Shown && final(self).front == 1 - old(
                self,
            ).front && *final(active) == *old(active),
            fault is Some && (fault->Some_0 == Fault::PermissionDenied || fault->Some_0
                == Fault::NotConnected) ==> outcome == Presented::Paused && *final(self) == *old(
                self,
            ) && *final(active) == (Active { active: false, ..*old(active) }),
            fault == Some(Fault::Other) ==> outcome == Presented::Failed && *final(self) == *old(
                self,
            ) && *final(active) == *old(active),
    {
        match fault {
            None => {
                self.front = 1 - self.front;
                Presented::Shown
            },
            Some(fault) => {
                if Drm::is_revoked(fault) {
                    active.active = false;
                    Presented::Paused
                } else {
                    Presented::Failed
                }
            },
        }
    }
}

/// A connector of a DRM device.
#[derive(Debug, PartialEq)]
pub struct Connector {
    pub name: String,
    pub connected: bool,
    /// Width, height and refresh of each advertised mode.
    pub modes: Vec<(u16, u16, u32)>,
}

/// A DRM device as found, with whatever could be read from it.
#[derive(Debug, PartialEq)]
pub struct Card {
    pub path: String,
    pub connectors: Vec<Connector>,
    /// Why the device could not be interrogated, if it could not be.
    pub error: Option<String>,
}

/// How the devices were reached.
#[derive(Debug, PartialEq)]
pub enum Access {
    /// Through a session, with this seat.
    Session(String),
    /// Directly, because no session could be taken. Carries the reason.
    Direct(String),
}

/// Which output to drive: the first that is connected and has a mode. Its first
/// mode is the preferred one.
pub fn pick_output(connectors: &[Connector]) -> (found: Option<usize>)
    ensures
        match found {
            Some(i) => {
                &&& i < connectors@.len()
                &&& drivable(connectors@[i as int])
                &&& forall|k: int| 0 <= k < i ==> !drivable(#[trigger] connectors@[k])
            },
            None => forall|k: int|
                0 <= k < connectors@.len() ==> !drivable(#[trigger] connectors@[k]),
        },
{
    for i in 0..connectors.len()
        invariant
            forall|k: int| 0 <= k < i ==> !drivable(#[trigger] connectors@[k]),
    {
        if connectors[i].connected && connectors[i].modes.len() > 0 {
            return Some(i);
        }
    }
    None
}

pub open spec fn drivable(connector: Connector) -> bool {
    connector.connected && connector.modes@.len() > 0
}

/// Which CRTC drives a connector: the one that does already, so that what is
/// saved and what is restored is the same hardware, and else the first.
pub fn pick_crtc(current: Option<u32>, crtcs: &[u32]) -> (crtc: Option<u32>)
    ensures
        crtc == if current is Some {
            current
        } else if crtcs@.len() > 0 {
            Some(crtcs@[0])
        } else {
            None
        },
{
    match current {
        Some(crtc) => Some(crtc),
        None => {
            if crtcs.len() > 0 {
                Some(crtcs[0])
            } else {
                None
            }
        },
    }
}

/// Whether a node of `/dev/dri` can drive a display: `renderD*` can render, but
/// has nowhere to put the picture.
pub open spec fn drives_displays(name: Seq<char>) -> bool {
    chars::starts(name, "card"@)
}

pub open spec fn device_scores(names: Seq<Seq<char>>) -> Seq<Option<i32>> {
    Seq::new(
        names.len(),
        |i: int|
            if drives_displays(names[i]) {
                Some(0i32)
            } else {
                None
            },
    )
}

/// The mode-setting devices among the nodes of `/dev/dri`, in the order of their
/// names, as indices into the list of nodes.
pub fn drm_devices(names: &[String]) -> (order: Vec<usize>)
    ensures
        sort::is_ranking(order@, device_scores(chars::views(names@)), chars::views(names@)),
{
    let prefix: Vec<char> = chars::chars_of("card");
    let mut scores: Vec<Option<i32>> = Vec::new();
    let mut texts: Vec<Vec<char>> = Vec::new();
    for i in 0..names.len()
        invariant
            prefix@ == "card"@,
            scores@.len() == i,
            texts@.len() == i,
            forall|k: int| 0 <= k < i ==> (#[trigger] texts@[k])@ == names@[k]@,
            forall|k: int|
                0 <= k < i ==> #[trigger] scores@[k] == device_scores(chars::views(names@))[k],
    {
        let name: Vec<char> = chars::chars_of(names[i].as_str());
        if chars::starts_with(&name, &prefix) {
            scores.push(Some(0));
        } else {
            scores.push(None);
        }
        texts.push(name);
    }
    assert(scores@ =~= device_scores(chars::views(names@)));
    assert(chars::texts(texts@) =~= chars::views(names@));
    sort::ranking(&scores, &texts)
}

/// The devices that are listed are those whose names begin with `card`, every one
/// of them once, in the order of their names.
pub proof fn every_card_is_listed_by_name(
    names: Seq<Seq<char>>,
    order: Seq<usize>,
    k: usize,
    i: int,
    j: int,
)
    requires
        sort::is_ranking(order, device_scores(names), names),
        k < names.len(),
        0 <= i < j < order.len(),
    ensures
        order.contains(k) <==> chars::starts(names[k as int], "card"@),
        order[i] != order[j],
        !chars::before(names[order[j] as int], names[order[i] as int]),
{
    let scores = device_scores(names);
    assert(scores[k as int] is Some == drives_displays(names[k as int]));
    if order.contains(k) {
        let n = order.index_of(k);
        assert(scores[order[n] as int] is Some);
    }
    assert(scores[order[i] as int] is Some && scores[order[j] as int] is Some);
    assert(sort::precedes(
        sort::ranked_by(order[i], scores, names),
        sort::ranked_by(order[j], scores, names),
    ));
    chars::before_is_total(names[order[i] as int], names[order[j] as int]);
}

/// The function keys name the terminals from the first on, each the next; no
/// other key names one.
pub proof fn each_function_key_names_the_next_terminal(code: u32)
    ensures
        terminal_of(KEY_F1) == Some(1i32),
        KEY_F1 <= code < KEY_F10 ==> terminal_of(code) is Some && terminal_of(
            (code + 1) as u32,
        ) is Some && terminal_of((code + 1) as u32)->Some_0 == terminal_of(code)->Some_0 + 1,
        terminal_of(KEY_F11) is Some && terminal_of(KEY_F11)->Some_0 == terminal_of(
            KEY_F10,
        )->Some_0 + 1,
        terminal_of(KEY_F12) is Some && terminal_of(KEY_F12)->Some_0 == terminal_of(
            KEY_F11,
        )->Some_0 + 1,
        terminal_of(code) is Some ==> KEY_F1 <= code <= KEY_F10 || code == KEY_F11 || code
            == KEY_F12,
        terminal_of(code) is Some ==> !is_ctrl(code) && !is_alt(code),
{
}

/// Each axis is told how far it moved, and nothing where it did not; a finger that
/// has stopped moving along an axis has lifted from it, and only a finger has.
pub proof fn each_axis_is_told_of_its_own(scroll: Scroll)
    ensures
        scroll.horizontal.rank() != 0 ==> scroll.across().value == Some(scroll.horizontal)
            && !scroll.across().stop,
        scroll.vertical.rank() != 0 ==> scroll.down().value == Some(scroll.vertical)
            && !scroll.down().stop,
        scroll.horizontal.rank() == 0 ==> scroll.across().value is None && (scroll.across().stop
            <==> scroll.source == ScrollSource::Finger),
        scroll.vertical.rank() == 0 ==> scroll.down().value is None && (scroll.down().stop
            <==> scroll.source == ScrollSource::Finger),
        scroll.v120 is None ==> scroll.across().v120 is None && scroll.down().v120 is None,
        scroll.v120 matches Some((x, y)) ==> {
            &&& x.rank() != 0 ==> scroll.across().v120 == Some(x)
            &&& y.rank() != 0 ==> scroll.down().v120 == Some(y)
            &&& x.rank() == 0 ==> scroll.across().v120 is None
            &&& y.rank() == 0 ==> scroll.down().v120 is None
        },
{
}

/// The keys that were pressed are noted in their order, and none that was
/// released: events in two goes give what both give, one after the other.
pub proof fn every_press_is_noted(a: Seq<InputEvent>, b: Seq<InputEvent>, code: u32)
    ensures
        presses(a + b) == presses(a) + presses(b),
        presses(seq![InputEvent::Key { code, pressed: true }]) == seq![code],
        presses(seq![InputEvent::Key { code, pressed: false }]) == Seq::<u32>::empty(),
        presses(seq![InputEvent::Button { code, pressed: true }]) == Seq::<u32>::empty(),
        presses(Seq::empty()) == Seq::<u32>::empty(),
    decreases b.len(),
{
    let pressed = seq![InputEvent::Key { code, pressed: true }];
    let released = seq![InputEvent::Key { code, pressed: false }];
    let clicked = seq![InputEvent::Button { code, pressed: true }];
    assert(pressed.drop_last() =~= Seq::<InputEvent>::empty());
    assert(released.drop_last() =~= Seq::<InputEvent>::empty());
    assert(clicked.drop_last() =~= Seq::<InputEvent>::empty());
    assert(presses(Seq::<InputEvent>::empty()) == Seq::<u32>::empty());
    assert(Seq::<u32>::empty().push(code) =~= seq![code]);
    if b.len() == 0 {
        assert(a + b =~= a);
        assert(presses(a) + presses(b) =~= presses(a));
    } else {
        every_press_is_noted(a, b.drop_last(), code);
        assert((a + b).drop_last() =~= a + b.drop_last());
        assert((a + b).last() == b.last());
        assert(presses(a + b) =~= presses(a) + presses(b));
    }
}

} // verus!
