//! What the loop of a session on the tty decides, turn by turn.
//!
//! The loop polls the session, reads what the devices report, draws, and shows
//! the result. Which of these it does in a turn, and what becomes of each event,
//! stands here.

use vstd::prelude::*;

use crate::bindings;
use crate::bindings::{Binding, Keysym, ModKey, ModifiersState};
use crate::number::Number;
use crate::tty;
use crate::tty::{Active, Chord, Input, Scroll};

verus! {

/// What a turn does.
#[derive(Debug, Clone, Copy, PartialEq, Eq, Structural)]
pub enum Turn {
    /// Another VT has the display: nothing is drawn, and no input is read.
    Wait,
    /// Draw, and before that open the devices again where they were taken away.
    Draw { reopen: bool },
}

/// Whether a session is over, having run so many milliseconds of a limit in
/// seconds; none is no limit.
pub fn is_over(elapsed: u64, seconds: u64) -> (over: bool)
    ensures
        over == (seconds > 0 && elapsed >= seconds * 1000),
{
    seconds > 0 && elapsed as u128 >= seconds as u128 * 1000
}

/// Begin a turn, once the session has said whether it owns the display.
pub fn begin(active: &mut Active) -> (turn: Turn)
    ensures
        !old(active).active ==> turn == Turn::Wait && *final(active) == *old(active),
        old(active).active ==> turn == (Turn::Draw { reopen: old(active).just_resumed })
            && *final(active) == (Active { active: true, just_resumed: false }),
{
    if !active.active {
        return Turn::Wait;
    }
    Turn::Draw { reopen: active.take_resumed() }
}

/// How long the watchdog waits: longer than the session may run. A session
/// without a limit has none.
pub fn watchdog_delay(seconds: u64) -> (delay: Option<u64>)
    requires
        seconds <= u64::MAX - 3,
    ensures
        delay == if seconds > 0 {
            Some((seconds + 3) as u64)
        } else {
            None
        },
{
    if seconds > 0 {
        Some(seconds + 3)
    } else {
        None
    }
}

/// Something that a session is to be told.
#[derive(Debug, Clone, Copy, PartialEq, Eq)]
pub enum Event {
    /// Switch to another terminal.
    SwitchVt(i32),
    Key { code: u32, pressed: bool },
    /// Move the pointer by all that was reported.
    Motion,
    Scroll(Scroll),
    Button { code: u32, pressed: bool },
}

/// What becomes of the first `n` keys, and the chord after them. A key that
/// switches terminals is not passed on.
pub open spec fn key_events(chord: Chord, keys: Seq<(u32, bool)>, n: int) -> (Chord, Seq<Event>)
    decreases n,
{
    if n <= 0 {
        (chord, Seq::empty())
    } else {
        let (before, events) = key_events(chord, keys, n - 1);
        let (code, pressed) = keys[n - 1];
        let armed = pressed && before.ctrl && before.alt && !tty::is_ctrl(code) && !tty::is_alt(
            code,
        );
        (
            before.after(code, pressed),
            match tty::terminal_of(code) {
                Some(vt) => if armed {
                    events.push(Event::SwitchVt(vt))
                } else {
                    events.push(Event::Key { code, pressed })
                },
                None => events.push(Event::Key { code, pressed }),
            },
        )
    }
}

/// Whether a scroll says something.
pub open spec fn scrolls(scroll: Scroll) -> bool {
    !(scroll.horizontal.rank() == 0 && scroll.vertical.rank() == 0 && scroll.source
        != tty::ScrollSource::Finger)
}

pub open spec fn scroll_events(list: Seq<Scroll>, n: int) -> Seq<Event>
    decreases n,
{
    if n <= 0 {
        Seq::empty()
    } else if scrolls(list[n - 1]) {
        scroll_events(list, n - 1).push(Event::Scroll(list[n - 1]))
    } else {
        scroll_events(list, n - 1)
    }
}

pub open spec fn button_events(buttons: Seq<(u32, bool)>) -> Seq<Event> {
    Seq::new(
        buttons.len(),
        |i: int| Event::Button { code: buttons[i].0, pressed: buttons[i].1 },
    )
}

/// What a session is told of what the devices reported: keys first, and motion
/// before buttons, so that a click lands where the pointer has just arrived.
pub open spec fn events_of(chord: Chord, input: tty::Drained) -> Seq<Event> {
    key_events(chord, input.keys, input.keys.len() as int).1 + (if input.motion.len() > 0 {
        seq![Event::Motion]
    } else {
        Seq::empty()
    }) + scroll_events(input.scrolls, input.scrolls.len() as int) + button_events(input.buttons)
}

/// What a session is told of what the devices reported; nothing, and the session
/// ends, where Escape was pressed.
pub fn dispatch(input: &Input, chord: &mut Chord) -> (events: Option<Vec<Event>>)
    ensures
        events is None <==> input@.escape,
        events is None ==> *final(chord) == *old(chord),
        events is Some ==> events->Some_0@ == events_of(*old(chord), input@) && *final(chord)
            == key_events(*old(chord), input@.keys, input@.keys.len() as int).0,
{
    if input.escape {
        return None;
    }
    let mut events: Vec<Event> = Vec::new();
    let ghost start = *chord;
    for i in 0..input.keys.len()
        invariant
            (*chord, events@) == key_events(start, input.keys@, i as int),
    {
        let (code, pressed) = input.keys[i];
        match chord.key(code, pressed) {
            Some(vt) => events.push(Event::SwitchVt(vt)),
            None => events.push(Event::Key { code, pressed }),
        }
    }
    let ghost typed = events@;
    if input.motion.len() > 0 {
        events.push(Event::Motion);
    }
    let ghost moved = events@;
    assert(moved + scroll_events(input.scrolls@, 0) =~= moved);
    for i in 0..input.scrolls.len()
        invariant
            events@ == moved + scroll_events(input.scrolls@, i as int),
    {
        let scroll: Scroll = input.scrolls[i];
        if !scroll.is_empty() {
            events.push(Event::Scroll(scroll));
            assert((moved + scroll_events(input.scrolls@, i as int)).push(Event::Scroll(scroll))
                =~= moved + scroll_events(input.scrolls@, i as int).push(Event::Scroll(scroll)));
        }
    }
    let ghost scrolled = events@;
    for i in 0..input.buttons.len()
        invariant
            events@ =~= scrolled + button_events(input.buttons@).take(i as int),
    {
        let (code, pressed) = input.buttons[i];
        events.push(Event::Button { code, pressed });
    }
    assert(events@ =~= events_of(start, input@));
    Some(events)
}

/// Whether the pointer moves at all, having been moved by so much in sum.
pub fn moves(by: (Number, Number)) -> (b: bool)
    ensures
        b == !(by.0.rank() == 0 && by.1.rank() == 0),
{
    !(by.0.is_zero() && by.1.is_zero())
}

/// The code by which the keyboard map knows a key: eight more than the device's.
pub fn keycode(code: u32) -> (keycode: u32)
    requires
        code <= u32::MAX - 8,
    ensures
        keycode == code + 8,
{
    code + 8
}

/// The binding that a key asks for, if it does: on the press, with the modifier
/// held. Such a key is not passed on, or the client would receive a letter with
/// every binding.
pub fn intercept(
    pressed: bool,
    mod_key: ModKey,
    modifiers: ModifiersState,
    sym: Keysym,
) -> (binding: Option<Binding>)
    ensures
        binding == if pressed && mod_key.is_held(modifiers) {
            bindings::bound(sym, modifiers.shift)
        } else {
            None
        },
{
    if pressed && mod_key.held(&modifiers) {
        bindings::binding_for(sym, modifiers.shift)
    } else {
        None
    }
}

/// How buffers of the GPU are offered to clients.
#[derive(Debug, Clone, Copy, PartialEq, Eq, Structural)]
pub enum Offer {
    /// Not at all: an offer that refuses every buffer is worse than none.
    Nothing,
    /// With the device that they belong to, from which a client learns which one
    /// to open.
    WithDevice,
    /// Without it.
    FormatsOnly,
}

pub fn offer(formats: usize, device: bool) -> (offer: Offer)
    ensures
        offer == if formats == 0 {
            Offer::Nothing
        } else if device {
            Offer::WithDevice
        } else {
            Offer::FormatsOnly
        },
{
    if formats == 0 {
        Offer::Nothing
    } else if device {
        Offer::WithDevice
    } else {
        Offer::FormatsOnly
    }
}

/// Where an event belongs among those of one drain: keys first, motion before
/// scrolling, and buttons last.
pub open spec fn turn_of(event: Event) -> int {
    match event {
        Event::SwitchVt(_) | Event::Key { .. } => 0,
        Event::Motion => 1,
        Event::Scroll(_) => 2,
        Event::Button { .. } => 3,
    }
}

proof fn lemma_key_turns(chord: Chord, keys: Seq<(u32, bool)>, n: int)
    requires
        0 <= n <= keys.len(),
    ensures
        ({
            let events = key_events(chord, keys, n).1;
            &&& events.len() == n
            &&& forall|k: int|
                0 <= k < n ==> turn_of(#[trigger] events[k]) == 0 && (events[k] is Key
                    ==> events[k] == Event::Key { code: keys[k].0, pressed: keys[k].1 })
                    && (events[k] is SwitchVt ==> keys[k].1 && tty::terminal_of(keys[k].0) == Some(
                    events[k]->SwitchVt_0,
                ))
        }),
    decreases n,
{
    if n > 0 {
        lemma_key_turns(chord, keys, n - 1);
    }
}

proof fn lemma_scroll_turns(list: Seq<Scroll>, n: int)
    requires
        0 <= n <= list.len(),
    ensures
        forall|k: int|
            0 <= k < scroll_events(list, n).len() ==> (#[trigger] scroll_events(list, n)[k])
                is Scroll,
    decreases n,
{
    if n > 0 {
        lemma_scroll_turns(list, n - 1);
    }
}

/// A session is told of keys, motion, scrolling and buttons in that order, so that
/// a click lands where the pointer has just arrived. Every key is passed on in its
/// place, unless its press names a terminal to switch to; and every button.
pub proof fn clicks_land_where_the_pointer_arrived(chord: Chord, input: tty::Drained)
    ensures
        ({
            let events = events_of(chord, input);
            let (keys, buttons) = (input.keys, input.buttons);
            &&& forall|p: int, q: int|
                0 <= p < q < events.len() ==> turn_of(#[trigger] events[p]) <= turn_of(
                    #[trigger] events[q],
                )
            &&& events.len() >= keys.len() + buttons.len()
            &&& forall|k: int|
                0 <= k < keys.len() ==> {
                    ||| #[trigger] events[k] == Event::Key { code: keys[k].0, pressed: keys[k].1 }
                    ||| events[k] is SwitchVt && keys[k].1 && tty::terminal_of(keys[k].0) == Some(
                        events[k]->SwitchVt_0,
                    )
                }
            &&& forall|k: int|
                0 <= k < buttons.len() ==> #[trigger] events[events.len() - buttons.len() + k]
                    == Event::Button { code: buttons[k].0, pressed: buttons[k].1 }
            &&& input.motion.len() > 0 <==> events.contains(Event::Motion)
        }),
{
    let keys = key_events(chord, input.keys, input.keys.len() as int).1;
    let motion = if input.motion.len() > 0 {
        seq![Event::Motion]
    } else {
        Seq::empty()
    };
    let scrolled = scroll_events(input.scrolls, input.scrolls.len() as int);
    let buttons = button_events(input.buttons);
    let events = events_of(chord, input);
    lemma_key_turns(chord, input.keys, input.keys.len() as int);
    lemma_scroll_turns(input.scrolls, input.scrolls.len() as int);
    let a = keys.len() as int;
    let b = a + motion.len();
    let c = b + scrolled.len();
    assert forall|q: int| 0 <= q < events.len() implies turn_of(#[trigger] events[q]) == if q < a {
        0int
    } else if q < b {
        1
    } else if q < c {
        2
    } else {
        3
    } by {
        if q < a {
            assert(events[q] == keys[q]);
        } else if q < b {
            assert(events[q] == motion[q - a]);
        } else if q < c {
            assert(events[q] == scrolled[q - b]);
        } else {
            assert(events[q] == buttons[q - c]);
        }
    }
    if input.motion.len() > 0 {
        assert(events[a] == motion[0]);
    }
    assert forall|k: int| 0 <= k < input.keys.len() implies {
        ||| #[trigger] events[k] == Event::Key { code: input.keys[k].0, pressed: input.keys[k].1 }
        ||| events[k] is SwitchVt && input.keys[k].1 && tty::terminal_of(input.keys[k].0) == Some(
            events[k]->SwitchVt_0,
        )
    } by {
        assert(events[k] == keys[k]);
    }
}

/// A session that lost the display draws again only once it has been told that
/// it has it back, and then opens the devices again.
pub proof fn a_paused_session_waits(active: Active, event: tty::SessionEvent)
    requires
        !active.active,
    ensures
        active.after(event).active <==> event == tty::SessionEvent::Activate,
        active.after(event).active ==> active.after(event).just_resumed,
{
}

proof fn lemma_key(chord: Chord, keys: Seq<(u32, bool)>, n: int, i: int)
    requires
        0 <= i < n <= keys.len(),
    ensures
        key_events(chord, keys, n).1.len() == n,
        key_events(chord, keys, n).1[i] == key_events(chord, keys, i + 1).1.last(),
    decreases n,
{
    if n > 1 {
        lemma_key(chord, keys, n - 1, if i < n - 1 {
            i
        } else {
            0
        });
    } else {
        assert(key_events(chord, keys, 0).1.len() == 0);
    }
}

/// A function key that is pressed while Ctrl and Alt are held switches terminals
/// and is not passed on; any other key is passed on as it is.
pub proof fn a_chord_switches_terminals(chord: Chord, keys: Seq<(u32, bool)>, i: int)
    requires
        0 <= i < keys.len(),
    ensures
        ({
            let events = key_events(chord, keys, keys.len() as int).1;
            let held = key_events(chord, keys, i).0;
            let (code, pressed) = keys[i];
            if pressed && held.ctrl && held.alt && tty::terminal_of(code) is Some {
                events[i] == Event::SwitchVt(tty::terminal_of(code)->Some_0)
            } else {
                events[i] == Event::Key { code, pressed }
            }
        }),
{
    lemma_key(chord, keys, keys.len() as int, i);
}

/// A modifier that was pressed and not released since is held, and one that was
/// released is not.
pub proof fn a_pressed_modifier_is_held(chord: Chord, keys: Seq<(u32, bool)>, i: int, n: int)
    requires
        0 <= i < n <= keys.len(),
    ensures
        tty::is_ctrl(keys[i].0) && (forall|k: int| i < k < n ==> !tty::is_ctrl((#[trigger] keys[k]).0))
            ==> key_events(chord, keys, n).0.ctrl == keys[i].1,
        tty::is_alt(keys[i].0) && (forall|k: int| i < k < n ==> !tty::is_alt((#[trigger] keys[k]).0))
            ==> key_events(chord, keys, n).0.alt == keys[i].1,
    decreases n,
{
    if i < n - 1 {
        a_pressed_modifier_is_held(chord, keys, i, n - 1);
        if forall|k: int| i < k < n ==> !tty::is_ctrl((#[trigger] keys[k]).0) {
            assert(!tty::is_ctrl(keys[n - 1].0));
        }
        if forall|k: int| i < k < n ==> !tty::is_alt((#[trigger] keys[k]).0) {
            assert(!tty::is_alt(keys[n - 1].0));
        }
    }
}

/// Of the scrolls, those that say something are passed on, in their order, and the
/// others are not: a list that is cut in two gives what its parts give.
pub proof fn scrolls_that_say_something_are_passed_on(
    a: Seq<Scroll>,
    b: Seq<Scroll>,
    scroll: Scroll,
)
    ensures
        scroll_events(a + b, (a + b).len() as int) == scroll_events(a, a.len() as int)
            + scroll_events(b, b.len() as int),
        scroll_events(seq![scroll], 1) == if scroll.says_nothing() {
            Seq::empty()
        } else {
            seq![Event::Scroll(scroll)]
        },
        scroll_events(Seq::empty(), 0) == Seq::<Event>::empty(),
    decreases b.len(),
{
    assert(scroll_events(seq![scroll], 0) == Seq::<Event>::empty());
    let empty = Seq::<Event>::empty();
    assert(empty.push(Event::Scroll(scroll)) =~= seq![Event::Scroll(scroll)]);
    lemma_scrolls(a, b, a.len() as int);
    if b.len() == 0 {
        assert(a + b =~= a);
        assert(scroll_events(a, a.len() as int) + empty =~= scroll_events(a, a.len() as int));
    } else {
        let less = b.drop_last();
        scrolls_that_say_something_are_passed_on(a, less, scroll);
        let all = a + b;
        let n = all.len() as int;
        assert(all =~= (a + less).push(b.last()));
        lemma_scrolls(a + less, seq![b.last()], n - 1);
        assert((a + less) + seq![b.last()] =~= all);
        lemma_scrolls(less, seq![b.last()], b.len() - 1);
        assert(less + seq![b.last()] =~= b);
        assert(all[n - 1] == b.last());
        assert(scroll_events(all, n) =~= scroll_events(a, a.len() as int) + scroll_events(
            b,
            b.len() as int,
        ));
    }
}

proof fn lemma_scrolls(a: Seq<Scroll>, b: Seq<Scroll>, n: int)
    requires
        0 <= n <= a.len(),
    ensures
        scroll_events(a + b, n) == scroll_events(a, n),
    decreases n,
{
    if n > 0 {
        lemma_scrolls(a, b, n - 1);
        assert((a + b)[n - 1] == a[n - 1]);
    }
}

} // verus!
