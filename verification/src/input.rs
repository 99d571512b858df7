//! From input events to camera moves.
//!
//! The event source reports that the window was closed or that a key went
//! down. Closing the window and the escape key end the run; the four arrow
//! keys move the camera by one step; everything else is ignored.

use vstd::prelude::*;
use crate::camera::{down_of, left_of, right_of, up_of, GameObject, SPEED};

verus! {

/// A key as far as the camera cares.
#[derive(Clone, Copy, Debug, PartialEq, Eq, Structural)]
pub enum Key {
    Escape,
    Left,
    Up,
    Right,
    Down,
    /// Any other key.
    Other,
}

/// An event of the input source.
#[derive(Clone, Copy, Debug, PartialEq, Eq, Structural)]
pub enum InputEvent {
    /// The window was closed.
    Quit,
    /// A key went down.
    KeyDown(Key),
    /// Any other event.
    Other,
}

/// What an event asks for.
#[derive(Clone, Copy, Debug, PartialEq, Eq, Structural)]
pub enum Signal {
    Quit,
    MoveLeft,
    MoveUp,
    MoveRight,
    MoveDown,
}

/// The signal that an event gives, if it gives one.
pub open spec fn signal_of(event: InputEvent) -> Option<Signal> {
    match event {
        InputEvent::Quit => Some(Signal::Quit),
        InputEvent::KeyDown(Key::Escape) => Some(Signal::Quit),
        InputEvent::KeyDown(Key::Left) => Some(Signal::MoveLeft),
        InputEvent::KeyDown(Key::Up) => Some(Signal::MoveUp),
        InputEvent::KeyDown(Key::Right) => Some(Signal::MoveRight),
        InputEvent::KeyDown(Key::Down) => Some(Signal::MoveDown),
        InputEvent::KeyDown(Key::Other) => None,
        InputEvent::Other => None,
    }
}

/// Where a signal sends a camera at `p`. `Quit` sends it nowhere.
pub open spec fn target(p: (int, int), signal: Signal) -> (int, int) {
    match signal {
        Signal::Quit => p,
        Signal::MoveLeft => left_of(p),
        Signal::MoveUp => up_of(p),
        Signal::MoveRight => right_of(p),
        Signal::MoveDown => down_of(p),
    }
}

/// Whether a camera can be at `p`: both coordinates fit in 64 bits.
pub open spec fn reachable(p: (int, int)) -> bool {
    i64::MIN <= p.0 <= i64::MAX && i64::MIN <= p.1 <= i64::MAX
}

/// Where a camera at `p` is after a signal: at the signal's target, or
/// still at `p` if it cannot be there.
pub open spec fn after_signal(p: (int, int), signal: Signal) -> (int, int) {
    if reachable(target(p, signal)) {
        target(p, signal)
    } else {
        p
    }
}

/// Where a camera at `p` is after a run of events, and whether the run
/// asked to quit. Events are taken in order up to the first that asks to
/// quit; what comes after it is not looked at.
pub open spec fn after_events(p: (int, int), events: Seq<InputEvent>) -> ((int, int), bool)
    decreases events.len(),
{
    if events.len() == 0 {
        (p, false)
    } else {
        match signal_of(events.first()) {
            Some(Signal::Quit) => (p, true),
            Some(signal) => after_events(after_signal(p, signal), events.drop_first()),
            None => after_events(p, events.drop_first()),
        }
    }
}

/// The signal that an event gives, if it gives one.
pub fn to_signal(event: InputEvent) -> (signal: Option<Signal>)
    ensures
        signal == signal_of(event),
{
    match event {
        InputEvent::Quit => Some(Signal::Quit),
        InputEvent::KeyDown(key) => match key {
            Key::Escape => Some(Signal::Quit),
            Key::Left => Some(Signal::MoveLeft),
            Key::Up => Some(Signal::MoveUp),
            Key::Right => Some(Signal::MoveRight),
            Key::Down => Some(Signal::MoveDown),
            Key::Other => None,
        },
        InputEvent::Other => None,
    }
}

/// Lets the camera follow one signal. Returns whether the run goes on: it
/// does unless the signal is `Quit`.
pub fn follow(cam: &mut GameObject, signal: Signal) -> (running: bool)
    ensures
        running == (signal != Signal::Quit),
        final(cam).position() == after_signal(old(cam).position(), signal),
{
    match signal {
        Signal::Quit => {
            return false;
        },
        Signal::MoveLeft => {
            if cam.x >= i64::MIN + SPEED {
                cam.move_left();
            }
        },
        Signal::MoveUp => {
            if cam.y >= i64::MIN + SPEED {
                cam.move_up();
            }
        },
        Signal::MoveRight => {
            if cam.x <= i64::MAX - SPEED {
                cam.move_right();
            }
        },
        Signal::MoveDown => {
            if cam.y <= i64::MAX - SPEED {
                cam.move_down();
            }
        },
    }
    true
}

/// Lets the camera follow a run of events. Returns whether the run asked
/// to quit.
pub fn handle_events(cam: &mut GameObject, events: &Vec<InputEvent>) -> (quit: bool)
    ensures
        (final(cam).position(), quit) == after_events(old(cam).position(), events@),
{
    let ghost start = cam.position();
    let mut i: usize = 0;
    assert(events@.skip(0) =~= events@);
    while i < events.len()
        invariant
            i <= events.len(),
            start == old(cam).position(),
            after_events(cam.position(), events@.skip(i as int)) == after_events(start, events@),
        decreases events.len() - i,
    {
        let ghost rest = events@.skip(i as int);
        assert(rest.first() == events@[i as int]);
        assert(rest.drop_first() =~= events@.skip(i + 1));
        match to_signal(events[i]) {
            Some(signal) => {
                if !follow(cam, signal) {
                    return true;
                }
            },
            None => {},
        }
        i = i + 1;
    }
    false
}

/// A request to quit ends a run of events: what came before it is
/// followed, what comes after it changes nothing.
pub proof fn lemma_quit_ends_run(p: (int, int), before: Seq<InputEvent>, later: Seq<InputEvent>)
    requires
        !after_events(p, before).1,
    ensures
        after_events(p, before + seq![InputEvent::Quit] + later) == (
            after_events(p, before).0,
            true,
        ),
    decreases before.len(),
{
    let all = before + seq![InputEvent::Quit] + later;
    if before.len() == 0 {
        assert(all.first() == InputEvent::Quit);
    } else {
        assert(all.first() == before.first());
        assert(all.drop_first() =~= before.drop_first() + seq![InputEvent::Quit] + later);
        match signal_of(before.first()) {
            Some(Signal::Quit) => {},
            Some(signal) => {
                lemma_quit_ends_run(after_signal(p, signal), before.drop_first(), later);
            },
            None => {
                lemma_quit_ends_run(p, before.drop_first(), later);
            },
        }
    }
}

} // verus!
