//! Decoding of terminal input into the per-iteration reload decision.
//!
//! Once per loop iteration the supervisor polls the terminal with a zero
//! timeout.  If an event is pending it is read, reduced to an [`InputEvent`]
//! by the I/O layer, and decoded here into the tri-state [`ReloadDecision`].

use vstd::prelude::*;

verus! {

/// The operator's request for one loop iteration, decoded from pending
/// terminal input: do nothing, restart the child, or quit the supervisor.
#[derive(Clone, Copy, Debug, PartialEq, Eq, Structural)]
pub enum ReloadDecision {
    Idle,
    Reload,
    Quit,
}

/// One terminal input event, reduced to plain values.
///
/// A character key that was pressed carries its character and the exact
/// modifier set: `ctrl` and `shift` for those modifiers, `other` for any
/// further modifier (alt and the rest).  Every other event a terminal can
/// deliver (a key release or repeat, a non-character key, a resize, a paste)
/// is `Other`.
#[derive(Clone, Copy, Debug)]
pub enum InputEvent {
    CharPress { ch: char, ctrl: bool, shift: bool, other: bool },
    Other,
}

/// What one input event asks of the supervisor:
/// Ctrl-C or Ctrl-D (with no further modifier) quits, a plain or shifted
/// `r` reloads, and everything else is ignored.
pub open spec fn spec_decode(ev: InputEvent) -> ReloadDecision {
    match ev {
        InputEvent::CharPress { ch, ctrl, shift, other } => {
            if (ch == 'c' || ch == 'd') && ctrl && !shift && !other {
                ReloadDecision::Quit
            } else if (ch == 'r' || ch == 'R') && !ctrl && !other {
                ReloadDecision::Reload
            } else {
                ReloadDecision::Idle
            }
        },
        InputEvent::Other => ReloadDecision::Idle,
    }
}

/// Decode one pending input event.
pub fn decode(ev: &InputEvent) -> (d: ReloadDecision)
    ensures
        d == spec_decode(*ev),
{
    match ev {
        InputEvent::CharPress { ch, ctrl, shift, other } => {
            if (*ch == 'c' || *ch == 'd') && *ctrl && !*shift && !*other {
                ReloadDecision::Quit
            } else if (*ch == 'r' || *ch == 'R') && !*ctrl && !*other {
                ReloadDecision::Reload
            } else {
                ReloadDecision::Idle
            }
        },
        InputEvent::Other => ReloadDecision::Idle,
    }
}

/// The watcher's whole check: `None` stands for "no input pending" (the zero
/// timeout poll found nothing), and yields `Idle` without reading anything;
/// a pending event is decoded.
pub fn watch_decision(ev: &Option<InputEvent>) -> (d: ReloadDecision)
    ensures
        d == match *ev {
            Option::None => ReloadDecision::Idle,
            Option::Some(e) => spec_decode(e),
        },
{
    match ev {
        Option::None => ReloadDecision::Idle,
        Option::Some(e) => decode(e),
    }
}

/// The scoped raw-mode discipline: the watcher switches the terminal to raw
/// mode only if it was not already raw, and must switch it back (on normal
/// and abnormal exit alike) exactly when it was the one that switched it on.
pub fn raw_mode_restore_needed(was_raw: bool) -> (restore: bool)
    ensures
        restore == !was_raw,
{
    !was_raw
}

} // verus!
