//! Touch input: one finger drives the pointer at a time, and the codes the
//! host reports for the app's lifecycle.

use vstd::prelude::*;

verus! {

/// The app came to the foreground.
pub const LIFECYCLE_FOREGROUND: u32 = 0;
/// The app went to the background.
pub const LIFECYCLE_BACKGROUND: u32 = 1;
/// The app is about to end.
pub const LIFECYCLE_TERMINATE: u32 = 2;

/// What a touch event means for the single pointer the app sees.
#[derive(Copy, Clone, PartialEq, Eq, Debug)]
pub enum PointerAction {
    Down,
    Moved,
    Up,
    Ignore,
}

/// The phase of one touch event.
#[derive(Copy, Clone, PartialEq, Eq, Debug)]
pub enum Phase {
    Started,
    Moved,
    Ended,
    Cancelled,
}

/// Which finger, if any, currently drives the pointer.
#[derive(Debug)]
pub struct TouchTracker {
    active: Option<u64>,
}

impl Default for TouchTracker {
    /// A tracker at rest: no finger holds the gesture.
    fn default() -> (t: TouchTracker)
        ensures
            t.active() is None,
    {
        TouchTracker { active: None }
    }
}

/// One touch event for the tracker whose active finger is `active`: the
/// next active finger and what the pointer does. A touch starts the
/// gesture only when no finger holds it; only the finger holding it moves
/// or releases it, and cancelling releases it like lifting.
pub open spec fn touch_step(active: Option<u64>, id: u64, phase: Phase) -> (Option<u64>, PointerAction) {
    match phase {
        Phase::Started => if active is Some {
            (active, PointerAction::Ignore)
        } else {
            (Some(id), PointerAction::Down)
        },
        Phase::Moved => if active == Some(id) {
            (active, PointerAction::Moved)
        } else {
            (active, PointerAction::Ignore)
        },
        Phase::Ended | Phase::Cancelled => if active == Some(id) {
            (None, PointerAction::Up)
        } else {
            (active, PointerAction::Ignore)
        },
    }
}

impl TouchTracker {
    /// The finger that currently drives the pointer.
    pub closed spec fn active(&self) -> Option<u64> {
        self.active
    }

    /// Feeds one touch event and says what the pointer does.
    pub fn update(&mut self, id: u64, phase: Phase) -> (a: PointerAction)
        ensures
            (final(self).active(), a) == touch_step(old(self).active(), id, phase),
    {
        match phase {
            Phase::Started => {
                if self.active.is_some() {
                    return PointerAction::Ignore;
                }
                self.active = Some(id);
                PointerAction::Down
            },
            Phase::Moved => {
                if self.active == Some(id) {
                    PointerAction::Moved
                } else {
                    PointerAction::Ignore
                }
            },
            Phase::Ended | Phase::Cancelled => {
                if self.active == Some(id) {
                    self.active = None;
                    PointerAction::Up
                } else {
                    PointerAction::Ignore
                }
            },
        }
    }

    /// Frees the gesture, as when the surface is lost.
    pub fn reset(&mut self)
        ensures
            final(self).active() is None,
    {
        self.active = None;
    }
}

/// While one finger holds the gesture, every event of another finger is
/// ignored and changes nothing.
pub proof fn law_second_finger_is_ignored(held: u64, id: u64, phase: Phase)
    requires
        held != id,
    ensures
        touch_step(Some(held), id, phase) == (Some(held), PointerAction::Ignore),
{
}

/// From rest, a finger that goes down, moves and lifts produces down,
/// moved and up, and leaves the gesture free again.
pub proof fn law_press_move_release(id: u64)
    ensures
        touch_step(None, id, Phase::Started) == (Some(id), PointerAction::Down),
        touch_step(Some(id), id, Phase::Moved) == (Some(id), PointerAction::Moved),
        touch_step(Some(id), id, Phase::Ended) == (None::<u64>, PointerAction::Up),
        touch_step(Some(id), id, Phase::Cancelled) == (None::<u64>, PointerAction::Up),
{
}

/// The pointer only goes down from rest and only comes up to rest: a down
/// always takes the free gesture and an up always frees it.
pub proof fn law_down_and_up_bracket(active: Option<u64>, id: u64, phase: Phase)
    ensures
        ({
            let (next, a) = touch_step(active, id, phase);
            &&& a == PointerAction::Down ==> active is None && next == Some(id)
            &&& a == PointerAction::Up ==> active == Some(id) && next is None
            &&& a == PointerAction::Moved ==> active == Some(id) && next == active
            &&& a == PointerAction::Ignore ==> next == active
        }),
{
}

} // verus!
