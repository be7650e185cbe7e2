//! The handle of a task: what one who waits for the result does next.
use vstd::prelude::*;
use crate::record::CLAIMED;
use crate::record::NOT_CLAIMED;

verus! {

/// What one who waits does after a look at the state of the task.
#[derive(Clone, Copy, Debug, PartialEq, Eq)]
pub enum HandleAction {
    /// Work off the queue, then look again.
    Exhaust,
    /// Look again.
    Wait,
    /// Read the result.
    Read,
}

/// Where the state and the value of a task lie, and whether the first look at the
/// state has been taken.
#[derive(Clone, Copy, Debug, PartialEq, Eq)]
pub struct Handle {
    /// Where the state lies in the queue's buffer.
    pub state: usize,
    /// Where the value lies in the queue's buffer.
    pub value: usize,
    /// Whether the state has been looked at.
    pub looked: bool,
}

/// What a look at the state leads to: the first finds out whether to help, the later
/// ones wait for as long as the task is claimed.
pub open spec fn handle_action(looked: bool, state: u8) -> HandleAction {
    if !looked && state == NOT_CLAIMED {
        HandleAction::Exhaust
    } else if !looked || state == CLAIMED {
        HandleAction::Wait
    } else {
        HandleAction::Read
    }
}

impl Handle {
    /// The handle of the task whose state and value lie at these places.
    pub fn new(state: usize, value: usize) -> (r: Handle)
        ensures
            r == (Handle { state, value, looked: false }),
    {
        Handle { state, value, looked: false }
    }

    /// Decides after a look at the state.
    pub fn look(&mut self, state: u8) -> (r: HandleAction)
        ensures
            r == handle_action(old(self).looked, state),
            *final(self) == (Handle { looked: true, ..*old(self) }),
            final(self).looked,
            final(self).state == old(self).state,
            final(self).value == old(self).value,
    {
        let first: bool = !self.looked;
        self.looked = true;
        if first {
            if state == NOT_CLAIMED {
                return HandleAction::Exhaust;
            }
            return HandleAction::Wait;
        }
        if state == CLAIMED {
            return HandleAction::Wait;
        }
        HandleAction::Read
    }
}

/// A result is never read while the task is claimed, nor at the first look; the queue is
/// worked off at most once.
pub proof fn law_claimed_task_is_not_read(looked: bool, state: u8)
    ensures
        handle_action(looked, CLAIMED) == HandleAction::Wait,
        handle_action(false, state) != HandleAction::Read,
        handle_action(true, state) != HandleAction::Exhaust,
{
}

/// The first look leads to working off the queue exactly where nobody has claimed the task,
/// and otherwise to another look; each later one leads to another look for as long as the task
/// is claimed, and otherwise to the result.
pub proof fn law_look_leads_to(looked: bool, state: u8)
    ensures
        handle_action(looked, state) == HandleAction::Exhaust <==> !looked && state == 0,
        handle_action(looked, state) == HandleAction::Wait <==> (!looked && state != 0) || (looked
            && state == 1),
        handle_action(looked, state) == HandleAction::Read <==> looked && state != 1,
{
}

} // verus!
