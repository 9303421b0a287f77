//! Recovery pacing and the requests that the controller may raise.

use vstd::prelude::*;

verus! {

#[derive(Debug, Clone, Copy)]
pub enum RecoveryState {
    Normal,
    Recovery { ticks: u32 },
    Probing,
}

#[derive(Debug, Clone, Copy, PartialEq, Eq)]
pub enum RecoveryAction {
    NoAction,
    Stop,
    Resume,
    Interrupt,
}

#[derive(Debug, Clone, Copy, PartialEq, Eq)]
pub enum ActionRequest {
    Continue,
    Pause,
    Interrupt,
    Halt,
}

/// One tick of recovery: the state that follows `s`, and the action it asks for.
pub open spec fn recovery_step(s: RecoveryState) -> (RecoveryState, RecoveryAction) {
    match s {
        RecoveryState::Recovery { ticks } => if ticks >= 99 {
            (RecoveryState::Probing, RecoveryAction::Resume)
        } else {
            (RecoveryState::Recovery { ticks: (ticks + 1) as u32 }, RecoveryAction::NoAction)
        },
        _ => (s, RecoveryAction::NoAction),
    }
}

/// The state after `n` ticks from `s`.
pub open spec fn recovery_after(s: RecoveryState, n: nat) -> RecoveryState
    decreases n,
{
    if n == 0 {
        s
    } else {
        recovery_step(recovery_after(s, (n - 1) as nat)).0
    }
}

impl RecoveryState {
    /// Advances recovery by one tick. A recovery that has waited 99 ticks
    /// turns to probing and asks to resume; other states stay as they are.
    pub fn tick(&mut self) -> (a: RecoveryAction)
        ensures
            (*final(self), a) == recovery_step(*old(self)),
    {
        match *self {
            RecoveryState::Recovery { ticks } => {
                if ticks >= 99 {
                    *self = RecoveryState::Probing;
                    RecoveryAction::Resume
                } else {
                    *self = RecoveryState::Recovery { ticks: ticks + 1 };
                    RecoveryAction::NoAction
                }
            },
            _ => RecoveryAction::NoAction,
        }
    }
}

proof fn lemma_recovery_count(k: nat)
    requires
        k <= 99,
    ensures
        recovery_after(RecoveryState::Recovery { ticks: 0 }, k) == (RecoveryState::Recovery {
            ticks: k as u32,
        }),
    decreases k,
{
    if k > 0 {
        lemma_recovery_count((k - 1) as nat);
    }
}

/// A recovery started from zero ticks asks for nothing for 99 ticks, and
/// its hundredth tick turns it to probing and asks to resume.
pub proof fn recovery_resumes_on_hundredth_tick(k: nat)
    requires
        k <= 99,
    ensures
        recovery_after(RecoveryState::Recovery { ticks: 0 }, k) == (RecoveryState::Recovery {
            ticks: k as u32,
        }),
        k < 99 ==> recovery_step(recovery_after(RecoveryState::Recovery { ticks: 0 }, k)).1
            == RecoveryAction::NoAction,
        recovery_step(recovery_after(RecoveryState::Recovery { ticks: 0 }, 99)) == (
        RecoveryState::Probing,
        RecoveryAction::Resume,
        ),
{
    lemma_recovery_count(k);
    lemma_recovery_count(99);
}

/// Normal operation and probing are left alone by ticks.
pub proof fn ticks_leave_other_states(s: RecoveryState)
    requires
        !(s is Recovery),
    ensures
        recovery_step(s) == (s, RecoveryAction::NoAction),
{
}

} // verus!
