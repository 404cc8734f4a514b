//! Transfer-completion feedback: when to play the sound and when to send a
//! desktop notification.

use crate::types::TransferState;
use vstd::prelude::*;

verus! {

/// What feedback to give when a transfer reaches a given state, factoring in
/// the user's notification settings. `None` means stay silent (transfer is
/// still running, paused, or was cancelled by the user).
#[derive(Debug, Clone, PartialEq, Eq)]
pub struct CompletionPlan {
    pub play_sound: bool,
    pub show_desktop: bool,
    pub success: bool,
    pub title: &'static str,
}

/// Whether `r` is the feedback for a transfer in this state.
pub open spec fn is_plan(
    r: Option<CompletionPlan>,
    state: TransferState,
    sound_on: bool,
    desktop_on: bool,
) -> bool {
    &&& (r is Some) == (state is Done || state is Failed)
    &&& r matches Some(p) ==> {
        &&& p.success == (state is Done)
        &&& p.play_sound == (sound_on && state is Done)
        &&& p.show_desktop == desktop_on
        &&& p.title@ == if state is Done {
            "Transfer complete"@
        } else {
            "Transfer failed"@
        }
    }
}

/// A transfer gives feedback once it is done or failed, and in no other state:
/// not when the user cancelled it. The sound is for success alone, and only
/// where it is on. A notification comes for both wherever it is on, whether or
/// not there is a sound. The two are told apart.
pub proof fn law_completion(
    r: Option<CompletionPlan>,
    state: TransferState,
    sound_on: bool,
    desktop_on: bool,
)
    requires
        is_plan(r, state, sound_on, desktop_on),
    ensures
        state is Cancelled || !state.terminal() ==> r is None,
        state is Done ==> r is Some && r->0.success && r->0.play_sound == sound_on
            && r->0.show_desktop == desktop_on && r->0.title@ == "Transfer complete"@,
        state is Failed ==> r is Some && !r->0.success && !r->0.play_sound && r->0.show_desktop
            == desktop_on && r->0.title@ == "Transfer failed"@,
{
}

/// Only the success chime is shipped; failures notify silently.
pub fn completion_plan(state: TransferState, sound_on: bool, desktop_on: bool) -> (r: Option<
    CompletionPlan,
>)
    ensures
        is_plan(r, state, sound_on, desktop_on),
{
    let success = match state {
        TransferState::Done => true,
        TransferState::Failed => false,
        _ => return None,
    };
    Some(
        CompletionPlan {
            play_sound: sound_on && success,
            show_desktop: desktop_on,
            success,
            title: if success {
                "Transfer complete"
            } else {
                "Transfer failed"
            },
        },
    )
}

} // verus!
