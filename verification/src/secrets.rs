//! Secret storage for saved-site passwords and key passphrases, which the OS
//! keyring holds.

use vstd::prelude::*;
use vstd::string::*;

verus! {

/// The service that the program's secrets are filed under.
pub const SERVICE: &'static str = "io.github.linuxscp.LinuxSCP";

/// What storing a secret does to the keyring.
#[derive(Debug, Clone, Copy, PartialEq, Eq, Structural)]
pub enum StoreStep {
    /// An empty secret clears what is stored.
    Clear,
    Write,
}

/// What storing a secret does.
pub open spec fn stored_by(secret: Seq<char>) -> StoreStep {
    if secret.len() == 0 {
        StoreStep::Clear
    } else {
        StoreStep::Write
    }
}

/// Whether a secret is gone after this.
pub open spec fn gone_after(outcome: Deletion) -> bool {
    !(outcome is Failed)
}

/// Every secret that holds something is written, and storing an empty one
/// leaves none behind. A secret that was deleted or never there is gone; one
/// that could not be deleted is not.
pub proof fn law_secrets(secret: Seq<char>)
    ensures
        secret.len() > 0 ==> stored_by(secret) is Write,
        stored_by(Seq::empty()) is Clear,
        gone_after(Deletion::Deleted),
        gone_after(Deletion::Absent),
        !gone_after(Deletion::Failed),
{
}

/// What storing this secret does.
pub fn store_step(secret: &str) -> (r: StoreStep)
    ensures
        r == stored_by(secret@),
{
    if secret.unicode_len() == 0 {
        StoreStep::Clear
    } else {
        StoreStep::Write
    }
}

/// How deleting a secret came out.
#[derive(Debug, Clone, Copy, PartialEq, Eq, Structural)]
pub enum Deletion {
    Deleted,
    /// There was none.
    Absent,
    Failed,
}

/// Whether a secret is gone: it is no error if there was none.
pub fn is_gone(outcome: Deletion) -> (r: bool)
    ensures
        r == gone_after(outcome),
{
    !matches!(outcome, Deletion::Failed)
}

} // verus!
