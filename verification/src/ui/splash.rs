//! The splash window shown briefly while the program starts.

use crate::text::{decimal, law_digits_read_back, number_in, parse_number};
use vstd::prelude::*;

verus! {

pub const DEFAULT_DURATION_MS: u64 = 1200;

/// How long the splash window is shown, in milliseconds.
pub open spec fn shown_for(setting: Option<Seq<char>>) -> u64 {
    match setting {
        Some(s) => match number_in(s, 10, u64::MAX as nat) {
            Some(n) => n as u64,
            None => DEFAULT_DURATION_MS,
        },
        None => DEFAULT_DURATION_MS,
    }
}

/// A setting that is a number is the time, nought among them; without one, and
/// with anything else, it is 1200 milliseconds.
pub proof fn law_shown_for(n: u64, other: Seq<char>)
    ensures
        shown_for(Some(decimal(n as nat))) == n,
        shown_for(None) == 1200,
        number_in(other, 10, u64::MAX as nat) is None ==> shown_for(Some(other)) == 1200,
{
    law_digits_read_back(n as nat, 10, u64::MAX as nat);
}

/// Splash display time in milliseconds; a setting that is a number overrides
/// it (0 disables).
pub fn duration(setting: Option<&str>) -> (r: u64)
    ensures
        r == shown_for(
            match setting {
                Some(s) => Some(s@),
                None => None,
            },
        ),
{
    match setting {
        Some(s) => match parse_number(s, 10, u64::MAX) {
            Some(n) => n,
            None => DEFAULT_DURATION_MS,
        },
        None => DEFAULT_DURATION_MS,
    }
}

} // verus!
