//! Application settings: the auto-lock delay and its allowed range.

use vstd::prelude::*;

use crate::error::{AppError, AppResult};
use crate::text::{decimal_chars, push_decimal_chars};

verus! {

broadcast use vstd::string::group_string_axioms;

/// Five minutes.
pub const DEFAULT_AUTO_LOCK_SECS: u64 = 300;

/// Thirty seconds.
pub const MIN_AUTO_LOCK_SECS: u64 = 30;

/// Four hours.
pub const MAX_AUTO_LOCK_SECS: u64 = 14400;

/// The message for an auto-lock delay outside the allowed range.
pub open spec fn auto_lock_range_message() -> Seq<char> {
    "le delai d'auto-verrouillage doit etre compris entre "@ + decimal_chars(
        MIN_AUTO_LOCK_SECS as nat,
    ) + " et "@ + decimal_chars(MAX_AUTO_LOCK_SECS as nat) + " secondes"@
}

/// Accepts an auto-lock delay between 30 seconds and 4 hours.
pub fn check_auto_lock_secs(seconds: u64) -> (r: AppResult<u64>)
    ensures
        r is Ok <==> MIN_AUTO_LOCK_SECS <= seconds <= MAX_AUTO_LOCK_SECS,
        r matches Ok(s) ==> s == seconds,
        r matches Err(e) ==> e matches AppError::Crypto(m) && m@ == auto_lock_range_message(),
{
    if seconds < MIN_AUTO_LOCK_SECS || seconds > MAX_AUTO_LOCK_SECS {
        let mut m = "le delai d'auto-verrouillage doit etre compris entre ".to_string();
        push_decimal_chars(&mut m, MIN_AUTO_LOCK_SECS);
        m.append(" et ");
        push_decimal_chars(&mut m, MAX_AUTO_LOCK_SECS);
        m.append(" secondes");
        return Err(AppError::Crypto(m));
    }
    Ok(seconds)
}

} // verus!
