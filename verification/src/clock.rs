//! The clock module's logic: what the label shows once the time has been
//! formatted, or could not be.

use vstd::prelude::*;

use crate::text::{push_str, string_of};

verus! {

/// The clock's text: the formatted time, or a placeholder when the time
/// could not be formatted. A clock that cannot format the time is not worth
/// taking the bar down for, so it shows `--:--` and keeps ticking.
pub fn clock_text(formatted: Option<&str>) -> (text: String)
    ensures
        match formatted {
            Some(t) => text@ == t@,
            None => text@ == "--:--"@,
        },
{
    let mut out: Vec<char> = Vec::new();
    match formatted {
        Some(t) => push_str(&mut out, t),
        None => push_str(&mut out, "--:--"),
    }
    string_of(&out)
}

} // verus!
