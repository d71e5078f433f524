//! Bearer-token checks.  The token to check against is handed in by the
//! caller, which reads it at startup and owns it for the process's life.

use vstd::prelude::*;
use crate::chars::{str_to_chars, chars_eq};

verus! {

/// Whether the presented token is exactly the write token.
pub fn is_right_token(correct_token: &str, token: &str) -> (r: bool)
    ensures
        r == (correct_token@ == token@),
{
    let a = str_to_chars(correct_token);
    let b = str_to_chars(token);
    chars_eq(a.as_slice(), b.as_slice())
}

/// Whether the presented token must be refused.
pub fn is_wrong_token(correct_token: &str, token: &str) -> (r: bool)
    ensures
        r == (correct_token@ != token@),
{
    !is_right_token(correct_token, token)
}

} // verus!
