use vstd::prelude::*;

use crate::text::text_eq;

verus! {

/// A standings notification was already sent when the stored signature is the same text.
pub fn notification_already_sent(stored_signature: Option<&str>, signature: &str) -> (r: bool)
    ensures
        r == match stored_signature {
            Some(stored) => stored@ == signature@,
            None => false,
        },
{
    match stored_signature {
        Some(stored) => text_eq(stored, signature),
        None => false,
    }
}

} // verus!
