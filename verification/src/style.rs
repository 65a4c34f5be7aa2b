//! The one call out to the `colored` crate: striking a done label through.

use vstd::prelude::*;

use colored::Colorize;

use crate::model::{contains_sub, esc_free};

verus! {

/// Relies on colored's `Colorize::strikethrough` and `Colorize::white`:
/// formatting the styled string yields the input unchanged while colouring
/// is disabled, and otherwise an ANSI style prefix, the input (with the
/// style re-inserted after any reset sequence the input itself holds), and
/// a reset suffix. Either way the result is at least as long as the input,
/// and an input free of escape characters appears in it unchanged.
#[verifier::external_body]
pub fn strike_white(s: &str) -> (r: String)
    ensures
        r@.len() >= s@.len(),
        esc_free(s@) ==> contains_sub(r@, s@),
{
    format!("{}", s.strikethrough().white())
}

} // verus!
