//! `find`: search within the current page.

use vstd::prelude::*;

use crate::commands;
use crate::commands::Refusal;

verus! {

/// `find text`: what to look for.
pub fn wanted(option: Option<String>, positional: Option<String>) -> (r: Result<String, Refusal>)
    ensures
        match commands::first(option, positional) {
            Some(text) => r matches Ok(found) && found == text,
            None => r matches Err(refusal) && commands::refuses(
                refusal,
                "usage"@,
                "text to find is required"@,
            ),
        },
{
    match commands::either(option, positional) {
        Some(text) => Ok(text),
        None => Err(commands::refuse("usage", "text to find is required")),
    }
}

/// What was found on a page.
#[derive(Debug)]
pub struct Found {
    /// What was searched for.
    pub text: String,
    /// How many matches. Nothing where the engine did not answer in time, which is
    /// not the same as none: the highlighting happened either way.
    pub matches: Option<u32>,
}

/// `find text`: what it comes to.
pub fn found(text: String, done: Result<Option<u32>, String>) -> (r: Result<Found, Refusal>)
    ensures
        match done {
            Ok(matches) => r matches Ok(found) && found.text == text && found.matches == matches,
            Err(e) => r matches Err(refusal) && commands::refuses(refusal, "webview"@, e@),
        },
{
    match commands::from_view(done) {
        Ok(matches) => Ok(Found { text, matches }),
        Err(refusal) => Err(refusal),
    }
}

} // verus!
