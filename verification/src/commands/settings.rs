//! `config`: the dotfile every setting comes from.

use vstd::prelude::*;

use crate::commands;
use crate::commands::Refusal;

verus! {

/// A config file that was written.
#[derive(Debug)]
pub struct ConfigWritten {
    pub path: String,
}

/// `config init`: what it comes to, given the file that was written.
pub fn written(done: Result<String, String>) -> (r: Result<ConfigWritten, Refusal>)
    ensures
        match done {
            Ok(path) => r matches Ok(written) && written.path == path,
            Err(e) => r matches Err(refusal) && commands::refuses(refusal, "config"@, e@),
        },
{
    match commands::reported(done, "config") {
        Ok(path) => Ok(ConfigWritten { path }),
        Err(refusal) => Err(refusal),
    }
}

} // verus!
