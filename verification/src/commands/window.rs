//! `window`: the native window itself.

use vstd::prelude::*;

use crate::commands;
use crate::commands::Refusal;
use crate::number;
use crate::text;

verus! {

/// Where a size to resize to comes from.
#[derive(Debug, Clone, Copy, PartialEq, Eq, Structural)]
pub enum Size {
    /// The one that was written, as 1280x720.
    Written,
    /// The width and the height that were given.
    Pair,
}

/// `window resize`: which size to take. `reads` is whether the one that was
/// written is one, and `pair` whether a width and a height were given.
pub fn resize(
    option: Option<String>,
    positional: Option<String>,
    reads: bool,
    pair: bool,
) -> (r: Result<Size, Refusal>)
    ensures
        match commands::first(text::maybe_owned(option), text::maybe_owned(positional)) {
            Some(raw) => if reads {
                r == Ok::<Size, Refusal>(Size::Written)
            } else {
                r matches Err(refusal) && commands::refuses(
                    refusal,
                    "usage"@,
                    text::shown(raw) + " is not a size; write it as 1280x720"@,
                )
            },
            None => if pair {
                r == Ok::<Size, Refusal>(Size::Pair)
            } else {
                r matches Err(refusal) && commands::refuses(
                    refusal,
                    "usage"@,
                    "a size is required, as 1280x720 or --width and --height"@,
                )
            },
        },
{
    match commands::either(option, positional) {
        Some(raw) => {
            if reads {
                return Ok(Size::Written);
            }
            let mut message = text::show(raw.as_str());
            message.append(" is not a size; write it as 1280x720");
            Err(Refusal { code: "usage", message })
        },
        None => {
            if pair {
                Ok(Size::Pair)
            } else {
                Err(
                    commands::refuse(
                        "usage",
                        "a size is required, as 1280x720 or --width and --height",
                    ),
                )
            }
        },
    }
}

/// `window fullscreen`: on, off, or turned round.
pub fn fullscreen(action: Option<&str>) -> (r: Result<Option<bool>, Refusal>)
    ensures
        match action {
            None => r == Ok::<Option<bool>, Refusal>(None),
            Some(word) => if word@ == "on"@ {
                r == Ok::<Option<bool>, Refusal>(Some(true))
            } else if word@ == "off"@ {
                r == Ok::<Option<bool>, Refusal>(Some(false))
            } else if word@ == "toggle"@ {
                r == Ok::<Option<bool>, Refusal>(None)
            } else {
                r matches Err(refusal) && commands::refuses(
                    refusal,
                    "bad_action"@,
                    commands::unknown("action"@, word@, "expected toggle, on or off"@),
                )
            },
        },
{
    let word = match action {
        None => return Ok(None),
        Some(word) => word,
    };
    if text::same(word, "on") {
        Ok(Some(true))
    } else if text::same(word, "off") {
        Ok(Some(false))
    } else if text::same(word, "toggle") {
        Ok(None)
    } else {
        Err(commands::refuse_word("bad_action", "action", word, "expected toggle, on or off"))
    }
}

/// `window new`: what to open, and whether to come up asking where to go, which
/// is what a window with nothing to open does.
pub fn fresh(option: Option<String>, positional: Option<String>) -> (r: (Option<String>, bool))
    ensures
        r.0 == commands::first(option, positional),
        r.1 == (r.0 is None),
{
    let input = commands::either(option, positional);
    let palette = input.is_none();
    (input, palette)
}

/// `window resize`: what it comes to, given what the compositor made of it.
pub fn resized<T>(done: Result<T, String>) -> (r: Result<T, Refusal>)
    ensures
        match done {
            Ok(placed) => r == Ok::<T, Refusal>(placed),
            Err(e) => r matches Err(refusal) && commands::refuses(refusal, "window"@, e@),
        },
{
    commands::reported(done, "window")
}

/// How the window stands.
#[derive(Debug)]
pub struct WindowState {
    pub fullscreen: bool,
}

/// `window fullscreen`: what it comes to.
pub fn filled(done: Result<bool, String>) -> (r: Result<WindowState, Refusal>)
    ensures
        match done {
            Ok(fullscreen) => r matches Ok(now) && now.fullscreen == fullscreen,
            Err(e) => r matches Err(refusal) && commands::refuses(refusal, "window"@, e@),
        },
{
    match commands::reported(done, "window") {
        Ok(fullscreen) => Ok(WindowState { fullscreen }),
        Err(refusal) => Err(refusal),
    }
}

/// `window close`: what it comes to.
pub fn closed(done: Result<(), String>) -> (r: Result<commands::Acted, Refusal>)
    ensures
        match done {
            Ok(_) => r matches Ok(acted) && acted.ok,
            Err(e) => r matches Err(refusal) && commands::refuses(refusal, "window"@, e@),
        },
{
    match commands::reported(done, "window") {
        Ok(_) => Ok(commands::Acted { ok: true }),
        Err(refusal) => Err(refusal),
    }
}

/// A window that was started.
#[derive(Debug)]
pub struct Spawned {
    /// The new window's process.
    pub pid: Option<u32>,
    /// The workspace it was placed on, if it was placed at all.
    pub workspace: Option<String>,
}

/// `window new`: what it comes to, given the workspace it was started on and the
/// window that answered within the time. It does not answer until the window will
/// actually take a command.
pub fn started(
    opened: Result<Option<String>, String>,
    ready: Option<u32>,
    seconds: u64,
) -> (r: Result<Spawned, Refusal>)
    ensures
        match (opened, ready) {
            (Err(e), _) => r matches Err(refusal) && commands::refuses(refusal, "spawn"@, e@),
            (Ok(workspace), Some(pid)) => r matches Ok(up) && up.pid == Some(pid) && up.workspace
                == workspace,
            (Ok(_), None) => r matches Err(refusal) && commands::refuses(
                refusal,
                "slow_start"@,
                "the window was started but did not answer within "@ + number::decimal(
                    seconds as nat,
                ) + "s"@,
            ),
        },
{
    let workspace = match commands::reported(opened, "spawn") {
        Ok(workspace) => workspace,
        Err(refusal) => return Err(refusal),
    };
    match ready {
        Some(pid) => Ok(Spawned { pid: Some(pid), workspace }),
        None => {
            let mut message = "the window was started but did not answer within ".to_owned();
            message.append(number::to_decimal(seconds).as_str());
            message.append("s");
            Err(Refusal { code: "slow_start", message })
        },
    }
}

} // verus!
