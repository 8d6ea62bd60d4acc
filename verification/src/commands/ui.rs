//! `ui`: drive the browser's own interface.

use vstd::prelude::*;

use crate::commands;
use crate::commands::Refusal;
use crate::state;
use crate::state::AppState;
use crate::text;

verus! {

/// What is asked of the palette.
pub open spec fn palette_meant(action: Option<Seq<char>>, visible: bool) -> Option<bool> {
    match action {
        None => Some(!visible),
        Some(word) => if word == "show"@ {
            Some(true)
        } else if word == "hide"@ {
            Some(false)
        } else if word == "toggle"@ {
            Some(!visible)
        } else {
            None
        },
    }
}

/// `ui palette`: whether the palette should be up. It is staged first: the
/// palette reads that as it comes up.
pub fn palette(window: &mut AppState, stage: Option<String>, action: Option<&str>) -> (r: Result<
    bool,
    Refusal,
>)
    ensures
        final(window)@ == (state::Window {
            stage: commands::nonempty(text::maybe_owned(stage)),
            ..old(window)@
        }),
        match palette_meant(text::maybe(action), old(window)@.palette) {
            Some(want) => r == Ok::<bool, Refusal>(want),
            None => r matches Err(refusal) && commands::refuses(
                refusal,
                "bad_action"@,
                commands::unknown("action"@, action->0@, "expected show, hide or toggle"@),
            ),
        },
{
    window.set_stage(commands::unless_empty(stage));
    let word = match action {
        None => return Ok(!window.palette_visible()),
        Some(word) => word,
    };
    if text::same(word, "show") {
        Ok(true)
    } else if text::same(word, "hide") {
        Ok(false)
    } else if text::same(word, "toggle") {
        Ok(!window.palette_visible())
    } else {
        Err(
            commands::refuse_word("bad_action", "action", word, "expected show, hide or toggle"),
        )
    }
}

/// What the palette came to.
#[derive(Debug)]
pub struct PaletteState {
    pub visible: bool,
}

/// What becomes of `ui palette` once the palette was to be shown or hidden: it is
/// as it was asked to be, or it could not be and is as it was.
pub fn palette_set(window: &mut AppState, want: bool, done: Result<(), String>) -> (r: Result<
    PaletteState,
    Refusal,
>)
    ensures
        match done {
            Ok(_) => {
                &&& r matches Ok(now) && now.visible == want
                &&& final(window)@ == (state::Window { palette: want, ..old(window)@ })
            },
            Err(e) => {
                &&& r matches Err(refusal) && commands::refuses(refusal, "webview"@, e@)
                &&& final(window)@ == old(window)@
            },
        },
{
    match commands::from_view(done) {
        Ok(_) => {
            window.set_palette_visible(want);
            Ok(PaletteState { visible: want })
        },
        Err(refusal) => Err(refusal),
    }
}

/// What to evaluate in a page to clear the hints on it.
pub const CLEAR_HINTS: &'static str =
    "window.__omaHints ? String(window.__omaHints(\"clear\")) : \"absent\"";

/// What was put away.
#[derive(Debug)]
pub struct Dismissed {
    /// Whether the palette was up and has now been put away.
    pub palette: bool,
    /// Whether the page was reachable to clear hints on.
    pub hints: bool,
}

/// `ui dismiss`: put away whatever is open, given how hiding the palette went and
/// whether the page could be reached. Only a palette that is up is hidden, and one
/// that cannot be stays up. A page with none of our scripts has no hints to clear,
/// which is not a failure.
pub fn dismiss(window: &mut AppState, hidden: Result<(), String>, hints: bool) -> (r: Result<
    Dismissed,
    Refusal,
>)
    ensures
        match hidden {
            Err(e) if old(window)@.palette => {
                &&& r matches Err(refusal) && commands::refuses(refusal, "webview"@, e@)
                &&& final(window)@ == old(window)@
            },
            _ => {
                &&& r matches Ok(gone) && gone.palette == old(window)@.palette && gone.hints
                    == hints
                &&& final(window)@ == (state::Window { palette: false, ..old(window)@ })
            },
        },
{
    let palette = window.palette_visible();
    if palette {
        if let Err(refusal) = commands::from_view(hidden) {
            return Err(refusal);
        }
        window.set_palette_visible(false);
    }
    Ok(Dismissed { palette, hints })
}

// ---------------------------------------------------------------------------
// Laws
// ---------------------------------------------------------------------------

/// The palette is shown and hidden by the word, and turned round without one.
pub proof fn law_palette_comes_and_goes(now: bool)
    ensures
        palette_meant(Some("show"@), now) == Some(true),
        palette_meant(Some("hide"@), now) == Some(false),
        palette_meant(Some("toggle"@), now) == Some(!now),
        palette_meant(None, now) == Some(!now),
{
    reveal_strlit("show");
    reveal_strlit("hide");
    reveal_strlit("toggle");
    assert("show"@.len() == 4 && "hide"@.len() == 4 && "toggle"@.len() == 6);
    assert("show"@[0] == 's');
    assert("hide"@[0] == 'h');
    assert("toggle"@[0] == 't');
}

} // verus!
