//! `theme`: inspect and reload theming.

use vstd::prelude::*;

use crate::commands;
use crate::commands::Refusal;
use crate::state;
use crate::state::{AppState, ThemeState, UiEvent};
use crate::text;

verus! {

/// What a word means for repainting, given whether it is done now.
pub open spec fn recolor_meant(mode: Option<Seq<char>>, now: bool) -> Option<bool> {
    match mode {
        None => Some(!now),
        Some(mode) => if mode == "on"@ {
            Some(true)
        } else if mode == "off"@ {
            Some(false)
        } else if mode == "toggle"@ {
            Some(!now)
        } else {
            None
        },
    }
}

/// `theme recolor`: whether to repaint neutral page surfaces, given whether they
/// are repainted now.
pub fn recolor(mode: Option<&str>, now: bool) -> (r: Result<bool, Refusal>)
    ensures
        match recolor_meant(text::maybe(mode), now) {
            Some(want) => r == Ok::<bool, Refusal>(want),
            None => r matches Err(refusal) && commands::refuses(
                refusal,
                "bad_mode"@,
                commands::unknown("mode"@, mode->0@, "expected on, off or toggle"@),
            ),
        },
{
    let mode = match mode {
        None => return Ok(!now),
        Some(mode) => mode,
    };
    if text::same(mode, "on") {
        Ok(true)
    } else if text::same(mode, "off") {
        Ok(false)
    } else if text::same(mode, "toggle") {
        Ok(!now)
    } else {
        Err(commands::refuse_word("bad_mode", "mode", mode, "expected on, off or toggle"))
    }
}

/// Whether neutral page surfaces are repainted.
#[derive(Debug)]
pub struct RecolorState {
    pub recolor: bool,
}

/// `theme recolor`: what it comes to. The window remembers it.
pub fn recolored(window: &mut AppState, mode: Option<&str>) -> (r: Result<RecolorState, Refusal>)
    ensures
        match recolor_meant(text::maybe(mode), old(window)@.recolor) {
            Some(want) => {
                &&& r matches Ok(now) && now.recolor == want
                &&& final(window)@ == (state::Window { recolor: want, ..old(window)@ })
            },
            None => {
                &&& r matches Err(refusal) && commands::refuses(
                    refusal,
                    "bad_mode"@,
                    commands::unknown("mode"@, mode->0@, "expected on, off or toggle"@),
                )
                &&& final(window)@ == old(window)@
            },
        },
{
    match recolor(mode, window.recolor()) {
        Ok(want) => {
            window.set_recolor(want);
            Ok(RecolorState { recolor: want })
        },
        Err(refusal) => Err(refusal),
    }
}

/// What to do about the hook that tells the browser of a theme change.
#[derive(Debug, Clone, Copy, PartialEq, Eq, Structural)]
pub enum HookAction {
    Show,
    Install,
    Remove,
}

/// What a word means for the hook.
pub open spec fn hook_meant(word: Option<Seq<char>>) -> Option<HookAction> {
    match word {
        None => Some(HookAction::Show),
        Some(word) => if word == "show"@ || word == "status"@ {
            Some(HookAction::Show)
        } else if word == "install"@ || word == "add"@ {
            Some(HookAction::Install)
        } else if word == "remove"@ || word == "uninstall"@ {
            Some(HookAction::Remove)
        } else {
            None
        },
    }
}

/// `theme hook`: what to do about it.
pub fn hook(action: Option<&str>) -> (r: Result<HookAction, Refusal>)
    ensures
        match hook_meant(text::maybe(action)) {
            Some(meant) => r == Ok::<HookAction, Refusal>(meant),
            None => r matches Err(refusal) && commands::refuses(
                refusal,
                "usage"@,
                commands::unknown("action"@, action->0@, "use show, install or remove"@),
            ),
        },
{
    let word = match action {
        None => return Ok(HookAction::Show),
        Some(word) => word,
    };
    if text::same(word, "show") || text::same(word, "status") {
        Ok(HookAction::Show)
    } else if text::same(word, "install") || text::same(word, "add") {
        Ok(HookAction::Install)
    } else if text::same(word, "remove") || text::same(word, "uninstall") {
        Ok(HookAction::Remove)
    } else {
        Err(commands::refuse_word("usage", "action", word, "use show, install or remove"))
    }
}

/// The hook, as it is told of.
#[derive(Debug)]
pub struct Hook {
    /// Where the hook lives, installed or not.
    pub path: String,
    /// Whether it is there now.
    pub installed: bool,
    /// What the hook runs, when it is installed.
    pub runs: Option<String>,
}

/// The hook, given whether it is there and what its file holds.
pub fn shown(path: &str, installed: bool, body: Option<&str>) -> (r: Hook)
    ensures
        r.path@ == path@,
        r.installed == installed,
        text::maybe_owned(r.runs) == match body {
            Some(body) => Some(text::trimmed(body@)),
            None => None,
        },
{
    let runs = match body {
        Some(body) => Some(text::trim(body)),
        None => None,
    };
    Hook { path: path.to_owned(), installed, runs }
}

/// `theme hook install`: what it comes to, given where this program is, where the
/// hook was put, and what its file holds.
pub fn installed(
    exe: Result<String, String>,
    done: Result<String, String>,
    body: Option<&str>,
) -> (r: Result<Hook, Refusal>)
    ensures
        match (exe, done) {
            (Err(e), _) => r matches Err(refusal) && commands::refuses(
                refusal,
                "exe"@,
                "could not find the running binary: "@ + e@,
            ),
            (Ok(_), Err(e)) => r matches Err(refusal) && commands::refuses(refusal, "hook"@, e@),
            (Ok(_), Ok(path)) => r matches Ok(hook) && hook.path@ == path@ && hook.installed
                && text::maybe_owned(hook.runs) == match body {
                Some(body) => Some(text::trimmed(body@)),
                None => None,
            },
        },
{
    if let Err(e) = exe {
        let mut message = "could not find the running binary: ".to_owned();
        message.append(e.as_str());
        return Err(Refusal { code: "exe", message });
    }
    match commands::reported(done, "hook") {
        Ok(path) => Ok(shown(path.as_str(), true, body)),
        Err(refusal) => Err(refusal),
    }
}

/// What came of removing the hook's file.
pub enum Removal {
    Done,
    /// It was not there, which is what was asked for and not a failure to do it.
    Missing,
    Failed(String),
}

/// `theme hook remove`: what it comes to.
pub fn removed(path: &str, removal: Removal) -> (r: Result<Hook, Refusal>)
    ensures
        match removal {
            Removal::Failed(e) => r matches Err(refusal) && commands::refuses(
                refusal,
                "hook"@,
                "could not remove "@ + path@ + ": "@ + e@,
            ),
            _ => r matches Ok(hook) && hook.path@ == path@ && !hook.installed && hook.runs is None,
        },
{
    match removal {
        Removal::Failed(e) => {
            let mut message = "could not remove ".to_owned();
            message.append(path);
            message.append(": ");
            message.append(e.as_str());
            Err(Refusal { code: "hook", message })
        },
        _ => Ok(Hook { path: path.to_owned(), installed: false, runs: None }),
    }
}

/// The theme the browser is wearing.
#[derive(Debug)]
pub struct ThemeInfo {
    pub name: String,
    /// `dark` or `light`.
    pub mode: String,
    /// How many colours its palette has.
    pub colors: usize,
}

/// `theme show`: the theme the browser is wearing.
pub fn show(theme: &ThemeState) -> (r: ThemeInfo)
    ensures
        r.name@ == theme.name@,
        r.mode@ == theme.mode@,
        r.colors == theme.colors,
{
    ThemeInfo { name: theme.name.clone(), mode: theme.mode.clone(), colors: theme.colors }
}

/// `theme css`: the style sheet the browser's own pages use.
pub fn css(theme: &ThemeState) -> (r: String)
    ensures
        r@ == theme.chrome@,
{
    theme.chrome.clone()
}

/// A theme that was read again.
#[derive(Debug)]
pub struct ThemeReloaded {
    pub name: String,
    pub mode: String,
    /// False when it was the same theme, so that a real change can be told from
    /// a hook that fired twice.
    pub changed: bool,
}

/// `theme reload`: take up the theme as it is read now. What the window has to
/// hear comes with it.
pub fn reload(theme: &mut ThemeState, next: ThemeState) -> (r: (ThemeReloaded, Option<UiEvent>))
    ensures
        r.0.changed == (old(theme).fingerprint@ != next.fingerprint@),
        r.0.changed == (r.1 is Some),
        *final(theme) == if r.0.changed {
            next
        } else {
            *old(theme)
        },
        r.0.name@ == final(theme).name@,
        r.0.mode@ == final(theme).mode@,
        r.1 matches Some(event) ==> event matches UiEvent::ThemeChanged { name, mode } && name@
            == next.name@ && mode@ == next.mode@,
{
    let event = theme.reload_theme(next);
    let changed = event.is_some();
    (
        ThemeReloaded { name: theme.name.clone(), mode: theme.mode.clone(), changed },
        event,
    )
}

// ---------------------------------------------------------------------------
// Laws
// ---------------------------------------------------------------------------

/// Repainting is switched on and off by the word, and turned round without one.
pub proof fn law_recolor_goes_by_the_word(now: bool)
    ensures
        recolor_meant(Some("on"@), now) == Some(true),
        recolor_meant(Some("off"@), now) == Some(false),
        recolor_meant(Some("toggle"@), now) == Some(!now),
        recolor_meant(None, now) == Some(!now),
{
    reveal_strlit("on");
    reveal_strlit("off");
    reveal_strlit("toggle");
    assert("on"@.len() == 2 && "off"@.len() == 3 && "toggle"@.len() == 6);
    assert("on"@[0] == 'o');
    assert("off"@[0] == 'o');
    assert("toggle"@[0] == 't');
}

/// The hook is asked about, put in and taken out by the word, each in two spellings,
/// and asked about without one.
pub proof fn law_hook_goes_by_the_word(word: Seq<char>)
    ensures
        hook_meant(None) == Some(HookAction::Show),
        hook_meant(Some(word)) == Some(HookAction::Show) <==> word == "show"@ || word == "status"@,
        hook_meant(Some(word)) == Some(HookAction::Install) <==> word == "install"@ || word
            == "add"@,
        hook_meant(Some(word)) == Some(HookAction::Remove) <==> word == "remove"@ || word
            == "uninstall"@,
{
    reveal_strlit("show");
    reveal_strlit("status");
    reveal_strlit("install");
    reveal_strlit("add");
    reveal_strlit("remove");
    reveal_strlit("uninstall");
    assert("show"@.len() == 4 && "status"@.len() == 6 && "install"@.len() == 7 && "add"@.len() == 3
        && "remove"@.len() == 6 && "uninstall"@.len() == 9);
    assert("status"@[0] == 's' && "remove"@[0] == 'r');
}

} // verus!
