//! `content`: block what a page tries to fetch.

use vstd::prelude::*;

use crate::blocker;
use crate::blocker::{Blocker, Report};
use crate::commands;
use crate::commands::{Here, Refusal};
use crate::text;

verus! {

/// What is blocking.
#[derive(Debug)]
pub struct Blocking {
    /// Whether blocking is switched on at all.
    pub on: bool,
    /// The lists compiled and applied right now. Empty while a first compile is
    /// still running.
    pub lists: Vec<String>,
    /// Rule files that could not be used, and why.
    pub problems: Vec<String>,
    /// Whether the active tab is blocking.
    pub here: Option<bool>,
}

/// A tab that was excused, or is not any more.
#[derive(Debug)]
pub struct Excused {
    /// The tab this was about.
    pub url: String,
    /// Whether that tab is blocking now.
    pub blocking: bool,
}

/// `content list` and `content reload`: what is blocking, and what could not be
/// read, or why the blocker could not be asked.
pub fn blocking(on: bool, asked: Result<Report, String>) -> (r: Result<Blocking, Refusal>)
    ensures
        match asked {
            Ok(report) => r matches Ok(told) && told.on == on && told.lists == report.lists
                && told.problems == report.problems && told.here == report.here,
            Err(e) => r matches Err(refusal) && commands::refuses(refusal, "blocker"@, e@),
        },
{
    match commands::reported(asked, "blocker") {
        Ok(report) => Ok(
            Blocking { on, lists: report.lists, problems: report.problems, here: report.here },
        ),
        Err(refusal) => Err(refusal),
    }
}

/// Why the tab being looked at cannot be reached: there is no window, there is no
/// tab, or the tab's view is gone.
pub open spec fn unreachable_tab(window: bool, label: Option<Seq<char>>, view: bool) -> Option<
    (Seq<char>, Seq<char>),
> {
    if !window {
        Some(("no_window"@, "the window is not up yet"@))
    } else {
        match label {
            None => Some(("no_tab"@, "there is no active tab"@)),
            Some(label) => if view {
                None
            } else {
                Some(("no_tab"@, "no webview labelled "@ + label))
            },
        }
    }
}

/// `content off` and `content on`: the same command with the switch the other
/// way up. `window` is whether there is one, `label` names the active tab, and
/// `view` is whether that tab can be reached; `applied` is how taking the lists off
/// it, or putting them back, went.
pub fn excuse_tab(
    blocker: &mut Blocker,
    window: bool,
    label: Option<&str>,
    view: bool,
    applied: Result<(), String>,
    here: Option<&Here>,
    off: bool,
) -> (r: Result<Excused, Refusal>)
    ensures
        match unreachable_tab(window, text::maybe(label), view) {
            Some((code, message)) => {
                &&& r matches Err(refusal) && commands::refuses(refusal, code, message)
                &&& final(blocker)@ == old(blocker)@
            },
            None => match applied {
                Ok(_) => {
                    &&& r matches Ok(excused) && excused.url@ == commands::or_empty(
                        commands::here_url(here),
                    ) && excused.blocking == !off
                    &&& final(blocker)@ == (blocker::Blocking {
                        lists: old(blocker)@.lists,
                        excused: text::moved(old(blocker)@.excused, label->0@, off),
                    })
                },
                Err(e) => {
                    &&& r matches Err(refusal) && commands::refuses(refusal, "webview"@, e@)
                    &&& final(blocker)@ == old(blocker)@
                },
            },
        },
{
    if !window {
        return Err(commands::refuse("no_window", "the window is not up yet"));
    }
    let label = match label {
        Some(label) => label,
        None => return Err(commands::refuse("no_tab", "there is no active tab")),
    };
    if !view {
        let mut message = "no webview labelled ".to_owned();
        message.append(label);
        return Err(Refusal { code: "no_tab", message });
    }
    if let Err(refusal) = commands::from_view(applied) {
        return Err(refusal);
    }
    blocker.excuse(label, off);
    Ok(Excused { url: commands::or_nothing(commands::url_of(here)), blocking: !off })
}

// ---------------------------------------------------------------------------
// Laws
// ---------------------------------------------------------------------------

/// A tab is out of reach exactly where there is no window, no tab, or no view of it, and
/// the first of these is the one that is told.
pub proof fn law_first_obstacle_is_told(label: Option<Seq<char>>, view: bool, tab: Seq<char>)
    ensures
        unreachable_tab(false, label, view) == Some(("no_window"@, "the window is not up yet"@)),
        unreachable_tab(true, None, view) == Some(("no_tab"@, "there is no active tab"@)),
        unreachable_tab(true, Some(tab), true) is None,
        unreachable_tab(true, Some(tab), false) == Some(("no_tab"@, "no webview labelled "@ + tab)),
{
}

} // verus!
