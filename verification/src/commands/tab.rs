//! `tab`: open, close and switch tabs.

use vstd::prelude::*;

use crate::commands;
use crate::commands::Refusal;
use crate::config;
use crate::state;
use crate::state::AppState;
use crate::text;
use crate::weburl;

verus! {

/// Where a tab with nowhere to go lands, given the address of the start page.
pub open spec fn landing(
    built_in: Option<Seq<char>>,
    home: Seq<char>,
    resolved: Seq<char>,
) -> Seq<char> {
    if text::trimmed(home).len() > 0 {
        resolved
    } else {
        match built_in {
            Some(url) => url,
            None => "about:blank"@,
        }
    }
}

/// Where a tab with nowhere to go lands, given the address of the start page:
/// what the configured home resolves to, or our own start page.
pub fn start_page_at(built_in: Option<String>, home: &str, resolved: &str) -> (r: String)
    ensures
        r@ == landing(text::maybe_owned(built_in), home@, resolved@),
{
    let built_in = match built_in {
        Some(url) => url,
        None => "about:blank".to_owned(),
    };
    config::home_url(home, resolved, built_in.as_str())
}

/// Where a tab with nowhere to go should land. Shared by `tab open` and `nav
/// home`, so that a new tab and Alt-Home cannot disagree about what "home" is.
pub fn start_page(base: Option<&str>, home: &str, resolved: &str) -> (r: String)
    ensures
        r@ == landing(
            match base {
                Some(base) => weburl::joined_text(base@, "start"@),
                None => None,
            },
            home@,
            resolved@,
        ),
{
    let built_in = match base {
        Some(base) => weburl::join(base, "start"),
        None => None,
    };
    start_page_at(built_in, home, resolved)
}

/// A tab to be opened.
#[derive(Debug)]
pub struct Opening {
    pub url: String,
    /// Open it without switching to it.
    pub background: bool,
    /// Come up asking where to go. A tab opened with nowhere to go is a
    /// question; one opened *at* an address already has its answer, and one in
    /// the background is not the one being looked at.
    pub palette: bool,
}

/// `tab open`: which tab to open.
pub fn opening(
    option: Option<String>,
    positional: Option<String>,
    start: &str,
    background: bool,
) -> (r: Opening)
    ensures
        r.background == background,
        match commands::first(option, positional) {
            Some(url) => r.url == url && !r.palette,
            None => r.url@ == start@ && r.palette == !background,
        },
{
    match commands::either(option, positional) {
        Some(url) => Opening { url, background, palette: false },
        None => Opening { url: start.to_owned(), background, palette: !background },
    }
}

/// What `tab select` comes to.
#[derive(Debug, Clone, Copy, PartialEq, Eq, Structural)]
pub enum Selection {
    /// Switch to this tab.
    Tab(u32),
    /// Stay: there is no tab at that position, which is a miss and not an error.
    Stay,
}

/// `tab select`: by id, which names a tab for as long as it lives, or by
/// position, which names whatever is sitting there now. `at` is the tab found at
/// that position.
pub fn select(id: Option<u32>, index: Option<i32>, at: Option<u32>) -> (r: Result<
    Selection,
    Refusal,
>)
    ensures
        match id {
            Some(id) => r == Ok::<Selection, Refusal>(Selection::Tab(id)),
            None => match index {
                Some(_) => r == Ok::<Selection, Refusal>(
                    match at {
                        Some(id) => Selection::Tab(id),
                        None => Selection::Stay,
                    },
                ),
                None => r matches Err(refusal) && commands::refuses(
                    refusal,
                    "missing_id"@,
                    "which tab? pass an id from `tab list`"@,
                ),
            },
        },
{
    match id {
        Some(id) => Ok(Selection::Tab(id)),
        None => match index {
            Some(_) => match at {
                Some(id) => Ok(Selection::Tab(id)),
                None => Ok(Selection::Stay),
            },
            None => Err(commands::refuse("missing_id", "which tab? pass an id from `tab list`")),
        },
    }
}

/// `tab close`: which tab to close, the active one unless another was named.
pub fn close(requested: Option<u32>, active: Option<u32>) -> (r: Result<u32, Refusal>)
    ensures
        match commands::first(requested, active) {
            Some(id) => r == Ok::<u32, Refusal>(id),
            None => r matches Err(refusal) && commands::refuses(
                refusal,
                "no_tabs"@,
                "there are no tabs to close"@,
            ),
        },
{
    match requested {
        Some(id) => Ok(id),
        None => match active {
            Some(id) => Ok(id),
            None => Err(commands::refuse("no_tabs", "there are no tabs to close")),
        },
    }
}

/// `tab cycle`: how far to move, and backwards where it is negative.
pub fn cycle_by(delta: Option<i32>) -> (r: i32)
    ensures
        r == match delta {
            Some(delta) => delta,
            None => 1,
        },
{
    match delta {
        Some(delta) => delta,
        None => 1,
    }
}

/// `tab cycle`: the tab to move to, given the neighbour there is.
pub fn cycle(neighbour: Option<u32>) -> (r: Result<u32, Refusal>)
    ensures
        match neighbour {
            Some(id) => r == Ok::<u32, Refusal>(id),
            None => r matches Err(refusal) && commands::refuses(
                refusal,
                "no_tabs"@,
                "there are no tabs"@,
            ),
        },
{
    match neighbour {
        Some(id) => Ok(id),
        None => Err(commands::refuse("no_tabs", "there are no tabs")),
    }
}

/// `tab reopen`: what to reopen, given the address that was closed last.
pub fn reopen(closed: Option<String>) -> (r: Result<String, Refusal>)
    ensures
        match closed {
            Some(url) => r == Ok::<String, Refusal>(url),
            None => r matches Err(refusal) && commands::refuses(
                refusal,
                "no_tabs"@,
                "nothing has been closed"@,
            ),
        },
{
    match closed {
        Some(url) => Ok(url),
        None => Err(commands::refuse("no_tabs", "nothing has been closed")),
    }
}

/// Something that is on, off, or to be turned round.
#[derive(Debug, Clone, Copy, PartialEq, Eq, Structural)]
pub enum Toggle {
    On,
    Off,
    Toggle,
}

/// What a word for a switch means.
pub open spec fn toggle_meant(word: Seq<char>) -> Option<Toggle> {
    if word == "on"@ || word == "show"@ {
        Some(Toggle::On)
    } else if word == "off"@ || word == "hide"@ {
        Some(Toggle::Off)
    } else if word == "toggle"@ {
        Some(Toggle::Toggle)
    } else {
        None
    }
}

impl Toggle {
    pub fn parse(raw: &str) -> (r: Option<Toggle>)
        ensures
            r == toggle_meant(raw@),
    {
        if text::same(raw, "on") || text::same(raw, "show") {
            Some(Toggle::On)
        } else if text::same(raw, "off") || text::same(raw, "hide") {
            Some(Toggle::Off)
        } else if text::same(raw, "toggle") {
            Some(Toggle::Toggle)
        } else {
            None
        }
    }

    /// Where the thing ends up, given where it is.
    pub fn applied(self, now: bool) -> (r: bool)
        ensures
            r == match self {
                Toggle::On => true,
                Toggle::Off => false,
                Toggle::Toggle => !now,
            },
    {
        match self {
            Toggle::On => true,
            Toggle::Off => false,
            Toggle::Toggle => !now,
        }
    }
}

/// The word typed at a switch: with none, it is turned round.
pub open spec fn switch_word(action: Option<Seq<char>>) -> Seq<char> {
    match action {
        Some(word) => word,
        None => "toggle"@,
    }
}

/// What to do to a switch, given the word typed and what is said was expected.
pub fn switch(action: Option<String>, expected: &str) -> (r: Result<Toggle, Refusal>)
    ensures
        ({
            let word = switch_word(text::maybe_owned(action));
            match toggle_meant(word) {
                Some(toggle) => r == Ok::<Toggle, Refusal>(toggle),
                None => r matches Err(refusal) && commands::refuses(
                    refusal,
                    "bad_action"@,
                    commands::unknown("action"@, word, expected@),
                ),
            }
        }),
{
    let word = match action {
        Some(word) => word,
        None => "toggle".to_owned(),
    };
    match Toggle::parse(word.as_str()) {
        Some(toggle) => Ok(toggle),
        None => Err(commands::refuse_word("bad_action", "action", word.as_str(), expected)),
    }
}

/// `tab mute`: silence a tab, or let it speak again.
pub fn mute(option: Option<String>, positional: Option<String>) -> (r: Result<Toggle, Refusal>)
    ensures
        ({
            let word = switch_word(
                commands::first(text::maybe_owned(option), text::maybe_owned(positional)),
            );
            match toggle_meant(word) {
                Some(toggle) => r == Ok::<Toggle, Refusal>(toggle),
                None => r matches Err(refusal) && commands::refuses(
                    refusal,
                    "bad_action"@,
                    commands::unknown("action"@, word, "expected on, off or toggle"@),
                ),
            }
        }),
{
    switch(commands::either(option, positional), "expected on, off or toggle")
}

/// `tab open` and `tab reopen`: what they come to, given how opening the tab went,
/// and how summoning the palette went where it was to come up. A tab that is open
/// without it is open all the same.
pub fn opened<T>(
    window: &mut AppState,
    palette: bool,
    done: Result<T, String>,
    summoned: Result<(), String>,
) -> (r: Result<T, Refusal>)
    ensures
        match done {
            Ok(tab) => {
                &&& r == Ok::<T, Refusal>(tab)
                &&& final(window)@ == if palette && summoned is Ok {
                    state::Window { palette: true, ..old(window)@ }
                } else {
                    old(window)@
                }
            },
            Err(e) => {
                &&& r matches Err(refusal) && commands::refuses(refusal, "webview"@, e@)
                &&& final(window)@ == old(window)@
            },
        },
{
    let tab = match commands::from_view(done) {
        Ok(tab) => tab,
        Err(refusal) => return Err(refusal),
    };
    if palette && summoned.is_ok() {
        window.set_palette_visible(true);
    }
    Ok(tab)
}

/// The tabs that are open.
#[derive(Debug)]
pub struct TabList<T> {
    pub tabs: Vec<T>,
}

/// `tab select` and `tab cycle`: what they come to, given how switching went and
/// the tabs there are. Staying switches to nothing.
pub fn selected<T>(selection: Selection, done: Result<(), String>, tabs: Vec<T>) -> (r: Result<
    TabList<T>,
    Refusal,
>)
    ensures
        match (selection, done) {
            (Selection::Tab(_), Err(e)) => r matches Err(refusal) && commands::refuses(
                refusal,
                "webview"@,
                e@,
            ),
            _ => r matches Ok(list) && list.tabs == tabs,
        },
{
    match selection {
        Selection::Stay => Ok(TabList { tabs }),
        Selection::Tab(_) => match commands::from_view(done) {
            Ok(_) => Ok(TabList { tabs }),
            Err(refusal) => Err(refusal),
        },
    }
}

/// A tab that was closed.
#[derive(Debug)]
pub struct Closed {
    pub closed: u32,
    /// The tab that is looked at now, if any is left.
    pub active: Option<u32>,
}

/// `tab close`: what it comes to.
pub fn closed(target: u32, done: Result<Option<u32>, String>) -> (r: Result<Closed, Refusal>)
    ensures
        match done {
            Ok(active) => r matches Ok(gone) && gone.closed == target && gone.active == active,
            Err(e) => r matches Err(refusal) && commands::refuses(refusal, "webview"@, e@),
        },
{
    match commands::from_view(done) {
        Ok(active) => Ok(Closed { closed: target, active }),
        Err(refusal) => Err(refusal),
    }
}

/// A session that was brought back.
#[derive(Debug)]
pub struct Restored {
    /// How many tabs were reopened.
    pub opened: usize,
    /// How many the last session held, whether or not they were already open.
    pub saved: usize,
}

/// `tab restore`: what it comes to, given which of the saved addresses were opened.
pub fn restored(saved: &[String], opened: &[bool]) -> (r: Restored)
    ensures
        r.saved == saved@.len(),
        r.opened == opened@.filter(|yes: bool| yes).len(),
{
    let ghost want = |yes: bool| yes;
    let mut count: usize = 0;
    let mut i: usize = 0;
    assert(opened@.take(0).filter(want) =~= Seq::<bool>::empty()) by {
        reveal(Seq::filter);
    }
    while i < opened.len()
        invariant
            i <= opened.len(),
            count <= i,
            want == (|yes: bool| yes),
            count == opened@.take(i as int).filter(want).len(),
        decreases opened.len() - i,
    {
        assert(opened@.take(i + 1).drop_last() =~= opened@.take(i as int));
        assert(opened@.take(i + 1).filter(want).len() == opened@.take(i as int).filter(want).len()
            + if opened@[i as int] {
            1int
        } else {
            0
        }) by {
            reveal(Seq::filter);
        }
        if opened[i] {
            count += 1;
        }
        i += 1;
    }
    assert(opened@.take(i as int) =~= opened@);
    Restored { opened: count, saved: saved.len() }
}

// ---------------------------------------------------------------------------
// Laws
// ---------------------------------------------------------------------------

/// A switch is put on and off by the word, each in two spellings, and turned round by
/// the third or by saying nothing. No other word means anything.
pub proof fn law_switch_goes_by_the_word(word: Seq<char>)
    ensures
        toggle_meant(word) == Some(Toggle::On) <==> word == "on"@ || word == "show"@,
        toggle_meant(word) == Some(Toggle::Off) <==> word == "off"@ || word == "hide"@,
        toggle_meant(word) == Some(Toggle::Toggle) <==> word == "toggle"@,
        toggle_meant(switch_word(None)) == Some(Toggle::Toggle),
        switch_word(Some(word)) == word,
{
    reveal_strlit("on");
    reveal_strlit("show");
    reveal_strlit("off");
    reveal_strlit("hide");
    reveal_strlit("toggle");
    assert("on"@.len() == 2 && "show"@.len() == 4 && "off"@.len() == 3 && "hide"@.len() == 4
        && "toggle"@.len() == 6);
    assert("show"@[0] == 's' && "hide"@[0] == 'h');
}

/// A tab with nowhere to go lands at the configured home, and only where that is blank
/// at the start page, or nowhere where there is none.
pub proof fn law_landing_prefers_home(
    built_in: Option<Seq<char>>,
    home: Seq<char>,
    resolved: Seq<char>,
    start: Seq<char>,
)
    ensures
        home.len() > 0 && !text::is_space(home[0]) ==> landing(built_in, home, resolved) == resolved,
        landing(Some(start), Seq::empty(), resolved) == start,
        landing(None, Seq::empty(), resolved) == "about:blank"@,
{
    let space = |c: char| text::is_space(c);
    if home.len() > 0 && !text::is_space(home[0]) {
        assert(text::trim_start_by(home, space) == home);
        lemma_trim_keeps_front(home, space);
    }
}

proof fn lemma_trim_keeps_front(s: Seq<char>, drop: spec_fn(char) -> bool)
    requires
        s.len() > 0,
        !drop(s[0]),
    ensures
        text::trim_end_by(s, drop).len() > 0,
    decreases s.len(),
{
    if drop(s.last()) {
        lemma_trim_keeps_front(s.drop_last(), drop);
    }
}

} // verus!
