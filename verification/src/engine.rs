//! The engine's own settings, as configured.

use vstd::prelude::*;

use crate::config;
use crate::list;
use crate::text;

verus! {

/// What one page's view is set to.
#[derive(Debug)]
pub struct ViewSettings {
    pub javascript: bool,
    pub developer_extras: bool,
    pub webrtc: bool,
    pub webgl: bool,
    pub smooth_scrolling: bool,
    pub font_size: u32,
    /// About what a page may *not* do, so it is the configured value turned
    /// round.
    pub playback_requires_gesture: bool,
    /// `None` leaves the engine's own.
    pub user_agent: Option<String>,
}

/// A configured text, where it is not blank.
pub open spec fn filled(s: Seq<char>) -> Option<Seq<char>> {
    if text::trimmed(s).len() > 0 {
        Some(text::trimmed(s))
    } else {
        None
    }
}

/// What the engine is to be told for one view.
pub fn configure(engine: &config::Engine) -> (r: ViewSettings)
    ensures
        r.javascript == engine.javascript,
        r.developer_extras == engine.devtools,
        r.webrtc == engine.webrtc,
        r.webgl == engine.webgl,
        r.smooth_scrolling == engine.smooth_scrolling,
        r.font_size == engine.font_size,
        r.playback_requires_gesture == !engine.autoplay,
        text::maybe_owned(r.user_agent) == filled(engine.user_agent@),
{
    let agent = text::trim(engine.user_agent.as_str());
    let user_agent = if agent.as_str().is_empty() {
        None
    } else {
        Some(agent)
    };
    ViewSettings {
        javascript: engine.javascript,
        developer_extras: engine.devtools,
        webrtc: engine.webrtc,
        webgl: engine.webgl,
        smooth_scrolling: engine.smooth_scrolling,
        font_size: engine.font_size,
        playback_requires_gesture: !engine.autoplay,
        user_agent,
    }
}

/// What is wrong with a proxy that names no scheme.
pub open spec fn schemeless(asked: Seq<char>) -> Seq<char> {
    "engine.proxy: "@ + text::shown(asked) + " has no scheme; write it as http://host:port"@
}

/// The proxy to point the engine at, or nothing for the desktop's own settings.
///
/// A proxy with no scheme is the commonest way to get this wrong, and nothing
/// else complains about it.
pub fn proxy(engine: &config::Engine) -> (r: Result<Option<String>, String>)
    ensures
        match filled(engine.proxy@) {
            None => r matches Ok(None),
            Some(asked) => if text::first_match(asked, "://"@) is Some {
                r matches Ok(Some(proxy)) && proxy@ == asked
            } else {
                r matches Err(problem) && problem@ == schemeless(asked)
            },
        },
{
    let asked = text::trim(engine.proxy.as_str());
    if asked.as_str().is_empty() {
        return Ok(None);
    }
    if !text::contains(asked.as_str(), "://") {
        let mut problem = "engine.proxy: ".to_owned();
        problem.append(text::show(asked.as_str()).as_str());
        problem.append(" has no scheme; write it as http://host:port");
        return Err(problem);
    }
    Ok(Some(asked))
}

/// The languages to check spelling in. None means the ones of the desktop.
pub fn spellcheck_languages(engine: &config::Engine) -> (r: Vec<String>)
    ensures
        text::texts(r@) == list::kept(
            text::texts(engine.spellcheck_languages@),
            |l: Seq<char>| l.len() > 0,
        ),
{
    let ghost all = text::texts(engine.spellcheck_languages@);
    let ghost keep = |l: Seq<char>| l.len() > 0;
    let mut out: Vec<String> = Vec::new();
    let mut i: usize = 0;
    assert(all.take(0) =~= Seq::empty());
    assert(text::texts(out@) =~= Seq::empty());
    while i < engine.spellcheck_languages.len()
        invariant
            i <= engine.spellcheck_languages.len(),
            all == text::texts(engine.spellcheck_languages@),
            keep == (|l: Seq<char>| l.len() > 0),
            text::texts(out@) == list::kept(all.take(i as int), keep),
        decreases engine.spellcheck_languages.len() - i,
    {
        let language = &engine.spellcheck_languages[i];
        assert(all.take(i + 1).drop_last() =~= all.take(i as int));
        assert(all[i as int] == language@);
        if !language.as_str().is_empty() {
            let ghost before = out@;
            out.push(language.clone());
            assert(text::texts(out@) =~= text::texts(before).push(language@));
        }
        i += 1;
    }
    assert(all.take(i as int) =~= all);
    out
}

/// Which cookies are taken.
#[derive(Debug, Clone, Copy, PartialEq, Eq, Structural)]
pub enum CookieAcceptPolicy {
    Always,
    Never,
    NoThirdParty,
}

/// Which cookies a name stands for.
pub open spec fn policy_named(name: Seq<char>) -> Option<CookieAcceptPolicy> {
    if name == "always"@ {
        Some(CookieAcceptPolicy::Always)
    } else if name == "never"@ {
        Some(CookieAcceptPolicy::Never)
    } else if name == "no-third-party"@ || name == "no_third_party"@ {
        Some(CookieAcceptPolicy::NoThirdParty)
    } else {
        None
    }
}

/// Which cookies the configuration asks for, or what is wrong with how it asks.
pub fn cookie_policy(policy: &str) -> (r: Result<CookieAcceptPolicy, String>)
    ensures
        ({
            let name = text::lowered(text::trimmed(policy@));
            match r {
                Ok(wanted) => policy_named(name) == Some(wanted),
                Err(problem) => policy_named(name) is None && problem@ == "engine.cookies: "@
                    + text::shown(name)
                    + " is not \"always\", \"never\" or \"no-third-party\"; leaving cookies as they were"@,
            }
        }),
{
    let name = text::to_lower(text::trim(policy).as_str());
    if text::same(name.as_str(), "always") {
        Ok(CookieAcceptPolicy::Always)
    } else if text::same(name.as_str(), "never") {
        Ok(CookieAcceptPolicy::Never)
    } else if text::same(name.as_str(), "no-third-party") || text::same(
        name.as_str(),
        "no_third_party",
    ) {
        Ok(CookieAcceptPolicy::NoThirdParty)
    } else {
        let mut problem = "engine.cookies: ".to_owned();
        problem.append(text::show(name.as_str()).as_str());
        problem.append(
            " is not \"always\", \"never\" or \"no-third-party\"; leaving cookies as they were",
        );
        Err(problem)
    }
}

// ---------------------------------------------------------------------------
// Laws
// ---------------------------------------------------------------------------

/// Cookies are refused only by the word that says so, those of others only by the
/// words that say that, however their dashes are written, and no other word sets
/// anything.
pub proof fn law_cookies_go_by_the_word(name: Seq<char>)
    ensures
        policy_named(name) == Some(CookieAcceptPolicy::Always) <==> name == "always"@,
        policy_named(name) == Some(CookieAcceptPolicy::Never) <==> name == "never"@,
        policy_named(name) == Some(CookieAcceptPolicy::NoThirdParty) <==> text::swapped(
            name,
            '_',
            '-',
        ) == "no-third-party"@ && (name == "no-third-party"@ || name == "no_third_party"@),
{
    reveal_strlit("always");
    reveal_strlit("never");
    reveal_strlit("no-third-party");
    reveal_strlit("no_third_party");
    assert("always"@.len() == 6 && "never"@.len() == 5 && "no-third-party"@.len() == 14
        && "no_third_party"@.len() == 14);
    assert(text::swapped("no_third_party"@, '_', '-') =~= "no-third-party"@);
    assert(text::swapped("no-third-party"@, '_', '-') =~= "no-third-party"@);
}

/// White space around a setting does not count, and a setting of nothing but white
/// space is none.
pub proof fn law_blank_setting_is_none(s: Seq<char>, word: Seq<char>)
    ensures
        (forall|i: int| 0 <= i < s.len() ==> text::is_space(#[trigger] s[i])) ==> filled(s) is None,
        word.len() > 0 && !text::is_space(word[0]) && !text::is_space(word.last()) ==> filled(word)
            == Some(word),
        filled(s) matches Some(said) ==> filled(said) == Some(said),
{
    let space = |c: char| text::is_space(c);
    if forall|i: int| 0 <= i < s.len() ==> text::is_space(#[trigger] s[i]) {
        text::lemma_trim_start(s, space, s.len() as int);
        assert(text::trimmed(s).len() == 0);
    }
    text::lemma_trimmed_ends(s);
}

} // verus!
