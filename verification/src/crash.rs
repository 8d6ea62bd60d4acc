//! A tab whose web process is gone.

use vstd::prelude::*;

use crate::interstitial;
use crate::text;
use crate::weburl;

verus! {

/// A tab whose web process is gone.
#[derive(Debug, Clone)]
pub struct Crash {
    /// Why it went, in words fit for a page. See [`describe`].
    pub reason: &'static str,
    /// Where the tab was when it died, so the page can say so.
    pub uri: String,
    /// Set while the crash page itself is on its way in.
    ///
    /// Reporting a crash means loading a page into the webview that just
    /// crashed, and that load looks exactly like the recovery that should clear
    /// the crash. This is how the two are told apart.
    pub reporting: bool,
}

/// Why the engine says a web process ended.
#[derive(Debug, Clone, Copy, PartialEq, Eq, Structural)]
pub enum Termination {
    ExceededMemoryLimit,
    TerminatedByApi,
    /// It crashed, or the engine has a reason that has no name here.
    Other,
}

/// The engine's reason, in words that mean something to whoever is reading the
/// page.
pub open spec fn reason_text(why: Termination) -> Seq<char> {
    match why {
        Termination::ExceededMemoryLimit => "it ran out of memory"@,
        Termination::TerminatedByApi => "the browser stopped it"@,
        Termination::Other => "it stopped unexpectedly"@,
    }
}

/// The engine's reason, in words that mean something to whoever is reading the
/// page.
///
/// Deliberately plain. "Exceeded memory limit" is what the engine calls it; "ran
/// out of memory" is what happened.
pub fn describe(why: Termination) -> (r: &'static str)
    ensures
        r@ == reason_text(why),
{
    match why {
        Termination::ExceededMemoryLimit => "it ran out of memory",
        Termination::TerminatedByApi => "the browser stopped it",
        // "It died and we do not know why" is the honest thing to print.
        Termination::Other => "it stopped unexpectedly",
    }
}

/// What stands in the heading, given what the address's host reads as: the host,
/// or "This page" where there is none to show.
pub open spec fn heading(host: Option<Option<Seq<char>>>) -> Seq<char> {
    interstitial::heading(host)
}

/// The page a crashed tab shows, given what its host reads as and the theme it
/// is set in.
pub open spec fn crash_page(
    uri: Seq<char>,
    reason: Seq<char>,
    host: Option<Option<Seq<char>>>,
    theme: Option<(Seq<char>, Seq<char>)>,
) -> Seq<char> {
    let (vars, mine) = interstitial::dress(theme);
    "<!DOCTYPE html>\n<html lang=\"en\"><head><meta charset=\"utf-8\"><title>This page stopped responding</title><style>"@
        + vars + "</style><style>"@ + mine + "</style><style>"@ + CRASH_CSS@
        + "</style></head><body><main><p class=\"tag\">crashed</p><h1>"@ + interstitial::escaped(
        heading(host),
    ) + "</h1><p class=\"sub\">stopped responding, because "@ + reason
        + ".</p><p class=\"hint\">Nothing of the page is left to show. <code>nav reload</code> asks for it again &mdash; or press <kbd>Ctrl</kbd>+<kbd>R</kbd>, which is the same thing. Anything you had typed into it is gone.</p><p class=\"uri\">"@
        + interstitial::escaped(uri) + "</p></main></body></html>"@
}

/// The page a crashed tab shows, in the theme the browser is wearing.
pub fn page(uri: &str, why: Termination, theme: Option<(&str, &str)>) -> (r: String)
    ensures
        r@ == crash_page(
            uri@,
            reason_text(why),
            weburl::host_text(uri@),
            match theme {
                Some((vars, mine)) => Some((vars@, mine@)),
                None => None,
            },
        ),
{
    page_for(uri, describe(why), weburl::host(uri), theme)
}

/// The page a crashed tab shows, given the host of the address it was at.
pub fn page_for(
    uri: &str,
    reason: &str,
    host: Option<Option<String>>,
    theme: Option<(&str, &str)>,
) -> (r: String)
    ensures
        r@ == crash_page(
            uri@,
            reason@,
            match host {
                Some(Some(name)) => Some(Some(name@)),
                Some(None) => Some(None),
                None => None,
            },
            match theme {
                Some((vars, mine)) => Some((vars@, mine@)),
                None => None,
            },
        ),
{
    let (vars, mine) = match theme {
        Some(both) => both,
        None => (interstitial::FALLBACK_VARS, ""),
    };
    proof {
        reveal_strlit("");
        assert(""@ =~= Seq::<char>::empty());
    }
    let mut out =
        "<!DOCTYPE html>\n<html lang=\"en\"><head><meta charset=\"utf-8\"><title>This page stopped responding</title><style>".to_owned();
    out.append(vars);
    out.append("</style><style>");
    out.append(mine);
    out.append("</style><style>");
    out.append(CRASH_CSS);
    out.append("</style></head><body><main><p class=\"tag\">crashed</p><h1>");
    out.append(interstitial::escape(host_heading(host).as_str()).as_str());
    out.append("</h1><p class=\"sub\">stopped responding, because ");
    out.append(reason);
    out.append(
        ".</p><p class=\"hint\">Nothing of the page is left to show. <code>nav reload</code> asks for it again &mdash; or press <kbd>Ctrl</kbd>+<kbd>R</kbd>, which is the same thing. Anything you had typed into it is gone.</p><p class=\"uri\">",
    );
    out.append(interstitial::escape(uri).as_str());
    out.append("</p></main></body></html>");
    out
}

/// What to put in the heading for a host that was read. A tab that crashed
/// before it had a URL at all, or at an address that has no host, is "This page",
/// which is wrong-sounding but true, and better than an empty heading.
pub fn host_heading(host: Option<Option<String>>) -> (r: String)
    ensures
        r@ == heading(
            match host {
                Some(Some(name)) => Some(Some(name@)),
                Some(None) => Some(None),
                None => None,
            },
        ),
{
    interstitial::host_heading(host)
}

/// The host, for the heading: a whole URL in 2rem type wraps to three lines and
/// says nothing the line underneath does not.
pub fn host_of(uri: &str) -> (r: String)
    ensures
        r@ == heading(weburl::host_text(uri@)),
{
    host_heading(weburl::host(uri))
}

/// Deliberately the same shape as the certificate page's stylesheet: a crash and
/// a refused certificate are the same kind of event to whoever is looking at
/// them, and they should not look like two different browsers.
pub const CRASH_CSS: &'static str = r#"
* { box-sizing: border-box; }
html, body { margin: 0; height: 100%; background: var(--oma-veil); color: var(--oma-fg);
  font-family: system-ui, sans-serif; }
main { height: 100%; display: flex; flex-direction: column; align-items: center;
  justify-content: center; gap: var(--oma-space); padding: var(--oma-space-2);
  max-width: 46rem; margin: 0 auto; text-align: center; }
.tag { margin: 0; text-transform: uppercase; letter-spacing: 0.16em;
  font-size: var(--oma-font-small); color: var(--oma-color-red); }
h1 { margin: 0; font-size: 2rem; font-weight: 600; color: var(--oma-fg);
  font-family: var(--oma-font-mono); word-break: break-all; }
.sub { margin: 0; color: var(--oma-fg); }
.hint { margin: var(--oma-space) 0 0; color: var(--oma-fg); line-height: 1.6; }
code, kbd { font-family: var(--oma-font-mono); color: var(--oma-accent);
  border: 1px solid var(--oma-control-normal-border); padding: 0 6px; }
.uri { margin: var(--oma-space-2) 0 0; color: var(--oma-muted);
  font-family: var(--oma-font-mono); font-size: var(--oma-font-small);
  word-break: break-all; opacity: 0.7; }
"#;

// ---------------------------------------------------------------------------
// Laws
// ---------------------------------------------------------------------------

/// Each reason is told apart from the others in the words it is given.
pub proof fn law_reason_says_what_happened()
    ensures
        text::says(reason_text(Termination::ExceededMemoryLimit), "memory"@),
        text::says(reason_text(Termination::TerminatedByApi), "browser"@),
        text::says(reason_text(Termination::Other), "unexpectedly"@),
{
    reveal_strlit("it ran out of memory");
    reveal_strlit("the browser stopped it");
    reveal_strlit("it stopped unexpectedly");
    reveal_strlit("memory");
    reveal_strlit("browser");
    reveal_strlit("unexpectedly");
    assert("it ran out of memory"@.subrange(14, 20) =~= "memory"@);
    assert(text::stands_at(reason_text(Termination::ExceededMemoryLimit), "memory"@, 14));
    assert("the browser stopped it"@.subrange(4, 11) =~= "browser"@);
    assert(text::stands_at(reason_text(Termination::TerminatedByApi), "browser"@, 4));
    assert("it stopped unexpectedly"@.subrange(11, 23) =~= "unexpectedly"@);
    assert(text::stands_at(reason_text(Termination::Other), "unexpectedly"@, 11));
}

} // verus!
