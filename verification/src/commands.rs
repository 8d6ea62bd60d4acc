//! What each command means.
//!
//! Every browser action is decided here exactly once, whichever way it was asked
//! for: what is acted on when nothing was named, what is refused and in which
//! words, and what comes back. Doing it to a page is left to whoever holds one.

use vstd::prelude::*;

use crate::text;

pub mod acting;
pub mod bookmark;
pub mod content;
pub mod download;
pub mod find;
pub mod history;
pub mod logs;
pub mod nav;
pub mod page;
pub mod permission;
pub mod settings;
pub mod share;
pub mod tab;
pub mod theme;
pub mod ui;
pub mod window;

verus! {

/// Why a command was not carried out: a word for a program, and a sentence for a
/// person. `usage` is the one that means "ask again, with an argument".
#[derive(Debug)]
pub struct Refusal {
    pub code: &'static str,
    pub message: String,
}

/// Whether a refusal is this one.
pub open spec fn refuses(refusal: Refusal, code: Seq<char>, message: Seq<char>) -> bool {
    refusal.code@ == code && refusal.message@ == message
}

/// Refuse, with a sentence that is always the same.
pub fn refuse(code: &'static str, message: &str) -> (r: Refusal)
    ensures
        refuses(r, code@, message@),
{
    Refusal { code, message: message.to_owned() }
}

/// What came of work done elsewhere, where its failure is reported under `code`.
pub fn reported<T>(done: Result<T, String>, code: &'static str) -> (r: Result<T, Refusal>)
    ensures
        match done {
            Ok(value) => r == Ok::<T, Refusal>(value),
            Err(e) => r matches Err(refusal) && refuses(refusal, code@, e@),
        },
{
    match done {
        Ok(value) => Ok(value),
        Err(message) => Err(Refusal { code, message }),
    }
}

/// What a page did when it was asked, or why it could not be asked.
pub fn from_view<T>(done: Result<T, String>) -> (r: Result<T, Refusal>)
    ensures
        match done {
            Ok(value) => r == Ok::<T, Refusal>(value),
            Err(e) => r matches Err(refusal) && refuses(refusal, "webview"@, e@),
        },
{
    reported(done, "webview")
}

/// Something that was done, and has nothing more to say.
#[derive(Debug)]
pub struct Acted {
    pub ok: bool,
}

/// `nav back`, `forward`, `stop` and `reload`, and `find next`, `previous` and
/// `clear`: what they come to.
pub fn acted(done: Result<(), String>) -> (r: Result<Acted, Refusal>)
    ensures
        match done {
            Ok(_) => r matches Ok(acted) && acted.ok,
            Err(e) => r matches Err(refusal) && refuses(refusal, "webview"@, e@),
        },
{
    match from_view(done) {
        Ok(_) => Ok(Acted { ok: true }),
        Err(refusal) => Err(refusal),
    }
}

/// A switch that was turned.
#[derive(Debug)]
pub struct Toggled {
    /// Where the thing ended up.
    pub on: bool,
}

/// `tab mute` and `page devtools`: what they come to.
pub fn toggled(done: Result<bool, String>) -> (r: Result<Toggled, Refusal>)
    ensures
        match done {
            Ok(on) => r matches Ok(toggled) && toggled.on == on,
            Err(e) => r matches Err(refusal) && refuses(refusal, "webview"@, e@),
        },
{
    match from_view(done) {
        Ok(on) => Ok(Toggled { on }),
        Err(refusal) => Err(refusal),
    }
}

/// The page being looked at.
#[derive(Debug)]
pub struct Here {
    pub url: String,
    pub title: String,
}

/// The address of the page being looked at, if there is one.
pub open spec fn here_url(here: Option<&Here>) -> Option<Seq<char>> {
    match here {
        Some(here) => Some(here.url@),
        None => None,
    }
}

/// The title of the page being looked at, if there is one.
pub open spec fn here_title(here: Option<&Here>) -> Option<Seq<char>> {
    match here {
        Some(here) => Some(here.title@),
        None => None,
    }
}

/// The first of two that is there.
pub open spec fn first<T>(a: Option<T>, b: Option<T>) -> Option<T> {
    match a {
        Some(a) => Some(a),
        None => b,
    }
}

/// The same argument given two ways: as an option, which a transport that cannot
/// carry slashes needs, and as a positional, which is what anyone would type. The
/// option wins.
pub fn either(option: Option<String>, positional: Option<String>) -> (r: Option<String>)
    ensures
        r == first(option, positional),
{
    match option {
        Some(option) => Some(option),
        None => positional,
    }
}

/// A text, where it is not empty.
pub open spec fn nonempty(s: Option<Seq<char>>) -> Option<Seq<char>> {
    match s {
        Some(s) => if s.len() > 0 {
            Some(s)
        } else {
            None
        },
        None => None,
    }
}

pub(crate) fn unless_empty(s: Option<String>) -> (r: Option<String>)
    ensures
        text::maybe_owned(r) == nonempty(text::maybe_owned(s)),
{
    match s {
        Some(s) => if s.as_str().is_empty() {
            None
        } else {
            Some(s)
        },
        None => None,
    }
}

pub(crate) fn url_of(here: Option<&Here>) -> (r: Option<String>)
    ensures
        text::maybe_owned(r) == here_url(here),
{
    match here {
        Some(here) => Some(here.url.clone()),
        None => None,
    }
}

pub(crate) fn title_of(here: Option<&Here>) -> (r: Option<String>)
    ensures
        text::maybe_owned(r) == here_title(here),
{
    match here {
        Some(here) => Some(here.title.clone()),
        None => None,
    }
}

/// A text, or nothing as the empty one.
pub open spec fn or_empty(s: Option<Seq<char>>) -> Seq<char> {
    match s {
        Some(s) => s,
        None => Seq::empty(),
    }
}

pub(crate) fn or_nothing(s: Option<String>) -> (r: String)
    ensures
        r@ == or_empty(text::maybe_owned(s)),
{
    match s {
        Some(s) => s,
        None => String::new(),
    }
}

/// What is said of a word that is none of those expected.
pub open spec fn unknown(what: Seq<char>, word: Seq<char>, instead: Seq<char>) -> Seq<char> {
    "unknown "@ + what + " "@ + text::shown(word) + "; "@ + instead
}

/// Refuse a word that is none of those expected.
pub(crate) fn refuse_word(
    code: &'static str,
    what: &str,
    word: &str,
    instead: &str,
) -> (r: Refusal)
    ensures
        refuses(r, code@, unknown(what@, word@, instead@)),
{
    let mut message = "unknown ".to_owned();
    message.append(what);
    message.append(" ");
    message.append(text::show(word).as_str());
    message.append("; ");
    message.append(instead);
    Refusal { code, message }
}

/// How many of a list are shown: as many as asked for, or fifty.
pub open spec fn shown_of(limit: Option<u32>) -> nat {
    match limit {
        Some(limit) => limit as nat,
        None => 50,
    }
}

pub(crate) fn limit_of(limit: Option<u32>) -> (r: u32)
    ensures
        r == shown_of(limit),
{
    match limit {
        Some(limit) => limit,
        None => 50,
    }
}

} // verus!
