//! `page`: looking into the page on screen, and taking it away.

use vstd::prelude::*;
use vstd::utf8::*;

use crate::commands;
use crate::commands::Refusal;
use crate::commands::tab;
use crate::commands::tab::Toggle;
use crate::downloads;
use crate::json;
use crate::number;
use crate::paths;
use crate::shot::Shot;
use crate::text;

verus! {

/// `page eval`: the script to run.
pub fn eval(option: Option<String>, positional: Option<String>) -> (r: Result<String, Refusal>)
    ensures
        match commands::first(option, positional) {
            Some(js) => r == Ok::<String, Refusal>(js),
            None => r matches Err(refusal) && commands::refuses(
                refusal,
                "usage"@,
                "a script is required"@,
            ),
        },
{
    match commands::either(option, positional) {
        Some(js) => Ok(js),
        None => Err(commands::refuse("usage", "a script is required")),
    }
}

/// What a script came to.
#[derive(Debug)]
pub struct Evaluated {
    /// The expression's value, as JSON.
    pub result: String,
}

/// `page eval`: what it comes to.
pub fn evaluated(done: Result<String, String>) -> (r: Result<Evaluated, Refusal>)
    ensures
        match done {
            Ok(result) => r matches Ok(evaluated) && evaluated.result == result,
            Err(e) => r matches Err(refusal) && commands::refuses(refusal, "webview"@, e@),
        },
{
    match commands::from_view(done) {
        Ok(result) => Ok(Evaluated { result }),
        Err(refusal) => Err(refusal),
    }
}

/// `page screenshot`: what it comes to, given where it was to go and how taking it
/// went. A path that cannot be placed is the caller's mistake to hear about as one.
pub fn screenshot(path: Result<String, String>, captured: Result<Shot, String>) -> (r: Result<
    Shot,
    Refusal,
>)
    ensures
        match (path, captured) {
            (Err(e), _) => r matches Err(refusal) && commands::refuses(refusal, "path"@, e@),
            (Ok(_), Ok(shot)) => r == Ok::<Shot, Refusal>(shot),
            (Ok(_), Err(e)) => r matches Err(refusal) && commands::refuses(
                refusal,
                "webview"@,
                e@,
            ),
        },
{
    if let Err(refusal) = commands::reported(path, "path") {
        return Err(refusal);
    }
    commands::from_view(captured)
}

// ---------------------------------------------------------------------------
// Zoom
// ---------------------------------------------------------------------------

/// What to do to the zoom of a tab.
#[derive(Debug, Clone, Copy, PartialEq, Eq, Structural)]
pub enum ZoomChange {
    /// To the level that was given.
    Exactly,
    In,
    Out,
    Reset,
}

/// What a direction means: back to normal with none.
pub open spec fn zoom_meant(direction: Option<Seq<char>>) -> Option<ZoomChange> {
    match direction {
        None => Some(ZoomChange::Reset),
        Some(word) => if word == "in"@ {
            Some(ZoomChange::In)
        } else if word == "out"@ {
            Some(ZoomChange::Out)
        } else if word == "reset"@ {
            Some(ZoomChange::Reset)
        } else {
            None
        },
    }
}

/// `page zoom`: what to do. A level given settles it, whatever else was said.
pub fn zoom(has_level: bool, direction: Option<&str>) -> (r: Result<ZoomChange, Refusal>)
    ensures
        if has_level {
            r == Ok::<ZoomChange, Refusal>(ZoomChange::Exactly)
        } else {
            match zoom_meant(text::maybe(direction)) {
                Some(change) => r == Ok::<ZoomChange, Refusal>(change),
                None => r matches Err(refusal) && commands::refuses(
                    refusal,
                    "usage"@,
                    commands::unknown("direction"@, direction->0@, "use in, out or reset"@),
                ),
            }
        },
{
    if has_level {
        return Ok(ZoomChange::Exactly);
    }
    let word = match direction {
        Some(word) => word,
        None => return Ok(ZoomChange::Reset),
    };
    if text::same(word, "in") {
        Ok(ZoomChange::In)
    } else if text::same(word, "out") {
        Ok(ZoomChange::Out)
    } else if text::same(word, "reset") {
        Ok(ZoomChange::Reset)
    } else {
        Err(commands::refuse_word("usage", "direction", word, "use in, out or reset"))
    }
}

// ---------------------------------------------------------------------------
// Hints
// ---------------------------------------------------------------------------

/// What a word for a way of hinting means, in the word the page's script knows.
pub open spec fn mode_meant(word: Option<Seq<char>>) -> Option<Seq<char>> {
    match word {
        None => Some("click"@),
        Some(word) => if word == "click"@ || word == "open"@ || word == "show"@ {
            Some("click"@)
        } else if word == "newtab"@ || word == "tab"@ || word == "background"@ {
            Some("newtab"@)
        } else if word == "clear"@ || word == "hide"@ || word == "off"@ {
            Some("clear"@)
        } else {
            None
        },
    }
}

fn hints_mode(word: Option<&str>) -> (r: Option<&'static str>)
    ensures
        text::maybe(r) == mode_meant(text::maybe(word)),
{
    let word = match word {
        Some(word) => word,
        None => return Some("click"),
    };
    if text::same(word, "click") || text::same(word, "open") || text::same(word, "show") {
        Some("click")
    } else if text::same(word, "newtab") || text::same(word, "tab") || text::same(
        word,
        "background",
    ) {
        Some("newtab")
    } else if text::same(word, "clear") || text::same(word, "hide") || text::same(word, "off") {
        Some("clear")
    } else {
        None
    }
}

/// What asks a page to draw its hints.
pub open spec fn hinting(mode: Seq<char>) -> Seq<char> {
    "window.__omaHints ? String(window.__omaHints(\""@ + mode + "\")) : \"absent\""@
}

/// `page hints`: what to ask the page. It answers with how many hints it drew, or
/// that it has no such script.
pub fn hints(option: Option<String>, positional: Option<String>) -> (r: Result<String, Refusal>)
    ensures
        ({
            let word = commands::first(text::maybe_owned(option), text::maybe_owned(positional));
            match mode_meant(word) {
                Some(mode) => r matches Ok(js) && js@ == hinting(mode),
                None => r matches Err(refusal) && commands::refuses(
                    refusal,
                    "usage"@,
                    commands::unknown("mode"@, word->0, "use click, newtab or clear"@),
                ),
            }
        }),
{
    let asked = commands::either(option, positional);
    let word: Option<&str> = match &asked {
        Some(word) => Some(word.as_str()),
        None => None,
    };
    match hints_mode(word) {
        Some(mode) => {
            let mut js = "window.__omaHints ? String(window.__omaHints(\"".to_owned();
            js.append(mode);
            js.append("\")) : \"absent\"");
            Ok(js)
        },
        None => {
            let word = match word {
                Some(word) => word,
                None => "",
            };
            Err(commands::refuse_word("usage", "mode", word, "use click, newtab or clear"))
        },
    }
}

/// How many hints a page says it drew.
pub open spec fn drawn(raw: Seq<char>) -> Option<nat> {
    number::unsigned(text::trimmed_of(text::trimmed(raw), "\""@), u32::MAX as nat)
}

/// The hints on a page.
#[derive(Debug)]
pub struct Hinted {
    /// How many were drawn. None at all means nothing clickable is on screen.
    pub shown: u32,
}

/// `page hints`: how many hints were drawn, by what the page answered.
pub fn hinted(done: Result<String, String>) -> (r: Result<Hinted, Refusal>)
    ensures
        match done {
            Ok(raw) => match drawn(raw@) {
                Some(n) => r matches Ok(hinted) && hinted.shown == n,
                None => r matches Err(refusal) && commands::refuses(
                    refusal,
                    "no_script"@,
                    "this page does not run our scripts, so it has no hints"@,
                ),
            },
            Err(e) => r matches Err(refusal) && commands::refuses(refusal, "webview"@, e@),
        },
{
    let raw = match commands::from_view(done) {
        Ok(raw) => raw,
        Err(refusal) => return Err(refusal),
    };
    let bare = text::trim_of(text::trim(raw.as_str()).as_str(), "\"");
    match number::parse_u32(bare.as_str()) {
        Some(shown) => Ok(Hinted { shown }),
        None => Err(
            commands::refuse("no_script", "this page does not run our scripts, so it has no hints"),
        ),
    }
}

// ---------------------------------------------------------------------------
// The inspector
// ---------------------------------------------------------------------------

/// `page devtools`: whether to show the engine's inspector.
pub fn devtools(option: Option<String>, positional: Option<String>) -> (r: Result<Toggle, Refusal>)
    ensures
        ({
            let word = tab::switch_word(
                commands::first(text::maybe_owned(option), text::maybe_owned(positional)),
            );
            match tab::toggle_meant(word) {
                Some(toggle) => r == Ok::<Toggle, Refusal>(toggle),
                None => r matches Err(refusal) && commands::refuses(
                    refusal,
                    "bad_action"@,
                    commands::unknown("action"@, word, "expected show, hide or toggle"@),
                ),
            }
        }),
{
    tab::switch(commands::either(option, positional), "expected show, hide or toggle")
}

// ---------------------------------------------------------------------------
// Printing
// ---------------------------------------------------------------------------

/// Where a page is printed to.
#[derive(Debug)]
pub enum Printing {
    /// To this file.
    To(String),
    /// To whatever the dialog says.
    Dialog,
    /// To a file of its own, where downloads go.
    Downloads,
}

/// `page print`: where to. A path is the caller's, and means what it means where
/// the caller stands.
pub fn print(
    option: Option<String>,
    positional: Option<String>,
    dialog: bool,
    scope: &paths::Scope,
    home: Option<&str>,
) -> (r: Result<Printing, Refusal>)
    ensures
        match commands::nonempty(
            commands::first(text::maybe_owned(option), text::maybe_owned(positional)),
        ) {
            Some(asked) => match paths::resolved(asked, scope@, text::maybe(home)) {
                Ok(path) => r matches Ok(Printing::To(same)) && same@ == path,
                Err(why) => r matches Err(refusal) && commands::refuses(refusal, "path"@, why),
            },
            None => if dialog {
                r matches Ok(Printing::Dialog)
            } else {
                r matches Ok(Printing::Downloads)
            },
        },
{
    match commands::unless_empty(commands::either(option, positional)) {
        Some(asked) => match paths::resolve(asked.as_str(), scope, home) {
            Ok(path) => Ok(Printing::To(path)),
            Err(message) => Err(Refusal { code: "path", message }),
        },
        None => if dialog {
            Ok(Printing::Dialog)
        } else {
            Ok(Printing::Downloads)
        },
    }
}

/// What a page printed under its own title is called.
pub open spec fn pdf_name(title: Seq<char>) -> Seq<char> {
    if text::trimmed(title).len() == 0 {
        "page"@ + ".pdf"@
    } else {
        text::trimmed(title) + ".pdf"@
    }
}

/// The file a page goes to when nobody named one: its own title, where downloads
/// go, beside whatever is there already.
pub fn default_pdf(title: &str, dir: &str, there: &[String]) -> (r: String)
    ensures
        downloads::is_free(text::texts(there@), dir@, pdf_name(title@), r@),
{
    let title = text::trim(title);
    let mut name = if title.as_str().is_empty() {
        "page".to_owned()
    } else {
        title
    };
    name.append(".pdf");
    downloads::unique(dir, name.as_str(), there)
}

/// A page that was printed.
#[derive(Debug)]
pub struct Printed {
    /// The file that was written, or nothing where the dialog was opened instead.
    pub path: Option<String>,
}

/// `page print`: what it comes to.
pub fn printed(done: Result<Option<String>, String>) -> (r: Result<Printed, Refusal>)
    ensures
        match done {
            Ok(path) => r matches Ok(printed) && printed.path == path,
            Err(e) => r matches Err(refusal) && commands::refuses(refusal, "webview"@, e@),
        },
{
    match commands::from_view(done) {
        Ok(path) => Ok(Printed { path }),
        Err(refusal) => Err(refusal),
    }
}

// ---------------------------------------------------------------------------
// Files
// ---------------------------------------------------------------------------

/// Whether what was found goes to a file: `--open` and a path both need one.
pub fn wants_file(open: bool, path: Option<&str>) -> (r: bool)
    ensures
        r == (open || path is Some),
{
    open || path.is_some()
}

/// A file that was written, given where it was to go and how the writing went.
pub fn written(path: Result<String, String>, done: Result<(), String>) -> (r: Result<
    String,
    Refusal,
>)
    ensures
        match path {
            Err(why) => r matches Err(refusal) && commands::refuses(refusal, "path"@, why@),
            Ok(path) => match done {
                Ok(_) => r == Ok::<String, Refusal>(path),
                Err(e) => r matches Err(refusal) && commands::refuses(
                    refusal,
                    "io"@,
                    "could not write "@ + path@ + ": "@ + e@,
                ),
            },
        },
{
    let path = match path {
        Ok(path) => path,
        Err(message) => return Err(Refusal { code: "path", message }),
    };
    match done {
        Ok(_) => Ok(path),
        Err(e) => {
            let mut message = "could not write ".to_owned();
            message.append(path.as_str());
            message.append(": ");
            message.append(e.as_str());
            Err(Refusal { code: "io", message })
        },
    }
}

/// How putting something in a file went.
#[derive(Debug)]
pub struct Filing {
    /// Where it was to go.
    pub path: Result<String, String>,
    /// How writing it went.
    pub written: Result<(), String>,
    /// How opening it in a tab went, where that was asked for.
    pub opened: Option<Result<(), String>>,
}

/// Why putting something in a file came to nothing, if it did.
pub open spec fn unfiled(filing: Filing) -> Option<(Seq<char>, Seq<char>)> {
    match filing.path {
        Err(why) => Some(("path"@, why@)),
        Ok(path) => match filing.written {
            Err(e) => Some(("io"@, "could not write "@ + path@ + ": "@ + e@)),
            Ok(_) => match filing.opened {
                Some(Err(e)) => Some(("webview"@, e@)),
                _ => None,
            },
        },
    }
}

/// The file something was put in, or why it was not.
pub fn file_of(filing: Filing) -> (r: Result<String, Refusal>)
    ensures
        match unfiled(filing) {
            Some((code, message)) => r matches Err(refusal) && commands::refuses(
                refusal,
                code,
                message,
            ),
            None => r == Ok::<String, Refusal>(filing.path->Ok_0),
        },
{
    let path = match written(filing.path, filing.written) {
        Ok(path) => path,
        Err(refusal) => return Err(refusal),
    };
    if let Some(opened) = filing.opened {
        if let Err(refusal) = commands::from_view(opened) {
            return Err(refusal);
        }
    }
    Ok(path)
}

/// The address of a file.
pub fn file_url(path: &str) -> (r: String)
    ensures
        r@ == "file://"@ + path@,
{
    let mut url = "file://".to_owned();
    url.append(path);
    url
}

// ---------------------------------------------------------------------------
// The source
// ---------------------------------------------------------------------------

/// What asks a page for its markup: the document on screen, with what this
/// browser put into it taken back out.
pub const SOURCE: &'static str = r#"(function(){
    var root = document.documentElement.cloneNode(true);
    // Every id this browser injects, not just the veil's: the
    // strip's inset is `__oma_strip_inset`, and leaving it in
    // makes the source of every page look like it ships a
    // stylesheet it does not.
    var mine = root.querySelectorAll('[id^="__oma_"],.__oma_browse_backer');
    for (var i = 0; i < mine.length; i++) mine[i].remove();
    return "<!DOCTYPE html>\n" + root.outerHTML;
})()"#;

/// The markup of a page.
#[derive(Debug)]
pub struct Source {
    pub url: String,
    /// How long the markup is, in bytes.
    pub bytes: usize,
    /// The markup itself, unless it went to a file.
    pub html: Option<String>,
    /// The file it went to.
    pub path: Option<String>,
}

/// The markup a page answered with.
pub open spec fn markup(raw: Seq<char>) -> Seq<char> {
    match json::string_value(raw) {
        Some(html) => html,
        None => raw,
    }
}

/// `page source`: the markup of the page at `url`.
pub fn source(url: String, html: String) -> (r: Source)
    ensures
        r.url == url,
        r.bytes == encode_utf8(html@).len(),
        r.html == Some(html),
        r.path is None,
{
    let bytes: usize = html.as_str().as_bytes().len();
    Source { url, bytes, html: Some(html), path: None }
}

/// `page source`: the markup of the page at `url`, by what the page answered.
pub fn source_of(url: String, raw: String) -> (r: Source)
    ensures
        r.url == url,
        r.bytes == encode_utf8(markup(raw@)).len(),
        r.html matches Some(html) && html@ == markup(raw@),
        r.path is None,
{
    source(url, json::unquote(raw))
}

impl Source {
    /// The same once the markup is in a file, where it need not be told again.
    pub fn filed(self, path: String) -> (r: Source)
        ensures
            r.url == self.url,
            r.bytes == self.bytes,
            r.html is None,
            r.path == Some(path),
    {
        Source { url: self.url, bytes: self.bytes, html: None, path: Some(path) }
    }
}

/// `page source`: what it comes to, given how asking the page went, and how
/// putting the markup in a file went where that was asked for.
pub fn sourced(url: String, asked: Result<String, String>, filing: Option<Filing>) -> (r: Result<
    Source,
    Refusal,
>)
    ensures
        match (asked, filing) {
            (Err(e), _) => r matches Err(refusal) && commands::refuses(refusal, "webview"@, e@),
            (Ok(raw), None) => r matches Ok(source) && source.url == url && source.bytes
                == encode_utf8(markup(raw@)).len() && source.path is None && (source.html matches Some(
                html,
            ) && html@ == markup(raw@)),
            (Ok(raw), Some(filing)) => match unfiled(filing) {
                Some((code, message)) => r matches Err(refusal) && commands::refuses(
                    refusal,
                    code,
                    message,
                ),
                None => r matches Ok(source) && source.url == url && source.bytes == encode_utf8(
                    markup(raw@),
                ).len() && source.html is None && source.path == Some(filing.path->Ok_0),
            },
        },
{
    let raw = match commands::from_view(asked) {
        Ok(raw) => raw,
        Err(refusal) => return Err(refusal),
    };
    let source = source_of(url, raw);
    match filing {
        None => Ok(source),
        Some(filing) => match file_of(filing) {
            Ok(path) => Ok(source.filed(path)),
            Err(refusal) => Err(refusal),
        },
    }
}

// ---------------------------------------------------------------------------
// The article
// ---------------------------------------------------------------------------

/// What the reader found on a page.
#[derive(Debug)]
pub struct Extracted {
    pub title: String,
    pub url: String,
    pub markdown: String,
    pub text: String,
    pub html: String,
}

/// The article on a page.
#[derive(Debug)]
pub struct Reading {
    pub url: String,
    pub title: String,
    /// How many characters of prose. None at all means the reader found nothing,
    /// which on a page that is all script is the honest answer.
    pub chars: usize,
    /// The prose itself, unless it went to a file.
    pub content: Option<String>,
    /// The file it went to.
    pub path: Option<String>,
}

/// What the reader's script answered, out of the quotes it came in, or why it
/// could not be asked.
pub fn reader_said(asked: Result<String, String>) -> (r: Result<String, Refusal>)
    ensures
        match asked {
            Ok(raw) => r matches Ok(said) && said@ == markup(raw@),
            Err(e) => r matches Err(refusal) && commands::refuses(refusal, "webview"@, e@),
        },
{
    match commands::from_view(asked) {
        Ok(raw) => Ok(json::unquote(raw)),
        Err(refusal) => Err(refusal),
    }
}

/// What the reader found, given how its answer reads, or why it cannot be read.
pub fn read_page(read: Result<Extracted, String>) -> (r: Result<Extracted, Refusal>)
    ensures
        match read {
            Ok(found) => r == Ok::<Extracted, Refusal>(found),
            Err(e) => r matches Err(refusal) && commands::refuses(
                refusal,
                "webview"@,
                "the reader answered with something unreadable: "@ + e@,
            ),
        },
{
    match read {
        Ok(found) => Ok(found),
        Err(e) => {
            let mut message = "the reader answered with something unreadable: ".to_owned();
            message.append(e.as_str());
            Err(Refusal { code: "webview", message })
        },
    }
}

/// The article, as markdown or as text.
pub open spec fn prose(found: Extracted, markdown: bool) -> String {
    if markdown {
        found.markdown
    } else {
        found.text
    }
}

/// `page markdown` and `page text`: the article, as one or the other. They differ
/// in one field, so they are one function with a flag.
pub fn reading(found: Extracted, markdown: bool) -> (r: Reading)
    ensures
        r.url == found.url,
        r.title == found.title,
        r.content == Some(prose(found, markdown)),
        r.chars == prose(found, markdown)@.len(),
        r.path is None,
{
    let content = if markdown {
        found.markdown
    } else {
        found.text
    };
    let chars: usize = text::chars_of(content.as_str()).len();
    Reading { url: found.url, title: found.title, chars, content: Some(content), path: None }
}

/// What a file of the article is called, and what kind of file it is.
pub fn reading_file(markdown: bool) -> (r: (&'static str, &'static str))
    ensures
        r.0@ == if markdown {
            "markdown"@
        } else {
            "text"@
        },
        r.1@ == if markdown {
            "md"@
        } else {
            "txt"@
        },
{
    if markdown {
        ("markdown", "md")
    } else {
        ("text", "txt")
    }
}

impl Reading {
    /// The same once the article is in a file, where it need not be told again.
    pub fn filed(self, path: String) -> (r: Reading)
        ensures
            r.url == self.url,
            r.title == self.title,
            r.chars == self.chars,
            r.content is None,
            r.path == Some(path),
    {
        Reading {
            url: self.url,
            title: self.title,
            chars: self.chars,
            content: None,
            path: Some(path),
        }
    }
}

/// `page markdown` and `page text`: what they come to, given how putting the
/// article in a file went where that was asked for.
pub fn told(found: Extracted, markdown: bool, filing: Option<Filing>) -> (r: Result<
    Reading,
    Refusal,
>)
    ensures
        match filing {
            None => r matches Ok(reading) && reading.url == found.url && reading.title
                == found.title && reading.chars == prose(found, markdown)@.len() && reading.content
                == Some(prose(found, markdown)) && reading.path is None,
            Some(filing) => match unfiled(filing) {
                Some((code, message)) => r matches Err(refusal) && commands::refuses(
                    refusal,
                    code,
                    message,
                ),
                None => r matches Ok(reading) && reading.url == found.url && reading.title
                    == found.title && reading.chars == prose(found, markdown)@.len()
                    && reading.content is None && reading.path == Some(filing.path->Ok_0),
            },
        },
{
    let reading = reading(found, markdown);
    match filing {
        None => Ok(reading),
        Some(filing) => match file_of(filing) {
            Ok(path) => Ok(reading.filed(path)),
            Err(refusal) => Err(refusal),
        },
    }
}

/// What the reader's other half is given: the article, as one JSON object.
pub open spec fn payload(found: Extracted) -> Seq<char> {
    "{\"base\":"@ + json::quoted(found.url@) + ",\"html\":"@ + json::quoted(found.html@)
        + ",\"title\":"@ + json::quoted(found.title@) + "}"@
}

/// `page reader`: the script that puts the article in the place of the page, given
/// the reader's own, and what is then said of it.
///
/// The markup goes in as an argument rather than being put into the script: it is
/// somebody else's.
pub fn reader(script: &str, found: Extracted) -> (r: Result<(String, Reading), Refusal>)
    ensures
        if text::trimmed(found.html@).len() == 0 {
            r matches Err(refusal) && commands::refuses(
                refusal,
                "no_article"@,
                "there is no article on this page to read"@,
            )
        } else {
            r matches Ok((js, reading)) && js@ == "("@ + script@ + ")("@ + payload(found) + ")"@
                && reading.url == found.url && reading.title == found.title && reading.chars
                == found.text@.len() && reading.content is None && reading.path is None
        },
{
    if text::trim(found.html.as_str()).as_str().is_empty() {
        return Err(commands::refuse("no_article", "there is no article on this page to read"));
    }
    let mut given = "{\"base\":".to_owned();
    given.append(json::quote(found.url.as_str()).as_str());
    given.append(",\"html\":");
    given.append(json::quote(found.html.as_str()).as_str());
    given.append(",\"title\":");
    given.append(json::quote(found.title.as_str()).as_str());
    given.append("}");
    let mut js = "(".to_owned();
    js.append(script);
    js.append(")(");
    js.append(given.as_str());
    js.append(")");
    let chars: usize = text::chars_of(found.text.as_str()).len();
    let reading = Reading {
        url: found.url,
        title: found.title,
        chars,
        content: None,
        path: None,
    };
    Ok((js, reading))
}

/// `page reader`: what it comes to, given how putting the article in the place of
/// the page went.
pub fn shown(reading: Reading, done: Result<(), String>) -> (r: Result<Reading, Refusal>)
    ensures
        match done {
            Ok(_) => r == Ok::<Reading, Refusal>(reading),
            Err(e) => r matches Err(refusal) && commands::refuses(refusal, "webview"@, e@),
        },
{
    match commands::from_view(done) {
        Ok(_) => Ok(reading),
        Err(refusal) => Err(refusal),
    }
}

// ---------------------------------------------------------------------------
// Laws
// ---------------------------------------------------------------------------

/// A page is zoomed in and out by the word, and back to its own size by the third or by
/// saying nothing.
pub proof fn law_zoom_goes_by_the_word(word: Seq<char>)
    ensures
        zoom_meant(None) == Some(ZoomChange::Reset),
        zoom_meant(Some(word)) == Some(ZoomChange::In) <==> word == "in"@,
        zoom_meant(Some(word)) == Some(ZoomChange::Out) <==> word == "out"@,
        zoom_meant(Some(word)) == Some(ZoomChange::Reset) <==> word == "reset"@,
{
    reveal_strlit("in");
    reveal_strlit("out");
    reveal_strlit("reset");
    assert("in"@.len() == 2);
    assert("out"@.len() == 3);
    assert("reset"@.len() == 5);
}

/// Hints are for clicking, for opening tabs, or to be taken away again, each in three
/// spellings, and for clicking where nothing is said.
pub proof fn law_hints_go_by_the_word(word: Seq<char>)
    ensures
        mode_meant(None) == Some("click"@),
        mode_meant(Some(word)) == Some("click"@) <==> word == "click"@ || word == "open"@ || word == "show"@,
        mode_meant(Some(word)) == Some("newtab"@) <==> word == "newtab"@ || word == "tab"@ || word == "background"@,
        mode_meant(Some(word)) == Some("clear"@) <==> word == "clear"@ || word == "hide"@ || word == "off"@,
{
    reveal_strlit("click");
    reveal_strlit("open");
    reveal_strlit("show");
    reveal_strlit("newtab");
    reveal_strlit("tab");
    reveal_strlit("background");
    reveal_strlit("clear");
    reveal_strlit("hide");
    reveal_strlit("off");
    assert("click"@.len() == 5);
    assert("open"@.len() == 4);
    assert("show"@.len() == 4);
    assert("newtab"@.len() == 6);
    assert("tab"@.len() == 3);
    assert("background"@.len() == 10);
    assert("clear"@.len() == 5);
    assert("hide"@.len() == 4);
    assert("off"@.len() == 3);
    assert("click"@[2] == 'i');
    assert("clear"@[2] == 'e');
    assert("open"@[0] == 'o');
    assert("show"@[0] == 's');
    assert("hide"@[0] == 'h');
    assert("tab"@[0] == 't');
    assert("off"@[0] == 'o');
}

/// A page that is printed is named after its title, and one without a title is called
/// a page.
pub proof fn law_print_is_named_after_the_page(title: Seq<char>)
    ensures
        title.len() > 0 && !text::is_space(title[0]) && !text::is_space(title.last()) ==> pdf_name(
            title,
        ) == title + ".pdf"@,
        pdf_name(Seq::empty()) == "page.pdf"@,
{
    reveal_strlit("page");
    reveal_strlit(".pdf");
    reveal_strlit("page.pdf");
    assert("page"@ + ".pdf"@ =~= "page.pdf"@);
}

/// A file is there when it had a place to go, was written, and was opened where that was
/// asked for. Otherwise the first of these to fail is what is told.
pub proof fn law_first_failure_is_told(filing: Filing)
    ensures
        unfiled(filing) is None <==> filing.path is Ok && filing.written is Ok && !(
        filing.opened matches Some(Err(_))),
        filing.path matches Err(why) ==> unfiled(filing) == Some(("path"@, why@)),
        filing.path matches Ok(path) ==> (filing.written matches Err(e) ==> unfiled(filing) == Some(
            ("io"@, "could not write "@ + path@ + ": "@ + e@),
        )),
        filing.path is Ok && filing.written is Ok ==> (filing.opened matches Some(Err(e)) ==> unfiled(
            filing,
        ) == Some(("webview"@, e@))),
{
}

} // verus!
