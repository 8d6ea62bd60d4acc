//! `page click`, `page fill` and `page wait`: acting on a page, and waiting for it.
//!
//! Each is a script run in the page. The value here is not the running, it is the
//! waiting, the trying again and the one message when it never happens.

use vstd::prelude::*;

use crate::commands;
use crate::commands::Refusal;
use crate::inspect::Exchange;
use crate::json;
use crate::number;
use crate::text;
use crate::weburl;

verus! {

/// How long an element is waited for by default, in milliseconds.
pub const WAIT_MS: u64 = 10_000;

/// How often to look again while waiting.
pub const POLL_MS: u64 = 50;

/// How long nothing may have been fetched for a page to be idle.
pub const QUIET_MS: u64 = 500;

/// A request still pending after this long is not the page loading. It is a
/// beacon, a long poll or an event stream, and none of those ever finish.
pub const STALL_MS: u64 = 2_000;

/// What every script that acts on an element begins with, up to the selector.
pub const FOUND_BY: &'static str = r#"(function(){
    var found = document.querySelectorAll("#;

/// Up to which of the matches is meant.
pub const UNLESS: &'static str = r#");
    if (found.length <= "#;

/// Up to the same once more.
pub const PICK: &'static str = r#") return null;
    var el = found["#;

/// Clicking. The events around the click are not ceremony: plenty of menus open on
/// `mousedown` and never see a click at all.
pub const CLICK: &'static str = r#"];
    el.scrollIntoView({block: "center", inline: "center"});
    var box = el.getBoundingClientRect();
    var where = {
        bubbles: true, cancelable: true, view: window,
        clientX: box.left + box.width / 2,
        clientY: box.top + box.height / 2
    };
    el.dispatchEvent(new MouseEvent("mousedown", where));
    el.dispatchEvent(new MouseEvent("mouseup", where));
    if (typeof el.click === "function") el.click();
    else el.dispatchEvent(new MouseEvent("click", where));
    return found.length;
})()"#;

/// Filling, up to whether to add to what is there.
pub const FOCUS: &'static str = r#"];
    el.focus();
    if (el.isContentEditable) {
        el.textContent = "#;

/// Up to the text that is added.
pub const AFTER_CONTENT: &'static str = r#" ? (el.textContent || "") + "#;

/// Up to the text that takes the place of what is there.
pub const OTHERWISE: &'static str = r#" : "#;

/// Filling a field, up to whether to add to what is there. The value is set by the
/// field's own setter, which is what makes a framework see it.
pub const INTO_FIELD: &'static str = r#";
    } else {
        var proto = (typeof HTMLTextAreaElement !== "undefined"
            && el instanceof HTMLTextAreaElement)
            ? HTMLTextAreaElement.prototype
            : HTMLInputElement.prototype;
        var slot = Object.getOwnPropertyDescriptor(proto, "value");
        var next = "#;

/// Up to the text that is added.
pub const AFTER_VALUE: &'static str = r#" ? (el.value || "") + "#;

/// Telling the page that the field changed.
pub const TELL: &'static str = r#";
        if (slot && slot.set) slot.set.call(el, next);
        else el.value = next;
    }
    el.dispatchEvent(new Event("input", {bubbles: true}));
    el.dispatchEvent(new Event("change", {bubbles: true}));
    return found.length;
})()"#;

// ---------------------------------------------------------------------------
// The scripts
// ---------------------------------------------------------------------------

/// A JavaScript string literal for a value that came from a person's shell.
pub fn js_string(value: &str) -> (r: String)
    ensures
        r@ == json::quoted(value@),
{
    json::quote(value)
}

/// The beginning of a script that acts on the `nth` match of a selector.
pub open spec fn picking(selector: Seq<char>, nth: nat) -> Seq<char> {
    FOUND_BY@ + json::quoted(selector) + UNLESS@ + number::decimal(nth) + PICK@
        + number::decimal(nth)
}

fn pick_script(selector: &str, nth: u64) -> (r: String)
    ensures
        r@ == picking(selector@, nth as nat),
{
    let mut js = FOUND_BY.to_owned();
    js.append(js_string(selector).as_str());
    js.append(UNLESS);
    js.append(number::to_decimal(nth).as_str());
    js.append(PICK);
    js.append(number::to_decimal(nth).as_str());
    js
}

/// The script that clicks. It answers with how many elements matched, or nothing
/// while there are too few.
pub fn click_script(selector: &str, nth: u64) -> (r: String)
    ensures
        r@ == picking(selector@, nth as nat) + CLICK@,
{
    let mut js = pick_script(selector, nth);
    js.append(CLICK);
    js
}

/// What a truth value is called.
pub open spec fn truth(b: bool) -> Seq<char> {
    if b {
        "true"@
    } else {
        "false"@
    }
}

/// The script that fills.
pub open spec fn filling(selector: Seq<char>, nth: nat, text: Seq<char>, append: bool) -> Seq<
    char,
> {
    picking(selector, nth) + FOCUS@ + truth(append) + AFTER_CONTENT@ + json::quoted(text)
        + OTHERWISE@ + json::quoted(text) + INTO_FIELD@ + truth(append) + AFTER_VALUE@
        + json::quoted(text) + OTHERWISE@ + json::quoted(text) + TELL@
}

/// The script that fills a field, or anything else that can be typed into, and
/// tells the page it changed the way a real keystroke would.
pub fn fill_script(selector: &str, nth: u64, text: &str, append: bool) -> (r: String)
    ensures
        r@ == filling(selector@, nth as nat, text@, append),
{
    let flag = if append {
        "true"
    } else {
        "false"
    };
    let literal = js_string(text);
    let mut js = pick_script(selector, nth);
    js.append(FOCUS);
    js.append(flag);
    js.append(AFTER_CONTENT);
    js.append(literal.as_str());
    js.append(OTHERWISE);
    js.append(literal.as_str());
    js.append(INTO_FIELD);
    js.append(flag);
    js.append(AFTER_VALUE);
    js.append(literal.as_str());
    js.append(OTHERWISE);
    js.append(literal.as_str());
    js.append(TELL);
    js
}

/// The element to act on: which selector was given.
pub fn selector_of(option: Option<String>, positional: Option<String>) -> (r: Result<
    String,
    Refusal,
>)
    ensures
        match commands::first(option, positional) {
            Some(selector) => r == Ok::<String, Refusal>(selector),
            None => r matches Err(refusal) && commands::refuses(
                refusal,
                "usage"@,
                "a CSS selector is required"@,
            ),
        },
{
    match commands::either(option, positional) {
        Some(selector) => Ok(selector),
        None => Err(commands::refuse("usage", "a CSS selector is required")),
    }
}

// ---------------------------------------------------------------------------
// What to fill in
// ---------------------------------------------------------------------------

/// A password manager.
#[derive(Debug, Clone, Copy, PartialEq, Eq, Structural)]
pub enum Vault {
    Rbw,
    Op,
    Pass,
}

/// What to take out of an entry.
#[derive(Debug, Clone, Copy, PartialEq, Eq, Structural)]
pub enum Field {
    Password,
    Username,
}

/// The password manager a name stands for.
pub open spec fn vault_named(name: Seq<char>) -> Option<Vault> {
    if name == "rbw"@ {
        Some(Vault::Rbw)
    } else if name == "op"@ {
        Some(Vault::Op)
    } else if name == "pass"@ {
        Some(Vault::Pass)
    } else {
        None
    }
}

/// The field a name stands for.
pub open spec fn field_named(name: Option<Seq<char>>) -> Option<Field> {
    match name {
        None => Some(Field::Password),
        Some(name) => if name == "password"@ {
            Some(Field::Password)
        } else if name == "username"@ {
            Some(Field::Username)
        } else {
            None
        },
    }
}

impl Vault {
    pub fn parse(raw: &str) -> (r: Option<Vault>)
        ensures
            r == vault_named(raw@),
    {
        if text::same(raw, "rbw") {
            Some(Vault::Rbw)
        } else if text::same(raw, "op") {
            Some(Vault::Op)
        } else if text::same(raw, "pass") {
            Some(Vault::Pass)
        } else {
            None
        }
    }
}

fn read_field(raw: Option<&str>) -> (r: Option<Field>)
    ensures
        r == field_named(text::maybe(raw)),
{
    match raw {
        None => Some(Field::Password),
        Some(raw) => if text::same(raw, "password") {
            Some(Field::Password)
        } else if text::same(raw, "username") {
            Some(Field::Username)
        } else {
            None
        },
    }
}

/// Where the text to fill in comes from.
#[derive(Debug)]
pub enum Filling {
    /// The caller typed it.
    Typed(String),
    /// A password manager knows it.
    Kept { vault: Vault, entry: String, field: Field },
}

/// Whether this is where the text comes from, given the host of the page.
pub open spec fn is_filling(
    r: Result<Filling, Refusal>,
    selector: Seq<char>,
    typed: Option<Seq<char>>,
    from: Option<Seq<char>>,
    field: Option<Seq<char>>,
    entry: Option<Seq<char>>,
    host: Option<Seq<char>>,
) -> bool {
    match (typed, from) {
        (Some(_), Some(_)) => r matches Err(refusal) && commands::refuses(
            refusal,
            "usage"@,
            "give text or --from, not both"@,
        ),
        (Some(text), None) => r matches Ok(Filling::Typed(same)) && same@ == text,
        (None, None) => r matches Err(refusal) && commands::refuses(
            refusal,
            "usage"@,
            "what should go in "@ + selector + "?"@,
        ),
        (None, Some(raw)) => if vault_named(raw) is None {
            r matches Err(refusal) && commands::refuses(
                refusal,
                "usage"@,
                commands::unknown("password manager"@, raw, "use rbw, op, pass"@),
            )
        } else if field_named(field) is None {
            r matches Err(refusal) && commands::refuses(
                refusal,
                "usage"@,
                commands::unknown("field"@, field->0, "use password or username"@),
            )
        } else {
            match commands::first(entry, host) {
                Some(name) => r matches Ok(Filling::Kept { vault, entry, field: which })
                    && vault_named(raw) == Some(vault) && entry@ == name && field_named(field)
                    == Some(which),
                None => r matches Err(refusal) && commands::refuses(
                    refusal,
                    "usage"@,
                    "this page has no host to look up; name one with --entry"@,
                ),
            }
        },
    }
}

/// Where the text to fill in comes from, given the host of the page. Either the
/// caller typed it or a password manager knows it, and never both: a command that
/// silently preferred one over the other would be a command that types the wrong
/// secret.
pub fn filling_for(
    selector: &str,
    typed: Option<String>,
    from: Option<&str>,
    field: Option<&str>,
    entry: Option<String>,
    host: Option<String>,
) -> (r: Result<Filling, Refusal>)
    ensures
        is_filling(
            r,
            selector@,
            text::maybe_owned(typed),
            text::maybe(from),
            text::maybe(field),
            text::maybe_owned(entry),
            text::maybe_owned(host),
        ),
{
    match (typed, from) {
        (Some(_), Some(_)) => Err(commands::refuse("usage", "give text or --from, not both")),
        (Some(text), None) => Ok(Filling::Typed(text)),
        (None, None) => {
            let mut message = "what should go in ".to_owned();
            message.append(selector);
            message.append("?");
            Err(Refusal { code: "usage", message })
        },
        (None, Some(raw)) => {
            let vault = match Vault::parse(raw) {
                Some(vault) => vault,
                None => return Err(
                    commands::refuse_word("usage", "password manager", raw, "use rbw, op, pass"),
                ),
            };
            let which = match read_field(field) {
                Some(which) => which,
                None => {
                    let word = match field {
                        Some(word) => word,
                        None => "",
                    };
                    return Err(
                        commands::refuse_word("usage", "field", word, "use password or username"),
                    );
                },
            };
            match commands::either(entry, host) {
                Some(entry) => Ok(Filling::Kept { vault, entry, field: which }),
                None => Err(
                    commands::refuse(
                        "usage",
                        "this page has no host to look up; name one with --entry",
                    ),
                ),
            }
        },
    }
}

/// The host a page's entry is filed under.
pub open spec fn entry_host(host: Option<Option<Seq<char>>>) -> Option<Seq<char>> {
    match host {
        Some(Some(host)) => commands::nonempty(Some(host)),
        _ => None,
    }
}

/// `page fill`: where the text comes from, for the page at `url`.
pub fn filling_at(
    selector: &str,
    typed: Option<String>,
    from: Option<&str>,
    field: Option<&str>,
    entry: Option<String>,
    url: &str,
) -> (r: Result<Filling, Refusal>)
    ensures
        is_filling(
            r,
            selector@,
            text::maybe_owned(typed),
            text::maybe(from),
            text::maybe(field),
            text::maybe_owned(entry),
            entry_host(weburl::host_text(url@)),
        ),
{
    let host = match weburl::host(url) {
        Some(Some(host)) => commands::unless_empty(Some(host)),
        _ => None,
    };
    filling_for(selector, typed, from, field, entry, host)
}

/// The text a password manager kept, or why it did not give it.
pub fn secret(done: Result<String, String>) -> (r: Result<String, Refusal>)
    ensures
        match done {
            Ok(secret) => r == Ok::<String, Refusal>(secret),
            Err(e) => r matches Err(refusal) && commands::refuses(refusal, "vault"@, e@),
        },
{
    commands::reported(done, "vault")
}

// ---------------------------------------------------------------------------
// Waiting
// ---------------------------------------------------------------------------

/// How long to wait, in milliseconds.
pub open spec fn patience(timeout: Option<u64>) -> u64 {
    match timeout {
        Some(ms) => if ms == 0 {
            1
        } else {
            ms
        },
        None => WAIT_MS,
    }
}

pub fn budget(timeout: Option<u64>) -> (r: u64)
    ensures
        r == patience(timeout),
        r > 0,
{
    match timeout {
        Some(ms) => if ms == 0 {
            1
        } else {
            ms
        },
        None => WAIT_MS,
    }
}

/// Whether a page's answer is one, rather than "not yet".
pub open spec fn is_answer(raw: Seq<char>) -> bool {
    text::trimmed(raw) != "null"@ && text::trimmed(raw).len() > 0
}

/// What to do after asking the page once.
#[derive(Debug)]
pub enum Poll {
    /// It answered.
    Found(String),
    /// Ask again, having heard this last.
    Again(String),
    /// It never will.
    GiveUp(String),
}

/// What is said when it never happened.
pub open spec fn gave_up(timeout: u64, last: Seq<char>) -> Seq<char> {
    let said = "still not there after "@ + number::decimal(timeout as nat) + "ms"@;
    if last.len() == 0 {
        said
    } else {
        said + "; last answer was "@ + last
    }
}

/// What to do after asking the page once, `elapsed` milliseconds into the wait.
///
/// A navigation in flight tears the old document down in the middle of the
/// question. That is a reason to look again, not a reason to give up.
pub fn until(answer: Result<String, String>, elapsed: u64, timeout: u64) -> (r: Poll)
    ensures
        match answer {
            Ok(raw) => if is_answer(raw@) {
                r matches Poll::Found(same) && same == raw
            } else if elapsed >= timeout {
                r matches Poll::GiveUp(why) && why@ == gave_up(timeout, Seq::empty())
            } else {
                r matches Poll::Again(last) && last@.len() == 0
            },
            Err(e) => if elapsed >= timeout {
                r matches Poll::GiveUp(why) && why@ == gave_up(timeout, e@)
            } else {
                r matches Poll::Again(last) && last == e
            },
        },
{
    let last = match answer {
        Ok(raw) => {
            let trimmed = text::trim(raw.as_str());
            if !text::same(trimmed.as_str(), "null") && !trimmed.as_str().is_empty() {
                return Poll::Found(raw);
            }
            String::new()
        },
        Err(e) => e,
    };
    if elapsed < timeout {
        return Poll::Again(last);
    }
    let mut why = "still not there after ".to_owned();
    why.append(number::to_decimal(timeout).as_str());
    why.append("ms");
    if !last.as_str().is_empty() {
        why.append("; last answer was ");
        why.append(last.as_str());
    }
    Poll::GiveUp(why)
}

/// An element that was acted on.
#[derive(Debug)]
pub struct Interacted {
    pub selector: String,
    /// How many elements the selector matched.
    pub matched: usize,
    /// How long the element took to turn up, in milliseconds.
    pub waited: u64,
}

/// How many elements matched, going by what the page answered.
pub open spec fn matches_told(raw: Seq<char>) -> nat {
    match number::unsigned(text::trimmed(raw), usize::MAX as nat) {
        Some(n) => n,
        None => 1,
    }
}

/// What acting on an element comes to: what the page answered and after how long,
/// or why it did not.
pub fn interacted(selector: String, done: Result<(String, u64), String>) -> (r: Result<
    Interacted,
    Refusal,
>)
    ensures
        match done {
            Ok((raw, waited)) => r matches Ok(acted) && acted.selector == selector && acted.matched
                == matches_told(raw@) && acted.waited == waited,
            Err(e) => r matches Err(refusal) && commands::refuses(
                refusal,
                "no_match"@,
                selector@ + ": "@ + e@,
            ),
        },
{
    match done {
        Ok((raw, waited)) => {
            let matched: usize = match number::parse_u64(text::trim(raw.as_str()).as_str()) {
                Some(n) => if n <= usize::MAX as u64 {
                    n as usize
                } else {
                    1
                },
                None => 1,
            };
            Ok(Interacted { selector, matched, waited })
        },
        Err(e) => {
            let mut message = selector;
            message.append(": ");
            message.append(e.as_str());
            Err(Refusal { code: "no_match", message })
        },
    }
}

/// What a page is waited for.
#[derive(Debug)]
pub enum Wait {
    /// For a script to answer. What it is called, and what it is called in a
    /// complaint.
    Script { js: String, said: String, blamed: String },
    /// For the page to finish loading and stop fetching.
    Idle,
}

/// What asks whether a page has finished loading.
pub const LOADED: &'static str = "document.readyState === \"complete\" ? 1 : null";

/// `page wait`: what is waited for. With nothing named it is for the load to
/// finish and the requests to stop.
pub fn wait(selector: Option<String>, words: Option<String>) -> (r: Wait)
    ensures
        match selector {
            Some(s) => r matches Wait::Script { js, said, blamed } && js@
                == "document.querySelector("@ + json::quoted(s@) + ") ? 1 : null"@ && said@ == s@
                && blamed@ == s@,
            None => match words {
                Some(t) => r matches Wait::Script { js, said, blamed } && js@
                    == "(document.body && document.body.innerText.indexOf("@ + json::quoted(t@)
                    + ") >= 0) ? 1 : null"@ && said@ == t@ && blamed@ == text::shown(t@),
                None => r is Idle,
            },
        },
{
    match selector {
        Some(selector) => {
            let mut js = "document.querySelector(".to_owned();
            js.append(js_string(selector.as_str()).as_str());
            js.append(") ? 1 : null");
            Wait::Script { js, said: selector.clone(), blamed: selector }
        },
        None => match words {
            Some(words) => {
                let mut js = "(document.body && document.body.innerText.indexOf(".to_owned();
                js.append(js_string(words.as_str()).as_str());
                js.append(") >= 0) ? 1 : null");
                let blamed = text::show(words.as_str());
                Wait::Script { js, said: words, blamed }
            },
            None => Wait::Idle,
        },
    }
}

/// A wait that is over.
#[derive(Debug)]
pub struct Waited {
    /// What was waited for, in words.
    pub what: String,
    /// How long it took, in milliseconds.
    pub ms: u64,
}

/// What waiting for a script comes to.
pub fn waited(said: String, blamed: &str, done: Result<u64, String>) -> (r: Result<Waited, Refusal>)
    ensures
        match done {
            Ok(ms) => r matches Ok(over) && over.what == said && over.ms == ms,
            Err(e) => r matches Err(refusal) && commands::refuses(
                refusal,
                "timeout"@,
                blamed@ + ": "@ + e@,
            ),
        },
{
    match done {
        Ok(ms) => Ok(Waited { what: said, ms }),
        Err(e) => {
            let mut message = blamed.to_owned();
            message.append(": ");
            message.append(e.as_str());
            Err(Refusal { code: "timeout", message })
        },
    }
}

// ---------------------------------------------------------------------------
// Idle
// ---------------------------------------------------------------------------

/// Whether a request has ended.
pub open spec fn is_over(e: Exchange) -> bool {
    e.status != 0 || e.failed is Some
}

/// Two numbers added, and no more than can be counted.
pub open spec fn capped(a: u64, b: u64) -> u64 {
    if a + b > u64::MAX {
        u64::MAX
    } else {
        (a + b) as u64
    }
}

/// How long ago something was, and no time at all for what is still to come.
pub open spec fn ago(now: u64, then: u64) -> u64 {
    if now >= then {
        (now - then) as u64
    } else {
        0
    }
}

/// When something last happened to a request: when it ended, so that a burst that
/// lands quickly is quiet from the moment the last one lands, or else when it
/// started.
pub open spec fn touched(e: Exchange) -> u64 {
    if is_over(e) {
        capped(e.at, e.ms)
    } else {
        e.at
    }
}

/// How many requests are still loading.
pub open spec fn loading(log: Seq<Exchange>, now: u64) -> nat
    decreases log.len(),
{
    if log.len() == 0 {
        0
    } else {
        loading(log.drop_last(), now) + if !is_over(log.last()) && ago(now, log.last().at)
            < STALL_MS {
            1nat
        } else {
            0nat
        }
    }
}

/// How many requests are pending and will never end.
pub open spec fn stalled(log: Seq<Exchange>, now: u64) -> nat
    decreases log.len(),
{
    if log.len() == 0 {
        0
    } else {
        stalled(log.drop_last(), now) + if !is_over(log.last()) && ago(now, log.last().at)
            >= STALL_MS {
            1nat
        } else {
            0nat
        }
    }
}

/// When something last happened to any of the requests.
pub open spec fn last_touched(log: Seq<Exchange>) -> u64
    decreases log.len(),
{
    if log.len() == 0 {
        0
    } else {
        let before = last_touched(log.drop_last());
        let last = touched(log.last());
        if last > before {
            last
        } else {
            before
        }
    }
}

/// Whether a page has stopped fetching: nothing is loading, and nothing has
/// happened for a while.
pub open spec fn is_idle(log: Seq<Exchange>, now: u64) -> bool {
    loading(log, now) == 0 && ago(now, last_touched(log)) >= QUIET_MS
}

/// Whether a page has stopped fetching.
#[derive(Debug)]
pub enum Idle {
    Yes,
    /// Look again.
    Wait,
    /// The time is up. Which kind is said, because the two want different
    /// answers.
    GiveUp(String),
}

/// What is said when a page would not stop.
pub open spec fn restless(loading: nat, stalled: nat, budget: u64) -> Seq<char> {
    number::decimal(loading) + " request(s) still loading after "@ + number::decimal(budget as nat)
        + "ms ("@ + number::decimal(stalled) + " stalled and ignored)"@
}

/// Whether a page has stopped fetching, `elapsed` milliseconds into the wait.
///
/// "Stopped" is two conditions: nothing still in flight, and nothing newly
/// started for half a second. The second is what makes this useful on a page that
/// finished loading long ago, where the thing worth waiting for is the burst of
/// requests that follows a click.
pub fn idle(log: &[Exchange], now: u64, elapsed: u64, budget: u64) -> (r: Idle)
    ensures
        match r {
            Idle::Yes => is_idle(log@, now),
            Idle::Wait => !is_idle(log@, now) && elapsed < budget,
            Idle::GiveUp(why) => !is_idle(log@, now) && elapsed >= budget && why@ == restless(
                loading(log@, now),
                stalled(log@, now),
                budget,
            ),
        },
{
    let mut busy: u64 = 0;
    let mut stuck: u64 = 0;
    let mut last: u64 = 0;
    let mut i: usize = 0;
    assert(log@.take(0) =~= Seq::empty());
    while i < log.len()
        invariant
            i <= log.len(),
            busy <= i,
            stuck <= i,
            busy == loading(log@.take(i as int), now),
            stuck == stalled(log@.take(i as int), now),
            last == last_touched(log@.take(i as int)),
        decreases log.len() - i,
    {
        let e = &log[i];
        assert(log@.take(i + 1).drop_last() =~= log@.take(i as int));
        let over = e.status != 0 || e.failed.is_some();
        let at: u64 = if over {
            if e.ms > u64::MAX - e.at {
                u64::MAX
            } else {
                e.at + e.ms
            }
        } else {
            e.at
        };
        if at > last {
            last = at;
        }
        if !over {
            let since: u64 = if now >= e.at {
                now - e.at
            } else {
                0
            };
            if since < STALL_MS {
                busy += 1;
            } else {
                stuck += 1;
            }
        }
        i += 1;
    }
    assert(log@.take(i as int) =~= log@);
    let since: u64 = if now >= last {
        now - last
    } else {
        0
    };
    if busy == 0 && since >= QUIET_MS {
        return Idle::Yes;
    }
    if elapsed < budget {
        return Idle::Wait;
    }
    let mut why = number::to_decimal(busy);
    why.append(" request(s) still loading after ");
    why.append(number::to_decimal(budget).as_str());
    why.append("ms (");
    why.append(number::to_decimal(stuck).as_str());
    why.append(" stalled and ignored)");
    Idle::GiveUp(why)
}

/// What is left of a wait.
pub fn remaining(budget: u64, elapsed: u64) -> (r: u64)
    ensures
        r == ago(budget, elapsed),
{
    if budget >= elapsed {
        budget - elapsed
    } else {
        0
    }
}

/// What waiting for a page to stop comes to.
pub fn settled(done: Result<u64, String>) -> (r: Result<Waited, Refusal>)
    ensures
        match done {
            Ok(ms) => r matches Ok(over) && over.what@ == "idle"@ && over.ms == ms,
            Err(e) => r matches Err(refusal) && commands::refuses(refusal, "timeout"@, e@),
        },
{
    match done {
        Ok(ms) => Ok(Waited { what: "idle".to_owned(), ms }),
        Err(message) => Err(Refusal { code: "timeout", message }),
    }
}

// ---------------------------------------------------------------------------
// Laws
// ---------------------------------------------------------------------------

/// What is pending is either still loading or stalled, and never both.
pub proof fn law_pending_is_counted_once(log: Seq<Exchange>, now: u64)
    ensures
        loading(log, now) + stalled(log, now) == pending(log),
    decreases log.len(),
{
    if log.len() > 0 {
        law_pending_is_counted_once(log.drop_last(), now);
    }
}

/// How many requests have not ended.
pub open spec fn pending(log: Seq<Exchange>) -> nat
    decreases log.len(),
{
    if log.len() == 0 {
        0
    } else {
        pending(log.drop_last()) + if is_over(log.last()) {
            0nat
        } else {
            1nat
        }
    }
}

/// A request that will never end does not keep a page from going idle: once
/// nothing has happened for long enough, the page is idle whatever is pending.
pub proof fn law_stalled_does_not_block(log: Seq<Exchange>, now: u64)
    requires
        ago(now, last_touched(log)) >= STALL_MS,
    ensures
        is_idle(log, now),
{
    lemma_all_stalled(log, now, last_touched(log));
}

proof fn lemma_all_stalled(log: Seq<Exchange>, now: u64, last: u64)
    requires
        last_touched(log) <= last,
        ago(now, last) >= STALL_MS,
    ensures
        loading(log, now) == 0,
    decreases log.len(),
{
    if log.len() > 0 {
        lemma_all_stalled(log.drop_last(), now, last);
        assert(touched(log.last()) <= last_touched(log));
    }
}

/// A password manager goes by its own name, and what is taken out of it is the password
/// unless something else is asked for.
pub proof fn law_vaults_go_by_name(word: Seq<char>)
    ensures
        vault_named(word) == Some(Vault::Rbw) <==> word == "rbw"@,
        vault_named(word) == Some(Vault::Op) <==> word == "op"@,
        vault_named(word) == Some(Vault::Pass) <==> word == "pass"@,
        field_named(None) == Some(Field::Password),
        field_named(Some(word)) == Some(Field::Password) <==> word == "password"@,
        field_named(Some(word)) == Some(Field::Username) <==> word == "username"@,
{
    reveal_strlit("rbw");
    reveal_strlit("op");
    reveal_strlit("pass");
    reveal_strlit("password");
    reveal_strlit("username");
    assert("rbw"@.len() == 3);
    assert("op"@.len() == 2);
    assert("pass"@.len() == 4);
    assert("password"@.len() == 8);
    assert("username"@.len() == 8);
    assert("password"@[0] == 'p');
    assert("username"@[0] == 'u');
}

/// Once a page is idle every request has ended, or has been out two seconds without a
/// word, and nothing has happened for half a second.
pub proof fn law_idle_is_quiet(log: Seq<Exchange>, now: u64)
    requires
        is_idle(log, now),
    ensures
        forall|i: int|
            0 <= i < log.len() ==> {
                let e = #[trigger] log[i];
                &&& e.status != 0 || e.failed is Some || now - e.at >= 2_000
                &&& now - e.at >= 500
            },
{
    lemma_idle(log, now);
    assert forall|i: int| 0 <= i < log.len() implies ({
        let e = #[trigger] log[i];
        &&& e.status != 0 || e.failed is Some || now - e.at >= 2_000
        &&& now - e.at >= 500
    }) by {
        lemma_touched_last(log, i);
    }
}

proof fn lemma_idle(log: Seq<Exchange>, now: u64)
    requires
        loading(log, now) == 0,
    ensures
        forall|i: int|
            0 <= i < log.len() ==> is_over(#[trigger] log[i]) || ago(now, log[i].at) >= STALL_MS,
    decreases log.len(),
{
    if log.len() > 0 {
        let front = log.drop_last();
        lemma_idle(front, now);
        assert forall|i: int| 0 <= i < log.len() implies is_over(#[trigger] log[i]) || ago(
            now,
            log[i].at,
        ) >= STALL_MS by {
            if i < front.len() {
                assert(front[i] == log[i]);
            }
        }
    }
}

proof fn lemma_touched_last(log: Seq<Exchange>, i: int)
    requires
        0 <= i < log.len(),
    ensures
        log[i].at <= touched(log[i]) <= last_touched(log),
    decreases log.len(),
{
    if i < log.len() - 1 {
        assert(log.drop_last()[i] == log[i]);
        lemma_touched_last(log.drop_last(), i);
    }
}

/// A request that was just made keeps a page from being idle, and so does one that has
/// just ended.
pub proof fn law_fresh_request_is_not_idle(log: Seq<Exchange>, e: Exchange, now: u64)
    requires
        e.at <= now,
    ensures
        e.status == 0 && e.failed is None && now - e.at < 2_000 ==> !is_idle(log.push(e), now),
        now - e.at < 500 ==> !is_idle(log.push(e), now),
        e.status != 0 && e.at + e.ms <= now && now - e.at - e.ms < 500 ==> !is_idle(
            log.push(e),
            now,
        ),
{
    let all = log.push(e);
    assert(all.drop_last() =~= log);
    assert(touched(e) <= last_touched(all));
}

/// Waiting takes as long as it is told to, never no time at all, and ten seconds where
/// nothing is said.
pub proof fn law_patience_is_what_is_asked(ms: u64)
    ensures
        patience(None) == 10_000,
        patience(Some(0)) == 1,
        ms > 0 ==> patience(Some(ms)) == ms,
{
}

/// White space around an answer makes no difference. Nothing at all and null are no answers;
/// the rest are.
pub proof fn law_null_is_no_answer(raw: Seq<char>)
    requires
        text::trimmed(raw) == raw,
    ensures
        is_answer(raw) <==> raw.len() > 0 && raw != "null"@,
{
}

/// Giving up says how long was waited, and what the last answer was where there was one.
pub proof fn law_giving_up_tells_the_last_answer(timeout: u64, last: Seq<char>)
    requires
        last.len() > 0,
    ensures
        gave_up(timeout, Seq::empty()).is_prefix_of(gave_up(timeout, last)),
        last.is_suffix_of(gave_up(timeout, last)),
        text::says(gave_up(timeout, Seq::empty()), number::decimal(timeout as nat)),
{
    let head = "still not there after "@;
    let count = number::decimal(timeout as nat);
    let said = gave_up(timeout, Seq::empty());
    assert(said =~= head + count + "ms"@);
    assert(said.subrange(head.len() as int, head.len() as int + count.len()) =~= count);
    assert(text::stands_at(said, count, head.len() as int));
    assert(gave_up(timeout, last) =~= said + "; last answer was "@ + last);
}

/// What a script is told of a yes or a no is that yes or no.
pub proof fn law_truth_is_told(b: bool)
    ensures
        truth(b) == "true"@ <==> b,
        truth(b) == "false"@ <==> !b,
{
    reveal_strlit("true");
    reveal_strlit("false");
    assert("true"@.len() == 4);
    assert("false"@.len() == 5);
}

} // verus!
