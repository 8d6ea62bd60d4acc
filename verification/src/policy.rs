//! What the browser does when a page asks for something.
//!
//! The engine answers a page's requests -- to open a window, to use the camera,
//! to be trusted despite a bad certificate -- by asking, and taking the answer's
//! word for it. With nobody to ask, every answer is "no, silently". None of that
//! is a policy anybody chose. This module is where the choosing goes.

use vstd::prelude::*;

use crate::interstitial;
use crate::list;
use crate::number;
use crate::permissions;
use crate::permissions::{Decision, Kind, Pending, Permissions};
use crate::text;
use crate::weburl;

verus! {

/// A site that wants a username and a password before it will answer.
#[derive(Debug, Clone)]
pub struct Challenge {
    pub host: String,
    pub port: u32,
    /// What the server calls the thing it is guarding. Often empty.
    pub realm: String,
    /// The page that was being loaded, so answering can go back to it.
    pub uri: String,
    /// Set once a login has already been tried and refused, so the page can say
    /// "that was wrong" rather than asking again as if nothing happened.
    pub retry: bool,
}

/// How a login to a host and port is filed.
pub open spec fn filed(host: Seq<char>, port: u32) -> Seq<char> {
    host + ":"@ + number::decimal(port as nat)
}

impl Challenge {
    /// How a credential is filed: one login per host and port.
    pub fn key(&self) -> (r: String)
        ensures
            r@ == filed(self.host@, self.port),
    {
        let mut key = self.host.clone();
        key.append(":");
        key.append(number::to_decimal(self.port as u64).as_str());
        key
    }
}

// ---------------------------------------------------------------------------
// A page that never arrived
// ---------------------------------------------------------------------------

/// Why a response was not shown, as far as it decides anything here.
#[derive(Debug, Clone, Copy, PartialEq, Eq, Structural)]
pub enum PolicyError {
    FrameLoadInterruptedByPolicyChange,
    CannotShowMimeType,
    CannotUseRestrictedPort,
    Other,
}

/// Why a page was not fetched, as far as it decides anything here.
#[derive(Debug, Clone, Copy, PartialEq, Eq, Structural)]
pub enum NetworkError {
    Cancelled,
    UnknownProtocol,
    FileDoesNotExist,
    Other,
}

/// Why a load failed.
#[derive(Debug, Clone, Copy, PartialEq, Eq, Structural)]
pub enum LoadError {
    Policy(PolicyError),
    Network(NetworkError),
    /// Abandoned on the way out: the tab was closed, or the browser is shutting
    /// down.
    Abandoned,
    /// Everything else, which in practice is where the real failures live.
    Other,
}

/// What is said of a load that failed, if anything is.
pub open spec fn failure_line(error: LoadError) -> Option<Seq<char>> {
    match error {
        LoadError::Policy(PolicyError::FrameLoadInterruptedByPolicyChange) => None,
        LoadError::Policy(PolicyError::CannotShowMimeType) => None,
        LoadError::Policy(PolicyError::CannotUseRestrictedPort) => Some(
            "is on a port a browser is not allowed to use."@,
        ),
        LoadError::Policy(PolicyError::Other) => Some("could not be opened."@),
        LoadError::Network(NetworkError::Cancelled) => None,
        LoadError::Network(NetworkError::UnknownProtocol) => Some(
            "is not an address this browser can open."@,
        ),
        LoadError::Network(NetworkError::FileDoesNotExist) => Some("is not there."@),
        LoadError::Network(NetworkError::Other) => Some("could not be reached."@),
        LoadError::Abandoned => None,
        LoadError::Other => Some("could not be reached."@),
    }
}

/// Whether a failed load is worth putting a page in front of, and what to say.
///
/// The answer defaults to *yes*: recognising failures one at a time is a list
/// that is always missing the one in front of you. So this names only what must
/// *not* get a page. A cancelled load is what every superseded one reports, and
/// one interrupted by policy, or of a type that cannot be shown, is what a
/// download reports.
pub fn worth_a_page(error: LoadError) -> (r: Option<&'static str>)
    ensures
        failure_line(error) == match r {
            Some(line) => Some(line@),
            None => None,
        },
{
    match error {
        LoadError::Policy(PolicyError::FrameLoadInterruptedByPolicyChange) => None,
        LoadError::Policy(PolicyError::CannotShowMimeType) => None,
        LoadError::Policy(PolicyError::CannotUseRestrictedPort) => Some(
            "is on a port a browser is not allowed to use.",
        ),
        LoadError::Policy(PolicyError::Other) => Some("could not be opened."),
        LoadError::Network(NetworkError::Cancelled) => None,
        LoadError::Network(NetworkError::UnknownProtocol) => Some(
            "is not an address this browser can open.",
        ),
        LoadError::Network(NetworkError::FileDoesNotExist) => Some("is not there."),
        LoadError::Network(NetworkError::Other) => Some("could not be reached."),
        LoadError::Abandoned => None,
        LoadError::Other => Some("could not be reached."),
    }
}

/// What the page about a failed load says.
pub open spec fn failure_of<'a>(
    sub: &'a str,
    message: &'a str,
    uri: &'a str,
) -> interstitial::Interstitial<'a> {
    interstitial::Interstitial {
        tag: "not reached",
        title: "This site could not be reached",
        sub,
        detail: Some(message),
        hint: "Check the address, and whether you are online. <code>nav reload</code> tries again &mdash; or press <kbd>Ctrl</kbd>+<kbd>R</kbd>, which is the same thing.",
        uri,
    }
}

/// The page to put up for a load that failed with the engine's `message`, or
/// nothing where it is not a failure anybody needs a page about.
pub fn failures(
    error: LoadError,
    uri: &str,
    message: &str,
    theme: Option<(&str, &str)>,
) -> (r: Option<String>)
    ensures
        match r {
            Some(page) => exists|sub: &str|
                failure_line(error) == Some(sub@) && page@ == interstitial::page(
                    #[trigger] failure_of(sub, message, uri),
                    weburl::host_text(uri@),
                    match theme {
                        Some((vars, mine)) => Some((vars@, mine@)),
                        None => None,
                    },
                ),
            None => failure_line(error) is None,
        },
{
    match worth_a_page(error) {
        Some(sub) => {
            let page = interstitial::Interstitial {
                tag: "not reached",
                title: "This site could not be reached",
                sub,
                detail: Some(message),
                hint: "Check the address, and whether you are online. <code>nav reload</code> tries again &mdash; or press <kbd>Ctrl</kbd>+<kbd>R</kbd>, which is the same thing.",
                uri,
            };
            assert(page == failure_of(sub, message, uri));
            Some(page.render(theme))
        },
        None => None,
    }
}

// ---------------------------------------------------------------------------
// A page that wants a window
// ---------------------------------------------------------------------------

/// What becomes of a page asking for a window.
pub enum Popup {
    /// Nothing: there is no page to put in one.
    Nothing,
    /// A window of its own, that the page that asked can see: what a login flow
    /// needs.
    Window(String),
    /// A tab, which is what a person means by a link to a new window. Behind
    /// what they are reading, if they did not ask for it.
    Tab { url: String, background: bool },
}

/// A link and a script asking for a window want different things: giving both of
/// them a tab leaves a login with nowhere to hand the credential back to.
pub fn popups(url: Option<&str>, link_clicked: bool, user_gesture: bool) -> (r: Popup)
    ensures
        match r {
            Popup::Nothing => match url {
                Some(url) => url@.len() == 0 || url@ == "about:blank"@,
                None => true,
            },
            Popup::Window(to) => url matches Some(url) && to@ == url@ && url@.len() > 0 && url@
                != "about:blank"@ && !link_clicked,
            Popup::Tab { url: to, background } => url matches Some(url) && to@ == url@ && url@.len()
                > 0 && url@ != "about:blank"@ && link_clicked && background == !user_gesture,
        },
{
    let url = match url {
        Some(url) => url,
        None => return Popup::Nothing,
    };
    if url.is_empty() || text::same(url, "about:blank") {
        return Popup::Nothing;
    }
    if !link_clicked {
        return Popup::Window(url.to_owned());
    }
    Popup::Tab { url: url.to_owned(), background: !user_gesture }
}

// ---------------------------------------------------------------------------
// A page that wants the camera
// ---------------------------------------------------------------------------

/// What a page asks permission for, as the engine puts it.
#[derive(Debug, Clone, Copy, PartialEq, Eq, Structural)]
pub enum Wish {
    Media { display: bool, video: bool, audio: bool },
    Geolocation,
    Notification,
    DeviceInfo,
    MediaKeySystem,
    Other,
}

/// What a request is asking for, or nothing if this browser has no opinion.
pub open spec fn wished(wish: Wish) -> Option<Seq<Kind>> {
    match wish {
        Wish::Media { display, video, audio } => Some(
            (if display {
                seq![Kind::ScreenShare]
            } else if video {
                seq![Kind::Camera]
            } else {
                Seq::empty()
            }) + if audio {
                seq![Kind::Microphone]
            } else {
                Seq::empty()
            },
        ),
        Wish::Geolocation => Some(seq![Kind::Geolocation]),
        Wish::Notification => Some(seq![Kind::Notifications]),
        Wish::DeviceInfo => Some(seq![Kind::DeviceInfo]),
        Wish::MediaKeySystem => Some(seq![Kind::ProtectedMedia]),
        Wish::Other => None,
    }
}

/// What a request is asking for. Sharing a screen is not using a camera, and the
/// engine reports it as a video device as well, so it takes the place of the
/// camera rather than adding to it.
pub fn kinds_of(wish: Wish) -> (r: Option<Vec<Kind>>)
    ensures
        wished(wish) == match r {
            Some(kinds) => Some(kinds@),
            None => None,
        },
{
    let mut kinds: Vec<Kind> = Vec::new();
    match wish {
        Wish::Media { display, video, audio } => {
            if display {
                kinds.push(Kind::ScreenShare);
            } else if video {
                kinds.push(Kind::Camera);
            }
            if audio {
                kinds.push(Kind::Microphone);
            }
        },
        Wish::Geolocation => {
            kinds.push(Kind::Geolocation);
        },
        Wish::Notification => {
            kinds.push(Kind::Notifications);
        },
        Wish::DeviceInfo => {
            kinds.push(Kind::DeviceInfo);
        },
        Wish::MediaKeySystem => {
            kinds.push(Kind::ProtectedMedia);
        },
        Wish::Other => {
            return None;
        },
    }
    assert(kinds@ =~= wished(wish)->0);
    Some(kinds)
}

/// What becomes of a permission request.
#[derive(Debug, Clone, Copy, PartialEq, Eq, Structural)]
pub enum Verdict {
    /// Left to the engine: a request this browser has no opinion about.
    Leave,
    Allow,
    Deny,
    /// Held on to, and put to a person.
    Ask,
}

/// What becomes of a request for `kinds` by a page of `origin`.
pub open spec fn verdict(
    rules: Seq<permissions::Ruling>,
    origin: Option<Seq<char>>,
    kinds: Option<Seq<Kind>>,
) -> Verdict {
    match kinds {
        None => Verdict::Leave,
        Some(kinds) => match origin {
            None => Verdict::Deny,
            Some(origin) => match permissions::decided_all(rules, origin, kinds) {
                Decision::Allow => Verdict::Allow,
                Decision::Deny => Verdict::Deny,
                Decision::Ask => Verdict::Ask,
            },
        },
    }
}

/// Rule on a request, given the origin of the page that makes it. A page with no
/// origin is denied: there is nothing to remember a decision against.
pub fn rule_for(store: &Permissions, origin: Option<&str>, wish: Wish) -> (r: Verdict)
    ensures
        r == verdict(store@, text::maybe(origin), wished(wish)),
{
    match kinds_of(wish) {
        None => Verdict::Leave,
        Some(kinds) => match origin {
            None => Verdict::Deny,
            Some(origin) => match store.decide_all(origin, &kinds) {
                Decision::Allow => Verdict::Allow,
                Decision::Deny => Verdict::Deny,
                Decision::Ask => Verdict::Ask,
            },
        },
    }
}

/// Rule on a request of the page at `uri`, from the decisions made earlier.
pub fn rule(store: &Permissions, uri: Option<&str>, wish: Wish) -> (r: Verdict)
    ensures
        r == verdict(
            store@,
            match uri {
                Some(uri) => permissions::remembered(weburl::origin_text(uri@)),
                None => None,
            },
            wished(wish),
        ),
{
    match uri {
        Some(uri) => match permissions::origin_of(uri) {
            Some(origin) => rule_for(store, Some(origin.as_str()), wish),
            None => rule_for(store, None, wish),
        },
        None => rule_for(store, None, wish),
    }
}

/// A question put to a person.
pub struct Question {
    pub id: u64,
    pub origin: Seq<char>,
    pub kinds: Seq<Kind>,
}

pub open spec fn question_of(pending: Pending) -> Question {
    Question { id: pending.id, origin: pending.origin@, kinds: pending.kinds@ }
}

/// The requests that have been put to a person and not yet answered.
///
/// The engine's own request objects stay with whoever made them; `waiting` names
/// the ones still open, and `asked` is what a command needs to word the question
/// and name the answer. The two are joined by the id.
pub struct Requests {
    waiting: Vec<u64>,
    asked: Vec<Pending>,
    next: u64,
}

/// The open requests, the questions and the id the next one gets.
pub struct Open {
    pub waiting: Seq<u64>,
    pub asked: Seq<Question>,
    pub next: u64,
}

impl View for Requests {
    type V = Open;

    closed spec fn view(&self) -> Open {
        Open {
            waiting: self.waiting@,
            asked: self.asked@.map_values(|p: Pending| question_of(p)),
            next: self.next,
        }
    }
}

/// Whether a request has this id.
pub open spec fn is_id(id: u64) -> spec_fn(u64) -> bool {
    |w: u64| w == id
}

/// The requests without the first of an id, if there is one.
pub open spec fn let_go(waiting: Seq<u64>, id: u64) -> Seq<u64> {
    match list::first_where(waiting, is_id(id)) {
        Some(i) => waiting.remove(i),
        None => waiting,
    }
}

/// The questions that are not about this id.
pub open spec fn other_questions(asked: Seq<Question>, id: u64) -> Seq<Question> {
    list::kept(asked, |q: Question| q.id != id)
}

impl Requests {
    pub fn new() -> (r: Requests)
        ensures
            r@.waiting.len() == 0,
            r@.asked.len() == 0,
            r@.next == 1,
    {
        Requests { waiting: Vec::new(), asked: Vec::new(), next: 1 }
    }

    /// Hold on to a request, and word the question to put on screen.
    pub fn ask(&mut self, origin: String, kinds: Vec<Kind>) -> (r: (u64, String))
        ensures
            r.0 == old(self)@.next,
            r.1@ == origin@ + " wants "@ + permissions::phrases(kinds@) + " -- allow or deny?"@,
            final(self)@.next == if old(self)@.next == u64::MAX {
                0
            } else {
                (old(self)@.next + 1) as u64
            },
            final(self)@.waiting == old(self)@.waiting.push(r.0),
            final(self)@.asked == old(self)@.asked.push(
                (Question { id: r.0, origin: origin@, kinds: kinds@ }),
            ),
    {
        let id: u64 = self.next;
        self.next = if id == u64::MAX {
            0
        } else {
            id + 1
        };
        let pending = Pending { id, origin, kinds };
        let question = pending.question();
        self.waiting.push(id);
        let ghost before = self.asked@;
        let ghost added = pending;
        self.asked.push(pending);
        assert(self@.asked =~= old(self)@.asked.push(question_of(added)));
        (id, question)
    }

    /// Whether a request someone has decided about is still open, letting go of
    /// it. One that is not is ordinary: the tab may have been closed or gone
    /// elsewhere while the question was on screen.
    pub fn answer(&mut self, id: u64) -> (r: bool)
        ensures
            r == old(self)@.waiting.contains(id),
            final(self)@.waiting == let_go(old(self)@.waiting, id),
            final(self)@.asked == old(self)@.asked,
            final(self)@.next == old(self)@.next,
    {
        let ghost want = is_id(id);
        let mut i: usize = 0;
        while i < self.waiting.len()
            invariant
                i <= self.waiting.len(),
                *self == *old(self),
                want == is_id(id),
                forall|j: int| 0 <= j < i ==> !want(#[trigger] self.waiting@[j]),
            decreases self.waiting.len() - i,
        {
            if self.waiting[i] == id {
                proof {
                    list::lemma_first_where(self.waiting@, want, i as int);
                }
                assert(self@.waiting[i as int] == id);
                self.waiting.remove(i);
                return true;
            }
            i += 1;
        }
        proof {
            list::lemma_first_where(self.waiting@, want, i as int);
        }
        false
    }

    /// Drop a question, answered or not.
    pub fn forget(&mut self, id: u64)
        ensures
            final(self)@.asked == other_questions(old(self)@.asked, id),
            final(self)@.waiting == old(self)@.waiting,
            final(self)@.next == old(self)@.next,
    {
        let mut all: Vec<Pending> = Vec::new();
        std::mem::swap(&mut all, &mut self.asked);
        let ghost was = all@;
        let ghost view = |p: Pending| question_of(p);
        let ghost asked = was.map_values(view);
        let ghost keep = |q: Question| q.id != id;
        let mut left: Vec<Pending> = Vec::new();
        assert(asked.take(0) =~= Seq::empty());
        assert(left@.map_values(view) =~= Seq::empty());
        for pending in it: all
            invariant
                it.seq() == was,
                view == (|p: Pending| question_of(p)),
                asked == was.map_values(view),
                keep == (|q: Question| q.id != id),
                left@.map_values(view) == list::kept(asked.take(it.index() as int), keep),
        {
            let ghost i = it.index() as int;
            assert(asked.take(i + 1).drop_last() =~= asked.take(i));
            assert(asked[i] == question_of(pending));
            if pending.id != id {
                let ghost before = left@;
                let ghost same = pending;
                left.push(pending);
                assert(left@.map_values(view) =~= before.map_values(view).push(question_of(same)));
            }
        }
        assert(asked.take(asked.len() as int) =~= asked);
        self.asked = left;
    }

    /// The question that has waited longest.
    pub fn front(&self) -> (r: Option<&Pending>)
        ensures
            match r {
                Some(pending) => self@.asked.len() > 0 && question_of(*pending) == self@.asked[0],
                None => self@.asked.len() == 0,
            },
    {
        if self.asked.len() == 0 {
            None
        } else {
            Some(&self.asked[0])
        }
    }
}

// ---------------------------------------------------------------------------
// A page whose certificate does not check out
// ---------------------------------------------------------------------------

/// A page that would not load because its certificate did not check out: which
/// host, and what was wrong with it.
#[derive(Debug, Clone)]
pub struct Refused {
    pub host: String,
    pub uri: String,
    /// What was objected to, in words.
    pub reasons: Vec<String>,
}

/// What can be wrong with a certificate.
#[derive(Debug, Clone, Copy, PartialEq, Eq, Structural)]
pub struct TlsCertificateFlags {
    pub unknown_ca: bool,
    pub bad_identity: bool,
    pub not_activated: bool,
    pub expired: bool,
    pub revoked: bool,
    pub insecure: bool,
}

/// What is said, where it holds.
pub open spec fn said_if(holds: bool, said: Seq<char>) -> Seq<Seq<char>> {
    if holds {
        seq![said]
    } else {
        Seq::empty()
    }
}

/// Everything that is wrong with a certificate and has a name.
pub open spec fn objections(flags: TlsCertificateFlags) -> Seq<Seq<char>> {
    said_if(flags.unknown_ca, "it was not issued by an authority this machine trusts"@) + said_if(
        flags.bad_identity,
        "it was issued for a different host"@,
    ) + said_if(flags.not_activated, "it is not valid yet"@) + said_if(
        flags.expired,
        "it has expired"@,
    ) + said_if(flags.revoked, "it has been revoked"@) + said_if(
        flags.insecure,
        "it uses an algorithm considered insecure"@,
    )
}

/// What is wrong with a certificate.
pub open spec fn described(flags: TlsCertificateFlags) -> Seq<Seq<char>> {
    if objections(flags).len() == 0 {
        seq!["it did not check out"@]
    } else {
        objections(flags)
    }
}

fn say_if(out: &mut Vec<String>, holds: bool, said: &str)
    ensures
        text::texts(final(out)@) == text::texts(old(out)@) + said_if(holds, said@),
{
    let ghost before = out@;
    if holds {
        out.push(said.to_owned());
    }
    assert(text::texts(out@) =~= text::texts(before) + said_if(holds, said@));
}

/// What is wrong with a certificate, in words rather than flags.
pub fn describe(flags: TlsCertificateFlags) -> (r: Vec<String>)
    ensures
        text::texts(r@) == described(flags),
{
    let mut out: Vec<String> = Vec::new();
    say_if(&mut out, flags.unknown_ca, "it was not issued by an authority this machine trusts");
    assert(text::texts(out@) =~= said_if(
        flags.unknown_ca,
        "it was not issued by an authority this machine trusts"@,
    ));
    say_if(&mut out, flags.bad_identity, "it was issued for a different host");
    say_if(&mut out, flags.not_activated, "it is not valid yet");
    say_if(&mut out, flags.expired, "it has expired");
    say_if(&mut out, flags.revoked, "it has been revoked");
    say_if(&mut out, flags.insecure, "it uses an algorithm considered insecure");
    assert(text::texts(out@) == objections(flags));
    assert(text::texts(out@).len() == out@.len());
    if out.len() == 0 {
        out.push("it did not check out".to_owned());
        assert(text::texts(out@) =~= seq!["it did not check out"@]);
    }
    out
}

/// Whether an entry of the trusted hosts names a host: by name, or by a leading
/// `*.` for one level of subdomain.
pub open spec fn names_host(pattern: Seq<char>, host: Seq<char>) -> bool {
    let pattern = text::trimmed(pattern);
    match text::without_prefix(pattern, "*."@) {
        Some(suffix) => match text::without_suffix(host, suffix) {
            Some(head) => {
                &&& text::has_suffix(head, "."@)
                &&& !text::trim_end_by(head, |c: char| "."@.contains(c)).contains('.')
                &&& head.len() > 1
            },
            None => false,
        },
        None => pattern.len() > 0 && text::lowered(pattern) == text::lowered(host),
    }
}

/// Whether an entry of the trusted hosts names this host.
///
/// No general globbing: a pattern language in a list that turns certificate
/// checking off is a way to turn it off for more than you meant.
pub fn matches_host(pattern: &str, host: &str) -> (r: bool)
    ensures
        r == names_host(pattern@, host@),
{
    let pattern = text::trim(pattern);
    match text::strip_prefix(pattern.as_str(), "*.") {
        Some(suffix) => match text::strip_suffix(host, suffix.as_str()) {
            Some(head) => {
                let bare = text::chars_of(text::trim_end_of(head.as_str(), ".").as_str());
                text::ends_with(head.as_str(), ".") && !text::holds(&bare, '.') && text::chars_of(
                    head.as_str(),
                ).len() > 1
            },
            None => false,
        },
        None => !pattern.as_str().is_empty() && text::same(
            text::to_lower(pattern.as_str()).as_str(),
            text::to_lower(host).as_str(),
        ),
    }
}

/// Whether any entry names a host.
pub open spec fn is_trusted(trust: Seq<Seq<char>>, host: Seq<char>) -> bool {
    exists|i: int| 0 <= i < trust.len() && names_host(#[trigger] trust[i], host)
}

/// Whether the configuration names this host as trusted.
pub fn trusted_by_config(trust: &[String], host: &str) -> (r: bool)
    ensures
        r == is_trusted(text::texts(trust@), host@),
{
    let ghost all = text::texts(trust@);
    let mut i: usize = 0;
    while i < trust.len()
        invariant
            i <= trust.len(),
            all == text::texts(trust@),
            forall|j: int| 0 <= j < i ==> !names_host(#[trigger] all[j], host@),
        decreases trust.len() - i,
    {
        assert(all[i as int] == trust@[i as int]@);
        if matches_host(trust[i].as_str(), host) {
            return true;
        }
        i += 1;
    }
    false
}

/// The host an address reads as having, or nothing.
pub open spec fn bare_host(host: Option<Option<Seq<char>>>) -> Seq<char> {
    match host {
        Some(Some(host)) => host,
        _ => Seq::empty(),
    }
}

/// The host of an address, for naming and for trusting.
pub fn host_of(uri: &str) -> (r: String)
    ensures
        r@ == bare_host(weburl::host_text(uri@)),
{
    match weburl::host(uri) {
        Some(Some(host)) => host,
        _ => String::new(),
    }
}

/// What becomes of a page whose certificate did not check out.
pub enum Certificate {
    /// Its host is named in the configuration, so this is not a question: trust
    /// it and go on.
    Trusted(String),
    /// Refused, and explained.
    Refused(Refused),
}

/// Decide about a certificate that did not check out, given the page's host.
pub fn certificate_for(
    host: String,
    uri: &str,
    trust: &[String],
    flags: TlsCertificateFlags,
) -> (r: Certificate)
    ensures
        match r {
            Certificate::Trusted(name) => is_trusted(text::texts(trust@), host@) && name@ == host@,
            Certificate::Refused(refused) => {
                &&& !is_trusted(text::texts(trust@), host@)
                &&& refused.host@ == host@
                &&& refused.uri@ == uri@
                &&& text::texts(refused.reasons@) == described(flags)
            },
        },
{
    if trusted_by_config(trust, host.as_str()) {
        return Certificate::Trusted(host);
    }
    Certificate::Refused(Refused { host, uri: uri.to_owned(), reasons: describe(flags) })
}

/// Decide about a certificate that did not check out.
pub fn certificates(uri: &str, trust: &[String], flags: TlsCertificateFlags) -> (r: Certificate)
    ensures
        ({
            let host = bare_host(weburl::host_text(uri@));
            match r {
                Certificate::Trusted(name) => is_trusted(text::texts(trust@), host) && name@ == host,
                Certificate::Refused(refused) => {
                    &&& !is_trusted(text::texts(trust@), host)
                    &&& refused.host@ == host
                    &&& refused.uri@ == uri@
                    &&& text::texts(refused.reasons@) == described(flags)
                },
            }
        }),
{
    certificate_for(host_of(uri), uri, trust, flags)
}

/// The hosts whose certificate was refused and could be trusted, one of each,
/// the newest last.
pub struct Refusals {
    hosts: Vec<String>,
}

impl View for Refusals {
    type V = Seq<Seq<char>>;

    closed spec fn view(&self) -> Seq<Seq<char>> {
        text::texts(self.hosts@)
    }
}

impl Refusals {
    pub fn new() -> (r: Refusals)
        ensures
            r@.len() == 0,
    {
        Refusals { hosts: Vec::new() }
    }

    /// Keep the certificate a host offered. An older one for the same name is
    /// what it supersedes.
    pub fn keep(&mut self, host: &str)
        ensures
            final(self)@ == text::moved(old(self)@, host@, true),
    {
        self.hosts = text::move_last(&self.hosts, host, true);
    }

    /// Whether a host offered a certificate that can be trusted.
    pub fn allow_host(&self, host: &str) -> (r: bool)
        ensures
            r == self@.contains(host@),
    {
        text::any_same(&self.hosts, host)
    }
}

// ---------------------------------------------------------------------------
// A page that wants a login
// ---------------------------------------------------------------------------

/// Logins given this session, by host and port. Memory only: a password stored
/// without ever showing a "save this?" prompt is a password nobody chose to
/// store.
pub struct Logins {
    known: Vec<(String, String, String)>,
}

pub open spec fn known_logins(known: Seq<(String, String, String)>) -> Seq<
    (Seq<char>, Seq<char>, Seq<char>),
> {
    known.map_values(|l: (String, String, String)| (l.0@, l.1@, l.2@))
}

/// Whether a login is filed under a key.
pub open spec fn filed_under(key: Seq<char>) -> spec_fn((Seq<char>, Seq<char>, Seq<char>)) -> bool {
    |l: (Seq<char>, Seq<char>, Seq<char>)| l.0 == key
}

/// Whether a login is filed under another key.
pub open spec fn filed_elsewhere(key: Seq<char>) -> spec_fn(
    (Seq<char>, Seq<char>, Seq<char>),
) -> bool {
    |l: (Seq<char>, Seq<char>, Seq<char>)| l.0 != key
}

/// The user and the password filed under a key.
pub open spec fn login_under(
    known: Seq<(Seq<char>, Seq<char>, Seq<char>)>,
    key: Seq<char>,
) -> Option<(Seq<char>, Seq<char>)> {
    match list::first_where(known, filed_under(key)) {
        Some(i) => Some((known[i].1, known[i].2)),
        None => None,
    }
}

/// The logins that are not filed under a key.
pub open spec fn other_logins(
    known: Seq<(Seq<char>, Seq<char>, Seq<char>)>,
    key: Seq<char>,
) -> Seq<(Seq<char>, Seq<char>, Seq<char>)> {
    list::kept(known, filed_elsewhere(key))
}

impl View for Logins {
    type V = Seq<(Seq<char>, Seq<char>, Seq<char>)>;

    closed spec fn view(&self) -> Seq<(Seq<char>, Seq<char>, Seq<char>)> {
        known_logins(self.known@)
    }
}

impl Logins {
    pub fn new() -> (r: Logins)
        ensures
            r@.len() == 0,
    {
        Logins { known: Vec::new() }
    }

    /// Keep a login for this session. It takes the place of an older one.
    pub fn remember_login(&mut self, key: &str, user: &str, password: &str)
        ensures
            final(self)@ == other_logins(old(self)@, key@).push((key@, user@, password@)),
    {
        self.forget_login(key);
        let ghost before = self.known@;
        self.known.push((key.to_owned(), user.to_owned(), password.to_owned()));
        assert(known_logins(self.known@) =~= known_logins(before).push((key@, user@, password@)));
    }

    /// The login filed under a key.
    pub fn stored_login(&self, key: &str) -> (r: Option<(String, String)>)
        ensures
            login_under(self@, key@) == match r {
                Some((user, password)) => Some((user@, password@)),
                None => None,
            },
    {
        let ghost want = filed_under(key@);
        let ghost all = self@;
        let mut i: usize = 0;
        while i < self.known.len()
            invariant
                i <= self.known.len(),
                all == known_logins(self.known@),
                want == filed_under(key@),
                forall|j: int| 0 <= j < i ==> !want(#[trigger] all[j]),
            decreases self.known.len() - i,
        {
            assert(all[i as int].0 == self.known@[i as int].0@);
            if text::same(self.known[i].0.as_str(), key) {
                proof {
                    list::lemma_first_where(all, want, i as int);
                }
                return Some((self.known[i].1.clone(), self.known[i].2.clone()));
            }
            i += 1;
        }
        proof {
            list::lemma_first_where(all, want, i as int);
        }
        None
    }

    /// Forget the login filed under a key.
    pub fn forget_login(&mut self, key: &str)
        ensures
            final(self)@ == other_logins(old(self)@, key@),
    {
        let mut all: Vec<(String, String, String)> = Vec::new();
        std::mem::swap(&mut all, &mut self.known);
        let ghost was = all@;
        let ghost known = known_logins(was);
        let ghost keep = filed_elsewhere(key@);
        let mut left: Vec<(String, String, String)> = Vec::new();
        assert(known.take(0) =~= Seq::empty());
        assert(known_logins(left@) =~= Seq::empty());
        for login in it: all
            invariant
                it.seq() == was,
                known == known_logins(was),
                keep == filed_elsewhere(key@),
                known_logins(left@) == list::kept(known.take(it.index() as int), keep),
        {
            let ghost i = it.index() as int;
            assert(known.take(i + 1).drop_last() =~= known.take(i));
            assert(known[i].0 == login.0@);
            if !text::same(login.0.as_str(), key) {
                let ghost before = left@;
                let ghost same = login;
                left.push(login);
                assert(known_logins(left@) =~= known_logins(before).push(
                    (same.0@, same.1@, same.2@),
                ));
            }
        }
        assert(known.take(known.len() as int) =~= known);
        self.known = left;
    }
}

/// What becomes of a site asking for a login.
pub enum Login {
    /// Left to the engine: a proxy asking is not the site asking.
    Leave,
    /// Answered with the login already given.
    Answer(String, String),
    /// Held open, and explained.
    Page,
}

/// Decide about a site asking for a login.
///
/// A retry means what was typed was wrong, so it is forgotten rather than
/// answered with again, which would lock the account out.
pub fn logins(known: &mut Logins, for_proxy: bool, challenge: &Challenge) -> (r: Login)
    ensures
        ({
            let key = filed(challenge.host@, challenge.port);
            &&& final(known)@ == if !for_proxy && challenge.retry {
                other_logins(old(known)@, key)
            } else {
                old(known)@
            }
            &&& match r {
                Login::Leave => for_proxy,
                Login::Answer(user, password) => !for_proxy && login_under(final(known)@, key)
                    == Some((user@, password@)),
                Login::Page => !for_proxy && login_under(final(known)@, key) is None,
            }
        }),
{
    if for_proxy {
        return Login::Leave;
    }
    let key = challenge.key();
    if challenge.retry {
        known.forget_login(key.as_str());
    }
    match known.stored_login(key.as_str()) {
        Some((user, password)) => Login::Answer(user, password),
        None => Login::Page,
    }
}

// ---------------------------------------------------------------------------
// Laws
// ---------------------------------------------------------------------------

/// A load that was superseded, abandoned or turned into a download never puts an
/// error in front of anybody.
pub proof fn law_no_page_for_what_did_not_fail(error: LoadError)
    ensures
        failure_line(error) is None <==> {
            ||| error == LoadError::Network(NetworkError::Cancelled)
            ||| error == LoadError::Abandoned
            ||| error == LoadError::Policy(PolicyError::FrameLoadInterruptedByPolicyChange)
            ||| error == LoadError::Policy(PolicyError::CannotShowMimeType)
        },
{
}

/// Sharing a screen is never taken for using a camera.
pub proof fn law_screen_is_no_camera(video: bool, audio: bool)
    ensures
        !wished(Wish::Media { display: true, video, audio })->0.contains(Kind::Camera),
        wished(Wish::Media { display: true, video, audio })->0.contains(Kind::ScreenShare),
{
    let kinds = wished(Wish::Media { display: true, video, audio })->0;
    assert(kinds[0] == Kind::ScreenShare);
}

/// Nothing is allowed that nobody decided about: a request is granted only where
/// every kind it is for was allowed to that origin.
pub proof fn law_only_the_decided_is_allowed(
    rules: Seq<permissions::Ruling>,
    origin: Option<Seq<char>>,
    wish: Wish,
)
    requires
        verdict(rules, origin, wished(wish)) == Verdict::Allow,
    ensures
        origin is Some,
        forall|i: int|
            0 <= i < (wished(wish)->0).len() ==> permissions::decided(
                rules,
                origin->0,
                #[trigger] (wished(wish)->0)[i],
            ) == Decision::Allow,
{
    assert(permissions::decided_all(rules, origin->0, wished(wish)->0) == Decision::Allow);
}

/// What becomes of a request by a page of `origin`, going by the decisions made.
pub open spec fn settled(
    rules: Seq<permissions::Ruling>,
    origin: Seq<char>,
    wish: Wish,
) -> Verdict {
    verdict(rules, Some(origin), wished(wish))
}

/// A wish for one thing goes by the decision about that thing.
proof fn lemma_one_thing(rules: Seq<permissions::Ruling>, origin: Seq<char>, wish: Wish, kind: Kind)
    requires
        wished(wish) == Some(seq![kind]),
    ensures
        settled(rules, origin, wish) == match permissions::decided(rules, origin, kind) {
            Decision::Allow => Verdict::Allow,
            Decision::Deny => Verdict::Deny,
            Decision::Ask => Verdict::Ask,
        },
{
    let kinds = seq![kind];
    assert(kinds[0] == kind);
    assert forall|i: int| 0 <= i < kinds.len() implies #[trigger] kinds[i] == kind by {}
}

/// A wish for a thing names that thing alone.
proof fn lemma_things_wished(video: bool)
    ensures
        wished(Wish::Notification) == Some(seq![Kind::Notifications]),
        wished(Wish::Geolocation) == Some(seq![Kind::Geolocation]),
        wished(Wish::DeviceInfo) == Some(seq![Kind::DeviceInfo]),
        wished(Wish::MediaKeySystem) == Some(seq![Kind::ProtectedMedia]),
        wished(Wish::Media { display: false, video: true, audio: false }) == Some(seq![Kind::Camera]),
        wished(Wish::Media { display: false, video: false, audio: true }) == Some(seq![Kind::Microphone]),
        wished(Wish::Media { display: true, video, audio: false }) == Some(seq![Kind::ScreenShare]),
        wished(Wish::Media { display: false, video: true, audio: true }) == Some(
            seq![Kind::Camera, Kind::Microphone],
        ),
        wished(Wish::Media { display: true, video, audio: true }) == Some(
            seq![Kind::ScreenShare, Kind::Microphone],
        ),
{
    let nothing = Seq::<Kind>::empty();
    assert(seq![Kind::Camera] + nothing =~= seq![Kind::Camera]);
    assert(nothing + seq![Kind::Microphone] =~= seq![Kind::Microphone]);
    assert(seq![Kind::ScreenShare] + nothing =~= seq![Kind::ScreenShare]);
    assert(seq![Kind::Camera] + seq![Kind::Microphone] =~= seq![Kind::Camera, Kind::Microphone]);
    assert(seq![Kind::ScreenShare] + seq![Kind::Microphone]
        =~= seq![Kind::ScreenShare, Kind::Microphone]);
}

/// A decision about a thing settles a request for that thing: once it is allowed to
/// an origin, or denied, a request for it from a page of that origin is allowed, or
/// denied.
pub proof fn law_decision_settles_the_request(
    rules: Seq<permissions::Ruling>,
    origin: Seq<char>,
    allow: bool,
    now: u64,
    video: bool,
)
    requires
        origin.len() > 0,
    ensures
        ({
            let said = if allow {
                Verdict::Allow
            } else {
                Verdict::Deny
            };
            let after = |kind: Kind| permissions::ruled(rules, origin, kind, allow, now);
            &&& settled(after(Kind::Notifications), origin, Wish::Notification) == said
            &&& settled(after(Kind::Geolocation), origin, Wish::Geolocation) == said
            &&& settled(after(Kind::DeviceInfo), origin, Wish::DeviceInfo) == said
            &&& settled(after(Kind::ProtectedMedia), origin, Wish::MediaKeySystem) == said
            &&& settled(after(Kind::Camera), origin, Wish::Media { display: false, video: true, audio: false }) == said
            &&& settled(after(Kind::Microphone), origin, Wish::Media { display: false, video: false, audio: true }) == said
            &&& settled(after(Kind::ScreenShare), origin, Wish::Media { display: true, video, audio: false }) == said
        }),
{
    lemma_things_wished(video);
    permissions::law_ruling_is_answered(rules, origin, Kind::Notifications, allow, now, origin, Kind::Notifications);
    lemma_one_thing(
        permissions::ruled(rules, origin, Kind::Notifications, allow, now),
        origin,
        Wish::Notification,
        Kind::Notifications,
    );
    permissions::law_ruling_is_answered(rules, origin, Kind::Geolocation, allow, now, origin, Kind::Geolocation);
    lemma_one_thing(
        permissions::ruled(rules, origin, Kind::Geolocation, allow, now),
        origin,
        Wish::Geolocation,
        Kind::Geolocation,
    );
    permissions::law_ruling_is_answered(rules, origin, Kind::DeviceInfo, allow, now, origin, Kind::DeviceInfo);
    lemma_one_thing(
        permissions::ruled(rules, origin, Kind::DeviceInfo, allow, now),
        origin,
        Wish::DeviceInfo,
        Kind::DeviceInfo,
    );
    permissions::law_ruling_is_answered(rules, origin, Kind::ProtectedMedia, allow, now, origin, Kind::ProtectedMedia);
    lemma_one_thing(
        permissions::ruled(rules, origin, Kind::ProtectedMedia, allow, now),
        origin,
        Wish::MediaKeySystem,
        Kind::ProtectedMedia,
    );
    permissions::law_ruling_is_answered(rules, origin, Kind::Camera, allow, now, origin, Kind::Camera);
    lemma_one_thing(
        permissions::ruled(rules, origin, Kind::Camera, allow, now),
        origin,
        Wish::Media { display: false, video: true, audio: false },
        Kind::Camera,
    );
    permissions::law_ruling_is_answered(rules, origin, Kind::Microphone, allow, now, origin, Kind::Microphone);
    lemma_one_thing(
        permissions::ruled(rules, origin, Kind::Microphone, allow, now),
        origin,
        Wish::Media { display: false, video: false, audio: true },
        Kind::Microphone,
    );
    permissions::law_ruling_is_answered(rules, origin, Kind::ScreenShare, allow, now, origin, Kind::ScreenShare);
    lemma_one_thing(
        permissions::ruled(rules, origin, Kind::ScreenShare, allow, now),
        origin,
        Wish::Media { display: true, video, audio: false },
        Kind::ScreenShare,
    );
}

/// No decision about another thing, and none about another origin, changes what
/// becomes of a request.
pub proof fn law_other_decisions_leave_the_request(
    rules: Seq<permissions::Ruling>,
    origin: Seq<char>,
    other: Seq<char>,
    kind: Kind,
    allow: bool,
    now: u64,
    video: bool,
)
    requires
        other.len() > 0,
    ensures
        ({
            let after = permissions::ruled(rules, other, kind, allow, now);
            let far = other != origin;
            &&& far || kind != Kind::Notifications ==> settled(after, origin, Wish::Notification) == settled(
                rules,
                origin,
                Wish::Notification,
            )
            &&& far || kind != Kind::Geolocation ==> settled(after, origin, Wish::Geolocation) == settled(
                rules,
                origin,
                Wish::Geolocation,
            )
            &&& far || kind != Kind::DeviceInfo ==> settled(after, origin, Wish::DeviceInfo) == settled(
                rules,
                origin,
                Wish::DeviceInfo,
            )
            &&& far || kind != Kind::ProtectedMedia ==> settled(after, origin, Wish::MediaKeySystem) == settled(
                rules,
                origin,
                Wish::MediaKeySystem,
            )
            &&& far || kind != Kind::Camera ==> settled(after, origin, Wish::Media { display: false, video: true, audio: false }) == settled(
                rules,
                origin,
                Wish::Media { display: false, video: true, audio: false },
            )
            &&& far || kind != Kind::Microphone ==> settled(after, origin, Wish::Media { display: false, video: false, audio: true }) == settled(
                rules,
                origin,
                Wish::Media { display: false, video: false, audio: true },
            )
            &&& far || kind != Kind::ScreenShare ==> settled(after, origin, Wish::Media { display: true, video, audio: false }) == settled(
                rules,
                origin,
                Wish::Media { display: true, video, audio: false },
            )
        }),
{
    lemma_things_wished(video);
    let after = permissions::ruled(rules, other, kind, allow, now);
    permissions::law_ruling_is_answered(rules, other, kind, allow, now, origin, Kind::Notifications);
    lemma_one_thing(rules, origin, Wish::Notification, Kind::Notifications);
    lemma_one_thing(after, origin, Wish::Notification, Kind::Notifications);
    permissions::law_ruling_is_answered(rules, other, kind, allow, now, origin, Kind::Geolocation);
    lemma_one_thing(rules, origin, Wish::Geolocation, Kind::Geolocation);
    lemma_one_thing(after, origin, Wish::Geolocation, Kind::Geolocation);
    permissions::law_ruling_is_answered(rules, other, kind, allow, now, origin, Kind::DeviceInfo);
    lemma_one_thing(rules, origin, Wish::DeviceInfo, Kind::DeviceInfo);
    lemma_one_thing(after, origin, Wish::DeviceInfo, Kind::DeviceInfo);
    permissions::law_ruling_is_answered(rules, other, kind, allow, now, origin, Kind::ProtectedMedia);
    lemma_one_thing(rules, origin, Wish::MediaKeySystem, Kind::ProtectedMedia);
    lemma_one_thing(after, origin, Wish::MediaKeySystem, Kind::ProtectedMedia);
    permissions::law_ruling_is_answered(rules, other, kind, allow, now, origin, Kind::Camera);
    lemma_one_thing(rules, origin, Wish::Media { display: false, video: true, audio: false }, Kind::Camera);
    lemma_one_thing(after, origin, Wish::Media { display: false, video: true, audio: false }, Kind::Camera);
    permissions::law_ruling_is_answered(rules, other, kind, allow, now, origin, Kind::Microphone);
    lemma_one_thing(rules, origin, Wish::Media { display: false, video: false, audio: true }, Kind::Microphone);
    lemma_one_thing(after, origin, Wish::Media { display: false, video: false, audio: true }, Kind::Microphone);
    permissions::law_ruling_is_answered(rules, other, kind, allow, now, origin, Kind::ScreenShare);
    lemma_one_thing(rules, origin, Wish::Media { display: true, video, audio: false }, Kind::ScreenShare);
    lemma_one_thing(after, origin, Wish::Media { display: true, video, audio: false }, Kind::ScreenShare);
}

/// A call that wants to see and to hear is allowed once both were, denied once either
/// was, and asked about until then.
pub proof fn law_call_takes_both(
    rules: Seq<permissions::Ruling>,
    origin: Seq<char>,
    display: bool,
    video: bool,
)
    requires
        display || video,
    ensures
        ({
            let seen = settled(rules, origin, Wish::Media { display, video, audio: false });
            let heard = settled(
                rules,
                origin,
                Wish::Media { display: false, video: false, audio: true },
            );
            let call = settled(rules, origin, Wish::Media { display, video, audio: true });
            &&& call == Verdict::Allow <==> seen == Verdict::Allow && heard == Verdict::Allow
            &&& call == Verdict::Deny <==> seen == Verdict::Deny || heard == Verdict::Deny
            &&& call != Verdict::Leave
        }),
{
    lemma_things_wished(video);
    let first = if display {
        Kind::ScreenShare
    } else {
        Kind::Camera
    };
    lemma_one_thing(rules, origin, Wish::Media { display, video, audio: false }, first);
    lemma_one_thing(
        rules,
        origin,
        Wish::Media { display: false, video: false, audio: true },
        Kind::Microphone,
    );
    let kinds = seq![first, Kind::Microphone];
    assert(kinds[0] == first && kinds[1] == Kind::Microphone);
    assert(wished(Wish::Media { display, video, audio: true }) == Some(kinds));
    assert(forall|i: int|
        0 <= i < kinds.len() ==> (#[trigger] kinds[i] == first || kinds[i] == Kind::Microphone));
}

/// A page with no origin is denied whatever it asks for, and a request for something
/// else is left to the engine.
pub proof fn law_nothing_for_nobody(rules: Seq<permissions::Ruling>, origin: Seq<char>, wish: Wish)
    ensures
        wish != Wish::Other ==> verdict(rules, None, wished(wish)) == Verdict::Deny,
        wish != Wish::Other ==> settled(rules, origin, wish) != Verdict::Leave,
        settled(rules, origin, Wish::Other) == Verdict::Leave,
        settled(rules, origin, Wish::Media { display: false, video: false, audio: false })
            == Verdict::Deny,
{
}

/// What a person types is the thing it settles: allowing, or denying, a thing by its
/// name settles the request a page makes for it.
pub proof fn law_named_thing_is_settled(
    rules: Seq<permissions::Ruling>,
    origin: Seq<char>,
    allow: bool,
    now: u64,
    video: bool,
)
    requires
        origin.len() > 0,
    ensures
        ({
            let said = if allow {
                Verdict::Allow
            } else {
                Verdict::Deny
            };
            let after = |name: Seq<char>|
                permissions::ruled(
                    rules,
                    origin,
                    permissions::kind_called(permissions::typed(name))->0,
                    allow,
                    now,
                );
            &&& settled(after("notifications"@), origin, Wish::Notification) == said
            &&& settled(after("geolocation"@), origin, Wish::Geolocation) == said
            &&& settled(after("device-info"@), origin, Wish::DeviceInfo) == said
            &&& settled(after("protected-media"@), origin, Wish::MediaKeySystem) == said
            &&& settled(after("camera"@), origin, Wish::Media { display: false, video: true, audio: false }) == said
            &&& settled(after("microphone"@), origin, Wish::Media { display: false, video: false, audio: true }) == said
            &&& settled(after("screen-share"@), origin, Wish::Media { display: true, video, audio: false }) == said
        }),
{
    law_decision_settles_the_request(rules, origin, allow, now, video);
    permissions::law_kind_round_trip(Kind::Notifications);
    permissions::law_kind_round_trip(Kind::Geolocation);
    permissions::law_kind_round_trip(Kind::DeviceInfo);
    permissions::law_kind_round_trip(Kind::ProtectedMedia);
    permissions::law_kind_round_trip(Kind::Camera);
    permissions::law_kind_round_trip(Kind::Microphone);
    permissions::law_kind_round_trip(Kind::ScreenShare);
}

/// Every objection to a certificate is named where it holds and nowhere else, and one
/// that is refused without any is refused in so many words.
pub proof fn law_each_objection_is_named(flags: TlsCertificateFlags)
    ensures
        ({
            let said = described(flags);
            &&& said.len() > 0
            &&& said.contains("it was not issued by an authority this machine trusts"@)
                <==> flags.unknown_ca
            &&& said.contains("it was issued for a different host"@) <==> flags.bad_identity
            &&& said.contains("it is not valid yet"@) <==> flags.not_activated
            &&& said.contains("it has expired"@) <==> flags.expired
            &&& said.contains("it has been revoked"@) <==> flags.revoked
            &&& said.contains("it uses an algorithm considered insecure"@) <==> flags.insecure
        }),
{
    reveal_strlit("it was not issued by an authority this machine trusts");
    reveal_strlit("it was issued for a different host");
    reveal_strlit("it is not valid yet");
    reveal_strlit("it has expired");
    reveal_strlit("it has been revoked");
    reveal_strlit("it uses an algorithm considered insecure");
    reveal_strlit("it did not check out");
    let a = "it was not issued by an authority this machine trusts"@;
    let b = "it was issued for a different host"@;
    let c = "it is not valid yet"@;
    let d = "it has expired"@;
    let e = "it has been revoked"@;
    let f = "it uses an algorithm considered insecure"@;
    assert(a.len() == 53 && b.len() == 34 && c.len() == 19 && d.len() == 14 && e.len() == 19
        && f.len() == 40 && "it did not check out"@.len() == 20);
    assert(c[3] == 'i' && e[3] == 'h');
    let one = said_if(flags.unknown_ca, a);
    let two = one + said_if(flags.bad_identity, b);
    let three = two + said_if(flags.not_activated, c);
    let four = three + said_if(flags.expired, d);
    let five = four + said_if(flags.revoked, e);
    let all = five + said_if(flags.insecure, f);
    assert(all == objections(flags));
    lemma_said(Seq::empty(), flags.unknown_ca, a);
    assert(Seq::<Seq<char>>::empty() + one =~= one);
    lemma_said(one, flags.bad_identity, b);
    lemma_said(two, flags.not_activated, c);
    lemma_said(three, flags.expired, d);
    lemma_said(four, flags.revoked, e);
    lemma_said(five, flags.insecure, f);
    if all.len() == 0 {
        assert(described(flags)[0].len() == 20);
    }
}

proof fn lemma_said(before: Seq<Seq<char>>, holds: bool, said: Seq<char>)
    ensures
        forall|x: Seq<char>|
            #[trigger] (before + said_if(holds, said)).contains(x) <==> before.contains(x) || (holds
                && x == said),
{
    let after = before + said_if(holds, said);
    assert forall|x: Seq<char>|
        #[trigger] after.contains(x) <==> before.contains(x) || (holds && x == said) by {
        if before.contains(x) {
            let i = choose|i: int| 0 <= i < before.len() && before[i] == x;
            assert(after[i] == x);
        }
        if holds {
            assert(after[before.len() as int] == said);
        }
        if after.contains(x) {
            let i = choose|i: int| 0 <= i < after.len() && after[i] == x;
            if i < before.len() {
                assert(before[i] == x);
            }
        }
    }
}

/// A host is trusted under its own name, whatever its capitals, and under no other
/// plain name. A star in front of a domain trusts every host one level below it.
pub proof fn law_trust_goes_by_name(name: Seq<char>, host: Seq<char>, label: Seq<char>)
    requires
        name.len() > 0,
        !text::is_space(name[0]) && !text::is_space(name.last()),
        name[0] != '*',
        label.len() > 0,
        !label.contains('.'),
    ensures
        names_host(name, host) <==> text::lowered(name) == text::lowered(host),
        names_host(name, name),
        names_host(name, text::lowered(name)),
        names_host("*."@ + name, label + "."@ + name),
        !names_host("*."@ + name, name),
{
    reveal_strlit("*.");
    reveal_strlit(".");
    assert(text::trimmed(name) == name);
    assert(!text::has_prefix(name, "*."@)) by {
        if text::has_prefix(name, "*."@) {
            assert(name.subrange(0, 2)[0] == name[0]);
        }
    }
    assert(text::lowered(text::lowered(name)) =~= text::lowered(name));
    let pattern = "*."@ + name;
    assert(pattern[0] == '*' && pattern.last() == name.last());
    assert(text::trimmed(pattern) == pattern);
    assert(pattern.subrange(0, 2) =~= "*."@);
    assert(pattern.skip(2) =~= name);
    let whole = label + "."@ + name;
    let head = label + "."@;
    assert(whole.subrange(whole.len() - name.len(), whole.len() as int) =~= name);
    assert(whole.take(whole.len() - name.len()) =~= head);
    assert(head.subrange(head.len() - 1, head.len() as int) =~= "."@);
    let dot = |c: char| "."@.contains(c);
    assert("."@[0] == '.');
    assert(dot('.'));
    assert("."@ =~= seq!['.']);
    assert(head.drop_last() =~= label);
    assert(label.contains(label.last()));
    assert(!dot(label.last()));
    assert(text::trim_end_by(label, dot) == label);
    assert(text::trim_end_by(head, dot) == label);
    assert(name.subrange(0, name.len() as int) =~= name);
    assert(name.take(0).len() == 0);
}

/// Logins to two ports of a host are filed apart.
pub proof fn law_each_port_has_its_login(host: Seq<char>, port: u32, other: u32)
    ensures
        filed(host, port) == filed(host, other) <==> port == other,
{
    reveal_strlit(":");
    if filed(host, port) == filed(host, other) {
        let a = number::decimal(port as nat);
        let b = number::decimal(other as nat);
        let from = host.len() + 1;
        assert(a =~= filed(host, port).skip(from as int));
        assert(b =~= filed(host, other).skip(from as int));
        number::law_decimal_reads_back(port as nat, u32::MAX as nat);
        number::law_decimal_reads_back(other as nat, u32::MAX as nat);
    }
}

/// Answering a request that was just made leaves the others as they were.
pub proof fn law_answer_settles_one(waiting: Seq<u64>, id: u64)
    requires
        !waiting.contains(id),
    ensures
        let_go(waiting.push(id), id) == waiting,
{
    let want = is_id(id);
    let all = waiting.push(id);
    assert forall|j: int| 0 <= j < waiting.len() implies !want(#[trigger] all[j]) by {
        assert(waiting[j] != id);
    }
    list::lemma_first_where(all, want, waiting.len() as int);
    assert(all.remove(waiting.len() as int) =~= waiting);
}

/// A wildcard never trusts the bare domain, nor anything more than one level
/// down.
pub proof fn law_star_is_one_level(suffix: Seq<char>, label: Seq<char>)
    requires
        text::trimmed("*."@ + suffix) == "*."@ + suffix,
        label.contains('.'),
        label.len() > 0,
        label.last() != '.',
    ensures
        !names_host("*."@ + suffix, suffix),
        !names_host("*."@ + suffix, label + "."@ + suffix),
{
    reveal_strlit("*.");
    reveal_strlit(".");
    let pattern = "*."@ + suffix;
    assert(pattern.subrange(0, 2) =~= "*."@);
    assert(pattern.skip(2) =~= suffix);
    assert(suffix.take(0).len() == 0);
    assert(suffix.subrange(0, suffix.len() as int) =~= suffix);
    let host = label + "."@ + suffix;
    let head = host.take(host.len() - suffix.len());
    assert(host.subrange(host.len() - suffix.len(), host.len() as int) =~= suffix);
    assert(head =~= label + "."@);
    let dot = |c: char| "."@.contains(c);
    assert("."@ =~= seq!['.']);
    assert(head.last() == '.');
    assert("."@[0] == '.');
    assert(dot('.'));
    assert(head.drop_last() =~= label);
    assert(!dot(label.last()));
    assert(text::trim_end_by(head, dot) == text::trim_end_by(label, dot));
    assert(text::trim_end_by(label, dot) == label);
}

/// A login is given back for the host and port it was given for, until it is
/// forgotten, and giving one touches no other.
pub proof fn law_login_is_remembered(
    known: Seq<(Seq<char>, Seq<char>, Seq<char>)>,
    key: Seq<char>,
    user: Seq<char>,
    password: Seq<char>,
    other: Seq<char>,
)
    ensures
        login_under(other_logins(known, key).push((key, user, password)), key) == Some(
            (user, password),
        ),
        login_under(other_logins(known, key), key) is None,
        other != key ==> login_under(other_logins(known, key).push((key, user, password)), other)
            == login_under(known, other),
    decreases known.len(),
{
    let keep = filed_elsewhere(key);
    let want = filed_under(key);
    let others = other_logins(known, key);
    let now = others.push((key, user, password));
    list::lemma_kept(known, keep);
    assert forall|j: int| 0 <= j < others.len() implies !want(#[trigger] others[j]) by {
        assert(keep(others[j]));
    }
    assert forall|j: int| 0 <= j < others.len() implies !want(#[trigger] now[j]) by {
        assert(now[j] == others[j]);
    }
    list::lemma_first_where(others, want, others.len() as int);
    list::lemma_first_where(now, want, others.len() as int);
    if other != key {
        let seek = filed_under(other);
        lemma_others_found(known, key, other);
        list::lemma_first_where_is_first(others, seek);
        match list::first_where(others, seek) {
            Some(i) => {
                assert forall|j: int| 0 <= j < i implies !seek(#[trigger] now[j]) by {
                    assert(now[j] == others[j]);
                }
                assert(now[i] == others[i]);
                list::lemma_first_where(now, seek, i);
            },
            None => {
                assert forall|j: int| 0 <= j < now.len() implies !seek(#[trigger] now[j]) by {
                    if j < others.len() {
                        assert(now[j] == others[j]);
                    }
                }
                list::lemma_first_where(now, seek, now.len() as int);
            },
        }
    }
}

proof fn lemma_others_found(
    known: Seq<(Seq<char>, Seq<char>, Seq<char>)>,
    key: Seq<char>,
    other: Seq<char>,
)
    requires
        other != key,
    ensures
        login_under(other_logins(known, key), other) == login_under(known, other),
{
    let keep = filed_elsewhere(key);
    let seek = filed_under(other);
    list::lemma_kept_first(known, keep, seek);
}

/// A failure that gets a page is told in words of its own: a port as a port, an address
/// as an address, what is not there as not there.
pub proof fn law_failure_says_what_failed()
    ensures
        text::says(
            failure_line(LoadError::Policy(PolicyError::CannotUseRestrictedPort))->0,
            "port"@,
        ),
        text::says(failure_line(LoadError::Policy(PolicyError::Other))->0, "opened"@),
        text::says(failure_line(LoadError::Network(NetworkError::UnknownProtocol))->0, "address"@),
        text::says(
            failure_line(LoadError::Network(NetworkError::FileDoesNotExist))->0,
            "not there"@,
        ),
        text::says(failure_line(LoadError::Network(NetworkError::Other))->0, "reached"@),
        text::says(failure_line(LoadError::Other)->0, "reached"@),
{
    reveal_strlit("is on a port a browser is not allowed to use.");
    reveal_strlit("could not be opened.");
    reveal_strlit("is not an address this browser can open.");
    reveal_strlit("is not there.");
    reveal_strlit("could not be reached.");
    reveal_strlit("port");
    reveal_strlit("opened");
    reveal_strlit("address");
    reveal_strlit("not there");
    reveal_strlit("reached");
    let port = "is on a port a browser is not allowed to use."@;
    let opened = "could not be opened."@;
    let address = "is not an address this browser can open."@;
    let there = "is not there."@;
    let reached = "could not be reached."@;
    assert(port.subrange(8, 12) =~= "port"@);
    assert(text::stands_at(port, "port"@, 8));
    assert(opened.subrange(13, 19) =~= "opened"@);
    assert(text::stands_at(opened, "opened"@, 13));
    assert(address.subrange(10, 17) =~= "address"@);
    assert(text::stands_at(address, "address"@, 10));
    assert(there.subrange(3, 12) =~= "not there"@);
    assert(text::stands_at(there, "not there"@, 3));
    assert(reached.subrange(13, 20) =~= "reached"@);
    assert(text::stands_at(reached, "reached"@, 13));
}

/// A host is trusted when any one of the names on the list names it.
pub proof fn law_any_name_is_enough(
    front: Seq<Seq<char>>,
    back: Seq<Seq<char>>,
    name: Seq<char>,
    host: Seq<char>,
)
    ensures
        is_trusted(seq![name], host) == names_host(name, host),
        is_trusted(front + back, host) == (is_trusted(front, host) || is_trusted(back, host)),
        !is_trusted(Seq::empty(), host),
{
    let one = seq![name];
    assert(one[0] == name);
    let both = front + back;
    if is_trusted(front, host) {
        let i = choose|i: int| 0 <= i < front.len() && names_host(#[trigger] front[i], host);
        assert(both[i] == front[i]);
    }
    if is_trusted(back, host) {
        let i = choose|i: int| 0 <= i < back.len() && names_host(#[trigger] back[i], host);
        assert(both[front.len() + i] == back[i]);
    }
    if is_trusted(both, host) {
        let i = choose|i: int| 0 <= i < both.len() && names_host(#[trigger] both[i], host);
        if i < front.len() {
            assert(both[i] == front[i]);
        } else {
            assert(both[i] == back[i - front.len()]);
        }
    }
}

/// Answering one question leaves every other one waiting, in the order in which they came.
pub proof fn law_other_questions_wait(
    front: Seq<Question>,
    question: Question,
    back: Seq<Question>,
)
    requires
        forall|i: int| 0 <= i < front.len() ==> (#[trigger] front[i]).id != question.id,
        forall|i: int| 0 <= i < back.len() ==> (#[trigger] back[i]).id != question.id,
    ensures
        other_questions(front + seq![question] + back, question.id) == front + back,
{
    let id = question.id;
    let keep = |q: Question| q.id != id;
    list::lemma_kept_joins(front + seq![question], back, keep);
    list::lemma_kept_joins(front, seq![question], keep);
    list::lemma_kept_all(front, keep);
    list::lemma_kept_all(back, keep);
    list::lemma_kept_one(question, keep);
    assert(front + Seq::<Question>::empty() =~= front);
}

} // verus!
