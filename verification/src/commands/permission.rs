//! `permission`: what each site may do.

use vstd::prelude::*;

use crate::commands;
use crate::commands::Refusal;
use crate::list;
use crate::permissions;
use crate::permissions::{Kind, Permissions};
use crate::policy;
use crate::text;
use crate::weburl;

verus! {

/// What was decided for a site.
#[derive(Debug)]
pub struct Decided {
    pub origin: String,
    pub kinds: Vec<String>,
    pub allowed: bool,
}

/// What was un-decided.
#[derive(Debug)]
pub struct PermissionForgotten {
    pub origin: String,
    /// How many decisions went. Zero is not an error: forgetting something you
    /// never decided is the state you asked for.
    pub forgotten: usize,
}

/// One decision, as it is listed.
#[derive(Debug)]
pub struct GrantRow {
    pub origin: String,
    pub kind: String,
    pub allowed: bool,
}

// ---------------------------------------------------------------------------
// Which site
// ---------------------------------------------------------------------------

/// Whether an origin is of this host and port.
pub open spec fn is_of(host: Seq<char>) -> spec_fn(Seq<char>) -> bool {
    |origin: Seq<char>|
        match text::cut_text(origin, "//"@) {
            Some((_, rest)) => rest == host,
            None => false,
        }
}

/// The origins of this host and port that something was decided about. An origin
/// is one candidate, however much was decided about it.
pub open spec fn candidates(known: Seq<Seq<char>>, host: Seq<char>) -> Seq<Seq<char>> {
    list::distinct(list::kept(known, is_of(host)))
}

/// The site that `raw` means, given the origin it reads as, and the one it reads
/// as with `https://` in front of it.
pub open spec fn site_for(
    known: Seq<Seq<char>>,
    raw: Seq<char>,
    whole: Option<Seq<char>>,
    secured: Option<Seq<char>>,
) -> Result<Seq<char>, Seq<char>> {
    let matches = candidates(known, raw);
    if raw.len() == 0 {
        Err("which site? Give an origin, like https://example.com"@)
    } else if whole is Some {
        Ok(whole->0)
    } else if matches.len() == 1 {
        Ok(matches[0])
    } else if matches.len() > 1 {
        Err(raw + " is ambiguous -- did you mean "@ + text::joined(matches, " or "@) + "?"@)
    } else if secured is Some {
        Ok(secured->0)
    } else {
        Err(text::shown(raw) + " is not a site; try https://"@ + raw)
    }
}

/// The site that someone typed.
pub open spec fn site_meant(known: Seq<Seq<char>>, raw: Seq<char>) -> Result<
    Seq<char>,
    Seq<char>,
> {
    let raw = text::trimmed(raw);
    site_for(
        known,
        raw,
        permissions::remembered(weburl::origin_text(raw)),
        permissions::remembered(weburl::origin_text("https://"@ + raw)),
    )
}

/// Pick the site that `raw`, with no space around it, means.
///
/// A bare host is resolved against what has actually been decided: exactly one
/// origin that matches wins, several are reported rather than picked between, and
/// none falls back to `https://`, which is right for a site nobody has visited
/// yet.
pub fn choose_origin(
    known: &[String],
    raw: &str,
    whole: Option<String>,
    secured: Option<String>,
) -> (r: Result<String, String>)
    ensures
        site_for(
            text::texts(known@),
            raw@,
            text::maybe_owned(whole),
            text::maybe_owned(secured),
        ) == match r {
            Ok(origin) => Ok::<Seq<char>, Seq<char>>(origin@),
            Err(why) => Err(why@),
        },
{
    if raw.is_empty() {
        return Err("which site? Give an origin, like https://example.com".to_owned());
    }
    if let Some(origin) = whole {
        return Ok(origin);
    }
    let ghost all = text::texts(known@);
    let ghost keep = is_of(raw@);
    let mut matches: Vec<String> = Vec::new();
    let mut i: usize = 0;
    assert(all.take(0) =~= Seq::empty());
    assert(text::texts(matches@) =~= Seq::empty());
    while i < known.len()
        invariant
            i <= known.len(),
            all == text::texts(known@),
            keep == is_of(raw@),
            text::texts(matches@) == list::distinct(list::kept(all.take(i as int), keep)),
        decreases known.len() - i,
    {
        assert(all.take(i + 1).drop_last() =~= all.take(i as int));
        assert(all[i as int] == known@[i as int]@);
        let here = match text::split_text(known[i].as_str(), "//") {
            Some((_, rest)) => text::same(rest.as_str(), raw),
            None => false,
        };
        if here {
            let ghost before = matches@;
            let ghost front = list::kept(all.take(i as int), keep);
            assert(front.push(all[i as int]).drop_last() =~= front);
            if !text::any_same(&matches, known[i].as_str()) {
                matches.push(known[i].clone());
                assert(text::texts(matches@) =~= text::texts(before).push(known@[i as int]@));
            }
        }
        i += 1;
    }
    assert(all.take(i as int) =~= all);
    assert(text::texts(matches@).len() == matches@.len());
    if matches.len() == 1 {
        assert(text::texts(matches@)[0] == matches@[0]@);
        return Ok(matches[0].clone());
    }
    if matches.len() > 1 {
        let mut why = raw.to_owned();
        why.append(" is ambiguous -- did you mean ");
        why.append(text::join(&matches, " or ").as_str());
        why.append("?");
        return Err(why);
    }
    match secured {
        Some(origin) => Ok(origin),
        None => {
            let mut why = text::show(raw);
            why.append(" is not a site; try https://");
            why.append(raw);
            Err(why)
        },
    }
}

/// Turn what someone typed into the origin they meant.
///
/// A full address is unambiguous: it has a scheme, and the path is not part of
/// an origin. A bare host is not, and guessing `https://` outright would make
/// forgetting a development server's decisions silently forget nothing.
pub fn resolve_origin(known: &[String], raw: &str) -> (r: Result<String, String>)
    ensures
        site_meant(text::texts(known@), raw@) == match r {
            Ok(origin) => Ok::<Seq<char>, Seq<char>>(origin@),
            Err(why) => Err(why@),
        },
{
    let raw = text::trim(raw);
    let mut secure = "https://".to_owned();
    secure.append(raw.as_str());
    let whole = permissions::origin_of(raw.as_str());
    let secured = permissions::origin_of(secure.as_str());
    choose_origin(known, raw.as_str(), whole, secured)
}

/// The origins something has already been decided about.
pub open spec fn origins(rules: Seq<permissions::Ruling>) -> Seq<Seq<char>> {
    rules.map_values(|r: permissions::Ruling| r.origin)
}

/// The origins something has already been decided about.
pub fn known_origins(store: &Permissions) -> (r: Vec<String>)
    ensures
        text::texts(r@) == origins(store@),
{
    let entries = store.entries();
    let mut out: Vec<String> = Vec::new();
    let mut i: usize = 0;
    while i < entries.len()
        invariant
            i <= entries.len(),
            permissions::rulings(entries@) == store@,
            text::texts(out@) =~= origins(store@).take(i as int),
        decreases entries.len() - i,
    {
        let ghost before = out@;
        out.push(entries[i].origin.clone());
        assert(store@[i as int] == entries@[i as int]@);
        assert(text::texts(out@) =~= text::texts(before).push(entries@[i as int].origin@));
        i += 1;
    }
    assert(origins(store@).take(i as int) =~= origins(store@));
    out
}

// ---------------------------------------------------------------------------
// Allowing, denying, forgetting
// ---------------------------------------------------------------------------

/// The names of the kinds, as they are listed to somebody who got one wrong.
pub const KIND_NAMES: &'static str =
    "camera, microphone, screen-share, geolocation, notifications, device-info, protected-media";

fn no_such_kind() -> (r: Refusal)
    ensures
        commands::refuses(r, "usage"@, "expected one of "@ + KIND_NAMES@),
{
    let mut message = "expected one of ".to_owned();
    message.append(KIND_NAMES);
    Refusal { code: "usage", message }
}

/// The kind somebody typed, if they typed one.
pub open spec fn kind_typed(kind: Option<Seq<char>>) -> Option<Kind> {
    match kind {
        Some(raw) => permissions::kind_called(permissions::typed(raw)),
        None => None,
    }
}

/// What becomes of the decisions when a site is allowed or denied something.
pub open spec fn after_ruling(
    rules: Seq<permissions::Ruling>,
    site: Result<Seq<char>, Seq<char>>,
    kind: Option<Kind>,
    allow: bool,
    now: u64,
) -> Seq<permissions::Ruling> {
    match (site, kind) {
        (Ok(origin), Some(kind)) => permissions::ruled(rules, origin, kind, allow, now),
        _ => rules,
    }
}

/// Whether this is what a site being allowed or denied something comes back as.
pub open spec fn is_ruling(
    r: Result<Decided, Refusal>,
    site: Result<Seq<char>, Seq<char>>,
    kind: Option<Kind>,
    allow: bool,
) -> bool {
    match site {
        Err(why) => r matches Err(refusal) && commands::refuses(refusal, "usage"@, why),
        Ok(origin) => match kind {
            None => r matches Err(refusal) && commands::refuses(
                refusal,
                "usage"@,
                "expected one of "@ + KIND_NAMES@,
            ),
            Some(kind) => r matches Ok(decided) && decided.origin@ == origin && text::texts(
                decided.kinds@,
            ) == seq![permissions::kind_name(kind)] && decided.allowed == allow,
        },
    }
}

/// Allow or deny a site something, given which site was meant.
pub fn set_for(
    store: &mut Permissions,
    site: Result<String, String>,
    kind: Option<&str>,
    allow: bool,
    now: u64,
) -> (r: Result<Decided, Refusal>)
    ensures
        ({
            let meant = match site {
                Ok(origin) => Ok::<Seq<char>, Seq<char>>(origin@),
                Err(why) => Err(why@),
            };
            let wanted = kind_typed(text::maybe(kind));
            &&& final(store)@ == after_ruling(old(store)@, meant, wanted, allow, now)
            &&& is_ruling(r, meant, wanted, allow)
        }),
{
    let origin = match site {
        Ok(origin) => origin,
        Err(why) => return Err(Refusal { code: "usage", message: why }),
    };
    let kind = match kind {
        Some(raw) => match Kind::parse(raw) {
            Some(kind) => kind,
            None => return Err(no_such_kind()),
        },
        None => return Err(no_such_kind()),
    };
    store.set(origin.as_str(), kind, allow, now);
    let mut kinds: Vec<String> = Vec::new();
    kinds.push(kind.as_str().to_owned());
    assert(text::texts(kinds@) =~= seq![permissions::kind_name(kind)]);
    Ok(Decided { origin, kinds, allowed: allow })
}

/// `permission allow` and `permission deny`: the same command with the verdict
/// turned round.
pub fn set_one(
    store: &mut Permissions,
    origin: Option<&str>,
    kind: Option<&str>,
    allow: bool,
    now: u64,
) -> (r: Result<Decided, Refusal>)
    ensures
        ({
            let meant = site_meant(
                origins(old(store)@),
                commands::or_empty(text::maybe(origin)),
            );
            let wanted = kind_typed(text::maybe(kind));
            &&& final(store)@ == after_ruling(old(store)@, meant, wanted, allow, now)
            &&& is_ruling(r, meant, wanted, allow)
        }),
{
    let known = known_origins(store);
    let raw = match origin {
        Some(origin) => origin,
        None => {
            proof {
                reveal_strlit("");
                assert(""@ =~= Seq::<char>::empty());
            }
            ""
        },
    };
    let site = resolve_origin(&known, raw);
    set_for(store, site, kind, allow, now)
}

/// What each site has been allowed or refused.
pub fn list(store: &Permissions) -> (r: Vec<GrantRow>)
    ensures
        r@.len() == store@.len(),
        forall|i: int|
            0 <= i < store@.len() ==> (#[trigger] r@[i]).origin@ == store@[i].origin && r@[i].kind@
                == permissions::kind_name(store@[i].kind) && r@[i].allowed == store@[i].allow,
{
    let entries = store.entries();
    let mut out: Vec<GrantRow> = Vec::new();
    let mut i: usize = 0;
    while i < entries.len()
        invariant
            i <= entries.len(),
            permissions::rulings(entries@) == store@,
            out@.len() == i,
            forall|j: int|
                0 <= j < i ==> (#[trigger] out@[j]).origin@ == store@[j].origin && out@[j].kind@
                    == permissions::kind_name(store@[j].kind) && out@[j].allowed == store@[j].allow,
        decreases entries.len() - i,
    {
        let grant = &entries[i];
        assert(store@[i as int] == grant@);
        out.push(
            GrantRow {
                origin: grant.origin.clone(),
                kind: grant.kind.as_str().to_owned(),
                allowed: grant.allow,
            },
        );
        i += 1;
    }
    assert(entries@.len() == store@.len());
    out
}

/// What `permission forget` is about: one kind, or all of them where none was
/// named. `None` for a kind that is not one.
pub open spec fn forgets(kind: Option<Seq<char>>) -> Option<Option<Kind>> {
    match kind {
        None => Some(None),
        Some(raw) => match permissions::kind_called(permissions::typed(raw)) {
            Some(kind) => Some(Some(kind)),
            None => None,
        },
    }
}

/// What becomes of the decisions when a site's are forgotten.
pub open spec fn after_forgetting(
    rules: Seq<permissions::Ruling>,
    site: Result<Seq<char>, Seq<char>>,
    kind: Option<Option<Kind>>,
) -> Seq<permissions::Ruling> {
    match (site, kind) {
        (Ok(origin), Some(kind)) => permissions::forgotten(rules, origin, kind),
        _ => rules,
    }
}

/// Whether this is what forgetting a site's decisions comes back as.
pub open spec fn is_forgetting(
    r: Result<PermissionForgotten, Refusal>,
    site: Result<Seq<char>, Seq<char>>,
    kind: Option<Option<Kind>>,
    gone: int,
) -> bool {
    match site {
        Err(why) => r matches Err(refusal) && commands::refuses(refusal, "usage"@, why),
        Ok(origin) => match kind {
            None => r matches Err(refusal) && commands::refuses(
                refusal,
                "usage"@,
                "expected one of "@ + KIND_NAMES@,
            ),
            Some(_) => r matches Ok(told) && told.origin@ == origin && told.forgotten == gone,
        },
    }
}

/// Forget a site's decisions, given which site was meant.
pub fn forget_for(store: &mut Permissions, site: Result<String, String>, kind: Option<&str>) -> (r:
    Result<PermissionForgotten, Refusal>)
    ensures
        ({
            let meant = match site {
                Ok(origin) => Ok::<Seq<char>, Seq<char>>(origin@),
                Err(why) => Err(why@),
            };
            let which = forgets(text::maybe(kind));
            &&& final(store)@ == after_forgetting(old(store)@, meant, which)
            &&& is_forgetting(r, meant, which, old(store)@.len() - final(store)@.len())
        }),
{
    let origin = match site {
        Ok(origin) => origin,
        Err(why) => return Err(Refusal { code: "usage", message: why }),
    };
    let kind = match kind {
        None => None,
        Some(raw) => match Kind::parse(raw) {
            Some(kind) => Some(kind),
            None => return Err(no_such_kind()),
        },
    };
    let forgotten: usize = store.forget(origin.as_str(), kind);
    Ok(PermissionForgotten { origin, forgotten })
}

/// `permission forget`: un-decide, so that the site will be asked about again.
/// No kind means the whole site, which is what "forget about them" means when
/// you say it out loud.
pub fn forget(store: &mut Permissions, origin: Option<&str>, kind: Option<&str>) -> (r: Result<
    PermissionForgotten,
    Refusal,
>)
    ensures
        ({
            let meant = site_meant(
                origins(old(store)@),
                commands::or_empty(text::maybe(origin)),
            );
            let which = forgets(text::maybe(kind));
            &&& final(store)@ == after_forgetting(old(store)@, meant, which)
            &&& is_forgetting(r, meant, which, old(store)@.len() - final(store)@.len())
        }),
{
    let known = known_origins(store);
    let raw = match origin {
        Some(origin) => origin,
        None => {
            proof {
                reveal_strlit("");
                assert(""@ =~= Seq::<char>::empty());
            }
            ""
        },
    };
    let site = resolve_origin(&known, raw);
    forget_for(store, site, kind)
}

// ---------------------------------------------------------------------------
// Answering the site that is waiting
// ---------------------------------------------------------------------------

/// What a word typed at the question means.
pub open spec fn verdict_meant(word: Seq<char>) -> Option<bool> {
    let word = text::lowered(text::trimmed(word));
    if word == "allow"@ || word == "yes"@ || word == "y"@ || word == "ok"@ {
        Some(true)
    } else if word == "deny"@ || word == "no"@ || word == "n"@ {
        Some(false)
    } else {
        None
    }
}

fn read_verdict(word: &str) -> (r: Option<bool>)
    ensures
        r == verdict_meant(word@),
{
    let word = text::to_lower(text::trim(word).as_str());
    let word = word.as_str();
    if text::same(word, "allow") || text::same(word, "yes") || text::same(word, "y") || text::same(
        word,
        "ok",
    ) {
        Some(true)
    } else if text::same(word, "deny") || text::same(word, "no") || text::same(word, "n") {
        Some(false)
    } else {
        None
    }
}

/// The decisions once an origin was allowed or denied every one of some kinds.
pub open spec fn ruled_all(
    rules: Seq<permissions::Ruling>,
    origin: Seq<char>,
    kinds: Seq<Kind>,
    allow: bool,
    now: u64,
) -> Seq<permissions::Ruling>
    decreases kinds.len(),
{
    if kinds.len() == 0 {
        rules
    } else {
        permissions::ruled(
            ruled_all(rules, origin, kinds.drop_last(), allow, now),
            origin,
            kinds.last(),
            allow,
            now,
        )
    }
}

/// The question, as the palette asks it.
pub open spec fn asked(question: policy::Question) -> Seq<char> {
    question.origin + " wants "@ + permissions::phrases(question.kinds) + " -- allow or deny?"@
}

/// A question that was answered, and how.
#[derive(Debug)]
pub struct Answered {
    /// The request that was waiting.
    pub id: u64,
    pub decided: Decided,
}

fn kind_list(kinds: &[Kind]) -> (r: Vec<String>)
    ensures
        text::texts(r@) == kinds@.map_values(|k: Kind| permissions::kind_name(k)),
{
    let mut out: Vec<String> = Vec::new();
    let mut i: usize = 0;
    while i < kinds.len()
        invariant
            i <= kinds.len(),
            text::texts(out@) =~= kinds@.take(i as int).map_values(
                |k: Kind| permissions::kind_name(k),
            ),
        decreases kinds.len() - i,
    {
        let ghost before = out@;
        out.push(kinds[i].as_str().to_owned());
        assert(text::texts(out@) =~= text::texts(before).push(
            permissions::kind_name(kinds@[i as int]),
        ));
        i += 1;
    }
    assert(kinds@.take(i as int) =~= kinds@);
    out
}

fn record_all(store: &mut Permissions, origin: &str, kinds: &[Kind], allow: bool, now: u64)
    ensures
        final(store)@ == ruled_all(old(store)@, origin@, kinds@, allow, now),
{
    let ghost began = store@;
    let mut i: usize = 0;
    assert(kinds@.take(0) =~= Seq::empty());
    while i < kinds.len()
        invariant
            i <= kinds.len(),
            store@ == ruled_all(began, origin@, kinds@.take(i as int), allow, now),
        decreases kinds.len() - i,
    {
        assert(kinds@.take(i + 1).drop_last() =~= kinds@.take(i as int));
        store.set(origin, kinds[i], allow, now);
        i += 1;
    }
    assert(kinds@.take(i as int) =~= kinds@);
}

/// `permission decide`: answer whatever has waited longest.
///
/// With no verdict this is a usage error rather than a failure, and that is the
/// whole mechanism behind the prompt: the palette shows the message as the
/// question and asks for the argument. A typo asks again rather than dropping the
/// question with the site still waiting.
pub fn decide_pending(
    store: &mut Permissions,
    requests: &mut policy::Requests,
    verdict: Option<&str>,
    once: bool,
    now: u64,
) -> (r: Result<Answered, Refusal>)
    ensures
        ({
            let waiting = old(requests)@.asked;
            let meant = match verdict {
                Some(word) => verdict_meant(word@),
                None => None,
            };
            if waiting.len() == 0 {
                &&& r matches Err(refusal) && commands::refuses(
                    refusal,
                    "state"@,
                    "nothing is waiting on a decision"@,
                )
                &&& final(store)@ == old(store)@
                &&& final(requests)@ == old(requests)@
            } else if meant is None {
                &&& r matches Err(refusal) && commands::refuses(
                    refusal,
                    "usage"@,
                    if verdict is None {
                        asked(waiting[0])
                    } else {
                        asked(waiting[0]) + " -- type allow or deny"@
                    },
                )
                &&& final(store)@ == old(store)@
                &&& final(requests)@ == old(requests)@
            } else {
                let question = waiting[0];
                let allow = meant->0;
                &&& r matches Ok(answered) && answered.id == question.id
                    && answered.decided.origin@ == question.origin && answered.decided.allowed
                    == allow && text::texts(answered.decided.kinds@) == question.kinds.map_values(
                    |k: Kind| permissions::kind_name(k),
                )
                &&& final(store)@ == if once {
                    old(store)@
                } else {
                    ruled_all(old(store)@, question.origin, question.kinds, allow, now)
                }
                &&& final(requests)@.asked == policy::other_questions(waiting, question.id)
                &&& final(requests)@.waiting == old(requests)@.waiting
                &&& final(requests)@.next == old(requests)@.next
            }
        }),
{
    let (id, origin, kinds, question) = match requests.front() {
        Some(pending) => (
            pending.id,
            pending.origin.clone(),
            copy_kinds(&pending.kinds),
            pending.question(),
        ),
        None => return Err(commands::refuse("state", "nothing is waiting on a decision")),
    };
    let allow = match verdict {
        None => return Err(Refusal { code: "usage", message: question }),
        Some(word) => match read_verdict(word) {
            Some(allow) => allow,
            None => {
                let mut message = question;
                message.append(" -- type allow or deny");
                return Err(Refusal { code: "usage", message });
            },
        },
    };
    if !once {
        record_all(store, origin.as_str(), &kinds, allow, now);
    }
    requests.forget(id);
    Ok(Answered { id, decided: Decided { origin, kinds: kind_list(&kinds), allowed: allow } })
}

fn copy_kinds(kinds: &Vec<Kind>) -> (r: Vec<Kind>)
    ensures
        r@ == kinds@,
{
    let mut out: Vec<Kind> = Vec::new();
    let mut i: usize = 0;
    while i < kinds.len()
        invariant
            i <= kinds.len(),
            out@ =~= kinds@.take(i as int),
        decreases kinds.len() - i,
    {
        out.push(kinds[i]);
        i += 1;
    }
    assert(kinds@.take(i as int) =~= kinds@);
    out
}

/// What answering comes to, given how handing the answer to the request that was
/// waiting went.
pub fn settled(answered: Answered, done: Result<(), String>) -> (r: Result<Decided, Refusal>)
    ensures
        match done {
            Ok(_) => r == Ok::<Decided, Refusal>(answered.decided),
            Err(e) => r matches Err(refusal) && commands::refuses(refusal, "webview"@, e@),
        },
{
    match commands::from_view(done) {
        Ok(_) => Ok(answered.decided),
        Err(refusal) => Err(refusal),
    }
}

// ---------------------------------------------------------------------------
// Laws
// ---------------------------------------------------------------------------

/// A bare host that could be two sites is refused rather than guessed.
pub proof fn law_ambiguous_host_is_refused(
    known: Seq<Seq<char>>,
    host: Seq<char>,
    secured: Option<Seq<char>>,
    i: int,
    j: int,
)
    requires
        0 <= i < j < known.len(),
        known[i] != known[j],
        is_of(host)(known[i]),
        is_of(host)(known[j]),
    ensures
        site_for(known, host, None, secured) is Err,
{
    let keep = is_of(host);
    list::lemma_kept(known, keep);
    list::lemma_distinct(list::kept(known, keep));
    let matches = candidates(known, host);
    assert(matches.contains(known[i]));
    assert(matches.contains(known[j]));
    if matches.len() == 1 {
        assert(matches[0] == known[i]);
        assert(matches[0] == known[j]);
    }
}

/// A bare host that only one origin has is that origin, however often it stands
/// among those something was decided about.
pub proof fn law_only_match_wins(
    known: Seq<Seq<char>>,
    host: Seq<char>,
    secured: Option<Seq<char>>,
    i: int,
)
    requires
        host.len() > 0,
        0 <= i < known.len(),
        is_of(host)(known[i]),
        forall|j: int|
            0 <= j < known.len() && is_of(host)(#[trigger] known[j]) ==> known[j] == known[i],
    ensures
        site_for(known, host, None, secured) == Ok::<Seq<char>, Seq<char>>(known[i]),
{
    let keep = is_of(host);
    list::lemma_kept(known, keep);
    list::lemma_distinct(list::kept(known, keep));
    let matches = candidates(known, host);
    assert(matches.contains(known[i]));
    let at = matches.index_of(known[i]);
    assert forall|k: int| 0 <= k < matches.len() implies #[trigger] matches[k] == known[i] by {
        assert(matches.contains(matches[k]));
        assert(list::kept(known, keep).contains(matches[k]));
    }
    assert(matches[at] == known[i]);
    if matches.len() > 1 {
        assert(matches[0] == matches[1]);
    }
}

/// Nothing is not a site.
pub proof fn law_nothing_is_not_a_site(
    known: Seq<Seq<char>>,
    whole: Option<Seq<char>>,
    secured: Option<Seq<char>>,
)
    ensures
        site_for(known, Seq::empty(), whole, secured) is Err,
{
}

/// After a site was answered for good, every kind it asked for is decided so.
pub proof fn law_answer_is_remembered(
    rules: Seq<permissions::Ruling>,
    origin: Seq<char>,
    kinds: Seq<Kind>,
    allow: bool,
    now: u64,
    i: int,
)
    requires
        origin.len() > 0,
        0 <= i < kinds.len(),
    ensures
        permissions::decided(ruled_all(rules, origin, kinds, allow, now), origin, kinds[i])
            == if allow {
            permissions::Decision::Allow
        } else {
            permissions::Decision::Deny
        },
    decreases kinds.len(),
{
    let front = kinds.drop_last();
    let before = ruled_all(rules, origin, front, allow, now);
    permissions::law_ruling_is_answered(
        before,
        origin,
        kinds.last(),
        allow,
        now,
        origin,
        kinds[i],
    );
    if kinds[i] != kinds.last() {
        assert(i < front.len());
        assert(front[i] == kinds[i]);
        law_answer_is_remembered(rules, origin, front, allow, now, i);
    }
}

/// The words that allow and those that deny, whatever their case. Any other word settles
/// nothing.
pub proof fn law_verdict_goes_by_the_word(word: Seq<char>)
    requires
        text::trimmed(word) == word,
    ensures
        verdict_meant(word) == verdict_meant(text::lowered(word)),
        text::lowered(word) == word ==> (verdict_meant(word) == Some(true) <==> word == "allow"@ || word == "yes"@ || word == "y"@ || word == "ok"@),
        text::lowered(word) == word ==> (verdict_meant(word) == Some(false) <==> word == "deny"@ || word == "no"@ || word == "n"@),
{
    reveal_strlit("allow");
    reveal_strlit("yes");
    reveal_strlit("y");
    reveal_strlit("ok");
    reveal_strlit("deny");
    reveal_strlit("no");
    reveal_strlit("n");
    assert("allow"@.len() == 5);
    assert("yes"@.len() == 3);
    assert("y"@.len() == 1);
    assert("ok"@.len() == 2);
    assert("deny"@.len() == 4);
    assert("no"@.len() == 2);
    assert("n"@.len() == 1);
    assert("y"@[0] == 'y');
    assert("n"@[0] == 'n');
    assert("ok"@[0] == 'o');
    assert("no"@[0] == 'n');
    text::lemma_trimmed_ends(word);
    let small = text::lowered(word);
    assert(text::lowered(small) =~= small);
    if word.len() > 0 {
        assert(small[0] == text::lower(word[0]) && small.last() == text::lower(word.last()));
        assert(!text::is_space(small[0]) && !text::is_space(small.last()));
        assert(text::trimmed(small) == small);
    } else {
        assert(small =~= word);
    }
}

/// A ruling on a site and a thing that are both known is what is decided from now on, and
/// changes nothing else. With either unknown nothing changes.
pub proof fn law_ruling_takes_a_site_and_a_thing(
    rules: Seq<permissions::Ruling>,
    origin: Seq<char>,
    kind: Kind,
    allow: bool,
    now: u64,
    other: Seq<char>,
    another: Kind,
    why: Seq<char>,
)
    requires
        origin.len() > 0,
    ensures
        permissions::decided(after_ruling(rules, Ok(origin), Some(kind), allow, now), origin, kind)
            == if allow {
            permissions::Decision::Allow
        } else {
            permissions::Decision::Deny
        },
        other != origin || another != kind ==> permissions::decided(
            after_ruling(rules, Ok(origin), Some(kind), allow, now),
            other,
            another,
        ) == permissions::decided(rules, other, another),
        after_ruling(rules, Err(why), Some(kind), allow, now) == rules,
        after_ruling(rules, Ok(origin), None, allow, now) == rules,
{
    permissions::law_ruling_is_answered(rules, origin, kind, allow, now, other, another);
}

/// Forgetting with no thing named forgets them all; a thing that nobody knows forgets none.
pub proof fn law_forgetting_goes_by_the_thing(
    rules: Seq<permissions::Ruling>,
    site: Result<Seq<char>, Seq<char>>,
    origin: Seq<char>,
    raw: Seq<char>,
)
    ensures
        after_forgetting(rules, Ok(origin), forgets(None)) == permissions::forgotten(
            rules,
            origin,
            None,
        ),
        kind_typed(Some(raw)) is None ==> after_forgetting(rules, site, forgets(Some(raw))) == rules,
        kind_typed(Some(raw)) matches Some(kind) ==> after_forgetting(
            rules,
            Ok(origin),
            forgets(Some(raw)),
        ) == permissions::forgotten(rules, origin, Some(kind)),
        site is Err ==> after_forgetting(rules, site, forgets(None)) == rules,
{
}

} // verus!
