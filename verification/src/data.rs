//! Cookies, caches and the rest of what sites leave behind.
//!
//! Name the kinds, name the sites, say how far back, and hand it over. A clear
//! can be narrowed to a site, which is the kind that is safe to run without
//! thinking, and cookies are never cleared unless they are asked for by name.

use vstd::prelude::*;

use crate::list;
use crate::number;
use crate::text;

verus! {

/// One site, and what it is keeping here.
#[derive(Debug, Clone)]
pub struct Site {
    /// What it is filed under, e.g. `youtube.com`.
    pub name: String,
    /// Which kinds it has, in the same words `data clear` takes.
    pub kinds: Vec<String>,
    /// What it comes to on disk, where that is known. Zero means it is not
    /// accounted for by size rather than that the site is storing nothing.
    pub bytes: u64,
}

/// What a clear did.
#[derive(Debug, Clone)]
pub struct Cleared {
    /// Which kinds were cleared.
    pub kinds: Vec<String>,
    /// The sites it was narrowed to, or empty for all of them.
    pub hosts: Vec<String>,
    /// How far back it went, in words. Empty means everything ever stored.
    pub since: String,
}

/// Everything a site can keep, by the engine's own names for it.
#[derive(Debug, Clone, Copy, PartialEq, Eq, Structural)]
pub struct WebsiteDataTypes {
    pub memory_cache: bool,
    pub disk_cache: bool,
    pub offline_application_cache: bool,
    pub dom_cache: bool,
    pub session_storage: bool,
    pub local_storage: bool,
    pub websql_databases: bool,
    pub indexeddb_databases: bool,
    pub service_worker_registrations: bool,
    pub cookies: bool,
    pub itp: bool,
    pub hsts_cache: bool,
    pub device_id_hash_salt: bool,
    pub plugin_data: bool,
}

/// The kinds picked out: the caches, the storage, the cookies and the record of
/// trackers.
pub open spec fn chosen(cache: bool, storage: bool, cookies: bool, itp: bool) -> WebsiteDataTypes {
    WebsiteDataTypes {
        memory_cache: cache,
        disk_cache: cache,
        offline_application_cache: cache,
        dom_cache: cache,
        session_storage: storage,
        local_storage: storage,
        websql_databases: storage,
        indexeddb_databases: storage,
        service_worker_registrations: storage,
        cookies,
        itp,
        hsts_cache: false,
        device_id_hash_salt: false,
        plugin_data: false,
    }
}

fn choosing(cache: bool, storage: bool, cookies: bool, itp: bool) -> (r: WebsiteDataTypes)
    ensures
        r == chosen(cache, storage, cookies, itp),
{
    WebsiteDataTypes {
        memory_cache: cache,
        disk_cache: cache,
        offline_application_cache: cache,
        dom_cache: cache,
        session_storage: storage,
        local_storage: storage,
        websql_databases: storage,
        indexeddb_databases: storage,
        service_worker_registrations: storage,
        cookies,
        itp,
        hsts_cache: false,
        device_id_hash_salt: false,
        plugin_data: false,
    }
}

/// What a name covers. "all" leaves out what keeps a site from being reached
/// over anything but HTTPS and from following its visitors around: forgetting
/// those is a downgrade that nobody asked for.
pub open spec fn covered(name: Seq<char>) -> Option<WebsiteDataTypes> {
    if name == "cache"@ {
        Some(chosen(true, false, false, false))
    } else if name == "cookies"@ {
        Some(chosen(false, false, true, false))
    } else if name == "storage"@ {
        Some(chosen(false, true, false, false))
    } else if name == "all"@ {
        Some(chosen(true, true, true, true))
    } else {
        None
    }
}

/// The kinds a person can name, and what each covers.
///
/// Deliberately fewer names than there are types: nobody clearing their browser
/// wants to reason about the difference between an offline application cache and
/// a DOM cache.
pub fn kinds_of(name: &str) -> (r: Result<WebsiteDataTypes, String>)
    ensures
        match r {
            Ok(types) => covered(name@) == Some(types),
            Err(why) => covered(name@) is None && why@ == text::shown(name@)
                + " is not a kind of data; try cache, cookies, storage, or all"@,
        },
{
    if text::same(name, "cache") {
        Ok(choosing(true, false, false, false))
    } else if text::same(name, "cookies") {
        Ok(choosing(false, false, true, false))
    } else if text::same(name, "storage") {
        Ok(choosing(false, true, false, false))
    } else if text::same(name, "all") {
        Ok(choosing(true, true, true, true))
    } else {
        let mut why = text::show(name);
        why.append(" is not a kind of data; try cache, cookies, storage, or all");
        Err(why)
    }
}

/// Whether any of the caches is among them.
pub open spec fn some_cache(types: WebsiteDataTypes) -> bool {
    types.memory_cache || types.disk_cache || types.offline_application_cache || types.dom_cache
}

/// Whether any of the storage is among them.
pub open spec fn some_storage(types: WebsiteDataTypes) -> bool {
    types.session_storage || types.local_storage || types.websql_databases
        || types.indexeddb_databases || types.service_worker_registrations
}

/// A name, where there is something it names.
pub open spec fn named_if(there: bool, name: Seq<char>) -> Seq<Seq<char>> {
    if there {
        seq![name]
    } else {
        Seq::empty()
    }
}

/// What a set of types is called.
pub open spec fn names_of(types: WebsiteDataTypes) -> Seq<Seq<char>> {
    named_if(some_cache(types), "cache"@) + named_if(types.cookies, "cookies"@) + named_if(
        some_storage(types),
        "storage"@,
    )
}

/// A set of types in the words it was asked for, so a result can say what it did
/// rather than echoing the argument.
pub fn name_kinds(types: WebsiteDataTypes) -> (r: Vec<String>)
    ensures
        text::texts(r@) == names_of(types),
{
    let mut names: Vec<String> = Vec::new();
    if types.memory_cache || types.disk_cache || types.offline_application_cache
        || types.dom_cache {
        names.push("cache".to_owned());
    }
    assert(text::texts(names@) =~= named_if(some_cache(types), "cache"@));
    let ghost caches = names@;
    if types.cookies {
        names.push("cookies".to_owned());
    }
    assert(text::texts(names@) =~= text::texts(caches) + named_if(types.cookies, "cookies"@));
    let ghost both = names@;
    if types.session_storage || types.local_storage || types.websql_databases
        || types.indexeddb_databases || types.service_worker_registrations {
        names.push("storage".to_owned());
    }
    assert(text::texts(names@) =~= text::texts(both) + named_if(
        some_storage(types),
        "storage"@,
    ));
    names
}

// ---------------------------------------------------------------------------
// How far back
// ---------------------------------------------------------------------------

/// How many seconds a unit of time has.
pub open spec fn unit_seconds(unit: Seq<char>) -> Option<nat> {
    if unit == "s"@ {
        Some(1)
    } else if unit == "m"@ {
        Some(60)
    } else if unit == "h"@ {
        Some(3600)
    } else if unit == "d"@ {
        Some(86_400)
    } else if unit == "w"@ {
        Some(604_800)
    } else {
        None
    }
}

/// Whether a text asks for everything ever stored.
pub open spec fn is_everything(text: Seq<char>) -> bool {
    text.len() == 0 || text == "all"@ || text == "everything"@
}

/// Where the digits at the front of a text end, if anything follows them.
pub open spec fn digits_end(text: Seq<char>) -> Option<int> {
    list::first_where(text, |c: char| !number::is_digit(c))
}

/// The count and the length of the unit that a span of time is written with.
pub open spec fn span_parts(text: Seq<char>) -> Option<(nat, nat)> {
    match digits_end(text) {
        Some(i) => match (
            number::unsigned(text.take(i), u64::MAX as nat),
            unit_seconds(text.skip(i)),
        ) {
            (Some(count), Some(seconds)) => Some((count, seconds)),
            _ => None,
        },
        None => None,
    }
}

/// The seconds a span of time is, if it is written as one and they can be counted.
pub open spec fn span_of(text: Seq<char>) -> Option<nat> {
    match span_parts(text) {
        Some((count, seconds)) => if count * seconds <= u64::MAX {
            Some(count * seconds)
        } else {
            None
        },
        None => None,
    }
}

/// What is wrong with how a span of time is written.
pub open spec fn complaint(text: Seq<char>) -> Seq<char> {
    match digits_end(text) {
        Some(i) => if number::unsigned(text.take(i), u64::MAX as nat) is None {
            text::shown(text) + " does not start with a number"@
        } else if unit_seconds(text.skip(i)) is None {
            text::shown(text.skip(i)) + " is not a unit of time; try s, m, h, d or w"@
        } else {
            text::shown(text) + " is longer than can be counted"@
        },
        None => text::shown(text) + " has no unit; try 1h, 7d or 30m"@,
    }
}

fn find_digits_end(whole: &[char]) -> (r: Option<usize>)
    ensures
        match r {
            Some(i) => i < whole.len() && digits_end(whole@) == Some(i as int),
            None => digits_end(whole@) is None,
        },
{
    let ghost want = |c: char| !number::is_digit(c);
    let mut i: usize = 0;
    while i < whole.len() && '0' <= whole[i] && whole[i] <= '9'
        invariant
            i <= whole.len(),
            want == (|c: char| !number::is_digit(c)),
            forall|j: int| 0 <= j < i ==> !want(#[trigger] whole@[j]),
        decreases whole.len() - i,
    {
        i += 1;
    }
    proof {
        list::lemma_first_where(whole@, want, i as int);
    }
    if i < whole.len() {
        Some(i)
    } else {
        None
    }
}

fn seconds_in(unit: &str) -> (r: Option<u64>)
    ensures
        match r {
            Some(seconds) => unit_seconds(unit@) == Some(seconds as nat),
            None => unit_seconds(unit@) is None,
        },
{
    if text::same(unit, "s") {
        Some(1)
    } else if text::same(unit, "m") {
        Some(60)
    } else if text::same(unit, "h") {
        Some(3600)
    } else if text::same(unit, "d") {
        Some(86_400)
    } else if text::same(unit, "w") {
        Some(604_800)
    } else {
        None
    }
}

/// `2h`, `7d`, `30m`, or nothing at all for everything ever stored: the span in
/// seconds.
pub fn since_of(text: &str) -> (r: Result<Option<u64>, String>)
    ensures
        match r {
            Ok(None) => is_everything(text::trimmed(text@)),
            Ok(Some(span)) => {
                &&& !is_everything(text::trimmed(text@))
                &&& span_of(text::trimmed(text@)) == Some(span as nat)
            },
            Err(why) => {
                &&& !is_everything(text::trimmed(text@))
                &&& span_of(text::trimmed(text@)) is None
                &&& why@ == complaint(text::trimmed(text@))
            },
        },
{
    let text = text::trim(text);
    if text.as_str().is_empty() || text::same(text.as_str(), "all") || text::same(
        text.as_str(),
        "everything",
    ) {
        return Ok(None);
    }
    let whole = text::chars_of(text.as_str());
    let end: usize = match find_digits_end(&whole) {
        Some(end) => end,
        None => {
            let mut why = text::show(text.as_str());
            why.append(" has no unit; try 1h, 7d or 30m");
            return Err(why);
        },
    };
    let digits = text::slice_of(&whole, 0, end);
    let unit = text::slice_of(&whole, end, whole.len());
    assert(digits@ =~= whole@.take(end as int));
    assert(unit@ =~= whole@.skip(end as int));
    let count: u64 = match number::parse_u64(digits.as_str()) {
        Some(count) => count,
        None => {
            let mut why = text::show(text.as_str());
            why.append(" does not start with a number");
            return Err(why);
        },
    };
    let seconds: u64 = match seconds_in(unit.as_str()) {
        Some(seconds) => seconds,
        None => {
            let mut why = text::show(unit.as_str());
            why.append(" is not a unit of time; try s, m, h, d or w");
            return Err(why);
        },
    };
    match count.checked_mul(seconds) {
        Some(span) => Ok(Some(span)),
        None => {
            let mut why = text::show(text.as_str());
            why.append(" is longer than can be counted");
            Err(why)
        },
    }
}

/// A span in the largest unit it is a whole number of.
pub open spec fn in_words(seconds: nat) -> (nat, Seq<char>) {
    if seconds % 604_800 == 0 {
        (seconds / 604_800, "week"@)
    } else if seconds % 86_400 == 0 {
        (seconds / 86_400, "day"@)
    } else if seconds % 3600 == 0 {
        (seconds / 3600, "hour"@)
    } else if seconds % 60 == 0 {
        (seconds / 60, "minute"@)
    } else {
        (seconds, "second"@)
    }
}

/// What a span is called.
pub open spec fn described(seconds: nat) -> Seq<char> {
    let (count, unit) = in_words(seconds);
    if count == 1 {
        "the last "@ + unit
    } else {
        "the last "@ + number::decimal(count) + " "@ + unit + "s"@
    }
}

/// A span of seconds, in the words it was probably asked for.
pub fn describe_span(seconds: u64) -> (r: String)
    ensures
        r@ == described(seconds as nat),
{
    let (count, unit): (u64, &str) = if seconds % 604_800 == 0 {
        (seconds / 604_800, "week")
    } else if seconds % 86_400 == 0 {
        (seconds / 86_400, "day")
    } else if seconds % 3600 == 0 {
        (seconds / 3600, "hour")
    } else if seconds % 60 == 0 {
        (seconds / 60, "minute")
    } else {
        (seconds, "second")
    };
    let mut out = "the last ".to_owned();
    if count == 1 {
        out.append(unit);
    } else {
        out.append(number::to_decimal(count).as_str());
        out.append(" ");
        out.append(unit);
        out.append("s");
    }
    out
}

// ---------------------------------------------------------------------------
// Whose
// ---------------------------------------------------------------------------

/// A host as it is compared: without the dots in front, and without case.
pub open spec fn bare_host(host: Seq<char>) -> Seq<char> {
    text::lowered(text::trim_start_by(host, |c: char| "."@.contains(c)))
}

/// Whether one host is the other with labels in front of it.
pub open spec fn is_subdomain(host: Seq<char>, of: Seq<char>) -> bool {
    match text::without_suffix(host, of) {
        Some(rest) => text::has_suffix(rest, "."@),
        None => false,
    }
}

/// Whether a stored site answers to a host somebody typed.
pub open spec fn answers(stored: Seq<char>, asked: Seq<char>) -> bool {
    let stored = bare_host(stored);
    let asked = bare_host(text::trimmed(asked));
    stored == asked || is_subdomain(asked, stored) || is_subdomain(stored, asked)
}

fn bare(host: &str) -> (r: String)
    ensures
        r@ == bare_host(host@),
{
    text::to_lower(text::trim_start_of(host, ".").as_str())
}

fn subdomain(host: &str, of: &str) -> (r: bool)
    ensures
        r == is_subdomain(host@, of@),
{
    match text::strip_suffix(host, of) {
        Some(rest) => text::ends_with(rest.as_str(), "."),
        None => false,
    }
}

/// Whether a stored site answers to a host somebody typed.
///
/// Data is filed under a registrable domain, so an exact match alone would miss
/// almost everything anybody would think to type. A match on a dot boundary
/// catches the subdomain without letting `oogle.com` match `google.com`.
pub fn matches_host(stored: &str, asked: &str) -> (r: bool)
    ensures
        r == answers(stored@, asked@),
{
    let stored = bare(stored);
    let asked = bare(text::trim(asked).as_str());
    text::same(stored.as_str(), asked.as_str()) || subdomain(asked.as_str(), stored.as_str())
        || subdomain(stored.as_str(), asked.as_str())
}

/// Whether a stored site is one of those a clear was narrowed to.
pub open spec fn wanted(stored: Seq<char>, hosts: Seq<Seq<char>>) -> bool {
    exists|i: int| 0 <= i < hosts.len() && answers(stored, #[trigger] hosts[i])
}

/// Whether a stored site is one of those a clear was narrowed to.
pub fn is_wanted(stored: &str, hosts: &[String]) -> (r: bool)
    ensures
        r == wanted(stored@, text::texts(hosts@)),
{
    let mut i: usize = 0;
    while i < hosts.len()
        invariant
            i <= hosts.len(),
            forall|j: int|
                0 <= j < i ==> !answers(stored@, #[trigger] text::texts(hosts@)[j]),
        decreases hosts.len() - i,
    {
        assert(text::texts(hosts@)[i as int] == hosts@[i as int]@);
        if matches_host(stored, hosts[i].as_str()) {
            return true;
        }
        i += 1;
    }
    false
}

// ---------------------------------------------------------------------------
// Clearing and listing
// ---------------------------------------------------------------------------

/// How far back a clear reaches, in microseconds, the way the engine counts it.
/// Zero is everything there ever was. A span past what the engine can count is the
/// longest it can: it must not come out shorter than was asked for.
pub fn timespan(since: Option<u64>) -> (r: i64)
    ensures
        r == match since {
            Some(seconds) => if seconds * 1_000_000 <= i64::MAX {
                seconds * 1_000_000
            } else {
                i64::MAX as int
            },
            None => 0,
        },
{
    match since {
        Some(seconds) => if seconds <= 9_223_372_036_854 {
            (seconds * 1_000_000) as i64
        } else {
            i64::MAX
        },
        None => 0,
    }
}

/// Which of the stored sites a clear of `hosts` removes. The engine only removes
/// what it has handed out, so they are picked from those it found rather than
/// from the names as typed.
pub fn matched(found: &[String], hosts: &[String]) -> (r: Vec<usize>)
    ensures
        r@ == list::kept(
            Seq::new(found@.len(), |i: int| i as usize),
            |i: usize| wanted(text::texts(found@)[i as int], text::texts(hosts@)),
        ),
{
    let ghost all = Seq::new(found@.len(), |i: int| i as usize);
    let ghost keep = |i: usize| wanted(text::texts(found@)[i as int], text::texts(hosts@));
    let mut out: Vec<usize> = Vec::new();
    let mut i: usize = 0;
    assert(all.take(0) =~= Seq::empty());
    while i < found.len()
        invariant
            i <= found.len(),
            all == Seq::new(found@.len(), |i: int| i as usize),
            keep == (|i: usize| wanted(text::texts(found@)[i as int], text::texts(hosts@))),
            out@ == list::kept(all.take(i as int), keep),
        decreases found.len() - i,
    {
        assert(all.take(i + 1).drop_last() =~= all.take(i as int));
        assert(all.take(i + 1).last() == i);
        assert(text::texts(found@)[i as int] == found@[i as int]@);
        if is_wanted(found[i].as_str(), hosts) {
            out.push(i);
        }
        i += 1;
    }
    assert(all.take(i as int) =~= all);
    out
}

/// What came of throwing data away: of `types`, for `hosts` (or every site, if
/// there are none), touched within `since` seconds (or ever). `done` is what the
/// engine said, if it said anything.
pub fn clear(
    types: WebsiteDataTypes,
    hosts: Vec<String>,
    since: Option<u64>,
    done: Option<Result<(), String>>,
) -> (r: Result<Cleared, String>)
    ensures
        match done {
            Some(Ok(_)) => r matches Ok(cleared) && {
                &&& text::texts(cleared.kinds@) == names_of(types)
                &&& cleared.hosts == hosts
                &&& cleared.since@ == match since {
                    Some(seconds) => described(seconds as nat),
                    None => Seq::empty(),
                }
            },
            Some(Err(e)) => r matches Err(why) && why == e,
            None => r matches Err(why) && why@ == "the clear was dropped before it finished"@,
        },
{
    match done {
        Some(Ok(_)) => {
            let since = match since {
                Some(seconds) => describe_span(seconds),
                None => String::new(),
            };
            Ok(Cleared { kinds: name_kinds(types), hosts, since })
        },
        Some(Err(e)) => Err(e),
        None => Err("the clear was dropped before it finished".to_owned()),
    }
}

/// Whether one site is listed before another: the bigger, and of two as big the
/// one whose name comes first.
pub open spec fn ahead(a: Site, b: Site) -> bool {
    a.bytes > b.bytes || (a.bytes == b.bytes && text::precedes(a.name@, b.name@))
}

fn goes_ahead(a: &Site, b: &Site) -> (r: bool)
    ensures
        r == ahead(*a, *b),
{
    a.bytes > b.bytes || (a.bytes == b.bytes && text::before(a.name.as_str(), b.name.as_str()))
}

/// The order sites are listed in.
pub open spec fn ranked(sites: Seq<Site>) -> Seq<Site> {
    list::arranged(sites, |a: Site, b: Site| ahead(a, b))
}

/// Sites in the order they are listed in: biggest first, because the reason to
/// look is almost always to find what is taking up room.
pub fn sort_sites(sites: Vec<Site>) -> (r: Vec<Site>)
    ensures
        r@ == ranked(sites@),
{
    let ghost was = sites@;
    let ghost first = |a: Site, b: Site| ahead(a, b);
    let mut sorted: Vec<Site> = Vec::new();
    assert(was.take(0) =~= Seq::empty());
    for site in it: sites
        invariant
            it.seq() == was,
            first == (|a: Site, b: Site| ahead(a, b)),
            sorted@ == list::arranged(was.take(it.index() as int), first),
    {
        let ghost i = it.index() as int;
        assert(was.take(i + 1).drop_last() =~= was.take(i));
        let mut at: usize = 0;
        while at < sorted.len() && !goes_ahead(&site, &sorted[at])
            invariant
                at <= sorted.len(),
                forall|j: int| 0 <= j < at ==> !ahead(site, #[trigger] sorted@[j]),
            decreases sorted.len() - at,
        {
            at += 1;
        }
        proof {
            list::lemma_placed(sorted@, site, first, at as int);
        }
        sorted.insert(at, site);
    }
    assert(was.take(was.len() as int) =~= was);
    sorted
}

/// What is stored, by site: what the engine found, if it said anything.
pub fn list(found: Option<Result<Vec<Site>, String>>) -> (r: Result<Vec<Site>, String>)
    ensures
        match found {
            Some(Ok(sites)) => r matches Ok(listed) && listed@ == ranked(sites@),
            Some(Err(e)) => r matches Err(why) && why == e,
            None => r matches Err(why) && why@ == "the query was dropped before it finished"@,
        },
{
    match found {
        Some(Ok(sites)) => Ok(sort_sites(sites)),
        Some(Err(e)) => Err(e),
        None => Err("the query was dropped before it finished".to_owned()),
    }
}

// ---------------------------------------------------------------------------
// Laws
// ---------------------------------------------------------------------------

/// The record of what may only be reached over HTTPS, and the salts that keep
/// sites from following anyone, are in no kind a person can name.
pub proof fn law_security_is_never_cleared(name: Seq<char>)
    ensures
        covered(name) matches Some(types) ==> !types.hsts_cache && !types.device_id_hash_salt,
{
}

/// Cookies are cleared only by a name that says so.
pub proof fn law_cookies_are_asked_for(name: Seq<char>)
    ensures
        covered(name) matches Some(types) && types.cookies ==> name == "cookies"@ || name == "all"@,
{
}

/// A single kind is called by the name it was asked for.
pub proof fn law_kind_round_trip(name: Seq<char>)
    requires
        covered(name) is Some,
        name != "all"@,
    ensures
        names_of(covered(name)->0) == seq![name],
{
    reveal_strlit("cache");
    reveal_strlit("cookies");
    reveal_strlit("storage");
    assert("cache"@.len() != "cookies"@.len());
    assert("cache"@[0] == 'c');
    assert("storage"@[0] == 's');
    assert("cookies"@[0] == 'c');
    assert(names_of(covered(name)->0) =~= seq![name]);
}

/// Whoever answers to whom goes both ways.
pub proof fn law_match_is_mutual(a: Seq<char>, b: Seq<char>)
    requires
        text::trimmed(a) == a,
        text::trimmed(b) == b,
    ensures
        answers(a, b) == answers(b, a),
{
}

/// A site is only ever matched whole, or where a dot stands: what is left in
/// front of the shorter name ends with one.
pub proof fn law_partial_name_is_no_match(stored: Seq<char>, asked: Seq<char>)
    requires
        answers(stored, asked),
        bare_host(stored) != bare_host(text::trimmed(asked)),
    ensures
        ({
            let s = bare_host(stored);
            let a = bare_host(text::trimmed(asked));
            ||| s.len() > a.len() && s[s.len() - a.len() - 1] == '.'
            ||| a.len() > s.len() && a[a.len() - s.len() - 1] == '.'
        }),
{
    reveal_strlit(".");
    let s = bare_host(stored);
    let a = bare_host(text::trimmed(asked));
    assert("."@[0] == '.');
    if is_subdomain(a, s) {
        let rest = a.take(a.len() - s.len());
        assert(rest.subrange(rest.len() - 1, rest.len() as int)[0] == rest.last());
    } else {
        let rest = s.take(s.len() - a.len());
        assert(rest.subrange(rest.len() - 1, rest.len() as int)[0] == rest.last());
    }
}

/// Sites are listed biggest first and by name, and none is lost.
pub proof fn law_sites_in_order(sites: Seq<Site>)
    ensures
        forall|i: int, j: int|
            0 <= i < j < ranked(sites).len() ==> (#[trigger] ranked(sites)[i]).bytes >= (
            #[trigger] ranked(sites)[j]).bytes && !ahead(ranked(sites)[j], ranked(sites)[i]),
        ranked(sites).to_multiset() == sites.to_multiset(),
{
    let first = |a: Site, b: Site| ahead(a, b);
    assert forall|a: Site, b: Site| #[trigger] first(a, b) implies !first(b, a) by {
        text::lemma_precedes_one_way(a.name@, b.name@);
    }
    assert forall|a: Site, b: Site, c: Site|
        !(#[trigger] first(a, b)) && !(#[trigger] first(b, c)) implies !first(a, c) by {
        text::lemma_precedes_chain(a.name@, b.name@, c.name@);
    }
    list::law_arranged_in_order(sites, first);
    list::law_arranged_keeps_all(sites, first);
    assert forall|i: int, j: int| 0 <= i < j < ranked(sites).len() implies (
    #[trigger] ranked(sites)[i]).bytes >= (#[trigger] ranked(sites)[j]).bytes && !ahead(
        ranked(sites)[j],
        ranked(sites)[i],
    ) by {
        assert(!first(ranked(sites)[j], ranked(sites)[i]));
    }
}

/// What each name covers: the caches are all the caches and nothing else, the storage
/// all the storage and nothing else, the cookies the cookies, and all of them together
/// are what "all" covers, with the record of trackers.
pub proof fn law_names_cover_everything()
    ensures
        ({
            let all = covered("all"@)->0;
            let cache = covered("cache"@)->0;
            let storage = covered("storage"@)->0;
            let cookies = covered("cookies"@)->0;
            &&& covered("all"@) is Some && covered("cache"@) is Some
            &&& covered("storage"@) is Some && covered("cookies"@) is Some
            &&& cache.memory_cache && cache.disk_cache && cache.offline_application_cache
                && cache.dom_cache
            &&& !some_storage(cache) && !cache.cookies && !cache.itp
            &&& storage.session_storage && storage.local_storage && storage.websql_databases
                && storage.indexeddb_databases && storage.service_worker_registrations
            &&& !some_cache(storage) && !storage.cookies && !storage.itp
            &&& cookies.cookies && !some_cache(cookies) && !some_storage(cookies) && !cookies.itp
            &&& all.memory_cache && all.disk_cache && all.offline_application_cache
                && all.dom_cache
            &&& all.session_storage && all.local_storage && all.websql_databases
                && all.indexeddb_databases && all.service_worker_registrations
            &&& all.cookies && all.itp && !all.plugin_data
        }),
{
    reveal_strlit("all");
    reveal_strlit("cache");
    reveal_strlit("storage");
    reveal_strlit("cookies");
    assert("all"@.len() == 3 && "cache"@.len() == 5 && "storage"@.len() == 7 && "cookies"@.len()
        == 7);
    assert("storage"@[0] == 's' && "cookies"@[0] == 'c');
}

proof fn lemma_span(count: nat, unit: Seq<char>, seconds: nat)
    requires
        count <= u64::MAX,
        unit.len() > 0,
        !number::is_digit(unit[0]),
        unit_seconds(unit) == Some(seconds),
    ensures
        span_parts(number::decimal(count) + unit) == Some((count, seconds)),
{
    let text = number::decimal(count) + unit;
    let at = number::decimal(count).len() as int;
    let want = |c: char| !number::is_digit(c);
    number::lemma_decimal(count);
    number::law_decimal_reads_back(count, u64::MAX as nat);
    assert forall|j: int| 0 <= j < at implies !want(#[trigger] text[j]) by {
        assert(text[j] == number::decimal(count)[j]);
    }
    assert(text[at] == unit[0]);
    list::lemma_first_where(text, want, at);
    assert(text.take(at) =~= number::decimal(count));
    assert(text.skip(at) =~= unit);
}

/// A number of seconds, as far as it can be counted.
pub open spec fn countable(seconds: nat) -> Option<nat> {
    if seconds <= u64::MAX {
        Some(seconds)
    } else {
        None
    }
}

/// A count and a unit is that many of it, in seconds, as far as they can be counted: a
/// minute has sixty, an hour sixty minutes, a day twenty-four hours, a week seven days.
pub proof fn law_span_is_counted_out(count: nat)
    requires
        count <= u64::MAX,
    ensures
        ({
            &&& span_of(number::decimal(count) + "s"@) == countable(count)
            &&& span_of(number::decimal(count) + "m"@) == countable(count * 60)
            &&& span_of(number::decimal(count) + "h"@) == countable(count * 60 * 60)
            &&& span_of(number::decimal(count) + "d"@) == countable(count * 60 * 60 * 24)
            &&& span_of(number::decimal(count) + "w"@) == countable(count * 60 * 60 * 24 * 7)
        }),
{
    reveal_strlit("s");
    reveal_strlit("m");
    reveal_strlit("h");
    reveal_strlit("d");
    reveal_strlit("w");
    assert("s"@[0] == 's' && "m"@[0] == 'm' && "h"@[0] == 'h' && "d"@[0] == 'd' && "w"@[0] == 'w');
    lemma_span(count, "s"@, 1);
    lemma_span(count, "m"@, 60);
    lemma_span(count, "h"@, 3600);
    lemma_span(count, "d"@, 86_400);
    lemma_span(count, "w"@, 604_800);
    assert(count * 1nat == count) by (nonlinear_arith);
    assert(count * 60nat == count * 60);
    assert(count * 3600nat == count * 60 * 60) by (nonlinear_arith);
    assert(count * 86_400nat == count * 60 * 60 * 24) by (nonlinear_arith);
    assert(count * 604_800nat == count * 60 * 60 * 24 * 7) by (nonlinear_arith);
}

/// A span told in words is the span it was: so many of a unit come to it exactly, and
/// of no longer unit do they.
pub proof fn law_span_in_words_is_exact(count: nat)
    requires
        count > 0,
    ensures
        in_words(count * 604_800) == (count, "week"@),
        count % 7 != 0 ==> in_words(count * 86_400) == (count, "day"@),
        count % 24 != 0 ==> in_words(count * 3600) == (count, "hour"@),
        count % 60 != 0 ==> in_words(count * 60) == (count, "minute"@),
        count % 60 != 0 ==> in_words(count) == (count, "second"@),
{
}

/// A site answers for every host below it, and a host for every site below that.
pub proof fn law_site_answers_below(site: Seq<char>, labels: Seq<char>)
    requires
        site.len() > 0 && site[0] != '.' && !text::is_space(site[0]) && !text::is_space(
            site.last(),
        ),
        labels.len() > 0 && labels[0] != '.' && !text::is_space(labels[0]),
    ensures
        answers(site, site),
        answers(site, labels + "."@ + site),
        answers(labels + "."@ + site, site),
        answers("."@ + site, site),
{
    reveal_strlit(".");
    let dot = |c: char| "."@.contains(c);
    assert("."@ =~= seq!['.']);
    assert("."@[0] == '.');
    assert(dot('.'));
    let long = labels + "."@ + site;
    assert(long[0] == labels[0] && long.last() == site.last());
    assert(!dot(site[0]) && !dot(labels[0]));
    assert(text::trimmed(site) == site);
    assert(text::trimmed(long) == long);
    assert(bare_host(site) == text::lowered(site));
    assert(bare_host(long) == text::lowered(long));
    let s = text::lowered(site);
    let l = text::lowered(long);
    assert(l.subrange(l.len() - s.len(), l.len() as int) =~= s);
    let rest = l.take(l.len() - s.len());
    assert(rest.subrange(rest.len() - 1, rest.len() as int) =~= "."@);
    let dotted = "."@ + site;
    text::lemma_trim_start(dotted, dot, 1);
    assert(dotted.skip(1) =~= site);
    assert(bare_host(dotted) == s);
}

/// What is stored goes when any one of the sites named answers for it, in whatever order
/// they are named.
pub proof fn law_any_site_named_is_enough(
    stored: Seq<char>,
    asked: Seq<char>,
    front: Seq<Seq<char>>,
    back: Seq<Seq<char>>,
)
    ensures
        wanted(stored, seq![asked]) == answers(stored, asked),
        wanted(stored, front + back) == (wanted(stored, front) || wanted(stored, back)),
        !wanted(stored, Seq::empty()),
{
    let one = seq![asked];
    assert(one[0] == asked);
    let both = front + back;
    if wanted(stored, front) {
        let i = choose|i: int| 0 <= i < front.len() && answers(stored, #[trigger] front[i]);
        assert(both[i] == front[i]);
    }
    if wanted(stored, back) {
        let i = choose|i: int| 0 <= i < back.len() && answers(stored, #[trigger] back[i]);
        assert(both[front.len() + i] == back[i]);
    }
    if wanted(stored, both) {
        let i = choose|i: int| 0 <= i < both.len() && answers(stored, #[trigger] both[i]);
        if i < front.len() {
            assert(both[i] == front[i]);
        } else {
            assert(both[i] == back[i - front.len()]);
        }
    }
}

/// Saying nothing, or one of the two words for it, means all of time. A count with a unit
/// never does.
pub proof fn law_everything_has_its_words(c: char, rest: Seq<char>)
    requires
        '0' <= c <= '9',
    ensures
        is_everything(Seq::empty()),
        is_everything("all"@),
        is_everything("everything"@),
        !is_everything(seq![c] + rest),
{
    reveal_strlit("all");
    reveal_strlit("everything");
    assert("all"@[0] == 'a');
    assert("everything"@[0] == 'e');
    let word = seq![c] + rest;
    assert(word[0] == c);
}

} // verus!
