//! `page console` and `page network`: what the active tab has logged and fetched.

use vstd::prelude::*;

use crate::commands;
use crate::commands::page;
use crate::commands::page::Filing;
use crate::commands::Refusal;
use crate::inspect;
use crate::inspect::{Exchange, Inspector, Level, Line};
use crate::list;
use crate::text;

verus! {

/// The most recent of a list: at most `limit`, where there is one.
pub open spec fn recent<T>(items: Seq<T>, limit: Option<usize>) -> Seq<T> {
    match limit {
        Some(n) => if items.len() > n {
            items.skip(items.len() - n)
        } else {
            items
        },
        None => items,
    }
}

/// Where a log was read up to, if the last of what was read has this number.
pub open spec fn up_to(since: u64, last: Option<u64>) -> u64 {
    match last {
        Some(seq) => (seq + 1) as u64,
        None => since,
    }
}

// ---------------------------------------------------------------------------
// The console
// ---------------------------------------------------------------------------

/// What a tab has logged.
#[derive(Debug)]
pub struct Console {
    /// The tab that was asked.
    pub url: String,
    /// Give this back to get only what has happened since.
    pub next: u64,
    pub lines: Vec<Line>,
}

/// Whether a line is new enough and loud enough.
pub open spec fn is_heard(since: u64, floor: Level) -> spec_fn(Line) -> bool {
    |line: Line| line.seq >= since && inspect::loudness(line.level) >= inspect::loudness(floor)
}

/// The lines that are told of.
pub open spec fn heard(log: Seq<Line>, since: u64, floor: Level, limit: Option<usize>) -> Seq<
    Line,
> {
    recent(list::kept(log, is_heard(since, floor)), limit)
}

/// The number a sequence number counts from.
pub open spec fn from_start(since: Option<u64>) -> u64 {
    match since {
        Some(since) => since,
        None => 0,
    }
}

/// The number of the last of some lines.
pub open spec fn last_line(lines: Seq<Line>) -> Option<u64> {
    if lines.len() == 0 {
        None
    } else {
        Some(lines.last().seq)
    }
}

/// The level asked for, if one was and there is such a level. The quietest where
/// none was.
pub open spec fn floor_of(level: Option<Seq<char>>) -> Option<Level> {
    match level {
        None => Some(Level::Debug),
        Some(raw) => inspect::level_of(raw),
    }
}

/// Read the level asked for.
pub fn floor(level: Option<&str>) -> (r: Result<Level, Refusal>)
    ensures
        match floor_of(text::maybe(level)) {
            Some(floor) => r == Ok::<Level, Refusal>(floor),
            None => r matches Err(refusal) && commands::refuses(
                refusal,
                "usage"@,
                commands::unknown("level"@, level->0@, "use debug, log, info, warn, error"@),
            ),
        },
{
    let raw = match level {
        None => return Ok(Level::Debug),
        Some(raw) => raw,
    };
    match Level::parse(raw) {
        Some(floor) => Ok(floor),
        None => Err(
            commands::refuse_word("usage", "level", raw, "use debug, log, info, warn, error"),
        ),
    }
}

fn keep_recent<T>(items: Vec<T>, limit: Option<usize>) -> (r: Vec<T>)
    ensures
        r@ == recent(items@, limit),
{
    let n: usize = match limit {
        Some(n) => n,
        None => return items,
    };
    if items.len() <= n {
        return items;
    }
    let from: usize = items.len() - n;
    let ghost was = items@;
    let mut out: Vec<T> = Vec::new();
    let mut at: usize = 0;
    for item in it: items
        invariant
            it.seq() == was,
            at == it.index(),
            from <= was.len(),
            was.len() <= usize::MAX,
            out@ == if it.index() <= from {
                Seq::empty()
            } else {
                was.subrange(from as int, it.index() as int)
            },
    {
        let ghost i = it.index() as int;
        if at >= from {
            out.push(item);
            assert(out@ =~= was.subrange(from as int, i + 1));
        }
        at += 1;
    }
    assert(was.subrange(from as int, was.len() as int) =~= was.skip(from as int));
    out
}

/// `page console`: what a tab has logged, since some point, at some level or
/// louder, and no more than asked for, the most recent of them. `clear` forgets
/// it instead.
pub fn console(
    inspector: &mut Inspector,
    label: &str,
    url: String,
    floor: Level,
    limit: Option<usize>,
    since: Option<u64>,
    clear: bool,
) -> (r: Console)
    requires
        forall|i: int|
            0 <= i < old(inspector).console(label@).len() ==> (#[trigger] old(inspector).console(
                label@,
            )[i]).seq < u64::MAX,
    ensures
        r.url == url,
        if clear {
            r.next == 0 && r.lines@.len() == 0
        } else {
            let told = heard(old(inspector).console(label@), from_start(since), floor, limit);
            r.lines@ == told && r.next == up_to(from_start(since), last_line(told))
        },
        forall|tab: Seq<char>| #[trigger]
            final(inspector).console(tab) == if clear && tab == label@ {
                Seq::<Line>::empty()
            } else {
                old(inspector).console(tab)
            },
        forall|tab: Seq<char>| #[trigger]
            final(inspector).network(tab) == old(inspector).network(tab),
{
    if clear {
        inspector.clear_console(label);
        return Console { url, next: 0, lines: Vec::new() };
    }
    let since: u64 = match since {
        Some(since) => since,
        None => 0,
    };
    let log = inspector.console_of(label);
    let ghost was = log@;
    let ghost keep = is_heard(since, floor);
    let mut lines: Vec<Line> = Vec::new();
    assert(was.take(0) =~= Seq::empty());
    for line in it: log
        invariant
            it.seq() == was,
            keep == is_heard(since, floor),
            lines@ == list::kept(was.take(it.index() as int), keep),
    {
        let ghost i = it.index() as int;
        assert(was.take(i + 1).drop_last() =~= was.take(i));
        if line.seq >= since && line.level.reaches(floor) {
            lines.push(line);
        }
    }
    assert(was.take(was.len() as int) =~= was);
    proof {
        list::lemma_kept(was, keep);
    }
    let lines = keep_recent(lines, limit);
    let next: u64 = if lines.len() == 0 {
        since
    } else {
        proof {
            let kept = list::kept(was, keep);
            let last = lines@.last();
            assert(kept.contains(last)) by {
                assert(last == kept[kept.len() - 1]);
            }
            assert(was.contains(last));
            let k = choose|k: int| 0 <= k < was.len() && was[k] == last;
            assert(was[k].seq < u64::MAX);
        }
        lines[lines.len() - 1].seq + 1
    };
    Console { url, next, lines }
}

// ---------------------------------------------------------------------------
// The network
// ---------------------------------------------------------------------------

/// What a tab has fetched.
#[derive(Debug)]
pub struct Fetched {
    pub url: String,
    /// Give this back to get only what has happened since.
    pub next: u64,
    pub requests: Vec<Exchange>,
    /// Whether the log was emptied instead.
    pub cleared: bool,
}

/// Whether a request is new enough, and went wrong if that is what was asked for.
pub open spec fn is_seen(since: u64, failed: bool) -> spec_fn(Exchange) -> bool {
    |e: Exchange| e.seq >= since && (!failed || e.failed is Some || e.status >= 400)
}

/// The requests that are told of.
pub open spec fn seen(log: Seq<Exchange>, since: u64, failed: bool, limit: Option<usize>) -> Seq<
    Exchange,
> {
    recent(list::kept(log, is_seen(since, failed)), limit)
}

/// The number of the last of some requests.
pub open spec fn last_request(requests: Seq<Exchange>) -> Option<u64> {
    if requests.len() == 0 {
        None
    } else {
        Some(requests.last().seq)
    }
}

/// `page network`: what a tab has fetched, since some point, only what went wrong
/// if that is asked for, and no more than asked for, the most recent of them.
/// `clear` forgets it instead.
pub fn network(
    inspector: &mut Inspector,
    label: &str,
    url: String,
    limit: Option<usize>,
    since: Option<u64>,
    failed: bool,
    clear: bool,
) -> (r: Fetched)
    requires
        forall|i: int|
            0 <= i < old(inspector).network(label@).len() ==> (#[trigger] old(inspector).network(
                label@,
            )[i]).seq < u64::MAX,
    ensures
        r.url == url,
        r.cleared == clear,
        if clear {
            r.next == 0 && r.requests@.len() == 0
        } else {
            let told = seen(old(inspector).network(label@), from_start(since), failed, limit);
            r.requests@ == told && r.next == up_to(from_start(since), last_request(told))
        },
        forall|tab: Seq<char>| #[trigger]
            final(inspector).network(tab) == if clear && tab == label@ {
                Seq::<Exchange>::empty()
            } else {
                old(inspector).network(tab)
            },
        forall|tab: Seq<char>| #[trigger]
            final(inspector).console(tab) == old(inspector).console(tab),
{
    if clear {
        inspector.clear_network(label);
        return Fetched { url, next: 0, requests: Vec::new(), cleared: true };
    }
    let since: u64 = match since {
        Some(since) => since,
        None => 0,
    };
    let log = inspector.network_of(label);
    let ghost was = log@;
    let ghost keep = is_seen(since, failed);
    let mut requests: Vec<Exchange> = Vec::new();
    assert(was.take(0) =~= Seq::empty());
    for e in it: log
        invariant
            it.seq() == was,
            keep == is_seen(since, failed),
            requests@ == list::kept(was.take(it.index() as int), keep),
    {
        let ghost i = it.index() as int;
        assert(was.take(i + 1).drop_last() =~= was.take(i));
        if e.seq >= since && (!failed || e.failed.is_some() || e.status >= 400) {
            requests.push(e);
        }
    }
    assert(was.take(was.len() as int) =~= was);
    proof {
        list::lemma_kept(was, keep);
    }
    let requests = keep_recent(requests, limit);
    let next: u64 = if requests.len() == 0 {
        since
    } else {
        proof {
            let kept = list::kept(was, keep);
            let last = requests@.last();
            assert(kept.contains(last)) by {
                assert(last == kept[kept.len() - 1]);
            }
            assert(was.contains(last));
            let k = choose|k: int| 0 <= k < was.len() && was[k] == last;
            assert(was[k].seq < u64::MAX);
        }
        requests[requests.len() - 1].seq + 1
    };
    Fetched { url, next, requests, cleared: false }
}

/// What is told of a tab's requests.
#[derive(Debug)]
pub struct Network {
    pub url: String,
    pub next: u64,
    /// The requests, unless they were asked for as a HAR log.
    pub requests: Option<Vec<Exchange>>,
    /// The HAR log, unless it went to a file.
    pub har: Option<String>,
    /// The file it went to.
    pub path: Option<String>,
}

/// `page network`: what is told of the requests. As a HAR log if that is what was
/// asked for, and there is anything to tell of.
pub fn report(fetched: Fetched, har: bool, version: &str) -> (r: Network)
    ensures
        r.url == fetched.url,
        r.next == fetched.next,
        r.path is None,
        if har && !fetched.cleared {
            r.requests is None && (r.har matches Some(log) && log@ == inspect::har_text(
                fetched.url@,
                fetched.requests@,
                version@,
            ))
        } else {
            r.requests == Some(fetched.requests) && r.har is None
        },
{
    if har && !fetched.cleared {
        let log = inspect::har(fetched.url.as_str(), fetched.requests.as_slice(), version);
        return Network {
            url: fetched.url,
            next: fetched.next,
            requests: None,
            har: Some(log),
            path: None,
        };
    }
    Network {
        url: fetched.url,
        next: fetched.next,
        requests: Some(fetched.requests),
        har: None,
        path: None,
    }
}

impl Network {
    /// The same once the log is in a file, where it need not be told again.
    pub fn filed(self, path: String) -> (r: Network)
        ensures
            r.url == self.url,
            r.next == self.next,
            r.requests == self.requests,
            r.har is None,
            r.path == Some(path),
    {
        Network {
            url: self.url,
            next: self.next,
            requests: self.requests,
            har: None,
            path: Some(path),
        }
    }
}

/// `page network`: what it comes to, given how putting the log in a file went where
/// that was asked for. Only a HAR log goes to a file.
pub fn logged(network: Network, filing: Option<Filing>) -> (r: Result<Network, Refusal>)
    ensures
        match (network.har, filing) {
            (Some(_), Some(filing)) => match page::unfiled(filing) {
                Some((code, message)) => r matches Err(refusal) && commands::refuses(
                    refusal,
                    code,
                    message,
                ),
                None => r matches Ok(told) && told.url == network.url && told.next == network.next
                    && told.requests == network.requests && told.har is None && told.path == Some(
                    filing.path->Ok_0,
                ),
            },
            _ => r == Ok::<Network, Refusal>(network),
        },
{
    if network.har.is_none() {
        return Ok(network);
    }
    match filing {
        None => Ok(network),
        Some(filing) => match page::file_of(filing) {
            Ok(path) => Ok(network.filed(path)),
            Err(refusal) => Err(refusal),
        },
    }
}

/// The tab that is asked, if there is one.
pub fn asked(label: Option<String>) -> (r: Result<String, Refusal>)
    ensures
        match label {
            Some(label) => r == Ok::<String, Refusal>(label),
            None => r matches Err(refusal) && commands::refuses(
                refusal,
                "no_tab"@,
                "there is no active tab"@,
            ),
        },
{
    match label {
        Some(label) => Ok(label),
        None => Err(commands::refuse("no_tab", "there is no active tab")),
    }
}

// ---------------------------------------------------------------------------
// Laws
// ---------------------------------------------------------------------------

/// Whether a log's numbers only go up.
pub open spec fn counted_up(log: Seq<Line>) -> bool {
    forall|i: int, j: int| 0 <= i < j < log.len() ==> (#[trigger] log[i]).seq < (#[trigger] log[j]).seq
}

/// Going on from where an answer left off misses nothing and repeats nothing:
/// what is told of from `next` on is exactly what was logged after the last line
/// that was told of.
pub proof fn law_next_goes_on(log: Seq<Line>, since: u64, floor: Level, later: Line)
    requires
        heard(log, since, floor, None).len() > 0,
        heard(log, since, floor, None).last().seq < u64::MAX,
        later.seq > heard(log, since, floor, None).last().seq,
        inspect::loudness(later.level) >= inspect::loudness(floor),
        counted_up(log),
    ensures
        ({
            let next = up_to(since, last_line(heard(log, since, floor, None)));
            &&& is_heard(next, floor)(later)
            &&& heard(log, next, floor, None).len() == 0
        }),
{
    let told = heard(log, since, floor, None);
    let keep = is_heard(since, floor);
    let next = up_to(since, last_line(told));
    let again = heard(log, next, floor, None);
    list::lemma_kept(log, keep);
    list::lemma_kept(log, is_heard(next, floor));
    if again.len() > 0 {
        let line = again[0];
        assert(is_heard(next, floor)(line));
        assert(log.contains(line));
        let k = choose|k: int| 0 <= k < log.len() && log[k] == line;
        assert(keep(log[k]));
        lemma_last_kept_is_newest(log, keep, k);
    }
}

proof fn lemma_last_kept_is_newest(log: Seq<Line>, keep: spec_fn(Line) -> bool, at: int)
    requires
        counted_up(log),
        0 <= at < log.len(),
        keep(log[at]),
    ensures
        list::kept(log, keep).len() > 0,
        list::kept(log, keep).last().seq >= log[at].seq,
    decreases log.len(),
{
    let front = log.drop_last();
    if keep(log.last()) {
        if at < log.len() - 1 {
            assert(log[at].seq < log[log.len() - 1].seq);
        }
    } else {
        assert(at < front.len());
        assert forall|i: int, j: int| 0 <= i < j < front.len() implies (#[trigger] front[i]).seq < (
        #[trigger] front[j]).seq by {
            assert(front[i] == log[i] && front[j] == log[j]);
        }
        lemma_last_kept_is_newest(front, keep, at);
    }
}

/// A limit never shows more than it says, and what it shows is the end of what
/// there was.
pub proof fn law_limit_keeps_the_newest<T>(items: Seq<T>, limit: usize)
    ensures
        recent(items, Some(limit)).len() <= limit,
        recent(items, Some(limit)) == items.skip(items.len() - recent(items, Some(limit)).len()),
{
    if items.len() <= limit {
        assert(items.skip(0) =~= items);
    }
}

/// What is heard is what is new enough and loud enough, all of it: a floor of warnings
/// lets through warnings and errors and nothing else.
pub proof fn law_heard_is_loud_and_new(log: Seq<Line>, since: u64, i: int)
    requires
        0 <= i < log.len(),
    ensures
        ({
            let line = log[i];
            &&& heard(log, since, Level::Error, None).contains(line) <==> line.seq >= since
                && line.level == Level::Error
            &&& heard(log, since, Level::Warn, None).contains(line) <==> line.seq >= since && (
            line.level == Level::Warn || line.level == Level::Error)
            &&& heard(log, since, Level::Info, None).contains(line) <==> line.seq >= since
                && line.level != Level::Debug && line.level != Level::Log
            &&& heard(log, since, Level::Log, None).contains(line) <==> line.seq >= since
                && line.level != Level::Debug
            &&& heard(log, since, Level::Debug, None).contains(line) <==> line.seq >= since
        }),
{
    lemma_heard(log, since, Level::Error, i);
    lemma_heard(log, since, Level::Warn, i);
    lemma_heard(log, since, Level::Info, i);
    lemma_heard(log, since, Level::Log, i);
    lemma_heard(log, since, Level::Debug, i);
}

proof fn lemma_heard(log: Seq<Line>, since: u64, floor: Level, i: int)
    requires
        0 <= i < log.len(),
    ensures
        heard(log, since, floor, None).contains(log[i]) <==> is_heard(since, floor)(log[i]),
{
    let keep = is_heard(since, floor);
    list::lemma_kept(log, keep);
    let out = heard(log, since, floor, None);
    if out.contains(log[i]) {
        let k = choose|k: int| 0 <= k < out.len() && out[k] == log[i];
        assert(keep(out[k]));
    }
}

/// What is seen is what is new enough, and where only failures are asked for, those
/// that failed or were answered with an error.
pub proof fn law_seen_is_what_was_asked_for(log: Seq<Exchange>, since: u64, i: int)
    requires
        0 <= i < log.len(),
    ensures
        seen(log, since, false, None).contains(log[i]) <==> log[i].seq >= since,
        seen(log, since, true, None).contains(log[i]) <==> log[i].seq >= since && (
        log[i].failed is Some || log[i].status >= 400),
{
    lemma_seen(log, since, false, i);
    lemma_seen(log, since, true, i);
}

proof fn lemma_seen(log: Seq<Exchange>, since: u64, failed: bool, i: int)
    requires
        0 <= i < log.len(),
    ensures
        seen(log, since, failed, None).contains(log[i]) <==> is_seen(since, failed)(log[i]),
{
    let keep = is_seen(since, failed);
    list::lemma_kept(log, keep);
    let out = seen(log, since, failed, None);
    if out.contains(log[i]) {
        let k = choose|k: int| 0 <= k < out.len() && out[k] == log[i];
        assert(keep(out[k]));
    }
}

/// What is heard of two stretches of a log is what is heard of each, in order.
pub proof fn law_heard_in_order(front: Seq<Line>, back: Seq<Line>, since: u64, floor: Level)
    ensures
        heard(front + back, since, floor, None) == heard(front, since, floor, None) + heard(
            back,
            since,
            floor,
            None,
        ),
{
    list::lemma_kept_joins(front, back, is_heard(since, floor));
}

/// With no level named everything is heard; with one named, the level it names is the floor.
pub proof fn law_floor_is_the_level_named(raw: Seq<char>)
    ensures
        floor_of(None) == Some(Level::Debug),
        floor_of(Some(raw)) == inspect::level_of(raw),
        from_start(None) == 0,
{
}

/// The last request is the one that came last, however many came before it.
pub proof fn law_last_request_came_last(before: Seq<Exchange>, e: Exchange)
    ensures
        last_request(before.push(e)) == Some(e.seq),
        last_request(Seq::empty()) is None,
{
    assert(before.push(e).last() == e);
}

} // verus!
