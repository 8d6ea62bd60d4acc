//! Where the browser has been.
//!
//! Deliberately small: a list of visited pages, one entry to a URL, newest
//! first, kept in memory and written to one file. There is no database because
//! there does not need to be one: the palette scores the whole list on every
//! keystroke, and a few thousand entries is nothing.

use vstd::prelude::*;

use crate::list;
use crate::number;
use crate::pathname;
use crate::profile;
use crate::table;
use crate::text;

verus! {

/// Beyond this the oldest entries are dropped, unless the config says
/// otherwise.
pub const CAP: usize = 5_000;

/// The scheme the browser's own pages are served under.
pub const CHROME_SCHEME: &'static str = "oma-chrome";

/// One page, however many times it has been seen.
#[derive(Debug, Clone)]
pub struct Visit {
    pub url: String,
    pub title: String,
    pub visits: u32,
    /// Unix seconds, so recency can beat similarity when scores are close.
    pub last: u64,
}

/// A visit as values.
pub struct Seen {
    pub url: Seq<char>,
    pub title: Seq<char>,
    pub visits: u32,
    pub last: u64,
}

impl View for Visit {
    type V = Seen;

    open spec fn view(&self) -> Seen {
        Seen { url: self.url@, title: self.title@, visits: self.visits, last: self.last }
    }
}

pub struct History {
    cap: usize,
    /// Most recently visited first.
    entries: Vec<Visit>,
    dirty: bool,
}

/// A history as values.
pub struct Log {
    /// How many entries it keeps.
    pub cap: nat,
    /// The entries, most recently visited first.
    pub seen: Seq<Seen>,
    /// Whether anything changed since it was last written out.
    pub dirty: bool,
}

pub open spec fn all_seen(entries: Seq<Visit>) -> Seq<Seen> {
    entries.map_values(|v: Visit| v@)
}

impl View for History {
    type V = Log;

    closed spec fn view(&self) -> Log {
        Log { cap: self.cap as nat, seen: all_seen(self.entries@), dirty: self.dirty }
    }
}

/// Whether an address is one of the browser's own pages. They have a scheme of
/// their own, which makes this exact.
pub open spec fn is_chrome(url: Seq<char>) -> bool {
    match text::without_prefix(url, CHROME_SCHEME@) {
        Some(rest) => text::has_prefix(rest, ":"@),
        None => false,
    }
}

/// Pages not worth remembering: the blank page, and our own chrome. Recording
/// the start page would put it at the top of every search.
pub open spec fn worth_keeping(url: Seq<char>) -> bool {
    url.len() > 0 && url != "about:blank"@ && !is_chrome(url)
}

/// Where a page stands in the list.
pub open spec fn place(seen: Seq<Seen>, url: Seq<char>) -> Option<int> {
    list::last_where(seen, |s: Seen| s.url == url)
}

/// One more, as far as the count goes.
pub open spec fn one_more(n: u32) -> u32 {
    if n == u32::MAX {
        n
    } else {
        (n + 1) as u32
    }
}

/// The list once `url` has been visited.
pub open spec fn visited(log: Log, url: Seq<char>, now: u64) -> Log {
    if !worth_keeping(url) {
        log
    } else {
        let seen = match place(log.seen, url) {
            Some(i) => seq![
                Seen { visits: one_more(log.seen[i].visits), last: now, ..log.seen[i] },
            ] + log.seen.remove(i),
            None => list::at_most(
                seq![Seen { url, title: Seq::empty(), visits: 1, last: now }] + log.seen,
                log.cap,
            ),
        };
        Log { seen, dirty: true, ..log }
    }
}

/// The list once a page has said what it is called.
pub open spec fn titled(log: Log, url: Seq<char>, title: Seq<char>) -> Log {
    match place(log.seen, url) {
        Some(i) => if title.len() == 0 || log.seen[i].title == title {
            log
        } else {
            Log { seen: log.seen.update(i, Seen { title, ..log.seen[i] }), dirty: true, ..log }
        },
        None => log,
    }
}

/// One line of the file: how often, when last, where, and what it was called.
/// A tab in a title is written as a space.
pub open spec fn row(s: Seen) -> Seq<char> {
    number::decimal(s.visits as nat) + seq!['\t'] + number::decimal(s.last as nat) + seq!['\t']
        + s.url + seq!['\t'] + text::swapped(s.title, '\t', ' ')
}

/// What a line of the file says, if it says anything.
pub open spec fn read_row(line: Seq<char>) -> Option<Seen> {
    let parts = text::fields(line, 4, '\t');
    if parts.len() < 3 {
        None
    } else {
        match (
            number::unsigned(parts[0], u32::MAX as nat),
            number::unsigned(parts[1], u64::MAX as nat),
        ) {
            (Some(visits), Some(last)) => Some(
                Seen {
                    url: parts[2],
                    title: if parts.len() == 4 {
                        parts[3]
                    } else {
                        Seq::empty()
                    },
                    visits: visits as u32,
                    last: last as u64,
                },
            ),
            _ => None,
        }
    }
}

/// The file a history is written as.
pub open spec fn sheet(seen: Seq<Seen>) -> Seq<char> {
    table::sheet(seen.map_values(|s: Seen| row(s)))
}

/// What is read back from a file, keeping `cap` entries and never fewer than
/// one.
pub open spec fn read_back(raw: Option<Seq<char>>, cap: nat) -> Log {
    let kept: nat = if cap == 0 {
        1
    } else {
        cap
    };
    Log {
        cap: kept,
        seen: match raw {
            Some(text) => list::at_most(
                list::collected(text::lines(text), |l: Seq<char>| read_row(l)),
                kept,
            ),
            None => Seq::empty(),
        },
        dirty: false,
    }
}

/// Whether an entry can be written on one line and told apart again.
pub open spec fn writable(s: Seen) -> bool {
    table::free_of(s.url, '\t') && table::free_of(s.url, '\n') && table::one_line(s.title)
}

/// An entry as it comes back from the file.
pub open spec fn settled(s: Seen) -> Seen {
    Seen { title: text::swapped(s.title, '\t', ' '), ..s }
}

impl Default for History {
    /// Holding the standard cap.
    fn default() -> (r: Self)
        ensures
            r@ == (Log { cap: CAP as nat, seen: Seq::empty(), dirty: false }),
    {
        let r = History { cap: CAP, entries: Vec::new(), dirty: false };
        assert(r@.seen =~= Seq::<Seen>::empty());
        r
    }
}

impl History {
    /// Read whatever was saved last time, keeping `cap` entries. A file that
    /// could not be read is an empty history, never an error: losing history
    /// must not stop the browser.
    pub fn load_with(cap: usize, raw: Option<&str>) -> (r: Self)
        ensures
            r@ == read_back(
                match raw {
                    Some(text) => Some(text@),
                    None => None,
                },
                cap as nat,
            ),
    {
        // A zero cap would drop every entry on the way in, which is what
        // `history.enabled = false` is for and not what a limit means.
        let cap = if cap == 0 {
            1
        } else {
            cap
        };
        let mut history = History { cap, entries: Vec::new(), dirty: false };
        let text = match raw {
            Some(text) => text,
            None => {
                assert(history@.seen =~= Seq::<Seen>::empty());
                return history;
            },
        };
        let lines = text::split_lines(text);
        let ghost read = |l: Seq<char>| read_row(l);
        let mut i: usize = 0;
        assert(all_seen(history.entries@) =~= list::at_most(
            list::collected(text::texts(lines@).take(0), read),
            cap as nat,
        ));
        while i < lines.len()
            invariant
                i <= lines.len(),
                read == (|l: Seq<char>| read_row(l)),
                history.cap == cap,
                !history.dirty,
                all_seen(history.entries@) == list::at_most(
                    list::collected(text::texts(lines@).take(i as int), read),
                    cap as nat,
                ),
            decreases lines.len() - i,
        {
            let ghost so_far = text::texts(lines@).take(i + 1);
            assert(so_far.drop_last() =~= text::texts(lines@).take(i as int));
            assert(so_far.last() == lines@[i as int]@);
            match parse_row(lines[i].as_str()) {
                Some(visit) => history.push(visit),
                None => {},
            }
            assert(all_seen(history.entries@) =~= list::at_most(
                list::collected(so_far, read),
                cap as nat,
            ));
            i += 1;
        }
        assert(text::texts(lines@).take(i as int) =~= text::texts(lines@));
        history
    }

    fn push(&mut self, visit: Visit)
        ensures
            final(self).cap == old(self).cap,
            final(self).dirty == old(self).dirty,
            all_seen(final(self).entries@) == if old(self).entries@.len() < old(self).cap {
                all_seen(old(self).entries@).push(visit@)
            } else {
                all_seen(old(self).entries@)
            },
    {
        if self.entries.len() < self.cap {
            self.entries.push(visit);
            assert(all_seen(self.entries@) =~= all_seen(old(self).entries@).push(visit@));
        }
    }

    fn place_of(&self, url: &str) -> (r: Option<usize>)
        ensures
            match r {
                Some(i) => i < self.entries@.len() && place(self@.seen, url@) == Some(i as int),
                None => place(self@.seen, url@) is None,
            },
    {
        let ghost want = |s: Seen| s.url == url@;
        let mut i: usize = self.entries.len();
        while i > 0
            invariant
                i <= self.entries.len(),
                want == (|s: Seen| s.url == url@),
                forall|j: int| i <= j < self.entries.len() ==> !want(#[trigger] self@.seen[j]),
            decreases i,
        {
            if text::same(self.entries[i - 1].url.as_str(), url) {
                proof {
                    list::lemma_last_where(self@.seen, want, i - 1);
                }
                return Some(i - 1);
            }
            i -= 1;
        }
        proof {
            list::lemma_last_where(self@.seen, want, -1);
        }
        None
    }

    /// Note a visit, moving the page to the front.
    pub fn record(&mut self, url: &str, now: u64)
        ensures
            final(self)@ == visited(old(self)@, url@, now),
    {
        if !keeps(url) {
            return;
        }
        self.dirty = true;
        let ghost before = self.entries@;
        match self.place_of(url) {
            Some(at) => {
                let mut visit = self.entries.remove(at);
                visit.visits = visit.visits.saturating_add(1);
                visit.last = now;
                self.entries.insert(0, visit);
                assert(self@.seen =~= visited(old(self)@, url@, now).seen);
            },
            None => {
                self.entries.insert(
                    0,
                    Visit { url: url.to_owned(), title: String::new(), visits: 1, last: now },
                );
                let ghost grown = all_seen(self.entries@);
                assert(grown =~= seq![
                    Seen { url: url@, title: Seq::empty(), visits: 1, last: now },
                ] + all_seen(before));
                self.entries.truncate(self.cap);
                assert(all_seen(self.entries@) =~= list::at_most(grown, self.cap as nat));
            },
        }
    }

    /// Titles arrive after the page load that created the entry, so they are
    /// filled in separately rather than being part of `record`.
    pub fn set_title(&mut self, url: &str, title: &str)
        ensures
            final(self)@ == titled(old(self)@, url@, title@),
    {
        let at = self.place_of(url);
        if title.is_empty() {
            return;
        }
        if let Some(at) = at {
            if !text::same(self.entries[at].title.as_str(), title) {
                let ghost before = self.entries@;
                let mut visit = self.entries.remove(at);
                visit.title = title.to_owned();
                self.entries.insert(at, visit);
                self.dirty = true;
                assert(self@.seen =~= titled(old(self)@, url@, title@).seen);
            }
        }
    }

    pub fn entries(&self) -> (r: &[Visit])
        ensures
            all_seen(r@) == self@.seen,
    {
        self.entries.as_slice()
    }

    /// Forget everything. The file goes too.
    pub fn clear(&mut self)
        ensures
            final(self)@ == (Log { seen: Seq::empty(), dirty: true, ..old(self)@ }),
    {
        self.entries.clear();
        self.dirty = true;
        assert(self@.seen =~= Seq::<Seen>::empty());
    }

    /// What to write, if anything changed since the last time. Cheap enough to
    /// call after every navigation: a few thousand short lines.
    pub fn flush(&mut self) -> (r: Option<String>)
        ensures
            final(self)@ == (Log { dirty: false, ..old(self)@ }),
            match r {
                Some(body) => old(self)@.dirty && body@ == sheet(old(self)@.seen),
                None => !old(self)@.dirty,
            },
    {
        if !self.dirty {
            return None;
        }
        self.dirty = false;
        let ghost rows = self@.seen.map_values(|s: Seen| row(s));
        let mut body = String::new();
        let mut i: usize = 0;
        while i < self.entries.len()
            invariant
                i <= self.entries.len(),
                rows == self@.seen.map_values(|s: Seen| row(s)),
                body@ == table::sheet(rows.take(i as int)),
            decreases self.entries.len() - i,
        {
            assert(rows.take(i + 1).drop_last() =~= rows.take(i as int));
            body.append(write_row(&self.entries[i]).as_str());
            body.push('\n');
            assert(body@ =~= table::sheet(rows.take(i + 1)));
            i += 1;
        }
        assert(rows.take(i as int) =~= rows);
        Some(body)
    }
}

fn write_row(visit: &Visit) -> (r: String)
    ensures
        r@ == row(visit@),
{
    let mut line = number::to_decimal(visit.visits as u64);
    line.push('\t');
    line.append(number::to_decimal(visit.last).as_str());
    line.push('\t');
    line.append(visit.url.as_str());
    line.push('\t');
    line.append(text::swap_char(visit.title.as_str(), '\t', ' ').as_str());
    assert(line@ =~= row(visit@));
    line
}

fn parse_row(line: &str) -> (r: Option<Visit>)
    ensures
        match r {
            Some(visit) => read_row(line@) == Some(visit@),
            None => read_row(line@) is None,
        },
{
    let parts = text::splitn(line, 4, '\t');
    let ghost said = text::texts(parts@);
    assert forall|i: int| 0 <= i < parts@.len() implies said[i] == #[trigger] parts@[i]@ by {}
    if parts.len() < 3 {
        return None;
    }
    let visits = number::parse_u32(parts[0].as_str());
    let last = number::parse_u64(parts[1].as_str());
    match (visits, last) {
        (Some(visits), Some(last)) => Some(
            Visit {
                url: parts[2].clone(),
                title: if parts.len() == 4 {
                    parts[3].clone()
                } else {
                    String::new()
                },
                visits,
                last,
            },
        ),
        _ => None,
    }
}

/// Whether an address is one of the browser's own pages.
fn chrome(url: &str) -> (r: bool)
    ensures
        r == is_chrome(url@),
{
    match text::strip_prefix(url, CHROME_SCHEME) {
        Some(rest) => text::starts_with(rest.as_str(), ":"),
        None => false,
    }
}

/// Whether a page is worth remembering.
fn keeps(url: &str) -> (r: bool)
    ensures
        r == worth_keeping(url@),
{
    !url.is_empty() && !text::same(url, "about:blank") && !chrome(url)
}

/// What the clock says, in whole seconds since 1970. A clock set before then
/// says nothing, and nothing counts as zero.
pub fn now(since_epoch: Option<u64>) -> (r: u64)
    ensures
        r == match since_epoch {
            Some(seconds) => seconds,
            None => 0,
        },
{
    match since_epoch {
        Some(seconds) => seconds,
        None => 0,
    }
}

/// The directory what is remembered is kept in, given what `XDG_STATE_HOME` and
/// `HOME` are set to.
pub open spec fn state_home(state: Option<Seq<char>>, home: Option<Seq<char>>) -> Seq<char> {
    let base = match state {
        Some(dir) if pathname::absolute(dir) => dir,
        _ => pathname::under(
            match home {
                Some(dir) => dir,
                None => Seq::empty(),
            },
            ".local/state"@,
        ),
    };
    pathname::under(base, "oma-browse"@)
}

/// Where this browser keeps what it remembers. Shared with the bookmarks, the
/// permissions and the downloads, so the files sit together; a profile has a
/// place of its own.
pub fn state_dir(state: Option<&str>, home: Option<&str>, profile: Option<&str>) -> (r: String)
    ensures
        r@ == profile::profile_home(
            state_home(text::maybe(state), text::maybe(home)),
            text::maybe(profile),
        ),
{
    let home = match home {
        Some(dir) => dir,
        None => "",
    };
    proof {
        reveal_strlit("");
        assert(""@ =~= Seq::<char>::empty());
    }
    let base = match state {
        Some(dir) if pathname::is_absolute(dir) => dir.to_owned(),
        _ => pathname::join(home, ".local/state"),
    };
    profile::within(pathname::join(base.as_str(), "oma-browse").as_str(), profile)
}

/// The file the history is written to.
pub fn path(state_dir: &str) -> (r: String)
    ensures
        r@ == pathname::under(state_dir@, "history"@),
{
    pathname::join(state_dir, "history")
}

// ---------------------------------------------------------------------------
// Laws
// ---------------------------------------------------------------------------

proof fn lemma_row_reads_back(s: Seen)
    requires
        writable(s),
    ensures
        table::one_line(row(s)),
        read_row(row(s)) == Some(settled(s)),
{
    let a = number::decimal(s.visits as nat);
    let b = number::decimal(s.last as nat);
    let t = text::swapped(s.title, '\t', ' ');
    let tab = seq!['\t'];
    number::lemma_decimal(s.visits as nat);
    number::lemma_decimal(s.last as nat);
    number::law_decimal_reads_back(s.visits as nat, u32::MAX as nat);
    number::law_decimal_reads_back(s.last as nat, u64::MAX as nat);
    assert(table::free_of(a, '\t') && table::free_of(a, '\n')) by {
        assert forall|i: int| 0 <= i < a.len() implies a[i] != '\t' && a[i] != '\n' by {
            assert(number::is_digit(a[i]));
        }
    }
    assert(table::free_of(b, '\t') && table::free_of(b, '\n')) by {
        assert forall|i: int| 0 <= i < b.len() implies b[i] != '\t' && b[i] != '\n' by {
            assert(number::is_digit(b[i]));
        }
    }
    let rest2 = s.url + tab + t;
    let rest1 = b + tab + rest2;
    assert(row(s) =~= a + tab + rest1);
    table::lemma_cut_field(a, rest1, '\t');
    table::lemma_cut_field(b, rest2, '\t');
    table::lemma_cut_field(s.url, t, '\t');
    table::lemma_last_field(t, 1, '\t');
    let f1 = text::fields(t, 1, '\t');
    let f2 = text::fields(rest2, 2, '\t');
    let f3 = text::fields(rest1, 3, '\t');
    let f4 = text::fields(row(s), 4, '\t');
    assert(f2 == seq![s.url] + f1);
    assert(f3 == seq![b] + f2);
    assert(f4 == seq![a] + f3);
    assert(f4 =~= seq![a, b, s.url, t]);
    let line = row(s);
    assert forall|i: int| 0 <= i < line.len() implies line[i] != '\n' by {}
    if line.last() == '\r' {
        assert(t.len() > 0 && line.last() == t.last());
        assert(t.last() == s.title.last());
    }
}

/// What a history is written as reads back as the same visits in the same
/// order, with every tab in a title become a space. It holds where no URL has a
/// tab or a newline in it, and no title has a newline in it or ends with a
/// carriage return.
pub proof fn law_history_reads_back(log: Log)
    requires
        log.cap > 0,
        log.seen.len() <= log.cap,
        forall|i: int| 0 <= i < log.seen.len() ==> writable(#[trigger] log.seen[i]),
    ensures
        read_back(Some(sheet(log.seen)), log.cap) == (Log {
            cap: log.cap,
            seen: log.seen.map_values(|s: Seen| settled(s)),
            dirty: false,
        }),
{
    let rows = log.seen.map_values(|s: Seen| row(s));
    let records = log.seen.map_values(|s: Seen| settled(s));
    assert forall|i: int| 0 <= i < rows.len() implies table::one_line(#[trigger] rows[i])
        && read_row(rows[i]) == Some(records[i]) by {
        lemma_row_reads_back(log.seen[i]);
    }
    table::lemma_sheet_reads_back(rows, |l: Seq<char>| read_row(l), records);
}

/// A visit leaves its page at the front of the list, visited now.
pub proof fn law_visit_comes_first(log: Log, url: Seq<char>, now: u64)
    requires
        worth_keeping(url),
        log.cap > 0,
    ensures
        visited(log, url, now).seen.len() > 0,
        visited(log, url, now).seen[0].url == url,
        visited(log, url, now).seen[0].last == now,
{
    list::lemma_last_where_is_last(log.seen, |s: Seen| s.url == url);
}

/// A page already in the list counts one visit more, keeps its title, and takes
/// no more room than before. One that is not starts at one, without a title.
pub proof fn law_visit_counts(log: Log, url: Seq<char>, now: u64)
    requires
        worth_keeping(url),
        log.cap > 0,
    ensures
        match place(log.seen, url) {
            Some(i) => {
                &&& visited(log, url, now).seen.len() == log.seen.len()
                &&& log.seen[i].visits < u32::MAX ==> visited(log, url, now).seen[0].visits
                    == log.seen[i].visits + 1
                &&& log.seen[i].visits == u32::MAX ==> visited(log, url, now).seen[0].visits
                    == u32::MAX
                &&& visited(log, url, now).seen[0].title == log.seen[i].title
            },
            None => {
                &&& visited(log, url, now).seen[0].visits == 1
                &&& visited(log, url, now).seen[0].title.len() == 0
                &&& log.seen.len() < log.cap ==> visited(log, url, now).seen.len()
                    == log.seen.len() + 1
            },
        },
{
    list::lemma_last_where_is_last(log.seen, |s: Seen| s.url == url);
}

/// Whether no entry was last visited before the one behind it.
pub open spec fn newest_first(seen: Seq<Seen>) -> bool {
    forall|i: int, j: int|
        0 <= i < j < seen.len() ==> #[trigger] seen[i].last >= #[trigger] seen[j].last
}

/// Visits keep the list newest first, as long as the clock does not run backwards.
pub proof fn law_visits_stay_newest_first(log: Log, url: Seq<char>, now: u64)
    requires
        newest_first(log.seen),
        forall|i: int| 0 <= i < log.seen.len() ==> (#[trigger] log.seen[i]).last <= now,
    ensures
        newest_first(visited(log, url, now).seen),
        worth_keeping(url) ==> forall|i: int|
            0 <= i < visited(log, url, now).seen.len() ==> (#[trigger] visited(
                log,
                url,
                now,
            ).seen[i]).last <= now,
{
    list::lemma_last_where_is_last(log.seen, |s: Seen| s.url == url);
}

/// The pages other than the one visited keep their entries and their order. When
/// there is no room for a new page, it is the oldest that go, and a page that is
/// there already costs none.
pub proof fn law_visit_leaves_the_others(log: Log, url: Seq<char>, now: u64)
    requires
        log.cap > 0,
        log.seen.len() <= log.cap,
    ensures
        ({
            let other = |s: Seen| s.url != url;
            let before = list::kept(log.seen, other);
            let after = list::kept(visited(log, url, now).seen, other);
            &&& after.is_prefix_of(before)
            &&& place(log.seen, url) is Some || log.seen.len() < log.cap ==> after == before
            &&& before.len() <= after.len() + 1
        }),
{
    let other = |s: Seen| s.url != url;
    let seen = log.seen;
    list::lemma_last_where_is_last(seen, |s: Seen| s.url == url);
    if worth_keeping(url) {
        match place(seen, url) {
            Some(i) => {
                let front = seen.take(i);
                let back = seen.skip(i + 1);
                let own = seen[i];
                let now_first = visited(log, url, now).seen[0];
                assert(seen =~= front + seq![own] + back);
                assert(visited(log, url, now).seen =~= seq![now_first] + (front + back));
                list::lemma_kept_joins(front + seq![own], back, other);
                list::lemma_kept_joins(front, seq![own], other);
                list::lemma_kept_joins(seq![now_first], front + back, other);
                list::lemma_kept_joins(front, back, other);
                list::lemma_kept_one(own, other);
                list::lemma_kept_one(now_first, other);
                assert(list::kept(visited(log, url, now).seen, other) =~= list::kept(seen, other));
            },
            None => {
                let entry = visited(log, url, now).seen[0];
                list::lemma_kept_one(entry, other);
                if seen.len() < log.cap {
                    assert(visited(log, url, now).seen =~= seq![entry] + seen);
                    list::lemma_kept_joins(seq![entry], seen, other);
                    assert(list::kept(visited(log, url, now).seen, other) =~= list::kept(
                        seen,
                        other,
                    ));
                } else {
                    let front = seen.drop_last();
                    assert(visited(log, url, now).seen =~= seq![entry] + front);
                    list::lemma_kept_joins(seq![entry], front, other);
                    assert(list::kept(visited(log, url, now).seen, other) =~= list::kept(
                        front,
                        other,
                    ));
                }
            },
        }
    }
}

/// Two visits to different pages leave them in the order they were made in, the
/// later one in front.
pub proof fn law_later_visit_in_front(
    log: Log,
    first: Seq<char>,
    second: Seq<char>,
    then: u64,
    now: u64,
)
    requires
        worth_keeping(first),
        worth_keeping(second),
        first != second,
        log.cap > 1,
    ensures
        ({
            let after = visited(visited(log, first, then), second, now).seen;
            &&& after.len() >= 2
            &&& after[0].url == second && after[0].last == now
            &&& after[1].url == first && after[1].last == then
        }),
{
    list::lemma_last_where_is_last(log.seen, |s: Seen| s.url == first);
    let middle = visited(log, first, then);
    list::lemma_last_where_is_last(middle.seen, |s: Seen| s.url == second);
}

/// A blank page and the browser's own pages leave no trace. Any other page does.
pub proof fn law_own_pages_leave_no_trace(log: Log, rest: Seq<char>, now: u64)
    ensures
        visited(log, Seq::empty(), now) == log,
        visited(log, "about:blank"@, now) == log,
        visited(log, "oma-chrome:"@ + rest, now) == log,
        log.cap > 0 ==> visited(log, "https://"@ + rest, now).seen[0].url == "https://"@ + rest,
        log.cap > 0 ==> visited(log, "http://"@ + rest, now).seen[0].url == "http://"@ + rest,
        log.cap > 0 ==> visited(log, "file://"@ + rest, now).seen[0].url == "file://"@ + rest,
{
    reveal_strlit("about:blank");
    reveal_strlit("oma-chrome:");
    reveal_strlit("oma-chrome");
    reveal_strlit(":");
    reveal_strlit("https://");
    reveal_strlit("http://");
    reveal_strlit("file://");
    let own = "oma-chrome:"@ + rest;
    assert(own.take(10) =~= "oma-chrome"@);
    assert(own.skip(10).take(1) =~= ":"@);
    assert(is_chrome(own));
    let secure = "https://"@ + rest;
    let plain = "http://"@ + rest;
    let local = "file://"@ + rest;
    assert(secure[0] == 'h' && plain[0] == 'h' && local[0] == 'f');
    assert("about:blank"@[0] == 'a' && "oma-chrome"@[0] == 'o');
    if is_chrome(secure) {
        assert(secure.take(10)[0] == 'h');
    }
    if is_chrome(plain) {
        assert(plain.take(10)[0] == 'h');
    }
    if is_chrome(local) {
        assert(local.take(10)[0] == 'f');
    }
    list::lemma_last_where_is_last(log.seen, |s: Seen| s.url == secure);
    list::lemma_last_where_is_last(log.seen, |s: Seen| s.url == plain);
    list::lemma_last_where_is_last(log.seen, |s: Seen| s.url == local);
}

/// The list never grows past its cap.
pub proof fn law_cap_holds(log: Log, url: Seq<char>, now: u64)
    requires
        log.seen.len() <= log.cap,
    ensures
        visited(log, url, now).seen.len() <= log.cap,
        visited(log, url, now).cap == log.cap,
{
    list::lemma_last_where_is_last(log.seen, |s: Seen| s.url == url);
}

/// Whether no page stands in the list twice.
pub open spec fn once_each(seen: Seq<Seen>) -> bool {
    forall|i: int, j: int| 0 <= i < j < seen.len() ==> #[trigger] seen[i].url != #[trigger] seen[j].url
}

/// A list with no page in it twice stays that way.
pub proof fn law_visit_keeps_pages_once(log: Log, url: Seq<char>, now: u64)
    requires
        once_each(log.seen),
    ensures
        once_each(visited(log, url, now).seen),
{
    list::lemma_last_where_is_last(log.seen, |s: Seen| s.url == url);
    if worth_keeping(url) {
        match place(log.seen, url) {
            Some(i) => {
                let rest = log.seen.remove(i);
                assert forall|j: int| 0 <= j < rest.len() implies #[trigger] rest[j].url != url by {
                    if j < i {
                        assert(rest[j] == log.seen[j]);
                    } else {
                        assert(rest[j] == log.seen[j + 1]);
                    }
                }
            },
            None => {},
        }
    }
}

/// Giving one page a title changes no other page, and no count, time or order.
pub proof fn law_title_touches_one_page(log: Log, url: Seq<char>, title: Seq<char>)
    ensures
        titled(log, url, title).seen.len() == log.seen.len(),
        forall|i: int|
            0 <= i < log.seen.len() && log.seen[i].url != url ==> #[trigger] titled(
                log,
                url,
                title,
            ).seen[i] == log.seen[i],
        forall|i: int|
            0 <= i < log.seen.len() ==> {
                let after = #[trigger] titled(log, url, title).seen[i];
                after.url == log.seen[i].url && after.visits == log.seen[i].visits && after.last
                    == log.seen[i].last
            },
{
    list::lemma_last_where_is_last(log.seen, |s: Seen| s.url == url);
}

/// A line of the file is how often, when last, where and what it was called, with
/// tabs between.
pub proof fn law_line_is_a_visit(visits: u32, last: u64, url: Seq<char>, title: Seq<char>)
    requires
        table::free_of(url, '\t'),
    ensures
        read_row(
            number::decimal(visits as nat) + seq!['\t'] + number::decimal(last as nat) + seq![
                '\t',
            ] + url + seq!['\t'] + title,
        ) == Some(Seen { url, title, visits, last }),
{
    let a = number::decimal(visits as nat);
    let b = number::decimal(last as nat);
    let tab = seq!['\t'];
    number::lemma_decimal(visits as nat);
    number::lemma_decimal(last as nat);
    number::law_decimal_reads_back(visits as nat, u32::MAX as nat);
    number::law_decimal_reads_back(last as nat, u64::MAX as nat);
    assert(table::free_of(a, '\t') && table::free_of(b, '\t')) by {
        assert forall|i: int| 0 <= i < a.len() implies a[i] != '\t' by {
            assert(number::is_digit(a[i]));
        }
        assert forall|i: int| 0 <= i < b.len() implies b[i] != '\t' by {
            assert(number::is_digit(b[i]));
        }
    }
    let rest2 = url + tab + title;
    let rest1 = b + tab + rest2;
    let line = a + tab + b + tab + url + tab + title;
    assert(line =~= a + tab + rest1);
    table::lemma_cut_field(a, rest1, '\t');
    table::lemma_cut_field(b, rest2, '\t');
    table::lemma_cut_field(url, title, '\t');
    table::lemma_last_field(title, 1, '\t');
    assert(text::fields(rest2, 2, '\t') == seq![url] + text::fields(title, 1, '\t'));
    assert(text::fields(rest1, 3, '\t') == seq![b] + text::fields(rest2, 2, '\t'));
    assert(text::fields(line, 4, '\t') == seq![a] + text::fields(rest1, 3, '\t'));
    assert(text::fields(line, 4, '\t') =~= seq![a, b, url, title]);
}

/// A page that has said what it is called is called that from then on, and saying
/// nothing changes nothing.
pub proof fn law_title_is_taken(log: Log, url: Seq<char>, title: Seq<char>)
    ensures
        title.len() == 0 ==> titled(log, url, title) == log,
        title.len() > 0 ==> (place(log.seen, url) matches Some(i) ==> 0 <= i < log.seen.len()
            && titled(log, url, title).seen[i].title == title),
        place(log.seen, url) is None ==> titled(log, url, title) == log,
        titled(log, url, title) != log ==> titled(log, url, title).dirty,
{
    list::lemma_last_where_is_last(log.seen, |s: Seen| s.url == url);
}

/// A state directory that is named by its whole path is taken, whatever the home directory
/// is. One that is not is passed over, as if none had been named.
pub proof fn law_state_directory_is_named_whole(
    dir: Seq<char>,
    home: Option<Seq<char>>,
    elsewhere: Option<Seq<char>>,
)
    ensures
        pathname::absolute(dir) ==> state_home(Some(dir), home) == state_home(Some(dir), elsewhere),
        pathname::absolute(dir) ==> dir.is_prefix_of(state_home(Some(dir), home)),
        !pathname::absolute(dir) ==> state_home(Some(dir), home) == state_home(None, home),
        home matches Some(at) ==> at.is_prefix_of(state_home(None, home)),
{
    reveal_strlit("oma-browse");
    reveal_strlit(".local/state");
    assert("oma-browse"@[0] == 'o');
    assert(".local/state"@[0] == '.');
}

} // verus!
