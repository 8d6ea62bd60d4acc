//! What the page said, and what it fetched.
//!
//! The console is the page's own, so it is observed from inside the page: a
//! script wraps `console.*` and holds each line in a buffer that is emptied into
//! this one. The network is the engine's, so it is observed from outside, by the
//! signal that reports every request the engine makes.
//!
//! Both are kept per tab, in a ring buffer that forgets its oldest entry rather
//! than growing without limit: a browser left open for a week on a page that
//! logs in a loop must not become a memory leak with a command attached.

use vstd::prelude::*;

use crate::json;
use crate::list;
use crate::number;
use crate::text;

verus! {

/// The object the page hangs its buffer off, and the one asked for it by name.
pub const CHANNEL: &'static str = "__omaConsole";

/// How many entries of each kind are kept, per tab.
///
/// Five hundred is roughly what a chatty single-page application produces in a
/// minute, and about as much as anybody reads in one go.
pub const KEEP: usize = 500;

/// What to evaluate in a page to empty its buffer. A page that runs no scripts
/// of ours has no buffer, and that is a page with nothing to say.
pub fn drain_script() -> (r: String)
    ensures
        r@ == "window."@ + CHANNEL@ + " ? window."@ + CHANNEL@ + ".drain() : \"[]\""@,
{
    let mut out = "window.".to_owned();
    out.append(CHANNEL);
    out.append(" ? window.");
    out.append(CHANNEL);
    out.append(".drain() : \"[]\"");
    out
}

/// The console patch, ready to inject, from its source.
pub fn script(source: &str) -> (r: String)
    ensures
        r@ == source@,
{
    source.to_owned()
}

/// Sequence numbers, so that "since" means something across a whole browser
/// rather than only within one tab.
#[derive(Debug)]
pub struct Sequence {
    next: u64,
}

impl View for Sequence {
    type V = u64;

    closed spec fn view(&self) -> u64 {
        self.next
    }
}

/// The number after another. After the last comes zero.
pub open spec fn following(seq: u64) -> u64 {
    if seq == u64::MAX {
        0
    } else {
        (seq + 1) as u64
    }
}

impl Default for Sequence {
    fn default() -> (r: Self)
        ensures
            r@ == 1,
    {
        Sequence { next: 1 }
    }
}

impl Sequence {
    /// Take the next number.
    pub fn take(&mut self) -> (r: u64)
        ensures
            r == old(self)@,
            final(self)@ == following(old(self)@),
    {
        let seq = self.next;
        self.next = if seq == u64::MAX {
            0
        } else {
            seq + 1
        };
        seq
    }
}

/// What the clock says, in milliseconds since 1970. A clock set before then says
/// nothing, and nothing counts as zero.
pub fn now_ms(since_epoch: Option<u64>) -> (r: u64)
    ensures
        r == match since_epoch {
            Some(ms) => ms,
            None => 0,
        },
{
    match since_epoch {
        Some(ms) => ms,
        None => 0,
    }
}

/// How loud a console line was.
#[derive(Debug, Clone, Copy, PartialEq, Eq, PartialOrd, Ord, Structural)]
pub enum Level {
    Debug,
    Log,
    Info,
    Warn,
    Error,
}

/// What a level is called.
pub open spec fn level_name(level: Level) -> Seq<char> {
    match level {
        Level::Debug => "debug"@,
        Level::Log => "log"@,
        Level::Info => "info"@,
        Level::Warn => "warn"@,
        Level::Error => "error"@,
    }
}

/// The level a word means: the names, and the spellings a person actually types.
pub open spec fn level_meant(word: Seq<char>) -> Option<Level> {
    if word == "debug"@ || word == "verbose"@ {
        Some(Level::Debug)
    } else if word == "log"@ {
        Some(Level::Log)
    } else if word == "info"@ {
        Some(Level::Info)
    } else if word == "warn"@ || word == "warning"@ {
        Some(Level::Warn)
    } else if word == "error"@ || word == "err"@ {
        Some(Level::Error)
    } else {
        None
    }
}

/// The level a text means, whatever the case of it and the white space around
/// it.
pub open spec fn level_of(raw: Seq<char>) -> Option<Level> {
    level_meant(text::lowered(text::trimmed(raw)))
}

/// How loud a level is, from the quietest up.
pub open spec fn loudness(level: Level) -> int {
    match level {
        Level::Debug => 0,
        Level::Log => 1,
        Level::Info => 2,
        Level::Warn => 3,
        Level::Error => 4,
    }
}

impl Level {
    pub const ALL: [Level; 5] = [
        Level::Debug,
        Level::Log,
        Level::Info,
        Level::Warn,
        Level::Error,
    ];

    pub fn as_str(self) -> (r: &'static str)
        ensures
            r@ == level_name(self),
    {
        match self {
            Level::Debug => "debug",
            Level::Log => "log",
            Level::Info => "info",
            Level::Warn => "warn",
            Level::Error => "error",
        }
    }

    /// Also accepts the spellings a person actually types: `warning`, `err`.
    pub fn parse(raw: &str) -> (r: Option<Self>)
        ensures
            r == level_of(raw@),
    {
        let word = text::to_lower(text::trim(raw).as_str());
        let word = word.as_str();
        if text::same(word, "debug") || text::same(word, "verbose") {
            Some(Level::Debug)
        } else if text::same(word, "log") {
            Some(Level::Log)
        } else if text::same(word, "info") {
            Some(Level::Info)
        } else if text::same(word, "warn") || text::same(word, "warning") {
            Some(Level::Warn)
        } else if text::same(word, "error") || text::same(word, "err") {
            Some(Level::Error)
        } else {
            None
        }
    }

    /// Whether this is at least as loud as another.
    pub fn reaches(self, other: Level) -> (r: bool)
        ensures
            r == (loudness(self) >= loudness(other)),
    {
        self.rank() >= other.rank()
    }

    fn rank(self) -> (r: u8)
        ensures
            r == loudness(self),
    {
        match self {
            Level::Debug => 0,
            Level::Log => 1,
            Level::Info => 2,
            Level::Warn => 3,
            Level::Error => 4,
        }
    }
}

/// One line the page logged.
#[derive(Debug)]
pub struct Line {
    pub seq: u64,
    pub level: Level,
    pub text: String,
    /// `file:line:column`, when the page said. Empty for an ordinary
    /// `console.log`, which does not carry one.
    pub source: String,
    /// Unix milliseconds.
    pub at: u64,
}

impl Clone for Line {
    fn clone(&self) -> (r: Self)
        ensures
            r == *self,
    {
        Line {
            seq: self.seq,
            level: self.level,
            text: self.text.clone(),
            source: self.source.clone(),
            at: self.at,
        }
    }
}

/// One thing the engine fetched.
#[derive(Debug)]
pub struct Exchange {
    pub seq: u64,
    pub method: String,
    pub url: String,
    /// `0` while the request is still in flight, or if it failed before a
    /// response arrived.
    pub status: u32,
    pub mime: String,
    pub bytes: u64,
    /// Unix milliseconds, at the moment the request started.
    pub at: u64,
    /// How long it took, in milliseconds. `0` until it finishes.
    pub ms: u64,
    /// Set when the load failed rather than completed, with what the engine
    /// said.
    pub failed: Option<String>,
}

impl Clone for Exchange {
    fn clone(&self) -> (r: Self)
        ensures
            r == *self,
    {
        Exchange {
            seq: self.seq,
            method: self.method.clone(),
            url: self.url.clone(),
            status: self.status,
            mime: self.mime.clone(),
            bytes: self.bytes,
            at: self.at,
            ms: self.ms,
            failed: match &self.failed {
                Some(why) => Some(why.clone()),
                None => None,
            },
        }
    }
}

/// How a request ended: what [`Inspector::finished`] fills in.
#[derive(Debug)]
pub struct Outcome {
    pub status: u32,
    pub mime: String,
    pub bytes: u64,
    pub ms: u64,
    /// What the engine said, when the load failed rather than completed.
    pub failed: Option<String>,
}

impl Default for Outcome {
    fn default() -> (r: Self)
        ensures
            r.status == 0,
            r.mime@ == Seq::<char>::empty(),
            r.bytes == 0,
            r.ms == 0,
            r.failed is None,
    {
        Outcome { status: 0, mime: String::new(), bytes: 0, ms: 0, failed: None }
    }
}

impl Exchange {
    /// A request that has just started. The engine reports no method for
    /// anything it did not build a request object for, which in practice means a
    /// GET.
    pub fn begun(seq: u64, method: Option<&str>, url: Option<&str>, at: u64) -> (r: Exchange)
        ensures
            r.seq == seq,
            r.at == at,
            r.method@ == match method {
                Some(name) => name@,
                None => "GET"@,
            },
            r.url@ == match url {
                Some(text) => text@,
                None => Seq::empty(),
            },
            r.status == 0,
            r.mime@ == Seq::<char>::empty(),
            r.bytes == 0,
            r.ms == 0,
            r.failed is None,
    {
        Exchange {
            seq,
            method: match method {
                Some(name) => name.to_owned(),
                None => "GET".to_owned(),
            },
            url: match url {
                Some(text) => text.to_owned(),
                None => String::new(),
            },
            status: 0,
            mime: String::new(),
            bytes: 0,
            at,
            ms: 0,
            failed: None,
        }
    }
}

/// What the engine says of a response.
#[derive(Debug)]
pub struct Response {
    pub status: u32,
    pub mime: Option<String>,
    pub bytes: u64,
}

impl Outcome {
    /// A request that completed, with the response if there was one.
    pub fn arrived(response: Option<Response>, ms: u64) -> (r: Outcome)
        ensures
            r.ms == ms,
            r.failed is None,
            match response {
                Some(said) => {
                    &&& r.status == said.status
                    &&& r.bytes == said.bytes
                    &&& r.mime@ == match said.mime {
                        Some(mime) => mime@,
                        None => Seq::empty(),
                    }
                },
                None => r.status == 0 && r.bytes == 0 && r.mime@ == Seq::<char>::empty(),
            },
    {
        match response {
            Some(said) => Outcome {
                status: said.status,
                mime: match said.mime {
                    Some(mime) => mime,
                    None => String::new(),
                },
                bytes: said.bytes,
                ms,
                failed: None,
            },
            None => Outcome { ms, ..Outcome::default() },
        }
    }

    /// A request that failed, with what the engine said.
    pub fn broken(error: &str, ms: u64) -> (r: Outcome)
        ensures
            r.ms == ms,
            r.failed matches Some(why) && why@ == error@,
            r.status == 0,
            r.bytes == 0,
            r.mime@ == Seq::<char>::empty(),
    {
        Outcome { ms, failed: Some(error.to_owned()), ..Outcome::default() }
    }
}

/// What a page says of one line: everything but the sequence number, because a
/// page that could pick its own could rewrite history.
#[derive(Debug)]
pub struct Said {
    pub level: String,
    pub text: String,
    pub source: String,
    pub at: u64,
}

/// What a tab has collected.
#[derive(Debug)]
struct Room<T> {
    tab: String,
    items: Vec<T>,
}

/// Everything both signals have collected, by tab.
#[derive(Debug)]
pub struct Inspector {
    console: Vec<Room<Line>>,
    network: Vec<Room<Exchange>>,
}

spec fn is_of<T>(tab: Seq<char>) -> spec_fn(Room<T>) -> bool {
    |room: Room<T>| room.tab@ == tab
}

/// What a tab has collected, oldest first.
spec fn room_of<T>(rooms: Seq<Room<T>>, tab: Seq<char>) -> Seq<T> {
    match list::first_where(rooms, is_of::<T>(tab)) {
        Some(i) => rooms[i].items@,
        None => Seq::empty(),
    }
}

/// A ring with one item more: the oldest makes way once it is full.
pub open spec fn ringed<T>(items: Seq<T>, item: T) -> Seq<T> {
    if items.len() >= KEEP {
        items.skip(1).push(item)
    } else {
        items.push(item)
    }
}

/// The newest items, no more of them than are kept.
pub open spec fn newest<T>(items: Seq<T>) -> Seq<T> {
    if items.len() <= KEEP {
        items
    } else {
        items.skip(items.len() - KEEP)
    }
}

/// Whether every tab's ring is within its bound.
spec fn bounded<T>(rooms: Seq<Room<T>>) -> bool {
    forall|tab: Seq<char>| (#[trigger] room_of(rooms, tab)).len() <= KEEP
}

/// Nothing collected is within any bound.
proof fn lemma_no_rooms<T>(rooms: Seq<Room<T>>)
    requires
        rooms.len() == 0,
    ensures
        forall|tab: Seq<char>| #[trigger] room_of(rooms, tab) == Seq::<T>::empty(),
{
}

fn find_room<T>(rooms: &Vec<Room<T>>, tab: &str) -> (r: Option<usize>)
    ensures
        match r {
            Some(i) => i < rooms@.len() && rooms@[i as int].tab@ == tab@ && list::first_where(
                rooms@,
                is_of::<T>(tab@),
            ) == Some(i as int),
            None => list::first_where(rooms@, is_of::<T>(tab@)) is None,
        },
{
    let ghost want = is_of::<T>(tab@);
    let mut i: usize = 0;
    while i < rooms.len()
        invariant
            i <= rooms.len(),
            want == is_of::<T>(tab@),
            forall|j: int| 0 <= j < i ==> !want(#[trigger] rooms@[j]),
        decreases rooms.len() - i,
    {
        if text::same(rooms[i].tab.as_str(), tab) {
            proof {
                list::lemma_first_where(rooms@, want, i as int);
            }
            return Some(i);
        }
        i += 1;
    }
    proof {
        list::lemma_first_where(rooms@, want, i as int);
    }
    None
}

/// Changing what one tab has collected changes no other tab.
proof fn lemma_room_changed<T>(rooms: Seq<Room<T>>, at: int, room: Room<T>, tab: Seq<char>)
    requires
        list::first_where(rooms, is_of::<T>(tab)) == Some(at),
        room.tab@ == tab,
    ensures
        forall|other: Seq<char>|
            room_of(rooms.update(at, room), other) == if other == tab {
                room.items@
            } else {
                room_of(rooms, other)
            },
{
    let after = rooms.update(at, room);
    list::lemma_first_where_is_first(rooms, is_of::<T>(tab));
    assert forall|other: Seq<char>| room_of(after, other) == if other == tab {
        room.items@
    } else {
        room_of(rooms, other)
    } by {
        let want = is_of::<T>(other);
        list::lemma_first_where_is_first(rooms, want);
        match list::first_where(rooms, want) {
            Some(i) => {
                assert forall|j: int| 0 <= j < i implies !want(#[trigger] after[j]) by {
                    assert(!want(rooms[j]));
                }
                list::lemma_first_where(after, want, i);
            },
            None => {
                assert forall|j: int| 0 <= j < after.len() implies !want(#[trigger] after[j]) by {
                    assert(!want(rooms[j]));
                }
                list::lemma_first_where(after, want, after.len() as int);
            },
        }
    }
}

/// A tab that collects something for the first time changes no other tab.
proof fn lemma_room_added<T>(rooms: Seq<Room<T>>, room: Room<T>)
    requires
        list::first_where(rooms, is_of::<T>(room.tab@)) is None,
    ensures
        forall|other: Seq<char>|
            room_of(rooms.push(room), other) == if other == room.tab@ {
                room.items@
            } else {
                room_of(rooms, other)
            },
{
    let after = rooms.push(room);
    list::lemma_first_where_is_first(rooms, is_of::<T>(room.tab@));
    assert forall|other: Seq<char>| room_of(after, other) == if other == room.tab@ {
        room.items@
    } else {
        room_of(rooms, other)
    } by {
        let want = is_of::<T>(other);
        list::lemma_first_where_is_first(rooms, want);
        match list::first_where(rooms, want) {
            Some(i) => {
                assert forall|j: int| 0 <= j < i implies !want(#[trigger] after[j]) by {
                    assert(!want(rooms[j]));
                }
                assert(after[i] == rooms[i]);
                list::lemma_first_where(after, want, i);
            },
            None => {
                assert forall|j: int| 0 <= j < rooms.len() implies !want(#[trigger] after[j]) by {
                    assert(!want(rooms[j]));
                }
                if want(room) {
                    list::lemma_first_where(after, want, rooms.len() as int);
                } else {
                    list::lemma_first_where(after, want, after.len() as int);
                }
            },
        }
    }
}

fn push<T>(rooms: &mut Vec<Room<T>>, tab: &str, item: T)
    ensures
        forall|other: Seq<char>|
            room_of(final(rooms)@, other) == if other == tab@ {
                ringed(room_of(old(rooms)@, tab@), item)
            } else {
                room_of(old(rooms)@, other)
            },
{
    match find_room(rooms, tab) {
        Some(at) => {
            let ghost before = rooms@;
            let mut room = rooms.remove(at);
            let ghost had = room.items@;
            if room.items.len() >= KEEP {
                let _oldest = room.items.remove(0);
                assert(room.items@ =~= had.skip(1));
            }
            room.items.push(item);
            let ghost now = room;
            rooms.insert(at, room);
            proof {
                assert(rooms@ =~= before.update(at as int, now));
                lemma_room_changed(before, at as int, now, tab@);
            }
        },
        None => {
            let ghost before = rooms@;
            let mut items: Vec<T> = Vec::new();
            items.push(item);
            let room = Room { tab: tab.to_owned(), items };
            proof {
                lemma_room_added(before, room);
                assert(room.items@ =~= ringed(room_of(before, tab@), item));
            }
            rooms.push(room);
        },
    }
}

/// A ring within its bound stays within it.
proof fn lemma_ring_stays_bounded<T>(
    before: Seq<Room<T>>,
    after: Seq<Room<T>>,
    tab: Seq<char>,
    item: T,
)
    requires
        bounded(before),
        forall|other: Seq<char>|
            #[trigger] room_of(after, other) == if other == tab {
                ringed(room_of(before, tab), item)
            } else {
                room_of(before, other)
            },
    ensures
        bounded(after),
{
    assert forall|other: Seq<char>| (#[trigger] room_of(after, other)).len() <= KEEP by {
        assert(room_of(before, other).len() <= KEEP);
        assert(room_of(before, tab).len() <= KEEP);
    }
}

fn forget<T>(rooms: &mut Vec<Room<T>>, tab: &str)
    ensures
        forall|other: Seq<char>|
            room_of(final(rooms)@, other) == if other == tab@ {
                Seq::empty()
            } else {
                room_of(old(rooms)@, other)
            },
{
    let ghost keep = |room: Room<T>| room.tab@ != tab@;
    let mut all: Vec<Room<T>> = Vec::new();
    std::mem::swap(&mut all, rooms);
    let ghost was = all@;
    assert(rooms@ =~= list::kept(was.take(0), keep));
    for room in it: all
        invariant
            it.seq() == was,
            keep == (|room: Room<T>| room.tab@ != tab@),
            rooms@ == list::kept(was.take(it.index() as int), keep),
    {
        let ghost at = it.index() as int;
        assert(was.take(at + 1).drop_last() =~= was.take(at));
        if !text::same(room.tab.as_str(), tab) {
            rooms.push(room);
        }
    }
    proof {
        assert(was.take(was.len() as int) =~= was);
        let after = rooms@;
        list::lemma_kept(was, keep);
        assert forall|other: Seq<char>| room_of(after, other) == if other == tab@ {
            Seq::empty()
        } else {
            room_of(was, other)
        } by {
            let want = is_of::<T>(other);
            if other == tab@ {
                assert forall|j: int| 0 <= j < after.len() implies !want(#[trigger] after[j]) by {
                    assert(keep(after[j]));
                }
                list::lemma_first_where(after, want, after.len() as int);
            } else {
                list::lemma_kept_first(was, keep, want);
                list::lemma_first_where_is_first(after, want);
                list::lemma_first_where_is_first(was, want);
            }
        }
    }
}

/// What the request with a number is once it has ended.
pub open spec fn completed(e: Exchange, outcome: Outcome) -> Exchange {
    Exchange {
        status: outcome.status,
        mime: outcome.mime,
        bytes: outcome.bytes,
        ms: outcome.ms,
        failed: outcome.failed,
        ..e
    }
}

/// A tab's requests once the one with a number has ended.
pub open spec fn finishing(all: Seq<Exchange>, seq: u64, outcome: Outcome) -> Seq<Exchange> {
    match list::first_where(all, |e: Exchange| e.seq == seq) {
        Some(i) => all.update(i, completed(all[i], outcome)),
        None => all,
    }
}

/// A line as it is kept: the page's clock, not this one's, unless the page has
/// none, and a level it does not know is an ordinary line.
pub open spec fn is_line_of(line: Line, said: Said, seq: u64, now: u64) -> bool {
    &&& line.seq == seq
    &&& line.level == match level_of(said.level@) {
        Some(level) => level,
        None => Level::Log,
    }
    &&& line.text == said.text
    &&& line.source == said.source
    &&& line.at == if said.at > 0 {
        said.at
    } else {
        now
    }
}

/// The number that comes `n` after another.
pub open spec fn later(seq: u64, n: nat) -> u64
    decreases n,
{
    if n == 0 {
        seq
    } else {
        following(later(seq, (n - 1) as nat))
    }
}

/// A ring once several items have been put in it, one after the other.
pub open spec fn ringed_all<T>(items: Seq<T>, more: Seq<T>) -> Seq<T>
    decreases more.len(),
{
    if more.len() == 0 {
        items
    } else {
        ringed(ringed_all(items, more.drop_last()), more.last())
    }
}

impl Default for Inspector {
    fn default() -> (r: Self)
        ensures
            forall|tab: Seq<char>| #[trigger] r.console(tab) == Seq::<Line>::empty(),
            forall|tab: Seq<char>| #[trigger] r.network(tab) == Seq::<Exchange>::empty(),
    {
        let console: Vec<Room<Line>> = Vec::new();
        let network: Vec<Room<Exchange>> = Vec::new();
        proof {
            lemma_no_rooms(console@);
            lemma_no_rooms(network@);
        }
        Inspector { console, network }
    }
}

impl Inspector {
    /// What a tab has logged, oldest first.
    pub closed spec fn console(&self, tab: Seq<char>) -> Seq<Line> {
        room_of(self.console@, tab)
    }

    /// What a tab has fetched, oldest first.
    pub closed spec fn network(&self, tab: Seq<char>) -> Seq<Exchange> {
        room_of(self.network@, tab)
    }

    /// No tab's console and no tab's network log holds more than is kept.
    #[verifier::type_invariant]
    spec fn within_bounds(&self) -> bool {
        bounded(self.console@) && bounded(self.network@)
    }

    /// Whether no tab's log holds more than is kept.
    pub open spec fn is_bounded(&self) -> bool {
        &&& forall|tab: Seq<char>| (#[trigger] self.console(tab)).len() <= KEEP
        &&& forall|tab: Seq<char>| (#[trigger] self.network(tab)).len() <= KEEP
    }

    /// Keep a line a tab logged. Once the tab's buffer is full, the oldest line
    /// makes way.
    pub fn say(&mut self, tab: &str, line: Line)
        ensures
            forall|other: Seq<char>| #[trigger]
                final(self).console(other) == if other == tab@ {
                    ringed(old(self).console(tab@), line)
                } else {
                    old(self).console(other)
                },
            forall|other: Seq<char>| #[trigger]
                final(self).network(other) == old(self).network(other),
            final(self).console(tab@) == newest(old(self).console(tab@).push(line)),
            final(self).is_bounded(),
    {
        proof {
            use_type_invariant(&*self);
            lemma_no_rooms(Seq::<Room<Line>>::empty());
        }
        let ghost before = self.console@;
        let mut rooms: Vec<Room<Line>> = Vec::new();
        std::mem::swap(&mut rooms, &mut self.console);
        push(&mut rooms, tab, line);
        proof {
            lemma_ring_stays_bounded(before, rooms@, tab@, line);
            assert(room_of(before, tab@).len() <= KEEP);
            assert(ringed(room_of(before, tab@), line) =~= newest(
                room_of(before, tab@).push(line),
            ));
        }
        self.console = rooms;
    }

    /// Move what a page has said since last time into its tab's buffer.
    pub fn hear(&mut self, tab: &str, said: Vec<Said>, seqs: &mut Sequence, now: u64)
        ensures
            final(seqs)@ == later(old(seqs)@, said@.len()),
            exists|lines: Seq<Line>|
                {
                    &&& lines.len() == said@.len()
                    &&& forall|i: int|
                        0 <= i < lines.len() ==> is_line_of(
                            #[trigger] lines[i],
                            said@[i],
                            later(old(seqs)@, i as nat),
                            now,
                        )
                    &&& final(self).console(tab@) == ringed_all(old(self).console(tab@), lines)
                },
            forall|other: Seq<char>|
                other != tab@ ==> #[trigger] final(self).console(other) == old(self).console(
                    other,
                ),
            forall|other: Seq<char>| #[trigger]
                final(self).network(other) == old(self).network(other),
            final(self).is_bounded(),
    {
        proof {
            use_type_invariant(&*self);
        }
        let ghost was = said@;
        let ghost first = seqs@;
        let ghost mut lines: Seq<Line> = Seq::empty();
        for one in it: said
            invariant
                it.seq() == was,
                first == old(seqs)@,
                seqs@ == later(first, it.index() as nat),
                lines.len() == it.index(),
                forall|i: int|
                    0 <= i < lines.len() ==> is_line_of(
                        #[trigger] lines[i],
                        was[i],
                        later(first, i as nat),
                        now,
                    ),
                self.console(tab@) == ringed_all(old(self).console(tab@), lines),
                forall|other: Seq<char>|
                    other != tab@ ==> #[trigger] self.console(other) == old(self).console(other),
                forall|other: Seq<char>| #[trigger]
                    self.network(other) == old(self).network(other),
                self.is_bounded(),
        {
            let level = match Level::parse(one.level.as_str()) {
                Some(level) => level,
                None => Level::Log,
            };
            let line = Line {
                seq: seqs.take(),
                level,
                text: one.text,
                source: one.source,
                at: if one.at > 0 {
                    one.at
                } else {
                    now
                },
            };
            let ghost more = lines.push(line);
            assert(more.drop_last() =~= lines);
            self.say(tab, line);
            proof {
                lines = more;
            }
        }
    }

    /// Record a request that has just started, and answer with its sequence
    /// number so that whoever is watching it can come back and finish it.
    pub fn started(&mut self, tab: &str, exchange: Exchange) -> (r: u64)
        ensures
            r == exchange.seq,
            forall|other: Seq<char>| #[trigger]
                final(self).network(other) == if other == tab@ {
                    ringed(old(self).network(tab@), exchange)
                } else {
                    old(self).network(other)
                },
            forall|other: Seq<char>| #[trigger]
                final(self).console(other) == old(self).console(other),
            final(self).network(tab@) == newest(old(self).network(tab@).push(exchange)),
            final(self).is_bounded(),
    {
        proof {
            use_type_invariant(&*self);
            lemma_no_rooms(Seq::<Room<Exchange>>::empty());
        }
        let seq = exchange.seq;
        let ghost before = self.network@;
        let mut rooms: Vec<Room<Exchange>> = Vec::new();
        std::mem::swap(&mut rooms, &mut self.network);
        push(&mut rooms, tab, exchange);
        proof {
            lemma_ring_stays_bounded(before, rooms@, tab@, exchange);
            assert(room_of(before, tab@).len() <= KEEP);
            assert(ringed(room_of(before, tab@), exchange) =~= newest(
                room_of(before, tab@).push(exchange),
            ));
        }
        self.network = rooms;
        seq
    }

    /// Fill in what was only knowable once the response arrived.
    pub fn finished(&mut self, tab: &str, seq: u64, outcome: Outcome)
        ensures
            forall|other: Seq<char>| #[trigger]
                final(self).network(other) == if other == tab@ {
                    finishing(old(self).network(tab@), seq, outcome)
                } else {
                    old(self).network(other)
                },
            forall|other: Seq<char>| #[trigger]
                final(self).console(other) == old(self).console(other),
            final(self).is_bounded(),
    {
        proof {
            use_type_invariant(&*self);
            lemma_no_rooms(Seq::<Room<Exchange>>::empty());
        }
        let at = match find_room(&self.network, tab) {
            Some(at) => at,
            None => {
                return;
            },
        };
        let ghost before = self.network@;
        let mut rooms: Vec<Room<Exchange>> = Vec::new();
        std::mem::swap(&mut rooms, &mut self.network);
        let mut room = rooms.remove(at);
        let ghost had = room.items@;
        let ghost want = |e: Exchange| e.seq == seq;
        let mut i: usize = 0;
        while i < room.items.len() && room.items[i].seq != seq
            invariant
                i <= room.items.len(),
                room.items@ == had,
                want == (|e: Exchange| e.seq == seq),
                forall|j: int| 0 <= j < i ==> !want(#[trigger] had[j]),
            decreases room.items.len() - i,
        {
            i += 1;
        }
        proof {
            list::lemma_first_where(had, want, i as int);
        }
        if i < room.items.len() {
            let entry = room.items.remove(i);
            room.items.insert(
                i,
                Exchange {
                    seq: entry.seq,
                    method: entry.method,
                    url: entry.url,
                    status: outcome.status,
                    mime: outcome.mime,
                    bytes: outcome.bytes,
                    at: entry.at,
                    ms: outcome.ms,
                    failed: outcome.failed,
                },
            );
            assert(room.items@ =~= finishing(had, seq, outcome));
        }
        let ghost now = room;
        rooms.insert(at, room);
        proof {
            assert(rooms@ =~= before.update(at as int, now));
            lemma_room_changed(before, at as int, now, tab@);
            assert(room_of(before, tab@).len() <= KEEP);
            assert forall|other: Seq<char>| (#[trigger] room_of(rooms@, other)).len() <= KEEP by {
                assert(room_of(before, other).len() <= KEEP);
            }
        }
        self.network = rooms;
    }

    /// Console lines for one tab, oldest first.
    pub fn console_of(&self, tab: &str) -> (r: Vec<Line>)
        ensures
            r@ == self.console(tab@),
            r@.len() <= KEEP,
    {
        proof {
            use_type_invariant(self);
            assert(room_of(self.console@, tab@).len() <= KEEP);
        }
        match find_room(&self.console, tab) {
            Some(at) => {
                let items = &self.console[at].items;
                let mut out: Vec<Line> = Vec::new();
                let mut i: usize = 0;
                while i < items.len()
                    invariant
                        i <= items.len(),
                        out@ == items@.take(i as int),
                    decreases items.len() - i,
                {
                    out.push(items[i].clone());
                    i += 1;
                    assert(out@ =~= items@.take(i as int));
                }
                assert(items@.take(i as int) =~= items@);
                out
            },
            None => Vec::new(),
        }
    }

    /// Requests of one tab, oldest first.
    pub fn network_of(&self, tab: &str) -> (r: Vec<Exchange>)
        ensures
            r@ == self.network(tab@),
            r@.len() <= KEEP,
    {
        proof {
            use_type_invariant(self);
            assert(room_of(self.network@, tab@).len() <= KEEP);
        }
        match find_room(&self.network, tab) {
            Some(at) => {
                let items = &self.network[at].items;
                let mut out: Vec<Exchange> = Vec::new();
                let mut i: usize = 0;
                while i < items.len()
                    invariant
                        i <= items.len(),
                        out@ == items@.take(i as int),
                    decreases items.len() - i,
                {
                    out.push(items[i].clone());
                    i += 1;
                    assert(out@ =~= items@.take(i as int));
                }
                assert(items@.take(i as int) =~= items@);
                out
            },
            None => Vec::new(),
        }
    }

    /// Forget one tab's console, leaving its network log alone.
    pub fn clear_console(&mut self, tab: &str)
        ensures
            forall|other: Seq<char>| #[trigger]
                final(self).console(other) == if other == tab@ {
                    Seq::<Line>::empty()
                } else {
                    old(self).console(other)
                },
            forall|other: Seq<char>| #[trigger]
                final(self).network(other) == old(self).network(other),
            final(self).is_bounded(),
    {
        proof {
            use_type_invariant(&*self);
            lemma_no_rooms(Seq::<Room<Line>>::empty());
        }
        let ghost before = self.console@;
        let mut rooms: Vec<Room<Line>> = Vec::new();
        std::mem::swap(&mut rooms, &mut self.console);
        forget(&mut rooms, tab);
        assert forall|other: Seq<char>| (#[trigger] room_of(rooms@, other)).len() <= KEEP by {
            assert(room_of(before, other).len() <= KEEP);
        }
        self.console = rooms;
    }

    /// Forget one tab's network log, leaving its console alone.
    pub fn clear_network(&mut self, tab: &str)
        ensures
            forall|other: Seq<char>| #[trigger]
                final(self).network(other) == if other == tab@ {
                    Seq::<Exchange>::empty()
                } else {
                    old(self).network(other)
                },
            forall|other: Seq<char>| #[trigger]
                final(self).console(other) == old(self).console(other),
            final(self).is_bounded(),
    {
        proof {
            use_type_invariant(&*self);
            lemma_no_rooms(Seq::<Room<Exchange>>::empty());
        }
        let ghost before = self.network@;
        let mut rooms: Vec<Room<Exchange>> = Vec::new();
        std::mem::swap(&mut rooms, &mut self.network);
        forget(&mut rooms, tab);
        assert forall|other: Seq<char>| (#[trigger] room_of(rooms@, other)).len() <= KEEP by {
            assert(room_of(before, other).len() <= KEEP);
        }
        self.network = rooms;
    }

    /// Throw away what has been collected: one tab's worth, or all of it.
    pub fn clear(&mut self, tab: Option<&str>)
        ensures
            forall|other: Seq<char>| #[trigger]
                final(self).console(other) == if tab is None || (tab matches Some(one) && other
                    == one@) {
                    Seq::<Line>::empty()
                } else {
                    old(self).console(other)
                },
            forall|other: Seq<char>| #[trigger]
                final(self).network(other) == if tab is None || (tab matches Some(one) && other
                    == one@) {
                    Seq::<Exchange>::empty()
                } else {
                    old(self).network(other)
                },
            final(self).is_bounded(),
    {
        match tab {
            Some(tab) => {
                self.clear_console(tab);
                self.clear_network(tab);
            },
            None => {
                let console: Vec<Room<Line>> = Vec::new();
                let network: Vec<Room<Exchange>> = Vec::new();
                proof {
                    use_type_invariant(&*self);
                    lemma_no_rooms(console@);
                    lemma_no_rooms(network@);
                }
                self.console = console;
                self.network = network;
            },
        }
    }
}

// ---------------------------------------------------------------------------
// Dates
// ---------------------------------------------------------------------------

/// Whether a year has a leap day.
pub open spec fn is_leap(year: int) -> bool {
    year % 4 == 0 && (year % 100 != 0 || year % 400 == 0)
}

/// How many days a year has.
pub open spec fn year_length(year: int) -> int {
    if is_leap(year) {
        366
    } else {
        365
    }
}

/// How many days a month has.
pub open spec fn month_length(year: int, month: int) -> int {
    if month == 2 {
        if is_leap(year) {
            29
        } else {
            28
        }
    } else if month == 4 || month == 6 || month == 9 || month == 11 {
        30
    } else {
        31
    }
}

/// How many days lie between the start of 1970 and the start of a year.
pub open spec fn year_start(year: int) -> int {
    365 * (year - 1) + (year - 1) / 4 - (year - 1) / 100 + (year - 1) / 400 - 719_162
}

/// How many days of a year lie before a month.
pub open spec fn month_start(year: int, month: int) -> int
    decreases month,
{
    if month <= 1 {
        0
    } else {
        month_start(year, month - 1) + month_length(year, month - 1)
    }
}

/// How many days lie between the start of 1970 and a date.
pub open spec fn day_number(year: int, month: int, day: int) -> int {
    year_start(year) + month_start(year, month) + day - 1
}

/// Whether there is such a date.
pub open spec fn is_date(year: int, month: int, day: int) -> bool {
    1 <= month <= 12 && 1 <= day <= month_length(year, month)
}

proof fn lemma_step(n: int, d: int)
    requires
        d == 4 || d == 100 || d == 400,
    ensures
        n / d == (n - 1) / d + if n % d == 0 {
            1int
        } else {
            0
        },
{
    if d == 4 {
        assert(n / 4 == (n - 1) / 4 + if n % 4 == 0 { 1int } else { 0 });
    } else if d == 100 {
        assert(n / 100 == (n - 1) / 100 + if n % 100 == 0 { 1int } else { 0 });
    } else {
        assert(n / 400 == (n - 1) / 400 + if n % 400 == 0 { 1int } else { 0 });
    }
}

proof fn lemma_year_start(year: int)
    ensures
        year_start(year + 1) == year_start(year) + year_length(year),
        year_start(1970) == 0,
{
    lemma_step(year, 4);
    lemma_step(year, 100);
    lemma_step(year, 400);
    assert(year % 400 == 0 ==> year % 100 == 0);
    assert(year % 100 == 0 ==> year % 4 == 0);
}

proof fn lemma_era(year: int, eras: int)
    ensures
        year_start(year + 400 * eras) == year_start(year) + 146_097 * eras,
        forall|y: int| #[trigger] is_leap(y + 400 * eras) == is_leap(y),
{
    let y = year - 1;
    vstd::arithmetic::div_mod::lemma_hoist_over_denominator(y, 100 * eras, 4);
    vstd::arithmetic::div_mod::lemma_hoist_over_denominator(y, 4 * eras, 100);
    vstd::arithmetic::div_mod::lemma_hoist_over_denominator(y, eras, 400);
    assert forall|y: int| #[trigger] is_leap(y + 400 * eras) == is_leap(y) by {
        vstd::arithmetic::div_mod::lemma_mod_multiples_vanish(100 * eras, y, 4);
        vstd::arithmetic::div_mod::lemma_mod_multiples_vanish(4 * eras, y, 100);
        vstd::arithmetic::div_mod::lemma_mod_multiples_vanish(eras, y, 400);
    }
}

proof fn lemma_year_total(year: int)
    ensures
        month_start(year, 13) == year_length(year),
{
    reveal_with_fuel(month_start, 13);
}

/// A year passes into the next at the end of December.
pub proof fn law_years_follow(year: int)
    ensures
        day_number(year + 1, 1, 1) == day_number(year, 12, 31) + 1,
        day_number(1970, 1, 1) == 0,
{
    lemma_year_start(year);
    lemma_year_total(year);
    assert(month_start(year, 13) == month_start(year, 12) + month_length(year, 12));
    assert(month_start(year + 1, 1) == 0);
    assert(month_start(1970, 1) == 0);
}

/// A day of a month passes into the next, and the last day of a month into the
/// first of the month after it.
pub proof fn law_days_follow(year: int, month: int, day: int)
    requires
        is_date(year, month, day),
    ensures
        day < month_length(year, month) ==> is_date(year, month, day + 1) && day_number(
            year,
            month,
            day + 1,
        ) == day_number(year, month, day) + 1,
        day == month_length(year, month) && month < 12 ==> is_date(year, month + 1, 1)
            && day_number(year, month + 1, 1) == day_number(year, month, day) + 1,
{
    assert(month_start(year, month + 1) == month_start(year, month) + month_length(year, month));
}

proof fn lemma_months_grow(year: int, a: int, b: int)
    requires
        1 <= a <= b <= 13,
    ensures
        month_start(year, a) <= month_start(year, b),
        a < b ==> month_start(year, a) + month_length(year, a) <= month_start(year, b),
    decreases b - a,
{
    if a < b {
        lemma_months_grow(year, a, b - 1);
    }
}

proof fn lemma_years_grow(a: int, b: int)
    requires
        a < b,
    ensures
        year_start(a) + year_length(a) <= year_start(b),
    decreases b - a,
{
    lemma_year_start(b - 1);
    if a < b - 1 {
        lemma_years_grow(a, b - 1);
    }
}

proof fn lemma_day_in_year(year: int, month: int, day: int)
    requires
        is_date(year, month, day),
    ensures
        year_start(year) <= day_number(year, month, day) < year_start(year) + year_length(year),
{
    lemma_months_grow(year, 1, month);
    lemma_months_grow(year, month, 13);
    lemma_year_total(year);
}

/// A day is one date and no other.
pub proof fn law_date_is_unique(a: (int, int, int), b: (int, int, int))
    requires
        is_date(a.0, a.1, a.2),
        is_date(b.0, b.1, b.2),
        day_number(a.0, a.1, a.2) == day_number(b.0, b.1, b.2),
    ensures
        a == b,
{
    lemma_day_in_year(a.0, a.1, a.2);
    lemma_day_in_year(b.0, b.1, b.2);
    if a.0 < b.0 {
        lemma_years_grow(a.0, b.0);
    } else if b.0 < a.0 {
        lemma_years_grow(b.0, a.0);
    } else if a.1 < b.1 {
        lemma_months_grow(a.0, a.1, b.1);
    } else if b.1 < a.1 {
        lemma_months_grow(a.0, b.1, a.1);
    }
}

fn leap(year: u64) -> (r: bool)
    ensures
        r == is_leap(year as int),
{
    year % 4 == 0 && (year % 100 != 0 || year % 400 == 0)
}

fn days_in(year: u64) -> (r: u64)
    ensures
        r == year_length(year as int),
{
    if leap(year) {
        366
    } else {
        365
    }
}

/// The date so many days after the start of 1970, or before it.
pub fn civil_from_days(days: i64) -> (r: (i64, u32, u32))
    ensures
        is_date(r.0 as int, r.1 as int, r.2 as int),
        day_number(r.0 as int, r.1 as int, r.2 as int) == days,
{
    // The calendar repeats after four hundred years, to the day.
    let eras: i64;
    let mut rest: u64;
    if days >= 0 {
        let since: u64 = days as u64;
        eras = (since / 146_097) as i64;
        rest = since % 146_097;
    } else {
        let until: u64 = (-(days + 1)) as u64;
        eras = -((until / 146_097) as i64) - 1;
        rest = 146_096 - until % 146_097;
    }
    let ghost over = rest as int;
    assert(days == 146_097 * eras + over);
    let mut year: u64 = 1970;
    proof {
        lemma_year_start(1970);
        lemma_era(2370 - 400, 1);
    }
    while rest >= days_in(year)
        invariant
            1970 <= year <= 2370,
            rest < 146_097,
            over < 146_097,
            year_start(year as int) + rest == over,
            year_start(2370) == 146_097,
        decreases rest,
    {
        proof {
            lemma_year_start(year as int);
            if year >= 2370 {
                assert(false);
            }
        }
        rest = rest - days_in(year);
        year += 1;
    }
    let full: i64 = year as i64 + 400 * eras;
    proof {
        lemma_era(year as int, eras as int);
        assert(is_leap(year + 400 * eras) == is_leap(year as int));
        assert(is_leap(full as int) == is_leap(year as int));
        assert(year_start(full as int) + rest == days);
        lemma_year_total(full as int);
    }
    let mut month: u32 = 1;
    assert(month_start(full as int, 1) == 0);
    loop
        invariant_except_break
            1 <= month <= 12,
            is_leap(full as int) == is_leap(year as int),
            year_start(full as int) + month_start(full as int, month as int) + rest == days,
            month_start(full as int, month as int) + rest < month_start(full as int, 13),
        ensures
            1 <= month <= 12,
            year_start(full as int) + month_start(full as int, month as int) + rest == days,
            rest < month_length(full as int, month as int),
        decreases 13 - month,
    {
        let length: u64 = if month == 2 {
            if leap(year) {
                29
            } else {
                28
            }
        } else if month == 4 || month == 6 || month == 9 || month == 11 {
            30
        } else {
            31
        };
        assert(length == month_length(full as int, month as int));
        assert(month_start(full as int, month + 1) == month_start(full as int, month as int)
            + length);
        if rest < length {
            break;
        }
        rest = rest - length;
        month += 1;
    }
    (full, month, rest as u32 + 1)
}

/// The date so many days after the start of 1970. There is exactly one: see
/// [`law_date_is_unique`].
pub open spec fn date_of(days: int) -> (int, int, int) {
    choose|date: (int, int, int)|
        is_date(date.0, date.1, date.2) && #[trigger] day_number(date.0, date.1, date.2) == days
}

/// The moment so many milliseconds after the start of 1970, the way ISO 8601
/// writes it.
pub open spec fn moment(ms: u64) -> Seq<char> {
    let (year, month, day) = date_of(ms as int / 1000 / 86_400);
    let rest = ms as nat / 1000 % 86_400;
    number::padded(year as nat, 4) + "-"@ + number::padded(month as nat, 2) + "-"@
        + number::padded(day as nat, 2) + "T"@ + number::padded(rest / 3600, 2) + ":"@
        + number::padded(rest % 3600 / 60, 2) + ":"@ + number::padded(rest % 60, 2) + "."@
        + number::padded(ms as nat % 1000, 3) + "Z"@
}

/// Unix milliseconds as ISO 8601.
pub fn iso8601(ms: u64) -> (r: String)
    ensures
        r@ == moment(ms),
{
    let secs: u64 = ms / 1000;
    let rest: u64 = secs % 86_400;
    let days: i64 = (secs / 86_400) as i64;
    let (year, month, day) = civil_from_days(days);
    proof {
        lemma_day_in_year(year as int, month as int, day as int);
        lemma_year_start(1970);
        if year < 1970 {
            lemma_years_grow(year as int, 1970);
        }
    }
    let mut out = number::to_padded(year as u64, 4);
    out.append("-");
    out.append(number::to_padded(month as u64, 2).as_str());
    out.append("-");
    out.append(number::to_padded(day as u64, 2).as_str());
    out.append("T");
    out.append(number::to_padded(rest / 3600, 2).as_str());
    out.append(":");
    out.append(number::to_padded(rest % 3600 / 60, 2).as_str());
    out.append(":");
    out.append(number::to_padded(rest % 60, 2).as_str());
    out.append(".");
    out.append(number::to_padded(ms % 1000, 3).as_str());
    out.append("Z");
    proof {
        let date = date_of(ms as int / 1000 / 86_400);
        assert(day_number(year as int, month as int, day as int) == ms as int / 1000 / 86_400);
        law_date_is_unique(
            (year as int, month as int, day as int),
            date,
        );
    }
    out
}

// ---------------------------------------------------------------------------
// HAR
// ---------------------------------------------------------------------------

/// One request, as a HAR log writes it.
pub open spec fn entry_text(e: Exchange) -> Seq<char> {
    "{\"startedDateTime\":"@ + json::quoted(moment(e.at)) + ",\"time\":"@ + number::decimal(
        e.ms as nat,
    ) + ",\"request\":{\"method\":"@ + json::quoted(e.method@) + ",\"url\":"@ + json::quoted(e.url@)
        + ",\"httpVersion\":\"\",\"cookies\":[],\"headers\":[],\"queryString\":[],\"headersSize\":-1,\"bodySize\":-1},\"response\":{\"status\":"@
        + number::decimal(e.status as nat)
        + ",\"statusText\":\"\",\"httpVersion\":\"\",\"cookies\":[],\"headers\":[],\"content\":{\"size\":"@
        + number::decimal(e.bytes as nat) + ",\"mimeType\":"@ + json::quoted(e.mime@)
        + "},\"redirectURL\":\"\",\"headersSize\":-1,\"bodySize\":"@ + number::decimal(
        e.bytes as nat,
    ) + "},\"cache\":{},\"timings\":{\"send\":0,\"wait\":"@ + number::decimal(e.ms as nat)
        + ",\"receive\":0}}"@
}

/// A HAR log of a tab's requests.
pub open spec fn har_text(url: Seq<char>, all: Seq<Exchange>, version: Seq<char>) -> Seq<char> {
    let since = if all.len() > 0 {
        all[0].at
    } else {
        0
    };
    "{\"log\":{\"version\":\"1.2\",\"creator\":{\"name\":\"oma-browse\",\"version\":"@
        + json::quoted(version) + "},\"pages\":[{\"startedDateTime\":"@ + json::quoted(
        moment(since),
    ) + ",\"id\":\"page_1\",\"title\":"@ + json::quoted(url) + ",\"pageTimings\":{}}],\"entries\":["@
        + text::joined(all.map_values(|e: Exchange| entry_text(e)), ","@) + "]}}"@
}

fn entry(e: &Exchange) -> (r: String)
    ensures
        r@ == entry_text(*e),
{
    let mut out = "{\"startedDateTime\":".to_owned();
    out.append(json::quote(iso8601(e.at).as_str()).as_str());
    out.append(",\"time\":");
    out.append(number::to_decimal(e.ms).as_str());
    out.append(",\"request\":{\"method\":");
    out.append(json::quote(e.method.as_str()).as_str());
    out.append(",\"url\":");
    out.append(json::quote(e.url.as_str()).as_str());
    out.append(
        ",\"httpVersion\":\"\",\"cookies\":[],\"headers\":[],\"queryString\":[],\"headersSize\":-1,\"bodySize\":-1},\"response\":{\"status\":",
    );
    out.append(number::to_decimal(e.status as u64).as_str());
    out.append(
        ",\"statusText\":\"\",\"httpVersion\":\"\",\"cookies\":[],\"headers\":[],\"content\":{\"size\":",
    );
    out.append(number::to_decimal(e.bytes).as_str());
    out.append(",\"mimeType\":");
    out.append(json::quote(e.mime.as_str()).as_str());
    out.append("},\"redirectURL\":\"\",\"headersSize\":-1,\"bodySize\":");
    out.append(number::to_decimal(e.bytes).as_str());
    out.append("},\"cache\":{},\"timings\":{\"send\":0,\"wait\":");
    out.append(number::to_decimal(e.ms).as_str());
    out.append(",\"receive\":0}}");
    out
}

/// A HAR 1.2 log, for anything that already reads one, as JSON text. `version`
/// is this browser's own.
///
/// Deliberately partial and honestly so: the engine gives a URL, a method, a
/// status, a mime type and a size, and nothing at all about headers,
/// timings-within-the-request or bodies. A HAR with invented values in those
/// fields would be worse than one with empty ones, so they are empty.
pub fn har(url: &str, exchanges: &[Exchange], version: &str) -> (r: String)
    ensures
        r@ == har_text(url@, exchanges@, version@),
{
    let ghost texts = exchanges@.map_values(|e: Exchange| entry_text(e));
    let mut entries: Vec<String> = Vec::new();
    let mut i: usize = 0;
    assert(text::texts(entries@) =~= texts.take(0));
    while i < exchanges.len()
        invariant
            i <= exchanges.len(),
            texts == exchanges@.map_values(|e: Exchange| entry_text(e)),
            text::texts(entries@) == texts.take(i as int),
        decreases exchanges.len() - i,
    {
        let ghost before = entries@;
        entries.push(entry(&exchanges[i]));
        assert(text::texts(entries@) =~= text::texts(before).push(texts[i as int]));
        assert(texts.take(i + 1) =~= texts.take(i as int).push(texts[i as int]));
        i += 1;
    }
    assert(texts.take(i as int) =~= texts);
    let since: u64 = if exchanges.len() > 0 {
        exchanges[0].at
    } else {
        0
    };
    let mut out =
        "{\"log\":{\"version\":\"1.2\",\"creator\":{\"name\":\"oma-browse\",\"version\":".to_owned();
    out.append(json::quote(version).as_str());
    out.append("},\"pages\":[{\"startedDateTime\":");
    out.append(json::quote(iso8601(since).as_str()).as_str());
    out.append(",\"id\":\"page_1\",\"title\":");
    out.append(json::quote(url).as_str());
    out.append(",\"pageTimings\":{}}],\"entries\":[");
    out.append(text::join(&entries, ",").as_str());
    out.append("]}}");
    out
}

// ---------------------------------------------------------------------------
// Laws
// ---------------------------------------------------------------------------

/// Every level survives a trip through its name.
pub proof fn law_level_round_trip(level: Level)
    ensures
        level_of(level_name(level)) == Some(level),
{
    reveal_strlit("debug");
    reveal_strlit("verbose");
    reveal_strlit("log");
    reveal_strlit("info");
    reveal_strlit("warn");
    reveal_strlit("warning");
    reveal_strlit("error");
    reveal_strlit("err");
    let name = level_name(level);
    match level {
        Level::Debug => {
            assert(name =~= seq!['d', 'e', 'b', 'u', 'g']);
        },
        Level::Log => {
            assert(name =~= seq!['l', 'o', 'g']);
        },
        Level::Info => {
            assert(name =~= seq!['i', 'n', 'f', 'o']);
        },
        Level::Warn => {
            assert(name =~= seq!['w', 'a', 'r', 'n']);
        },
        Level::Error => {
            assert(name =~= seq!['e', 'r', 'r', 'o', 'r']);
        },
    }
    let space = |c: char| text::is_space(c);
    assert(!space(name[0]));
    assert(!space(name[name.len() - 1]));
    text::lemma_trim_start(name, space, 0);
    assert(name.skip(0) =~= name);
    text::lemma_trim_end(name, space, name.len() as int);
    assert(name.take(name.len() as int) =~= name);
    assert(text::lowered(name) =~= name);
}

/// A ring never grows past its cap, the newest item is always in it, and once it
/// is full it is the oldest that goes.
pub proof fn law_ring_forgets_the_oldest<T>(items: Seq<T>, item: T)
    requires
        items.len() <= KEEP,
    ensures
        ringed(items, item).len() <= KEEP,
        ringed(items, item).last() == item,
        items.len() == KEEP ==> ringed(items, item) == items.drop_first().push(item),
        items.len() < KEEP ==> ringed(items, item) == items.push(item),
{
    if items.len() == KEEP {
        assert(items.skip(1) =~= items.drop_first());
    }
}

/// Ending a request changes that request in place: there are as many as before,
/// and those with other numbers are as they were.
pub proof fn law_finished_in_place(all: Seq<Exchange>, seq: u64, outcome: Outcome)
    ensures
        finishing(all, seq, outcome).len() == all.len(),
        forall|i: int|
            0 <= i < all.len() && all[i].seq != seq ==> #[trigger] finishing(all, seq, outcome)[i]
                == all[i],
{
    list::lemma_first_where_is_first(all, |e: Exchange| e.seq == seq);
}

/// The words a level goes by, and no others.
pub proof fn law_levels_go_by_the_word(word: Seq<char>)
    ensures
        level_meant(word) == Some(Level::Debug) <==> word == "debug"@ || word == "verbose"@,
        level_meant(word) == Some(Level::Log) <==> word == "log"@,
        level_meant(word) == Some(Level::Info) <==> word == "info"@,
        level_meant(word) == Some(Level::Warn) <==> word == "warn"@ || word == "warning"@,
        level_meant(word) == Some(Level::Error) <==> word == "error"@ || word == "err"@,
{
    reveal_strlit("debug");
    reveal_strlit("verbose");
    reveal_strlit("log");
    reveal_strlit("info");
    reveal_strlit("warn");
    reveal_strlit("warning");
    reveal_strlit("error");
    reveal_strlit("err");
    assert("debug"@.len() == 5);
    assert("verbose"@.len() == 7);
    assert("log"@.len() == 3);
    assert("info"@.len() == 4);
    assert("warn"@.len() == 4);
    assert("warning"@.len() == 7);
    assert("error"@.len() == 5);
    assert("err"@.len() == 3);
    assert("debug"@[0] == 'd');
    assert("error"@[0] == 'e');
    assert("verbose"@[0] == 'v');
    assert("warning"@[0] == 'w');
    assert("log"@[0] == 'l');
    assert("err"@[0] == 'e');
    assert("info"@[0] == 'i');
    assert("warn"@[0] == 'w');
}

/// Each level is louder than the one before: debugging, ordinary lines, information,
/// warnings, errors.
pub proof fn law_levels_get_louder()
    ensures
        loudness(Level::Debug) < loudness(Level::Log),
        loudness(Level::Log) < loudness(Level::Info),
        loudness(Level::Info) < loudness(Level::Warn),
        loudness(Level::Warn) < loudness(Level::Error),
{
}

/// A request that has ended carries how it ended, and is the request it was.
pub proof fn law_ending_keeps_the_request(e: Exchange, outcome: Outcome)
    ensures
        ({
            let after = completed(e, outcome);
            &&& after.seq == e.seq && after.at == e.at && after.url == e.url && after.method
                == e.method
            &&& after.status == outcome.status && after.bytes == outcome.bytes && after.ms
                == outcome.ms
            &&& after.mime == outcome.mime && after.failed == outcome.failed
        }),
{
}

/// However much is said at once, what is kept is the end of all that was said, in order.
pub proof fn law_last_said_is_kept<T>(items: Seq<T>, more: Seq<T>)
    requires
        items.len() <= KEEP,
    ensures
        ringed_all(items, more).len() == if items.len() + more.len() <= KEEP {
            items.len() + more.len()
        } else {
            KEEP as nat
        },
        ringed_all(items, more).is_suffix_of(items + more),
    decreases more.len(),
{
    let all = items + more;
    if more.len() == 0 {
        assert(all =~= items);
        assert(all.skip(0) =~= all);
    } else {
        let front = more.drop_last();
        law_last_said_is_kept(items, front);
        let before = ringed_all(items, front);
        let after = ringed_all(items, more);
        let shorter = items + front;
        assert(before =~= shorter.subrange(shorter.len() - before.len(), shorter.len() as int));
        assert forall|i: int| 0 <= i < after.len() implies after[i] == #[trigger] all[all.len()
            - after.len() + i] by {
            if i < after.len() - 1 {
                let k = i + before.len() - (after.len() - 1);
                assert(after[i] == before[k]);
                assert(before[k] == shorter[shorter.len() - before.len() + k]);
            }
        }
        assert(after =~= all.subrange(all.len() - after.len(), all.len() as int));
    }
}

/// The date of a day is the date that the day was counted from.
pub proof fn law_date_counts_back(year: int, month: int, day: int)
    requires
        is_date(year, month, day),
    ensures
        date_of(day_number(year, month, day)) == (year, month, day),
{
    let date = (year, month, day);
    assert(is_date(date.0, date.1, date.2) && day_number(date.0, date.1, date.2) == day_number(
        year,
        month,
        day,
    ));
    let found = date_of(day_number(year, month, day));
    law_date_is_unique(found, date);
}

/// A line keeps the time that the page gave it, and has the time of its hearing where the
/// page gave none. A level with no name of its own counts as plain talk.
pub proof fn law_line_keeps_its_time(line: Line, said: Said, seq: u64, now: u64)
    requires
        is_line_of(line, said, seq, now),
    ensures
        line.seq == seq,
        line.text == said.text,
        line.source == said.source,
        said.at > 0 ==> line.at == said.at,
        said.at == 0 ==> line.at == now,
        level_of(said.level@) matches Some(level) ==> line.level == level,
        level_of(said.level@) is None ==> line.level == Level::Log,
{
}

} // verus!
