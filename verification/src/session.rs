//! The tabs that were open last time.
//!
//! It is one file of addresses, rewritten whenever the tab list changes, and
//! read back on request. Never written by an incognito window: that is the whole
//! promise of the flag.

use vstd::prelude::*;

use crate::list;
use crate::number;
use crate::pathname;
use crate::table;
use crate::text;

verus! {

/// Enough to reopen a morning's work; past this it is an archive, and history
/// already is one.
pub const CAP: usize = 100;

pub fn path(state_dir: &str) -> (r: String)
    ensures
        r@ == pathname::under(state_dir@, "session"@),
{
    pathname::join(state_dir, "session")
}

pub fn lock_path(state_dir: &str) -> (r: String)
    ensures
        r@ == pathname::under(state_dir@, "session.lock"@),
{
    pathname::join(state_dir, "session.lock")
}

/// The process that holds the session file, if another than this one is written
/// in the lock.
pub open spec fn other_holder(raw: Option<Seq<char>>, mine: u32) -> Option<u32> {
    match raw {
        Some(raw) => match number::unsigned(text::trimmed(raw), u32::MAX as nat) {
            Some(held) => if held != mine {
                Some(held as u32)
            } else {
                None
            },
            None => None,
        },
        None => None,
    }
}

/// Who the lock says holds the session file, when that is not this process.
/// Whether they still run is for whoever asks to find out.
pub fn holder(raw: Option<&str>, mine: u32) -> (r: Option<u32>)
    ensures
        r == other_holder(
            match raw {
                Some(raw) => Some(raw@),
                None => None,
            },
            mine,
        ),
{
    match raw {
        Some(raw) => match number::parse_u32(text::trim(raw).as_str()) {
            Some(held) => if held != mine {
                Some(held)
            } else {
                None
            },
            None => None,
        },
        None => None,
    }
}

/// What to write into the lock to take the session file, or nothing if it is
/// another's.
///
/// Every launch is its own process with its own tabs, and they share one state
/// directory. First one up owns the file; the rest still read it.
pub fn claim(raw: Option<&str>, mine: u32, holder_runs: bool) -> (r: Option<String>)
    ensures
        match r {
            Some(body) => {
                &&& body@ == number::decimal(mine as nat)
                &&& !holder_runs || other_holder(
                    match raw {
                        Some(raw) => Some(raw@),
                        None => None,
                    },
                    mine,
                ) is None
            },
            None => holder_runs && other_holder(
                match raw {
                    Some(raw) => Some(raw@),
                    None => None,
                },
                mine,
            ) is Some,
        },
{
    if holder_runs && holder(raw, mine).is_some() {
        return None;
    }
    Some(number::to_decimal(mine as u64))
}

/// What is worth reopening. The start page is where a browser goes when it has
/// nowhere else to be, so restoring it would turn one blank tab into two.
pub open spec fn is_worth(url: Seq<char>, base: Option<Seq<char>>) -> bool {
    &&& url.len() > 0
    &&& url != "about:blank"@
    &&& match base {
        Some(base) => !text::has_prefix(url, base),
        None => !text::has_prefix(url, "http://127.0.0.1:"@) && !text::has_prefix(
            url,
            "http://localhost:"@,
        ),
    }
}

/// What is worth reopening. Before the control plane's address is known, the
/// shape of it stands in: a user's own loopback page is a rare thing to lose,
/// and ours is a certain thing to duplicate.
pub fn worth_keeping(url: &str, base: Option<&str>) -> (r: bool)
    ensures
        r == is_worth(
            url@,
            match base {
                Some(base) => Some(base@),
                None => None,
            },
        ),
{
    if url.is_empty() || text::same(url, "about:blank") {
        return false;
    }
    match base {
        Some(base) => !text::starts_with(url, base),
        None => !text::starts_with(url, "http://127.0.0.1:") && !text::starts_with(
            url,
            "http://localhost:",
        ),
    }
}

/// The addresses a session is made of.
pub open spec fn recorded(urls: Seq<Seq<char>>, base: Option<Seq<char>>) -> Seq<Seq<char>> {
    list::at_most(list::kept(urls, |url: Seq<char>| is_worth(url, base)), CAP as nat)
}

/// What to write into the session file. An empty tab list is still a session:
/// closing everything and restarting should not bring back yesterday.
pub fn record(incognito: bool, urls: &[String], base: Option<&str>) -> (r: Option<String>)
    ensures
        match r {
            Some(body) => !incognito && body@ == text::joined(
                recorded(
                    text::texts(urls@),
                    match base {
                        Some(base) => Some(base@),
                        None => None,
                    },
                ),
                "\n"@,
            ),
            None => incognito,
        },
{
    if incognito {
        return None;
    }
    let ghost all = text::texts(urls@);
    let ghost base_view = match base {
        Some(base) => Some(base@),
        None => None,
    };
    let ghost keep = |url: Seq<char>| is_worth(url, base_view);
    let mut out: Vec<String> = Vec::new();
    let mut i: usize = 0;
    assert(all.take(0) =~= Seq::empty());
    assert(text::texts(out@) =~= Seq::empty());
    while i < urls.len()
        invariant
            i <= urls.len(),
            all == text::texts(urls@),
            base_view == match base {
                Some(base) => Some(base@),
                None => None,
            },
            keep == (|url: Seq<char>| is_worth(url, base_view)),
            out.len() <= CAP,
            text::texts(out@) == list::at_most(list::kept(all.take(i as int), keep), CAP as nat),
        decreases urls.len() - i,
    {
        assert(all.take(i + 1).drop_last() =~= all.take(i as int));
        assert(all[i as int] == urls@[i as int]@);
        assert(text::texts(out@).len() == out@.len());
        let ghost front = list::kept(all.take(i as int), keep);
        if worth_keeping(urls[i].as_str(), base) {
            assert(list::kept(all.take(i + 1), keep) == front.push(urls@[i as int]@));
            if out.len() < CAP {
                let ghost before = out@;
                out.push(urls[i].clone());
                assert(text::texts(out@) =~= text::texts(before).push(urls@[i as int]@));
            } else {
                assert(front.push(urls@[i as int]@).take(CAP as int) =~= list::at_most(
                    front,
                    CAP as nat,
                ));
            }
        }
        i += 1;
    }
    assert(all.take(i as int) =~= all);
    Some(text::join(&out, "\n"))
}

/// What a line of the session file says.
pub open spec fn line_of(line: Seq<char>) -> Option<Seq<char>> {
    if text::trimmed(line).len() > 0 {
        Some(text::trimmed(line))
    } else {
        None
    }
}

/// The addresses a session file holds, oldest tab first.
pub open spec fn remembered(raw: Seq<char>) -> Seq<Seq<char>> {
    list::collected(text::lines(raw), |line: Seq<char>| line_of(line))
}

/// Read a session file, if there is one.
pub fn read(raw: Option<&str>) -> (r: Vec<String>)
    ensures
        text::texts(r@) == match raw {
            Some(raw) => remembered(raw@),
            None => Seq::empty(),
        },
{
    let mut out: Vec<String> = Vec::new();
    assert(text::texts(out@) =~= Seq::empty());
    let raw = match raw {
        Some(raw) => raw,
        None => return out,
    };
    let lines = text::split_lines(raw);
    let ghost all = text::texts(lines@);
    let ghost told = |line: Seq<char>| line_of(line);
    let mut i: usize = 0;
    assert(all.take(0) =~= Seq::empty());
    while i < lines.len()
        invariant
            i <= lines.len(),
            all == text::texts(lines@),
            told == (|line: Seq<char>| line_of(line)),
            text::texts(out@) == list::collected(all.take(i as int), told),
        decreases lines.len() - i,
    {
        assert(all.take(i + 1).drop_last() =~= all.take(i as int));
        assert(all[i as int] == lines@[i as int]@);
        let line = text::trim(lines[i].as_str());
        if !line.as_str().is_empty() {
            let ghost before = out@;
            let ghost said = line@;
            out.push(line);
            assert(text::texts(out@) =~= text::texts(before).push(said));
        }
        i += 1;
    }
    assert(all.take(i as int) =~= all);
    out
}

/// The session as it was when this process started.
///
/// Kept rather than read again: before long the file holds *this* window's tabs,
/// and the restart that should restore the session would be the thing that
/// destroys it.
pub struct Previous {
    urls: Option<Vec<String>>,
}

impl View for Previous {
    type V = Option<Seq<Seq<char>>>;

    closed spec fn view(&self) -> Option<Seq<Seq<char>>> {
        match self.urls {
            Some(urls) => Some(text::texts(urls@)),
            None => None,
        }
    }
}

impl Previous {
    pub fn new() -> (r: Previous)
        ensures
            r@ is None,
    {
        Previous { urls: None }
    }

    /// Remember the session before anything can overwrite it. Only the first
    /// call counts.
    pub fn init(&mut self, read: Vec<String>)
        ensures
            final(self)@ == match old(self)@ {
                Some(urls) => Some(urls),
                None => Some(text::texts(read@)),
            },
    {
        if self.urls.is_none() {
            self.urls = Some(read);
        }
    }

    /// The addresses saved last time, oldest tab first: those remembered, or
    /// what the file holds now.
    pub fn saved(&self, read: Vec<String>) -> (r: Vec<String>)
        ensures
            text::texts(r@) == match self@ {
                Some(urls) => urls,
                None => text::texts(read@),
            },
    {
        match &self.urls {
            Some(urls) => text::copies(urls),
            None => read,
        }
    }
}

/// The saved addresses that are not open already.
pub open spec fn missing(saved: Seq<Seq<char>>, already: Seq<Seq<char>>) -> Seq<Seq<char>> {
    list::kept(saved, |url: Seq<char>| !already.contains(url))
}

/// What to open to bring a session back. Anything already open is skipped, so
/// running this twice is not a way to end up with two of everything.
pub fn restore(saved: &[String], already: &[String]) -> (r: Vec<String>)
    ensures
        text::texts(r@) == missing(text::texts(saved@), text::texts(already@)),
{
    let ghost all = text::texts(saved@);
    let ghost open = text::texts(already@);
    let ghost keep = |url: Seq<char>| !open.contains(url);
    let mut out: Vec<String> = Vec::new();
    let mut i: usize = 0;
    assert(all.take(0) =~= Seq::empty());
    assert(text::texts(out@) =~= Seq::empty());
    while i < saved.len()
        invariant
            i <= saved.len(),
            all == text::texts(saved@),
            open == text::texts(already@),
            keep == (|url: Seq<char>| !open.contains(url)),
            text::texts(out@) == list::kept(all.take(i as int), keep),
        decreases saved.len() - i,
    {
        assert(all.take(i + 1).drop_last() =~= all.take(i as int));
        assert(all[i as int] == saved@[i as int]@);
        if !text::any_same(already, saved[i].as_str()) {
            let ghost before = out@;
            out.push(saved[i].clone());
            assert(text::texts(out@) =~= text::texts(before).push(saved@[i as int]@));
        }
        i += 1;
    }
    assert(all.take(i as int) =~= all);
    out
}

// ---------------------------------------------------------------------------
// Laws
// ---------------------------------------------------------------------------

/// Whether an address can stand on a line of the session file.
pub open spec fn writable(url: Seq<char>) -> bool {
    url.len() > 0 && text::trimmed(url) == url && table::free_of(url, '\n')
}

proof fn lemma_trimmed_ends(s: Seq<char>)
    requires
        text::trimmed(s) == s,
        s.len() > 0,
    ensures
        s.last() != '\r',
{
    let drop = |c: char| text::is_space(c);
    let front = text::trim_start_by(s, drop);
    lemma_trim_end_stops(front, drop);
    assert(!drop(s.last()));
}

proof fn lemma_trim_end_stops(s: Seq<char>, drop: spec_fn(char) -> bool)
    ensures
        text::trim_end_by(s, drop).len() > 0 ==> !drop(text::trim_end_by(s, drop).last()),
    decreases s.len(),
{
    if s.len() > 0 && drop(s.last()) {
        lemma_trim_end_stops(s.drop_last(), drop);
    }
}

/// What is written to the session file is what is read from it.
pub proof fn law_session_reads_back(urls: Seq<Seq<char>>)
    requires
        forall|i: int| 0 <= i < urls.len() ==> writable(#[trigger] urls[i]),
    ensures
        remembered(text::joined(urls, "\n"@)) == urls,
{
    reveal_strlit("\n");
    assert("\n"@ =~= seq!['\n']);
    let raw = text::joined(urls, seq!['\n']);
    let told = |line: Seq<char>| line_of(line);
    if urls.len() == 0 {
        assert(raw =~= Seq::empty());
        assert(text::pieces(raw, '\n') =~= seq![Seq::empty()]);
        assert(text::lines(raw) =~= Seq::empty());
        assert(remembered(raw) =~= urls);
    } else {
        assert forall|i: int| 0 <= i < urls.len() implies table::free_of(
            #[trigger] urls[i],
            '\n',
        ) by {
            assert(writable(urls[i]));
        }
        table::lemma_pieces_of_joined(urls);
        let ended = urls.drop_last().map_values(|l: Seq<char>| text::line_end(l));
        assert forall|i: int| 0 <= i < ended.len() implies ended[i] == urls[i] by {
            assert(writable(urls[i]));
            lemma_trimmed_ends(urls[i]);
        }
        assert(writable(urls[urls.len() - 1]));
        assert(text::lines(raw) =~= urls);
        assert forall|i: int| 0 <= i < urls.len() implies told(#[trigger] urls[i]) == Some(
            urls[i],
        ) by {
            assert(writable(urls[i]));
        }
        list::lemma_collected_all(urls, told, urls);
    }
}

/// Once everything saved is open, there is nothing left to bring back.
pub proof fn law_restoring_twice_opens_nothing(saved: Seq<Seq<char>>, already: Seq<Seq<char>>)
    ensures
        missing(saved, already + missing(saved, already)).len() == 0,
{
    let keep = |url: Seq<char>| !already.contains(url);
    let opened = missing(saved, already);
    let now = already + opened;
    let again = |url: Seq<char>| !now.contains(url);
    list::lemma_kept(saved, keep);
    list::lemma_kept(saved, again);
    let left = missing(saved, now);
    if left.len() > 0 {
        let url = left[0];
        assert(again(url));
        assert(saved.contains(url));
        if already.contains(url) {
            let k = choose|k: int| 0 <= k < already.len() && already[k] == url;
            assert(now[k] == url);
        } else {
            assert(keep(url));
            assert(opened.contains(url));
            let k = choose|k: int| 0 <= k < opened.len() && opened[k] == url;
            assert(now[already.len() + k] == url);
        }
    }
}

/// No more than the cap is ever recorded, and nothing that is not worth it.
pub proof fn law_record_is_bounded(urls: Seq<Seq<char>>, base: Option<Seq<char>>)
    ensures
        recorded(urls, base).len() <= CAP,
        forall|i: int|
            0 <= i < recorded(urls, base).len() ==> is_worth(#[trigger] recorded(urls, base)[i], base),
{
    let keep = |url: Seq<char>| is_worth(url, base);
    let all = list::kept(urls, keep);
    list::lemma_kept(urls, keep);
    assert forall|i: int| 0 <= i < recorded(urls, base).len() implies is_worth(
        #[trigger] recorded(urls, base)[i],
        base,
    ) by {
        assert(recorded(urls, base)[i] == all[i]);
        assert(keep(all[i]));
    }
}

/// Pages that are all worth it are recorded as they stand, the first hundred of them,
/// and come back from the file in that order.
pub proof fn law_open_tabs_come_back(urls: Seq<Seq<char>>, base: Option<Seq<char>>)
    requires
        forall|i: int|
            0 <= i < urls.len() ==> is_worth(#[trigger] urls[i], base) && writable(urls[i]),
    ensures
        urls.len() <= 100 ==> remembered(text::joined(recorded(urls, base), "\n"@)) == urls,
        urls.len() > 100 ==> remembered(text::joined(recorded(urls, base), "\n"@)) == urls.take(
            100,
        ),
{
    let keep = |url: Seq<char>| is_worth(url, base);
    assert forall|i: int| 0 <= i < urls.len() implies keep(#[trigger] urls[i]) by {}
    list::lemma_kept_all(urls, keep);
    let top = recorded(urls, base);
    assert forall|i: int| 0 <= i < top.len() implies writable(#[trigger] top[i]) by {
        assert(top[i] == urls[i]);
    }
    law_session_reads_back(top);
}

/// A page that is not worth it drops out, and the others close up.
pub proof fn law_not_worth_it_drops_out(
    front: Seq<Seq<char>>,
    url: Seq<char>,
    back: Seq<Seq<char>>,
    base: Option<Seq<char>>,
)
    requires
        !is_worth(url, base),
    ensures
        recorded(front + seq![url] + back, base) == recorded(front + back, base),
{
    let keep = |u: Seq<char>| is_worth(u, base);
    list::lemma_kept_joins(front + seq![url], back, keep);
    list::lemma_kept_joins(front, seq![url], keep);
    list::lemma_kept_joins(front, back, keep);
    list::lemma_kept_one(url, keep);
    assert(list::kept(front + seq![url] + back, keep) =~= list::kept(front + back, keep));
}

/// The blank page and the browser's own are not worth it; any other page of the web
/// is, and so is somebody else's page on this machine.
pub proof fn law_own_pages_are_no_session(base: Seq<char>, rest: Seq<char>, url: Seq<char>)
    ensures
        !is_worth(Seq::empty(), Some(base)) && !is_worth(Seq::empty(), None),
        !is_worth("about:blank"@, Some(base)) && !is_worth("about:blank"@, None),
        !is_worth(base + rest, Some(base)),
        !is_worth("http://127.0.0.1:"@ + rest, None),
        !is_worth("http://localhost:"@ + rest, None),
        is_worth("https://"@ + rest, None),
        url.len() > 0 && url != "about:blank"@ && url.len() < base.len() ==> is_worth(
            url,
            Some(base),
        ),
        url.len() > 0 && url != "about:blank"@ && base.len() <= url.len() && url.take(
            base.len() as int,
        ) != base ==> is_worth(url, Some(base)),
{
    reveal_strlit("about:blank");
    reveal_strlit("http://127.0.0.1:");
    reveal_strlit("http://localhost:");
    reveal_strlit("https://");
    assert((base + rest).subrange(0, base.len() as int) =~= base);
    let a = "http://127.0.0.1:"@;
    let b = "http://localhost:"@;
    assert((a + rest).subrange(0, a.len() as int) =~= a);
    assert((b + rest).subrange(0, b.len() as int) =~= b);
    let secure = "https://"@ + rest;
    assert(secure[0] == 'h' && secure[4] == 's');
    assert(a[4] == ':' && b[4] == ':');
    assert("about:blank"@[0] == 'a');
    if text::has_prefix(secure, a) {
        assert(secure.subrange(0, a.len() as int)[4] == 's');
    }
    if text::has_prefix(secure, b) {
        assert(secure.subrange(0, b.len() as int)[4] == 's');
    }
    if base.len() <= url.len() {
        assert(url.take(base.len() as int) =~= url.subrange(0, base.len() as int));
    }
}

/// Bringing a session back opens what was saved and is not open, all of it, in the
/// order it was saved in.
pub proof fn law_restoring_opens_the_rest(
    front: Seq<Seq<char>>,
    url: Seq<char>,
    back: Seq<Seq<char>>,
    already: Seq<Seq<char>>,
)
    ensures
        missing(front + seq![url] + back, already) == missing(front, already) + (
        if already.contains(url) {
            Seq::empty()
        } else {
            seq![url]
        }) + missing(back, already),
        missing(Seq::empty(), already) == Seq::<Seq<char>>::empty(),
{
    let keep = |u: Seq<char>| !already.contains(u);
    list::lemma_kept_joins(front + seq![url], back, keep);
    list::lemma_kept_joins(front, seq![url], keep);
    list::lemma_kept_one(url, keep);
}

/// A lock holds against every process but the one that took it.
pub proof fn law_lock_names_its_holder(holder: u32, mine: u32)
    ensures
        other_holder(Some(number::decimal(holder as nat)), mine) == if holder == mine {
            None
        } else {
            Some(holder)
        },
        other_holder(None, mine) is None,
{
    let body = number::decimal(holder as nat);
    number::lemma_decimal(holder as nat);
    number::law_decimal_reads_back(holder as nat, u32::MAX as nat);
    assert(number::is_digit(body[0]) && number::is_digit(body[body.len() - 1]));
    assert(text::trimmed(body) == body);
}

} // verus!
