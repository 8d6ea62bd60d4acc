//! Pages worth keeping.
//!
//! Deliberately the same shape as the history: a flat list, one file, no index.
//! The difference is intent, not structure: history is what happened, bookmarks
//! are what you chose, so they stay separate types rather than one store with a
//! flag, and the palette ranks a bookmark above a merely visited page because
//! you said it mattered.

use vstd::prelude::*;

use crate::list;
use crate::number;
use crate::pathname;
use crate::table;
use crate::text;

verus! {

#[derive(Debug, Clone)]
pub struct Bookmark {
    pub url: String,
    pub title: String,
    /// Unix seconds, so the newest sort first.
    pub added: u64,
}

/// A bookmark as values.
pub struct Mark {
    pub url: Seq<char>,
    pub title: Seq<char>,
    pub added: u64,
}

impl View for Bookmark {
    type V = Mark;

    open spec fn view(&self) -> Mark {
        Mark { url: self.url@, title: self.title@, added: self.added }
    }
}

pub struct Bookmarks {
    entries: Vec<Bookmark>,
}

pub open spec fn marks(entries: Seq<Bookmark>) -> Seq<Mark> {
    entries.map_values(|b: Bookmark| b@)
}

impl View for Bookmarks {
    type V = Seq<Mark>;

    closed spec fn view(&self) -> Seq<Mark> {
        marks(self.entries@)
    }
}

/// Where a page is kept, if it is.
pub open spec fn place(kept: Seq<Mark>, url: Seq<char>) -> Option<int> {
    list::first_where(kept, |m: Mark| m.url == url)
}

/// The list once a page has been kept. One that was kept already takes the new
/// title, if there is one, and stays where it stood.
pub open spec fn added(kept: Seq<Mark>, url: Seq<char>, title: Seq<char>, now: u64) -> Seq<Mark> {
    if url.len() == 0 {
        kept
    } else {
        match place(kept, url) {
            Some(i) => if title.len() == 0 {
                kept
            } else {
                kept.update(i, Mark { title, ..kept[i] })
            },
            None => seq![Mark { url, title, added: now }] + kept,
        }
    }
}

/// The list once a page has been dropped.
pub open spec fn removed(kept: Seq<Mark>, url: Seq<char>) -> Seq<Mark> {
    list::kept(kept, |m: Mark| m.url != url)
}

/// One line of the file: when, where, and what it is called. A tab in a title is
/// written as a space.
pub open spec fn row(m: Mark) -> Seq<char> {
    number::decimal(m.added as nat) + seq!['\t'] + m.url + seq!['\t'] + text::swapped(
        m.title,
        '\t',
        ' ',
    )
}

/// What a line of the file says, if it says anything.
pub open spec fn read_row(line: Seq<char>) -> Option<Mark> {
    let parts = text::fields(line, 3, '\t');
    if parts.len() < 2 {
        None
    } else {
        match number::unsigned(parts[0], u64::MAX as nat) {
            Some(added) => Some(
                Mark {
                    url: parts[1],
                    title: if parts.len() == 3 {
                        parts[2]
                    } else {
                        Seq::empty()
                    },
                    added: added as u64,
                },
            ),
            None => None,
        }
    }
}

/// The file the bookmarks are written as.
pub open spec fn sheet(kept: Seq<Mark>) -> Seq<char> {
    table::sheet(kept.map_values(|m: Mark| row(m)))
}

/// What is read back from a file. No file is no bookmarks.
pub open spec fn read_back(raw: Option<Seq<char>>) -> Seq<Mark> {
    match raw {
        Some(text) => list::collected(text::lines(text), |l: Seq<char>| read_row(l)),
        None => Seq::empty(),
    }
}

/// Whether a bookmark can be written on one line and told apart again.
pub open spec fn writable(m: Mark) -> bool {
    table::free_of(m.url, '\t') && table::free_of(m.url, '\n') && table::one_line(m.title)
}

/// A bookmark as it comes back from the file.
pub open spec fn settled(m: Mark) -> Mark {
    Mark { title: text::swapped(m.title, '\t', ' '), ..m }
}

impl Default for Bookmarks {
    fn default() -> (r: Self)
        ensures
            r@ == Seq::<Mark>::empty(),
    {
        let r = Bookmarks { entries: Vec::new() };
        assert(r@ =~= Seq::<Mark>::empty());
        r
    }
}

impl Bookmarks {
    /// Read what was saved last time, given the text of the file if there was
    /// one to read.
    pub fn load(raw: Option<&str>) -> (r: Self)
        ensures
            r@ == read_back(
                match raw {
                    Some(text) => Some(text@),
                    None => None,
                },
            ),
    {
        let mut out = Bookmarks { entries: Vec::new() };
        assert(marks(out.entries@) =~= Seq::<Mark>::empty());
        let text = match raw {
            Some(text) => text,
            None => return out,
        };
        let lines = text::split_lines(text);
        let ghost read = |l: Seq<char>| read_row(l);
        let mut i: usize = 0;
        assert(marks(out.entries@) =~= list::collected(text::texts(lines@).take(0), read));
        while i < lines.len()
            invariant
                i <= lines.len(),
                read == (|l: Seq<char>| read_row(l)),
                marks(out.entries@) == list::collected(text::texts(lines@).take(i as int), read),
            decreases lines.len() - i,
        {
            let ghost so_far = text::texts(lines@).take(i + 1);
            assert(so_far.drop_last() =~= text::texts(lines@).take(i as int));
            assert(so_far.last() == lines@[i as int]@);
            let ghost before = out.entries@;
            match parse_row(lines[i].as_str()) {
                Some(mark) => {
                    out.entries.push(mark);
                    assert(marks(out.entries@) =~= marks(before).push(mark@));
                },
                None => {},
            }
            i += 1;
        }
        assert(text::texts(lines@).take(i as int) =~= text::texts(lines@));
        out
    }

    /// Add, or update the title of one already kept. Returns whether it is new.
    pub fn add(&mut self, url: &str, title: &str, now: u64) -> (r: bool)
        ensures
            final(self)@ == added(old(self)@, url@, title@, now),
            r == (url@.len() > 0 && place(old(self)@, url@) is None),
    {
        if url.is_empty() {
            return false;
        }
        match self.place_of(url) {
            Some(at) => {
                if !title.is_empty() {
                    let mut mark = self.entries.remove(at);
                    mark.title = title.to_owned();
                    self.entries.insert(at, mark);
                    assert(self@ =~= added(old(self)@, url@, title@, now));
                }
                false
            },
            None => {
                self.entries.insert(
                    0,
                    Bookmark { url: url.to_owned(), title: title.to_owned(), added: now },
                );
                assert(self@ =~= added(old(self)@, url@, title@, now));
                true
            },
        }
    }

    fn place_of(&self, url: &str) -> (r: Option<usize>)
        ensures
            match r {
                Some(i) => i < self.entries@.len() && place(self@, url@) == Some(i as int),
                None => place(self@, url@) is None,
            },
    {
        let ghost want = |m: Mark| m.url == url@;
        let mut i: usize = 0;
        while i < self.entries.len()
            invariant
                i <= self.entries.len(),
                want == (|m: Mark| m.url == url@),
                forall|j: int| 0 <= j < i ==> !want(#[trigger] self@[j]),
            decreases self.entries.len() - i,
        {
            if text::same(self.entries[i].url.as_str(), url) {
                proof {
                    list::lemma_first_where(self@, want, i as int);
                }
                return Some(i);
            }
            i += 1;
        }
        proof {
            list::lemma_first_where(self@, want, i as int);
        }
        None
    }

    /// Remove by URL. Returns whether anything went.
    pub fn remove(&mut self, url: &str) -> (r: bool)
        ensures
            final(self)@ == removed(old(self)@, url@),
            r == (place(old(self)@, url@) is Some),
    {
        let ghost keep = |m: Mark| m.url != url@;
        let ghost want = |m: Mark| m.url == url@;
        let mut all: Vec<Bookmark> = Vec::new();
        std::mem::swap(&mut all, &mut self.entries);
        let ghost was = all@;
        let mut gone = false;
        assert(marks(self.entries@) =~= list::kept(marks(was).take(0), keep));
        for mark in it: all
            invariant
                it.seq() == was,
                keep == (|m: Mark| m.url != url@),
                want == (|m: Mark| m.url == url@),
                marks(self.entries@) == list::kept(marks(was).take(it.index() as int), keep),
                gone == exists|j: int| 0 <= j < it.index() && want(#[trigger] marks(was)[j]),
        {
            let ghost at = it.index() as int;
            let ghost before = self.entries@;
            assert(marks(was).take(at + 1).drop_last() =~= marks(was).take(at));
            assert(marks(was)[at] == mark@);
            if text::same(mark.url.as_str(), url) {
                gone = true;
                assert(want(marks(was)[at]));
            } else {
                self.entries.push(mark);
                assert(marks(self.entries@) =~= marks(before).push(mark@));
            }
        }
        proof {
            assert(marks(was).take(was.len() as int) =~= marks(was));
            list::lemma_first_where_is_first(marks(was), want);
        }
        gone
    }

    pub fn entries(&self) -> (r: &[Bookmark])
        ensures
            marks(r@) == self@,
    {
        self.entries.as_slice()
    }

    /// The text of the file. Written on every change rather than on a timer: the
    /// list is small, and a bookmark that vanishes because the browser was
    /// killed before a flush is worse than a few milliseconds of I/O.
    pub fn render(&self) -> (r: String)
        ensures
            r@ == sheet(self@),
    {
        let ghost rows = self@.map_values(|m: Mark| row(m));
        let mut body = String::new();
        let mut i: usize = 0;
        while i < self.entries.len()
            invariant
                i <= self.entries.len(),
                rows == self@.map_values(|m: Mark| row(m)),
                body@ == table::sheet(rows.take(i as int)),
            decreases self.entries.len() - i,
        {
            assert(rows.take(i + 1).drop_last() =~= rows.take(i as int));
            body.append(write_row(&self.entries[i]).as_str());
            body.push('\n');
            assert(body@ =~= table::sheet(rows.take(i + 1)));
            i += 1;
        }
        assert(rows.take(i as int) =~= rows);
        body
    }
}

fn write_row(mark: &Bookmark) -> (r: String)
    ensures
        r@ == row(mark@),
{
    let mut line = number::to_decimal(mark.added);
    line.push('\t');
    line.append(mark.url.as_str());
    line.push('\t');
    line.append(text::swap_char(mark.title.as_str(), '\t', ' ').as_str());
    assert(line@ =~= row(mark@));
    line
}

fn parse_row(line: &str) -> (r: Option<Bookmark>)
    ensures
        match r {
            Some(mark) => read_row(line@) == Some(mark@),
            None => read_row(line@) is None,
        },
{
    let parts = text::splitn(line, 3, '\t');
    let ghost said = text::texts(parts@);
    assert forall|i: int| 0 <= i < parts@.len() implies said[i] == #[trigger] parts@[i]@ by {}
    if parts.len() < 2 {
        return None;
    }
    match number::parse_u64(parts[0].as_str()) {
        Some(added) => Some(
            Bookmark {
                url: parts[1].clone(),
                title: if parts.len() == 3 {
                    parts[2].clone()
                } else {
                    String::new()
                },
                added,
            },
        ),
        None => None,
    }
}

/// The file the bookmarks are written to.
pub fn path(state_dir: &str) -> (r: String)
    ensures
        r@ == pathname::under(state_dir@, "bookmarks"@),
{
    pathname::join(state_dir, "bookmarks")
}

// ---------------------------------------------------------------------------
// Laws
// ---------------------------------------------------------------------------

proof fn lemma_row_reads_back(m: Mark)
    requires
        writable(m),
    ensures
        table::one_line(row(m)),
        read_row(row(m)) == Some(settled(m)),
{
    let a = number::decimal(m.added as nat);
    let t = text::swapped(m.title, '\t', ' ');
    let tab = seq!['\t'];
    number::lemma_decimal(m.added as nat);
    number::law_decimal_reads_back(m.added as nat, u64::MAX as nat);
    assert(table::free_of(a, '\t') && table::free_of(a, '\n')) by {
        assert forall|i: int| 0 <= i < a.len() implies a[i] != '\t' && a[i] != '\n' by {
            assert(number::is_digit(a[i]));
        }
    }
    let rest = m.url + tab + t;
    assert(row(m) =~= a + tab + rest);
    table::lemma_cut_field(a, rest, '\t');
    table::lemma_cut_field(m.url, t, '\t');
    table::lemma_last_field(t, 1, '\t');
    let f1 = text::fields(t, 1, '\t');
    let f2 = text::fields(rest, 2, '\t');
    let f3 = text::fields(row(m), 3, '\t');
    assert(f2 == seq![m.url] + f1);
    assert(f3 == seq![a] + f2);
    assert(f3 =~= seq![a, m.url, t]);
    let line = row(m);
    assert forall|i: int| 0 <= i < line.len() implies line[i] != '\n' by {}
    if line.last() == '\r' {
        assert(t.len() > 0 && line.last() == t.last());
        assert(t.last() == m.title.last());
    }
}

/// What the bookmarks are written as reads back as the same bookmarks in the
/// same order, with every tab in a title become a space. It holds where no URL
/// has a tab or a newline in it, and no title has a newline in it or ends with a
/// carriage return.
pub proof fn law_bookmarks_read_back(kept: Seq<Mark>)
    requires
        forall|i: int| 0 <= i < kept.len() ==> writable(#[trigger] kept[i]),
    ensures
        read_back(Some(sheet(kept))) == kept.map_values(|m: Mark| settled(m)),
{
    let rows = kept.map_values(|m: Mark| row(m));
    let records = kept.map_values(|m: Mark| settled(m));
    assert forall|i: int| 0 <= i < rows.len() implies table::one_line(#[trigger] rows[i])
        && read_row(rows[i]) == Some(records[i]) by {
        lemma_row_reads_back(kept[i]);
    }
    table::lemma_sheet_reads_back(rows, |l: Seq<char>| read_row(l), records);
}

/// Whether no page is kept twice.
pub open spec fn once_each(kept: Seq<Mark>) -> bool {
    forall|i: int, j: int| 0 <= i < j < kept.len() ==> #[trigger] kept[i].url != #[trigger] kept[j].url
}

/// A list with no page in it twice stays that way, whatever is kept.
pub proof fn law_adding_keeps_pages_once(
    kept: Seq<Mark>,
    url: Seq<char>,
    title: Seq<char>,
    now: u64,
)
    requires
        once_each(kept),
    ensures
        once_each(added(kept, url, title, now)),
{
    list::lemma_first_where_is_first(kept, |m: Mark| m.url == url);
    if url.len() > 0 && place(kept, url) is None {
        let after = added(kept, url, title, now);
        assert forall|i: int, j: int| 0 <= i < j < after.len() implies #[trigger] after[i].url
            != #[trigger] after[j].url by {
            assert(after[j] == kept[j - 1]);
            if i > 0 {
                assert(after[i] == kept[i - 1]);
            }
        }
    }
}

/// A list with no page in it twice stays that way, whatever is dropped.
pub proof fn law_removing_keeps_pages_once(kept: Seq<Mark>, url: Seq<char>)
    requires
        once_each(kept),
    ensures
        once_each(removed(kept, url)),
    decreases kept.len(),
{
    if kept.len() > 0 {
        let front = kept.drop_last();
        let left = removed(front, url);
        assert forall|i: int, j: int| 0 <= i < j < front.len() implies #[trigger] front[i].url
            != #[trigger] front[j].url by {
            assert(front[i] == kept[i] && front[j] == kept[j]);
        }
        law_removing_keeps_pages_once(front, url);
        list::lemma_kept(front, |m: Mark| m.url != url);
        let after = removed(kept, url);
        assert forall|i: int, j: int| 0 <= i < j < after.len() implies #[trigger] after[i].url
            != #[trigger] after[j].url by {
            if j < left.len() {
                assert(after[i] == left[i] && after[j] == left[j]);
            } else {
                assert(after[i] == left[i]);
                assert(front.contains(left[i]));
                let k = choose|k: int| 0 <= k < front.len() && front[k] == left[i];
                assert(kept[k].url != kept[kept.len() - 1].url);
            }
        }
    }
}

/// A page that was kept is there afterwards, and keeping it again adds nothing.
pub proof fn law_added_once(
    kept: Seq<Mark>,
    url: Seq<char>,
    title: Seq<char>,
    now: u64,
    again: Seq<char>,
    later: u64,
)
    requires
        url.len() > 0,
    ensures
        place(added(kept, url, title, now), url) is Some,
        added(added(kept, url, title, now), url, again, later).len() == added(
            kept,
            url,
            title,
            now,
        ).len(),
{
    let want = |m: Mark| m.url == url;
    let after = added(kept, url, title, now);
    list::lemma_first_where_is_first(kept, want);
    match place(kept, url) {
        Some(i) => {
            assert forall|j: int| 0 <= j < i implies !want(#[trigger] after[j]) by {
                assert(after[j] == kept[j]);
            }
            list::lemma_first_where(after, want, i);
        },
        None => {
            list::lemma_first_in_front(after[0], kept, want);
        },
    }
}

/// Keeping a page again leaves when it was first kept.
pub proof fn law_first_added_stays(kept: Seq<Mark>, url: Seq<char>, title: Seq<char>, now: u64)
    ensures
        match place(kept, url) {
            Some(i) => {
                &&& 0 <= i < kept.len()
                &&& added(kept, url, title, now).len() == kept.len()
                &&& added(kept, url, title, now)[i].added == kept[i].added
            },
            None => true,
        },
{
    list::lemma_first_where_is_first(kept, |m: Mark| m.url == url);
}

/// A page not kept before comes first, under the name it was given, kept now, with
/// everything else behind it as it stood.
pub proof fn law_new_bookmark_comes_first(
    kept: Seq<Mark>,
    url: Seq<char>,
    title: Seq<char>,
    now: u64,
)
    requires
        url.len() > 0,
        forall|i: int| 0 <= i < kept.len() ==> (#[trigger] kept[i]).url != url,
    ensures
        ({
            let after = added(kept, url, title, now);
            &&& after.len() == kept.len() + 1
            &&& after[0].url == url && after[0].title == title && after[0].added == now
            &&& forall|i: int| 0 <= i < kept.len() ==> #[trigger] kept[i] == after[i + 1]
        }),
{
    list::lemma_first_where_is_first(kept, |m: Mark| m.url == url);
}

/// Keeping a page again takes the new name, unless it is empty, and moves nothing:
/// every page stands where it stood, and every other one under the name it had.
pub proof fn law_keeping_again_renames_in_place(
    kept: Seq<Mark>,
    at: int,
    title: Seq<char>,
    now: u64,
)
    requires
        0 <= at < kept.len(),
        kept[at].url.len() > 0,
        once_each(kept),
    ensures
        ({
            let after = added(kept, kept[at].url, title, now);
            &&& after.len() == kept.len()
            &&& after[at].url == kept[at].url
            &&& after[at].title == if title.len() == 0 {
                kept[at].title
            } else {
                title
            }
            &&& forall|i: int|
                0 <= i < kept.len() && i != at ==> #[trigger] after[i] == kept[i]
        }),
{
    list::lemma_first_where_is_first(kept, |m: Mark| m.url == kept[at].url);
}

/// An address of nothing is never kept.
pub proof fn law_nothing_is_not_kept(kept: Seq<Mark>, title: Seq<char>, now: u64)
    ensures
        added(kept, Seq::empty(), title, now) == kept,
{
}

/// Dropping a page from two lists joined is dropping it from each: what is left keeps
/// its order.
pub proof fn law_removing_keeps_the_order(front: Seq<Mark>, back: Seq<Mark>, url: Seq<char>)
    ensures
        removed(front + back, url) == removed(front, url) + removed(back, url),
        forall|m: Mark|
            #[trigger] removed(seq![m], url) == if m.url == url {
                Seq::<Mark>::empty()
            } else {
                seq![m]
            },
{
    let keep = |m: Mark| m.url != url;
    list::lemma_kept_joins(front, back, keep);
    assert forall|m: Mark|
        #[trigger] removed(seq![m], url) == if m.url == url {
            Seq::<Mark>::empty()
        } else {
            seq![m]
        } by {
        list::lemma_kept_one(m, keep);
    }
}

/// A page that was dropped is gone, and every other one is still there.
pub proof fn law_removed_is_gone(kept: Seq<Mark>, url: Seq<char>)
    ensures
        place(removed(kept, url), url) is None,
        forall|i: int|
            0 <= i < kept.len() && (#[trigger] kept[i]).url != url ==> removed(kept, url).contains(
                kept[i],
            ),
{
    let keep = |m: Mark| m.url != url;
    list::lemma_kept(kept, keep);
    list::lemma_first_where_is_first(removed(kept, url), |m: Mark| m.url == url);
}

/// A line of the file is when, where and what it is called, with tabs between, and a
/// line without a name is a bookmark without one.
pub proof fn law_line_is_when_where_what(at: u64, url: Seq<char>, title: Seq<char>)
    requires
        table::free_of(url, '\t'),
    ensures
        read_row(number::decimal(at as nat) + seq!['\t'] + url + seq!['\t'] + title) == Some(
            Mark { url, title, added: at },
        ),
        read_row(number::decimal(at as nat) + seq!['\t'] + url) == Some(
            Mark { url, title: Seq::empty(), added: at },
        ),
{
    let a = number::decimal(at as nat);
    let tab = seq!['\t'];
    number::lemma_decimal(at as nat);
    number::law_decimal_reads_back(at as nat, u64::MAX as nat);
    assert(table::free_of(a, '\t')) by {
        assert forall|i: int| 0 <= i < a.len() implies a[i] != '\t' by {
            assert(number::is_digit(a[i]));
        }
    }
    let rest = url + tab + title;
    let long = a + tab + url + tab + title;
    let short = a + tab + url;
    assert(long =~= a + tab + rest);
    table::lemma_cut_field(a, rest, '\t');
    table::lemma_cut_field(url, title, '\t');
    table::lemma_last_field(title, 1, '\t');
    assert(text::fields(rest, 2, '\t') == seq![url] + text::fields(title, 1, '\t'));
    assert(text::fields(long, 3, '\t') == seq![a] + text::fields(rest, 2, '\t'));
    assert(text::fields(long, 3, '\t') =~= seq![a, url, title]);
    table::lemma_cut_field(a, url, '\t');
    table::lemma_last_field(url, 2, '\t');
    assert(text::fields(short, 3, '\t') == seq![a] + text::fields(url, 2, '\t'));
    assert(text::fields(short, 3, '\t') =~= seq![a, url]);
}

} // verus!
