//! What the browser has saved to disk.
//!
//! Same shape as the history and the bookmarks: a flat list, one file, newest
//! first. It is kept across sessions because a downloads list that empties on
//! restart is a list you cannot rely on, and "where did that file go" is the
//! question it exists to answer.

use vstd::prelude::*;

use crate::list;
use crate::number;
use crate::pathname;
use crate::table;
use crate::text;
use crate::weburl;

verus! {

#[derive(Debug)]
pub struct Download {
    pub url: String,
    pub path: String,
    /// Unix seconds.
    pub started: u64,
    /// `None` while the transfer is still running.
    pub ok: Option<bool>,
    /// How far along, as a whole percent. The engine's own estimate, which is a
    /// guess wherever the server did not say how long the file is.
    ///
    /// In memory only, and deliberately: a progress figure is meaningless the
    /// moment the process that was making it exits.
    pub progress: u8,
    /// Bytes written so far.
    pub bytes: u64,
}

/// A download as values.
pub struct Fetch {
    pub url: Seq<char>,
    pub path: Seq<char>,
    pub started: u64,
    pub ok: Option<bool>,
    pub progress: u8,
    pub bytes: u64,
}

impl View for Download {
    type V = Fetch;

    open spec fn view(&self) -> Fetch {
        Fetch {
            url: self.url@,
            path: self.path@,
            started: self.started,
            ok: self.ok,
            progress: self.progress,
            bytes: self.bytes,
        }
    }
}

impl Clone for Download {
    fn clone(&self) -> (r: Self)
        ensures
            r == *self,
    {
        Download {
            url: self.url.clone(),
            path: self.path.clone(),
            started: self.started,
            ok: self.ok,
            progress: self.progress,
            bytes: self.bytes,
        }
    }
}

/// How a transfer stands, in a word.
pub open spec fn state_name(ok: Option<bool>) -> Seq<char> {
    match ok {
        None => "running"@,
        Some(true) => "done"@,
        Some(false) => "failed"@,
    }
}

/// What a transfer is called: the file's own name, or where it came from.
pub open spec fn fetch_name(f: Fetch) -> Seq<char> {
    match pathname::name_of(f.path) {
        Some(name) => name,
        None => f.url,
    }
}

impl Download {
    /// How far along, as a whole percent, or `None` for a transfer that has
    /// ended, where the honest answer is its outcome, not a number.
    pub fn percent(&self) -> (r: Option<u8>)
        ensures
            r == if self.ok is None {
                Some(self.progress)
            } else {
                None
            },
    {
        if self.ok.is_none() {
            Some(self.progress)
        } else {
            None
        }
    }

    /// The bit a human recognises: the file's own name.
    pub fn name(&self) -> (r: String)
        ensures
            r@ == fetch_name(self@),
    {
        match pathname::file_name(self.path.as_str()) {
            Some(name) => name,
            None => self.url.clone(),
        }
    }

    pub fn state(&self) -> (r: &'static str)
        ensures
            r@ == state_name(self.ok),
    {
        match self.ok {
            None => "running",
            Some(true) => "done",
            Some(false) => "failed",
        }
    }
}

/// How many to remember. A downloads list is a recent-work list, not an archive.
pub const CAP: usize = 200;

pub struct Downloads {
    entries: Vec<Download>,
}

pub open spec fn fetches(entries: Seq<Download>) -> Seq<Fetch> {
    entries.map_values(|d: Download| d@)
}

impl View for Downloads {
    type V = Seq<Fetch>;

    closed spec fn view(&self) -> Seq<Fetch> {
        fetches(self.entries@)
    }
}

/// The running transfer headed for a path.
pub open spec fn running(all: Seq<Fetch>, path: Seq<char>) -> Option<int> {
    list::first_where(all, |f: Fetch| pathname::same_place(f.path, path) && f.ok is None)
}

/// The list once a transfer has started.
pub open spec fn started(
    all: Seq<Fetch>,
    url: Seq<char>,
    path: Seq<char>,
    now: u64,
) -> Seq<Fetch> {
    list::at_most(
        seq![Fetch { url, path, started: now, ok: None, progress: 0, bytes: 0 }] + all,
        CAP as nat,
    )
}

/// A transfer that has ended. An address that was not known before is filled in.
pub open spec fn ended(f: Fetch, url: Option<Seq<char>>, ok: bool) -> Fetch {
    Fetch {
        ok: Some(ok),
        url: match url {
            Some(late) if f.url.len() == 0 => late,
            _ => f.url,
        },
        ..f
    }
}

/// The list once the transfer headed for a path has ended.
pub open spec fn finished(
    all: Seq<Fetch>,
    path: Seq<char>,
    url: Option<Seq<char>>,
    ok: bool,
) -> Seq<Fetch> {
    match running(all, path) {
        Some(i) => all.update(i, ended(all[i], url, ok)),
        None => all,
    }
}

/// The list once the transfer headed for a path has got further.
pub open spec fn progressed(
    all: Seq<Fetch>,
    path: Seq<char>,
    progress: u8,
    bytes: u64,
) -> Seq<Fetch> {
    match running(all, path) {
        Some(i) => all.update(i, Fetch { progress, bytes, ..all[i] }),
        None => all,
    }
}

/// The list once the transfer headed for a path is headed for another.
pub open spec fn renamed(all: Seq<Fetch>, from: Seq<char>, to: Seq<char>) -> Seq<Fetch> {
    match running(all, from) {
        Some(i) => all.update(i, Fetch { path: to, ..all[i] }),
        None => all,
    }
}

/// A tab or a newline as a space, and every other character as it is.
pub open spec fn on_one_line(url: Seq<char>) -> Seq<char> {
    text::swapped(text::swapped(url, '\t', ' '), '\n', ' ')
}

/// One line of the file: when, how it stands, the path and the address.
pub open spec fn row(f: Fetch) -> Seq<char> {
    number::decimal(f.started as nat) + seq!['\t'] + state_name(f.ok) + seq!['\t'] + f.path + seq![
        '\t',
    ] + on_one_line(f.url)
}

/// What a line of the file says, if it says anything. A transfer that was still
/// running when the browser exited did not finish, and there is nothing left to
/// finish it.
pub open spec fn read_row(line: Seq<char>) -> Option<Fetch> {
    let parts = text::fields(line, 4, '\t');
    if parts.len() < 4 {
        None
    } else {
        match number::unsigned(parts[0], u64::MAX as nat) {
            Some(started) => Some(
                Fetch {
                    url: parts[3],
                    path: parts[2],
                    started: started as u64,
                    ok: Some(parts[1] == "done"@),
                    progress: 0,
                    bytes: 0,
                },
            ),
            None => None,
        }
    }
}

/// The file the downloads are written as.
pub open spec fn sheet(all: Seq<Fetch>) -> Seq<char> {
    table::sheet(all.map_values(|f: Fetch| row(f)))
}

/// What is read back from a file. No file is no downloads.
pub open spec fn read_back(raw: Option<Seq<char>>) -> Seq<Fetch> {
    match raw {
        Some(text) => list::collected(text::lines(text), |l: Seq<char>| read_row(l)),
        None => Seq::empty(),
    }
}

/// Whether a download can be written on one line and told apart again.
pub open spec fn writable(f: Fetch) -> bool {
    &&& table::free_of(f.path, '\t')
    &&& table::free_of(f.path, '\n')
    &&& !(f.url.len() > 0 && f.url.last() == '\r')
}

/// A download as it comes back from the file.
pub open spec fn settled(f: Fetch) -> Fetch {
    Fetch { url: on_one_line(f.url), ok: Some(f.ok == Some(true)), progress: 0, bytes: 0, ..f }
}

impl Default for Downloads {
    fn default() -> (r: Self)
        ensures
            r@ == Seq::<Fetch>::empty(),
    {
        let r = Downloads { entries: Vec::new() };
        assert(r@ =~= Seq::<Fetch>::empty());
        r
    }
}

impl Downloads {
    /// Read what was saved last time, given the text of the file if there was
    /// one to read.
    pub fn load(raw: Option<&str>) -> (r: Self)
        ensures
            r@ == read_back(
                match raw {
                    Some(text) => Some(text@),
                    None => None,
                },
            ),
    {
        let mut out = Downloads { entries: Vec::new() };
        assert(fetches(out.entries@) =~= Seq::<Fetch>::empty());
        let text = match raw {
            Some(text) => text,
            None => return out,
        };
        let lines = text::split_lines(text);
        let ghost read = |l: Seq<char>| read_row(l);
        let mut i: usize = 0;
        assert(fetches(out.entries@) =~= list::collected(text::texts(lines@).take(0), read));
        while i < lines.len()
            invariant
                i <= lines.len(),
                read == (|l: Seq<char>| read_row(l)),
                fetches(out.entries@) == list::collected(text::texts(lines@).take(i as int), read),
            decreases lines.len() - i,
        {
            let ghost so_far = text::texts(lines@).take(i + 1);
            assert(so_far.drop_last() =~= text::texts(lines@).take(i as int));
            assert(so_far.last() == lines@[i as int]@);
            let ghost before = out.entries@;
            match parse_row(lines[i].as_str()) {
                Some(download) => {
                    out.entries.push(download);
                    assert(fetches(out.entries@) =~= fetches(before).push(download@));
                },
                None => {},
            }
            i += 1;
        }
        assert(text::texts(lines@).take(i as int) =~= text::texts(lines@));
        out
    }

    /// Record a started transfer, newest first.
    pub fn start(&mut self, url: &str, path: &str, now: u64)
        ensures
            final(self)@ == started(old(self)@, url@, path@, now),
    {
        self.entries.insert(
            0,
            Download {
                url: url.to_owned(),
                path: path.to_owned(),
                started: now,
                ok: None,
                progress: 0,
                bytes: 0,
            },
        );
        let ghost grown = self@;
        assert(grown =~= seq![
            Fetch { url: url@, path: path@, started: now, ok: None, progress: 0, bytes: 0 },
        ] + old(self)@);
        self.entries.truncate(CAP);
        assert(self@ =~= list::at_most(grown, CAP as nat));
    }

    fn running_at(&self, path: &str) -> (r: Option<usize>)
        ensures
            match r {
                Some(i) => i < self.entries@.len() && running(self@, path@) == Some(i as int),
                None => running(self@, path@) is None,
            },
    {
        let ghost want = |f: Fetch| pathname::same_place(f.path, path@) && f.ok is None;
        let mut i: usize = 0;
        while i < self.entries.len()
            invariant
                i <= self.entries.len(),
                want == (|f: Fetch| pathname::same_place(f.path, path@) && f.ok is None),
                forall|j: int| 0 <= j < i ==> !want(#[trigger] self@[j]),
            decreases self.entries.len() - i,
        {
            let entry = &self.entries[i];
            if entry.ok.is_none() && pathname::same_path(entry.path.as_str(), path) {
                proof {
                    list::lemma_first_where(self@, want, i as int);
                }
                return Some(i);
            }
            i += 1;
        }
        proof {
            list::lemma_first_where(self@, want, i as int);
        }
        None
    }

    /// Close out the running transfer headed for this path.
    ///
    /// Matched on the destination rather than the URL because the destination is
    /// the one identifier *we* chose: it is unique by construction (see
    /// [`unique`]), whereas the same URL can be downloading twice at once, and
    /// the engine does not always have the request to hand.
    ///
    /// `url` fills in a URL that was not yet known when the transfer started.
    pub fn finish(&mut self, path: &str, url: Option<&str>, ok: bool) -> (r: Option<Download>)
        ensures
            final(self)@ == finished(
                old(self)@,
                path@,
                match url {
                    Some(late) => Some(late@),
                    None => None,
                },
                ok,
            ),
            match r {
                Some(done) => running(old(self)@, path@) matches Some(i) && done@
                    == final(self)@[i],
                None => running(old(self)@, path@) is None,
            },
    {
        proof {
            list::lemma_first_where_is_first(
                self@,
                |f: Fetch| pathname::same_place(f.path, path@) && f.ok is None,
            );
        }
        match self.running_at(path) {
            Some(at) => {
                let mut entry = self.entries.remove(at);
                entry.ok = Some(ok);
                if let Some(late) = url {
                    if entry.url.as_str().is_empty() {
                        entry.url = late.to_owned();
                    }
                }
                let done = entry.clone();
                self.entries.insert(at, entry);
                assert(self@ =~= finished(
                    old(self)@,
                    path@,
                    match url {
                        Some(late) => Some(late@),
                        None => None,
                    },
                    ok,
                ));
                Some(done)
            },
            None => None,
        }
    }

    /// How far along the transfer headed for this path is.
    ///
    /// Not saved: see [`Download::progress`]. That also makes this cheap enough
    /// to call on every chunk, which is what the engine does.
    pub fn progress(&mut self, path: &str, progress: u8, bytes: u64)
        ensures
            final(self)@ == progressed(old(self)@, path@, progress, bytes),
    {
        if let Some(at) = self.running_at(path) {
            let mut entry = self.entries.remove(at);
            entry.progress = progress;
            entry.bytes = bytes;
            self.entries.insert(at, entry);
            assert(self@ =~= progressed(old(self)@, path@, progress, bytes));
        }
    }

    /// Move a running entry to a different destination.
    ///
    /// The path is this list's identity (see [`Downloads::finish`]), so a rename
    /// has to go through here rather than being written on the entry.
    pub fn rename(&mut self, from: &str, to: &str)
        ensures
            final(self)@ == renamed(old(self)@, from@, to@),
    {
        if let Some(at) = self.running_at(from) {
            let mut entry = self.entries.remove(at);
            entry.path = to.to_owned();
            self.entries.insert(at, entry);
            assert(self@ =~= renamed(old(self)@, from@, to@));
        }
    }

    pub fn entries(&self) -> (r: &[Download])
        ensures
            fetches(r@) == self@,
    {
        self.entries.as_slice()
    }

    /// One entry by its position in the list, newest first and counted from one,
    /// the way `download list` prints it.
    pub fn nth(&self, index: usize) -> (r: Option<&Download>)
        ensures
            match r {
                Some(d) => 1 <= index <= self@.len() && d@ == self@[index - 1],
                None => index == 0 || index > self@.len(),
            },
    {
        if index == 0 || index > self.entries.len() {
            None
        } else {
            Some(&self.entries[index - 1])
        }
    }

    pub fn clear(&mut self)
        ensures
            final(self)@ == Seq::<Fetch>::empty(),
    {
        self.entries.clear();
        assert(self@ =~= Seq::<Fetch>::empty());
    }

    /// The text of the file.
    pub fn render(&self) -> (r: String)
        ensures
            r@ == sheet(self@),
    {
        let ghost rows = self@.map_values(|f: Fetch| row(f));
        let mut body = String::new();
        let mut i: usize = 0;
        while i < self.entries.len()
            invariant
                i <= self.entries.len(),
                rows == self@.map_values(|f: Fetch| row(f)),
                body@ == table::sheet(rows.take(i as int)),
            decreases self.entries.len() - i,
        {
            assert(rows.take(i + 1).drop_last() =~= rows.take(i as int));
            body.append(write_row(&self.entries[i]).as_str());
            body.push('\n');
            assert(body@ =~= table::sheet(rows.take(i + 1)));
            i += 1;
        }
        assert(rows.take(i as int) =~= rows);
        body
    }
}

fn write_row(download: &Download) -> (r: String)
    ensures
        r@ == row(download@),
{
    let mut line = number::to_decimal(download.started);
    line.push('\t');
    line.append(download.state());
    line.push('\t');
    line.append(download.path.as_str());
    line.push('\t');
    let flat = text::swap_char(download.url.as_str(), '\t', ' ');
    line.append(text::swap_char(flat.as_str(), '\n', ' ').as_str());
    assert(line@ =~= row(download@));
    line
}

fn parse_row(line: &str) -> (r: Option<Download>)
    ensures
        match r {
            Some(download) => read_row(line@) == Some(download@),
            None => read_row(line@) is None,
        },
{
    let parts = text::splitn(line, 4, '\t');
    let ghost said = text::texts(parts@);
    assert forall|i: int| 0 <= i < parts@.len() implies said[i] == #[trigger] parts@[i]@ by {}
    if parts.len() < 4 {
        return None;
    }
    match number::parse_u64(parts[0].as_str()) {
        Some(started) => Some(
            Download {
                url: parts[3].clone(),
                path: parts[2].clone(),
                started,
                ok: Some(text::same(parts[1].as_str(), "done")),
                progress: 0,
                bytes: 0,
            },
        ),
        None => None,
    }
}

/// The file the downloads are written to.
pub fn path(state_dir: &str) -> (r: String)
    ensures
        r@ == pathname::under(state_dir@, "downloads"@),
{
    pathname::join(state_dir, "downloads")
}

// ---------------------------------------------------------------------------
// Where a file goes
// ---------------------------------------------------------------------------

/// The file the desktop names its directories in.
pub open spec fn user_dirs(config: Option<Seq<char>>, home: Seq<char>) -> Seq<char> {
    pathname::under(
        match config {
            Some(dir) if pathname::absolute(dir) => dir,
            _ => pathname::under(home, ".config"@),
        },
        "user-dirs.dirs"@,
    )
}

/// The file the desktop names its directories in, given what `XDG_CONFIG_HOME`
/// and `HOME` are set to.
pub fn user_dirs_file(config: Option<&str>, home: &str) -> (r: String)
    ensures
        r@ == user_dirs(
            match config {
                Some(dir) => Some(dir@),
                None => None,
            },
            home@,
        ),
{
    let base = match config {
        Some(dir) if pathname::is_absolute(dir) => dir.to_owned(),
        _ => pathname::join(home, ".config"),
    };
    pathname::join(base.as_str(), "user-dirs.dirs")
}

/// The download directory one line of that file names, if it names one.
pub open spec fn named_dir(line: Seq<char>, home: Seq<char>) -> Option<Seq<char>> {
    match text::without_prefix(text::trimmed(line), "XDG_DOWNLOAD_DIR="@) {
        Some(value) => {
            let value = text::trimmed_of(value, "\""@);
            let dir = match text::without_prefix(value, "$HOME/"@) {
                Some(rest) => pathname::under(home, rest),
                None => value,
            };
            if pathname::absolute(dir) {
                Some(dir)
            } else {
                None
            }
        },
        None => None,
    }
}

/// Where the desktop keeps downloads.
pub open spec fn download_home(
    home: Seq<char>,
    download: Option<Seq<char>>,
    dirs: Option<Seq<char>>,
) -> Seq<char> {
    match download {
        Some(dir) if pathname::absolute(dir) => dir,
        _ => {
            let named = match dirs {
                Some(text) => list::collected(
                    text::lines(text),
                    |l: Seq<char>| named_dir(l, home),
                ),
                None => Seq::empty(),
            };
            if named.len() > 0 {
                named[0]
            } else {
                pathname::under(home, "Downloads"@)
            }
        },
    }
}

fn dir_in(line: &str, home: &str) -> (r: Option<String>)
    ensures
        match r {
            Some(dir) => named_dir(line@, home@) == Some(dir@),
            None => named_dir(line@, home@) is None,
        },
{
    let value = match text::strip_prefix(text::trim(line).as_str(), "XDG_DOWNLOAD_DIR=") {
        Some(value) => text::trim_of(value.as_str(), "\""),
        None => return None,
    };
    let dir = match text::strip_prefix(value.as_str(), "$HOME/") {
        Some(rest) => pathname::join(home, rest.as_str()),
        None => value,
    };
    if pathname::is_absolute(dir.as_str()) {
        Some(dir)
    } else {
        None
    }
}

proof fn lemma_collected_keeps_first<T>(
    lines: Seq<Seq<char>>,
    read: spec_fn(Seq<char>) -> Option<T>,
    at: int,
)
    requires
        0 <= at < lines.len(),
        list::collected(lines.take(at), read).len() == 0,
        read(lines[at]) is Some,
    ensures
        list::collected(lines, read).len() > 0,
        list::collected(lines, read)[0] == read(lines[at]).unwrap(),
    decreases lines.len(),
{
    if at == lines.len() - 1 {
        assert(lines.take(at) =~= lines.drop_last());
    } else {
        assert(lines.drop_last().take(at) =~= lines.take(at));
        lemma_collected_keeps_first(lines.drop_last(), read, at);
    }
}

/// Where the desktop keeps downloads, given what `HOME` and `XDG_DOWNLOAD_DIR`
/// are set to and the text of [`user_dirs_file`] if there was one to read.
///
/// `XDG_DOWNLOAD_DIR` is exported by very little, so the real source of truth is
/// that file.
pub fn download_dir(home: &str, download: Option<&str>, dirs: Option<&str>) -> (r: String)
    ensures
        r@ == download_home(
            home@,
            match download {
                Some(dir) => Some(dir@),
                None => None,
            },
            match dirs {
                Some(text) => Some(text@),
                None => None,
            },
        ),
{
    if let Some(dir) = download {
        if pathname::is_absolute(dir) {
            return dir.to_owned();
        }
    }
    if let Some(raw) = dirs {
        let lines = text::split_lines(raw);
        let ghost read = |l: Seq<char>| named_dir(l, home@);
        let mut i: usize = 0;
        assert(list::collected(text::texts(lines@).take(0), read).len() == 0);
        while i < lines.len()
            invariant
                i <= lines.len(),
                read == (|l: Seq<char>| named_dir(l, home@)),
                dirs == Some(raw),
                text::texts(lines@) == text::lines(raw@),
                !(download matches Some(dir) && pathname::absolute(dir@)),
                list::collected(text::texts(lines@).take(i as int), read).len() == 0,
            decreases lines.len() - i,
        {
            assert(text::texts(lines@)[i as int] == lines@[i as int]@);
            match dir_in(lines[i].as_str(), home) {
                Some(dir) => {
                    proof {
                        lemma_collected_keeps_first(text::texts(lines@), read, i as int);
                    }
                    return dir;
                },
                None => {},
            }
            assert(text::texts(lines@).take(i + 1).drop_last() =~= text::texts(lines@).take(
                i as int,
            ));
            i += 1;
        }
        assert(text::texts(lines@).take(i as int) =~= text::texts(lines@));
    }
    pathname::join(home, "Downloads")
}

/// The characters that print as nothing at all.
pub open spec fn is_control(c: char) -> bool {
    c <= '\u{1f}' || '\u{7f}' <= c <= '\u{9f}'
}

/// What follows the last slash of either kind.
pub open spec fn base_name(name: Seq<char>) -> Seq<char> {
    match list::last_where(name, |c: char| c == '/' || c == '\\') {
        Some(i) => name.skip(i + 1),
        None => name,
    }
}

/// A file name with everything taken out of it that could make it mean another
/// directory.
pub open spec fn harmless(name: Seq<char>) -> Seq<char> {
    let bare = text::trimmed_of(text::trimmed(base_name(name)), "."@);
    let cleaned = list::kept(bare, |c: char| !is_control(c) && c != '/');
    if cleaned.len() == 0 || cleaned == "."@ || cleaned == ".."@ {
        "download"@
    } else {
        cleaned
    }
}

/// Strip anything that would make the name escape the download directory.
///
/// A server chooses this name, so it is untrusted input: `../../.bashrc` is a
/// filename as far as `Content-Disposition` is concerned.
pub fn sanitise(name: &str) -> (r: String)
    ensures
        r@ == harmless(name@),
{
    let whole = text::chars_of(name);
    let ghost slash = |c: char| c == '/' || c == '\\';
    let mut from: usize = whole.len();
    while from > 0 && whole[from - 1] != '/' && whole[from - 1] != '\\'
        invariant
            from <= whole.len(),
            slash == (|c: char| c == '/' || c == '\\'),
            forall|j: int| from <= j < whole.len() ==> !slash(#[trigger] whole@[j]),
        decreases from,
    {
        from -= 1;
    }
    proof {
        list::lemma_last_where(whole@, slash, from - 1);
    }
    let base = text::slice_of(&whole, from, whole.len());
    assert(base@ =~= base_name(name@));
    let bare = text::trim_of(text::trim(base.as_str()).as_str(), ".");
    let letters = text::chars_of(bare.as_str());
    let ghost fine = |c: char| !is_control(c) && c != '/';
    let mut cleaned = String::new();
    let mut i: usize = 0;
    assert(cleaned@ =~= list::kept(letters@.take(0), fine));
    while i < letters.len()
        invariant
            i <= letters.len(),
            fine == (|c: char| !is_control(c) && c != '/'),
            cleaned@ == list::kept(letters@.take(i as int), fine),
        decreases letters.len() - i,
    {
        let c = letters[i];
        assert(letters@.take(i + 1).drop_last() =~= letters@.take(i as int));
        let control = c <= '\u{1f}' || ('\u{7f}' <= c && c <= '\u{9f}');
        if !control && c != '/' {
            cleaned.push(c);
        }
        i += 1;
    }
    assert(letters@.take(i as int) =~= letters@);
    let text = cleaned.as_str();
    if text.is_empty() || text::same(text, ".") || text::same(text, "..") {
        "download".to_owned()
    } else {
        cleaned
    }
}

/// A name as what stands before its last dot and the rest, dot and all. A dot it
/// begins with is the whole name of a dotfile, not an extension.
pub open spec fn stem_and_ext(name: Seq<char>) -> (Seq<char>, Seq<char>) {
    match text::cut_last(name, '.') {
        Some((stem, ext)) if stem.len() > 0 => (stem, "."@ + ext),
        _ => (name, Seq::empty()),
    }
}

/// The names tried, one after the other: the name itself, then numbered copies.
pub open spec fn copy_name(name: Seq<char>, n: int) -> Seq<char> {
    let name = harmless(name);
    if n > 0 {
        let (stem, ext) = stem_and_ext(name);
        stem + " ("@ + number::decimal(n as nat) + ")"@ + ext
    } else {
        name
    }
}

/// Where the name tried stands.
pub open spec fn attempt(dir: Seq<char>, name: Seq<char>, n: int) -> Seq<char> {
    pathname::under(dir, copy_name(name, n))
}

/// Whether a path is the first of the names tried that is not among those that
/// stand in the directory already.
pub open spec fn is_free(
    there: Seq<Seq<char>>,
    dir: Seq<char>,
    name: Seq<char>,
    path: Seq<char>,
) -> bool {
    exists|n: int|
        {
            &&& 0 <= n
            &&& path == #[trigger] attempt(dir, name, n)
            &&& !there.contains(copy_name(name, n))
            &&& forall|m: int| 0 <= m < n ==> there.contains(#[trigger] copy_name(name, m))
        }
}

/// No two of the names tried are the same.
proof fn lemma_copies_differ(name: Seq<char>, a: int, b: int)
    requires
        0 <= a < b,
    ensures
        copy_name(name, a) != copy_name(name, b),
{
    let safe = harmless(name);
    let (stem, ext) = stem_and_ext(safe);
    reveal_strlit(" (");
    reveal_strlit(")");
    reveal_strlit(".");
    assert(stem.len() + ext.len() == safe.len()) by {
        text::lemma_last_of_is_inside(safe, '.');
    }
    let written = number::decimal(b as nat);
    let x = copy_name(name, a);
    let y = copy_name(name, b);
    if x == y {
        if a == 0 {
            assert(y.len() > safe.len());
        } else {
            let other = number::decimal(a as nat);
            assert(x == stem + " ("@ + other + ")"@ + ext);
            assert(y == stem + " ("@ + written + ")"@ + ext);
            assert(x.len() == stem.len() + 2 + other.len() + 1 + ext.len());
            assert(y.len() == stem.len() + 2 + written.len() + 1 + ext.len());
            let from = stem.len() + 2;
            assert(other =~= x.subrange(from as int, (from + other.len()) as int));
            assert(written =~= y.subrange(from as int, (from + written.len()) as int));
            number::law_decimal_reads_back(a as nat, b as nat);
            number::law_decimal_reads_back(b as nat, b as nat);
        }
    }
}

/// A directory holds no more of the names tried than it holds names.
proof fn lemma_copies_fit(there: Seq<Seq<char>>, name: Seq<char>, n: nat)
    requires
        forall|m: int| 0 <= m < n ==> there.contains(#[trigger] copy_name(name, m)),
    ensures
        n <= there.len(),
{
    let tried = Seq::new(n, |m: int| copy_name(name, m));
    assert forall|i: int, j: int| 0 <= i < j < tried.len() implies #[trigger] tried[i]
        != #[trigger] tried[j] by {
        lemma_copies_differ(name, i, j);
    }
    assert(tried.no_duplicates());
    tried.unique_seq_to_set();
    there.lemma_cardinality_of_set();
    assert forall|x: Seq<char>| tried.to_set().contains(x) implies there.to_set().contains(x) by {
        let m = choose|m: int| 0 <= m < tried.len() && tried[m] == x;
        assert(there.contains(copy_name(name, m)));
    }
    vstd::set_lib::lemma_len_subset(tried.to_set(), there.to_set());
}

/// A name that will not overwrite something already in `dir`, given the names of
/// what stands there.
///
/// Chrome's rule: `report.pdf`, then `report (1).pdf`. Suffix before the
/// extension, so the file still opens in the right application.
pub fn unique(dir: &str, name: &str, there: &[String]) -> (r: String)
    ensures
        is_free(text::texts(there@), dir@, name@, r@),
{
    let safe = sanitise(name);
    assert(safe@ == copy_name(name@, 0));
    if !text::any_same(there, safe.as_str()) {
        let free = pathname::join(dir, safe.as_str());
        assert(free@ == attempt(dir@, name@, 0));
        return free;
    }
    let (stem, ext) = match text::rsplit_once(safe.as_str(), '.') {
        Some((stem, ext)) => if stem.as_str().is_empty() {
            (safe.clone(), String::new())
        } else {
            let mut dotted = ".".to_owned();
            dotted.append(ext.as_str());
            (stem, dotted)
        },
        None => (safe.clone(), String::new()),
    };
    assert((stem@, ext@) == stem_and_ext(safe@));
    let ghost names = text::texts(there@);
    let mut n: u64 = 1;
    proof {
        lemma_copies_fit(names, name@, 1);
    }
    loop
        invariant
            1 <= n <= there@.len(),
            names == text::texts(there@),
            safe@ == harmless(name@),
            (stem@, ext@) == stem_and_ext(safe@),
            forall|m: int| 0 <= m < n ==> names.contains(#[trigger] copy_name(name@, m)),
        decreases there@.len() - n,
    {
        let mut copy = stem.clone();
        copy.append(" (");
        copy.append(number::to_decimal(n).as_str());
        copy.append(")");
        copy.append(ext.as_str());
        assert(copy@ == copy_name(name@, n as int));
        if !text::any_same(there, copy.as_str()) {
            let free = pathname::join(dir, copy.as_str());
            assert(free@ == attempt(dir@, name@, n as int));
            return free;
        }
        proof {
            lemma_copies_fit(names, name@, (n + 1) as nat);
        }
        assert(there.len() == there@.len());
        n += 1;
    }
}

/// The name an address implies, given what the last step of its path and its
/// host read as.
pub open spec fn implied_name(
    segment: Option<Option<Seq<char>>>,
    host: Option<Option<Seq<char>>>,
) -> Seq<char> {
    match (segment, host) {
        (Some(Some(last)), _) if last.len() > 0 => last,
        (Some(_), Some(Some(host))) => host,
        _ => "download"@,
    }
}

/// The filename implied by the last step of an address's path and by its host,
/// either of which an address can be without.
pub fn name_from_parts(
    segment: Option<Option<String>>,
    host: Option<Option<String>>,
) -> (r: String)
    ensures
        r@ == implied_name(
            match segment {
                Some(Some(last)) => Some(Some(last@)),
                Some(None) => Some(None),
                None => None,
            },
            match host {
                Some(Some(host)) => Some(Some(host@)),
                Some(None) => Some(None),
                None => None,
            },
        ),
{
    match segment {
        Some(last) => {
            if let Some(last) = last {
                if !last.as_str().is_empty() {
                    return last;
                }
            }
            match host {
                Some(Some(host)) => host,
                _ => "download".to_owned(),
            }
        },
        None => "download".to_owned(),
    }
}

/// The filename a URL implies, before the disk is consulted. What is not a URL
/// implies nothing better than "download".
pub fn name_from_url(url: &str) -> (r: String)
    ensures
        r@ == implied_name(weburl::last_segment_text(url@), weburl::host_text(url@)),
{
    name_from_parts(weburl::last_segment(url), weburl::host(url))
}

// ---------------------------------------------------------------------------
// One transfer, from its first byte to its last
// ---------------------------------------------------------------------------

/// A transfer the engine has announced, and what has been learned of it since.
#[derive(Debug)]
pub struct Transfer {
    /// The name its address implied.
    implied: String,
    /// Where it was first headed.
    chosen: String,
    /// Where it is headed now. It moves once, when the server turns out to have
    /// a better name for the file than the URL did.
    wanted: String,
    /// Whether the server has answered.
    heard: bool,
    /// Where the engine says the bytes are going.
    landed: Option<String>,
    /// How many bytes have arrived.
    received: u64,
}

/// A transfer as values.
pub struct Course {
    pub implied: Seq<char>,
    pub chosen: Seq<char>,
    pub wanted: Seq<char>,
    pub heard: bool,
    pub landed: Option<Seq<char>>,
    pub received: u64,
}

impl View for Transfer {
    type V = Course;

    closed spec fn view(&self) -> Course {
        Course {
            implied: self.implied@,
            chosen: self.chosen@,
            wanted: self.wanted@,
            heard: self.heard,
            landed: match self.landed {
                Some(at) => Some(at@),
                None => None,
            },
            received: self.received,
        }
    }
}

/// The better name a server has for the file, if it has one: it is asked once,
/// and what says nothing new does not count.
pub open spec fn better_name(
    course: Course,
    suggested: Option<Seq<char>>,
) -> Option<Seq<char>> {
    match suggested {
        Some(name) if !course.heard && name != course.implied && name.len() > 0 => Some(name),
        _ => None,
    }
}

/// What is to be done with a finished file.
#[derive(Debug)]
pub enum Placing {
    /// It is where it was asked to go.
    There,
    /// It has to be moved from one path to another.
    Move { from: String, to: String },
}

/// Whether a finished file is somewhere other than where it was asked to go.
pub open spec fn astray(course: Course) -> bool {
    match course.landed {
        Some(at) => !pathname::same_place(at, course.wanted),
        None => false,
    }
}

/// Where a finished file ends up, given whether a move that was needed happened.
pub open spec fn resting(course: Course, moved: bool) -> Seq<char> {
    match course.landed {
        Some(at) => if astray(course) && !moved {
            at
        } else {
            course.wanted
        },
        None => course.wanted,
    }
}

/// The last step of a path, or nothing.
pub open spec fn step_name(path: Seq<char>) -> Seq<char> {
    match pathname::name_of(path) {
        Some(name) => name,
        None => Seq::empty(),
    }
}

fn last_step(path: &str) -> (r: String)
    ensures
        r@ == step_name(path@),
{
    match pathname::file_name(path) {
        Some(name) => name,
        None => String::new(),
    }
}

impl Transfer {
    /// A transfer begins: it is put on the list, headed for `path`, and the note
    /// to show for it comes back.
    ///
    /// At this moment only the URL is known, so `implied` comes from it. What
    /// the server calls the file arrives with the response.
    pub fn begin(
        list: &mut Downloads,
        url: &str,
        implied: &str,
        path: &str,
        now: u64,
    ) -> (r: (Transfer, String))
        ensures
            final(list)@ == started(old(list)@, url@, path@, now),
            r.0@ == (Course {
                implied: implied@,
                chosen: path@,
                wanted: path@,
                heard: false,
                landed: None,
                received: 0,
            }),
            r.1@ == "Downloading "@ + step_name(path@),
    {
        list.start(url, path, now);
        let mut note = "Downloading ".to_owned();
        note.append(last_step(path).as_str());
        let transfer = Transfer {
            implied: implied.to_owned(),
            chosen: path.to_owned(),
            wanted: path.to_owned(),
            heard: false,
            landed: None,
            received: 0,
        };
        (transfer, note)
    }

    /// The server has answered. A server that names the file explicitly knows
    /// better than its own URL does: `/download?id=7` is not a filename. The
    /// name to use instead comes back, if there is one.
    pub fn answered(&mut self, suggested: Option<&str>) -> (r: Option<String>)
        ensures
            final(self)@ == (Course { heard: true, ..old(self)@ }),
            ({
                let said = match suggested {
                    Some(name) => Some(name@),
                    None => None,
                };
                match r {
                    Some(name) => better_name(old(self)@, said) == Some(name@),
                    None => better_name(old(self)@, said) is None,
                }
            }),
    {
        if self.heard {
            return None;
        }
        self.heard = true;
        match suggested {
            Some(name) => if text::same(name, self.implied.as_str()) || name.is_empty() {
                None
            } else {
                Some(name.to_owned())
            },
            None => None,
        }
    }

    /// The transfer is headed for `better` from now on.
    pub fn redirect(&mut self, list: &mut Downloads, better: &str)
        ensures
            final(self)@ == (Course { wanted: better@, ..old(self)@ }),
            final(list)@ == renamed(old(list)@, old(self)@.chosen, better@),
    {
        self.wanted = better.to_owned();
        list.rename(self.chosen.as_str(), better);
    }

    /// The engine has said where the bytes are going.
    pub fn created(&mut self, at: &str)
        ensures
            final(self)@ == (Course { landed: Some(at@), ..old(self)@ }),
    {
        self.landed = Some(at.to_owned());
    }

    /// Some more bytes have arrived.
    pub fn received(&mut self, chunk: u64)
        ensures
            final(self)@ == (Course {
                received: if old(self)@.received + chunk > u64::MAX {
                    u64::MAX
                } else {
                    (old(self)@.received + chunk) as u64
                },
                ..old(self)@
            }),
    {
        self.received = self.received.saturating_add(chunk);
    }

    /// The engine has said how far along it is.
    pub fn advanced(&self, list: &mut Downloads, percent: u8)
        ensures
            final(list)@ == progressed(old(list)@, self@.wanted, percent, self@.received),
    {
        list.progress(self.wanted.as_str(), percent, self.received);
    }

    /// What is to be done with the file now that the bytes have stopped
    /// arriving.
    ///
    /// The engine decides the destination before anyone is told the download
    /// exists, so where the file was asked to go cannot be honoured while it is
    /// arriving, only afterwards. A file that already landed in the right place
    /// is not touched.
    pub fn placing(&self) -> (r: Placing)
        ensures
            match r {
                Placing::There => !astray(self@),
                Placing::Move { from, to } => astray(self@) && Some(from@) == self@.landed && to@
                    == self@.wanted,
            },
    {
        match &self.landed {
            Some(at) => if pathname::same_path(at.as_str(), self.wanted.as_str()) {
                Placing::There
            } else {
                Placing::Move { from: at.clone(), to: self.wanted.clone() }
            },
            None => Placing::There,
        }
    }

    /// Where the file ended up, given whether a move that was needed happened.
    ///
    /// A move that could not happen leaves the file where the engine put it: a
    /// list entry pointing at nothing is worse than a surprising path.
    pub fn place(&self, moved: bool) -> (r: String)
        ensures
            r@ == resting(self@, moved),
    {
        match &self.landed {
            Some(at) => if !moved && !pathname::same_path(at.as_str(), self.wanted.as_str()) {
                at.clone()
            } else {
                self.wanted.clone()
            },
            None => self.wanted.clone(),
        }
    }

    /// The bytes have stopped arriving. The list says where the file really is,
    /// and the note to show comes back, unless the transfer had ended already.
    pub fn finished(
        &self,
        list: &mut Downloads,
        url: Option<&str>,
        moved: bool,
    ) -> (r: Option<String>)
        ensures
            ({
                let said = match url {
                    Some(late) => Some(late@),
                    None => None,
                };
                let actual = resting(self@, moved);
                let moving = if pathname::same_place(actual, self@.wanted) {
                    old(list)@
                } else {
                    renamed(old(list)@, self@.wanted, actual)
                };
                &&& final(list)@ == finished(moving, actual, said, true)
                &&& match r {
                    Some(note) => running(moving, actual) matches Some(i) && note@ == "Saved "@
                        + fetch_name(final(list)@[i]),
                    None => running(moving, actual) is None,
                }
            }),
    {
        let actual = self.place(moved);
        if !pathname::same_path(actual.as_str(), self.wanted.as_str()) {
            list.rename(self.wanted.as_str(), actual.as_str());
        }
        match list.finish(actual.as_str(), url, true) {
            Some(entry) => {
                let mut note = "Saved ".to_owned();
                note.append(entry.name().as_str());
                Some(note)
            },
            None => None,
        }
    }

    /// The transfer has failed.
    pub fn failed(&self, list: &mut Downloads, url: Option<&str>) -> (r: Option<String>)
        ensures
            ({
                let said = match url {
                    Some(late) => Some(late@),
                    None => None,
                };
                &&& final(list)@ == finished(old(list)@, self@.wanted, said, false)
                &&& match r {
                    Some(note) => running(old(list)@, self@.wanted) matches Some(i) && note@
                        == "Download failed: "@ + fetch_name(final(list)@[i]),
                    None => running(old(list)@, self@.wanted) is None,
                }
            }),
    {
        match list.finish(self.wanted.as_str(), url, false) {
            Some(entry) => {
                let mut note = "Download failed: ".to_owned();
                note.append(entry.name().as_str());
                Some(note)
            },
            None => None,
        }
    }
}

/// The path the engine means by a destination, given what it decodes to as a
/// `file:` address, if it does.
pub fn path_from_destination(raw: &str, decoded: Option<String>) -> (r: String)
    ensures
        r@ == match decoded {
            Some(path) if text::has_prefix(raw@, "file://"@) => path@,
            _ => raw@,
        },
{
    if text::starts_with(raw, "file://") {
        match decoded {
            Some(path) => path,
            None => raw.to_owned(),
        }
    } else {
        raw.to_owned()
    }
}

// ---------------------------------------------------------------------------
// Laws
// ---------------------------------------------------------------------------

proof fn lemma_row_reads_back(f: Fetch)
    requires
        writable(f),
    ensures
        table::one_line(row(f)),
        read_row(row(f)) == Some(settled(f)),
{
    let a = number::decimal(f.started as nat);
    let w = state_name(f.ok);
    let u = on_one_line(f.url);
    let tab = seq!['\t'];
    reveal_strlit("running");
    reveal_strlit("done");
    reveal_strlit("failed");
    assert("running"@ =~= seq!['r', 'u', 'n', 'n', 'i', 'n', 'g']);
    assert("done"@ =~= seq!['d', 'o', 'n', 'e']);
    assert("failed"@ =~= seq!['f', 'a', 'i', 'l', 'e', 'd']);
    assert("running"@.len() != "done"@.len());
    assert("failed"@.len() != "done"@.len());
    assert(table::free_of(w, '\t') && table::free_of(w, '\n'));
    number::lemma_decimal(f.started as nat);
    number::law_decimal_reads_back(f.started as nat, u64::MAX as nat);
    assert(table::free_of(a, '\t') && table::free_of(a, '\n')) by {
        assert forall|i: int| 0 <= i < a.len() implies a[i] != '\t' && a[i] != '\n' by {
            assert(number::is_digit(a[i]));
        }
    }
    let rest2 = f.path + tab + u;
    let rest1 = w + tab + rest2;
    assert(row(f) =~= a + tab + rest1);
    table::lemma_cut_field(a, rest1, '\t');
    table::lemma_cut_field(w, rest2, '\t');
    table::lemma_cut_field(f.path, u, '\t');
    table::lemma_last_field(u, 1, '\t');
    let f1 = text::fields(u, 1, '\t');
    let f2 = text::fields(rest2, 2, '\t');
    let f3 = text::fields(rest1, 3, '\t');
    let f4 = text::fields(row(f), 4, '\t');
    assert(f2 == seq![f.path] + f1);
    assert(f3 == seq![w] + f2);
    assert(f4 == seq![a] + f3);
    assert(f4 =~= seq![a, w, f.path, u]);
    let line = row(f);
    assert forall|i: int| 0 <= i < line.len() implies line[i] != '\n' by {}
    if line.last() == '\r' {
        assert(u.len() > 0 && line.last() == u.last());
        assert(u.last() == f.url.last());
    }
}

/// What the downloads are written as reads back as the same downloads in the
/// same order: one that was done is done, and every other one has failed. Tabs
/// and newlines in an address become spaces. It holds where no path has a tab or
/// a newline in it and no address ends with a carriage return.
pub proof fn law_downloads_read_back(all: Seq<Fetch>)
    requires
        forall|i: int| 0 <= i < all.len() ==> writable(#[trigger] all[i]),
    ensures
        read_back(Some(sheet(all))) == all.map_values(|f: Fetch| settled(f)),
{
    let rows = all.map_values(|f: Fetch| row(f));
    let records = all.map_values(|f: Fetch| settled(f));
    assert forall|i: int| 0 <= i < rows.len() implies table::one_line(#[trigger] rows[i])
        && read_row(rows[i]) == Some(records[i]) by {
        lemma_row_reads_back(all[i]);
    }
    table::lemma_sheet_reads_back(rows, |l: Seq<char>| read_row(l), records);
}

/// A transfer that has just started is the newest on the list, running, and the
/// one found under its path.
pub proof fn law_started_is_running(all: Seq<Fetch>, url: Seq<char>, path: Seq<char>, now: u64)
    ensures
        started(all, url, path, now).len() <= CAP,
        started(all, url, path, now).len() > 0,
        started(all, url, path, now)[0].ok is None,
        started(all, url, path, now)[0].url == url,
        running(started(all, url, path, now), path) == Some(0int),
{
    let want = |f: Fetch| pathname::same_place(f.path, path) && f.ok is None;
    let after = started(all, url, path, now);
    assert(want(after[0]));
    list::lemma_first_where(after, want, 0);
}

/// Whether no two running transfers are headed for the same place.
pub open spec fn one_to_a_path(all: Seq<Fetch>) -> bool {
    forall|i: int, j: int|
        0 <= i < j < all.len() && (#[trigger] all[i]).ok is None && (#[trigger] all[j]).ok is None
            ==> !pathname::same_place(all[i].path, all[j].path)
}

proof fn lemma_same_place(a: Seq<char>, b: Seq<char>, c: Seq<char>)
    requires
        pathname::same_place(a, c),
        pathname::same_place(b, c),
    ensures
        pathname::same_place(a, b),
{
}

/// A transfer that has ended stays ended: a second report of how it went changes
/// nothing. It holds where no two running transfers are headed for the same
/// place, which is what [`unique`] is for.
pub proof fn law_ended_stays_ended(
    all: Seq<Fetch>,
    path: Seq<char>,
    url: Option<Seq<char>>,
    ok: bool,
    again: Option<Seq<char>>,
    other: bool,
)
    requires
        one_to_a_path(all),
    ensures
        running(finished(all, path, url, ok), path) is None,
        finished(finished(all, path, url, ok), path, again, other) == finished(
            all,
            path,
            url,
            ok,
        ),
{
    let want = |f: Fetch| pathname::same_place(f.path, path) && f.ok is None;
    let after = finished(all, path, url, ok);
    list::lemma_first_where_is_first(all, want);
    match running(all, path) {
        Some(i) => {
            assert forall|j: int| 0 <= j < after.len() implies !want(#[trigger] after[j]) by {
                if j != i {
                    assert(after[j] == all[j]);
                    if want(all[j]) {
                        lemma_same_place(all[i].path, all[j].path, path);
                        lemma_same_place(all[j].path, all[i].path, path);
                    }
                }
            }
            list::lemma_first_where(after, want, after.len() as int);
        },
        None => {},
    }
}

/// Ending one transfer leaves every other one as it was.
pub proof fn law_ending_touches_one(
    all: Seq<Fetch>,
    path: Seq<char>,
    url: Option<Seq<char>>,
    ok: bool,
)
    ensures
        finished(all, path, url, ok).len() == all.len(),
        forall|i: int|
            0 <= i < all.len() && !pathname::same_place(all[i].path, path) ==> #[trigger] finished(
                all,
                path,
                url,
                ok,
            )[i] == all[i],
{
    list::lemma_first_where_is_first(
        all,
        |f: Fetch| pathname::same_place(f.path, path) && f.ok is None,
    );
}

/// A running transfer that is sent elsewhere is found there.
pub proof fn law_renamed_is_found(all: Seq<Fetch>, from: Seq<char>, to: Seq<char>)
    requires
        running(all, from) is Some,
    ensures
        running(renamed(all, from, to), to) is Some,
{
    let at_from = |f: Fetch| pathname::same_place(f.path, from) && f.ok is None;
    let at_to = |f: Fetch| pathname::same_place(f.path, to) && f.ok is None;
    list::lemma_first_where_is_first(all, at_from);
    let after = renamed(all, from, to);
    let i = running(all, from).unwrap();
    assert(at_to(after[i]));
    list::lemma_first_where_is_first(after, at_to);
}

/// A name a server chose stays inside the directory it is put in: it is not
/// empty, it is neither of the names that mean a directory, and there is no
/// slash and no control character in it.
pub proof fn law_name_stays_inside(name: Seq<char>)
    ensures
        harmless(name).len() > 0,
        harmless(name) != "."@,
        harmless(name) != ".."@,
        forall|i: int|
            0 <= i < harmless(name).len() ==> #[trigger] harmless(name)[i] != '/' && !is_control(
                harmless(name)[i],
            ),
{
    reveal_strlit("download");
    reveal_strlit(".");
    reveal_strlit("..");
    assert("download"@ =~= seq!['d', 'o', 'w', 'n', 'l', 'o', 'a', 'd']);
    let bare = text::trimmed_of(text::trimmed(base_name(name)), "."@);
    let fine = |c: char| !is_control(c) && c != '/';
    list::lemma_kept(bare, fine);
    let out = harmless(name);
    assert forall|i: int| 0 <= i < out.len() implies #[trigger] out[i] != '/' && !is_control(
        out[i],
    ) by {
        if out == list::kept(bare, fine) {
            assert(fine(list::kept(bare, fine)[i]));
        }
    }
}

/// A transfer that has just started stands in front of everything that was there,
/// which stands behind it as it did, but for the oldest where there is no more room.
pub proof fn law_starting_moves_nothing_else(
    all: Seq<Fetch>,
    url: Seq<char>,
    path: Seq<char>,
    now: u64,
)
    ensures
        ({
            let after = started(all, url, path, now);
            &&& after[0].path == path && after[0].started == now
            &&& after[0].progress == 0 && after[0].bytes == 0
            &&& all.len() < 200 ==> after.len() == all.len() + 1
            &&& all.len() >= 200 ==> after.len() == 200
            &&& forall|i: int| 1 <= i < after.len() ==> #[trigger] after[i] == all[i - 1]
        }),
{
}

/// Ending a transfer says how it went, and when and where it went to stay as they
/// were. Where it came from is filled in only if nobody knew.
pub proof fn law_ending_says_how_it_went(
    all: Seq<Fetch>,
    path: Seq<char>,
    late: Seq<char>,
    ok: bool,
)
    ensures
        match running(all, path) {
            Some(i) => {
                let after = finished(all, path, Some(late), ok)[i];
                let told = finished(all, path, None, ok)[i];
                &&& 0 <= i < all.len()
                &&& after.ok == Some(ok) && told.ok == Some(ok)
                &&& after.path == all[i].path && after.started == all[i].started
                &&& after.bytes == all[i].bytes
                &&& all[i].url.len() > 0 ==> after.url == all[i].url
                &&& all[i].url.len() == 0 ==> after.url == late
                &&& told.url == all[i].url
            },
            None => finished(all, path, Some(late), ok) == all,
        },
{
    list::lemma_first_where_is_first(
        all,
        |f: Fetch| pathname::same_place(f.path, path) && f.ok is None,
    );
}

/// Word of how far a transfer has got, or of where it is headed now, is about that
/// transfer alone and changes nothing else of it. It runs on as before.
pub proof fn law_news_is_about_one_transfer(
    all: Seq<Fetch>,
    path: Seq<char>,
    progress: u8,
    bytes: u64,
    to: Seq<char>,
)
    ensures
        ({
            let further = progressed(all, path, progress, bytes);
            let moved = renamed(all, path, to);
            &&& further.len() == all.len() && moved.len() == all.len()
            &&& forall|i: int|
                0 <= i < all.len() && running(all, path) != Some(i) ==> #[trigger] further[i]
                    == all[i]
            &&& forall|i: int|
                0 <= i < all.len() && running(all, path) != Some(i) ==> #[trigger] moved[i]
                    == all[i]
            &&& running(all, path) matches Some(i) ==> {
                &&& further[i].progress == progress && further[i].bytes == bytes
                &&& further[i].url == all[i].url && further[i].path == all[i].path
                &&& further[i].started == all[i].started && further[i].ok is None
                &&& moved[i].path == to && moved[i].url == all[i].url
                &&& moved[i].started == all[i].started && moved[i].ok is None
                &&& moved[i].progress == all[i].progress && moved[i].bytes == all[i].bytes
            }
        }),
{
    list::lemma_first_where_is_first(
        all,
        |f: Fetch| pathname::same_place(f.path, path) && f.ok is None,
    );
}

/// Whether a name can be kept as it is: something, with no slash of either kind in
/// it, nothing that does not print, and no white space and no dot at either end.
pub open spec fn is_plain(name: Seq<char>) -> bool {
    &&& name.len() > 0
    &&& forall|i: int|
        0 <= i < name.len() ==> #[trigger] name[i] != '/' && name[i] != '\\' && !is_control(name[i])
    &&& !text::is_space(name[0]) && !text::is_space(name.last())
    &&& name[0] != '.' && name.last() != '.'
}

/// A name that is plain already is kept as it is, and so it is when it comes with
/// directories in front of it, whichever way their slashes lean.
pub proof fn law_plain_name_is_kept(dirs: Seq<char>, name: Seq<char>)
    requires
        is_plain(name),
    ensures
        harmless(name) == name,
        harmless(dirs + seq!['/'] + name) == name,
        harmless(dirs + seq!['\\'] + name) == name,
{
    reveal_strlit(".");
    reveal_strlit("..");
    let slash = |c: char| c == '/' || c == '\\';
    let fine = |c: char| !is_control(c) && c != '/';
    let dot = |c: char| "."@.contains(c);
    assert("."@ =~= seq!['.']);
    list::lemma_kept_all(name, fine);
    assert forall|i: int| 0 <= i < name.len() implies !slash(#[trigger] name[i]) by {}
    list::lemma_last_where(name, slash, -1);
    assert(text::trimmed(name) == name);
    assert(!dot(name[0]) && !dot(name.last()));
    assert(text::trim_start_by(name, dot) == name);
    assert(text::trim_end_by(name, dot) == name);
    assert(text::trimmed_of(name, "."@) == name);
    assert("."@[0] == '.' && ".."@[0] == '.');
    let a = dirs + seq!['/'] + name;
    let b = dirs + seq!['\\'] + name;
    let at = dirs.len() as int;
    assert forall|j: int| at < j < a.len() implies !slash(#[trigger] a[j]) by {
        assert(a[j] == name[j - at - 1]);
    }
    assert forall|j: int| at < j < b.len() implies !slash(#[trigger] b[j]) by {
        assert(b[j] == name[j - at - 1]);
    }
    assert(slash(a[at]) && slash(b[at]));
    list::lemma_last_where(a, slash, at);
    list::lemma_last_where(b, slash, at);
    assert(a.skip(at + 1) =~= name);
    assert(b.skip(at + 1) =~= name);
}

/// A copy is numbered in front of the extension, so that the file still opens in the
/// right application. Without an extension the number comes last.
pub proof fn law_copy_keeps_its_extension(stem: Seq<char>, ext: Seq<char>, n: nat)
    requires
        n > 0,
        stem.len() > 0,
        ext.len() > 0,
        !ext.contains('.'),
        is_plain(stem + seq!['.'] + ext),
    ensures
        copy_name(stem + seq!['.'] + ext, n as int) == stem + " ("@ + number::decimal(n) + ")."@
            + ext,
        !stem.contains('.') && is_plain(stem) ==> copy_name(stem, n as int) == stem + " ("@
            + number::decimal(n) + ")"@,
{
    reveal_strlit(" (");
    reveal_strlit(")");
    reveal_strlit(").");
    reveal_strlit(".");
    let name = stem + seq!['.'] + ext;
    law_plain_name_is_kept(Seq::empty(), name);
    let at = stem.len() as int;
    assert forall|j: int| at < j < name.len() implies name[j] != '.' by {
        assert(name[j] == ext[j - at - 1]);
    }
    text::lemma_last_of(name, '.', at);
    assert(name.take(at) =~= stem);
    assert(name.skip(at + 1) =~= ext);
    assert(copy_name(name, n as int) =~= stem + " ("@ + number::decimal(n) + ")."@ + ext);
    if !stem.contains('.') && is_plain(stem) {
        law_plain_name_is_kept(Seq::empty(), stem);
        assert forall|j: int| 0 <= j < stem.len() implies stem[j] != '.' by {
            assert(stem.contains(stem[j]));
        }
        text::lemma_last_of(stem, '.', -1);
        assert(copy_name(stem, n as int) =~= stem + " ("@ + number::decimal(n) + ")"@);
    }
}

/// A name that nothing stands under is used as it is, and a name that is chosen is
/// never one that is there.
pub proof fn law_nothing_is_overwritten(
    there: Seq<Seq<char>>,
    dir: Seq<char>,
    name: Seq<char>,
    path: Seq<char>,
)
    requires
        is_free(there, dir, name, path),
    ensures
        !there.contains(harmless(name)) ==> path == pathname::under(dir, harmless(name)),
        exists|chosen: Seq<char>|
            path == #[trigger] pathname::under(dir, chosen) && !there.contains(chosen),
{
    let n = choose|n: int|
        {
            &&& 0 <= n
            &&& path == #[trigger] attempt(dir, name, n)
            &&& !there.contains(copy_name(name, n))
            &&& forall|m: int| 0 <= m < n ==> there.contains(#[trigger] copy_name(name, m))
        };
    if n > 0 {
        assert(there.contains(copy_name(name, 0)));
    }
    assert(path == pathname::under(dir, copy_name(name, n)));
}

/// A server is heard once, and only where it has something new to say.
pub proof fn law_better_name_is_news(course: Course, name: Seq<char>)
    ensures
        course.heard ==> better_name(course, Some(name)) is None,
        better_name(course, Some(course.implied)) is None,
        better_name(course, None) is None,
        !course.heard && name.len() > 0 && name != course.implied ==> better_name(
            course,
            Some(name),
        ) == Some(name),
{
}

/// The first directory the desktop names is where downloads go, unless the
/// environment says otherwise, and the one called Downloads where neither does.
pub proof fn law_first_directory_named_wins(
    home: Seq<char>,
    before: Seq<Seq<char>>,
    line: Seq<char>,
    text: Seq<char>,
    dir: Seq<char>,
)
    requires
        forall|i: int| 0 <= i < before.len() ==> named_dir(#[trigger] before[i], home) is None,
        named_dir(line, home) == Some(dir),
        text::lines(text).len() > before.len(),
        text::lines(text).take(before.len() as int) == before,
        text::lines(text)[before.len() as int] == line,
    ensures
        download_home(home, None, Some(text)) == dir,
        download_home(home, None, None) == pathname::under(home, "Downloads"@),
        forall|said: Seq<char>|
            pathname::absolute(said) ==> #[trigger] download_home(home, Some(said), Some(text))
                == said,
{
    let all = text::lines(text);
    let read = |l: Seq<char>| named_dir(l, home);
    let n = before.len() as int;
    list::lemma_collected_none(before, read);
    lemma_collected_keeps_first(all, read, n);
}

/// A line of the file is when, how it stands, the path and the address, with tabs
/// between. Only the one word is a file that is there.
pub proof fn law_line_is_a_download(at: u64, word: Seq<char>, path: Seq<char>, url: Seq<char>)
    requires
        table::free_of(word, '\t'),
        table::free_of(path, '\t'),
    ensures
        read_row(
            number::decimal(at as nat) + seq!['\t'] + word + seq!['\t'] + path + seq!['\t'] + url,
        ) == Some(
            Fetch {
                url,
                path,
                started: at,
                ok: Some(word == "done"@),
                progress: 0,
                bytes: 0,
            },
        ),
{
    let a = number::decimal(at as nat);
    let tab = seq!['\t'];
    number::lemma_decimal(at as nat);
    number::law_decimal_reads_back(at as nat, u64::MAX as nat);
    assert(table::free_of(a, '\t')) by {
        assert forall|i: int| 0 <= i < a.len() implies a[i] != '\t' by {
            assert(number::is_digit(a[i]));
        }
    }
    let rest2 = path + tab + url;
    let rest1 = word + tab + rest2;
    let line = a + tab + word + tab + path + tab + url;
    assert(line =~= a + tab + rest1);
    table::lemma_cut_field(a, rest1, '\t');
    table::lemma_cut_field(word, rest2, '\t');
    table::lemma_cut_field(path, url, '\t');
    table::lemma_last_field(url, 1, '\t');
    assert(text::fields(rest2, 2, '\t') == seq![path] + text::fields(url, 1, '\t'));
    assert(text::fields(rest1, 3, '\t') == seq![word] + text::fields(rest2, 2, '\t'));
    assert(text::fields(line, 4, '\t') == seq![a] + text::fields(rest1, 3, '\t'));
    assert(text::fields(line, 4, '\t') =~= seq![a, word, path, url]);
}

/// A file rests where it was wanted once it has been moved there, and otherwise at the place
/// where it landed.
pub proof fn law_file_rests_where_it_is(course: Course)
    ensures
        resting(course, true) == course.wanted,
        course.landed matches Some(at) ==> pathname::same_place(at, resting(course, false)),
        course.landed is None ==> resting(course, false) == course.wanted,
        astray(course) ==> !pathname::same_place(resting(course, false), resting(course, true)),
{
    match course.landed {
        Some(at) => {
            pathname::law_same_place_is_mutual(at, course.wanted, at);
        },
        None => {},
    }
}

/// The last part of an address names its file, whatever the host. With no last part the host
/// does.
pub proof fn law_address_names_the_file(
    last: Seq<char>,
    host: Seq<char>,
    any: Option<Option<Seq<char>>>,
)
    requires
        last.len() > 0,
    ensures
        implied_name(Some(Some(last)), any) == last,
        implied_name(Some(None), Some(Some(host))) == host,
        implied_name(Some(Some(Seq::empty())), Some(Some(host))) == host,
        implied_name(None, any) == "download"@,
        implied_name(Some(None), None) == "download"@,
        implied_name(Some(None), Some(None)) == "download"@,
{
}

} // verus!
