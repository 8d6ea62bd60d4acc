//! `download`: files this browser has saved.

use vstd::prelude::*;

use crate::commands;
use crate::commands::share;
use crate::commands::Refusal;
use crate::downloads;
use crate::downloads::{Download, Downloads};
use crate::list;
use crate::number;
use crate::pathname;

verus! {

/// A download, as it is listed.
#[derive(Debug)]
pub struct Saved {
    /// The file's own name, which is the part a human recognises.
    pub name: String,
    /// Where it went.
    pub path: String,
    pub url: String,
    /// `running`, `done` or `failed`.
    pub state: String,
    /// How far along, as a whole percent. Only while it is still running.
    pub percent: Option<u8>,
    /// Bytes written so far. Zero for anything from a previous session.
    pub bytes: u64,
}

/// Whether a row says what a download is.
pub open spec fn tells(row: Saved, fetch: downloads::Fetch) -> bool {
    &&& row.name@ == downloads::fetch_name(fetch)
    &&& row.path@ == fetch.path
    &&& row.url@ == fetch.url
    &&& row.state@ == downloads::state_name(fetch.ok)
    &&& row.percent == if fetch.ok is None {
        Some(fetch.progress)
    } else {
        None
    }
    &&& row.bytes == fetch.bytes
}

pub fn saved(d: &Download) -> (r: Saved)
    ensures
        tells(r, d@),
{
    Saved {
        name: d.name(),
        path: d.path.clone(),
        url: d.url.clone(),
        state: d.state().to_owned(),
        percent: d.percent(),
        bytes: d.bytes,
    }
}

/// Which download was picked: the position counts from one, and with none it is
/// the newest.
pub open spec fn picked(index: Option<usize>, len: nat) -> Option<int> {
    match index {
        Some(n) => if 1 <= n <= len {
            Some(n - 1)
        } else {
            None
        },
        None => if len > 0 {
            Some(0)
        } else {
            None
        },
    }
}

/// Pick one download out of the list, by position or "the newest".
pub fn pick(downloads: &Downloads, index: Option<usize>) -> (r: Result<Saved, Refusal>)
    ensures
        match picked(index, downloads@.len()) {
            Some(i) => r matches Ok(row) && tells(row, downloads@[i]),
            None => r matches Err(refusal) && commands::refuses(
                refusal,
                "missing_id"@,
                match index {
                    Some(n) => "there is no download "@ + number::decimal(n as nat),
                    None => "nothing has been downloaded"@,
                },
            ),
        },
{
    let entry = match index {
        Some(n) => match downloads.nth(n) {
            Some(entry) => entry,
            None => {
                let mut message = "there is no download ".to_owned();
                message.append(number::to_decimal(n as u64).as_str());
                return Err(Refusal { code: "missing_id", message });
            },
        },
        None => match downloads.nth(1) {
            Some(entry) => entry,
            None => return Err(commands::refuse("missing_id", "nothing has been downloaded")),
        },
    };
    Ok(saved(entry))
}

/// `download list`: the downloads, newest first.
pub fn list(downloads: &Downloads, limit: Option<u32>) -> (r: Vec<Saved>)
    ensures
        ({
            let shown = list::at_most(downloads@, commands::shown_of(limit));
            &&& r@.len() == shown.len()
            &&& forall|i: int| 0 <= i < shown.len() ==> tells(#[trigger] r@[i], shown[i])
        }),
{
    let entries = downloads.entries();
    let limit: u32 = commands::limit_of(limit);
    let mut out: Vec<Saved> = Vec::new();
    let mut i: usize = 0;
    assert(entries@.len() == downloads@.len());
    while i < entries.len() && i < limit as usize
        invariant
            i <= entries.len(),
            i <= limit,
            downloads::fetches(entries@) == downloads@,
            out@.len() == i,
            forall|j: int| 0 <= j < i ==> tells(#[trigger] out@[j], downloads@[j]),
        decreases entries.len() - i,
    {
        assert(downloads@[i as int] == entries@[i as int]@);
        out.push(saved(&entries[i]));
        i += 1;
    }
    out
}

/// The directory downloads land in, given where one would.
pub fn directory(path: &str) -> (r: String)
    ensures
        r@ == commands::or_empty(pathname::parent_of(path@)),
{
    commands::or_nothing(pathname::parent(path))
}

/// What a desktop helper does with a download.
#[derive(Debug, Clone, Copy, PartialEq, Eq, Structural)]
pub enum Errand {
    /// `download open`: the desktop already knows what opens the file.
    Open,
    /// `download reveal`: show the folder it is in.
    Reveal,
    /// `download copy`: put its path on the clipboard.
    Copy,
}

/// The helper that runs an errand.
pub open spec fn helper(errand: Errand) -> Seq<char> {
    match errand {
        Errand::Open => "xdg-open"@,
        Errand::Reveal => "xdg-open"@,
        Errand::Copy => "wl-copy"@,
    }
}

/// What a failed errand is reported as.
pub open spec fn errand_code(errand: Errand) -> Seq<char> {
    match errand {
        Errand::Open => "desktop"@,
        Errand::Reveal => "desktop"@,
        Errand::Copy => "clipboard"@,
    }
}

impl Errand {
    /// The helper that runs it.
    pub fn program(self) -> (r: &'static str)
        ensures
            r@ == helper(self),
    {
        match self {
            Errand::Open => "xdg-open",
            Errand::Reveal => "xdg-open",
            Errand::Copy => "wl-copy",
        }
    }

    /// What its failure is reported as.
    pub fn code(self) -> (r: &'static str)
        ensures
            r@ == errand_code(self),
    {
        match self {
            Errand::Open => "desktop",
            Errand::Reveal => "desktop",
            Errand::Copy => "clipboard",
        }
    }
}

/// What the helper is given: the file itself, the folder it is in, or its path,
/// or why there is nothing to give it. Only opening asks whether the file is
/// still there.
pub fn argument(errand: Errand, entry: &Saved, there: bool) -> (r: Result<String, Refusal>)
    ensures
        match errand {
            Errand::Open => if there {
                r matches Ok(path) && path@ == entry.path@
            } else {
                r matches Err(refusal) && commands::refuses(
                    refusal,
                    "gone"@,
                    entry.path@ + " is no longer on disk"@,
                )
            },
            Errand::Reveal => match pathname::parent_of(entry.path@) {
                Some(dir) => r matches Ok(found) && found@ == dir,
                None => r matches Err(refusal) && commands::refuses(
                    refusal,
                    "gone"@,
                    "that file has no folder"@,
                ),
            },
            Errand::Copy => r matches Ok(path) && path@ == entry.path@,
        },
{
    match errand {
        Errand::Open => {
            if there {
                Ok(entry.path.clone())
            } else {
                let mut message = entry.path.clone();
                message.append(" is no longer on disk");
                Err(Refusal { code: "gone", message })
            }
        },
        Errand::Reveal => match pathname::parent(entry.path.as_str()) {
            Some(dir) => Ok(dir),
            None => Err(commands::refuse("gone", "that file has no folder")),
        },
        Errand::Copy => Ok(entry.path.clone()),
    }
}

/// What an errand comes to, once its helper was run: the download, or a refusal
/// under the command's own code.
pub fn handed(errand: Errand, entry: Saved, ran: Result<Option<String>, String>) -> (r: Result<
    Saved,
    Refusal,
>)
    ensures
        match share::mishap(helper(errand), ran) {
            None => r == Ok::<Saved, Refusal>(entry),
            Some(message) => r matches Err(refusal) && commands::refuses(
                refusal,
                errand_code(errand),
                message,
            ),
        },
{
    match share::handoff(errand.program(), ran) {
        Ok(_) => Ok(entry),
        Err(message) => Err(Refusal { code: errand.code(), message }),
    }
}

/// `download clear`: forget the list, and say how many there were. The list, not
/// the files: deleting somebody's files because they tidied a list is not a thing
/// a browser gets to do.
pub fn clear(downloads: &mut Downloads) -> (r: usize)
    ensures
        r == old(downloads)@.len(),
        final(downloads)@.len() == 0,
{
    let entries = downloads.entries();
    assert(entries@.len() == downloads@.len());
    let cleared: usize = entries.len();
    downloads.clear();
    cleared
}

// ---------------------------------------------------------------------------
// Laws
// ---------------------------------------------------------------------------

/// Downloads are counted from one, newest first, and the newest is meant where no number
/// is given. A number past the end means none.
pub proof fn law_downloads_count_from_one(n: usize, len: nat)
    ensures
        picked(Some(0), len) is None,
        1 <= n <= len ==> picked(Some(n), len) == Some(n - 1),
        n > len ==> picked(Some(n), len) is None,
        len > 0 ==> picked(None, len) == picked(Some(1), len),
        picked(None, 0) is None,
{
}

/// A file is copied by the clipboard's program and opened by the desktop's.
pub proof fn law_each_errand_has_its_helper()
    ensures
        helper(Errand::Copy) == "wl-copy"@,
        helper(Errand::Open) == "xdg-open"@,
        helper(Errand::Reveal) == helper(Errand::Open),
        errand_code(Errand::Copy) == "clipboard"@,
        errand_code(Errand::Open) == "desktop"@,
        errand_code(Errand::Reveal) == errand_code(Errand::Open),
{
}

} // verus!
