//! `bookmark`: pages worth keeping.

use vstd::prelude::*;

use crate::bookmarks;
use crate::bookmarks::Bookmarks;
use crate::commands;
use crate::commands::history::Visited;
use crate::commands::{Here, Refusal};
use crate::text;

verus! {

/// A page that was kept, or forgotten.
#[derive(Debug)]
pub struct Bookmarked {
    pub url: String,
    pub title: String,
    /// False when the page was already kept and only its title was refreshed.
    pub added: bool,
}

/// The page to keep: the one asked for, or the one being looked at.
pub open spec fn kept_url(
    option: Option<Seq<char>>,
    positional: Option<Seq<char>>,
    here: Option<Seq<char>>,
) -> Option<Seq<char>> {
    commands::nonempty(commands::first(commands::first(option, positional), here))
}

/// `bookmark add`: keep the current page, or a given one.
pub fn add(
    marks: &mut Bookmarks,
    option: Option<String>,
    positional: Option<String>,
    title: Option<String>,
    here: Option<&Here>,
    now: u64,
) -> (r: Result<Bookmarked, Refusal>)
    ensures
        match kept_url(
            text::maybe_owned(option),
            text::maybe_owned(positional),
            commands::here_url(here),
        ) {
            Some(url) => {
                let name = commands::or_empty(
                    commands::first(text::maybe_owned(title), commands::here_title(here)),
                );
                &&& r matches Ok(kept) && kept.url@ == url && kept.title@ == name && kept.added
                    == (bookmarks::place(old(marks)@, url) is None)
                &&& final(marks)@ == bookmarks::added(old(marks)@, url, name, now)
            },
            None => {
                &&& r matches Err(refusal) && commands::refuses(
                    refusal,
                    "usage"@,
                    "there is no page to bookmark"@,
                )
                &&& final(marks)@ == old(marks)@
            },
        },
{
    let asked = commands::either(commands::either(option, positional), commands::url_of(here));
    let url = match commands::unless_empty(asked) {
        Some(url) => url,
        None => return Err(commands::refuse("usage", "there is no page to bookmark")),
    };
    let title = commands::or_nothing(commands::either(title, commands::title_of(here)));
    let added = marks.add(url.as_str(), title.as_str(), now);
    Ok(Bookmarked { url, title, added })
}

/// `bookmark remove`: forget a page, defaulting to the current one.
pub fn remove(
    marks: &mut Bookmarks,
    option: Option<String>,
    positional: Option<String>,
    here: Option<&Here>,
) -> (r: Result<Bookmarked, Refusal>)
    ensures
        match commands::first(
            commands::first(text::maybe_owned(option), text::maybe_owned(positional)),
            commands::here_url(here),
        ) {
            Some(url) => {
                &&& final(marks)@ == bookmarks::removed(old(marks)@, url)
                &&& if bookmarks::place(old(marks)@, url) is Some {
                    r matches Ok(gone) && gone.url@ == url && gone.title@.len() == 0 && !gone.added
                } else {
                    r matches Err(refusal) && commands::refuses(
                        refusal,
                        "not_found"@,
                        url + " was not bookmarked"@,
                    )
                }
            },
            None => {
                &&& r matches Err(refusal) && commands::refuses(
                    refusal,
                    "usage"@,
                    "no page to forget"@,
                )
                &&& final(marks)@ == old(marks)@
            },
        },
{
    let asked = commands::either(commands::either(option, positional), commands::url_of(here));
    let url = match asked {
        Some(url) => url,
        None => return Err(commands::refuse("usage", "no page to forget")),
    };
    let gone = marks.remove(url.as_str());
    if gone {
        Ok(Bookmarked { url, title: String::new(), added: false })
    } else {
        let mut message = url;
        message.append(" was not bookmarked");
        Err(Refusal { code: "not_found", message })
    }
}

/// `bookmark list`: the kept pages, newest first.
pub fn list(marks: &Bookmarks) -> (r: Vec<Visited>)
    ensures
        r@.len() == marks@.len(),
        forall|i: int|
            0 <= i < marks@.len() ==> (#[trigger] r@[i]).url@ == marks@[i].url && r@[i].title@
                == marks@[i].title && r@[i].visits == 0,
{
    let entries = marks.entries();
    let mut out: Vec<Visited> = Vec::new();
    let mut i: usize = 0;
    while i < entries.len()
        invariant
            i <= entries.len(),
            bookmarks::marks(entries@) == marks@,
            out@.len() == i,
            forall|j: int|
                0 <= j < i ==> (#[trigger] out@[j]).url@ == marks@[j].url && out@[j].title@
                    == marks@[j].title && out@[j].visits == 0,
        decreases entries.len() - i,
    {
        let mark = &entries[i];
        assert(marks@[i as int] == mark@);
        out.push(Visited { url: mark.url.clone(), title: mark.title.clone(), visits: 0 });
        i += 1;
    }
    assert(entries@.len() == marks@.len());
    out
}

// ---------------------------------------------------------------------------
// Laws
// ---------------------------------------------------------------------------

/// A page named outright is the one that is kept, by its option before its place in the
/// line, and the page being looked at only where none is named. Nothing at all is none.
pub proof fn law_named_page_is_kept(
    option: Seq<char>,
    positional: Option<Seq<char>>,
    here: Option<Seq<char>>,
)
    requires
        option.len() > 0,
    ensures
        kept_url(Some(option), positional, here) == Some(option),
        kept_url(None, Some(option), here) == Some(option),
        kept_url(None, None, Some(option)) == Some(option),
        kept_url(None, None, None) is None,
        kept_url(None, None, Some(Seq::empty())) is None,
{
}

} // verus!
