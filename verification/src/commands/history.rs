//! `history`: where the browser has been.

use vstd::prelude::*;

use crate::commands;
use crate::history;
use crate::history::History;
use crate::list;

verus! {

/// A page, as it is listed.
#[derive(Debug)]
pub struct Visited {
    pub url: String,
    pub title: String,
    pub visits: u32,
}

/// `history list`: the pages visited, newest first.
pub fn list(history: &History, limit: Option<u32>) -> (r: Vec<Visited>)
    ensures
        ({
            let shown = list::at_most(history@.seen, commands::shown_of(limit));
            &&& r@.len() == shown.len()
            &&& forall|i: int|
                0 <= i < shown.len() ==> (#[trigger] r@[i]).url@ == shown[i].url && r@[i].title@
                    == shown[i].title && r@[i].visits == shown[i].visits
        }),
{
    let entries = history.entries();
    let limit: u32 = commands::limit_of(limit);
    let mut out: Vec<Visited> = Vec::new();
    let mut i: usize = 0;
    assert(entries@.len() == history@.seen.len());
    while i < entries.len() && i < limit as usize
        invariant
            i <= entries.len(),
            i <= limit,
            history::all_seen(entries@) == history@.seen,
            out@.len() == i,
            forall|j: int|
                0 <= j < i ==> (#[trigger] out@[j]).url@ == history@.seen[j].url && out@[j].title@
                    == history@.seen[j].title && out@[j].visits == history@.seen[j].visits,
        decreases entries.len() - i,
    {
        let visit = &entries[i];
        assert(history@.seen[i as int] == visit@);
        out.push(
            Visited { url: visit.url.clone(), title: visit.title.clone(), visits: visit.visits },
        );
        i += 1;
    }
    out
}

/// `history clear`: forget every page, and say how many there were.
pub fn clear(history: &mut History) -> (r: usize)
    ensures
        r == old(history)@.seen.len(),
        final(history)@ == (history::Log { seen: Seq::empty(), dirty: true, ..old(history)@ }),
{
    let cleared: usize = history.entries().len();
    history.clear();
    cleared
}

} // verus!
