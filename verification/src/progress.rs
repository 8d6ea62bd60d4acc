//! The load bar in the tab strip.

use vstd::prelude::*;

use crate::number;
use crate::text;

verus! {

/// How long the bar will wait for a first paint after the load itself is over,
/// in milliseconds.
///
/// Generous, because the whole point is the case where a page takes seconds to
/// put anything on screen, but bounded, because a document that paints nothing
/// at all must not leave the bar up forever.
pub const PAINT_GRACE: u64 = 6_000;

/// How often to ask, in milliseconds.
pub const PAINT_EVERY: u64 = 250;

/// Has this document put anything on screen yet?
///
/// `first-contentful-paint` rather than `first-paint`: the latter fires for the
/// background alone, which is exactly the blank window the bar must not claim to
/// have finished.
pub const PAINTED: &'static str =
    "(function(){try{return performance.getEntriesByName('first-contentful-paint').length>0;}catch(e){return false}})()";

/// Whether an answer to [`PAINTED`] means yes. `true` is the only one that does.
pub open spec fn says_painted(answer: Seq<char>) -> bool {
    text::trimmed_of(answer, "\""@) == "true"@
}

pub fn painted(answer: &str) -> (r: bool)
    ensures
        r == says_painted(answer@),
{
    text::same(text::trim_of(answer, "\"").as_str(), "true")
}

/// Whether to go on waiting for a first paint.
#[derive(Debug, Clone, Copy, PartialEq, Eq, Structural)]
pub enum Wait {
    Done,
    Again,
}

/// Hold until the page has painted, or until [`PAINT_GRACE`] runs out.
///
/// `asked` is whether the page could be asked at all: the tab can be closed
/// while its last load is being waited on. No answer in time, or any answer but
/// `true`, falls through to the deadline rather than holding the bar up on a
/// technicality.
pub fn await_paint(asked: bool, answer: Option<&str>, waited: u64) -> (r: Wait)
    ensures
        r == if !asked || (answer matches Some(said) && says_painted(said@)) || waited
            >= PAINT_GRACE {
            Wait::Done
        } else {
            Wait::Again
        },
{
    if !asked {
        return Wait::Done;
    }
    if let Some(said) = answer {
        if painted(said) {
            return Wait::Done;
        }
    }
    if waited >= PAINT_GRACE {
        Wait::Done
    } else {
        Wait::Again
    }
}

/// A fraction counted in ten-thousandths, brought into the range from nothing to
/// all of it.
pub open spec fn within(value: int) -> int {
    if value < 0 {
        0
    } else if value > 10_000 {
        10_000
    } else {
        value
    }
}

/// The call the strip's script answers.
pub open spec fn call_text(value: Option<int>) -> Seq<char> {
    match value {
        Some(fraction) => {
            let parts = within(fraction);
            "window.__omaLoad&&__omaLoad("@ + number::decimal((parts / 10_000) as nat) + "."@
                + number::padded((parts % 10_000) as nat, 4) + ",true)"@
        },
        None => "window.__omaLoad&&__omaLoad(1,false)"@,
    }
}

/// The one-line call the strip's script answers, for a load that is a fraction
/// of the way along, counted in ten-thousandths, or over.
///
/// Guarded, because it can land in the window between a strip reload starting
/// and its script having run, and an unguarded call would be a `ReferenceError`
/// in the chrome's console rather than a dropped frame.
pub fn call(value: Option<i32>) -> (r: String)
    ensures
        r@ == call_text(
            match value {
                Some(fraction) => Some(fraction as int),
                None => None,
            },
        ),
{
    match value {
        Some(fraction) => {
            let parts: u64 = if fraction < 0 {
                0
            } else if fraction > 10_000 {
                10_000
            } else {
                fraction as u64
            };
            let mut out = "window.__omaLoad&&__omaLoad(".to_owned();
            out.append(number::to_decimal(parts / 10_000).as_str());
            out.append(".");
            out.append(number::to_padded(parts % 10_000, 4).as_str());
            out.append(",true)");
            out
        },
        None => "window.__omaLoad&&__omaLoad(1,false)".to_owned(),
    }
}

/// The bar is told the fraction itself, to four places, and no fraction takes it outside of
/// its ends.
pub proof fn law_bar_stays_within_its_ends(value: int)
    ensures
        value < 0 ==> call_text(Some(value)) == call_text(Some(0)),
        value > 10_000 ==> call_text(Some(value)) == call_text(Some(10_000)),
        0 <= value < 10_000 ==> call_text(Some(value)) == "window.__omaLoad&&__omaLoad("@
            + number::decimal(0) + "."@ + number::padded(value as nat, 4) + ",true)"@,
        call_text(Some(10_000)) == "window.__omaLoad&&__omaLoad("@ + number::decimal(1) + "."@
            + number::padded(0, 4) + ",true)"@,
{
}

} // verus!
