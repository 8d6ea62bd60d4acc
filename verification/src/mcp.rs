//! Relaying the tools' protocol to a window, one message at a time.
//!
//! A client talks over standard input and output, one line a message; each line
//! becomes one request to the window and its answer one line back. Every message
//! is answered on its own, so nothing has to be kept alive between them.

use vstd::prelude::*;

use crate::control;
use crate::list;
use crate::text;

verus! {

/// The route the window answers on.
pub const ROUTE: &'static str = "/cmd/mcp";

/// What an answer may come as: a JSON body, or a stream of one event.
pub const ACCEPT: &'static str = "application/json, text/event-stream";

/// Whether a line holds a message, rather than nothing.
pub fn is_message(line: &str) -> (r: bool)
    ensures
        r == (text::trimmed(line@).len() > 0),
{
    !text::trim(line).as_str().is_empty()
}

/// What a line of an event stream carries.
pub open spec fn carried(line: Seq<char>) -> Option<Seq<char>> {
    match text::without_prefix(line, "data:"@) {
        Some(rest) => if text::trimmed(rest).len() > 0 {
            Some(text::trimmed(rest))
        } else {
            None
        },
        None => None,
    }
}

/// The JSON in an answer's body, if there is any.
pub open spec fn event(body: Seq<char>) -> Option<Seq<char>> {
    let trimmed = text::trimmed(body);
    let data = list::collected(text::lines(trimmed), |line: Seq<char>| carried(line));
    if trimmed.len() == 0 {
        None
    } else if data.len() == 0 {
        Some(trimmed)
    } else {
        Some(text::joined(data, "\n"@))
    }
}

/// Pull the JSON back out of whatever shape the answer arrived in.
///
/// A stream of one event is one `data:` line and a blank one; a notification is
/// answered with no body at all. Both are ordinary here, so neither is an error.
pub fn unwrap_event(body: &str) -> (r: Option<String>)
    ensures
        event(body@) == match r {
            Some(found) => Some(found@),
            None => None,
        },
{
    let trimmed = text::trim(body);
    if trimmed.as_str().is_empty() {
        return None;
    }
    let lines = text::split_lines(trimmed.as_str());
    let ghost all = text::texts(lines@);
    let ghost read = |line: Seq<char>| carried(line);
    let mut data: Vec<String> = Vec::new();
    let mut i: usize = 0;
    assert(all.take(0) =~= Seq::empty());
    assert(text::texts(data@) =~= Seq::empty());
    while i < lines.len()
        invariant
            i <= lines.len(),
            all == text::texts(lines@),
            read == (|line: Seq<char>| carried(line)),
            text::texts(data@) == list::collected(all.take(i as int), read),
        decreases lines.len() - i,
    {
        assert(all.take(i + 1).drop_last() =~= all.take(i as int));
        assert(all[i as int] == lines@[i as int]@);
        if let Some(rest) = text::strip_prefix(lines[i].as_str(), "data:") {
            let carried = text::trim(rest.as_str());
            if !carried.as_str().is_empty() {
                let ghost before = data@;
                let ghost said = carried@;
                data.push(carried);
                assert(text::texts(data@) =~= text::texts(before).push(said));
            }
        }
        i += 1;
    }
    assert(all.take(i as int) =~= all);
    assert(text::texts(data@).len() == data@.len());
    if data.len() == 0 {
        return Some(trimmed);
    }
    Some(text::join(&data, "\n"))
}

/// What a window's answer to one message is: a line to write, nothing to write,
/// or a refusal.
pub fn answer(success: bool, status: &str, body: &str) -> (r: Result<
    Option<String>,
    control::Failure,
>)
    ensures
        match r {
            Ok(line) => success && event(body@) == match line {
                Some(line) => Some(line@),
                None => None,
            },
            Err(control::Failure::Protocol(m)) => !success && m@ == control::refusal(
                status@,
                body@,
            ),
            Err(_) => false,
        },
{
    if !success {
        return Err(control::refused(status, body));
    }
    Ok(unwrap_event(body))
}

/// What the relay does after one message.
pub enum Next {
    /// Write this line, and read the next message.
    Write(String),
    /// Read the next message: a notification is answered with nothing, and a
    /// blank line for it would put a client that counts replies out of step.
    Silent,
    /// The window has gone, so the relay ends.
    End,
    /// The relay fails, saying why.
    Fail(String),
}

pub fn next(answer: Result<Option<String>, control::Failure>) -> (r: Next)
    ensures
        match answer {
            Ok(Some(line)) => r == Next::Write(line),
            Ok(None) => r is Silent,
            Err(control::Failure::NoWindow) => r is End,
            Err(control::Failure::Transport(e)) => r matches Next::Fail(why) && why@
                == "could not talk to the browser: "@ + e@,
            Err(control::Failure::Protocol(m)) => r matches Next::Fail(why) && why@
                == "the browser answered with "@ + m@,
        },
{
    match answer {
        Ok(Some(line)) => Next::Write(line),
        Ok(None) => Next::Silent,
        Err(control::Failure::NoWindow) => Next::End,
        Err(e) => Next::Fail(e.message()),
    }
}

// ---------------------------------------------------------------------------
// Laws
// ---------------------------------------------------------------------------

/// An answer that is not an event stream passes through as it stands, but for
/// the space around it.
pub proof fn law_plain_answer_passes_through(body: Seq<char>)
    requires
        text::trimmed(body).len() > 0,
        forall|i: int|
            0 <= i < text::lines(text::trimmed(body)).len() ==> !text::has_prefix(
                #[trigger] text::lines(text::trimmed(body))[i],
                "data:"@,
            ),
    ensures
        event(body) == Some(text::trimmed(body)),
{
    lemma_nothing_carried(text::lines(text::trimmed(body)));
}

proof fn lemma_nothing_carried(lines: Seq<Seq<char>>)
    requires
        forall|i: int|
            0 <= i < lines.len() ==> !text::has_prefix(#[trigger] lines[i], "data:"@),
    ensures
        list::collected(lines, |line: Seq<char>| carried(line)).len() == 0,
    decreases lines.len(),
{
    if lines.len() > 0 {
        lemma_nothing_carried(lines.drop_last());
        assert(!text::has_prefix(lines[lines.len() - 1], "data:"@));
    }
}

} // verus!
