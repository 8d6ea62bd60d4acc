//! What the control plane makes of a request.
//!
//! Everything a person or an agent drives the browser with comes in here: an
//! argv to run, or a request that belongs to another window.

use vstd::prelude::*;

use crate::control;
use crate::list;
use crate::number;
use crate::pathname;
use crate::table;
use crate::text;

verus! {

/// What is answered with another status than success.
pub struct Answer {
    pub status: u16,
    pub body: String,
}

// ---------------------------------------------------------------------------
// A request for another window
// ---------------------------------------------------------------------------

/// Whether a pair of a query says which window it is for.
pub open spec fn says_window() -> spec_fn(Seq<char>) -> bool {
    |p: Seq<char>| text::has_prefix(p, "window="@)
}

/// The value of the first pair of a query that says which window it is for.
pub open spec fn window_value(query: Seq<char>) -> Option<Seq<char>> {
    let pairs = text::pieces(query, '&');
    match list::first_where(pairs, says_window()) {
        Some(i) => text::without_prefix(pairs[i], "window="@),
        None => None,
    }
}

/// The window a query names.
pub open spec fn window_named(query: Seq<char>) -> Option<u32> {
    match window_value(query) {
        Some(value) => match number::unsigned(value, u32::MAX as nat) {
            Some(n) => Some(n as u32),
            None => None,
        },
        None => None,
    }
}

/// The window a query names, as `window=<pid>`.
pub fn window_query(query: &str) -> (r: Option<u32>)
    ensures
        r == window_named(query@),
{
    let pairs = text::split(query, '&');
    let ghost all = text::texts(pairs@);
    let ghost want = says_window();
    let mut i: usize = 0;
    while i < pairs.len()
        invariant
            i <= pairs.len(),
            all == text::texts(pairs@),
            all == text::pieces(query@, '&'),
            want == says_window(),
            forall|j: int| 0 <= j < i ==> !want(#[trigger] all[j]),
        decreases pairs.len() - i,
    {
        assert(all[i as int] == pairs@[i as int]@);
        if let Some(value) = text::strip_prefix(pairs[i].as_str(), "window=") {
            proof {
                list::lemma_first_where(all, want, i as int);
            }
            return number::parse_u32(value.as_str());
        }
        i += 1;
    }
    proof {
        list::lemma_first_where(all, want, i as int);
    }
    None
}

/// The window a request is for, where that is another than this one.
pub fn elsewhere(query: Option<&str>, mine: u32) -> (r: Option<u32>)
    ensures
        r == match query {
            Some(query) => match window_named(query@) {
                Some(pid) => if pid == mine {
                    None
                } else {
                    Some(pid)
                },
                None => None,
            },
            None => None,
        },
{
    let pid = window_query(query?)?;
    if pid == mine {
        None
    } else {
        Some(pid)
    }
}

/// What is answered when another window could not be reached.
pub fn not_there(pid: u32, failure: &control::Failure) -> (r: Answer)
    ensures
        match failure {
            control::Failure::NoWindow => r.status == 404 && r.body@ == "no window with pid "@
                + number::decimal(pid as nat) + "; ask /json/list which ones are up"@,
            control::Failure::Transport(e) => r.status == 502 && r.body@
                == "could not talk to the browser: "@ + e@,
            control::Failure::Protocol(m) => r.status == 502 && r.body@
                == "the browser answered with "@ + m@,
        },
{
    match failure {
        control::Failure::NoWindow => {
            let mut body = "no window with pid ".to_owned();
            body.append(number::to_decimal(pid as u64).as_str());
            body.append("; ask /json/list which ones are up");
            Answer { status: 404, body }
        },
        _ => Answer { status: 502, body: failure.message() },
    }
}

/// One of the live windows, as they are listed.
pub struct Listed {
    pub pid: u32,
    pub socket: String,
    pub answering: bool,
}

/// The live windows, enough to pick one and address it.
pub fn windows(dir: &str, live: &[u32], mine: u32) -> (r: Vec<Listed>)
    ensures
        r@.len() == live@.len(),
        forall|i: int|
            0 <= i < live@.len() ==> (#[trigger] r@[i]).pid == live@[i] && r@[i].socket@
                == pathname::under(dir@, control::socket_name(live@[i])) && r@[i].answering
                == (live@[i] == mine),
{
    let mut out: Vec<Listed> = Vec::new();
    let mut i: usize = 0;
    while i < live.len()
        invariant
            i <= live.len(),
            out@.len() == i,
            forall|j: int|
                0 <= j < i ==> (#[trigger] out@[j]).pid == live@[j] && out@[j].socket@
                    == pathname::under(dir@, control::socket_name(live@[j]))
                    && out@[j].answering == (live@[j] == mine),
        decreases live.len() - i,
    {
        let pid: u32 = live[i];
        out.push(Listed { pid, socket: control::socket_in(dir, pid), answering: pid == mine });
        i += 1;
    }
    out
}

// ---------------------------------------------------------------------------
// An argv to run
// ---------------------------------------------------------------------------

/// What is said of a request from another build.
pub open spec fn other_build(v: u32) -> Seq<char> {
    "protocol "@ + number::decimal(v as nat) + " where this window speaks "@ + number::decimal(
        control::PROTOCOL as nat,
    ) + "; the binary that opened it is older or newer than yours"@
}

/// Whether a request is to be run, given what its body read as.
pub fn check_request(read: Result<control::Request, String>) -> (r: Result<
    control::Request,
    Answer,
>)
    ensures
        match read {
            Ok(request) => if request.v == control::PROTOCOL {
                r matches Ok(same) && same == request
            } else {
                r matches Err(answer) && answer.status == 400 && answer.body@ == other_build(
                    request.v,
                )
            },
            Err(why) => r matches Err(answer) && answer.status == 400 && answer.body@
                == "unreadable request: "@ + why@,
        },
{
    match read {
        Err(why) => {
            let mut body = "unreadable request: ".to_owned();
            body.append(why.as_str());
            Err(Answer { status: 400, body })
        },
        Ok(request) => {
            if request.v != control::PROTOCOL {
                let mut body = "protocol ".to_owned();
                body.append(number::to_decimal(request.v as u64).as_str());
                body.append(" where this window speaks ");
                body.append(number::to_decimal(control::PROTOCOL as u64).as_str());
                body.append("; the binary that opened it is older or newer than yours");
                return Err(Answer { status: 400, body });
            }
            Ok(request)
        },
    }
}

/// How a forwarded command ended.
pub enum Finished {
    /// It ran, with this exit code and this output.
    Ran(Option<i32>, String),
    /// It could not be run, for this reason.
    Failed(String),
    /// It did not come back.
    Panicked,
}

/// The reply to a forwarded command. One that failed to run at all still has to
/// come back as an answer: a dropped connection would leave the caller with
/// nothing to print and no code to exit with.
pub fn run_argv(finished: Finished) -> (r: control::Reply)
    ensures
        r.v == control::PROTOCOL,
        match finished {
            Finished::Ran(code, stdout) => r.exit_code == code && r.stdout == stdout
                && r.stderr@.len() == 0,
            Finished::Failed(message) => r.exit_code == Some(1i32) && r.stdout@.len() == 0
                && r.stderr@ == message@ + "\n"@,
            Finished::Panicked => r.exit_code == Some(70i32) && r.stdout@.len() == 0 && r.stderr@
                == "the browser could not finish that command\n"@,
        },
{
    match finished {
        Finished::Ran(exit_code, stdout) => control::Reply {
            v: control::PROTOCOL,
            exit_code,
            stdout,
            stderr: String::new(),
        },
        Finished::Failed(message) => {
            let mut stderr = message;
            stderr.append("\n");
            control::Reply {
                v: control::PROTOCOL,
                exit_code: Some(1),
                stdout: String::new(),
                stderr,
            }
        },
        Finished::Panicked => control::Reply {
            v: control::PROTOCOL,
            exit_code: Some(70),
            stdout: String::new(),
            stderr: "the browser could not finish that command\n".to_owned(),
        },
    }
}

// ---------------------------------------------------------------------------
// Laws
// ---------------------------------------------------------------------------

/// A query that is nothing but a window's name is for that window.
pub proof fn law_query_names_its_window(pid: u32)
    ensures
        window_named("window="@ + number::decimal(pid as nat)) == Some(pid),
{
    reveal_strlit("window=");
    let digits = number::decimal(pid as nat);
    let query = "window="@ + digits;
    number::lemma_decimal(pid as nat);
    number::law_decimal_reads_back(pid as nat, u32::MAX as nat);
    assert forall|i: int| 0 <= i < query.len() implies query[i] != '&' by {
        if i >= 7 {
            assert(number::is_digit(digits[i - 7]));
        }
    }
    let nothing = Seq::<char>::empty();
    table::lemma_pieces_extend(nothing, query, '&');
    assert(nothing + query =~= query);
    assert(text::pieces(query, '&') =~= seq![query]);
    let want = says_window();
    assert(query.subrange(0, 7) =~= "window="@);
    list::lemma_first_where(text::pieces(query, '&'), want, 0);
    assert(query.skip(7) =~= digits);
}

} // verus!
