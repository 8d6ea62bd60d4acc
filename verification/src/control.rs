//! Where the command line finds the browser.
//!
//! A browser window is a process, and each one listens on its own socket in a
//! directory of the user's. That is the whole address book: no port to discover
//! and no port file to go stale.
//!
//! `current.sock` is a link to whichever window was focused last, so a command
//! that names no window means the one being looked at. A socket whose process
//! has gone refuses a connection at once, which is how both sides tell a live
//! window from a leftover file.

use vstd::prelude::*;

use crate::config;
use crate::list;
use crate::number;
use crate::pathname;
use crate::paths;
use crate::profile;
use crate::text;

verus! {

/// Changes when [`Request`] or [`Reply`] change shape. A client and a browser
/// from different builds can be alive at once, so both sides check rather than
/// assume.
pub const PROTOCOL: u32 = 1;

/// The route the browser answers argv on.
pub const ROUTE: &'static str = "/argv";

/// The host every request to a window carries. The address is a path on disk,
/// but HTTP insists on the header.
pub const HOST: &'static str = "localhost";

pub const PREFIX: &'static str = "window-";

pub const SUFFIX: &'static str = ".sock";

pub const CURRENT: &'static str = "current.sock";

/// One invocation, on its way to the window that will run it.
pub struct Request {
    pub v: u32,
    /// argv without the binary's name.
    pub argv: Vec<String>,
    /// What to call the binary in help and error text: whatever the user typed.
    pub display_name: String,
    /// Whether the caller's output is a terminal. Sent rather than found out,
    /// because the browser's output is not the one the answer is going to.
    pub human: bool,
    /// The caller's working directory.
    pub cwd: String,
}

/// What the window made of it.
pub struct Reply {
    pub v: u32,
    /// `None` means "finished, no particular code".
    pub exit_code: Option<i32>,
    pub stdout: String,
    pub stderr: String,
}

/// What a binary is called, given the path it was started by.
pub open spec fn called(program: Option<Seq<char>>) -> Seq<char> {
    match program {
        Some(path) => match pathname::name_of(path) {
            Some(name) => name,
            None => "oma-browse"@,
        },
        None => "oma-browse"@,
    }
}

impl Request {
    /// Everything the browser needs to run this argv as if it had been typed at
    /// the browser's own process.
    pub fn from_process(
        argv: Vec<String>,
        program: Option<&str>,
        human: bool,
        cwd: &str,
    ) -> (r: Request)
        ensures
            r.v == PROTOCOL,
            r.argv == argv,
            r.display_name@ == called(
                match program {
                    Some(path) => Some(path@),
                    None => None,
                },
            ),
            r.human == human,
            r.cwd@ == cwd@,
    {
        let display_name = match program {
            Some(path) => match pathname::file_name(path) {
                Some(name) => name,
                None => "oma-browse".to_owned(),
            },
            None => "oma-browse".to_owned(),
        };
        Request { v: PROTOCOL, argv, display_name, human, cwd: cwd.to_owned() }
    }
}

/// Which window a command is addressed to.
#[derive(Debug, Clone, Copy, PartialEq, Eq, Structural)]
pub enum Target {
    /// The one focused most recently.
    Current,
    /// A particular process, from `--window`.
    Window(u32),
}

/// Why a command did not reach a window.
#[derive(Debug)]
pub enum Failure {
    /// Nothing is listening. The caller decides what that means: launch a
    /// browser, or run the command here.
    NoWindow,
    /// A window was there and the conversation failed. Never retried locally:
    /// the command may already have run.
    Transport(String),
    /// A window answered with something this build does not understand.
    Protocol(String),
}

impl Failure {
    pub fn message(&self) -> (r: String)
        ensures
            r@ == match self {
                Failure::NoWindow => "no browser window is running"@,
                Failure::Transport(e) => "could not talk to the browser: "@ + e@,
                Failure::Protocol(m) => "the browser answered with "@ + m@,
            },
    {
        match self {
            Failure::NoWindow => "no browser window is running".to_owned(),
            Failure::Transport(e) => {
                let mut out = "could not talk to the browser: ".to_owned();
                out.append(e.as_str());
                out
            },
            Failure::Protocol(m) => {
                let mut out = "the browser answered with ".to_owned();
                out.append(m.as_str());
                out
            },
        }
    }
}

// ---------------------------------------------------------------------------
// Paths
// ---------------------------------------------------------------------------

/// The home of every window's socket when none is configured.
pub open spec fn default_dir(runtime: Option<Seq<char>>, temp: Seq<char>, uid: u32) -> Seq<char> {
    match runtime {
        Some(dir) => pathname::under(dir, "oma-browse"@),
        None => pathname::under(temp, "oma-browse-"@ + number::decimal(uid as nat)),
    }
}

/// The directory this window's socket lives in.
///
/// The runtime directory is the user's own and wiped at reboot, which is exactly
/// the lifetime a socket wants. Without it the temporary directory is shared, so
/// the name carries the user's id: a bare one is a name another user could make
/// first.
///
/// A profile has a directory of its own, wherever that is: what is asked of a
/// profile goes to its window, and not to whichever window was focused last.
pub fn dir_for(
    control: &config::Control,
    runtime: Option<&str>,
    temp: &str,
    uid: u32,
    home: Option<&str>,
    profile: Option<&str>,
) -> (r: String)
    ensures
        r@ == profile::profile_home(
            {
                let configured = text::trimmed(control.socket@);
                if configured.len() == 0 {
                    default_dir(text::maybe(runtime), temp@, uid)
                } else {
                    paths::home_path(configured, text::maybe(home))
                }
            },
            text::maybe(profile),
        ),
{
    let configured = text::trim(control.socket.as_str());
    let base = if configured.as_str().is_empty() {
        runtime_dir(runtime, temp, uid)
    } else {
        paths::shellexpand(configured.as_str(), home)
    };
    profile::within(base.as_str(), profile)
}

/// The default home for every window's socket.
pub fn runtime_dir(runtime: Option<&str>, temp: &str, uid: u32) -> (r: String)
    ensures
        r@ == default_dir(
            match runtime {
                Some(dir) => Some(dir@),
                None => None,
            },
            temp@,
            uid,
        ),
{
    match runtime {
        Some(dir) => pathname::join(dir, "oma-browse"),
        None => {
            let mut name = "oma-browse-".to_owned();
            name.append(number::to_decimal(uid as u64).as_str());
            pathname::join(temp, name.as_str())
        },
    }
}

/// What a window's socket is called.
pub open spec fn socket_name(pid: u32) -> Seq<char> {
    PREFIX@ + number::decimal(pid as nat) + SUFFIX@
}

/// What a window's socket is called: also what `current.sock` links to, so that
/// the link keeps working wherever the directory is reached from.
pub fn window_name(pid: u32) -> (r: String)
    ensures
        r@ == socket_name(pid),
{
    let mut name = PREFIX.to_owned();
    name.append(number::to_decimal(pid as u64).as_str());
    name.append(SUFFIX);
    name
}

/// This window's socket.
pub fn socket_in(dir: &str, pid: u32) -> (r: String)
    ensures
        r@ == pathname::under(dir@, socket_name(pid)),
{
    pathname::join(dir, window_name(pid).as_str())
}

/// The link pointing at the window that was focused last.
pub fn current_in(dir: &str) -> (r: String)
    ensures
        r@ == pathname::under(dir@, CURRENT@),
{
    pathname::join(dir, CURRENT)
}

/// Where the link is made before it takes the other's place, so that there is
/// never a moment without one.
pub fn staging_in(dir: &str, pid: u32) -> (r: String)
    ensures
        r@ == pathname::under(dir@, "."@ + CURRENT@ + "."@ + number::decimal(pid as nat)),
{
    let mut name = ".".to_owned();
    name.append(CURRENT);
    name.append(".");
    name.append(number::to_decimal(pid as u64).as_str());
    pathname::join(dir, name.as_str())
}

/// Refuse to use a directory somebody else owns.
pub fn check_owner(dir: &str, owner: u32, mine: u32) -> (r: Result<(), String>)
    ensures
        match r {
            Ok(_) => owner == mine,
            Err(why) => owner != mine && why@ == dir@ + " belongs to uid "@ + number::decimal(
                owner as nat,
            ) + " rather than "@ + number::decimal(mine as nat),
        },
{
    if owner == mine {
        return Ok(());
    }
    let mut why = dir.to_owned();
    why.append(" belongs to uid ");
    why.append(number::to_decimal(owner as u64).as_str());
    why.append(" rather than ");
    why.append(number::to_decimal(mine as u64).as_str());
    Err(why)
}

// ---------------------------------------------------------------------------
// Liveness
// ---------------------------------------------------------------------------

/// The window a socket's path names, if it names one.
pub open spec fn window_of(path: Seq<char>) -> Option<u32> {
    match pathname::name_of(path) {
        Some(name) => match text::without_prefix(name, PREFIX@) {
            Some(rest) => match text::without_suffix(rest, SUFFIX@) {
                Some(digits) => match number::unsigned(digits, u32::MAX as nat) {
                    Some(n) => Some(n as u32),
                    None => None,
                },
                None => None,
            },
            None => None,
        },
        None => None,
    }
}

/// `window-1234.sock` gives `1234`, and anything else in the directory nothing.
pub fn pid_of(path: &str) -> (r: Option<u32>)
    ensures
        r == window_of(path@),
{
    let name = pathname::file_name(path)?;
    let rest = text::strip_prefix(name.as_str(), PREFIX)?;
    let digits = text::strip_suffix(rest.as_str(), SUFFIX)?;
    number::parse_u32(digits.as_str())
}

/// A file in the sockets' directory: whether something answers there, and when
/// it was last changed, in nanoseconds from the epoch, if that can be told.
pub struct Entry {
    pub path: String,
    pub alive: bool,
    pub modified: Option<i128>,
}

/// Whether a file is a socket whose window has gone. A live window's socket is
/// never one, so two browsers starting at the same moment cannot sweep each
/// other away.
pub open spec fn is_stale(entry: Entry) -> bool {
    window_of(entry.path@) is Some && !entry.alive
}

/// The sockets in the directory whose window has gone, to be deleted.
pub fn sweep_in(entries: &[Entry]) -> (r: Vec<String>)
    ensures
        text::texts(r@) == list::collected(
            entries@,
            |e: Entry|
                if is_stale(e) {
                    Some(e.path@)
                } else {
                    None
                },
        ),
{
    let ghost read = |e: Entry|
        if is_stale(e) {
            Some(e.path@)
        } else {
            None
        };
    let mut out: Vec<String> = Vec::new();
    let mut i: usize = 0;
    assert(entries@.take(0) =~= Seq::empty());
    assert(text::texts(out@) =~= Seq::empty());
    while i < entries.len()
        invariant
            i <= entries.len(),
            read == (|e: Entry|
                if is_stale(e) {
                    Some(e.path@)
                } else {
                    None
                }),
            text::texts(out@) == list::collected(entries@.take(i as int), read),
        decreases entries.len() - i,
    {
        let entry = &entries[i];
        assert(entries@.take(i + 1).drop_last() =~= entries@.take(i as int));
        if !entry.alive && pid_of(entry.path.as_str()).is_some() {
            let ghost before = out@;
            out.push(entry.path.clone());
            assert(text::texts(out@) =~= text::texts(before).push(entry.path@));
        }
        i += 1;
    }
    assert(entries@.take(i as int) =~= entries@);
    out
}

/// A window that answers, by when its socket was changed.
pub open spec fn answering(entry: Entry) -> Option<(i128, u32)> {
    match window_of(entry.path@) {
        Some(pid) => if entry.alive {
            Some(
                (
                    match entry.modified {
                        Some(when) => when,
                        None => 0i128,
                    },
                    pid,
                ),
            )
        } else {
            None
        },
        None => None,
    }
}

/// Whether one window's socket was changed after another's.
pub open spec fn newer(a: (i128, u32), b: (i128, u32)) -> bool {
    a.0 > b.0
}

/// The windows that answer, in the order they are listed in.
pub open spec fn lively(entries: Seq<Entry>) -> Seq<(i128, u32)> {
    list::arranged(
        list::collected(entries, |e: Entry| answering(e)),
        |a: (i128, u32), b: (i128, u32)| newer(a, b),
    )
}

/// The windows that answer, newest socket first: the most recently focused
/// window is the one a command that names none should mean.
pub fn live_in(entries: &[Entry]) -> (r: Vec<u32>)
    ensures
        r@ == lively(entries@).map_values(|w: (i128, u32)| w.1),
{
    let ghost read = |e: Entry| answering(e);
    let ghost first = |a: (i128, u32), b: (i128, u32)| newer(a, b);
    let mut sorted: Vec<(i128, u32)> = Vec::new();
    let mut i: usize = 0;
    assert(entries@.take(0) =~= Seq::empty());
    while i < entries.len()
        invariant
            i <= entries.len(),
            read == (|e: Entry| answering(e)),
            first == (|a: (i128, u32), b: (i128, u32)| newer(a, b)),
            sorted@ == list::arranged(list::collected(entries@.take(i as int), read), first),
        decreases entries.len() - i,
    {
        let entry = &entries[i];
        let ghost front = list::collected(entries@.take(i as int), read);
        assert(entries@.take(i + 1).drop_last() =~= entries@.take(i as int));
        if let Some(pid) = pid_of(entry.path.as_str()) {
            if entry.alive {
                let when: i128 = match entry.modified {
                    Some(when) => when,
                    None => 0,
                };
                let mut at: usize = 0;
                while at < sorted.len() && when <= sorted[at].0
                    invariant
                        at <= sorted.len(),
                        forall|j: int| 0 <= j < at ==> when <= (#[trigger] sorted@[j]).0,
                    decreases sorted.len() - at,
                {
                    at += 1;
                }
                let ghost before = sorted@;
                proof {
                    assert(front.push((when, pid)).drop_last() =~= front);
                    list::lemma_placed(before, (when, pid), first, at as int);
                }
                sorted.insert(at, (when, pid));
            }
        }
        i += 1;
    }
    assert(entries@.take(i as int) =~= entries@);
    let mut out: Vec<u32> = Vec::new();
    let mut k: usize = 0;
    while k < sorted.len()
        invariant
            k <= sorted.len(),
            out@ =~= sorted@.take(k as int).map_values(|w: (i128, u32)| w.1),
        decreases sorted.len() - k,
    {
        out.push(sorted[k].1);
        k += 1;
    }
    assert(sorted@.take(k as int) =~= sorted@);
    out
}

// ---------------------------------------------------------------------------
// The window side
// ---------------------------------------------------------------------------

/// Whether `current.sock`, which leads to `link`, is this window's to remove:
/// another window may have taken it since.
pub fn points_here(link: &str, pid: u32) -> (r: bool)
    ensures
        r == pathname::same_place(link@, socket_name(pid)),
{
    pathname::same_path(link, window_name(pid).as_str())
}

// ---------------------------------------------------------------------------
// The client side
// ---------------------------------------------------------------------------

/// The path to try first for a target.
pub open spec fn first_path(dir: Seq<char>, target: Target) -> Seq<char> {
    match target {
        Target::Window(pid) => pathname::under(dir, socket_name(pid)),
        Target::Current => pathname::under(dir, CURRENT@),
    }
}

pub fn probe(dir: &str, target: Target) -> (r: String)
    ensures
        r@ == first_path(dir@, target),
{
    match target {
        Target::Window(pid) => socket_in(dir, pid),
        Target::Current => current_in(dir),
    }
}

/// Where a target was found, and which window `current.sock` should be pointed
/// at from now on.
pub struct Found {
    pub path: String,
    pub mend: Option<u32>,
}

/// Find the socket a target names, mending `current.sock` when it dangles: the
/// newest live window is the best answer available, and pointing at it means the
/// next call is cheap.
pub fn socket_for(dir: &str, target: Target, answered: bool, live: &[u32]) -> (r: Option<Found>)
    ensures
        match r {
            Some(found) => if answered {
                found.path@ == first_path(dir@, target) && found.mend is None
            } else {
                &&& target is Current
                &&& live@.len() > 0
                &&& found.path@ == pathname::under(dir@, socket_name(live@[0]))
                &&& found.mend == Some(live@[0])
            },
            None => !answered && (target is Window || live@.len() == 0),
        },
{
    if answered {
        return Some(Found { path: probe(dir, target), mend: None });
    }
    match target {
        Target::Window(_) => None,
        Target::Current => {
            if live.len() == 0 {
                return None;
            }
            let pid: u32 = live[0];
            Some(Found { path: socket_in(dir, pid), mend: Some(pid) })
        },
    }
}

/// What a connection that failed means. A window that was alive a moment ago and
/// is gone now is a window closing, not a broken one.
pub fn not_reached(gone: bool, why: &str) -> (r: Failure)
    ensures
        match r {
            Failure::NoWindow => gone,
            Failure::Transport(e) => !gone && e@ == why@,
            Failure::Protocol(_) => false,
        },
{
    if gone {
        Failure::NoWindow
    } else {
        Failure::Transport(why.to_owned())
    }
}

/// What a window that answered with a refusal is taken to have said.
pub open spec fn refusal(status: Seq<char>, body: Seq<char>) -> Seq<char> {
    status + ": "@ + text::trimmed(body)
}

/// What a window's answer is not, when it is from another build.
pub open spec fn mismatch(v: u32) -> Seq<char> {
    "protocol "@ + number::decimal(v as nat) + " where this build speaks "@ + number::decimal(
        PROTOCOL as nat,
    ) + "; restart the browser"@
}

/// The body of a refusal.
pub fn refused(status: &str, body: &str) -> (r: Failure)
    ensures
        r matches Failure::Protocol(m) && m@ == refusal(status@, body@),
{
    let mut m = status.to_owned();
    m.append(": ");
    m.append(text::trim(body).as_str());
    Failure::Protocol(m)
}

/// What to make of a window's answer: whether the exchange succeeded and with
/// what status, the body as text, and what the body read as.
pub fn accept(
    success: bool,
    status: &str,
    body: &str,
    read: Result<Reply, String>,
) -> (r: Result<Reply, Failure>)
    ensures
        match r {
            Ok(reply) => success && read == Ok::<Reply, String>(reply) && reply.v == PROTOCOL,
            Err(Failure::Protocol(m)) => if !success {
                m@ == refusal(status@, body@)
            } else {
                match read {
                    Ok(reply) => reply.v != PROTOCOL && m@ == mismatch(reply.v),
                    Err(why) => m@ == "an unreadable answer ("@ + why@ + ")"@,
                }
            },
            Err(_) => false,
        },
{
    if !success {
        return Err(refused(status, body));
    }
    match read {
        Err(why) => {
            let mut m = "an unreadable answer (".to_owned();
            m.append(why.as_str());
            m.append(")");
            Err(Failure::Protocol(m))
        },
        Ok(reply) => {
            if reply.v != PROTOCOL {
                let mut m = "protocol ".to_owned();
                m.append(number::to_decimal(reply.v as u64).as_str());
                m.append(" where this build speaks ");
                m.append(number::to_decimal(PROTOCOL as u64).as_str());
                m.append("; restart the browser");
                return Err(Failure::Protocol(m));
            }
            Ok(reply)
        },
    }
}

// ---------------------------------------------------------------------------
// argv, before it is anyone's problem
// ---------------------------------------------------------------------------

/// The window a number names.
pub open spec fn named(value: Seq<char>) -> Option<Target> {
    match number::unsigned(value, u32::MAX as nat) {
        Some(n) => Some(Target::Window(n as u32)),
        None => None,
    }
}

/// An argv without its `--window <pid>`, and the window it names, if the ones
/// before it named `target`.
pub open spec fn windowless(argv: Seq<Seq<char>>, target: Target) -> (Seq<Seq<char>>, Target)
    decreases argv.len(),
{
    if argv.len() == 0 {
        (Seq::empty(), target)
    } else {
        match text::without_prefix(argv[0], "--window="@) {
            Some(value) => match named(value) {
                Some(window) => windowless(argv.skip(1), window),
                None => {
                    let (rest, last) = windowless(argv.skip(1), target);
                    (seq![argv[0]] + rest, last)
                },
            },
            None => if argv[0] == "--window"@ && argv.len() > 1 {
                match named(argv[1]) {
                    Some(window) => windowless(argv.skip(2), window),
                    None => {
                        let (rest, last) = windowless(argv.skip(2), target);
                        (seq![argv[0], argv[1]] + rest, last)
                    },
                }
            } else {
                let (rest, last) = windowless(argv.skip(1), target);
                (seq![argv[0]] + rest, last)
            },
        }
    }
}

fn name_window(value: &str) -> (r: Option<Target>)
    ensures
        r == named(value@),
{
    match number::parse_u32(value) {
        Some(pid) => Some(Target::Window(pid)),
        None => None,
    }
}

/// Pull `--window <pid>` out of the argv.
///
/// Malformed spellings are left in place on purpose: whoever parses the rest
/// knows how to say "unknown option", and eating the next word would turn
/// `--window` alone into a command that quietly ran somewhere else.
pub fn take_window_flag(argv: Vec<String>) -> (r: (Vec<String>, Target))
    ensures
        (text::texts(r.0@), r.1) == windowless(text::texts(argv@), Target::Current),
{
    let ghost all = text::texts(argv@);
    let mut out: Vec<String> = Vec::new();
    let mut target = Target::Current;
    let mut i: usize = 0;
    proof {
        assert(all.skip(0) =~= all);
        assert(text::texts(out@) + windowless(all, target).0 =~= windowless(all, target).0);
    }
    while i < argv.len()
        invariant
            i <= argv.len(),
            all == text::texts(argv@),
            windowless(all, Target::Current) == (
                text::texts(out@) + windowless(all.skip(i as int), target).0,
                windowless(all.skip(i as int), target).1,
            ),
        decreases argv.len() - i,
    {
        let ghost rest = all.skip(i as int);
        let ghost before = out@;
        assert(rest[0] == argv@[i as int]@);
        assert(rest.skip(1) =~= all.skip(i + 1));
        match text::strip_prefix(argv[i].as_str(), "--window=") {
            Some(value) => {
                match name_window(value.as_str()) {
                    Some(window) => {
                        target = window;
                    },
                    None => {
                        out.push(argv[i].clone());
                        assert(text::texts(out@) =~= text::texts(before).push(rest[0]));
                        assert(text::texts(before) + (seq![rest[0]] + windowless(
                            all.skip(i + 1),
                            target,
                        ).0) =~= text::texts(out@) + windowless(all.skip(i + 1), target).0);
                    },
                }
                i += 1;
            },
            None => {
                if text::same(argv[i].as_str(), "--window") && i + 1 < argv.len() {
                    assert(rest[1] == argv@[i + 1]@);
                    assert(rest.skip(2) =~= all.skip(i + 2));
                    match name_window(argv[i + 1].as_str()) {
                        Some(window) => {
                            target = window;
                        },
                        None => {
                            out.push(argv[i].clone());
                            out.push(argv[i + 1].clone());
                            assert(text::texts(out@) =~= text::texts(before).push(rest[0]).push(
                                rest[1],
                            ));
                            assert(text::texts(before) + (seq![rest[0], rest[1]] + windowless(
                                all.skip(i + 2),
                                target,
                            ).0) =~= text::texts(out@) + windowless(all.skip(i + 2), target).0);
                        },
                    }
                    i += 2;
                } else {
                    out.push(argv[i].clone());
                    assert(text::texts(out@) =~= text::texts(before).push(rest[0]));
                    assert(text::texts(before) + (seq![rest[0]] + windowless(
                        all.skip(i + 1),
                        target,
                    ).0) =~= text::texts(out@) + windowless(all.skip(i + 1), target).0);
                    i += 1;
                }
            },
        }
    }
    assert(text::texts(out@) + windowless(all.skip(i as int), target).0 =~= text::texts(out@));
    (out, target)
}

/// Whether a word asks about the command line itself.
pub open spec fn is_local_flag(word: Seq<char>) -> bool {
    ||| word == "--help"@
    ||| word == "-h"@
    ||| word == "--version"@
    ||| word == "--llms"@
    ||| word == "--llms-full"@
    ||| word == "--schema"@
    ||| word == "--mcp"@
    ||| word == "--config-schema"@
}

fn local_flag(word: &str) -> (r: bool)
    ensures
        r == is_local_flag(word@),
{
    text::same(word, "--help") || text::same(word, "-h") || text::same(word, "--version")
        || text::same(word, "--llms") || text::same(word, "--llms-full") || text::same(
        word,
        "--schema",
    ) || text::same(word, "--mcp") || text::same(word, "--config-schema")
}

/// The words of an argv: what does not begin with a dash.
pub open spec fn plain(argv: Seq<Seq<char>>) -> Seq<Seq<char>> {
    list::kept(argv, |a: Seq<char>| !text::has_prefix(a, "-"@))
}

pub(crate) fn plain_words(argv: &[String]) -> (r: Vec<String>)
    ensures
        text::texts(r@) == plain(text::texts(argv@)),
{
    let ghost all = text::texts(argv@);
    let ghost keep = |a: Seq<char>| !text::has_prefix(a, "-"@);
    let mut out: Vec<String> = Vec::new();
    let mut i: usize = 0;
    assert(all.take(0) =~= Seq::empty());
    assert(text::texts(out@) =~= Seq::empty());
    while i < argv.len()
        invariant
            i <= argv.len(),
            all == text::texts(argv@),
            keep == (|a: Seq<char>| !text::has_prefix(a, "-"@)),
            text::texts(out@) == list::kept(all.take(i as int), keep),
        decreases argv.len() - i,
    {
        assert(all.take(i + 1).drop_last() =~= all.take(i as int));
        assert(all[i as int] == argv@[i as int]@);
        if !text::starts_with(argv[i].as_str(), "-") {
            let ghost before = out@;
            out.push(argv[i].clone());
            assert(text::texts(out@) =~= text::texts(before).push(argv@[i as int]@));
        }
        i += 1;
    }
    assert(all.take(i as int) =~= all);
    out
}

/// Whether an argv begins with a word.
pub open spec fn leads(words: Seq<Seq<char>>, first: Seq<char>) -> bool {
    words.len() > 0 && words[0] == first
}

/// Whether an argv begins with two words.
pub open spec fn leads_two(words: Seq<Seq<char>>, first: Seq<char>, second: Seq<char>) -> bool {
    words.len() > 1 && words[0] == first && words[1] == second
}

pub(crate) fn begins(words: &[String], first: &str) -> (r: bool)
    ensures
        r == leads(text::texts(words@), first@),
{
    words.len() > 0 && text::same(words[0].as_str(), first)
}

pub(crate) fn begins_two(words: &[String], first: &str, second: &str) -> (r: bool)
    ensures
        r == leads_two(text::texts(words@), first@, second@),
{
    words.len() > 1 && text::same(words[0].as_str(), first) && text::same(words[1].as_str(), second)
}

/// Whether an argv is about the caller's machine rather than the browser.
pub open spec fn is_local(argv: Seq<Seq<char>>) -> bool {
    ||| exists|i: int| 0 <= i < argv.len() && is_local_flag(#[trigger] argv[i])
    ||| leads(plain(argv), "completions"@)
    ||| leads(plain(argv), "mcp"@)
    ||| leads(plain(argv), "skills"@)
    ||| leads(plain(argv), "agent"@)
    ||| leads_two(plain(argv), "config"@, "init"@)
}

/// Whether this argv is about the caller's machine rather than the browser.
///
/// A question about the command line must be answered with no browser running,
/// and anything that writes into the caller's shell or home has to happen in the
/// caller's process. Everything else, the output modifiers too, belongs in the
/// window.
pub fn runs_locally(argv: &[String]) -> (r: bool)
    ensures
        r == is_local(text::texts(argv@)),
{
    let ghost all = text::texts(argv@);
    let mut i: usize = 0;
    while i < argv.len()
        invariant
            i <= argv.len(),
            all == text::texts(argv@),
            forall|j: int| 0 <= j < i ==> !is_local_flag(#[trigger] all[j]),
        decreases argv.len() - i,
    {
        assert(all[i as int] == argv@[i as int]@);
        if local_flag(argv[i].as_str()) {
            return true;
        }
        i += 1;
    }
    let words = plain_words(argv);
    begins(&words, "completions") || begins(&words, "mcp") || begins(&words, "skills") || begins(
        &words,
        "agent",
    ) || begins_two(&words, "config", "init")
}

/// The commands that mean "put something on screen", and can therefore answer
/// "no browser running" by starting one.
pub fn opens_a_window(argv: &[String]) -> (r: bool)
    ensures
        r == (leads_two(plain(text::texts(argv@)), "tab"@, "open"@) || leads_two(
            plain(text::texts(argv@)),
            "window"@,
            "new"@,
        )),
{
    let words = plain_words(argv);
    begins_two(&words, "tab", "open") || begins_two(&words, "window", "new")
}

// ---------------------------------------------------------------------------
// Laws
// ---------------------------------------------------------------------------

/// A text without slashes at the end of a path is what follows the last one.
proof fn lemma_last_segment(front: Seq<char>, name: Seq<char>)
    requires
        forall|i: int| 0 <= i < name.len() ==> #[trigger] name[i] != '/',
        front.len() == 0 || front.last() == '/',
    ensures
        pathname::last_segment(front + name) == name,
{
    let whole = front + name;
    if front.len() == 0 {
        assert(whole =~= name);
        text::lemma_last_of(whole, '/', -1);
    } else {
        assert(whole[front.len() - 1] == '/');
        text::lemma_last_of(whole, '/', front.len() - 1);
        assert(whole.skip(front.len() as int) =~= name);
    }
}

/// A socket's path names the window it was made for.
pub proof fn law_socket_names_its_window(dir: Seq<char>, pid: u32)
    ensures
        window_of(pathname::under(dir, socket_name(pid))) == Some(pid),
{
    reveal_strlit("window-");
    reveal_strlit(".sock");
    let digits = number::decimal(pid as nat);
    let name = socket_name(pid);
    number::lemma_decimal(pid as nat);
    number::law_decimal_reads_back(pid as nat, u32::MAX as nat);
    assert(name.len() == 7 + digits.len() + 5);
    assert(name[0] == 'w');
    assert(name.last() == 'k');
    assert forall|i: int| 0 <= i < name.len() implies #[trigger] name[i] != '/' by {
        if 7 <= i < 7 + digits.len() {
            assert(name[i] == digits[i - 7]);
            assert(number::is_digit(digits[i - 7]));
        } else if i < 7 {
            assert(name[i] == PREFIX@[i]);
        } else {
            assert(name[i] == SUFFIX@[i - 7 - digits.len()]);
        }
    }
    let front = if dir.len() == 0 || dir.last() == '/' {
        dir
    } else {
        dir + seq!['/']
    };
    let whole = pathname::under(dir, name);
    assert(whole =~= front + name);
    assert(whole.last() == 'k');
    lemma_last_segment(front, name);
    assert(pathname::name_of(whole) == Some(name));
    assert(name.subrange(0, 7) =~= PREFIX@);
    let rest = name.skip(7);
    assert(rest =~= digits + SUFFIX@);
    assert(rest.subrange(rest.len() - 5, rest.len() as int) =~= SUFFIX@);
    assert(rest.take(rest.len() - 5) =~= digits);
}

/// No window's socket is ever taken for the link to the current one.
pub proof fn law_current_is_no_window(dir: Seq<char>)
    ensures
        window_of(pathname::under(dir, CURRENT@)) is None,
{
    reveal_strlit("window-");
    reveal_strlit("current.sock");
    let name = CURRENT@;
    assert(name[0] == 'c');
    assert(name.last() == 'k');
    assert forall|i: int| 0 <= i < name.len() implies #[trigger] name[i] != '/' by {}
    let front = if dir.len() == 0 || dir.last() == '/' {
        dir
    } else {
        dir + seq!['/']
    };
    let whole = pathname::under(dir, name);
    assert(whole =~= front + name);
    assert(whole.last() == 'k');
    lemma_last_segment(front, name);
    if text::has_prefix(name, PREFIX@) {
        assert(name.subrange(0, 7)[0] == PREFIX@[0]);
    }
}

/// Listing the windows that answer orders them newest first, and loses or adds
/// none.
pub proof fn law_newest_window_first(entries: Seq<Entry>)
    ensures
        forall|i: int, j: int|
            0 <= i < j < lively(entries).len() ==> (#[trigger] lively(entries)[i]).0 >= (
            #[trigger] lively(entries)[j]).0,
        lively(entries).to_multiset() == list::collected(
            entries,
            |e: Entry| answering(e),
        ).to_multiset(),
{
    let first = |a: (i128, u32), b: (i128, u32)| newer(a, b);
    let found = list::collected(entries, |e: Entry| answering(e));
    assert(list::is_ranking(first));
    list::law_arranged_in_order(found, first);
    list::law_arranged_keeps_all(found, first);
    assert forall|i: int, j: int| 0 <= i < j < lively(entries).len() implies (
    #[trigger] lively(entries)[i]).0 >= (#[trigger] lively(entries)[j]).0 by {
        assert(!first(lively(entries)[j], lively(entries)[i]));
    }
}

/// Whether a word is the flag, in either spelling.
pub open spec fn is_window_flag(word: Seq<char>) -> bool {
    word == "--window"@ || text::has_prefix(word, "--window="@)
}

/// An argv without the flag is left as it was, and means the focused window.
pub proof fn law_no_flag_no_change(argv: Seq<Seq<char>>, target: Target)
    requires
        forall|i: int| 0 <= i < argv.len() ==> !is_window_flag(#[trigger] argv[i]),
    ensures
        windowless(argv, target) == (argv, target),
    decreases argv.len(),
{
    if argv.len() > 0 {
        let rest = argv.skip(1);
        assert(!is_window_flag(argv[0]));
        assert forall|i: int| 0 <= i < rest.len() implies !is_window_flag(#[trigger] rest[i]) by {
            assert(rest[i] == argv[i + 1]);
        }
        law_no_flag_no_change(rest, target);
        assert(seq![argv[0]] + rest =~= argv);
    } else {
        assert(argv =~= Seq::empty());
    }
}

/// Taking the flag out leaves nothing more to take out.
pub proof fn law_flag_taken_once(argv: Seq<Seq<char>>, target: Target)
    ensures
        windowless(windowless(argv, target).0, Target::Current) == (
            windowless(argv, target).0,
            Target::Current,
        ),
    decreases argv.len(),
{
    if argv.len() == 0 {
        assert(windowless(argv, target).0 =~= Seq::<Seq<char>>::empty());
    } else {
        match text::without_prefix(argv[0], "--window="@) {
            Some(value) => {
                match named(value) {
                    Some(window) => {
                        law_flag_taken_once(argv.skip(1), window);
                    },
                    None => {
                        law_flag_taken_once(argv.skip(1), target);
                        let rest = windowless(argv.skip(1), target).0;
                        assert((seq![argv[0]] + rest).skip(1) =~= rest);
                    },
                }
            },
            None => {
                if argv[0] == "--window"@ && argv.len() > 1 {
                    match named(argv[1]) {
                        Some(window) => {
                            law_flag_taken_once(argv.skip(2), window);
                        },
                        None => {
                            law_flag_taken_once(argv.skip(2), target);
                            let rest = windowless(argv.skip(2), target).0;
                            assert((seq![argv[0], argv[1]] + rest).skip(2) =~= rest);
                        },
                    }
                } else {
                    law_flag_taken_once(argv.skip(1), target);
                    let rest = windowless(argv.skip(1), target).0;
                    assert((seq![argv[0]] + rest).skip(1) =~= rest);
                    if argv[0] == "--window"@ {
                        assert(argv.skip(1).len() == 0);
                        assert(rest.len() == 0);
                    }
                }
            },
        }
    }
}

/// A word in front is the first of the words.
pub proof fn lemma_plain_word(word: Seq<char>, rest: Seq<Seq<char>>)
    requires
        !text::has_prefix(word, "-"@),
    ensures
        plain(seq![word] + rest) == seq![word] + plain(rest),
{
    let keep = |a: Seq<char>| !text::has_prefix(a, "-"@);
    list::lemma_kept_joins(seq![word], rest, keep);
    list::lemma_kept_one(word, keep);
}

/// A flag in front is none of the words.
pub proof fn lemma_plain_flag(flag: Seq<char>, rest: Seq<Seq<char>>)
    requires
        text::has_prefix(flag, "-"@),
    ensures
        plain(seq![flag] + rest) == plain(rest),
{
    let keep = |a: Seq<char>| !text::has_prefix(a, "-"@);
    list::lemma_kept_joins(seq![flag], rest, keep);
    list::lemma_kept_one(flag, keep);
    assert(Seq::<Seq<char>>::empty() + plain(rest) =~= plain(rest));
}

/// A question about the command line is answered where it was asked, wherever in the
/// line it stands.
pub proof fn law_command_line_answers_for_itself(front: Seq<Seq<char>>, back: Seq<Seq<char>>)
    ensures
        is_local(front + seq!["--help"@] + back),
        is_local(front + seq!["-h"@] + back),
        is_local(front + seq!["--version"@] + back),
        is_local(front + seq!["--llms"@] + back),
        is_local(front + seq!["--llms-full"@] + back),
        is_local(front + seq!["--schema"@] + back),
        is_local(front + seq!["--mcp"@] + back),
        is_local(front + seq!["--config-schema"@] + back),
{
    assert((front + seq!["--help"@] + back)[front.len() as int] == "--help"@);
    assert((front + seq!["-h"@] + back)[front.len() as int] == "-h"@);
    assert((front + seq!["--version"@] + back)[front.len() as int] == "--version"@);
    assert((front + seq!["--llms"@] + back)[front.len() as int] == "--llms"@);
    assert((front + seq!["--llms-full"@] + back)[front.len() as int] == "--llms-full"@);
    assert((front + seq!["--schema"@] + back)[front.len() as int] == "--schema"@);
    assert((front + seq!["--mcp"@] + back)[front.len() as int] == "--mcp"@);
    assert((front + seq!["--config-schema"@] + back)[front.len() as int] == "--config-schema"@);
}

/// What writes into the caller's shell or home runs there; every other command without
/// a question about the command line in it runs in the window.
pub proof fn law_only_the_callers_own_runs_there(
    first: Seq<char>,
    second: Seq<char>,
    rest: Seq<Seq<char>>,
)
    requires
        !text::has_prefix(first, "-"@),
        !text::has_prefix(second, "-"@),
        forall|i: int| 0 <= i < rest.len() ==> !is_local_flag(#[trigger] rest[i]),
    ensures
        is_local(seq![first, second] + rest) <==> {
            ||| first == "completions"@
            ||| first == "mcp"@
            ||| first == "skills"@
            ||| first == "agent"@
            ||| first == "config"@ && second == "init"@
        },
{
    reveal_strlit("--help");
    reveal_strlit("-h");
    reveal_strlit("--version");
    reveal_strlit("--llms");
    reveal_strlit("--llms-full");
    reveal_strlit("--schema");
    reveal_strlit("--mcp");
    reveal_strlit("--config-schema");
    reveal_strlit("-");
    lemma_plain_word(second, rest);
    lemma_plain_word(first, seq![second] + rest);
    let argv = seq![first, second] + rest;
    assert(seq![first] + (seq![second] + rest) =~= argv);
    lemma_local_flag_is_a_flag(first);
    lemma_local_flag_is_a_flag(second);
    assert forall|i: int| 0 <= i < argv.len() implies !is_local_flag(#[trigger] argv[i]) by {
        if i >= 2 {
            assert(argv[i] == rest[i - 2]);
        }
    }
}

proof fn lemma_local_flag_is_a_flag(word: Seq<char>)
    ensures
        is_local_flag(word) ==> text::has_prefix(word, "-"@),
{
    reveal_strlit("--help");
    reveal_strlit("-h");
    reveal_strlit("--version");
    reveal_strlit("--llms");
    reveal_strlit("--llms-full");
    reveal_strlit("--schema");
    reveal_strlit("--mcp");
    reveal_strlit("--config-schema");
    reveal_strlit("-");
    if is_local_flag(word) {
        assert(word[0] == '-');
        assert(word.subrange(0, 1) =~= "-"@);
    }
}

/// The flag is taken out where it stands, with the window it names, in either spelling:
/// what stands before it stays, and what follows is read as if it had not been there.
pub proof fn law_window_is_taken_out(
    front: Seq<Seq<char>>,
    pid: u32,
    back: Seq<Seq<char>>,
    target: Target,
)
    requires
        forall|i: int| 0 <= i < front.len() ==> !is_window_flag(#[trigger] front[i]),
    ensures
        windowless(front + seq!["--window"@, number::decimal(pid as nat)] + back, target) == (
            front + windowless(back, Target::Window(pid)).0,
            windowless(back, Target::Window(pid)).1,
        ),
        windowless(front + seq!["--window="@ + number::decimal(pid as nat)] + back, target) == (
            front + windowless(back, Target::Window(pid)).0,
            windowless(back, Target::Window(pid)).1,
        ),
    decreases front.len(),
{
    reveal_strlit("--window");
    reveal_strlit("--window=");
    let name = number::decimal(pid as nat);
    let two = front + seq!["--window"@, name] + back;
    let joined = "--window="@ + name;
    let one = front + seq![joined] + back;
    let rest = windowless(back, Target::Window(pid)).0;
    number::law_decimal_reads_back(pid as nat, u32::MAX as nat);
    if front.len() == 0 {
        assert(two[0] == "--window"@ && two[1] == name);
        assert(two.skip(2) =~= back);
        assert("--window"@.len() < "--window="@.len());
        assert(one[0] == joined);
        assert(one.skip(1) =~= back);
        assert(joined.subrange(0, 9) =~= "--window="@);
        assert(joined.skip(9) =~= name);
        assert(front + rest =~= rest);
    } else {
        let less = front.skip(1);
        assert(!is_window_flag(front[0]));
        assert forall|i: int| 0 <= i < less.len() implies !is_window_flag(#[trigger] less[i]) by {
            assert(less[i] == front[i + 1]);
        }
        law_window_is_taken_out(less, pid, back, target);
        assert(two[0] == front[0] && one[0] == front[0]);
        assert(two.skip(1) =~= less + seq!["--window"@, name] + back);
        assert(one.skip(1) =~= less + seq![joined] + back);
        assert(seq![front[0]] + (less + rest) =~= front + rest);
    }
}

/// A socket is swept away only where it is a window's and the window has gone. A window
/// that answers keeps its own.
pub proof fn law_live_socket_is_never_swept(entry: Entry)
    ensures
        is_stale(entry) ==> !entry.alive && window_of(entry.path@) is Some,
        is_stale(entry) ==> answering(entry) is None,
        window_of(entry.path@) is Some ==> (is_stale(entry) <==> answering(entry) is None),
{
}

/// Without a directory of its own each user's sockets are kept apart.
pub proof fn law_users_keep_apart(temp: Seq<char>, one: u32, other: u32)
    requires
        one != other,
    ensures
        default_dir(None, temp, one) != default_dir(None, temp, other),
{
    reveal_strlit("oma-browse-");
    let a = number::decimal(one as nat);
    let b = number::decimal(other as nat);
    let x = "oma-browse-"@ + a;
    let y = "oma-browse-"@ + b;
    number::law_decimal_reads_back(one as nat, u32::MAX as nat);
    number::law_decimal_reads_back(other as nat, u32::MAX as nat);
    assert(x[0] == 'o' && y[0] == 'o');
    let first = pathname::under(temp, x);
    let second = pathname::under(temp, y);
    if first == second {
        assert(a =~= first.skip(first.len() - a.len()));
        assert(b =~= second.skip(second.len() - b.len()));
        assert(first.len() - x.len() == second.len() - y.len());
        assert(a == b);
    }
}

} // verus!
