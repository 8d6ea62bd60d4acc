//! `--follow`, which is the one thing a command cannot do on its own.
//!
//! Every command answers exactly once, and that is the right shape for all but
//! two of them: `page console` and `page network` are logs, and a log is worth
//! watching. Following is done on the caller's side: ask, print what is new,
//! remember the sequence number the answer came back with, ask again.

use vstd::prelude::*;

use crate::control;
use crate::json;
use crate::number;
use crate::text;

verus! {

/// How often to ask again, in milliseconds.
pub const EVERY: u64 = 250;

/// How much backlog the first answer carries, when the caller did not say.
pub const BACKLOG: u64 = 20;

/// A `--follow` invocation, taken apart.
#[derive(Debug)]
pub struct Follow {
    /// `console` or `network`.
    pub what: String,
    /// The argv to send each time, with `--follow` taken out and `--json` put
    /// in. `--since` is appended per round.
    pub argv: Vec<String>,
    /// Whether the caller asked for a particular number of entries.
    pub limited: bool,
    /// Where the next ask starts: at first the caller's `--since`, or the beginning.
    pub since: u64,
}

/// Whether a word says how much to show.
pub open spec fn is_limit(word: Seq<char>) -> bool {
    word == "--limit"@ || text::has_prefix(word, "--limit="@)
}

/// Whether a word is one of those set here, per round.
pub open spec fn is_owned(word: Seq<char>) -> bool {
    word == "--follow"@ || word == "--since"@ || text::has_prefix(word, "--since="@)
}

/// An argv without the flags that are set here, and whether it says how much to
/// show. What follows `--since` goes with it.
pub open spec fn unowned(argv: Seq<Seq<char>>) -> (Seq<Seq<char>>, bool)
    decreases argv.len(),
{
    if argv.len() == 0 {
        (Seq::empty(), false)
    } else if argv[0] == "--since"@ {
        if argv.len() > 1 {
            unowned(argv.skip(2))
        } else {
            (Seq::empty(), false)
        }
    } else if is_owned(argv[0]) {
        unowned(argv.skip(1))
    } else {
        let (rest, limited) = unowned(argv.skip(1));
        (seq![argv[0]] + rest, limited || is_limit(argv[0]))
    }
}

/// What the last `--since` of an argv says, in either spelling.
pub open spec fn since_said(argv: Seq<Seq<char>>) -> Option<Seq<char>>
    decreases argv.len(),
{
    if argv.len() == 0 {
        None
    } else if argv[0] == "--since"@ {
        if argv.len() > 1 {
            match since_said(argv.skip(2)) {
                Some(later) => Some(later),
                None => Some(argv[1]),
            }
        } else {
            None
        }
    } else {
        match since_said(argv.skip(1)) {
            Some(later) => Some(later),
            None => text::without_prefix(argv[0], "--since="@),
        }
    }
}

/// The sequence number an argv starts from: what its last `--since` says, or the
/// beginning where that is no number or there is none.
pub open spec fn started_from(argv: Seq<Seq<char>>) -> nat {
    match since_said(argv) {
        Some(said) => match number::unsigned(said, u64::MAX as nat) {
            Some(n) => n,
            None => 0,
        },
        None => 0,
    }
}

/// The sequence number an argv starts from: a caller's `--since` is a starting
/// point, honoured for the first ask and then moved past.
pub fn start(argv: &[String]) -> (r: u64)
    ensures
        r == started_from(text::texts(argv@)),
{
    let ghost all = text::texts(argv@);
    let mut said: Option<String> = None;
    let mut i: usize = 0;
    assert(all.skip(0) =~= all);
    while i < argv.len()
        invariant
            i <= argv.len(),
            all == text::texts(argv@),
            since_said(all) == match since_said(all.skip(i as int)) {
                Some(later) => Some(later),
                None => text::maybe_owned(said),
            },
        decreases argv.len() - i,
    {
        let ghost rest = all.skip(i as int);
        assert(rest[0] == argv@[i as int]@);
        assert(rest.skip(1) =~= all.skip(i + 1));
        if text::same(argv[i].as_str(), "--since") {
            if i + 1 < argv.len() {
                assert(rest[1] == argv@[i + 1]@);
                assert(rest.skip(2) =~= all.skip(i + 2));
                said = Some(argv[i + 1].clone());
                i += 2;
            } else {
                i += 1;
                assert(all.skip(i as int) =~= Seq::empty());
            }
        } else {
            if let Some(value) = text::strip_prefix(argv[i].as_str(), "--since=") {
                said = Some(value);
            }
            i += 1;
        }
    }
    assert(all.skip(i as int) =~= Seq::empty());
    match said {
        Some(value) => match number::parse_u64(value.as_str()) {
            Some(n) => n,
            None => 0,
        },
        None => 0,
    }
}

/// An argv that asks for the machine's rendering.
pub open spec fn for_machine(argv: Seq<Seq<char>>) -> Seq<Seq<char>> {
    if argv.contains("--json"@) {
        argv
    } else {
        argv.push("--json"@)
    }
}

/// Whether an argv asks to follow one of the two logs.
pub open spec fn follows(argv: Seq<Seq<char>>) -> bool {
    &&& argv.len() > 1
    &&& argv[0] == "page"@
    &&& argv[1] == "console"@ || argv[1] == "network"@
    &&& argv.contains("--follow"@)
}

/// Recognise a following command. `None` for everything else, which is nearly
/// everything.
pub fn wanted(argv: &[String]) -> (r: Option<Follow>)
    ensures
        match r {
            Some(follow) => {
                &&& follows(text::texts(argv@))
                &&& follow.what@ == text::texts(argv@)[1]
                &&& text::texts(follow.argv@) == for_machine(unowned(text::texts(argv@)).0)
                &&& follow.limited == unowned(text::texts(argv@)).1
                &&& follow.since == started_from(text::texts(argv@))
            },
            None => !follows(text::texts(argv@)),
        },
{
    let ghost all = text::texts(argv@);
    if argv.len() < 2 || !text::same(argv[0].as_str(), "page") {
        return None;
    }
    assert(all[0] == argv@[0]@ && all[1] == argv@[1]@);
    if !text::same(argv[1].as_str(), "console") && !text::same(argv[1].as_str(), "network") {
        return None;
    }
    if !text::any_same(argv, "--follow") {
        return None;
    }
    let mut kept: Vec<String> = Vec::new();
    let mut limited = false;
    let mut i: usize = 0;
    proof {
        assert(all.skip(0) =~= all);
        assert(text::texts(kept@) + unowned(all).0 =~= unowned(all).0);
    }
    while i < argv.len()
        invariant
            i <= argv.len(),
            all == text::texts(argv@),
            unowned(all) == (
                text::texts(kept@) + unowned(all.skip(i as int)).0,
                limited || unowned(all.skip(i as int)).1,
            ),
        decreases argv.len() - i,
    {
        let ghost rest = all.skip(i as int);
        assert(rest[0] == argv@[i as int]@);
        assert(rest.skip(1) =~= all.skip(i + 1));
        let word = argv[i].as_str();
        if text::same(word, "--since") {
            if i + 1 < argv.len() {
                assert(rest.skip(2) =~= all.skip(i + 2));
                i += 2;
            } else {
                i += 1;
                assert(all.skip(i as int) =~= Seq::empty());
            }
        } else if text::same(word, "--follow") || text::starts_with(word, "--since=") {
            i += 1;
        } else {
            let ghost before = kept@;
            if text::same(word, "--limit") || text::starts_with(word, "--limit=") {
                limited = true;
            }
            kept.push(argv[i].clone());
            assert(text::texts(kept@) =~= text::texts(before).push(rest[0]));
            assert(text::texts(before) + (seq![rest[0]] + unowned(all.skip(i + 1)).0)
                =~= text::texts(kept@) + unowned(all.skip(i + 1)).0);
            i += 1;
        }
    }
    assert(text::texts(kept@) + unowned(all.skip(i as int)).0 =~= text::texts(kept@));
    if !text::any_same(&kept, "--json") {
        let ghost before = kept@;
        kept.push("--json".to_owned());
        assert(text::texts(kept@) =~= text::texts(before).push("--json"@));
    }
    Some(Follow { what: argv[1].clone(), argv: kept, limited, since: start(argv) })
}

impl Follow {
    /// What to send in one round. Only the first asks for a backlog; after that
    /// "since" is the whole of what is wanted, and a limit would silently drop
    /// the middle of a burst.
    pub fn round(&self, since: u64, first: bool) -> (r: Vec<String>)
        ensures
            text::texts(r@) == text::texts(self.argv@) + seq![
                "--since"@,
                number::decimal(since as nat),
            ] + if first && !self.limited {
                seq!["--limit"@, number::decimal(BACKLOG as nat)]
            } else {
                Seq::empty()
            },
    {
        let mut argv = text::copies(&self.argv);
        let ghost kept = argv@;
        argv.push("--since".to_owned());
        argv.push(number::to_decimal(since));
        assert(text::texts(argv@) =~= text::texts(kept) + seq![
            "--since"@,
            number::decimal(since as nat),
        ]);
        if first && !self.limited {
            let ghost asked = argv@;
            argv.push("--limit".to_owned());
            argv.push(number::to_decimal(BACKLOG));
            assert(text::texts(argv@) =~= text::texts(asked) + seq![
                "--limit"@,
                number::decimal(BACKLOG as nat),
            ]);
        }
        argv
    }

    /// One answer: where to go on from, and what to print. A command that failed
    /// answers with prose, which is said once.
    pub fn digest(&self, stdout: &str, since: u64) -> (r: Result<(u64, Vec<String>), String>)
        ensures
            match r {
                Ok((next, lines)) => {
                    &&& json::is_document(stdout@)
                    &&& next == advanced(json::member_number(stdout@, "next"@), since)
                    &&& text::texts(lines@) == rendered(self.what@, stdout@)
                },
                Err(why) => !json::is_document(stdout@) && why@ == text::trimmed(stdout@),
            },
    {
        if !json::reads(stdout) {
            return Err(text::trim(stdout));
        }
        let next: u64 = advance(json::number_of(stdout, "next"), since);
        Ok((next, render(self.what.as_str(), stdout)))
    }
}

/// Following, between one ask and the next.
#[derive(Debug)]
pub struct Rounds {
    /// What is followed. Its starting point moves on with every answer.
    follow: Follow,
    first: bool,
}

/// Following, as values: what is sent each time, where the next ask starts, and
/// whether it is the first.
pub struct Course {
    pub what: Seq<char>,
    pub argv: Seq<Seq<char>>,
    pub limited: bool,
    pub since: u64,
    pub first: bool,
}

impl View for Rounds {
    type V = Course;

    closed spec fn view(&self) -> Course {
        Course {
            what: self.follow.what@,
            argv: text::texts(self.follow.argv@),
            limited: self.follow.limited,
            since: self.follow.since,
            first: self.first,
        }
    }
}

/// What is sent next.
pub open spec fn next_ask(course: Course) -> Seq<Seq<char>> {
    course.argv + seq!["--since"@, number::decimal(course.since as nat)] + if course.first
        && !course.limited {
        seq!["--limit"@, number::decimal(BACKLOG as nat)]
    } else {
        Seq::empty()
    }
}

impl Rounds {
    /// Nothing has been asked yet: the first ask starts where the caller said.
    pub fn new(follow: Follow) -> (r: Rounds)
        ensures
            r@ == (Course {
                what: follow.what@,
                argv: text::texts(follow.argv@),
                limited: follow.limited,
                since: follow.since,
                first: true,
            }),
    {
        Rounds { follow, first: true }
    }

    /// What to send next.
    pub fn ask(&self) -> (r: Vec<String>)
        ensures
            text::texts(r@) == next_ask(self@),
    {
        self.follow.round(self.follow.since, self.first)
    }

    /// An answer came: what to print. The next ask goes on from where it ended,
    /// and carries no backlog. A command that failed answers with prose, which is
    /// said once.
    pub fn heard(&mut self, stdout: &str) -> (r: Result<Vec<String>, String>)
        ensures
            match r {
                Ok(lines) => {
                    &&& json::is_document(stdout@)
                    &&& text::texts(lines@) == rendered(old(self)@.what, stdout@)
                    &&& final(self)@ == (Course {
                        since: advanced(json::member_number(stdout@, "next"@), old(self)@.since),
                        first: false,
                        ..old(self)@
                    })
                },
                Err(why) => {
                    &&& !json::is_document(stdout@)
                    &&& why@ == text::trimmed(stdout@)
                    &&& final(self)@ == old(self)@
                },
            },
    {
        match self.follow.digest(stdout, self.follow.since) {
            Ok((next, lines)) => {
                self.follow.since = next;
                self.first = false;
                Ok(lines)
            },
            Err(why) => Err(why),
        }
    }
}

/// Where to go on from: where the answer says, or where it stood.
pub open spec fn advanced(next: Option<u64>, since: u64) -> u64 {
    match next {
        Some(n) => n,
        None => since,
    }
}

pub fn advance(next: Option<u64>, since: u64) -> (r: u64)
    ensures
        r == advanced(next, since),
{
    match next {
        Some(n) => n,
        None => since,
    }
}

/// The lines one answer is printed as.
pub open spec fn rendered(what: Seq<char>, reply: Seq<char>) -> Seq<Seq<char>> {
    if what == "console"@ {
        match json::member_items(reply, "lines"@) {
            Some(items) => items.map_values(|entry: Seq<char>| console_of(entry)),
            None => Seq::empty(),
        }
    } else {
        match json::member_items(reply, "requests"@) {
            Some(items) => items.map_values(|entry: Seq<char>| network_of(entry)),
            None => Seq::empty(),
        }
    }
}

/// One answer, as lines fit for a terminal.
pub fn render(what: &str, reply: &str) -> (r: Vec<String>)
    ensures
        text::texts(r@) == rendered(what@, reply@),
{
    let mut out: Vec<String> = Vec::new();
    if text::same(what, "console") {
        if let Some(items) = json::items_of(reply, "lines") {
            let mut i: usize = 0;
            while i < items.len()
                invariant
                    i <= items.len(),
                    text::texts(out@) =~= text::texts(items@).take(i as int).map_values(
                        |entry: Seq<char>| console_of(entry),
                    ),
                decreases items.len() - i,
            {
                let ghost before = out@;
                out.push(console_line(items[i].as_str()));
                assert(text::texts(items@)[i as int] == items@[i as int]@);
                assert(text::texts(out@) =~= text::texts(before).push(console_of(items@[i as int]@)));
                i += 1;
            }
            assert(text::texts(items@).take(i as int) =~= text::texts(items@));
        }
    } else {
        if let Some(items) = json::items_of(reply, "requests") {
            let mut i: usize = 0;
            while i < items.len()
                invariant
                    i <= items.len(),
                    text::texts(out@) =~= text::texts(items@).take(i as int).map_values(
                        |entry: Seq<char>| network_of(entry),
                    ),
                decreases items.len() - i,
            {
                let ghost before = out@;
                out.push(network_line(items[i].as_str()));
                assert(text::texts(items@)[i as int] == items@[i as int]@);
                assert(text::texts(out@) =~= text::texts(before).push(network_of(items@[i as int]@)));
                i += 1;
            }
            assert(text::texts(items@).take(i as int) =~= text::texts(items@));
        }
    }
    out
}

/// A text, or another in its place.
pub open spec fn or_else(text: Option<Seq<char>>, other: Seq<char>) -> Seq<char> {
    match text {
        Some(text) => text,
        None => other,
    }
}

/// A number, or none as zero.
pub open spec fn or_zero(n: Option<u64>) -> u64 {
    match n {
        Some(n) => n,
        None => 0,
    }
}

/// What a line of the page's console is printed as.
pub open spec fn console_form(
    level: Option<Seq<char>>,
    said: Option<Seq<char>>,
    source: Option<Seq<char>>,
) -> Seq<char> {
    let line = text::right_set(or_else(level, "log"@), 5) + "  "@ + or_else(said, ""@);
    let source = or_else(source, ""@);
    if source.len() == 0 {
        line
    } else {
        line + "  ("@ + source + ")"@
    }
}

/// What an entry of the console's log is printed as.
pub open spec fn console_of(entry: Seq<char>) -> Seq<char> {
    console_form(
        json::member_text(entry, "level"@),
        json::member_text(entry, "text"@),
        json::member_text(entry, "source"@),
    )
}

fn text_or(text: Option<String>, other: &str) -> (r: String)
    ensures
        r@ == or_else(
            match text {
                Some(text) => Some(text@),
                None => None,
            },
            other@,
        ),
{
    match text {
        Some(text) => text,
        None => other.to_owned(),
    }
}

/// What a line of the console is printed as, given what its entry holds.
pub fn console_text(level: Option<String>, said: Option<String>, source: Option<String>) -> (r:
    String)
    ensures
        r@ == console_form(
            match level {
                Some(level) => Some(level@),
                None => None,
            },
            match said {
                Some(said) => Some(said@),
                None => None,
            },
            match source {
                Some(source) => Some(source@),
                None => None,
            },
        ),
{
    let mut out = text::align_right(text_or(level, "log").as_str(), 5);
    out.append("  ");
    out.append(text_or(said, "").as_str());
    let source = text_or(source, "");
    if !source.as_str().is_empty() {
        out.append("  (");
        out.append(source.as_str());
        out.append(")");
    }
    out
}

/// What an entry of the console's log, as JSON, is printed as.
pub fn console_line(entry: &str) -> (r: String)
    ensures
        r@ == console_of(entry@),
{
    console_text(
        json::text_of(entry, "level"),
        json::text_of(entry, "text"),
        json::text_of(entry, "source"),
    )
}

/// What a request the page made is printed as. One that has no status yet has
/// not failed, and does not read as if it had.
pub open spec fn network_form(
    method: Option<Seq<char>>,
    url: Option<Seq<char>>,
    status: Option<u64>,
    ms: Option<u64>,
    failed: Option<Seq<char>>,
) -> Seq<char> {
    let asked = text::left_set(or_else(method, "GET"@), 6) + " "@ + or_else(url, ""@);
    match failed {
        Some(why) => "  ---  "@ + asked + "  ("@ + why + ")"@,
        None => if or_zero(status) == 0 {
            "  ...  "@ + asked
        } else {
            "  "@ + number::decimal(or_zero(status) as nat) + "  "@ + asked + "  "@
                + number::decimal(or_zero(ms) as nat) + "ms"@
        },
    }
}

/// What an entry of the network's log is printed as.
pub open spec fn network_of(entry: Seq<char>) -> Seq<char> {
    network_form(
        json::member_text(entry, "method"@),
        json::member_text(entry, "url"@),
        json::member_number(entry, "status"@),
        json::member_number(entry, "ms"@),
        json::member_text(entry, "failed"@),
    )
}

/// What a request is printed as, given what its entry holds.
pub fn network_text(
    method: Option<String>,
    url: Option<String>,
    status: Option<u64>,
    ms: Option<u64>,
    failed: Option<String>,
) -> (r: String)
    ensures
        r@ == network_form(
            match method {
                Some(method) => Some(method@),
                None => None,
            },
            match url {
                Some(url) => Some(url@),
                None => None,
            },
            status,
            ms,
            match failed {
                Some(failed) => Some(failed@),
                None => None,
            },
        ),
{
    let mut asked = text::align_left(text_or(method, "GET").as_str(), 6);
    asked.append(" ");
    asked.append(text_or(url, "").as_str());
    let status: u64 = match status {
        Some(status) => status,
        None => 0,
    };
    let ms: u64 = match ms {
        Some(ms) => ms,
        None => 0,
    };
    match failed {
        Some(why) => {
            let mut out = "  ---  ".to_owned();
            out.append(asked.as_str());
            out.append("  (");
            out.append(why.as_str());
            out.append(")");
            out
        },
        None => {
            if status == 0 {
                let mut out = "  ...  ".to_owned();
                out.append(asked.as_str());
                out
            } else {
                let mut out = "  ".to_owned();
                out.append(number::to_decimal(status).as_str());
                out.append("  ");
                out.append(asked.as_str());
                out.append("  ");
                out.append(number::to_decimal(ms).as_str());
                out.append("ms");
                out
            }
        },
    }
}

/// What an entry of the network's log, as JSON, is printed as.
pub fn network_line(entry: &str) -> (r: String)
    ensures
        r@ == network_of(entry@),
{
    network_text(
        json::text_of(entry, "method"),
        json::text_of(entry, "url"),
        json::number_of(entry, "status"),
        json::number_of(entry, "ms"),
        json::text_of(entry, "failed"),
    )
}

/// What is said when following ends because a round did not get through.
pub fn ended(failure: &control::Failure) -> (r: String)
    ensures
        r@ == match failure {
            control::Failure::NoWindow => "the browser window has gone"@,
            control::Failure::Transport(e) => "could not talk to the browser: "@ + e@,
            control::Failure::Protocol(m) => "the browser answered with "@ + m@,
        },
{
    match failure {
        control::Failure::NoWindow => "the browser window has gone".to_owned(),
        _ => failure.message(),
    }
}

// ---------------------------------------------------------------------------
// Laws
// ---------------------------------------------------------------------------

/// The flags the loop sets are taken out of the argv.
pub proof fn law_owned_flags_are_gone(argv: Seq<Seq<char>>)
    ensures
        forall|i: int| 0 <= i < unowned(argv).0.len() ==> !is_owned(#[trigger] unowned(argv).0[i]),
    decreases argv.len(),
{
    if argv.len() > 0 {
        if argv[0] == "--since"@ {
            if argv.len() > 1 {
                law_owned_flags_are_gone(argv.skip(2));
                assert(unowned(argv).0 == unowned(argv.skip(2)).0);
            }
        } else {
            law_owned_flags_are_gone(argv.skip(1));
            let rest = unowned(argv.skip(1)).0;
            let out = unowned(argv).0;
            if is_owned(argv[0]) {
                assert(out == rest);
            } else {
                assert(out == seq![argv[0]] + rest);
                assert forall|i: int| 0 <= i < out.len() implies !is_owned(#[trigger] out[i]) by {
                    if i > 0 {
                        assert(out[i] == rest[i - 1]);
                    }
                }
            }
        }
    }
}

/// Everything the caller asked for that is not set here survives, and a caller
/// who named a limit is known to have.
pub proof fn law_the_rest_survives(argv: Seq<Seq<char>>)
    requires
        forall|i: int| 0 <= i < argv.len() ==> !is_owned(#[trigger] argv[i]),
    ensures
        unowned(argv).0 == argv,
        unowned(argv).1 == exists|i: int| 0 <= i < argv.len() && is_limit(#[trigger] argv[i]),
    decreases argv.len(),
{
    if argv.len() == 0 {
        assert(argv =~= Seq::empty());
    } else {
        let rest = argv.skip(1);
        assert(!is_owned(argv[0]));
        assert forall|i: int| 0 <= i < rest.len() implies !is_owned(#[trigger] rest[i]) by {
            assert(rest[i] == argv[i + 1]);
        }
        law_the_rest_survives(rest);
        assert(seq![argv[0]] + rest =~= argv);
        if unowned(rest).1 {
            let k = choose|k: int| 0 <= k < rest.len() && is_limit(#[trigger] rest[k]);
            assert(is_limit(argv[k + 1]));
        }
        if exists|i: int| 0 <= i < argv.len() && is_limit(#[trigger] argv[i]) {
            let k = choose|k: int| 0 <= k < argv.len() && is_limit(#[trigger] argv[k]);
            if k > 0 {
                assert(rest[k - 1] == argv[k]);
                assert(is_limit(rest[k - 1]));
            }
        }
    }
}

/// A caller's `--since` is where the first ask starts, and it is the last one that
/// counts.
pub proof fn law_last_since_is_the_start(
    before: Seq<Seq<char>>,
    n: u64,
    after: Seq<Seq<char>>,
)
    requires
        forall|i: int| 0 <= i < before.len() ==> !is_owned(#[trigger] before[i]),
        forall|i: int| 0 <= i < after.len() ==> !is_since(#[trigger] after[i]),
    ensures
        started_from(before + seq!["--since"@, number::decimal(n as nat)] + after) == n,
    decreases before.len(),
{
    let argv = before + seq!["--since"@, number::decimal(n as nat)] + after;
    if before.len() == 0 {
        assert(argv[0] == "--since"@);
        assert(argv[1] == number::decimal(n as nat));
        assert(argv.skip(2) =~= after);
        lemma_no_since(after);
        number::law_decimal_reads_back(n as nat, u64::MAX as nat);
    } else {
        let rest = before.skip(1);
        assert(!is_owned(before[0]));
        assert(argv[0] == before[0]);
        assert(argv.skip(1) =~= rest + seq!["--since"@, number::decimal(n as nat)] + after);
        assert forall|i: int| 0 <= i < rest.len() implies !is_owned(#[trigger] rest[i]) by {
            assert(rest[i] == before[i + 1]);
        }
        law_last_since_is_the_start(rest, n, after);
        assert(since_said(argv) == since_said(argv.skip(1)));
    }
}

/// Whether a word says where to start.
pub open spec fn is_since(word: Seq<char>) -> bool {
    word == "--since"@ || text::has_prefix(word, "--since="@)
}

proof fn lemma_no_since(argv: Seq<Seq<char>>)
    requires
        forall|i: int| 0 <= i < argv.len() ==> !is_since(#[trigger] argv[i]),
    ensures
        since_said(argv) is None,
    decreases argv.len(),
{
    if argv.len() > 0 {
        let rest = argv.skip(1);
        assert(!is_since(argv[0]));
        assert forall|i: int| 0 <= i < rest.len() implies !is_since(#[trigger] rest[i]) by {
            assert(rest[i] == argv[i + 1]);
        }
        lemma_no_since(rest);
    }
}

/// Following asks for the machine's rendering, whatever the caller's terminal.
pub proof fn law_asks_for_the_machine(argv: Seq<Seq<char>>)
    ensures
        for_machine(argv).contains("--json"@),
{
    if !argv.contains("--json"@) {
        assert(for_machine(argv)[argv.len() as int] == "--json"@);
    }
}

/// Every ask goes on from where the last one ended. The first brings what there is
/// already, twenty of it unless somebody said how much, and those after it everything
/// that is new.
pub proof fn law_asking_goes_on(course: Course)
    ensures
        ({
            let ask = next_ask(course);
            let n = course.argv.len() as int;
            &&& ask.take(n) == course.argv
            &&& ask[n] == "--since"@ && ask[n + 1] == number::decimal(course.since as nat)
            &&& course.first && !course.limited ==> ask.len() == n + 4 && ask[n + 2] == "--limit"@
                && ask[n + 3] == number::decimal(20)
            &&& !course.first || course.limited ==> ask.len() == n + 2
        }),
{
    assert(next_ask(course).take(course.argv.len() as int) =~= course.argv);
}

/// A request that failed says why, whatever its status and time. One with no status yet shows
/// no time. One that was answered shows both.
pub proof fn law_network_line_says_how_it_went(
    method: Option<Seq<char>>,
    url: Seq<char>,
    status: u64,
    ms: u64,
    other: Option<u64>,
    why: Seq<char>,
)
    requires
        status > 0,
    ensures
        network_form(method, Some(url), other, Some(ms), Some(why)) == network_form(
            method,
            Some(url),
            Some(status),
            None,
            Some(why),
        ),
        ("  ("@ + why + ")"@).is_suffix_of(
            network_form(method, Some(url), other, Some(ms), Some(why)),
        ),
        url.is_suffix_of(network_form(method, Some(url), None, Some(ms), None)),
        network_form(method, Some(url), Some(0), Some(ms), None) == network_form(
            method,
            Some(url),
            None,
            None,
            None,
        ),
        (url + "  "@ + number::decimal(ms as nat) + "ms"@).is_suffix_of(
            network_form(method, Some(url), Some(status), Some(ms), None),
        ),
        ("  "@ + number::decimal(status as nat) + "  "@).is_prefix_of(
            network_form(method, Some(url), Some(status), Some(ms), None),
        ),
        network_form(None, Some(url), other, None, None) == network_form(
            Some("GET"@),
            Some(url),
            other,
            None,
            None,
        ),
{
    let asked = text::left_set(or_else(method, "GET"@), 6) + " "@;
    let end = "  ("@ + why + ")"@;
    let bad = network_form(method, Some(url), other, Some(ms), Some(why));
    assert(bad =~= "  ---  "@ + asked + url + end);
    let going = network_form(method, Some(url), None, Some(ms), None);
    assert(going =~= "  ...  "@ + asked + url);
    let shown = "  "@ + number::decimal(status as nat) + "  "@;
    let tail = url + "  "@ + number::decimal(ms as nat) + "ms"@;
    let done = network_form(method, Some(url), Some(status), Some(ms), None);
    assert(done =~= shown + asked + tail);
}

/// A line of the console is its level, set to a column, and what was said; where it was said
/// follows when that is known.
pub proof fn law_console_line_says_where(
    level: Seq<char>,
    said: Seq<char>,
    source: Seq<char>,
)
    requires
        source.len() > 0,
    ensures
        console_form(Some(level), Some(said), None) == text::right_set(level, 5) + "  "@ + said,
        console_form(Some(level), Some(said), Some(Seq::empty())) == console_form(
            Some(level),
            Some(said),
            None,
        ),
        console_form(Some(level), Some(said), Some(source)) == console_form(
            Some(level),
            Some(said),
            None,
        ) + "  ("@ + source + ")"@,
        console_form(None, Some(said), Some(source)) == console_form(
            Some("log"@),
            Some(said),
            Some(source),
        ),
{
    reveal_strlit("");
}

/// A limit counts however its number is written: behind it or in the next word. A word that
/// only begins alike is none.
pub proof fn law_limit_is_known_by_its_name(number: Seq<char>, c: char)
    requires
        c != '=',
    ensures
        is_limit("--limit"@),
        is_limit("--limit="@ + number),
        !is_limit("--limit"@ + seq![c] + number),
        !is_limit(Seq::empty()),
        number.len() > 0 && number[0] != '-' ==> !is_limit(number),
{
    reveal_strlit("--limit");
    reveal_strlit("--limit=");
    assert("--limit"@.len() == 7);
    assert("--limit="@.len() == 8);
    assert("--limit="@[7] == '=');
    assert("--limit"@[0] == '-');
    assert("--limit="@[0] == '-');
    let given = "--limit="@ + number;
    assert(given.subrange(0, 8) =~= "--limit="@);
    let alike = "--limit"@ + seq![c] + number;
    assert(alike[7] == c);
    if text::has_prefix(alike, "--limit="@) {
        assert(alike.subrange(0, 8)[7] == alike[7]);
    }
    if number.len() > 0 && text::has_prefix(number, "--limit="@) {
        assert(number.subrange(0, 8)[0] == number[0]);
    }
}

} // verus!
