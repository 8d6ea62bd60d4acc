//! Which face of the program was asked for, and what to do about it.
//!
//! One binary, two modes. A subcommand means "talk to the browser"; anything
//! else means "be the browser".

use vstd::prelude::*;

use crate::config;
use crate::control;
use crate::list;
use crate::number;
use crate::text;

verus! {

/// Which face was asked for.
#[derive(Debug)]
pub enum Invocation {
    /// Be the browser.
    Gui {
        url: Option<String>,
        incognito: bool,
        /// Come up asking where to go.
        palette: bool,
        /// A window of its own, rather than a tab in the one that is up.
        fresh: bool,
    },
    /// Talk to the browser.
    Command,
}

/// The flags and the address a launch gives.
pub struct Launch {
    pub url: Option<Seq<char>>,
    pub incognito: bool,
    pub palette: bool,
    pub fresh: bool,
}

/// Whether a word is an address.
pub open spec fn is_address(word: Seq<char>) -> bool {
    text::has_prefix(word, "http://"@) || text::has_prefix(word, "https://"@) || text::has_prefix(
        word,
        "file://"@,
    )
}

/// A launch with one more word of it read. `None` for a word that is neither a
/// flag of ours nor an address.
pub open spec fn with_word(launch: Launch, word: Seq<char>) -> Option<Launch> {
    if word == "--incognito"@ || word == "--private"@ {
        Some(Launch { incognito: true, ..launch })
    } else if word == "--palette"@ {
        Some(Launch { palette: true, ..launch })
    } else if word == "--new"@ {
        Some(Launch { fresh: true, ..launch })
    } else if is_address(word) {
        Some(Launch { url: Some(word), ..launch })
    } else {
        None
    }
}

/// A launch, if every word of an argv belongs to one.
pub open spec fn launched(args: Seq<Seq<char>>) -> Option<Launch>
    decreases args.len(),
{
    if args.len() == 0 {
        Some(Launch { url: None, incognito: false, palette: false, fresh: false })
    } else {
        match launched(args.drop_last()) {
            Some(launch) => with_word(launch, args.last()),
            None => None,
        }
    }
}

pub fn looks_like_url(s: &str) -> (r: bool)
    ensures
        r == is_address(s@),
{
    text::starts_with(s, "http://") || text::starts_with(s, "https://") || text::starts_with(
        s,
        "file://",
    )
}

proof fn lemma_not_launched(args: Seq<Seq<char>>, at: int)
    requires
        0 <= at <= args.len(),
        launched(args.take(at)) is None,
    ensures
        launched(args) is None,
    decreases args.len() - at,
{
    if at < args.len() {
        assert(args.take(at + 1).drop_last() =~= args.take(at));
        lemma_not_launched(args, at + 1);
    } else {
        assert(args.take(at) =~= args);
    }
}

/// Tell a launch from a subcommand. Anything that is neither a flag of ours nor
/// an address is a subcommand or a flag for one, and the whole argv goes to
/// whoever parses those.
pub fn classify(args: &[String]) -> (r: Invocation)
    ensures
        match r {
            Invocation::Gui { url, incognito, palette, fresh } => launched(text::texts(args@))
                == Some(Launch { url: text::maybe_owned(url), incognito, palette, fresh }),
            Invocation::Command => launched(text::texts(args@)) is None,
        },
{
    let ghost all = text::texts(args@);
    let mut url: Option<String> = None;
    let mut incognito = false;
    let mut palette = false;
    let mut fresh = false;
    let mut i: usize = 0;
    assert(all.take(0) =~= Seq::empty());
    while i < args.len()
        invariant
            i <= args.len(),
            all == text::texts(args@),
            launched(all.take(i as int)) == Some(
                Launch { url: text::maybe_owned(url), incognito, palette, fresh },
            ),
        decreases args.len() - i,
    {
        let arg = args[i].as_str();
        assert(all.take(i + 1).drop_last() =~= all.take(i as int));
        assert(all[i as int] == arg@);
        if text::same(arg, "--incognito") || text::same(arg, "--private") {
            incognito = true;
        } else if text::same(arg, "--palette") {
            palette = true;
        } else if text::same(arg, "--new") {
            fresh = true;
        } else if looks_like_url(arg) {
            url = Some(arg.to_owned());
        } else {
            proof {
                lemma_not_launched(all, i + 1);
            }
            return Invocation::Command;
        }
        i += 1;
    }
    assert(all.take(i as int) =~= all);
    Invocation::Gui { url, incognito, palette, fresh }
}

// ---------------------------------------------------------------------------
// Being the browser
// ---------------------------------------------------------------------------

/// The command that hands a launch's address to the window that is already open,
/// where it should be: a clicked link belongs in the browser you already have,
/// unless a new or a private window was asked for.
pub fn join(url: Option<&str>, incognito: bool, fresh: bool) -> (r: Option<Vec<String>>)
    ensures
        match r {
            Some(argv) => !fresh && !incognito && match url {
                Some(url) => text::texts(argv@) == seq!["tab"@, "open"@, url@],
                None => false,
            },
            None => fresh || incognito || url is None,
        },
{
    if fresh || incognito {
        return None;
    }
    let url = url?;
    let mut argv: Vec<String> = Vec::new();
    argv.push("tab".to_owned());
    argv.push("open".to_owned());
    argv.push(url.to_owned());
    assert(text::texts(argv@) =~= seq!["tab"@, "open"@, url@]);
    Some(argv)
}

/// Whether handing the address over settled the launch. A window that took the
/// question and did not like it has: opening a second browser would not make the
/// address any better. A link that goes nowhere is worse than a second window,
/// so a conversation that failed has not.
pub fn joined(answer: &Result<control::Reply, control::Failure>) -> (r: bool)
    ensures
        r == (answer is Ok),
{
    match answer {
        Ok(_) => true,
        Err(_) => false,
    }
}

/// Whether a window is private, and whether it brings the last session back. The
/// flag or the configuration is enough for the first, and a private window never
/// does the second.
pub fn startup(flag: bool, configured: &config::Startup) -> (r: (bool, bool))
    ensures
        r.0 == (flag || configured.incognito),
        r.1 == (configured.restore && !r.0),
{
    let incognito = flag || configured.incognito;
    (incognito, configured.restore && !incognito)
}

// ---------------------------------------------------------------------------
// Talking to the browser
// ---------------------------------------------------------------------------

/// The first word that is not a flag or a command name: `tab open <this>`. The
/// first two words are the command's name, wherever flags stand among them.
pub open spec fn value_of(argv: Seq<Seq<char>>) -> Option<Seq<char>> {
    let words = control::plain(argv);
    if words.len() > 2 {
        Some(words[2])
    } else {
        None
    }
}

/// The first word that is not a flag or a command name: `tab open <this>`.
pub fn first_value(argv: &[String]) -> (r: Option<String>)
    ensures
        text::maybe_owned(r) == value_of(text::texts(argv@)),
{
    let words = control::plain_words(argv);
    if words.len() > 2 {
        assert(text::texts(words@)[2] == words@[2]@);
        Some(words[2].clone())
    } else {
        None
    }
}

/// What to do with an argv.
#[derive(Debug, Clone, Copy, PartialEq, Eq, Structural)]
pub enum Plan {
    /// Relay the tools' protocol to a window.
    Relay,
    /// Run it here: it is about the caller's machine.
    Here,
    /// Send it to a window.
    Forward,
}

pub fn plan(argv: &[String]) -> (r: Plan)
    ensures
        r == if text::texts(argv@).contains("--mcp"@) {
            Plan::Relay
        } else if control::is_local(text::texts(argv@)) {
            Plan::Here
        } else {
            Plan::Forward
        },
{
    if text::any_same(argv, "--mcp") {
        Plan::Relay
    } else if control::runs_locally(argv) {
        Plan::Here
    } else {
        Plan::Forward
    }
}

/// Whether a window has to be opened before relaying to one, which is what a
/// client that starts this program asks for in the only way it can. One that was
/// named is not another that could be started.
pub fn relay(found: bool, target: control::Target) -> (r: Result<bool, String>)
    ensures
        match r {
            Ok(open) => open == !found && (found || target is Current),
            Err(why) => !found && match target {
                control::Target::Window(pid) => why@ == "no browser window with pid "@
                    + number::decimal(pid as nat) + " is running"@,
                control::Target::Current => false,
            },
        },
{
    if found {
        return Ok(false);
    }
    match target {
        control::Target::Current => Ok(true),
        control::Target::Window(pid) => {
            let mut why = "no browser window with pid ".to_owned();
            why.append(number::to_decimal(pid as u64).as_str());
            why.append(" is running");
            Err(why)
        },
    }
}

/// Whether an argv asks about tabs, pages or the chrome, which only a window has.
pub open spec fn about_a_window(argv: Seq<Seq<char>>) -> bool {
    let words = control::plain(argv);
    ||| control::leads(words, "tab"@)
    ||| control::leads(words, "nav"@)
    ||| control::leads(words, "page"@)
    ||| control::leads(words, "find"@)
    ||| control::leads(words, "ui"@)
    ||| control::leads(words, "share"@)
    ||| control::leads(words, "content"@)
    ||| control::leads(words, "window"@)
}

/// Whether answering this argv takes a window. What is left -- the history, the
/// bookmarks, the downloads, the configuration -- is read from files, which a
/// process without one answers exactly as a window would.
pub fn needs_a_window(argv: &[String]) -> (r: bool)
    ensures
        r == about_a_window(text::texts(argv@)),
{
    let words = control::plain_words(argv);
    control::begins(&words, "tab") || control::begins(&words, "nav") || control::begins(
        &words,
        "page",
    ) || control::begins(&words, "find") || control::begins(&words, "ui") || control::begins(
        &words,
        "share",
    ) || control::begins(&words, "content") || control::begins(&words, "window")
}

/// What to do with an argv that did not reach a window.
pub enum Unsent {
    /// Open a window on what was asked for, and come up asking where to go if
    /// nothing was.
    Open { input: Option<String>, palette: bool },
    /// Answer it here.
    Here,
    /// Say why not.
    Refuse(String),
}

/// What is said when there is nothing to ask.
pub const NOTHING_TO_ASK: &'static str =
    "no browser window is running, so there is nothing to ask. Start one with `oma-browse`, or open a page directly with `oma-browse tab open <url>`, which starts one for you.";

/// What to do with an argv that did not reach a window. A conversation that broke
/// is never taken up here: the command may already have run, and running it twice
/// is worse than not running it at all.
pub fn unsent(argv: &[String], failure: &control::Failure) -> (r: Unsent)
    ensures
        ({
            let all = text::texts(argv@);
            let words = control::plain(all);
            let opens = control::leads_two(words, "tab"@, "open"@) || control::leads_two(
                words,
                "window"@,
                "new"@,
            );
            match failure {
                control::Failure::NoWindow => if opens {
                    r matches Unsent::Open { input, palette } && text::maybe_owned(input)
                        == value_of(all) && palette == (value_of(all) is None)
                } else if about_a_window(all) {
                    r matches Unsent::Refuse(why) && why@ == NOTHING_TO_ASK@
                } else {
                    r is Here
                },
                control::Failure::Transport(e) => r matches Unsent::Refuse(why) && why@
                    == "could not talk to the browser: "@ + e@,
                control::Failure::Protocol(m) => r matches Unsent::Refuse(why) && why@
                    == "the browser answered with "@ + m@,
            }
        }),
{
    match failure {
        control::Failure::NoWindow => {
            if control::opens_a_window(argv) {
                let input = first_value(argv);
                let palette = input.is_none();
                Unsent::Open { input, palette }
            } else if needs_a_window(argv) {
                Unsent::Refuse(NOTHING_TO_ASK.to_owned())
            } else {
                Unsent::Here
            }
        },
        _ => Unsent::Refuse(failure.message()),
    }
}

/// How long to wait for a window that was just started to answer, in
/// milliseconds.
pub const STARTUP: u64 = 10_000;

/// How often to look whether it does.
pub const STARTUP_POLL: u64 = 50;

/// What to do about a window that was just started.
pub enum Starting {
    Ready,
    /// Look again.
    Wait,
    /// Deliberately not silent: the alternative is a client that hangs.
    GiveUp(String),
}

/// What to do about a window that was started `elapsed` milliseconds ago, given
/// whether it answers. Once the time is up it is not asked any more.
pub fn starting(pid: u32, answers: bool, elapsed: u64) -> (r: Starting)
    ensures
        match r {
            Starting::Ready => answers && elapsed < STARTUP,
            Starting::Wait => !answers && elapsed < STARTUP,
            Starting::GiveUp(why) => elapsed >= STARTUP && why@
                == "started a browser window (pid "@ + number::decimal(pid as nat)
                + ") but it did not come up within 10s"@,
        },
{
    if elapsed >= STARTUP {
        let mut why = "started a browser window (pid ".to_owned();
        why.append(number::to_decimal(pid as u64).as_str());
        why.append(") but it did not come up within 10s");
        return Starting::GiveUp(why);
    }
    if answers {
        Starting::Ready
    } else {
        Starting::Wait
    }
}

// ---------------------------------------------------------------------------
// Laws
// ---------------------------------------------------------------------------

/// A launch with nothing said is the browser, with nothing asked of it.
pub proof fn law_bare_launch_is_the_browser()
    ensures
        launched(Seq::<Seq<char>>::empty()) == Some(
            Launch { url: None, incognito: false, palette: false, fresh: false },
        ),
{
}

/// One word that belongs to a subcommand makes the whole of it one, wherever it
/// stands.
pub proof fn law_a_subcommand_is_never_a_launch(args: Seq<Seq<char>>, at: int)
    requires
        0 <= at < args.len(),
        !is_address(args[at]),
        args[at] != "--incognito"@,
        args[at] != "--private"@,
        args[at] != "--palette"@,
        args[at] != "--new"@,
    ensures
        launched(args) is None,
{
    assert(args.take(at + 1).drop_last() =~= args.take(at));
    lemma_not_launched(args, at + 1);
}

/// A launch that asks for a private window anywhere gets one, whatever else it
/// asks for.
pub proof fn law_private_once_said_stays(args: Seq<Seq<char>>, at: int)
    requires
        0 <= at < args.len(),
        args[at] == "--incognito"@ || args[at] == "--private"@,
        launched(args) is Some,
    ensures
        (launched(args)->0).incognito,
    decreases args.len(),
{
    if at < args.len() - 1 {
        let front = args.drop_last();
        assert(front[at] == args[at]);
        law_private_once_said_stays(front, at);
    }
}

/// A launch is what was said, in whatever order: each flag where it was given and not
/// otherwise, and the last of the addresses.
pub proof fn law_launch_is_what_was_said(args: Seq<Seq<char>>)
    requires
        launched(args) is Some,
    ensures
        ({
            let launch = launched(args)->0;
            &&& launch.incognito <==> args.contains("--incognito"@) || args.contains("--private"@)
            &&& launch.palette <==> args.contains("--palette"@)
            &&& launch.fresh <==> args.contains("--new"@)
            &&& launch.url == match list::last_where(args, |word: Seq<char>| is_address(word)) {
                Some(i) => Some(args[i]),
                None => None,
            }
        }),
    decreases args.len(),
{
    reveal_strlit("--incognito");
    reveal_strlit("--private");
    reveal_strlit("--palette");
    reveal_strlit("--new");
    reveal_strlit("http://");
    reveal_strlit("https://");
    reveal_strlit("file://");
    if args.len() > 0 {
        let front = args.drop_last();
        let word = args.last();
        let address = |w: Seq<char>| is_address(w);
        law_launch_is_what_was_said(front);
        assert(args =~= front.push(word));
        assert forall|x: Seq<char>| #[trigger] args.contains(x) <==> front.contains(x) || x == word by {
            if front.contains(x) {
                let k = choose|k: int| 0 <= k < front.len() && front[k] == x;
                assert(args[k] == x);
            }
            if args.contains(x) {
                let k = choose|k: int| 0 <= k < args.len() && args[k] == x;
                if k < front.len() {
                    assert(front[k] == x);
                }
            }
            assert(args[args.len() - 1] == word);
        }
        assert("--incognito"@.len() == 11 && "--private"@.len() == 9 && "--palette"@.len() == 9
            && "--new"@.len() == 5);
        assert("--private"@[3] == 'r' && "--palette"@[3] == 'a');
        assert("--incognito"@[0] == '-' && "--private"@[0] == '-' && "--palette"@[0] == '-'
            && "--new"@[0] == '-');
        if is_address(word) {
            lemma_address_begins(word);
        }
        list::lemma_last_where_is_last(front, address);
        assert(args.contains("--incognito"@) <==> front.contains("--incognito"@) || "--incognito"@
            == word);
        assert(args.contains("--private"@) <==> front.contains("--private"@) || "--private"@ == word);
        assert(args.contains("--palette"@) <==> front.contains("--palette"@) || "--palette"@ == word);
        assert(args.contains("--new"@) <==> front.contains("--new"@) || "--new"@ == word);
        if let Some(i) = list::last_where(front, address) {
            assert(args[i] == front[i]);
        }
    }
}

proof fn lemma_address_begins(word: Seq<char>)
    requires
        is_address(word),
    ensures
        word.len() > 0 && (word[0] == 'h' || word[0] == 'f'),
{
    reveal_strlit("http://");
    reveal_strlit("https://");
    reveal_strlit("file://");
    assert("http://"@[0] == 'h' && "https://"@[0] == 'h' && "file://"@[0] == 'f');
    if text::has_prefix(word, "http://"@) {
        assert(word.subrange(0, 7)[0] == word[0]);
    } else if text::has_prefix(word, "https://"@) {
        assert(word.subrange(0, 8)[0] == word[0]);
    } else {
        assert(word.subrange(0, 7)[0] == word[0]);
    }
}

/// Anything on the web and any file on the machine is an address to launch at.
pub proof fn law_addresses_are_launched_at(rest: Seq<char>)
    ensures
        is_address("http://"@ + rest),
        is_address("https://"@ + rest),
        is_address("file://"@ + rest),
{
    reveal_strlit("http://");
    reveal_strlit("https://");
    reveal_strlit("file://");
    assert(("http://"@ + rest).subrange(0, 7) =~= "http://"@);
    assert(("https://"@ + rest).subrange(0, 8) =~= "https://"@);
    assert(("file://"@ + rest).subrange(0, 7) =~= "file://"@);
}

/// What is asked of tabs, pages, the chrome or a window takes a window to answer, and
/// nothing else does.
pub proof fn law_what_takes_a_window(group: Seq<char>, rest: Seq<Seq<char>>)
    requires
        !text::has_prefix(group, "-"@),
    ensures
        about_a_window(seq![group] + rest) <==> {
            ||| group == "tab"@
            ||| group == "nav"@
            ||| group == "page"@
            ||| group == "find"@
            ||| group == "ui"@
            ||| group == "share"@
            ||| group == "content"@
            ||| group == "window"@
        },
{
    control::lemma_plain_word(group, rest);
}

/// The value of a command is the word behind its two names, wherever its flags stand.
pub proof fn law_value_is_the_third_word(
    group: Seq<char>,
    leaf: Seq<char>,
    value: Seq<char>,
    rest: Seq<Seq<char>>,
    flag: Seq<char>,
)
    requires
        !text::has_prefix(group, "-"@),
        !text::has_prefix(leaf, "-"@),
        !text::has_prefix(value, "-"@),
        text::has_prefix(flag, "-"@),
    ensures
        value_of(seq![group, leaf, value] + rest) == Some(value),
        value_of(seq![group, flag, leaf, value] + rest) == Some(value),
        value_of(seq![flag, group, leaf, flag, value] + rest) == Some(value),
        value_of(seq![group, leaf]) is None,
{
    let none = Seq::<Seq<char>>::empty();
    control::lemma_plain_word(value, rest);
    control::lemma_plain_word(leaf, seq![value] + rest);
    control::lemma_plain_word(group, seq![leaf] + (seq![value] + rest));
    assert(seq![group] + (seq![leaf] + (seq![value] + rest)) =~= seq![group, leaf, value] + rest);
    control::lemma_plain_flag(flag, seq![leaf] + (seq![value] + rest));
    control::lemma_plain_word(group, seq![flag] + (seq![leaf] + (seq![value] + rest)));
    assert(seq![group] + (seq![flag] + (seq![leaf] + (seq![value] + rest))) =~= seq![
        group,
        flag,
        leaf,
        value,
    ] + rest);
    control::lemma_plain_flag(flag, seq![value] + rest);
    control::lemma_plain_word(leaf, seq![flag] + (seq![value] + rest));
    control::lemma_plain_word(group, seq![leaf] + (seq![flag] + (seq![value] + rest)));
    control::lemma_plain_flag(flag, seq![group] + (seq![leaf] + (seq![flag] + (seq![value] + rest))));
    assert(seq![flag] + (seq![group] + (seq![leaf] + (seq![flag] + (seq![value] + rest))))
        =~= seq![flag, group, leaf, flag, value] + rest);
    control::lemma_plain_word(leaf, none);
    control::lemma_plain_word(group, seq![leaf] + none);
    assert(seq![group] + (seq![leaf] + none) =~= seq![group, leaf]);
    assert(control::plain(none) =~= none);
}

} // verus!
