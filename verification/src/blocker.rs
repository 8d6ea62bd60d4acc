//! Content blocking, through the engine's own compiler.
//!
//! A rule list is compiled once into a blob, and from then on every request is
//! matched against it before a socket is opened. Rule lists are read from files
//! on disk, not from URLs.

use vstd::prelude::*;

use crate::config;
use crate::list;
use crate::number;
use crate::pathname;
use crate::paths;
use crate::profile;
use crate::table;
use crate::text;

verus! {

/// The user's cache directory, given what `XDG_CACHE_HOME` and `HOME` say.
pub open spec fn cache_home(cache: Option<Seq<char>>, home: Option<Seq<char>>) -> Seq<char> {
    match cache {
        Some(dir) => if pathname::absolute(dir) {
            dir
        } else {
            home_cache(home)
        },
        None => home_cache(home),
    }
}

pub open spec fn home_cache(home: Option<Seq<char>>) -> Seq<char> {
    match home {
        Some(home) => pathname::under(home, ".cache"@),
        None => pathname::under(Seq::empty(), ".cache"@),
    }
}

/// Where compiled blobs live: a cache, because they are derived data that can
/// always be rebuilt from the rule file.
pub fn cache_dir(cache: Option<&str>, home: Option<&str>, profile: Option<&str>) -> (r: String)
    ensures
        r@ == pathname::under(
            profile::profile_home(
                pathname::under(cache_home(text::maybe(cache), text::maybe(home)), "oma-browse"@),
                text::maybe(profile),
            ),
            "filters"@,
        ),
{
    let fallback = match home {
        Some(home) => pathname::join(home, ".cache"),
        None => {
            proof {
                reveal_strlit("");
                assert(""@ =~= Seq::empty());
            }
            pathname::join("", ".cache")
        },
    };
    let base = match cache {
        Some(dir) => if pathname::is_absolute(dir) {
            dir.to_owned()
        } else {
            fallback
        },
        None => fallback,
    };
    let base = pathname::join(base.as_str(), "oma-browse");
    pathname::join(profile::within(base.as_str(), profile).as_str(), "filters")
}

// ---------------------------------------------------------------------------
// What a list is called
// ---------------------------------------------------------------------------

/// What is known of a rule file: how long it is, and when it was last changed,
/// in seconds from the epoch.
pub struct Stamp {
    pub length: u64,
    pub modified: Option<u64>,
}

/// A file's length and time of change, as part of a name.
pub open spec fn stamped(stamp: Option<Stamp>) -> Seq<char> {
    match stamp {
        Some(stamp) => number::hexadecimal(stamp.length as nat) + "-"@ + number::hexadecimal(
            match stamp.modified {
                Some(secs) => secs as nat,
                None => 0,
            },
        ),
        None => "missing"@,
    }
}

/// The name a rule file goes by, with nothing in it but letters, digits, dashes
/// and underscores.
pub open spec fn list_name(path: Seq<char>) -> Seq<char> {
    let stem = match pathname::stem_of(path) {
        Some(stem) => stem,
        None => "rules"@,
    };
    profile::dashed(stem)
}

/// What a rule list is called in the cache.
pub open spec fn identity(path: Seq<char>, stamp: Option<Stamp>) -> Seq<char> {
    list_name(path) + "-"@ + stamped(stamp)
}

/// An identifier the engine will accept, and that changes when the file does.
///
/// The length and the time of change stand in for a hash of the contents: a
/// blocklist is megabytes, and hashing it on every launch would cost more than
/// the lookup saves.
pub fn identifier(path: &str, stamp: Option<Stamp>) -> (r: String)
    ensures
        r@ == identity(path@, stamp),
{
    let stem = match pathname::file_stem(path) {
        Some(stem) => stem,
        None => "rules".to_owned(),
    };
    let mut id = profile::put_dashes(stem.as_str());
    id.append("-");
    match stamp {
        Some(stamp) => {
            let secs: u64 = match stamp.modified {
                Some(secs) => secs,
                None => 0,
            };
            let mut tail = number::to_hex(stamp.length);
            tail.append("-");
            tail.append(number::to_hex(secs).as_str());
            id.append(tail.as_str());
        },
        None => {
            id.append("missing");
        },
    }
    id
}

// ---------------------------------------------------------------------------
// What the configuration names
// ---------------------------------------------------------------------------

/// Whether a rule is an address rather than a file.
pub open spec fn is_address(rule: Seq<char>) -> bool {
    text::has_prefix(rule, "http://"@) || text::has_prefix(rule, "https://"@)
}

/// What is said of a rule list that would have to be fetched.
pub open spec fn not_fetched(rule: Seq<char>) -> Seq<char> {
    rule + ": rule lists are read from disk, not fetched. Download it once with `curl -Lo <path> "@
        + rule + "` and put the path here instead"@
}

/// Which of the rules are files to use, and what is wrong with the rest, going
/// by whether each is a file that is there.
pub open spec fn sorted_out(
    rules: Seq<Seq<char>>,
    home: Option<Seq<char>>,
    there: Seq<bool>,
) -> (Seq<Seq<char>>, Seq<Seq<char>>)
    decreases rules.len(),
{
    if rules.len() == 0 {
        (Seq::empty(), Seq::empty())
    } else {
        let (files, problems) = sorted_out(rules.drop_last(), home, there.drop_last());
        let rule = text::trimmed(rules.last());
        let file = paths::home_path(rule, home);
        if rule.len() == 0 {
            (files, problems)
        } else if is_address(rule) {
            (files, problems.push(not_fetched(rule)))
        } else if there.last() {
            (files.push(file), problems)
        } else {
            (files, problems.push(file + ": no such file"@))
        }
    }
}

/// Whether asking about a path can be answered so.
pub open spec fn answered<F: Fn(&str) -> bool>(is_file: F, path: Seq<char>, yes: bool) -> bool {
    exists|p: &str| p@ == path && call_ensures(is_file, (p,), yes)
}

/// Whether `there` is what `is_file` says of the rules that are files.
pub open spec fn told<F: Fn(&str) -> bool>(
    is_file: F,
    rules: Seq<Seq<char>>,
    home: Option<Seq<char>>,
    there: Seq<bool>,
) -> bool {
    &&& there.len() == rules.len()
    &&& forall|i: int|
        0 <= i < rules.len() && text::trimmed(#[trigger] rules[i]).len() > 0 && !is_address(
            text::trimmed(rules[i]),
        ) ==> answered(is_file, paths::home_path(text::trimmed(rules[i]), home), there[i])
}

/// The rule files this browser is configured to block with, resolved and
/// checked.
///
/// The problems come with the paths, because a blocklist that silently is not
/// there is a blocklist you believe is working.
pub fn configured<F: Fn(&str) -> bool>(
    content: &config::Content,
    home: Option<&str>,
    is_file: F,
) -> (r: (Vec<String>, Vec<String>))
    requires
        forall|p: &str| call_requires(is_file, (p,)),
    ensures
        exists|there: Seq<bool>|
            #[trigger] told(is_file, text::texts(content.rules@), text::maybe(home), there) && (
                text::texts(r.0@),
                text::texts(r.1@),
            ) == sorted_out(text::texts(content.rules@), text::maybe(home), there),
{
    let ghost all = text::texts(content.rules@);
    let ghost mut there: Seq<bool> = Seq::empty();
    let mut files: Vec<String> = Vec::new();
    let mut problems: Vec<String> = Vec::new();
    let mut i: usize = 0;
    assert(all.take(0) =~= Seq::empty());
    assert(text::texts(files@) =~= Seq::empty());
    assert(text::texts(problems@) =~= Seq::empty());
    while i < content.rules.len()
        invariant
            i <= content.rules.len(),
            all == text::texts(content.rules@),
            forall|p: &str| call_requires(is_file, (p,)),
            there.len() == i,
            told(is_file, all.take(i as int), text::maybe(home), there),
            (text::texts(files@), text::texts(problems@)) == sorted_out(
                all.take(i as int),
                text::maybe(home),
                there,
            ),
        decreases content.rules.len() - i,
    {
        let ghost front = all.take(i as int);
        let ghost next = all.take(i + 1);
        let ghost was = there;
        let ghost files_before = files@;
        let ghost problems_before = problems@;
        assert(next.drop_last() =~= front);
        assert(all[i as int] == content.rules@[i as int]@);
        let rule = text::trim(content.rules[i].as_str());
        let mut here = false;
        if rule.as_str().is_empty() {
        } else if text::starts_with(rule.as_str(), "http://") || text::starts_with(
            rule.as_str(),
            "https://",
        ) {
            let mut problem = rule.clone();
            problem.append(
                ": rule lists are read from disk, not fetched. Download it once with `curl -Lo <path> ",
            );
            problem.append(rule.as_str());
            problem.append("` and put the path here instead");
            problems.push(problem);
            assert(text::texts(problems@) =~= text::texts(problems_before).push(
                not_fetched(rule@),
            ));
        } else {
            let file = paths::shellexpand(rule.as_str(), home);
            let ghost named = file@;
            here = is_file(file.as_str());
            assert(answered(is_file, named, here));
            if here {
                files.push(file);
                assert(text::texts(files@) =~= text::texts(files_before).push(named));
            } else {
                let mut problem = file;
                problem.append(": no such file");
                problems.push(problem);
                assert(text::texts(problems@) =~= text::texts(problems_before).push(
                    named + ": no such file"@,
                ));
            }
        }
        proof {
            there = was.push(here);
            assert(there.drop_last() =~= was);
            assert forall|j: int|
                0 <= j < next.len() && text::trimmed(#[trigger] next[j]).len() > 0 && !is_address(
                    text::trimmed(next[j]),
                ) implies answered(
                is_file,
                paths::home_path(text::trimmed(next[j]), text::maybe(home)),
                there[j],
            ) by {
                if j < i {
                    assert(next[j] == front[j]);
                }
            }
        }
        i += 1;
    }
    assert(all.take(i as int) =~= all);
    (files, problems)
}

// ---------------------------------------------------------------------------
// What is blocking
// ---------------------------------------------------------------------------

/// The lists that have been compiled and applied, newest last, and the tabs that
/// are excused from them.
pub struct Blocker {
    lists: Vec<String>,
    excused: Vec<String>,
}

/// What is blocking: the lists, and the tabs it does not block in.
pub struct Blocking {
    pub lists: Seq<Seq<char>>,
    pub excused: Seq<Seq<char>>,
}

impl View for Blocker {
    type V = Blocking;

    closed spec fn view(&self) -> Blocking {
        Blocking { lists: text::texts(self.lists@), excused: text::texts(self.excused@) }
    }
}

/// What blocking comes to.
pub struct Report {
    /// Lists compiled and applied.
    pub lists: Vec<String>,
    /// Rule files that could not be used, and why.
    pub problems: Vec<String>,
    /// Whether the tab that was asked about is blocking. `None` when no tab was
    /// named.
    pub here: Option<bool>,
}

impl Blocker {
    /// Nothing compiled, and nobody excused.
    pub fn new() -> (r: Blocker)
        ensures
            r@.lists.len() == 0,
            r@.excused.len() == 0,
    {
        Blocker { lists: Vec::new(), excused: Vec::new() }
    }

    /// Remember a compiled list. It then goes into every open tab.
    pub fn adopt(&mut self, identifier: &str)
        ensures
            final(self)@ == (Blocking {
                lists: text::moved(old(self)@.lists, identifier@, true),
                excused: old(self)@.excused,
            }),
    {
        self.lists = text::move_last(&self.lists, identifier, true);
    }

    /// What is blocking right now.
    pub fn loaded_lists(&self) -> (r: Vec<String>)
        ensures
            text::texts(r@) == self@.lists,
    {
        text::copies(&self.lists)
    }

    /// Which of the configured files still have to be loaded, given what each is
    /// called. None are, where blocking is off.
    pub fn reload(&self, block: bool, named: &[String]) -> (r: Vec<usize>)
        ensures
            r@ == list::kept(
                Seq::new(named@.len(), |i: int| i as usize),
                |i: usize| block && !self@.lists.contains(text::texts(named@)[i as int]),
            ),
    {
        let ghost all = Seq::new(named@.len(), |i: int| i as usize);
        let ghost keep = |i: usize| block && !self@.lists.contains(text::texts(named@)[i as int]);
        let mut out: Vec<usize> = Vec::new();
        let mut i: usize = 0;
        assert(all.take(0) =~= Seq::empty());
        while i < named.len()
            invariant
                i <= named.len(),
                all == Seq::new(named@.len(), |i: int| i as usize),
                keep == (|i: usize|
                    block && !self@.lists.contains(text::texts(named@)[i as int])),
                out@ == list::kept(all.take(i as int), keep),
            decreases named.len() - i,
        {
            assert(all.take(i + 1).drop_last() =~= all.take(i as int));
            assert(all.take(i + 1).last() == i);
            assert(text::texts(named@)[i as int] == named@[i as int]@);
            if block && !text::any_same(&self.lists, named[i].as_str()) {
                out.push(i);
            }
            i += 1;
        }
        assert(all.take(i as int) =~= all);
        out
    }

    /// Stop blocking in one tab, or start again. Nothing is done to the tabs
    /// that were not asked about.
    pub fn excuse(&mut self, label: &str, off: bool)
        ensures
            final(self)@ == (Blocking {
                lists: old(self)@.lists,
                excused: text::moved(old(self)@.excused, label@, off),
            }),
    {
        self.excused = text::move_last(&self.excused, label, off);
    }

    /// Whether this tab is currently excused.
    pub fn is_excused(&self, label: &str) -> (r: bool)
        ensures
            r == self@.excused.contains(label@),
    {
        text::any_same(&self.excused, label)
    }

    /// What is blocking, and whether it is in the tab that was asked about.
    pub fn report(&self, problems: Vec<String>, tab: Option<&str>) -> (r: Report)
        ensures
            text::texts(r.lists@) == self@.lists,
            r.problems == problems,
            r.here == match tab {
                Some(label) => Some(!self@.excused.contains(label@)),
                None => None,
            },
    {
        let here = match tab {
            Some(label) => Some(!self.is_excused(label)),
            None => None,
        };
        Report { lists: self.loaded_lists(), problems, here }
    }
}

/// What is said when a list is rejected by the compiler.
pub fn rejected(identifier: &str, why: &str) -> (r: String)
    ensures
        r@ == identifier@ + ": "@ + why@,
{
    let mut out = identifier.to_owned();
    out.append(": ");
    out.append(why);
    out
}

// ---------------------------------------------------------------------------
// Laws
// ---------------------------------------------------------------------------

/// Whether a character may stand in an identifier.
pub open spec fn is_plain(c: char) -> bool {
    profile::is_safe(c)
}

proof fn lemma_hex_plain(n: nat)
    ensures
        forall|i: int|
            0 <= i < number::hexadecimal(n).len() ==> is_plain(#[trigger] number::hexadecimal(n)[i]),
    decreases n,
{
    let d = number::hex_digit(n % 16);
    assert(is_plain(d)) by {
        if n % 16 < 10 {
            assert(d as nat == 48 + n % 16);
        } else {
            assert(d as nat == 87 + n % 16);
        }
    }
    let whole = number::hexadecimal(n);
    if n >= 16 {
        lemma_hex_plain(n / 16);
        let front = number::hexadecimal(n / 16);
        assert(whole == front.push(d));
        assert forall|i: int| 0 <= i < whole.len() implies is_plain(#[trigger] whole[i]) by {
            if i < front.len() {
                assert(whole[i] == front[i]);
            }
        }
    } else {
        assert(whole == seq![d]);
    }
}

/// An identifier is safe to put in a file's name.
pub proof fn law_identifier_is_plain(path: Seq<char>, stamp: Option<Stamp>)
    ensures
        forall|i: int|
            0 <= i < identity(path, stamp).len() ==> is_plain(#[trigger] identity(path, stamp)[i]),
{
    reveal_strlit("-");
    reveal_strlit("missing");
    let stem = match pathname::stem_of(path) {
        Some(stem) => stem,
        None => "rules"@,
    };
    let name = list_name(path);
    profile::lemma_dashed_is_safe(stem);
    assert forall|i: int| 0 <= i < name.len() implies is_plain(#[trigger] name[i]) by {
        assert(profile::is_safe(profile::dashed(stem)[i]));
    }
    match stamp {
        Some(s) => {
            lemma_hex_plain(s.length as nat);
            lemma_hex_plain(
                match s.modified {
                    Some(secs) => secs as nat,
                    None => 0,
                },
            );
        },
        None => {},
    }
    let tail = stamped(stamp);
    assert forall|i: int| 0 <= i < tail.len() implies is_plain(#[trigger] tail[i]) by {}
    let whole = identity(path, stamp);
    assert forall|i: int| 0 <= i < whole.len() implies is_plain(#[trigger] whole[i]) by {
        if i < name.len() {
            assert(whole[i] == name[i]);
        } else if i > name.len() {
            assert(whole[i] == tail[i - name.len() - 1]);
        }
    }
}

/// A changed file gets another identifier: no two lengths or times of change are
/// written alike, and neither is a file that is missing.
pub proof fn law_identifier_follows_the_file(path: Seq<char>, a: Option<Stamp>, b: Option<Stamp>)
    requires
        identity(path, a) == identity(path, b),
    ensures
        match (a, b) {
            (Some(a), Some(b)) => {
                &&& a.length == b.length
                &&& (match a.modified {
                    Some(secs) => secs,
                    None => 0,
                }) == (match b.modified {
                    Some(secs) => secs,
                    None => 0,
                })
            },
            (None, None) => true,
            _ => false,
        },
{
    reveal_strlit("-");
    reveal_strlit("missing");
    assert("-"@ =~= seq!['-']);
    let front = list_name(path) + "-"@;
    let x = stamped(a);
    let y = stamped(b);
    assert(x =~= identity(path, a).skip(front.len() as int));
    assert(y =~= identity(path, b).skip(front.len() as int));
    lemma_stamp_cut(a);
    lemma_stamp_cut(b);
}

/// Where a stamp is cut: at the dash between the two numbers.
proof fn lemma_stamp_cut(stamp: Option<Stamp>)
    ensures
        match stamp {
            Some(s) => match text::cut_first(stamped(stamp), '-') {
                Some((a, b)) => number::hex_value(a) == s.length && number::hex_value(b) == (
                match s.modified {
                    Some(secs) => secs,
                    None => 0,
                }),
                None => false,
            },
            None => text::cut_first(stamped(stamp), '-') is None,
        },
{
    reveal_strlit("-");
    reveal_strlit("missing");
    match stamp {
        Some(s) => {
            let secs = match s.modified {
                Some(secs) => secs as nat,
                None => 0,
            };
            number::lemma_hexadecimal(s.length as nat);
            number::lemma_hexadecimal(secs);
            let a = number::hexadecimal(s.length as nat);
            let b = number::hexadecimal(secs);
            assert("-"@ =~= seq!['-']);
            table::lemma_cut_field(a, b, '-');
        },
        None => {
            text::lemma_first_of("missing"@, '-', 7);
        },
    }
}

/// A list is adopted once, however often it is adopted, and loses no other.
pub proof fn law_adopted_once(lists: Seq<Seq<char>>, id: Seq<char>)
    requires
        lists.no_duplicates(),
    ensures
        text::moved(lists, id, true).no_duplicates(),
        text::moved(lists, id, true).contains(id),
        forall|other: Seq<char>| #[trigger] lists.contains(other) ==> text::moved(lists, id, true).contains(
            other,
        ),
{
    let keep = text::differs(id);
    let others = text::all_but(lists, id);
    let out = text::moved(lists, id, true);
    list::lemma_kept(lists, keep);
    lemma_kept_distinct(lists, keep);
    assert(out[others.len() as int] == id);
    assert forall|other: Seq<char>| #[trigger] lists.contains(other) implies out.contains(
        other,
    ) by {
        let k = choose|k: int| 0 <= k < lists.len() && lists[k] == other;
        if other != id {
            assert(keep(lists[k]));
            let m = choose|m: int| 0 <= m < others.len() && others[m] == other;
            assert(out[m] == other);
        }
    }
    assert forall|i: int, j: int| 0 <= i < out.len() && 0 <= j < out.len() && i != j implies out[i]
        != out[j] by {
        if i < others.len() {
            assert(keep(others[i]));
        }
        if j < others.len() {
            assert(keep(others[j]));
        }
    }
}

proof fn lemma_kept_distinct(s: Seq<Seq<char>>, keep: spec_fn(Seq<char>) -> bool)
    requires
        s.no_duplicates(),
    ensures
        list::kept(s, keep).no_duplicates(),
    decreases s.len(),
{
    if s.len() > 0 {
        let front = s.drop_last();
        lemma_kept_distinct(front, keep);
        list::lemma_kept(front, keep);
        let inner = list::kept(front, keep);
        assert forall|i: int| 0 <= i < inner.len() implies inner[i] != s.last() by {
            assert(front.contains(inner[i]));
            let k = choose|k: int| 0 <= k < front.len() && front[k] == inner[i];
            assert(s[k] == inner[i]);
        }
    }
}

/// Excusing a tab excuses it, starting again stops that, and no other tab is
/// touched by either.
pub proof fn law_excuse_touches_one_tab(
    excused: Seq<Seq<char>>,
    label: Seq<char>,
    off: bool,
    other: Seq<char>,
)
    ensures
        text::moved(excused, label, off).contains(label) == off,
        other != label ==> text::moved(excused, label, off).contains(other) == excused.contains(other),
{
    let keep = text::differs(label);
    let others = text::all_but(excused, label);
    let out = text::moved(excused, label, off);
    list::lemma_kept(excused, keep);
    if others.contains(label) {
        let k = choose|k: int| 0 <= k < others.len() && others[k] == label;
        assert(keep(others[k]));
    }
    if off {
        assert(out[others.len() as int] == label);
    }
    if other != label {
        if excused.contains(other) {
            let k = choose|k: int| 0 <= k < excused.len() && excused[k] == other;
            assert(keep(excused[k]));
            let m = choose|m: int| 0 <= m < others.len() && others[m] == other;
            assert(out[m] == other);
        }
        if out.contains(other) {
            let m = choose|m: int| 0 <= m < out.len() && out[m] == other;
            assert(others[m] == other);
        }
    }
}

/// A list named by a path is used where there is such a file and complained of where
/// there is none, one named by an address is complained of whatever is there, and a
/// blank one is passed over. No list moves another.
pub proof fn law_rules_are_sorted_one_by_one(
    rules: Seq<Seq<char>>,
    rule: Seq<char>,
    home: Option<Seq<char>>,
    there: Seq<bool>,
    yes: bool,
    rest: Seq<char>,
)
    requires
        there.len() == rules.len(),
        rule.len() > 0 && rule[0] == '/' && !text::is_space(rule.last()),
        rest.len() > 0 && !text::is_space(rest.last()),
    ensures
        ({
            let (files, problems) = sorted_out(rules, home, there);
            let path = sorted_out(rules.push(rule), home, there.push(yes));
            let blank = sorted_out(rules.push(Seq::empty()), home, there.push(yes));
            let remote = sorted_out(rules.push("https://"@ + rest), home, there.push(yes));
            &&& yes ==> path == (files.push(rule), problems)
            &&& !yes ==> path.0 == files && path.1.len() == problems.len() + 1
            &&& blank == (files, problems)
            &&& remote.0 == files && remote.1.len() == problems.len() + 1
        }),
{
    reveal_strlit("http://");
    reveal_strlit("https://");
    reveal_strlit("~/");
    assert(rules.push(rule).drop_last() =~= rules);
    assert(rules.push(Seq::empty()).drop_last() =~= rules);
    assert(rules.push("https://"@ + rest).drop_last() =~= rules);
    assert(there.push(yes).drop_last() =~= there);
    assert(text::trimmed(rule) == rule);
    assert("http://"@[0] == 'h' && "https://"@[0] == 'h' && "~/"@[0] == '~');
    if text::has_prefix(rule, "http://"@) {
        assert(rule.subrange(0, 7)[0] == '/');
    }
    if text::has_prefix(rule, "https://"@) {
        assert(rule.subrange(0, 8)[0] == '/');
    }
    if text::has_prefix(rule, "~/"@) {
        assert(rule.subrange(0, 2)[0] == '/');
    }
    let address = "https://"@ + rest;
    assert(address[0] == 'h' && address.last() == rest.last());
    assert(text::trimmed(address) == address);
    assert(address.subrange(0, 8) =~= "https://"@);
}

} // verus!
