//! A second browser, in the same binary.
//!
//! `--profile <name>` moves four things at once, and it has to be all four or
//! none: the config file, the state directory, the control socket directory, and
//! the engine's own data directory, which is the one that actually holds the
//! cookies.
//!
//! Read once, before anything that consults a path, and never changed after:
//! half the process on one profile and half on another would be worse than no
//! profiles at all.

use vstd::prelude::*;

use crate::pathname;
use crate::text;

verus! {

/// The profile a process is running as. It is fixed once.
#[derive(Debug)]
pub struct Profile {
    fixed: Option<Option<String>>,
}

impl View for Profile {
    type V = Option<Option<Seq<char>>>;

    closed spec fn view(&self) -> Option<Option<Seq<char>>> {
        match self.fixed {
            Some(Some(name)) => Some(Some(name@)),
            Some(None) => Some(None),
            None => None,
        }
    }
}

impl Default for Profile {
    /// Not fixed yet.
    fn default() -> (r: Self)
        ensures
            r@ is None,
    {
        Profile { fixed: None }
    }
}

impl Profile {
    /// The profile this process is running as, if any.
    pub fn name(&self) -> (r: Option<&str>)
        ensures
            match r {
                Some(name) => self@ == Some(Some(name@)),
                None => self@ is None || self@ == Some(None::<Seq<char>>),
            },
    {
        match &self.fixed {
            Some(Some(name)) => Some(name.as_str()),
            _ => None,
        }
    }

    /// Fix the profile for the life of the process. Later calls are ignored, and
    /// a blank name is no profile.
    pub fn set(&mut self, profile: Option<String>)
        ensures
            final(self)@ == match old(self)@ {
                Some(fixed) => Some(fixed),
                None => Some(
                    match profile {
                        Some(name) if text::trimmed(name@).len() > 0 => Some(name@),
                        _ => None,
                    },
                ),
            },
    {
        if self.fixed.is_some() {
            return;
        }
        self.fixed = Some(
            match profile {
                Some(name) => if text::trim(name.as_str()).as_str().is_empty() {
                    None
                } else {
                    Some(name)
                },
                None => None,
            },
        );
    }
}

/// What is left of an argv once `--profile <name>` is taken out of it, and the
/// last name it gave. A flag with nothing after it is left.
pub open spec fn without_flag(
    argv: Seq<Seq<char>>,
    found: Option<Seq<char>>,
) -> (Seq<Seq<char>>, Option<Seq<char>>)
    decreases argv.len(),
{
    if argv.len() == 0 {
        (Seq::empty(), found)
    } else {
        match text::without_prefix(argv[0], "--profile="@) {
            Some(name) => without_flag(argv.skip(1), Some(name)),
            None => if argv[0] == "--profile"@ && argv.len() > 1 {
                without_flag(argv.skip(2), Some(argv[1]))
            } else {
                let (rest, last) = without_flag(argv.skip(1), found);
                (seq![argv[0]] + rest, last)
            },
        }
    }
}

/// Take `--profile <name>` out of an argv.
///
/// It is taken out rather than passed on because it is a question about *which*
/// browser, answered here, before anything is sent. A trailing `--profile` with
/// nothing after it is a typo, and is left for whoever reads the rest to
/// complain about.
pub fn take_flag(argv: Vec<String>) -> (r: (Vec<String>, Option<String>))
    ensures
        ({
            let (kept, found) = without_flag(text::texts(argv@), None);
            &&& text::texts(r.0@) == kept
            &&& match r.1 {
                Some(name) => found == Some(name@),
                None => found is None,
            }
        }),
{
    let ghost all = text::texts(argv@);
    let mut kept: Vec<String> = Vec::new();
    let mut found: Option<String> = None;
    let ghost mut last: Option<Seq<char>> = None;
    let mut i: usize = 0;
    proof {
        assert(all.skip(0) =~= all);
        assert(text::texts(kept@) + without_flag(all, None).0 =~= without_flag(all, None).0);
    }
    while i < argv.len()
        invariant
            i <= argv.len(),
            all == text::texts(argv@),
            last == match found {
                Some(name) => Some(name@),
                None => None,
            },
            without_flag(all, None) == (
                text::texts(kept@) + without_flag(all.skip(i as int), last).0,
                without_flag(all.skip(i as int), last).1,
            ),
        decreases argv.len() - i,
    {
        let ghost rest = all.skip(i as int);
        assert(rest[0] == argv@[i as int]@);
        assert(rest.skip(1) =~= all.skip(i + 1));
        match text::strip_prefix(argv[i].as_str(), "--profile=") {
            Some(name) => {
                proof {
                    last = Some(name@);
                }
                found = Some(name);
                i += 1;
            },
            None => {
                if text::same(argv[i].as_str(), "--profile") && i + 1 < argv.len() {
                    assert(rest[1] == argv@[i + 1]@);
                    assert(rest.skip(2) =~= all.skip(i + 2));
                    proof {
                        last = Some(argv@[i + 1]@);
                    }
                    found = Some(argv[i + 1].clone());
                    i += 2;
                } else {
                    let ghost before = kept@;
                    kept.push(argv[i].clone());
                    assert(text::texts(kept@) =~= text::texts(before).push(rest[0]));
                    assert(text::texts(before) + (seq![rest[0]] + without_flag(
                        all.skip(i + 1),
                        last,
                    ).0) =~= text::texts(kept@) + without_flag(all.skip(i + 1), last).0);
                    i += 1;
                }
            },
        }
    }
    assert(text::texts(kept@) + without_flag(all.skip(i as int), last).0 =~= text::texts(kept@));
    (kept, found)
}

/// Whether a character may stand in a profile's directory name.
pub open spec fn is_safe(c: char) -> bool {
    'a' <= c <= 'z' || 'A' <= c <= 'Z' || '0' <= c <= '9' || c == '-' || c == '_'
}

/// A text with a dash for every character that is not safe, without the dashes
/// around it.
pub open spec fn dashed(s: Seq<char>) -> Seq<char> {
    text::trimmed_of(s.map_values(|c: char| if is_safe(c) { c } else { '-' }), "-"@)
}

/// Put a dash for every character that is not safe, and take those around the
/// text away.
pub fn put_dashes(s: &str) -> (r: String)
    ensures
        r@ == dashed(s@),
{
    let chars = text::chars_of(s);
    let ghost swapped = chars@.map_values(|c: char| if is_safe(c) { c } else { '-' });
    let mut cleaned = String::new();
    let mut i: usize = 0;
    while i < chars.len()
        invariant
            i <= chars.len(),
            swapped == chars@.map_values(|c: char| if is_safe(c) { c } else { '-' }),
            cleaned@ == swapped.take(i as int),
        decreases chars.len() - i,
    {
        let c = chars[i];
        let safe = ('a' <= c && c <= 'z') || ('A' <= c && c <= 'Z') || ('0' <= c && c <= '9') || c
            == '-' || c == '_';
        cleaned.push(
            if safe {
                c
            } else {
                '-'
            },
        );
        i += 1;
        assert(cleaned@ =~= swapped.take(i as int));
    }
    assert(swapped.take(i as int) =~= swapped);
    text::trim_of(cleaned.as_str(), "-")
}

/// A name safe to put in a path.
pub open spec fn safe_name(name: Seq<char>) -> Seq<char> {
    let bare = dashed(text::trimmed(name));
    if bare.len() == 0 {
        "profile"@
    } else {
        bare
    }
}

/// A name safe to put in a path.
///
/// Profiles are named by whoever types the flag, and `--profile ../../etc` must
/// name a directory here rather than escape into one. Anything that is not a
/// letter, a digit, a dash or an underscore becomes a dash, and the dashes
/// around the name go.
pub fn sanitize(name: &str) -> (r: String)
    ensures
        r@ == safe_name(name@),
{
    let bare = put_dashes(text::trim(name).as_str());
    if bare.as_str().is_empty() {
        "profile".to_owned()
    } else {
        bare
    }
}

/// A profile's own directory under another.
pub open spec fn profile_home(base: Seq<char>, profile: Option<Seq<char>>) -> Seq<char> {
    match profile {
        Some(name) => pathname::under(pathname::under(base, "profiles"@), safe_name(name)),
        None => base,
    }
}

/// Add this profile's subdirectory to a base directory, or hand it back
/// unchanged when there is no profile.
///
/// The default profile keeps the plain paths exactly: a browser that moved
/// everybody's history the day profiles landed would be a browser that lost
/// everybody's history.
pub fn within(base: &str, profile: Option<&str>) -> (r: String)
    ensures
        r@ == profile_home(
            base@,
            match profile {
                Some(name) => Some(name@),
                None => None,
            },
        ),
{
    match profile {
        Some(name) => pathname::join(
            pathname::join(base, "profiles").as_str(),
            sanitize(name).as_str(),
        ),
        None => base.to_owned(),
    }
}

/// Where the engine keeps this profile's cookies and local storage: in the
/// profile's own directory under `base`, where the default profile keeps what it
/// remembers.
///
/// `None` for the default profile, where the answer is "wherever they already
/// are": naming it would move an existing browser's logins.
pub fn data_dir(profile: Option<&str>, base: &str) -> (r: Option<String>)
    ensures
        match profile {
            Some(name) => r matches Some(dir) && dir@ == pathname::under(
                profile_home(base@, Some(name@)),
                "webkit"@,
            ),
            None => r is None,
        },
{
    match profile {
        Some(name) => Some(pathname::join(within(base, Some(name)).as_str(), "webkit")),
        None => None,
    }
}

// ---------------------------------------------------------------------------
// Laws
// ---------------------------------------------------------------------------

/// Whether a word is the flag, in either spelling.
pub open spec fn is_flag(word: Seq<char>) -> bool {
    word == "--profile"@ || text::has_prefix(word, "--profile="@)
}

/// An argv without the flag is left as it was, and names no profile.
pub proof fn law_no_flag_no_change(argv: Seq<Seq<char>>, found: Option<Seq<char>>)
    requires
        forall|i: int| 0 <= i < argv.len() ==> !is_flag(#[trigger] argv[i]),
    ensures
        without_flag(argv, found) == (argv, found),
    decreases argv.len(),
{
    if argv.len() > 0 {
        let rest = argv.skip(1);
        assert(!is_flag(argv[0]));
        assert forall|i: int| 0 <= i < rest.len() implies !is_flag(#[trigger] rest[i]) by {
            assert(rest[i] == argv[i + 1]);
        }
        law_no_flag_no_change(rest, found);
        assert(seq![argv[0]] + rest =~= argv);
    } else {
        assert(argv =~= Seq::empty());
    }
}

/// Taking the flag out leaves nothing to take out but a trailing one, which
/// names nothing.
pub proof fn law_flag_taken_once(argv: Seq<Seq<char>>, found: Option<Seq<char>>)
    ensures
        without_flag(without_flag(argv, found).0, None) == (
            without_flag(argv, found).0,
            None::<Seq<char>>,
        ),
    decreases argv.len(),
{
    if argv.len() == 0 {
        assert(without_flag(argv, found).0 =~= Seq::<Seq<char>>::empty());
    } else {
        match text::without_prefix(argv[0], "--profile="@) {
            Some(name) => {
                law_flag_taken_once(argv.skip(1), Some(name));
            },
            None => {
                if argv[0] == "--profile"@ && argv.len() > 1 {
                    law_flag_taken_once(argv.skip(2), Some(argv[1]));
                } else {
                    law_flag_taken_once(argv.skip(1), found);
                    let rest = without_flag(argv.skip(1), found).0;
                    let out = seq![argv[0]] + rest;
                    assert(out.skip(1) =~= rest);
                    if argv[0] == "--profile"@ {
                        assert(argv.skip(1).len() == 0);
                        assert(rest.len() == 0);
                    }
                }
            },
        }
    }
}

/// A profile's directory name is never empty, and is letters, digits, dashes and
/// underscores, so it names a directory here and nowhere else.
pub proof fn law_name_stays_here(name: Seq<char>)
    ensures
        safe_name(name).len() > 0,
        forall|i: int| 0 <= i < safe_name(name).len() ==> is_safe(#[trigger] safe_name(name)[i]),
{
    reveal_strlit("profile");
    assert("profile"@ =~= seq!['p', 'r', 'o', 'f', 'i', 'l', 'e']);
    lemma_dashed_is_safe(text::trimmed(name));
}

/// Two profiles whose names differ as directories share nothing: neither the
/// directory each has under another, nor the one its cookies are in, and neither
/// has the default profile's.
pub proof fn law_profiles_keep_apart(base: Seq<char>, one: Seq<char>, other: Seq<char>)
    requires
        safe_name(one) != safe_name(other),
    ensures
        profile_home(base, Some(one)) != profile_home(base, Some(other)),
        profile_home(base, Some(one)) != profile_home(base, None),
        pathname::under(profile_home(base, Some(one)), "webkit"@) != pathname::under(
            profile_home(base, Some(other)),
            "webkit"@,
        ),
{
    reveal_strlit("profiles");
    reveal_strlit("webkit");
    law_name_stays_here(one);
    law_name_stays_here(other);
    let home = pathname::under(base, "profiles"@);
    let a = safe_name(one);
    let b = safe_name(other);
    assert(is_safe(a[0]) && is_safe(b[0]));
    assert(home.last() == 's');
    let first = profile_home(base, Some(one));
    let second = profile_home(base, Some(other));
    assert(first == home + seq!['/'] + a);
    assert(second == home + seq!['/'] + b);
    assert(a =~= first.skip(home.len() as int + 1));
    assert(b =~= second.skip(home.len() as int + 1));
    assert(first.len() > base.len());
    assert(first.last() == a.last() && is_safe(a[a.len() - 1]));
    assert(second.last() == b.last() && is_safe(b[b.len() - 1]));
    let jar = pathname::under(first, "webkit"@);
    let other_jar = pathname::under(second, "webkit"@);
    assert(jar == first + seq!['/'] + "webkit"@);
    assert(other_jar == second + seq!['/'] + "webkit"@);
    assert(first =~= jar.take(jar.len() - 7));
    assert(second =~= other_jar.take(other_jar.len() - 7));
}

/// Whatever is left once the dashes are put in is safe.
pub proof fn lemma_dashed_is_safe(s: Seq<char>)
    ensures
        forall|i: int| 0 <= i < dashed(s).len() ==> is_safe(#[trigger] dashed(s)[i]),
{
    let swapped = s.map_values(|c: char| if is_safe(c) { c } else { '-' });
    let dash = |c: char| "-"@.contains(c);
    text::lemma_trim_start_part(swapped, dash);
    text::lemma_trim_end_part(text::trim_start_by(swapped, dash), dash);
    assert forall|i: int| 0 <= i < dashed(s).len() implies is_safe(#[trigger] dashed(s)[i]) by {
        assert(swapped.contains(dashed(s)[i]));
    }
}

/// The flag is taken out where it stands, with its name, in either spelling: what
/// stands before it stays, what follows is read as if it had not been there, and the
/// name is the one found until another is.
pub proof fn law_flag_is_taken_out(
    front: Seq<Seq<char>>,
    name: Seq<char>,
    back: Seq<Seq<char>>,
    found: Option<Seq<char>>,
)
    requires
        forall|i: int| 0 <= i < front.len() ==> !is_flag(#[trigger] front[i]),
    ensures
        without_flag(front + seq!["--profile"@, name] + back, found) == (
            front + without_flag(back, Some(name)).0,
            without_flag(back, Some(name)).1,
        ),
        without_flag(front + seq!["--profile="@ + name] + back, found) == (
            front + without_flag(back, Some(name)).0,
            without_flag(back, Some(name)).1,
        ),
    decreases front.len(),
{
    reveal_strlit("--profile");
    reveal_strlit("--profile=");
    let two = front + seq!["--profile"@, name] + back;
    let joined = "--profile="@ + name;
    let one = front + seq![joined] + back;
    let (rest, last) = without_flag(back, Some(name));
    if front.len() == 0 {
        assert(two[0] == "--profile"@ && two[1] == name);
        assert(two.skip(2) =~= back);
        assert("--profile"@.len() < "--profile="@.len());
        assert(one[0] == joined);
        assert(one.skip(1) =~= back);
        assert(joined.subrange(0, 10) =~= "--profile="@);
        assert(joined.skip(10) =~= name);
        assert(front + rest =~= rest);
    } else {
        let less = front.skip(1);
        assert(!is_flag(front[0]));
        assert forall|i: int| 0 <= i < less.len() implies !is_flag(#[trigger] less[i]) by {
            assert(less[i] == front[i + 1]);
        }
        law_flag_is_taken_out(less, name, back, found);
        assert(two[0] == front[0] && one[0] == front[0]);
        assert(two.skip(1) =~= less + seq!["--profile"@, name] + back);
        assert(one.skip(1) =~= less + seq![joined] + back);
        assert(seq![front[0]] + (less + rest) =~= front + rest);
    }
}

/// Whether a character is a letter, a digit, a dash or an underscore.
pub open spec fn plain(c: char) -> bool {
    'a' <= c <= 'z' || 'A' <= c <= 'Z' || '0' <= c <= '9' || c == '_' || c == '-'
}

/// Whether a text is made of nothing else.
pub open spec fn all_plain(s: Seq<char>) -> bool {
    forall|i: int| 0 <= i < s.len() ==> plain(#[trigger] s[i])
}

/// A name of letters, digits, dashes and underscores is its directory's name as it
/// stands, unless a dash stands at either end. Nothing else ever gets into one: no
/// slash, no dot and no white space.
pub proof fn law_directory_is_named_plainly(name: Seq<char>)
    ensures
        all_plain(safe_name(name)),
        all_plain(name) && name.len() > 0 && name[0] != '-' && name.last() != '-' ==> safe_name(name)
            == name,
{
    law_name_stays_here(name);
    assert forall|i: int| 0 <= i < safe_name(name).len() implies plain(
        #[trigger] safe_name(name)[i],
    ) by {
        assert(is_safe(safe_name(name)[i]));
    }
    if all_plain(name) && name.len() > 0 && name[0] != '-' && name.last() != '-' {
        reveal_strlit("-");
        assert(plain(name[0]) && plain(name[name.len() - 1]));
        assert(text::trimmed(name) == name);
        let swapped = name.map_values(|c: char| if is_safe(c) { c } else { '-' });
        assert forall|i: int| 0 <= i < name.len() implies swapped[i] == name[i] by {
            assert(plain(name[i]));
        }
        assert(swapped =~= name);
        let dash = |c: char| "-"@.contains(c);
        assert("-"@ =~= seq!['-']);
        assert(!dash(name[0]) && !dash(name.last()));
        assert(text::trim_start_by(name, dash) == name);
        assert(text::trim_end_by(name, dash) == name);
    }
}

} // verus!
