//! What a path the user typed points at.
//!
//! A command is typed in one process and run in another, so a relative path
//! cannot mean what it means to the process that runs it. The caller's working
//! directory travels with the command as a [`Scope`], and a relative path is
//! joined onto it. When nobody said where they were standing, a relative path is
//! refused: a file written somewhere the caller cannot name is a file they have
//! lost.

use vstd::prelude::*;

use crate::pathname;
use crate::text;

verus! {

/// Where the caller was standing, for the length of one command.
pub struct Scope {
    dir: Option<String>,
}

impl View for Scope {
    type V = Option<Seq<char>>;

    closed spec fn view(&self) -> Option<Seq<char>> {
        match self.dir {
            Some(dir) => Some(dir@),
            None => None,
        }
    }
}

/// The directory a caller stands in. A relative "current directory" is not one,
/// and an empty text is a caller who did not say.
pub open spec fn standing(cwd: Seq<char>) -> Option<Seq<char>> {
    if pathname::absolute(cwd) {
        Some(cwd)
    } else {
        None
    }
}

impl Scope {
    /// A command nobody with a working directory asked for.
    pub fn nobody() -> (r: Scope)
        ensures
            r@ is None,
    {
        Scope { dir: None }
    }

    /// Where the caller was standing, if anyone said.
    pub fn caller_cwd(&self) -> (r: Option<&str>)
        ensures
            match r {
                Some(dir) => self@ == Some(dir@),
                None => self@ is None,
            },
    {
        match &self.dir {
            Some(dir) => Some(dir.as_str()),
            None => None,
        }
    }
}

/// Put the caller's working directory in scope for `f`, and nothing after it.
pub fn with_caller_cwd<T, F: FnOnce(&Scope) -> T>(cwd: &str, f: F) -> (r: T)
    requires
        forall|scope: Scope| #![auto] scope@ == standing(cwd@) ==> f.requires((&scope,)),
    ensures
        exists|scope: Scope| #![auto] scope@ == standing(cwd@) && f.ensures((&scope,), r),
{
    let dir = if pathname::is_absolute(cwd) {
        Some(cwd.to_owned())
    } else {
        None
    };
    let scope = Scope { dir };
    assert(scope@ == standing(cwd@));
    f(&scope)
}

/// A path with the user's home in place of the `~/` it begins with.
pub open spec fn home_path(path: Seq<char>, home: Option<Seq<char>>) -> Seq<char> {
    match text::without_prefix(path, "~/"@) {
        Some(rest) => match home {
            Some(home) => pathname::under(home, rest),
            None => path,
        },
        None => path,
    }
}

/// What is said of a relative path that has nothing to be relative to.
pub open spec fn refusal(path: Seq<char>) -> Seq<char> {
    "`"@ + path
        + "` is a relative path, and this command runs inside the browser process -- where that would mean a directory you never chose. Give an absolute path, or run it through the `oma-browse` command line, which sends yours along."@
}

/// Where a path leads, for someone standing in `dir`.
pub open spec fn resolved(
    path: Seq<char>,
    dir: Option<Seq<char>>,
    home: Option<Seq<char>>,
) -> Result<Seq<char>, Seq<char>> {
    let expanded = home_path(path, home);
    if pathname::absolute(expanded) {
        Ok(expanded)
    } else {
        match dir {
            Some(dir) => Ok(pathname::under(dir, expanded)),
            None => Err(refusal(path)),
        }
    }
}

/// Turn a path the user typed into one this process can write to.
///
/// Fails rather than guesses: a relative path with no caller in scope is an
/// error and not the browser's own directory.
pub fn resolve(path: &str, scope: &Scope, home: Option<&str>) -> (r: Result<String, String>)
    ensures
        resolved(
            path@,
            scope@,
            match home {
                Some(home) => Some(home@),
                None => None,
            },
        ) == match r {
            Ok(found) => Ok::<Seq<char>, Seq<char>>(found@),
            Err(why) => Err(why@),
        },
{
    let expanded = shellexpand(path, home);
    if pathname::is_absolute(expanded.as_str()) {
        return Ok(expanded);
    }
    match scope.caller_cwd() {
        Some(dir) => Ok(pathname::join(dir, expanded.as_str())),
        None => {
            let mut why = "`".to_owned();
            why.append(path);
            why.append(
                "` is a relative path, and this command runs inside the browser process -- where that would mean a directory you never chose. Give an absolute path, or run it through the `oma-browse` command line, which sends yours along.",
            );
            Err(why)
        },
    }
}

/// `~` only. Anything more is the shell's job, and a path may arrive with no
/// shell to have done it.
pub fn shellexpand(path: &str, home: Option<&str>) -> (r: String)
    ensures
        r@ == home_path(
            path@,
            match home {
                Some(home) => Some(home@),
                None => None,
            },
        ),
{
    match text::strip_prefix(path, "~/") {
        Some(rest) => match home {
            Some(home) => pathname::join(home, rest.as_str()),
            None => path.to_owned(),
        },
        None => path.to_owned(),
    }
}

// ---------------------------------------------------------------------------
// Laws
// ---------------------------------------------------------------------------

/// An absolute path is left alone, whoever asks and wherever they stand.
pub proof fn law_absolute_is_left_alone(
    path: Seq<char>,
    dir: Option<Seq<char>>,
    home: Option<Seq<char>>,
)
    requires
        pathname::absolute(path),
    ensures
        resolved(path, dir, home) == Ok::<Seq<char>, Seq<char>>(path),
{
    reveal_strlit("~/");
    assert("~/"@[0] == '~');
    if text::has_prefix(path, "~/"@) {
        assert(path.subrange(0, 2)[0] == path[0]);
    }
}

/// Whatever a path resolves to for someone with a home and a place to stand, it
/// starts at the root.
pub proof fn law_resolved_is_absolute(path: Seq<char>, cwd: Seq<char>, home: Seq<char>)
    requires
        pathname::absolute(cwd),
        pathname::absolute(home),
    ensures
        resolved(path, standing(cwd), Some(home)) matches Ok(found) && pathname::absolute(found),
{
}

/// A relative path with nobody asking is refused.
pub proof fn law_nobody_is_refused(path: Seq<char>)
    requires
        !pathname::absolute(path),
    ensures
        resolved(path, None, None) == Err::<Seq<char>, Seq<char>>(refusal(path)),
{
}

} // verus!
