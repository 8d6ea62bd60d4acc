//! Where a picture of a page, or the text of one, is put.

use vstd::prelude::*;

use crate::number;
use crate::pathname;
use crate::paths;
use crate::text;

verus! {

/// A picture that was taken.
#[derive(Debug)]
pub struct Shot {
    /// Where the PNG was written.
    pub path: String,
    pub width: i32,
    pub height: i32,
    /// The tab it came from.
    pub label: String,
}

/// Where files nobody named go: per boot, private to the user, and cleaned up by
/// the system.
pub open spec fn scratch_home(runtime: Option<Seq<char>>, temp: Seq<char>) -> Seq<char> {
    pathname::under(
        match runtime {
            Some(dir) => dir,
            None => temp,
        },
        "oma-browse"@,
    )
}

/// The directory files nobody named go to, given what `XDG_RUNTIME_DIR` says and
/// where temporary files go.
pub fn scratch_dir(runtime: Option<&str>, temp: &str) -> (r: String)
    ensures
        r@ == scratch_home(text::maybe(runtime), temp@),
{
    match runtime {
        Some(dir) => pathname::join(dir, "oma-browse"),
        None => pathname::join(temp, "oma-browse"),
    }
}

/// A file's name with the time in it, in milliseconds from the epoch.
pub open spec fn stamped(prefix: Seq<char>, stamp: u64, extension: Seq<char>) -> Seq<char> {
    prefix + "-"@ + number::decimal(stamp as nat) + "."@ + extension
}

fn stamp_name(prefix: &str, stamp: u64, extension: &str) -> (r: String)
    ensures
        r@ == stamped(prefix@, stamp, extension@),
{
    let mut name = prefix.to_owned();
    name.append("-");
    name.append(number::to_decimal(stamp).as_str());
    name.append(".");
    name.append(extension);
    name
}

/// Whether a path was asked for, rather than left blank.
pub open spec fn is_asked(requested: Option<Seq<char>>) -> bool {
    match requested {
        Some(path) => text::trimmed(path).len() > 0,
        None => false,
    }
}

/// Where a file goes: where it was asked for, as the one who asked means it, or
/// under a name of its own in `dir`.
pub open spec fn placed(
    requested: Option<Seq<char>>,
    cwd: Option<Seq<char>>,
    home: Option<Seq<char>>,
    dir: Seq<char>,
    name: Seq<char>,
) -> Result<Seq<char>, Seq<char>> {
    if is_asked(requested) {
        paths::resolved(requested->0, cwd, home)
    } else {
        Ok(pathname::under(dir, name))
    }
}

fn place(
    requested: Option<&str>,
    scope: &paths::Scope,
    home: Option<&str>,
    dir: &str,
    name: &str,
) -> (r: Result<String, String>)
    ensures
        placed(text::maybe(requested), scope@, text::maybe(home), dir@, name@) == match r {
            Ok(path) => Ok::<Seq<char>, Seq<char>>(path@),
            Err(why) => Err(why@),
        },
{
    if let Some(path) = requested {
        if !text::trim(path).as_str().is_empty() {
            return paths::resolve(path, scope, home);
        }
    }
    Ok(pathname::join(dir, name))
}

/// Somewhere to put a file, where the caller asked for it or under a name of its
/// own: shared by everything that writes one, so that they agree.
pub fn scratch_file(
    requested: Option<&str>,
    scope: &paths::Scope,
    home: Option<&str>,
    dir: &str,
    prefix: &str,
    stamp: u64,
    extension: &str,
) -> (r: Result<String, String>)
    ensures
        placed(
            text::maybe(requested),
            scope@,
            text::maybe(home),
            dir@,
            stamped(prefix@, stamp, extension@),
        ) == match r {
            Ok(path) => Ok::<Seq<char>, Seq<char>>(path@),
            Err(why) => Err(why@),
        },
{
    place(requested, scope, home, dir, stamp_name(prefix, stamp, extension).as_str())
}

/// The directory pictures go to: the configured one, or the one for files nobody
/// named.
pub open spec fn shots_home(
    configured: Seq<char>,
    home: Option<Seq<char>>,
    scratch: Seq<char>,
) -> Seq<char> {
    if text::trimmed(configured).len() == 0 {
        scratch
    } else {
        paths::home_path(text::trimmed(configured), home)
    }
}

/// Where the PNG goes, worked out before the page is asked for anything: a path
/// that cannot be placed is the caller's mistake to hear about as one, rather
/// than as a rendering failure.
pub fn destination(
    requested: Option<&str>,
    configured: &str,
    scope: &paths::Scope,
    home: Option<&str>,
    scratch: &str,
    stamp: u64,
) -> (r: Result<String, String>)
    ensures
        placed(
            text::maybe(requested),
            scope@,
            text::maybe(home),
            shots_home(configured@, text::maybe(home), scratch@),
            stamped("shot"@, stamp, "png"@),
        ) == match r {
            Ok(path) => Ok::<Seq<char>, Seq<char>>(path@),
            Err(why) => Err(why@),
        },
{
    let asked = text::trim(configured);
    let dir = if asked.as_str().is_empty() {
        scratch.to_owned()
    } else {
        paths::shellexpand(asked.as_str(), home)
    };
    place(requested, scope, home, dir.as_str(), stamp_name("shot", stamp, "png").as_str())
}

/// What came of a picture: `done` is what the engine said, if it said anything.
pub fn capture(path: String, label: String, done: Option<Result<(i32, i32), String>>) -> (r: Result<
    Shot,
    String,
>)
    ensures
        match done {
            Some(Ok((width, height))) => r matches Ok(shot) && shot.path == path && shot.label
                == label && shot.width == width && shot.height == height,
            Some(Err(e)) => r matches Err(why) && why == e,
            None => r matches Err(why) && why@ == "the snapshot was dropped before it finished"@,
        },
{
    match done {
        Some(Ok((width, height))) => Ok(Shot { path, width, height, label }),
        Some(Err(e)) => Err(e),
        None => Err("the snapshot was dropped before it finished".to_owned()),
    }
}

// ---------------------------------------------------------------------------
// Laws
// ---------------------------------------------------------------------------

/// A path that is left blank is no path: the file goes where files nobody named go,
/// under a name of its own, whoever asks.
pub proof fn law_blank_path_is_none(
    path: Seq<char>,
    cwd: Option<Seq<char>>,
    home: Option<Seq<char>>,
    dir: Seq<char>,
    name: Seq<char>,
)
    ensures
        (forall|i: int| 0 <= i < path.len() ==> text::is_space(#[trigger] path[i])) ==> placed(
            Some(path),
            cwd,
            home,
            dir,
            name,
        ) == placed(None, cwd, home, dir, name),
        placed(None, cwd, home, dir, name) == Ok::<Seq<char>, Seq<char>>(
            pathname::under(dir, name),
        ),
        path.len() > 0 && !text::is_space(path[0]) && !text::is_space(path.last()) ==> placed(
            Some(path),
            cwd,
            home,
            dir,
            name,
        ) == paths::resolved(path, cwd, home),
{
    let space = |c: char| text::is_space(c);
    if forall|i: int| 0 <= i < path.len() ==> text::is_space(#[trigger] path[i]) {
        text::lemma_trim_start(path, space, path.len() as int);
        assert(text::trimmed(path).len() == 0);
    }
}

/// Two pictures taken at different times have different names.
pub proof fn law_stamps_keep_files_apart(
    prefix: Seq<char>,
    a: u64,
    b: u64,
    extension: Seq<char>,
)
    requires
        a != b,
    ensures
        stamped(prefix, a, extension) != stamped(prefix, b, extension),
{
    reveal_strlit("-");
    reveal_strlit(".");
    let x = number::decimal(a as nat);
    let y = number::decimal(b as nat);
    let one = stamped(prefix, a, extension);
    let other = stamped(prefix, b, extension);
    let from = prefix.len() + 1;
    if one == other {
        assert(one.len() == from + x.len() + 1 + extension.len());
        assert(other.len() == from + y.len() + 1 + extension.len());
        assert(x =~= one.subrange(from as int, (from + x.len()) as int));
        assert(y =~= other.subrange(from as int, (from + y.len()) as int));
        number::law_decimal_reads_back(a as nat, u64::MAX as nat);
        number::law_decimal_reads_back(b as nat, u64::MAX as nat);
    }
}

} // verus!
