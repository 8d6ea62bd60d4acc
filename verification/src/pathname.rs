//! File paths as text, read the way Unix reads them.

use vstd::prelude::*;

use crate::list;
use crate::text;

verus! {

/// Whether a path starts at the root.
pub open spec fn absolute(p: Seq<char>) -> bool {
    p.len() > 0 && p[0] == '/'
}

/// `rest` as seen from `base`: an absolute path replaces it.
pub open spec fn under(base: Seq<char>, rest: Seq<char>) -> Seq<char> {
    if absolute(rest) {
        rest
    } else if base.len() == 0 || base.last() == '/' {
        base + rest
    } else {
        base + seq!['/'] + rest
    }
}

/// A path without the slashes, and the dots standing for "here", at its end.
pub open spec fn tidy(p: Seq<char>) -> Seq<char>
    decreases p.len(),
{
    if p.len() > 0 && p.last() == '/' {
        tidy(p.drop_last())
    } else if p.len() >= 2 && p.last() == '.' && p[p.len() - 2] == '/' {
        tidy(p.drop_last())
    } else {
        p
    }
}

/// What follows the last slash.
pub open spec fn last_segment(p: Seq<char>) -> Seq<char> {
    match text::last_of(p, '/') {
        Some(i) => p.skip(i + 1),
        None => p,
    }
}

/// The name of the file a path leads to, if it names one.
pub open spec fn name_of(p: Seq<char>) -> Option<Seq<char>> {
    let name = last_segment(tidy(p));
    if name.len() == 0 || name == seq!['.'] || name == seq!['.', '.'] {
        None
    } else {
        Some(name)
    }
}

/// The path of what holds the last step of a path, if there is a step to take
/// back.
pub open spec fn parent_of(p: Seq<char>) -> Option<Seq<char>> {
    let whole = tidy(p);
    if whole.len() == 0 {
        None
    } else {
        match text::last_of(whole, '/') {
            None => Some(Seq::empty()),
            Some(i) => {
                let front = tidy(whole.take(i));
                if front.len() == 0 {
                    Some(seq!['/'])
                } else {
                    Some(front)
                }
            },
        }
    }
}

/// A file name as what stands before its last dot and what stands after. A dot
/// the name begins with separates nothing.
pub open spec fn name_parts(name: Seq<char>) -> (Seq<char>, Option<Seq<char>>) {
    match text::last_of(name, '.') {
        Some(i) => if i == 0 {
            (name, None)
        } else {
            (name.take(i), Some(name.skip(i + 1)))
        },
        None => (name, None),
    }
}

/// The name of the file without its extension.
pub open spec fn stem_of(p: Seq<char>) -> Option<Seq<char>> {
    match name_of(p) {
        Some(name) => Some(name_parts(name).0),
        None => None,
    }
}

/// What stands after the last dot of the file's name.
pub open spec fn extension_of(p: Seq<char>) -> Option<Seq<char>> {
    match name_of(p) {
        Some(name) => name_parts(name).1,
        None => None,
    }
}

/// The names a path goes through, one after the other.
pub open spec fn steps(p: Seq<char>) -> Seq<Seq<char>> {
    list::kept(text::pieces(p, '/'), |s: Seq<char>| s.len() > 0 && s != seq!['.'])
}

/// Whether two paths take the same steps from the same place.
pub open spec fn same_place(a: Seq<char>, b: Seq<char>) -> bool {
    &&& absolute(a) == absolute(b)
    &&& (text::pieces(a, '/')[0] == seq!['.']) == (text::pieces(b, '/')[0] == seq!['.'])
    &&& steps(a) == steps(b)
}

pub fn is_absolute(p: &str) -> (r: bool)
    ensures
        r == absolute(p@),
{
    let whole = text::chars_of(p);
    whole.len() > 0 && whole[0] == '/'
}

pub fn join(base: &str, rest: &str) -> (r: String)
    ensures
        r@ == under(base@, rest@),
{
    if is_absolute(rest) {
        return rest.to_owned();
    }
    let whole = text::chars_of(base);
    let mut out = base.to_owned();
    if whole.len() > 0 && whole[whole.len() - 1] != '/' {
        out.push('/');
        assert(out@ =~= base@ + seq!['/']);
    }
    out.append(rest);
    out
}

fn tidied(p: &str) -> (r: String)
    ensures
        r@ == tidy(p@),
{
    let whole = text::chars_of(p);
    let mut to: usize = whole.len();
    assert(whole@.take(to as int) =~= whole@);
    while to > 0 && (whole[to - 1] == '/' || (to >= 2 && whole[to - 1] == '.' && whole[to - 2]
        == '/'))
        invariant
            to <= whole.len(),
            tidy(whole@.take(to as int)) == tidy(whole@),
        decreases to,
    {
        assert(whole@.take(to as int).drop_last() =~= whole@.take(to - 1));
        to -= 1;
    }
    let kept = text::slice_of(&whole, 0, to);
    assert(kept@ =~= whole@.take(to as int));
    assert(tidy(kept@) == kept@);
    kept
}

/// The path of what holds the file a path leads to.
pub fn parent(p: &str) -> (r: Option<String>)
    ensures
        text::maybe_owned(r) == parent_of(p@),
{
    let whole = text::chars_of(tidied(p).as_str());
    if whole.len() == 0 {
        return None;
    }
    match text::rfind(&whole, '/') {
        None => Some(String::new()),
        Some(i) => {
            let front = text::slice_of(&whole, 0, i);
            assert(front@ =~= whole@.take(i as int));
            let front = tidied(front.as_str());
            if front.as_str().is_empty() {
                proof {
                    reveal_strlit("/");
                    assert("/"@ =~= seq!['/']);
                }
                Some("/".to_owned())
            } else {
                Some(front)
            }
        },
    }
}

/// The name of the file a path leads to.
pub fn file_name(p: &str) -> (r: Option<String>)
    ensures
        match r {
            Some(name) => name_of(p@) == Some(name@),
            None => name_of(p@) is None,
        },
{
    let kept = tidied(p);
    let rest = text::chars_of(kept.as_str());
    let from: usize = match text::rfind(&rest, '/') {
        Some(i) => i + 1,
        None => 0,
    };
    let name = text::slice_of(&rest, from, rest.len());
    assert(name@ =~= last_segment(kept@));
    proof {
        reveal_strlit(".");
        reveal_strlit("..");
        assert("."@ =~= seq!['.']);
        assert(".."@ =~= seq!['.', '.']);
    }
    if name.as_str().is_empty() || text::same(name.as_str(), ".") || text::same(name.as_str(), "..") {
        None
    } else {
        Some(name)
    }
}

fn name_split(name: &str) -> (r: (String, Option<String>))
    ensures
        r.0@ == name_parts(name@).0,
        match r.1 {
            Some(e) => name_parts(name@).1 == Some(e@),
            None => name_parts(name@).1 is None,
        },
{
    let whole = text::chars_of(name);
    match text::rfind(&whole, '.') {
        Some(i) => {
            if i == 0 {
                (name.to_owned(), None)
            } else {
                let stem = text::slice_of(&whole, 0, i);
                let ext = text::slice_of(&whole, i + 1, whole.len());
                assert(stem@ =~= name@.take(i as int));
                assert(ext@ =~= name@.skip(i + 1));
                (stem, Some(ext))
            }
        },
        None => (name.to_owned(), None),
    }
}

pub fn file_stem(p: &str) -> (r: Option<String>)
    ensures
        match r {
            Some(stem) => stem_of(p@) == Some(stem@),
            None => stem_of(p@) is None,
        },
{
    match file_name(p) {
        Some(name) => Some(name_split(name.as_str()).0),
        None => None,
    }
}

pub fn extension(p: &str) -> (r: Option<String>)
    ensures
        match r {
            Some(ext) => extension_of(p@) == Some(ext@),
            None => extension_of(p@) is None,
        },
{
    match file_name(p) {
        Some(name) => name_split(name.as_str()).1,
        None => None,
    }
}

fn steps_of(p: &str) -> (r: Vec<String>)
    ensures
        text::texts(r@) == steps(p@),
{
    let all = text::split(p, '/');
    let ghost keep = |s: Seq<char>| s.len() > 0 && s != seq!['.'];
    let mut out: Vec<String> = Vec::new();
    let mut i: usize = 0;
    proof {
        reveal_strlit(".");
        assert("."@ =~= seq!['.']);
        assert(text::texts(out@) =~= list::kept(text::texts(all@).take(0), keep));
    }
    while i < all.len()
        invariant
            i <= all.len(),
            "."@ == seq!['.'],
            keep == (|s: Seq<char>| s.len() > 0 && s != seq!['.']),
            text::texts(out@) == list::kept(text::texts(all@).take(i as int), keep),
        decreases all.len() - i,
    {
        let ghost so_far = text::texts(all@).take(i + 1);
        assert(so_far.drop_last() =~= text::texts(all@).take(i as int));
        assert(so_far.last() == all@[i as int]@);
        let ghost old_out = out@;
        if !all[i].as_str().is_empty() && !text::same(all[i].as_str(), ".") {
            out.push(all[i].clone());
            assert(text::texts(out@) =~= text::texts(old_out).push(all@[i as int]@));
        }
        i += 1;
    }
    assert(text::texts(all@).take(i as int) =~= text::texts(all@));
    out
}

/// Whether two lists hold the same texts.
pub fn same_texts(a: &[String], b: &[String]) -> (r: bool)
    ensures
        r == (text::texts(a@) == text::texts(b@)),
{
    if a.len() != b.len() {
        assert(text::texts(a@).len() != text::texts(b@).len());
        return false;
    }
    let mut i: usize = 0;
    while i < a.len()
        invariant
            i <= a.len() == b.len(),
            forall|j: int| 0 <= j < i ==> a@[j]@ == b@[j]@,
        decreases a.len() - i,
    {
        if a[i] != b[i] {
            assert(text::texts(a@)[i as int] != text::texts(b@)[i as int]);
            return false;
        }
        i += 1;
    }
    assert(text::texts(a@) =~= text::texts(b@));
    true
}

/// Whether two paths are the same path, however many slashes they are written
/// with.
pub fn same_path(a: &str, b: &str) -> (r: bool)
    ensures
        r == same_place(a@, b@),
{
    let first_a = text::split(a, '/');
    let first_b = text::split(b, '/');
    proof {
        reveal_strlit(".");
        assert("."@ =~= seq!['.']);
        assert(text::texts(first_a@)[0] == first_a@[0]@);
        assert(text::texts(first_b@)[0] == first_b@[0]@);
    }
    is_absolute(a) == is_absolute(b) && text::same(first_a[0].as_str(), ".") == text::same(
        first_b[0].as_str(),
        ".",
    ) && same_texts(&steps_of(a), &steps_of(b))
}

// ---------------------------------------------------------------------------
// Laws
// ---------------------------------------------------------------------------

/// Whether a text can be the name of a file: something, with no slash in it, and neither
/// of the names that mean a directory.
pub open spec fn is_name(name: Seq<char>) -> bool {
    &&& name.len() > 0
    &&& !name.contains('/')
    &&& name != seq!['.']
    &&& name != seq!['.', '.']
}

/// A file put in a directory has the name it was put there under, and the directory is
/// where it is found.
pub proof fn law_file_in_a_directory(base: Seq<char>, name: Seq<char>)
    requires
        is_name(name),
    ensures
        name_of(under(base, name)) == Some(name),
        base.len() > 0 && tidy(base) == base ==> parent_of(under(base, name)) == Some(base),
{
    let whole = under(base, name);
    assert(name.contains(name[0]) && name.contains(name.last()));
    assert(!absolute(name));
    let at = whole.len() - name.len();
    assert(whole.skip(at) =~= name);
    assert(whole.last() == name.last());
    if name.last() == '.' && name.len() == 1 {
        assert(name =~= seq!['.']);
    }
    if name.last() == '.' && name.len() >= 2 {
        assert(whole[whole.len() - 2] == name[name.len() - 2]);
        assert(name.contains(name[name.len() - 2]));
    }
    assert(tidy(whole) == whole);
    assert forall|j: int| at <= j < whole.len() implies whole[j] != '/' by {
        assert(whole[j] == name[j - at]);
        assert(name.contains(name[j - at]));
    }
    text::lemma_last_of(whole, '/', at - 1);
    if base.len() == 0 {
        assert(whole =~= name);
    }
    if base.len() > 0 && tidy(base) == base {
        if base.last() == '/' {
            lemma_tidy_shrinks(base.drop_last());
        }
        assert(whole.take(at - 1) =~= base);
    }
}

proof fn lemma_tidy_shrinks(p: Seq<char>)
    ensures
        tidy(p).len() <= p.len(),
    decreases p.len(),
{
    if p.len() > 0 && p.last() == '/' {
        lemma_tidy_shrinks(p.drop_last());
    } else if p.len() >= 2 && p.last() == '.' && p[p.len() - 2] == '/' {
        lemma_tidy_shrinks(p.drop_last());
    }
}

/// What follows the last dot of a file's name is its extension, and what stands before
/// it its stem. A dot in front makes no extension.
pub proof fn law_extension_follows_the_dot(base: Seq<char>, stem: Seq<char>, ext: Seq<char>)
    requires
        is_name(stem + seq!['.'] + ext),
        stem.len() > 0,
        !ext.contains('.'),
    ensures
        extension_of(under(base, stem + seq!['.'] + ext)) == Some(ext),
        stem_of(under(base, stem + seq!['.'] + ext)) == Some(stem),
        is_name(seq!['.'] + ext) ==> extension_of(under(base, seq!['.'] + ext)) is None,
        is_name(ext) ==> extension_of(under(base, ext)) is None,
{
    let name = stem + seq!['.'] + ext;
    law_file_in_a_directory(base, name);
    let at = stem.len() as int;
    assert forall|j: int| at < j < name.len() implies name[j] != '.' by {
        assert(name[j] == ext[j - at - 1]);
        assert(ext.contains(ext[j - at - 1]));
    }
    text::lemma_last_of(name, '.', at);
    assert(name.take(at) =~= stem);
    assert(name.skip(at + 1) =~= ext);
    let hidden = seq!['.'] + ext;
    assert forall|j: int| 0 < j < hidden.len() implies hidden[j] != '.' by {
        assert(hidden[j] == ext[j - 1]);
        assert(ext.contains(ext[j - 1]));
    }
    text::lemma_last_of(hidden, '.', 0);
    assert forall|j: int| 0 <= j < ext.len() implies ext[j] != '.' by {
        assert(ext.contains(ext[j]));
    }
    text::lemma_last_of(ext, '.', -1);
    if is_name(hidden) {
        law_file_in_a_directory(base, hidden);
    }
    if is_name(ext) {
        law_file_in_a_directory(base, ext);
    }
}

/// A path from the root is itself wherever it is seen from, and any other is the
/// directory, one slash and the rest.
pub proof fn law_under_puts_one_slash(base: Seq<char>, rest: Seq<char>)
    ensures
        absolute(rest) ==> under(base, rest) == rest,
        !absolute(rest) && base.len() > 0 && base.last() != '/' ==> under(base, rest) == base + seq![
            '/',
        ] + rest && under(base + seq!['/'], rest) == under(base, rest),
        absolute(base) ==> absolute(under(base, rest)),
{
}

/// Being the same place goes both ways, and on.
pub proof fn law_same_place_is_mutual(a: Seq<char>, b: Seq<char>, c: Seq<char>)
    ensures
        same_place(a, a),
        same_place(a, b) ==> same_place(b, a),
        same_place(a, b) && same_place(b, c) ==> same_place(a, c),
{
}

} // verus!
