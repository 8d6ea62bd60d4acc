//! Text as a sequence of characters: the handful of string operations the rest
//! of the crate is written with, each stated over `Seq<char>`.

use vstd::prelude::*;

use crate::list;

verus! {

// ---------------------------------------------------------------------------
// What std does to a string
// ---------------------------------------------------------------------------

/// `String::push` puts one character at the end.
pub assume_specification[ String::push ](s: &mut String, c: char)
    ensures
        final(s)@ == old(s)@.push(c),
;

/// `==` on two string slices is true exactly when they hold the same characters.
pub assume_specification[ <str as PartialEq>::eq ](a: &str, b: &str) -> (r: bool)
    ensures
        r == (a@ == b@),
;

// ---------------------------------------------------------------------------
// Moving between strings and characters
// ---------------------------------------------------------------------------

/// The characters each string of a list holds.
pub open spec fn texts(list: Seq<String>) -> Seq<Seq<char>> {
    list.map_values(|s: String| s@)
}

/// What a text is, where there is one.
pub open spec fn maybe(s: Option<&str>) -> Option<Seq<char>> {
    match s {
        Some(s) => Some(s@),
        None => None,
    }
}

/// What a text is, where there is one.
pub open spec fn maybe_owned(s: Option<String>) -> Option<Seq<char>> {
    match s {
        Some(s) => Some(s@),
        None => None,
    }
}

/// Whether two strings are the same text.
pub fn same(a: &str, b: &str) -> (r: bool)
    ensures
        r == (a@ == b@),
{
    *a == *b
}

/// The characters of a string, in order.
pub fn chars_of(s: &str) -> (r: Vec<char>)
    ensures
        r@ == s@,
{
    let mut out: Vec<char> = Vec::new();
    for c in it: s.chars()
        invariant
            it.seq() == s@,
            out@ == s@.take(it.index() as int),
    {
        out.push(c);
    }
    assert(s@.take(s@.len() as int) =~= s@);
    out
}

/// A string of these characters.
pub fn text_of(chars: &[char]) -> (r: String)
    ensures
        r@ == chars@,
{
    slice_of(chars, 0, chars.len())
}

/// A string of the characters from `from` up to `to`.
pub fn slice_of(chars: &[char], from: usize, to: usize) -> (r: String)
    requires
        from <= to <= chars@.len(),
    ensures
        r@ == chars@.subrange(from as int, to as int),
{
    let mut out = String::new();
    let mut i: usize = from;
    while i < to
        invariant
            from <= i <= to <= chars@.len(),
            out@ == chars@.subrange(from as int, i as int),
        decreases to - i,
    {
        out.push(chars[i]);
        i += 1;
        assert(chars@.subrange(from as int, i as int) =~= chars@.subrange(from as int, i - 1).push(
            chars@[i - 1],
        ));
    }
    out
}

// ---------------------------------------------------------------------------
// Prefixes and suffixes
// ---------------------------------------------------------------------------

/// Whether `pattern` stands in `s` at position `at`.
pub open spec fn stands_at(s: Seq<char>, pattern: Seq<char>, at: int) -> bool {
    0 <= at && at + pattern.len() <= s.len() && s.subrange(at, at + pattern.len()) == pattern
}

/// Whether `s` begins with `prefix`.
pub open spec fn has_prefix(s: Seq<char>, prefix: Seq<char>) -> bool {
    stands_at(s, prefix, 0)
}

/// Whether `s` ends with `suffix`.
pub open spec fn has_suffix(s: Seq<char>, suffix: Seq<char>) -> bool {
    stands_at(s, suffix, s.len() - suffix.len())
}

/// What is left of `s` once `prefix` is taken off its front.
pub open spec fn without_prefix(s: Seq<char>, prefix: Seq<char>) -> Option<Seq<char>> {
    if has_prefix(s, prefix) {
        Some(s.skip(prefix.len() as int))
    } else {
        None
    }
}

/// What is left of `s` once `suffix` is taken off its end.
pub open spec fn without_suffix(s: Seq<char>, suffix: Seq<char>) -> Option<Seq<char>> {
    if has_suffix(s, suffix) {
        Some(s.take(s.len() - suffix.len()))
    } else {
        None
    }
}

fn matches_at(s: &[char], pattern: &[char], at: usize) -> (r: bool)
    ensures
        r == stands_at(s@, pattern@, at as int),
{
    if pattern.len() > s.len() || at > s.len() - pattern.len() {
        return false;
    }
    let mut i: usize = 0;
    while i < pattern.len()
        invariant
            i <= pattern@.len(),
            at + pattern.len() <= s.len(),
            forall|j: int| 0 <= j < i ==> s@[at + j] == pattern@[j],
        decreases pattern@.len() - i,
    {
        if s[at + i] != pattern[i] {
            assert(s@.subrange(at as int, at + pattern@.len())[i as int] != pattern@[i as int]);
            return false;
        }
        i += 1;
    }
    assert(s@.subrange(at as int, at + pattern@.len()) =~= pattern@);
    true
}

pub fn starts_with(s: &str, prefix: &str) -> (r: bool)
    ensures
        r == has_prefix(s@, prefix@),
{
    matches_at(&chars_of(s), &chars_of(prefix), 0)
}

pub fn ends_with(s: &str, suffix: &str) -> (r: bool)
    ensures
        r == has_suffix(s@, suffix@),
{
    let whole = chars_of(s);
    let tail = chars_of(suffix);
    if tail.len() > whole.len() {
        return false;
    }
    matches_at(&whole, &tail, whole.len() - tail.len())
}

pub fn strip_prefix(s: &str, prefix: &str) -> (r: Option<String>)
    ensures
        match r {
            Some(rest) => without_prefix(s@, prefix@) == Some(rest@),
            None => without_prefix(s@, prefix@) is None,
        },
{
    let whole = chars_of(s);
    let head = chars_of(prefix);
    if matches_at(&whole, &head, 0) {
        let rest = slice_of(&whole, head.len(), whole.len());
        assert(rest@ =~= s@.skip(prefix@.len() as int));
        Some(rest)
    } else {
        None
    }
}

pub fn strip_suffix(s: &str, suffix: &str) -> (r: Option<String>)
    ensures
        match r {
            Some(rest) => without_suffix(s@, suffix@) == Some(rest@),
            None => without_suffix(s@, suffix@) is None,
        },
{
    let whole = chars_of(s);
    let tail = chars_of(suffix);
    if tail.len() <= whole.len() && matches_at(&whole, &tail, whole.len() - tail.len()) {
        let rest = slice_of(&whole, 0, whole.len() - tail.len());
        assert(rest@ =~= s@.take(s@.len() - suffix@.len()));
        Some(rest)
    } else {
        None
    }
}

// ---------------------------------------------------------------------------
// Looking for something
// ---------------------------------------------------------------------------

/// Where `c` first occurs in `s`.
pub open spec fn first_of(s: Seq<char>, c: char) -> Option<int>
    decreases s.len(),
{
    if s.len() == 0 {
        None
    } else if s[0] == c {
        Some(0)
    } else {
        match first_of(s.drop_first(), c) {
            Some(i) => Some(i + 1),
            None => None,
        }
    }
}

/// Where `c` last occurs in `s`.
pub open spec fn last_of(s: Seq<char>, c: char) -> Option<int>
    decreases s.len(),
{
    if s.len() == 0 {
        None
    } else if s.last() == c {
        Some(s.len() - 1)
    } else {
        last_of(s.drop_last(), c)
    }
}

/// Where `pattern` first stands in `s`.
pub open spec fn first_match(s: Seq<char>, pattern: Seq<char>) -> Option<int>
    decreases s.len(),
{
    if has_prefix(s, pattern) {
        Some(0)
    } else if s.len() == 0 {
        None
    } else {
        match first_match(s.drop_first(), pattern) {
            Some(i) => Some(i + 1),
            None => None,
        }
    }
}

/// The two sides of the first `sep`.
pub open spec fn cut_first(s: Seq<char>, sep: char) -> Option<(Seq<char>, Seq<char>)> {
    match first_of(s, sep) {
        Some(i) => Some((s.take(i), s.skip(i + 1))),
        None => None,
    }
}

/// The two sides of the last `sep`.
pub open spec fn cut_last(s: Seq<char>, sep: char) -> Option<(Seq<char>, Seq<char>)> {
    match last_of(s, sep) {
        Some(i) => Some((s.take(i), s.skip(i + 1))),
        None => None,
    }
}

/// The first occurrence is the one with none before it.
pub proof fn lemma_first_of(s: Seq<char>, c: char, at: int)
    requires
        0 <= at <= s.len(),
        forall|j: int| 0 <= j < at ==> s[j] != c,
    ensures
        at < s.len() && s[at] == c ==> first_of(s, c) == Some(at),
        at == s.len() ==> first_of(s, c) is None,
    decreases s.len(),
{
    if s.len() > 0 && at > 0 {
        assert forall|j: int| 0 <= j < at - 1 implies s.drop_first()[j] != c by {
            assert(s.drop_first()[j] == s[j + 1]);
        }
        lemma_first_of(s.drop_first(), c, at - 1);
    }
}

/// Where the first occurrence is, and that nothing stands before it.
pub proof fn lemma_first_of_is_first(s: Seq<char>, c: char)
    ensures
        match first_of(s, c) {
            Some(i) => 0 <= i < s.len() && s[i] == c && forall|j: int| 0 <= j < i ==> s[j] != c,
            None => forall|j: int| 0 <= j < s.len() ==> s[j] != c,
        },
    decreases s.len(),
{
    if s.len() > 0 && s[0] != c {
        lemma_first_of_is_first(s.drop_first(), c);
        assert forall|j: int| 0 < j < s.len() implies s[j] == s.drop_first()[j - 1] by {}
    }
}

/// The last occurrence is a place in the text.
pub proof fn lemma_last_of_is_inside(s: Seq<char>, c: char)
    ensures
        match last_of(s, c) {
            Some(at) => 0 <= at < s.len(),
            None => true,
        },
    decreases s.len(),
{
    if s.len() > 0 {
        lemma_last_of_is_inside(s.drop_last(), c);
    }
}

/// The last occurrence is the one with none after it.
pub proof fn lemma_last_of(s: Seq<char>, c: char, at: int)
    requires
        -1 <= at < s.len(),
        forall|j: int| at < j < s.len() ==> s[j] != c,
    ensures
        at >= 0 && s[at] == c ==> last_of(s, c) == Some(at),
        at == -1 ==> last_of(s, c) is None,
    decreases s.len(),
{
    if s.len() > 0 && at < s.len() - 1 {
        lemma_last_of(s.drop_last(), c, at);
    }
}

/// A match with no match before it is the first.
pub proof fn lemma_first_match(s: Seq<char>, pattern: Seq<char>, at: int)
    requires
        0 <= at <= s.len(),
        forall|j: int| 0 <= j < at ==> !stands_at(s, pattern, j),
    ensures
        stands_at(s, pattern, at) ==> first_match(s, pattern) == Some(at),
        at == s.len() && !stands_at(s, pattern, at) ==> first_match(s, pattern) is None,
    decreases s.len(),
{
    if at > 0 {
        assert(!stands_at(s, pattern, 0));
        let rest = s.drop_first();
        assert forall|j: int| 0 <= j < at - 1 implies !stands_at(rest, pattern, j) by {
            assert(!stands_at(s, pattern, j + 1));
            if stands_at(rest, pattern, j) {
                assert(s.subrange(j + 1, j + 1 + pattern.len()) =~= rest.subrange(
                    j,
                    j + pattern.len(),
                ));
            }
        }
        lemma_first_match(rest, pattern, at - 1);
        if at + pattern.len() <= s.len() {
            assert(s.subrange(at, at + pattern.len()) =~= rest.subrange(
                at - 1,
                at - 1 + pattern.len(),
            ));
        }
    }
}

/// The position of the first `c`, if there is one.
pub fn find(s: &[char], c: char) -> (r: Option<usize>)
    ensures
        match r {
            Some(i) => i < s.len() && first_of(s@, c) == Some(i as int),
            None => first_of(s@, c) is None,
        },
{
    let mut i: usize = 0;
    while i < s.len()
        invariant
            i <= s.len(),
            forall|j: int| 0 <= j < i ==> s@[j] != c,
        decreases s.len() - i,
    {
        if s[i] == c {
            proof {
                lemma_first_of(s@, c, i as int);
            }
            return Some(i);
        }
        i += 1;
    }
    proof {
        lemma_first_of(s@, c, i as int);
    }
    None
}

/// The position of the last `c`, if there is one.
pub fn rfind(s: &[char], c: char) -> (r: Option<usize>)
    ensures
        match r {
            Some(i) => i < s.len() && last_of(s@, c) == Some(i as int),
            None => last_of(s@, c) is None,
        },
{
    let mut i: usize = s.len();
    while i > 0
        invariant
            i <= s.len(),
            forall|j: int| i <= j < s.len() ==> s@[j] != c,
        decreases i,
    {
        if s[i - 1] == c {
            proof {
                lemma_last_of(s@, c, i - 1);
            }
            return Some(i - 1);
        }
        i -= 1;
    }
    proof {
        lemma_last_of(s@, c, -1);
    }
    None
}

/// The position of the first match of a pattern, if there is one.
pub fn find_text(s: &[char], pattern: &[char]) -> (r: Option<usize>)
    ensures
        match r {
            Some(i) => i + pattern.len() <= s.len() && first_match(s@, pattern@) == Some(i as int),
            None => first_match(s@, pattern@) is None,
        },
{
    let mut i: usize = 0;
    while i < s.len()
        invariant
            i <= s.len(),
            forall|j: int| 0 <= j < i ==> !stands_at(s@, pattern@, j),
        decreases s.len() - i,
    {
        if matches_at(s, pattern, i) {
            proof {
                lemma_first_match(s@, pattern@, i as int);
            }
            return Some(i);
        }
        i += 1;
    }
    proof {
        lemma_first_match(s@, pattern@, i as int);
    }
    if matches_at(s, pattern, i) {
        Some(i)
    } else {
        None
    }
}

/// Whether a piece of text occurs in another.
pub fn contains(s: &str, pattern: &str) -> (r: bool)
    ensures
        r == (first_match(s@, pattern@) is Some),
{
    find_text(&chars_of(s), &chars_of(pattern)).is_some()
}

/// What stands before the first `sep` and what after it.
pub open spec fn cut_text(s: Seq<char>, sep: Seq<char>) -> Option<(Seq<char>, Seq<char>)> {
    match first_match(s, sep) {
        Some(i) => Some((s.take(i), s.skip(i + sep.len()))),
        None => None,
    }
}

/// Cut a text at the first `sep`.
pub fn split_text(s: &str, sep: &str) -> (r: Option<(String, String)>)
    ensures
        match r {
            Some((a, b)) => cut_text(s@, sep@) == Some((a@, b@)),
            None => cut_text(s@, sep@) is None,
        },
{
    let whole = chars_of(s);
    let pattern = chars_of(sep);
    match find_text(&whole, &pattern) {
        Some(i) => {
            let a = slice_of(&whole, 0, i);
            let b = slice_of(&whole, i + pattern.len(), whole.len());
            assert(a@ =~= s@.take(i as int));
            assert(b@ =~= s@.skip(i + sep@.len()));
            Some((a, b))
        },
        None => None,
    }
}

pub fn split_once(s: &str, sep: char) -> (r: Option<(String, String)>)
    ensures
        match r {
            Some((a, b)) => cut_first(s@, sep) == Some((a@, b@)),
            None => cut_first(s@, sep) is None,
        },
{
    let whole = chars_of(s);
    match find(&whole, sep) {
        Some(i) => {
            let a = slice_of(&whole, 0, i);
            let b = slice_of(&whole, i + 1, whole.len());
            assert(a@ =~= s@.take(i as int));
            assert(b@ =~= s@.skip(i + 1));
            Some((a, b))
        },
        None => None,
    }
}

pub fn rsplit_once(s: &str, sep: char) -> (r: Option<(String, String)>)
    ensures
        match r {
            Some((a, b)) => cut_last(s@, sep) == Some((a@, b@)),
            None => cut_last(s@, sep) is None,
        },
{
    let whole = chars_of(s);
    match rfind(&whole, sep) {
        Some(i) => {
            let a = slice_of(&whole, 0, i);
            let b = slice_of(&whole, i + 1, whole.len());
            assert(a@ =~= s@.take(i as int));
            assert(b@ =~= s@.skip(i + 1));
            Some((a, b))
        },
        None => None,
    }
}

// ---------------------------------------------------------------------------
// Splitting into pieces
// ---------------------------------------------------------------------------

/// The pieces between one `sep` and the next. There is always at least one.
pub open spec fn pieces(s: Seq<char>, sep: char) -> Seq<Seq<char>>
    decreases s.len(),
{
    if s.len() == 0 {
        seq![Seq::empty()]
    } else {
        let before = pieces(s.drop_last(), sep);
        if s.last() == sep {
            before.push(Seq::empty())
        } else {
            before.drop_last().push(before.last().push(s.last()))
        }
    }
}

/// At most `n` pieces: the last holds whatever is left, separators and all.
pub open spec fn fields(s: Seq<char>, n: nat, sep: char) -> Seq<Seq<char>>
    decreases n,
{
    if n <= 1 {
        seq![s]
    } else {
        match cut_first(s, sep) {
            Some((a, b)) => seq![a] + fields(b, (n - 1) as nat, sep),
            None => seq![s],
        }
    }
}

/// Pieces of text with `sep` between each and the next.
pub open spec fn joined(parts: Seq<Seq<char>>, sep: Seq<char>) -> Seq<char>
    decreases parts.len(),
{
    if parts.len() == 0 {
        Seq::empty()
    } else if parts.len() == 1 {
        parts[0]
    } else {
        joined(parts.drop_last(), sep) + sep + parts.last()
    }
}

/// A line as it stands before its newline: one carriage return is not part of it.
pub open spec fn line_end(s: Seq<char>) -> Seq<char> {
    if s.len() > 0 && s.last() == '\r' {
        s.drop_last()
    } else {
        s
    }
}

/// The lines of a text. What follows the last newline is a line only if there is
/// something there, and it keeps every character it has.
pub open spec fn lines(s: Seq<char>) -> Seq<Seq<char>> {
    let all = pieces(s, '\n');
    let ended = all.drop_last().map_values(|l: Seq<char>| line_end(l));
    if all.last().len() == 0 {
        ended
    } else {
        ended.push(all.last())
    }
}

pub proof fn lemma_pieces_nonempty(s: Seq<char>, sep: char)
    ensures
        pieces(s, sep).len() >= 1,
    decreases s.len(),
{
    if s.len() > 0 {
        lemma_pieces_nonempty(s.drop_last(), sep);
    }
}

/// No piece holds the separator.
pub proof fn lemma_pieces_are_plain(s: Seq<char>, sep: char)
    ensures
        forall|i: int| 0 <= i < pieces(s, sep).len() ==> !(#[trigger] pieces(s, sep)[i]).contains(sep),
    decreases s.len(),
{
    if s.len() > 0 {
        let before = pieces(s.drop_last(), sep);
        lemma_pieces_are_plain(s.drop_last(), sep);
        lemma_pieces_nonempty(s.drop_last(), sep);
        let after = pieces(s, sep);
        assert forall|i: int| 0 <= i < after.len() implies !(#[trigger] after[i]).contains(sep) by {
            if i < after.len() - 1 {
                assert(after[i] == before[i]);
            } else if s.last() != sep {
                let last = before[before.len() - 1];
                assert(after[i] == last.push(s.last()));
                assert forall|j: int| 0 <= j < after[i].len() implies after[i][j] != sep by {
                    if j < last.len() {
                        assert(last[j] == after[i][j]);
                        assert(last.contains(last[j]));
                    }
                }
            }
        }
    }
}

/// What follows the last separator is the last piece.
pub proof fn lemma_last_piece(s: Seq<char>, rest: Seq<char>, sep: char)
    requires
        !rest.contains(sep),
    ensures
        pieces(s + seq![sep] + rest, sep) == pieces(s, sep).push(rest),
        pieces(rest, sep) == seq![rest],
    decreases rest.len(),
{
    let whole = s + seq![sep] + rest;
    if rest.len() == 0 {
        assert(whole.drop_last() =~= s);
        assert(whole.last() == sep);
        assert(rest =~= Seq::empty());
    } else {
        let front = rest.drop_last();
        assert forall|j: int| 0 <= j < front.len() implies front[j] != sep by {
            assert(rest[j] == front[j]);
            assert(rest.contains(rest[j]));
        }
        lemma_last_piece(s, front, sep);
        assert(rest.contains(rest[rest.len() - 1]));
        assert(whole.drop_last() =~= s + seq![sep] + front);
        assert(whole.last() == rest.last());
        assert(front.push(rest.last()) =~= rest);
        assert(pieces(s, sep).push(front).drop_last() =~= pieces(s, sep));
        assert(seq![front].drop_last().push(rest) =~= seq![rest]);
    }
}

/// Joining pieces and taking them apart gives the pieces.
pub proof fn lemma_pieces_of_joined(parts: Seq<Seq<char>>, sep: char)
    requires
        parts.len() > 0,
        forall|i: int| 0 <= i < parts.len() ==> !(#[trigger] parts[i]).contains(sep),
    ensures
        pieces(joined(parts, seq![sep]), sep) == parts,
    decreases parts.len(),
{
    assert(!parts[parts.len() - 1].contains(sep));
    if parts.len() == 1 {
        lemma_last_piece(Seq::empty(), parts[0], sep);
        assert(seq![parts[0]] =~= parts);
    } else {
        let front = parts.drop_last();
        assert forall|i: int| 0 <= i < front.len() implies !(#[trigger] front[i]).contains(sep) by {
            assert(front[i] == parts[i]);
        }
        lemma_pieces_of_joined(front, sep);
        lemma_last_piece(joined(front, seq![sep]), parts.last(), sep);
        assert(front.push(parts.last()) =~= parts);
    }
}

pub fn split(s: &str, sep: char) -> (r: Vec<String>)
    ensures
        texts(r@) == pieces(s@, sep),
        r@.len() >= 1,
{
    let whole = chars_of(s);
    let mut out: Vec<String> = Vec::new();
    let mut piece = String::new();
    let mut i: usize = 0;
    assert(texts(out@).push(piece@) =~= pieces(s@.take(0), sep));
    while i < whole.len()
        invariant
            i <= whole.len(),
            whole@ == s@,
            texts(out@).push(piece@) == pieces(s@.take(i as int), sep),
        decreases whole.len() - i,
    {
        let c = whole[i];
        let ghost before = texts(out@).push(piece@);
        assert(s@.take(i + 1).drop_last() =~= s@.take(i as int));
        assert(before.drop_last() =~= texts(out@));
        if c == sep {
            let ghost old_out = out@;
            out.push(piece);
            assert(texts(out@) =~= texts(old_out).push(piece@));
            piece = String::new();
        } else {
            piece.push(c);
        }
        i += 1;
        assert(texts(out@).push(piece@) =~= pieces(s@.take(i as int), sep));
    }
    assert(s@.take(i as int) =~= s@);
    let ghost old_out = out@;
    out.push(piece);
    assert(texts(out@) =~= texts(old_out).push(piece@));
    out
}

pub fn splitn(s: &str, n: usize, sep: char) -> (r: Vec<String>)
    requires
        n >= 1,
    ensures
        texts(r@) == fields(s@, n as nat, sep),
        1 <= r@.len() <= n,
    decreases n,
{
    let mut out: Vec<String> = Vec::new();
    if n == 1 {
        out.push(s.to_owned());
        assert(texts(out@) =~= seq![s@]);
        return out;
    }
    match split_once(s, sep) {
        Some((a, b)) => {
            let mut rest = splitn(b.as_str(), n - 1, sep);
            let ghost tail = rest@;
            out.push(a);
            out.append(&mut rest);
            assert(texts(out@) =~= seq![a@] + texts(tail));
        },
        None => {
            out.push(s.to_owned());
            assert(texts(out@) =~= seq![s@]);
        },
    }
    out
}

pub fn join(parts: &[String], sep: &str) -> (r: String)
    ensures
        r@ == joined(texts(parts@), sep@),
{
    let mut out = String::new();
    let mut i: usize = 0;
    while i < parts.len()
        invariant
            i <= parts.len(),
            out@ == joined(texts(parts@).take(i as int), sep@),
        decreases parts.len() - i,
    {
        if i > 0 {
            out.append(sep);
        }
        out.append(parts[i].as_str());
        assert(texts(parts@).take(i + 1).drop_last() =~= texts(parts@).take(i as int));
        assert(out@ =~= joined(texts(parts@).take(i + 1), sep@));
        i += 1;
    }
    assert(texts(parts@).take(i as int) =~= texts(parts@));
    out
}

pub fn split_lines(s: &str) -> (r: Vec<String>)
    ensures
        texts(r@) == lines(s@),
{
    let all = split(s, '\n');
    let mut out: Vec<String> = Vec::new();
    let mut i: usize = 0;
    let ghost ended = pieces(s@, '\n').drop_last().map_values(|l: Seq<char>| line_end(l));
    while i + 1 < all.len()
        invariant
            i + 1 <= all.len(),
            texts(all@) == pieces(s@, '\n'),
            ended == pieces(s@, '\n').drop_last().map_values(|l: Seq<char>| line_end(l)),
            texts(out@) == ended.take(i as int),
        decreases all.len() - i,
    {
        let line = chars_of(all[i].as_str());
        assert(line@ == texts(all@)[i as int]);
        let end = if line.len() > 0 && line[line.len() - 1] == '\r' {
            line.len() - 1
        } else {
            line.len()
        };
        let text = slice_of(&line, 0, end);
        assert(text@ =~= line_end(line@));
        let ghost old_out = out@;
        out.push(text);
        assert(texts(out@) =~= texts(old_out).push(text@));
        assert(ended.take(i + 1) =~= ended.take(i as int).push(ended[i as int]));
        i += 1;
    }
    assert(ended.take(i as int) =~= ended);
    let last = all[all.len() - 1].as_str();
    assert(last@ == texts(all@).last());
    if !last.is_empty() {
        let ghost old_out = out@;
        out.push(last.to_owned());
        assert(texts(out@) =~= texts(old_out).push(last@));
    }
    out
}

// ---------------------------------------------------------------------------
// Trimming
// ---------------------------------------------------------------------------

/// The characters Unicode calls white space.
pub open spec fn is_space(c: char) -> bool {
    ||| '\u{9}' <= c <= '\u{d}'
    ||| c == ' '
    ||| c == '\u{85}'
    ||| c == '\u{a0}'
    ||| c == '\u{1680}'
    ||| '\u{2000}' <= c <= '\u{200a}'
    ||| c == '\u{2028}'
    ||| c == '\u{2029}'
    ||| c == '\u{202f}'
    ||| c == '\u{205f}'
    ||| c == '\u{3000}'
}

/// `s` without the run of `drop` characters at its front.
pub open spec fn trim_start_by(s: Seq<char>, drop: spec_fn(char) -> bool) -> Seq<char>
    decreases s.len(),
{
    if s.len() > 0 && drop(s[0]) {
        trim_start_by(s.drop_first(), drop)
    } else {
        s
    }
}

/// `s` without the run of `drop` characters at its end.
pub open spec fn trim_end_by(s: Seq<char>, drop: spec_fn(char) -> bool) -> Seq<char>
    decreases s.len(),
{
    if s.len() > 0 && drop(s.last()) {
        trim_end_by(s.drop_last(), drop)
    } else {
        s
    }
}

/// `s` without the white space around it.
pub open spec fn trimmed(s: Seq<char>) -> Seq<char> {
    trim_end_by(trim_start_by(s, |c: char| is_space(c)), |c: char| is_space(c))
}

/// `s` without the run at either end of characters that `set` holds.
pub open spec fn trimmed_of(s: Seq<char>, set: Seq<char>) -> Seq<char> {
    trim_end_by(trim_start_by(s, |c: char| set.contains(c)), |c: char| set.contains(c))
}

/// What is left once the white space around a text is gone neither begins nor ends
/// with any, and is part of the text.
pub proof fn lemma_trimmed_ends(s: Seq<char>)
    ensures
        trimmed(s).len() > 0 ==> !is_space(trimmed(s)[0]) && !is_space(trimmed(s).last()),
        forall|i: int| 0 <= i < trimmed(s).len() ==> s.contains(#[trigger] trimmed(s)[i]),
{
    let space = |c: char| is_space(c);
    let begun = trim_start_by(s, space);
    let out = trim_end_by(begun, space);
    lemma_trim_start_first(s, space);
    lemma_trim_end_last(begun, space);
    lemma_trim_start_part(s, space);
    lemma_trim_end_part(begun, space);
    if out.len() > 0 {
        assert(!space(begun[0]));
        assert(!space(out.last()));
    }
    assert forall|i: int| 0 <= i < out.len() implies s.contains(#[trigger] out[i]) by {
        assert(begun.contains(out[i]));
        let k = choose|k: int| 0 <= k < begun.len() && begun[k] == out[i];
        assert(s.contains(begun[k]));
    }
}

proof fn lemma_trim_start_first(s: Seq<char>, drop: spec_fn(char) -> bool)
    ensures
        trim_start_by(s, drop).len() > 0 ==> !drop(trim_start_by(s, drop)[0]),
    decreases s.len(),
{
    if s.len() > 0 && drop(s[0]) {
        lemma_trim_start_first(s.drop_first(), drop);
    }
}

proof fn lemma_trim_end_last(s: Seq<char>, drop: spec_fn(char) -> bool)
    ensures
        trim_end_by(s, drop).len() <= s.len(),
        trim_end_by(s, drop).len() > 0 ==> !drop(trim_end_by(s, drop).last()) && trim_end_by(
            s,
            drop,
        )[0] == s[0],
    decreases s.len(),
{
    if s.len() > 0 && drop(s.last()) {
        lemma_trim_end_last(s.drop_last(), drop);
    }
}

pub proof fn lemma_trim_start(s: Seq<char>, drop: spec_fn(char) -> bool, at: int)
    requires
        0 <= at <= s.len(),
        forall|j: int| 0 <= j < at ==> drop(s[j]),
        at < s.len() ==> !drop(s[at]),
    ensures
        trim_start_by(s, drop) == s.skip(at),
    decreases s.len(),
{
    if at > 0 {
        let rest = s.drop_first();
        assert forall|j: int| 0 <= j < at - 1 implies drop(rest[j]) by {
            assert(rest[j] == s[j + 1]);
        }
        lemma_trim_start(rest, drop, at - 1);
        assert(rest.skip(at - 1) =~= s.skip(at));
    } else {
        assert(s.skip(0) =~= s);
    }
}

pub proof fn lemma_trim_end(s: Seq<char>, drop: spec_fn(char) -> bool, at: int)
    requires
        0 <= at <= s.len(),
        forall|j: int| at <= j < s.len() ==> drop(s[j]),
        at > 0 ==> !drop(s[at - 1]),
    ensures
        trim_end_by(s, drop) == s.take(at),
    decreases s.len(),
{
    if at < s.len() {
        lemma_trim_end(s.drop_last(), drop, at);
        assert(s.drop_last().take(at) =~= s.take(at));
    } else {
        assert(s.take(at) =~= s);
    }
}

/// What is left once the front is trimmed was there.
pub proof fn lemma_trim_start_part(s: Seq<char>, drop: spec_fn(char) -> bool)
    ensures
        forall|i: int|
            0 <= i < trim_start_by(s, drop).len() ==> s.contains(
                #[trigger] trim_start_by(s, drop)[i],
            ),
    decreases s.len(),
{
    if s.len() > 0 && drop(s[0]) {
        lemma_trim_start_part(s.drop_first(), drop);
        let out = trim_start_by(s, drop);
        assert forall|i: int| 0 <= i < out.len() implies s.contains(#[trigger] out[i]) by {
            let rest = s.drop_first();
            assert(rest.contains(trim_start_by(rest, drop)[i]));
            let k = choose|k: int| 0 <= k < rest.len() && rest[k] == out[i];
            assert(s[k + 1] == out[i]);
        }
    }
}

/// What is left once the end is trimmed was there.
pub proof fn lemma_trim_end_part(s: Seq<char>, drop: spec_fn(char) -> bool)
    ensures
        forall|i: int|
            0 <= i < trim_end_by(s, drop).len() ==> s.contains(
                #[trigger] trim_end_by(s, drop)[i],
            ),
    decreases s.len(),
{
    if s.len() > 0 && drop(s.last()) {
        lemma_trim_end_part(s.drop_last(), drop);
        let out = trim_end_by(s, drop);
        assert forall|i: int| 0 <= i < out.len() implies s.contains(#[trigger] out[i]) by {
            let front = s.drop_last();
            assert(front.contains(trim_end_by(front, drop)[i]));
            let k = choose|k: int| 0 <= k < front.len() && front[k] == out[i];
            assert(s[k] == out[i]);
        }
    }
}

/// Whether a character is white space.
pub fn space(c: char) -> (r: bool)
    ensures
        r == is_space(c),
{
    ('\u{9}' <= c && c <= '\u{d}') || c == ' ' || c == '\u{85}' || c == '\u{a0}' || c == '\u{1680}'
        || ('\u{2000}' <= c && c <= '\u{200a}') || c == '\u{2028}' || c == '\u{2029}' || c
        == '\u{202f}' || c == '\u{205f}' || c == '\u{3000}'
}

/// Whether a list of characters holds `c`.
pub fn holds(set: &[char], c: char) -> (r: bool)
    ensures
        r == set@.contains(c),
{
    proof {
        lemma_first_of_is_first(set@, c);
    }
    find(set, c).is_some()
}

pub fn trim_start(s: &str) -> (r: String)
    ensures
        r@ == trim_start_by(s@, |c: char| is_space(c)),
{
    let whole = chars_of(s);
    let mut from: usize = 0;
    while from < whole.len() && space(whole[from])
        invariant
            from <= whole.len(),
            forall|j: int| 0 <= j < from ==> is_space(whole@[j]),
        decreases whole.len() - from,
    {
        from += 1;
    }
    let out = slice_of(&whole, from, whole.len());
    proof {
        lemma_trim_start(whole@, |c: char| is_space(c), from as int);
        assert(out@ =~= whole@.skip(from as int));
    }
    out
}

pub fn trim_end(s: &str) -> (r: String)
    ensures
        r@ == trim_end_by(s@, |c: char| is_space(c)),
{
    let whole = chars_of(s);
    let mut to: usize = whole.len();
    while to > 0 && space(whole[to - 1])
        invariant
            to <= whole.len(),
            forall|j: int| to <= j < whole.len() ==> is_space(whole@[j]),
        decreases to,
    {
        to -= 1;
    }
    let out = slice_of(&whole, 0, to);
    proof {
        lemma_trim_end(whole@, |c: char| is_space(c), to as int);
        assert(out@ =~= whole@.take(to as int));
    }
    out
}

pub fn trim(s: &str) -> (r: String)
    ensures
        r@ == trimmed(s@),
{
    trim_end(trim_start(s).as_str())
}

/// Take the characters of `set` off both ends.
pub fn trim_of(s: &str, set: &str) -> (r: String)
    ensures
        r@ == trimmed_of(s@, set@),
{
    let whole = chars_of(s);
    let dropped = chars_of(set);
    let mut from: usize = 0;
    while from < whole.len() && holds(&dropped, whole[from])
        invariant
            from <= whole.len(),
            dropped@ == set@,
            forall|j: int| 0 <= j < from ==> set@.contains(#[trigger] whole@[j]),
        decreases whole.len() - from,
    {
        from += 1;
    }
    let mut to: usize = whole.len();
    while to > from && holds(&dropped, whole[to - 1])
        invariant
            from <= to <= whole.len(),
            dropped@ == set@,
            forall|j: int| to <= j < whole.len() ==> set@.contains(#[trigger] whole@[j]),
        decreases to,
    {
        to -= 1;
    }
    let out = slice_of(&whole, from, to);
    proof {
        let rest = whole@.skip(from as int);
        lemma_trim_start(whole@, |c: char| set@.contains(c), from as int);
        lemma_trim_end(rest, |c: char| set@.contains(c), to - from);
        assert(out@ =~= rest.take(to - from));
    }
    out
}

/// Take the characters of `set` off the front.
pub fn trim_start_of(s: &str, set: &str) -> (r: String)
    ensures
        r@ == trim_start_by(s@, |c: char| set@.contains(c)),
{
    let whole = chars_of(s);
    let dropped = chars_of(set);
    let mut from: usize = 0;
    while from < whole.len() && holds(&dropped, whole[from])
        invariant
            from <= whole.len(),
            dropped@ == set@,
            forall|j: int| 0 <= j < from ==> set@.contains(#[trigger] whole@[j]),
        decreases whole.len() - from,
    {
        from += 1;
    }
    let out = slice_of(&whole, from, whole.len());
    proof {
        lemma_trim_start(whole@, |c: char| set@.contains(c), from as int);
        assert(out@ =~= whole@.skip(from as int));
    }
    out
}

/// Take the characters of `set` off the end.
pub fn trim_end_of(s: &str, set: &str) -> (r: String)
    ensures
        r@ == trim_end_by(s@, |c: char| set@.contains(c)),
{
    let whole = chars_of(s);
    let dropped = chars_of(set);
    let mut to: usize = whole.len();
    while to > 0 && holds(&dropped, whole[to - 1])
        invariant
            to <= whole.len(),
            dropped@ == set@,
            forall|j: int| to <= j < whole.len() ==> set@.contains(#[trigger] whole@[j]),
        decreases to,
    {
        to -= 1;
    }
    let out = slice_of(&whole, 0, to);
    proof {
        lemma_trim_end(whole@, |c: char| set@.contains(c), to as int);
        assert(out@ =~= whole@.take(to as int));
    }
    out
}

/// `s` without every `pattern` it begins with, one after the other.
pub open spec fn without_prefixes(s: Seq<char>, pattern: Seq<char>) -> Seq<char>
    decreases s.len(),
{
    if pattern.len() > 0 && has_prefix(s, pattern) {
        without_prefixes(s.skip(pattern.len() as int), pattern)
    } else {
        s
    }
}

/// `s` without every `pattern` it ends with, one before the other.
pub open spec fn without_suffixes(s: Seq<char>, pattern: Seq<char>) -> Seq<char>
    decreases s.len(),
{
    if pattern.len() > 0 && has_suffix(s, pattern) {
        without_suffixes(s.take(s.len() - pattern.len()), pattern)
    } else {
        s
    }
}

/// Take every `pattern` off the front.
pub fn trim_prefixes(s: &str, pattern: &str) -> (r: String)
    ensures
        r@ == without_prefixes(s@, pattern@),
{
    let mut left = s.to_owned();
    if pattern.is_empty() {
        return left;
    }
    loop
        invariant_except_break
            pattern@.len() > 0,
            without_prefixes(s@, pattern@) == without_prefixes(left@, pattern@),
        ensures
            left@ == without_prefixes(s@, pattern@),
        decreases left@.len(),
    {
        match strip_prefix(left.as_str(), pattern) {
            Some(rest) => {
                left = rest;
            },
            None => {
                break ;
            },
        }
    }
    left
}

/// Take every `pattern` off the end.
pub fn trim_suffixes(s: &str, pattern: &str) -> (r: String)
    ensures
        r@ == without_suffixes(s@, pattern@),
{
    let mut left = s.to_owned();
    if pattern.is_empty() {
        return left;
    }
    loop
        invariant_except_break
            pattern@.len() > 0,
            without_suffixes(s@, pattern@) == without_suffixes(left@, pattern@),
        ensures
            left@ == without_suffixes(s@, pattern@),
        decreases left@.len(),
    {
        match strip_suffix(left.as_str(), pattern) {
            Some(rest) => {
                left = rest;
            },
            None => {
                break ;
            },
        }
    }
    left
}

// ---------------------------------------------------------------------------
// Changing characters
// ---------------------------------------------------------------------------

/// An ASCII capital as the small letter, and every other character as it is.
pub open spec fn lower(c: char) -> char {
    if 'A' <= c <= 'Z' {
        (c as u32 + 32) as char
    } else {
        c
    }
}

pub open spec fn lowered(s: Seq<char>) -> Seq<char> {
    s.map_values(|c: char| lower(c))
}

/// Every `from` as `to`.
pub open spec fn swapped(s: Seq<char>, from: char, to: char) -> Seq<char> {
    s.map_values(|c: char| if c == from { to } else { c })
}

/// Each character as the text it stands for, one after the other.
pub open spec fn expanded(s: Seq<char>, f: spec_fn(char) -> Seq<char>) -> Seq<char>
    decreases s.len(),
{
    if s.len() == 0 {
        Seq::empty()
    } else {
        expanded(s.drop_last(), f) + f(s.last())
    }
}

/// `s` with each match of `from`, read left to right, as `to`.
pub open spec fn replaced(s: Seq<char>, from: Seq<char>, to: Seq<char>) -> Seq<char>
    decreases s.len(),
{
    if from.len() == 0 || s.len() == 0 {
        s
    } else if has_prefix(s, from) {
        to + replaced(s.skip(from.len() as int), from, to)
    } else {
        seq![s[0]] + replaced(s.drop_first(), from, to)
    }
}

pub fn lower_char(c: char) -> (r: char)
    ensures
        r == lower(c),
{
    if 'A' <= c && c <= 'Z' {
        ((c as u8) + 32) as char
    } else {
        c
    }
}

pub fn to_lower(s: &str) -> (r: String)
    ensures
        r@ == lowered(s@),
{
    let whole = chars_of(s);
    let mut out = String::new();
    let mut i: usize = 0;
    while i < whole.len()
        invariant
            i <= whole.len(),
            out@ == lowered(whole@.take(i as int)),
        decreases whole.len() - i,
    {
        out.push(lower_char(whole[i]));
        i += 1;
        assert(out@ =~= lowered(whole@.take(i as int)));
    }
    assert(whole@.take(i as int) =~= whole@);
    out
}

pub fn swap_char(s: &str, from: char, to: char) -> (r: String)
    ensures
        r@ == swapped(s@, from, to),
{
    let whole = chars_of(s);
    let mut out = String::new();
    let mut i: usize = 0;
    while i < whole.len()
        invariant
            i <= whole.len(),
            out@ == swapped(whole@.take(i as int), from, to),
        decreases whole.len() - i,
    {
        out.push(if whole[i] == from { to } else { whole[i] });
        i += 1;
        assert(out@ =~= swapped(whole@.take(i as int), from, to));
    }
    assert(whole@.take(i as int) =~= whole@);
    out
}

/// Every match of `from`, read left to right, as `to`.
pub fn replace(s: &str, from: &str, to: &str) -> (r: String)
    requires
        from@.len() > 0,
    ensures
        r@ == replaced(s@, from@, to@),
{
    let whole = chars_of(s);
    let pattern = chars_of(from);
    let mut out = String::new();
    let mut i: usize = 0;
    assert(whole@.skip(0) =~= whole@);
    while i < whole.len()
        invariant
            i <= whole.len(),
            pattern@ == from@,
            from@.len() > 0,
            out@ + replaced(whole@.skip(i as int), from@, to@) == replaced(whole@, from@, to@),
        decreases whole.len() - i,
    {
        let ghost rest = whole@.skip(i as int);
        let ghost before = out@;
        if matches_at(&whole, &pattern, i) {
            assert(rest.subrange(0, from@.len() as int) =~= whole@.subrange(
                i as int,
                i + from@.len(),
            ));
            out.append(to);
            i += pattern.len();
            assert(rest.skip(from@.len() as int) =~= whole@.skip(i as int));
            assert(before + (to@ + replaced(whole@.skip(i as int), from@, to@)) =~= out@
                + replaced(whole@.skip(i as int), from@, to@));
        } else {
            proof {
                if i + from@.len() <= whole@.len() {
                    assert(rest.subrange(0, from@.len() as int) =~= whole@.subrange(
                        i as int,
                        i + from@.len(),
                    ));
                }
            }
            out.push(whole[i]);
            i += 1;
            assert(rest.drop_first() =~= whole@.skip(i as int));
            assert(before + (seq![rest[0]] + replaced(whole@.skip(i as int), from@, to@)) =~= out@
                + replaced(whole@.skip(i as int), from@, to@));
        }
    }
    assert(out@ + replaced(whole@.skip(i as int), from@, to@) =~= out@);
    out
}

// ---------------------------------------------------------------------------
// Words
// ---------------------------------------------------------------------------

/// The pieces between one run-ending white space character and the next, empty
/// ones among them.
pub open spec fn spaced(s: Seq<char>) -> Seq<Seq<char>>
    decreases s.len(),
{
    if s.len() == 0 {
        seq![Seq::empty()]
    } else {
        let before = spaced(s.drop_last());
        if is_space(s.last()) {
            before.push(Seq::empty())
        } else {
            before.drop_last().push(before.last().push(s.last()))
        }
    }
}

/// The words of a text: what stands between white space.
pub open spec fn words(s: Seq<char>) -> Seq<Seq<char>> {
    list::kept(spaced(s), |w: Seq<char>| w.len() > 0)
}

pub fn split_words(s: &str) -> (r: Vec<String>)
    ensures
        texts(r@) == words(s@),
{
    let whole = chars_of(s);
    let ghost keep = |w: Seq<char>| w.len() > 0;
    let mut out: Vec<String> = Vec::new();
    let ghost mut all: Seq<Seq<char>> = Seq::empty();
    let mut piece = String::new();
    let mut length: usize = 0;
    let mut i: usize = 0;
    assert(all.push(piece@) =~= spaced(s@.take(0)));
    assert(texts(out@) =~= list::kept(all, keep));
    while i < whole.len()
        invariant
            i <= whole.len(),
            whole@ == s@,
            keep == (|w: Seq<char>| w.len() > 0),
            length <= i,
            length == piece@.len(),
            all.push(piece@) == spaced(s@.take(i as int)),
            texts(out@) == list::kept(all, keep),
        decreases whole.len() - i,
    {
        let c = whole[i];
        let ghost before = all.push(piece@);
        assert(s@.take(i + 1).drop_last() =~= s@.take(i as int));
        assert(before.drop_last() =~= all);
        if space(c) {
            let ghost old_out = out@;
            assert(before.drop_last() =~= all);
            if length > 0 {
                out.push(piece);
                assert(texts(out@) =~= texts(old_out).push(piece@));
            }
            proof {
                all = before;
            }
            piece = String::new();
            length = 0;
        } else {
            piece.push(c);
            length += 1;
        }
        i += 1;
        assert(all.push(piece@) =~= spaced(s@.take(i as int)));
    }
    assert(s@.take(i as int) =~= s@);
    assert(all.push(piece@).drop_last() =~= all);
    if length > 0 {
        let ghost old_out = out@;
        out.push(piece);
        assert(texts(out@) =~= texts(old_out).push(piece@));
    }
    out
}

// ---------------------------------------------------------------------------
// Order, and how a text is shown
// ---------------------------------------------------------------------------

/// Whether one text comes before another, character by character.
pub open spec fn precedes(a: Seq<char>, b: Seq<char>) -> bool
    decreases a.len(),
{
    if b.len() == 0 {
        false
    } else if a.len() == 0 {
        true
    } else if a[0] != b[0] {
        a[0] < b[0]
    } else {
        precedes(a.drop_first(), b.drop_first())
    }
}

proof fn lemma_precedes(a: Seq<char>, b: Seq<char>, at: int)
    requires
        0 <= at <= a.len(),
        at <= b.len(),
        forall|j: int| 0 <= j < at ==> a[j] == b[j],
    ensures
        precedes(a, b) == precedes(a.skip(at), b.skip(at)),
    decreases at,
{
    if at > 0 {
        let x = a.drop_first();
        let y = b.drop_first();
        assert forall|j: int| 0 <= j < at - 1 implies x[j] == y[j] by {
            assert(x[j] == a[j + 1] && y[j] == b[j + 1]);
        }
        assert(a[0] == b[0]);
        lemma_precedes(x, y, at - 1);
        assert(x.skip(at - 1) =~= a.skip(at));
        assert(y.skip(at - 1) =~= b.skip(at));
    } else {
        assert(a.skip(0) =~= a);
        assert(b.skip(0) =~= b);
    }
}

/// No two texts come before each other.
pub proof fn lemma_precedes_one_way(a: Seq<char>, b: Seq<char>)
    ensures
        precedes(a, b) ==> !precedes(b, a),
        !precedes(a, b) && !precedes(b, a) ==> a == b,
    decreases a.len(),
{
    if a.len() > 0 && b.len() > 0 && a[0] == b[0] {
        lemma_precedes_one_way(a.drop_first(), b.drop_first());
        if a.drop_first() == b.drop_first() {
            assert(a =~= seq![a[0]] + a.drop_first());
            assert(b =~= seq![b[0]] + b.drop_first());
        }
    } else if a.len() == 0 && b.len() == 0 {
        assert(a =~= b);
    }
}

/// Of three texts, the order of the first and the last follows from the others.
pub proof fn lemma_precedes_chain(a: Seq<char>, b: Seq<char>, c: Seq<char>)
    ensures
        precedes(a, b) && precedes(b, c) ==> precedes(a, c),
        !precedes(a, b) && !precedes(b, c) ==> !precedes(a, c),
    decreases a.len(),
{
    if a.len() > 0 && b.len() > 0 && c.len() > 0 && a[0] == b[0] && b[0] == c[0] {
        lemma_precedes_chain(a.drop_first(), b.drop_first(), c.drop_first());
    }
}

/// Whether one text comes before another.
pub fn before(a: &str, b: &str) -> (r: bool)
    ensures
        r == precedes(a@, b@),
{
    let x = chars_of(a);
    let y = chars_of(b);
    let mut i: usize = 0;
    while i < x.len() && i < y.len() && x[i] == y[i]
        invariant
            i <= x.len(),
            i <= y.len(),
            forall|j: int| 0 <= j < i ==> x@[j] == y@[j],
        decreases x.len() - i,
    {
        i += 1;
    }
    proof {
        lemma_precedes(x@, y@, i as int);
    }
    if i >= y.len() {
        false
    } else if i >= x.len() {
        true
    } else {
        x[i] < y[i]
    }
}

/// A text with spaces in front of it up to a width.
pub open spec fn right_set(s: Seq<char>, width: nat) -> Seq<char> {
    if s.len() >= width {
        s
    } else {
        Seq::new((width - s.len()) as nat, |i: int| ' ') + s
    }
}

/// A text with spaces behind it up to a width.
pub open spec fn left_set(s: Seq<char>, width: nat) -> Seq<char> {
    if s.len() >= width {
        s
    } else {
        s + Seq::new((width - s.len()) as nat, |i: int| ' ')
    }
}

fn spaces(n: usize) -> (r: String)
    ensures
        r@ == Seq::new(n as nat, |i: int| ' '),
{
    let mut out = String::new();
    let mut i: usize = 0;
    while i < n
        invariant
            i <= n,
            out@ == Seq::new(i as nat, |i: int| ' '),
        decreases n - i,
    {
        out.push(' ');
        i += 1;
        assert(out@ =~= Seq::new(i as nat, |i: int| ' '));
    }
    out
}

pub fn align_right(s: &str, width: usize) -> (r: String)
    ensures
        r@ == right_set(s@, width as nat),
{
    let length: usize = chars_of(s).len();
    if length >= width {
        return s.to_owned();
    }
    let mut out = spaces(width - length);
    out.append(s);
    out
}

pub fn align_left(s: &str, width: usize) -> (r: String)
    ensures
        r@ == left_set(s@, width as nat),
{
    let length: usize = chars_of(s).len();
    if length >= width {
        return s.to_owned();
    }
    let mut out = s.to_owned();
    out.append(spaces(width - length).as_str());
    out
}

/// A list of texts, once more.
pub fn copies(all: &[String]) -> (r: Vec<String>)
    ensures
        texts(r@) == texts(all@),
{
    let mut out: Vec<String> = Vec::new();
    let mut i: usize = 0;
    while i < all.len()
        invariant
            i <= all.len(),
            texts(out@) =~= texts(all@).take(i as int),
        decreases all.len() - i,
    {
        let ghost before = out@;
        out.push(all[i].clone());
        assert(texts(out@) =~= texts(before).push(all@[i as int]@));
        i += 1;
    }
    assert(texts(all@).take(i as int) =~= texts(all@));
    out
}

/// Whether an item is another than `item`.
pub open spec fn differs(item: Seq<char>) -> spec_fn(Seq<char>) -> bool {
    |other: Seq<char>| other != item
}

/// Every item but one.
pub open spec fn all_but(items: Seq<Seq<char>>, item: Seq<char>) -> Seq<Seq<char>> {
    list::kept(items, differs(item))
}

/// Every item but one, and that one last if it is to be there.
pub open spec fn moved(items: Seq<Seq<char>>, item: Seq<char>, there: bool) -> Seq<Seq<char>> {
    if there {
        all_but(items, item).push(item)
    } else {
        all_but(items, item)
    }
}

/// Take an item out of a list, and put it last if it is to be there.
pub fn move_last(items: &Vec<String>, item: &str, there: bool) -> (r: Vec<String>)
    ensures
        texts(r@) == moved(texts(items@), item@, there),
{
    let ghost all = texts(items@);
    let ghost keep = differs(item@);
    let mut out: Vec<String> = Vec::new();
    let mut i: usize = 0;
    assert(all.take(0) =~= Seq::empty());
    assert(texts(out@) =~= Seq::empty());
    while i < items.len()
        invariant
            i <= items.len(),
            all == texts(items@),
            keep == differs(item@),
            texts(out@) == list::kept(all.take(i as int), keep),
        decreases items.len() - i,
    {
        assert(all.take(i + 1).drop_last() =~= all.take(i as int));
        assert(all[i as int] == items@[i as int]@);
        if !same(items[i].as_str(), item) {
            let ghost before = out@;
            out.push(items[i].clone());
            assert(texts(out@) =~= texts(before).push(items@[i as int]@));
        }
        i += 1;
    }
    assert(all.take(i as int) =~= all);
    if there {
        let ghost before = out@;
        out.push(item.to_owned());
        assert(texts(out@) =~= texts(before).push(item@));
    }
    out
}

/// Whether a list holds a text.
pub fn any_same(all: &[String], one: &str) -> (r: bool)
    ensures
        r == texts(all@).contains(one@),
{
    let mut i: usize = 0;
    while i < all.len()
        invariant
            i <= all.len(),
            forall|j: int| 0 <= j < i ==> #[trigger] texts(all@)[j] != one@,
        decreases all.len() - i,
    {
        assert(texts(all@)[i as int] == all@[i as int]@);
        if same(all[i].as_str(), one) {
            return true;
        }
        i += 1;
    }
    false
}

/// A text as it is shown in a message: in quotes, with what would not print
/// written out.
pub uninterp spec fn shown(s: Seq<char>) -> Seq<char>;

/// Formats a string with `{:?}`. What `str`'s `Debug` writes depends on the text
/// and on Unicode's table of what prints, and is called `shown`.
#[verifier::external_body]
pub(crate) fn show(s: &str) -> (r: String)
    ensures
        r@ == shown(s@),
{
    format!("{:?}", s)
}

// ---------------------------------------------------------------------------
// A text in a text
// ---------------------------------------------------------------------------

/// Whether a text stands somewhere in another.
pub open spec fn says(s: Seq<char>, word: Seq<char>) -> bool {
    exists|at: int| #[trigger] stands_at(s, word, at)
}

/// What stands in a part of a text stands in the whole.
pub proof fn lemma_says_part(front: Seq<char>, middle: Seq<char>, back: Seq<char>, word: Seq<char>)
    requires
        says(middle, word),
    ensures
        says(front + middle + back, word),
{
    let at = choose|at: int| #[trigger] stands_at(middle, word, at);
    let whole = front + middle + back;
    let there = front.len() + at;
    assert(whole.subrange(there, there + word.len()) =~= middle.subrange(at, at + word.len()));
    assert(stands_at(whole, word, there));
}

/// Texts joined together each stand in the whole.
pub proof fn lemma_joined_says(parts: Seq<Seq<char>>, sep: Seq<char>, i: int)
    requires
        0 <= i < parts.len(),
    ensures
        says(joined(parts, sep), parts[i]),
    decreases parts.len(),
{
    assert(parts[i].subrange(0, parts[i].len() as int) =~= parts[i]);
    assert(stands_at(parts[i], parts[i], 0));
    if parts.len() > 1 {
        let front = joined(parts.drop_last(), sep);
        let whole = joined(parts, sep);
        if i == parts.len() - 1 {
            lemma_says_part(front + sep, parts[i], Seq::empty(), parts[i]);
            assert(front + sep + parts[i] + Seq::<char>::empty() =~= whole);
        } else {
            lemma_joined_says(parts.drop_last(), sep, i);
            lemma_says_part(Seq::empty(), front, sep + parts.last(), parts[i]);
            assert(Seq::<char>::empty() + front + (sep + parts.last()) =~= whole);
        }
    }
}

// ---------------------------------------------------------------------------
// Laws
// ---------------------------------------------------------------------------

/// A text without the pattern is left as it is; where it first stands it is replaced,
/// what is before it stays, and what follows is searched in turn.
pub proof fn law_replacing_goes_left_to_right(s: Seq<char>, from: Seq<char>, to: Seq<char>)
    requires
        from.len() > 0,
    ensures
        match first_match(s, from) {
            None => replaced(s, from, to) == s,
            Some(i) => 0 <= i && i + from.len() <= s.len() && replaced(s, from, to) == s.take(i) + to
                + replaced(s.skip(i + from.len()), from, to),
        },
    decreases s.len(),
{
    if s.len() == 0 {
        assert(!has_prefix(s, from));
    } else if has_prefix(s, from) {
        assert(s.take(0) + to =~= to);
    } else {
        let rest = s.drop_first();
        law_replacing_goes_left_to_right(rest, from, to);
        match first_match(rest, from) {
            Some(i) => {
                assert(rest.skip(i + from.len()) =~= s.skip(i + 1 + from.len()));
                assert(seq![s[0]] + (rest.take(i) + to + replaced(
                    rest.skip(i + from.len()),
                    from,
                    to,
                )) =~= s.take(i + 1) + to + replaced(s.skip(i + 1 + from.len()), from, to));
            },
            None => {
                assert(seq![s[0]] + rest =~= s);
            },
        }
    }
}

proof fn lemma_spaced_joins(a: Seq<char>, c: char, b: Seq<char>)
    requires
        is_space(c),
    ensures
        spaced(a + seq![c] + b) == spaced(a) + spaced(b),
        spaced(b).len() > 0,
    decreases b.len(),
{
    let whole = a + seq![c] + b;
    if b.len() == 0 {
        assert(whole.drop_last() =~= a);
        assert(spaced(a).push(Seq::empty()) =~= spaced(a) + spaced(b));
    } else {
        lemma_spaced_joins(a, c, b.drop_last());
        assert(whole.drop_last() =~= a + seq![c] + b.drop_last());
        let before = spaced(b.drop_last());
        assert((spaced(a) + before).last() == before.last());
        assert(spaced(whole) =~= spaced(a) + spaced(b));
    }
}

proof fn lemma_one_word(word: Seq<char>)
    requires
        forall|i: int| 0 <= i < word.len() ==> !is_space(#[trigger] word[i]),
    ensures
        spaced(word) == seq![word],
    decreases word.len(),
{
    if word.len() > 0 {
        let front = word.drop_last();
        assert forall|i: int| 0 <= i < front.len() implies !is_space(#[trigger] front[i]) by {
            assert(front[i] == word[i]);
        }
        lemma_one_word(front);
        assert(!is_space(word[word.len() - 1]));
        assert(front.push(word.last()) =~= word);
        assert(spaced(word) =~= seq![word]);
    } else {
        assert(word =~= Seq::empty());
    }
}

/// White space of any kind sets words apart and is part of none; what has none in it is
/// one word.
pub proof fn law_words_are_set_apart(a: Seq<char>, c: char, b: Seq<char>, word: Seq<char>)
    requires
        is_space(c),
        word.len() > 0,
        forall|i: int| 0 <= i < word.len() ==> !is_space(#[trigger] word[i]),
    ensures
        words(a + seq![c] + b) == words(a) + words(b),
        words(word) == seq![word],
        words(Seq::empty()) == Seq::<Seq<char>>::empty(),
{
    let keep = |w: Seq<char>| w.len() > 0;
    lemma_spaced_joins(a, c, b);
    list::lemma_kept_joins(spaced(a), spaced(b), keep);
    lemma_one_word(word);
    list::lemma_kept_one(word, keep);
    list::lemma_kept_one(Seq::<char>::empty(), keep);
    assert(spaced(Seq::empty()) == seq![Seq::<char>::empty()]);
}

/// Of the plain characters the space, the tab, the line ends and the two between them
/// are white space. The wide, the narrow and the unbreakable space are too.
pub proof fn law_white_space(c: char)
    ensures
        (c as u32) < 128 ==> (is_space(c) <==> c as u32 == 32 || 9 <= c as u32 <= 13),
        is_space('\u{a0}') && is_space('\u{202f}') && is_space('\u{3000}'),
{
}

/// An item moved to the end of a list is there once and last, one taken out is not there,
/// and the others keep their order.
pub proof fn law_moving_leaves_the_others(
    front: Seq<Seq<char>>,
    back: Seq<Seq<char>>,
    item: Seq<char>,
)
    requires
        !front.contains(item),
        !back.contains(item),
    ensures
        moved(front + seq![item] + back, item, true) == front + back + seq![item],
        moved(front + seq![item] + back, item, false) == front + back,
        moved(front + back, item, true) == front + back + seq![item],
        moved(front + back, item, false) == front + back,
{
    let keep = differs(item);
    list::lemma_kept_joins(front + seq![item], back, keep);
    list::lemma_kept_joins(front, seq![item], keep);
    list::lemma_kept_joins(front, back, keep);
    list::lemma_kept_one(item, keep);
    assert forall|i: int| 0 <= i < front.len() implies keep(#[trigger] front[i]) by {
        assert(front.contains(front[i]));
    }
    assert forall|i: int| 0 <= i < back.len() implies keep(#[trigger] back[i]) by {
        assert(back.contains(back[i]));
    }
    list::lemma_kept_all(front, keep);
    list::lemma_kept_all(back, keep);
    assert(front + Seq::<Seq<char>>::empty() + back =~= front + back);
    assert((front + back).push(item) =~= front + back + seq![item]);
}

/// A text set to a width keeps all of itself, at the right or at the left, and spaces make up
/// what it lacks.
pub proof fn law_setting_pads_with_spaces(s: Seq<char>, width: nat)
    ensures
        right_set(s, width).len() == if s.len() >= width {
            s.len()
        } else {
            width
        },
        left_set(s, width).len() == right_set(s, width).len(),
        right_set(s, width).skip(right_set(s, width).len() - s.len()) == s,
        left_set(s, width).take(s.len() as int) == s,
        forall|i: int|
            0 <= i < right_set(s, width).len() - s.len() ==> #[trigger] right_set(s, width)[i]
                == ' ',
        forall|i: int|
            s.len() <= i < left_set(s, width).len() ==> #[trigger] left_set(s, width)[i] == ' ',
{
    assert(right_set(s, width).skip(right_set(s, width).len() - s.len()) =~= s);
    assert(left_set(s, width).take(s.len() as int) =~= s);
}

/// What stood on the two sides of the last separator comes back when the text is cut there.
pub proof fn law_cut_undoes_joining(a: Seq<char>, sep: char, b: Seq<char>)
    ensures
        !b.contains(sep) ==> cut_last(a + seq![sep] + b, sep) == Some((a, b)),
        !b.contains(sep) ==> cut_last(b, sep) is None,
{
    let whole = a + seq![sep] + b;
    let at = a.len() as int;
    if !b.contains(sep) {
        assert forall|j: int| at < j < whole.len() implies whole[j] != sep by {
            assert(whole[j] == b[j - at - 1]);
            assert(b.contains(b[j - at - 1]));
        }
        assert(whole[at] == sep);
        lemma_last_of(whole, sep, at);
        assert(whole.take(at) =~= a);
        assert(whole.skip(at + 1) =~= b);
        assert forall|j: int| -1 < j < b.len() implies b[j] != sep by {
            assert(b.contains(b[j]));
        }
        lemma_last_of(b, sep, -1);
    }
}

/// A line reads the same whether or not a carriage return closes it, and only one such is
/// taken off.
pub proof fn law_carriage_return_closes_a_line(s: Seq<char>)
    ensures
        line_end(s.push('\r')) == s,
        s.len() > 0 && s.last() != '\r' ==> line_end(s) == s,
        line_end(Seq::empty()) == Seq::<char>::empty(),
{
    assert(s.push('\r').drop_last() =~= s);
}

} // verus!
