//! Fuzzy matching, after fzf.
//!
//! The palette searches three corpora at once, open tabs, every command, and
//! browsing history, and they have to be ranked against each other, so they all
//! have to be scored the same way. A plain subsequence test is not enough: it
//! ranks `nav back` above `nav go` for the query "go", because `nav back`'s
//! description happens to begin "Go back in history".
//!
//! A match is worth a fixed amount, gaps cost, and position earns bonuses: most
//! at the start of a word, then at a camelCase hump, then for simply continuing
//! the previous match. That is what makes `gh` find `GitHub` and `enwiki` find
//! `en.wikipedia.org`.

use vstd::prelude::*;

use crate::text;

verus! {

/// A match is worth this much before any bonus.
pub const MATCH: i32 = 16;

/// Opening a gap between matched characters.
pub const GAP_START: i32 = -3;

/// Each further character of that gap.
pub const GAP_EXTENSION: i32 = -1;

/// First character of a word: after a separator, or the very beginning.
pub const BONUS_BOUNDARY: i32 = 8;

/// A lowercase-to-uppercase hump, or a letter after a digit.
pub const BONUS_CAMEL: i32 = 7;

/// Directly after the previous match.
pub const BONUS_CONSECUTIVE: i32 = 4;

/// Matching the very first character is worth more than matching a later one,
/// which is what makes a prefix beat a match buried in the middle.
pub const BONUS_FIRST_MULTIPLIER: i32 = 2;

/// The longest text that can be scored: beyond it a score need not fit.
pub const LONGEST: usize = 67_108_863;

/// What Unicode calls a small letter.
pub uninterp spec fn is_small(c: char) -> bool;

/// What Unicode calls a capital.
pub uninterp spec fn is_capital(c: char) -> bool;

/// What Unicode calls a letter.
pub uninterp spec fn is_letter(c: char) -> bool;

/// Calls `char::is_lowercase`, which goes by the character alone. Which
/// characters those are is a table of Unicode's, here called `is_small`.
#[verifier::external_body]
fn lowercase(c: char) -> (r: bool)
    ensures
        r == is_small(c),
{
    c.is_lowercase()
}

/// Calls `char::is_uppercase`, which goes by the character alone. Which
/// characters those are is a table of Unicode's, here called `is_capital`.
#[verifier::external_body]
fn uppercase(c: char) -> (r: bool)
    ensures
        r == is_capital(c),
{
    c.is_uppercase()
}

/// Calls `char::is_alphabetic`, which goes by the character alone. Which
/// characters those are is a table of Unicode's, here called `is_letter`.
#[verifier::external_body]
fn alphabetic(c: char) -> (r: bool)
    ensures
        r == is_letter(c),
{
    c.is_alphabetic()
}

/// What stands between words.
pub open spec fn separates(c: char) -> bool {
    c == ' ' || c == '/' || c == '-' || c == '_' || c == '.' || c == ':' || c == ',' || c == '?'
        || c == '&' || c == '=' || c == '#' || c == '+' || c == '\'' || c == '"'
}

/// What a match at a position is worth on top of [`MATCH`], given what stands
/// before it.
pub open spec fn bonus(chars: Seq<char>, at: int) -> int {
    if at == 0 || separates(chars[at - 1]) {
        BONUS_BOUNDARY as int
    } else if (is_small(chars[at - 1]) && is_capital(chars[at])) || ('0' <= chars[at - 1] <= '9'
        && is_letter(chars[at])) {
        BONUS_CAMEL as int
    } else {
        0
    }
}

/// Where a character first occurs at or after a position, whatever its case.
pub open spec fn next_spot(chars: Seq<char>, want: char, from: int) -> Option<int>
    decreases chars.len() - from,
{
    if from < 0 || from >= chars.len() {
        None
    } else if text::lower(chars[from]) == want {
        Some(from)
    } else {
        next_spot(chars, want, from + 1)
    }
}

/// Where each character of the needle is found, each as early as it can be.
pub open spec fn spots(chars: Seq<char>, needle: Seq<char>, from: int) -> Option<Seq<int>>
    decreases needle.len(),
{
    if needle.len() == 0 {
        Some(Seq::empty())
    } else {
        match spots(chars, needle.drop_last(), from) {
            Some(found) => {
                let at = if found.len() == 0 {
                    from
                } else {
                    found.last() + 1
                };
                match next_spot(chars, needle.last(), at) {
                    Some(i) => Some(found.push(i)),
                    None => None,
                }
            },
            None => None,
        }
    }
}

/// The bonus that the run of neighbouring matches a match belongs to has earned
/// so far. A word that starts inside the run can only make it better.
pub open spec fn run_bonus(chars: Seq<char>, found: Seq<int>, i: int) -> int
    decreases i,
{
    let own = bonus(chars, found[i]);
    if i <= 0 || found[i] != found[i - 1] + 1 {
        own
    } else {
        let before = run_bonus(chars, found, i - 1);
        if own >= BONUS_BOUNDARY && own > before {
            own
        } else {
            before
        }
    }
}

pub open spec fn larger(a: int, b: int) -> int {
    if a >= b {
        a
    } else {
        b
    }
}

/// What one match is worth.
pub open spec fn points(chars: Seq<char>, found: Seq<int>, i: int) -> int {
    let own = bonus(chars, found[i]);
    if i <= 0 {
        MATCH + own * BONUS_FIRST_MULTIPLIER
    } else if found[i] == found[i - 1] + 1 {
        MATCH + larger(larger(own, run_bonus(chars, found, i)), BONUS_CONSECUTIVE as int)
    } else {
        MATCH + own + GAP_START + GAP_EXTENSION * (found[i] - found[i - 1] - 2)
    }
}

/// What the first `n` matches are worth together.
pub open spec fn total(chars: Seq<char>, found: Seq<int>, n: int) -> int
    decreases n,
{
    if n <= 0 {
        0
    } else {
        total(chars, found, n - 1) + points(chars, found, n - 1)
    }
}

/// Where a pass over the text starts matching and what it is worth.
pub open spec fn pass(chars: Seq<char>, needle: Seq<char>, from: int) -> Option<(int, int)> {
    match spots(chars, needle, from) {
        Some(found) => Some((found[0], total(chars, found, found.len() as int))),
        None => None,
    }
}

/// The score of a needle against a text: the better of two passes, the second
/// starting past where the first began, less a little for the text's length.
pub open spec fn scored(haystack: Seq<char>, needle: Seq<char>) -> Option<int> {
    if needle.len() == 0 {
        Some(0)
    } else {
        match pass(haystack, needle, 0) {
            Some((start, first)) => {
                let best = match pass(haystack, needle, start + 1) {
                    Some((_, second)) => larger(first, second),
                    None => first,
                };
                Some(best - haystack.len() / 16)
            },
            None => None,
        }
    }
}

proof fn lemma_next_spot(chars: Seq<char>, want: char, from: int, at: int)
    requires
        0 <= from <= at <= chars.len(),
        forall|j: int| from <= j < at ==> text::lower(#[trigger] chars[j]) != want,
    ensures
        at < chars.len() && text::lower(chars[at]) == want ==> next_spot(chars, want, from)
            == Some(at),
        at == chars.len() ==> next_spot(chars, want, from) is None,
    decreases at - from,
{
    if from < at {
        assert(text::lower(chars[from]) != want);
        lemma_next_spot(chars, want, from + 1, at);
    }
}

proof fn lemma_next_spot_is_next(chars: Seq<char>, want: char, from: int)
    requires
        0 <= from,
    ensures
        match next_spot(chars, want, from) {
            Some(i) => from <= i < chars.len() && text::lower(chars[i]) == want && forall|j: int|
                from <= j < i ==> text::lower(#[trigger] chars[j]) != want,
            None => forall|j: int|
                from <= j < chars.len() ==> text::lower(#[trigger] chars[j]) != want,
        },
    decreases chars.len() - from,
{
    if from < chars.len() && text::lower(chars[from]) != want {
        lemma_next_spot_is_next(chars, want, from + 1);
    }
}

/// The needle fits no better by leaving out its end, and not at all if its front
/// does not fit.
proof fn lemma_spots_prefix(chars: Seq<char>, needle: Seq<char>, from: int, n: int)
    requires
        0 <= n <= needle.len(),
        spots(chars, needle.take(n), from) is None,
    ensures
        spots(chars, needle, from) is None,
    decreases needle.len() - n,
{
    if n < needle.len() {
        assert(needle.take(n + 1).drop_last() =~= needle.take(n));
        lemma_spots_prefix(chars, needle, from, n + 1);
    } else {
        assert(needle.take(n) =~= needle);
    }
}

/// Adding a match changes nothing of what came before it.
proof fn lemma_total_extends(chars: Seq<char>, found: Seq<int>, next: int, n: int)
    requires
        0 <= n <= found.len(),
    ensures
        total(chars, found.push(next), n) == total(chars, found, n),
        forall|i: int|
            0 <= i < n ==> run_bonus(chars, found.push(next), i) == #[trigger] run_bonus(
                chars,
                found,
                i,
            ),
    decreases n,
{
    if n > 0 {
        lemma_total_extends(chars, found, next, n - 1);
        lemma_run_extends(chars, found, next, n - 1);
        assert forall|i: int| 0 <= i < n implies run_bonus(chars, found.push(next), i)
            == #[trigger] run_bonus(chars, found, i) by {
            lemma_run_extends(chars, found, next, i);
        }
    }
}

proof fn lemma_run_extends(chars: Seq<char>, found: Seq<int>, next: int, i: int)
    requires
        0 <= i < found.len(),
    ensures
        run_bonus(chars, found.push(next), i) == run_bonus(chars, found, i),
    decreases i,
{
    if i > 0 {
        lemma_run_extends(chars, found, next, i - 1);
    }
}

fn is_separator(c: char) -> (r: bool)
    ensures
        r == separates(c),
{
    c == ' ' || c == '/' || c == '-' || c == '_' || c == '.' || c == ':' || c == ',' || c == '?' || c
        == '&' || c == '=' || c == '#' || c == '+' || c == '\'' || c == '"'
}

fn bonus_at(chars: &[char], index: usize) -> (r: i32)
    requires
        index < chars@.len(),
    ensures
        r == bonus(chars@, index as int),
        0 <= r <= 8,
{
    if index == 0 {
        return BONUS_BOUNDARY;
    }
    let prev = chars[index - 1];
    let cur = chars[index];
    if is_separator(prev) {
        BONUS_BOUNDARY
        // Both of these are the same kind of edge: a case change and a
        // digit-to-letter change each start a new word without a separator.
    } else if (lowercase(prev) && uppercase(cur)) || ('0' <= prev && prev <= '9' && alphabetic(cur)) {
        BONUS_CAMEL
    } else {
        0
    }
}

fn find_from(chars: &[char], want: char, from: usize) -> (r: Option<usize>)
    requires
        from <= chars@.len(),
    ensures
        match r {
            Some(i) => from <= i < chars@.len() && next_spot(chars@, want, from as int) == Some(
                i as int,
            ),
            None => next_spot(chars@, want, from as int) is None,
        },
{
    let mut i: usize = from;
    while i < chars.len()
        invariant
            from <= i <= chars.len(),
            forall|j: int| from <= j < i ==> text::lower(#[trigger] chars@[j]) != want,
        decreases chars.len() - i,
    {
        if text::lower_char(chars[i]) == want {
            proof {
                lemma_next_spot(chars@, want, from as int, i as int);
            }
            return Some(i);
        }
        i += 1;
    }
    proof {
        lemma_next_spot(chars@, want, from as int, i as int);
    }
    None
}

/// One greedy pass. Returns the index the match started at and its score.
fn forward(chars: &[char], needle: &[char], from: usize) -> (r: Option<(usize, i32)>)
    requires
        from <= chars@.len() <= LONGEST,
        needle@.len() > 0,
    ensures
        match r {
            Some((start, score)) => {
                &&& pass(chars@, needle@, from as int) == Some((start as int, score as int))
                &&& start < chars@.len()
                &&& -3 * chars@.len() <= score <= 32 * chars@.len()
            },
            None => pass(chars@, needle@, from as int) is None,
        },
{
    let mut score: i32 = 0;
    let mut start: usize = 0;
    let mut prev: usize = 0;
    // The bonus the current run of consecutive matches began with.
    let mut run: i32 = 0;
    let mut at: usize = from;
    let mut k: usize = 0;
    let ghost mut found: Seq<int> = Seq::empty();
    while k < needle.len()
        invariant
            from <= chars.len() <= LONGEST,
            k <= needle.len(),
            found.len() == k,
            spots(chars@, needle@.take(k as int), from as int) == Some(found),
            score == total(chars@, found, k as int),
            k == 0 ==> at == from && score == 0,
            k > 0 ==> at == prev + 1 && prev == found.last() && start == found[0] && run
                == run_bonus(chars@, found, k - 1),
            k > 0 ==> start < chars.len(),
            0 <= run <= 8,
            at <= chars.len(),
            -3 * at <= score <= 32 * at,
        decreases needle.len() - k,
    {
        let ghost front = needle@.take(k + 1);
        assert(front.drop_last() =~= needle@.take(k as int));
        let spot = match find_from(chars, needle[k], at) {
            Some(i) => i,
            None => {
                proof {
                    lemma_spots_prefix(chars@, needle@, from as int, k + 1);
                }
                return None;
            },
        };
        let own = bonus_at(chars, spot);
        let ghost more = found.push(spot as int);
        proof {
            lemma_total_extends(chars@, found, spot as int, k as int);
            if k > 0 {
                lemma_run_extends(chars@, found, spot as int, k - 1);
            }
        }
        if k == 0 {
            start = spot;
            run = own;
            score = MATCH + own * BONUS_FIRST_MULTIPLIER;
        } else if spot == prev + 1 {
            // Inside a run, every character inherits the bonus the run started
            // with. Without this, "z o o m" outscores "zoom" for the query
            // "zoom": each of its letters follows a space and so earns a
            // word-start bonus, while the letters of the real word earn only
            // the smaller consecutive bonus.
            if own >= BONUS_BOUNDARY && own > run {
                run = own;
            }
            let mut best = own;
            if run > best {
                best = run;
            }
            if BONUS_CONSECUTIVE > best {
                best = BONUS_CONSECUTIVE;
            }
            score = score + MATCH + best;
        } else {
            run = own;
            let gap: i32 = (spot - prev - 1) as i32;
            score = score + MATCH + own + GAP_START + GAP_EXTENSION * (gap - 1);
        }
        proof {
            found = more;
        }
        prev = spot;
        at = spot + 1;
        k += 1;
    }
    assert(needle@.take(k as int) =~= needle@);
    Some((start, score))
}

/// Score `needle` against `haystack`, or `None` when it does not match.
///
/// `needle` must already be lowercase; matching is case-insensitive.
///
/// Greedy: it takes the earliest match for each needle character, then runs
/// again from past the first match's start to catch the common case where a
/// later, tighter run scores better ("wiki" against "en.wikipedia.org" should
/// land on the word, not the stray `w`).
pub fn score(haystack: &str, needle: &str) -> (r: Option<i32>)
    requires
        haystack@.len() <= LONGEST,
    ensures
        match r {
            Some(n) => scored(haystack@, needle@) == Some(n as int),
            None => scored(haystack@, needle@) is None,
        },
{
    let wanted = text::chars_of(needle);
    if wanted.len() == 0 {
        return Some(0);
    }
    let chars = text::chars_of(haystack);
    let (start, first) = match forward(&chars, &wanted, 0) {
        Some(found) => found,
        None => return None,
    };
    // Anchored past the first matched character: if the same needle also
    // matches later, the later run is usually the tighter one.
    let best = match forward(&chars, &wanted, start + 1) {
        Some((_, second)) => if second > first {
            second
        } else {
            first
        },
        None => first,
    };
    // Shorter haystacks win ties, so an exact command name beats a long
    // description that happens to contain the same letters.
    let length: i32 = chars.len() as i32;
    Some(best - length / 16)
}

// ---------------------------------------------------------------------------
// Laws
// ---------------------------------------------------------------------------

/// Whether positions spell a needle out in a text, in order, whatever the case.
pub open spec fn spells(chars: Seq<char>, needle: Seq<char>, from: int, at: Seq<int>) -> bool {
    &&& at.len() == needle.len()
    &&& forall|i: int|
        0 <= i < at.len() ==> from <= #[trigger] at[i] < chars.len() && text::lower(chars[at[i]])
            == needle[i]
    &&& forall|i: int, j: int| 0 <= i < j < at.len() ==> #[trigger] at[i] < #[trigger] at[j]
}

proof fn lemma_spots_spell(chars: Seq<char>, needle: Seq<char>, from: int)
    requires
        0 <= from,
    ensures
        spots(chars, needle, from) matches Some(found) ==> spells(chars, needle, from, found),
    decreases needle.len(),
{
    if needle.len() > 0 {
        let front = needle.drop_last();
        lemma_spots_spell(chars, front, from);
        match spots(chars, front, from) {
            Some(found) => {
                let at = if found.len() == 0 {
                    from
                } else {
                    found.last() + 1
                };
                lemma_next_spot_is_next(chars, needle.last(), at);
                match next_spot(chars, needle.last(), at) {
                    Some(i) => {
                        let more = found.push(i);
                        assert forall|k: int| 0 <= k < more.len() implies from <= #[trigger] more[k]
                            < chars.len() && text::lower(chars[more[k]]) == needle[k] by {
                            if k < found.len() {
                                assert(more[k] == found[k]);
                                assert(front[k] == needle[k]);
                            }
                        }
                        assert forall|a: int, b: int| 0 <= a < b < more.len() implies
                            #[trigger] more[a] < #[trigger] more[b] by {
                            assert(more[a] == found[a]);
                            if b < found.len() {
                                assert(more[b] == found[b]);
                            } else if a < found.len() - 1 {
                                assert(found[a] < found[found.len() - 1]);
                            }
                        }
                    },
                    None => {},
                }
            },
            None => {},
        }
    }
}

/// The early bird's positions are never past anybody else's.
proof fn lemma_spots_are_earliest(chars: Seq<char>, needle: Seq<char>, from: int, at: Seq<int>)
    requires
        0 <= from,
        spells(chars, needle, from, at),
    ensures
        spots(chars, needle, from) is Some,
        needle.len() > 0 ==> spots(chars, needle, from).unwrap().len() == needle.len()
            && spots(chars, needle, from).unwrap().last() <= at.last(),
    decreases needle.len(),
{
    if needle.len() > 0 {
        let front = needle.drop_last();
        let short = at.drop_last();
        assert forall|i: int| 0 <= i < short.len() implies from <= #[trigger] short[i]
            < chars.len() && text::lower(chars[short[i]]) == front[i] by {
            assert(short[i] == at[i]);
            assert(front[i] == needle[i]);
        }
        assert forall|a: int, b: int| 0 <= a < b < short.len() implies #[trigger] short[a]
            < #[trigger] short[b] by {
            assert(short[a] == at[a] && short[b] == at[b]);
        }
        lemma_spots_are_earliest(chars, front, from, short);
        lemma_spots_spell(chars, front, from);
        let found = spots(chars, front, from).unwrap();
        let next = if found.len() == 0 {
            from
        } else {
            found.last() + 1
        };
        let last = at[at.len() - 1];
        assert(text::lower(chars[last]) == needle.last());
        if found.len() > 0 {
            assert(found.last() <= short.last());
            assert(at[at.len() - 2] < at[at.len() - 1]);
            assert(found[found.len() - 1] >= from);
        }
        lemma_next_spot_is_next(chars, needle.last(), next);
        assert(text::lower(chars[last]) == needle.last());
    }
}

/// A needle scores exactly when its characters stand in the text in order,
/// whatever the case of the text.
pub proof fn law_scores_iff_spelled(haystack: Seq<char>, needle: Seq<char>)
    ensures
        scored(haystack, needle) is Some <==> exists|at: Seq<int>|
            spells(haystack, needle, 0, at),
{
    lemma_spots_spell(haystack, needle, 0);
    if needle.len() == 0 {
        assert(spells(haystack, needle, 0, Seq::empty()));
    } else {
        match spots(haystack, needle, 0) {
            Some(found) => {
                assert(spells(haystack, needle, 0, found));
            },
            None => {
                assert forall|at: Seq<int>| !spells(haystack, needle, 0, at) by {
                    if spells(haystack, needle, 0, at) {
                        lemma_spots_are_earliest(haystack, needle, 0, at);
                    }
                }
            },
        }
    }
}

/// What a place in a text is worth for being the edge of a word: most at the very
/// beginning and after one of the characters that stand between words, nearly as
/// much where a capital follows a small letter or a letter follows a digit, and
/// nothing inside a word.
pub open spec fn edge(chars: Seq<char>, at: int) -> int {
    if at == 0 || " /-_.:,?&=#+'\""@.contains(chars[at - 1]) {
        8
    } else if is_small(chars[at - 1]) && is_capital(chars[at]) {
        7
    } else if "0123456789"@.contains(chars[at - 1]) && is_letter(chars[at]) {
        7
    } else {
        0
    }
}

proof fn lemma_edge(chars: Seq<char>, at: int)
    ensures
        bonus(chars, at) == edge(chars, at),
{
    reveal_strlit(" /-_.:,?&=#+'\"");
    reveal_strlit("0123456789");
    let between = " /-_.:,?&=#+'\""@;
    let digits = "0123456789"@;
    let c = chars[at - 1];
    assert(between =~= seq![
        ' ',
        '/',
        '-',
        '_',
        '.',
        ':',
        ',',
        '?',
        '&',
        '=',
        '#',
        '+',
        '\'',
        '"',
    ]);
    assert(between[0] == ' ' && between[1] == '/' && between[2] == '-' && between[3] == '_'
        && between[4] == '.' && between[5] == ':' && between[6] == ',' && between[7] == '?');
    assert(between[8] == '&' && between[9] == '=' && between[10] == '#' && between[11] == '+'
        && between[12] == '\'' && between[13] == '"');
    assert(between.contains(c) <==> separates(c));
    assert(digits =~= seq!['0', '1', '2', '3', '4', '5', '6', '7', '8', '9']);
    assert(digits[0] == '0' && digits[1] == '1' && digits[2] == '2' && digits[3] == '3'
        && digits[4] == '4' && digits[5] == '5' && digits[6] == '6' && digits[7] == '7'
        && digits[8] == '8' && digits[9] == '9');
    assert(digits.contains(c) <==> '0' <= c <= '9');
}

/// Whether a needle stands in a text unbroken, from `at` on, whatever its case.
pub open spec fn stands_unbroken(chars: Seq<char>, needle: Seq<char>, at: int) -> bool {
    &&& 0 <= at
    &&& at + needle.len() <= chars.len()
    &&& forall|i: int| 0 <= i < needle.len() ==> text::lower(chars[at + i]) == #[trigger] needle[i]
}

/// Whether a letter stands nowhere from one place up to another, whatever its case.
pub open spec fn absent(chars: Seq<char>, want: char, from: int, to: int) -> bool {
    forall|j: int| from <= j < to ==> text::lower(#[trigger] chars[j]) != want
}

/// Neighbouring places, from `at` on.
spec fn neighbours(at: int, n: nat) -> Seq<int> {
    Seq::new(n, |i: int| at + i)
}

proof fn lemma_run_spots(chars: Seq<char>, needle: Seq<char>, from: int, at: int, n: nat)
    requires
        0 <= from <= at,
        0 < n <= needle.len(),
        stands_unbroken(chars, needle, at),
        absent(chars, needle[0], from, at),
    ensures
        spots(chars, needle.take(n as int), from) == Some(neighbours(at, n)),
    decreases n,
{
    let front = needle.take(n as int);
    assert(front.drop_last() =~= needle.take(n - 1));
    assert(front.last() == needle[n - 1]);
    if n == 1 {
        assert(needle.take(0).len() == 0);
        assert(text::lower(chars[at + 0]) == needle[0]);
        lemma_next_spot(chars, needle[0], from, at);
        assert(Seq::<int>::empty().push(at) =~= neighbours(at, 1));
    } else {
        lemma_run_spots(chars, needle, from, at, (n - 1) as nat);
        let found = neighbours(at, (n - 1) as nat);
        assert(found.last() + 1 == at + (n - 1));
        assert(text::lower(chars[at + (n - 1)]) == needle[n - 1]);
        assert(found.push(at + (n - 1)) =~= neighbours(at, n));
    }
}

proof fn lemma_run_worth(chars: Seq<char>, at: int, len: nat, n: int)
    requires
        0 < n <= len,
        0 <= at,
    ensures
        run_bonus(chars, neighbours(at, len), n - 1) >= bonus(chars, at),
        total(chars, neighbours(at, len), n) >= 16 + 2 * bonus(chars, at) + (n - 1) * (16 + larger(
            bonus(chars, at),
            4,
        )),
    decreases n,
{
    let found = neighbours(at, len);
    assert(found[0] == at);
    if n == 1 {
        assert(total(chars, found, 0) == 0);
        assert(total(chars, found, 1) == points(chars, found, 0));
    } else {
        lemma_run_worth(chars, at, len, n - 1);
        let each = 16 + larger(bonus(chars, at), 4);
        assert(found[n - 1] == found[n - 2] + 1);
        assert(points(chars, found, n - 1) >= each);
        assert((n - 2) * each + each == (n - 1) * each) by (nonlinear_arith);
    }
}

proof fn lemma_total_at_most(chars: Seq<char>, found: Seq<int>, n: int)
    requires
        0 <= n <= found.len(),
        forall|i: int, j: int| 0 <= i < j < found.len() ==> #[trigger] found[i] < #[trigger] found[j],
    ensures
        n > 0 ==> total(chars, found, n) <= 8 + 24 * n,
        n > 0 ==> run_bonus(chars, found, n - 1) <= 8,
        n == 0 ==> total(chars, found, n) == 0,
    decreases n,
{
    if n > 0 {
        lemma_total_at_most(chars, found, n - 1);
        if n > 1 {
            assert(found[n - 2] < found[n - 1]);
        }
    }
}

/// The needle standing unbroken in the text, at or just past where its first letter
/// first stands, is worth at least what its letters earn there: twice the edge for
/// the first, and for each that follows the edge again, or four inside a word. A
/// longer text costs a little.
pub proof fn law_unbroken_run_is_worth(haystack: Seq<char>, needle: Seq<char>, first: int, at: int)
    requires
        needle.len() > 0,
        stands_unbroken(haystack, needle, at),
        0 <= first <= at,
        text::lower(haystack[first]) == needle[0],
        absent(haystack, needle[0], 0, first),
        absent(haystack, needle[0], first + 1, at),
    ensures
        scored(haystack, needle) is Some,
        scored(haystack, needle)->0 >= 16 + 2 * edge(haystack, at) + (needle.len() - 1) * (16
            + larger(edge(haystack, at), 4)) - haystack.len() / 16,
{
    let len = needle.len();
    lemma_edge(haystack, at);
    lemma_next_spot(haystack, needle[0], 0, first);
    let from = if at == first {
        0
    } else {
        first + 1
    };
    lemma_run_spots(haystack, needle, from, at, len);
    assert(needle.take(len as int) =~= needle);
    lemma_run_worth(haystack, at, len, len as int);
    assert(spells(haystack, needle, 0, neighbours(at, len))) by {
        assert forall|i: int| 0 <= i < len implies 0 <= #[trigger] neighbours(at, len)[i]
            < haystack.len() && text::lower(haystack[neighbours(at, len)[i]]) == needle[i] by {
            assert(text::lower(haystack[at + i]) == needle[i]);
        }
    }
    lemma_spots_are_earliest(haystack, needle, 0, neighbours(at, len));
    lemma_first_spot(haystack, needle, 0);
    lemma_spots_spell(haystack, needle, 0);
    assert(spots(haystack, needle, 0)->0[0] == first);
}

/// The first place found is where the first letter first stands.
proof fn lemma_first_spot(chars: Seq<char>, needle: Seq<char>, from: int)
    requires
        0 <= from,
        needle.len() > 0,
    ensures
        spots(chars, needle, from) matches Some(found) ==> found.len() == needle.len()
            && next_spot(chars, needle[0], from) == Some(found[0]),
    decreases needle.len(),
{
    lemma_spots_spell(chars, needle, from);
    if needle.len() > 1 {
        lemma_first_spot(chars, needle.drop_last(), from);
    } else {
        assert(needle.drop_last().len() == 0);
    }
}

/// Nothing beats the needle standing at the start of a word: that is worth
/// twenty-four a letter and eight more for the first, less a little for the length
/// of the text, and no match of any kind is worth more.
pub proof fn law_nothing_beats_a_word(haystack: Seq<char>, needle: Seq<char>)
    requires
        needle.len() > 0,
    ensures
        scored(haystack, needle) matches Some(score) ==> score <= 8 + 24 * needle.len()
            - haystack.len() / 16,
        forall|first: int, at: int|
            {
                &&& stands_unbroken(haystack, needle, at)
                &&& 0 <= first <= at
                &&& text::lower(haystack[first]) == needle[0]
                &&& #[trigger] absent(haystack, needle[0], 0, first)
                &&& #[trigger] absent(haystack, needle[0], first + 1, at)
                &&& edge(haystack, at) == 8
            } ==> scored(haystack, needle) == Some(8 + 24 * needle.len() - haystack.len() / 16),
{
    lemma_spots_spell(haystack, needle, 0);
    if let Some(found) = spots(haystack, needle, 0) {
        lemma_total_at_most(haystack, found, found.len() as int);
        lemma_spots_spell(haystack, needle, found[0] + 1);
        if let Some(later) = spots(haystack, needle, found[0] + 1) {
            lemma_total_at_most(haystack, later, later.len() as int);
        }
    }
    assert forall|first: int, at: int|
        {
            &&& stands_unbroken(haystack, needle, at)
            &&& 0 <= first <= at
            &&& text::lower(haystack[first]) == needle[0]
            &&& #[trigger] absent(haystack, needle[0], 0, first)
            &&& #[trigger] absent(haystack, needle[0], first + 1, at)
            &&& edge(haystack, at) == 8
        } implies scored(haystack, needle) == Some(
        8 + 24 * needle.len() - haystack.len() / 16,
    ) by {
        law_unbroken_run_is_worth(haystack, needle, first, at);
        let rest = needle.len() - 1;
        let each = 16 + larger(edge(haystack, at), 4);
        assert(rest * each == 24 * rest) by (nonlinear_arith)
            requires
                each == 24,
        ;
    }
}

/// One letter alone is worth sixteen and twice the edge it stands at, the better of
/// the first two places it stands in.
pub proof fn law_one_letter(haystack: Seq<char>, letter: char, first: int, second: int)
    requires
        0 <= first < second <= haystack.len(),
        text::lower(haystack[first]) == letter,
        absent(haystack, letter, 0, first),
        absent(haystack, letter, first + 1, second),
        second < haystack.len() ==> text::lower(haystack[second]) == letter,
    ensures
        scored(haystack, seq![letter]) == Some(
            16 + 2 * (if second < haystack.len() {
                larger(edge(haystack, first), edge(haystack, second))
            } else {
                edge(haystack, first)
            }) - haystack.len() / 16,
        ),
{
    let needle = seq![letter];
    lemma_edge(haystack, first);
    lemma_edge(haystack, second);
    lemma_next_spot(haystack, letter, 0, first);
    lemma_next_spot(haystack, letter, first + 1, second);
    assert(needle.drop_last() =~= Seq::empty());
    assert(needle.last() == letter);
    assert(spots(haystack, Seq::empty(), 0) == Some(Seq::<int>::empty()));
    assert(spots(haystack, Seq::empty(), first + 1) == Some(Seq::<int>::empty()));
    let one = Seq::<int>::empty().push(first);
    assert(spots(haystack, needle, 0) == Some(one));
    assert(total(haystack, one, 0) == 0);
    assert(total(haystack, one, 1) == points(haystack, one, 0));
    if second < haystack.len() {
        let two = Seq::<int>::empty().push(second);
        assert(spots(haystack, needle, first + 1) == Some(two));
        assert(total(haystack, two, 0) == 0);
        assert(total(haystack, two, 1) == points(haystack, two, 0));
    } else {
        assert(spots(haystack, needle, first + 1) is None);
    }
}

/// Two letters with something between them: the first is worth what it is alone, the
/// second sixteen and its edge, and the gap costs three and one more for each further
/// letter in it. With nothing between them there is no gap to pay for, and the second
/// is worth the better of the two edges, or four.
pub proof fn law_gap_costs(between: Seq<char>, a: char, b: char)
    requires
        text::lower(a) == a,
        text::lower(b) == b,
        a != b,
        absent(between, a, 0, between.len() as int),
        absent(between, b, 0, between.len() as int),
    ensures
        ({
            let text = seq![a] + between + seq![b];
            let end = text.len() - 1;
            scored(text, seq![a, b]) == Some(
                32 + 16 + (if between.len() == 0 {
                    8
                } else {
                    edge(text, end) - 3 - (between.len() - 1)
                }) - text.len() / 16,
            )
        }),
{
    let text = seq![a] + between + seq![b];
    let end = text.len() - 1;
    let needle = seq![a, b];
    assert forall|j: int| 1 <= j < end implies text::lower(#[trigger] text[j]) != a
        && text::lower(text[j]) != b by {
        assert(text[j] == between[j - 1]);
    }
    assert(text[0] == a && text[end] == b);
    lemma_edge(text, 0);
    lemma_edge(text, end);
    lemma_next_spot(text, a, 0, 0);
    lemma_next_spot(text, b, 1, end);
    lemma_next_spot(text, a, 1, text.len() as int);
    let one = seq![a];
    assert(needle.drop_last() =~= one);
    assert(one.drop_last() =~= Seq::empty());
    assert(spots(text, one.drop_last(), 0) == Some(Seq::<int>::empty()));
    let front = Seq::<int>::empty().push(0);
    assert(spots(text, one, 0) == Some(front));
    let found = front.push(end);
    assert(spots(text, needle, 0) == Some(found));
    assert(spots(text, one.drop_last(), 1) == Some(Seq::<int>::empty()));
    assert(spots(text, one, 1) is None);
    assert(spots(text, needle, 1) is None);
    assert(found[0] == 0 && found[1] == end);
    assert(total(text, found, 0) == 0);
    assert(total(text, found, 1) == points(text, found, 0));
    assert(total(text, found, 2) == points(text, found, 0) + points(text, found, 1));
    assert(run_bonus(text, found, 0) == 8);
    assert(bonus(text, end) <= 8);
}

/// An empty needle matches everything, and earns nothing.
pub proof fn law_empty_needle_matches(haystack: Seq<char>)
    ensures
        scored(haystack, Seq::empty()) == Some(0int),
{
}

} // verus!
