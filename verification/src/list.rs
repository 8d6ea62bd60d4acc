//! Lists as sequences: keeping some of the items, and finding one.

use vstd::prelude::*;

verus! {

/// The items that `keep` holds of, in the order they stood in.
pub open spec fn kept<T>(s: Seq<T>, keep: spec_fn(T) -> bool) -> Seq<T>
    decreases s.len(),
{
    if s.len() == 0 {
        Seq::empty()
    } else {
        let front = kept(s.drop_last(), keep);
        if keep(s.last()) {
            front.push(s.last())
        } else {
            front
        }
    }
}

/// The items, each where it first stands and not again.
pub open spec fn distinct<T>(s: Seq<T>) -> Seq<T>
    decreases s.len(),
{
    if s.len() == 0 {
        Seq::empty()
    } else {
        let front = distinct(s.drop_last());
        if front.contains(s.last()) {
            front
        } else {
            front.push(s.last())
        }
    }
}

/// Taking each item once loses none and repeats none.
pub proof fn lemma_distinct<T>(s: Seq<T>)
    ensures
        distinct(s).no_duplicates(),
        forall|x: T| #[trigger] distinct(s).contains(x) <==> s.contains(x),
    decreases s.len(),
{
    if s.len() > 0 {
        let front = s.drop_last();
        lemma_distinct(front);
        assert forall|x: T| #[trigger] distinct(s).contains(x) <==> s.contains(x) by {
            if s.contains(x) {
                let i = choose|i: int| 0 <= i < s.len() && s[i] == x;
                if i < front.len() {
                    assert(front[i] == x);
                }
                if front.contains(x) {
                    assert(distinct(front).contains(x));
                    let k = choose|k: int|
                        0 <= k < distinct(front).len() && distinct(front)[k] == x;
                    assert(distinct(s)[k] == x);
                } else {
                    assert(x == s.last());
                    assert(distinct(s).last() == x);
                }
            }
            if distinct(s).contains(x) {
                let k = choose|k: int| 0 <= k < distinct(s).len() && distinct(s)[k] == x;
                if x != s.last() {
                    assert(distinct(front)[k] == x);
                    assert(distinct(front).contains(x));
                    let i = choose|i: int| 0 <= i < front.len() && front[i] == x;
                    assert(s[i] == x);
                } else {
                    assert(s[s.len() - 1] == x);
                }
            }
        }
    }
}

/// Keeping some of the items keeps as many of each, whatever order they stand in.
pub proof fn lemma_kept_multiset<T>(s: Seq<T>, keep: spec_fn(T) -> bool)
    ensures
        kept(s, keep).to_multiset() == s.to_multiset().filter(keep),
    decreases s.len(),
{
    broadcast use vstd::multiset::group_multiset_axioms;
    broadcast use vstd::seq_lib::group_to_multiset_ensures;

    if s.len() == 0 {
        assert(s.to_multiset() =~= vstd::multiset::Multiset::empty());
        assert(kept(s, keep).to_multiset() =~= s.to_multiset().filter(keep));
    } else {
        let front = s.drop_last();
        lemma_kept_multiset(front, keep);
        assert(front.push(s.last()) =~= s);
        assert(kept(s, keep).to_multiset() =~= s.to_multiset().filter(keep));
    }
}

/// What each item reads as, leaving out those that read as nothing.
pub open spec fn collected<S, T>(s: Seq<S>, read: spec_fn(S) -> Option<T>) -> Seq<T>
    decreases s.len(),
{
    if s.len() == 0 {
        Seq::empty()
    } else {
        let front = collected(s.drop_last(), read);
        match read(s.last()) {
            Some(t) => front.push(t),
            None => front,
        }
    }
}

/// The first position at which `want` holds.
pub open spec fn first_where<T>(s: Seq<T>, want: spec_fn(T) -> bool) -> Option<int>
    decreases s.len(),
{
    if s.len() == 0 {
        None
    } else if want(s[0]) {
        Some(0)
    } else {
        match first_where(s.drop_first(), want) {
            Some(i) => Some(i + 1),
            None => None,
        }
    }
}

/// The last position at which `want` holds.
pub open spec fn last_where<T>(s: Seq<T>, want: spec_fn(T) -> bool) -> Option<int>
    decreases s.len(),
{
    if s.len() == 0 {
        None
    } else if want(s.last()) {
        Some(s.len() - 1)
    } else {
        last_where(s.drop_last(), want)
    }
}

/// No more than `n` items from the front.
pub open spec fn at_most<T>(s: Seq<T>, n: nat) -> Seq<T> {
    if s.len() <= n {
        s
    } else {
        s.take(n as int)
    }
}

/// A position where `want` holds with none before it is the first.
pub proof fn lemma_first_where<T>(s: Seq<T>, want: spec_fn(T) -> bool, at: int)
    requires
        0 <= at <= s.len(),
        forall|j: int| 0 <= j < at ==> !want(#[trigger] s[j]),
    ensures
        at < s.len() && want(s[at]) ==> first_where(s, want) == Some(at),
        at == s.len() ==> first_where(s, want) is None,
    decreases s.len(),
{
    if s.len() > 0 && at > 0 {
        let rest = s.drop_first();
        assert(!want(s[0]));
        assert forall|j: int| 0 <= j < at - 1 implies !want(#[trigger] rest[j]) by {
            assert(rest[j] == s[j + 1]);
        }
        lemma_first_where(rest, want, at - 1);
        if at < s.len() {
            assert(rest[at - 1] == s[at]);
        }
    }
}

/// What the first position is, and what its absence means.
pub proof fn lemma_first_where_is_first<T>(s: Seq<T>, want: spec_fn(T) -> bool)
    ensures
        match first_where(s, want) {
            Some(i) => 0 <= i < s.len() && want(s[i]) && forall|j: int|
                0 <= j < i ==> !want(#[trigger] s[j]),
            None => forall|j: int| 0 <= j < s.len() ==> !want(#[trigger] s[j]),
        },
    decreases s.len(),
{
    if s.len() > 0 && !want(s[0]) {
        let rest = s.drop_first();
        lemma_first_where_is_first(rest, want);
        assert forall|j: int| 0 < j < s.len() implies #[trigger] s[j] == rest[j - 1] by {}
    }
}

/// A position where `want` holds with none after it is the last.
pub proof fn lemma_last_where<T>(s: Seq<T>, want: spec_fn(T) -> bool, at: int)
    requires
        -1 <= at < s.len(),
        forall|j: int| at < j < s.len() ==> !want(#[trigger] s[j]),
    ensures
        at >= 0 && want(s[at]) ==> last_where(s, want) == Some(at),
        at == -1 ==> last_where(s, want) is None,
    decreases s.len(),
{
    if s.len() > 0 && at < s.len() - 1 {
        let front = s.drop_last();
        assert(!want(s[s.len() - 1]));
        assert forall|j: int| at < j < front.len() implies !want(#[trigger] front[j]) by {
            assert(front[j] == s[j]);
        }
        lemma_last_where(front, want, at);
        if at >= 0 {
            assert(front[at] == s[at]);
        }
    }
}

/// What the last position is, and what its absence means.
pub proof fn lemma_last_where_is_last<T>(s: Seq<T>, want: spec_fn(T) -> bool)
    ensures
        match last_where(s, want) {
            Some(i) => 0 <= i < s.len() && want(s[i]) && forall|j: int|
                i < j < s.len() ==> !want(#[trigger] s[j]),
            None => forall|j: int| 0 <= j < s.len() ==> !want(#[trigger] s[j]),
        },
    decreases s.len(),
{
    if s.len() > 0 && !want(s.last()) {
        let front = s.drop_last();
        lemma_last_where_is_last(front, want);
        assert forall|j: int| 0 <= j < front.len() implies #[trigger] s[j] == front[j] by {}
    }
}

/// Every item that is kept was there and is wanted, and nothing wanted is lost.
pub proof fn lemma_kept<T>(s: Seq<T>, keep: spec_fn(T) -> bool)
    ensures
        kept(s, keep).len() <= s.len(),
        forall|i: int|
            0 <= i < kept(s, keep).len() ==> keep(#[trigger] kept(s, keep)[i]) && s.contains(
                kept(s, keep)[i],
            ),
        forall|i: int|
            0 <= i < s.len() && keep(#[trigger] s[i]) ==> kept(s, keep).contains(s[i]),
    decreases s.len(),
{
    if s.len() > 0 {
        let front = s.drop_last();
        lemma_kept(front, keep);
        let out = kept(s, keep);
        let inner = kept(front, keep);
        assert forall|i: int| 0 <= i < out.len() implies keep(#[trigger] out[i]) && s.contains(
            out[i],
        ) by {
            if i < inner.len() {
                assert(out[i] == inner[i]);
                let k = choose|k: int| 0 <= k < front.len() && front[k] == inner[i];
                assert(s[k] == inner[i]);
            } else {
                assert(out[i] == s[s.len() - 1]);
            }
        }
        assert forall|i: int| 0 <= i < s.len() && keep(#[trigger] s[i]) implies out.contains(
            s[i],
        ) by {
            if i < front.len() {
                assert(front[i] == s[i]);
                let k = choose|k: int| 0 <= k < inner.len() && inner[k] == s[i];
                assert(out[k] == s[i]);
            } else {
                assert(out[out.len() - 1] == s[i]);
            }
        }
    }
}

/// Keeping some of two lists joined is keeping some of each and joining those.
pub proof fn lemma_kept_joins<T>(a: Seq<T>, b: Seq<T>, keep: spec_fn(T) -> bool)
    ensures
        kept(a + b, keep) == kept(a, keep) + kept(b, keep),
    decreases b.len(),
{
    if b.len() == 0 {
        assert(a + b =~= a);
        assert(kept(a, keep) + kept(b, keep) =~= kept(a, keep));
    } else {
        assert((a + b).drop_last() =~= a + b.drop_last());
        lemma_kept_joins(a, b.drop_last(), keep);
        assert(kept(a + b, keep) =~= kept(a, keep) + kept(b, keep));
    }
}

/// Where every item is wanted, all of them are kept.
pub proof fn lemma_kept_all<T>(s: Seq<T>, keep: spec_fn(T) -> bool)
    requires
        forall|i: int| 0 <= i < s.len() ==> keep(#[trigger] s[i]),
    ensures
        kept(s, keep) == s,
    decreases s.len(),
{
    if s.len() > 0 {
        let front = s.drop_last();
        assert forall|i: int| 0 <= i < front.len() implies keep(#[trigger] front[i]) by {
            assert(front[i] == s[i]);
        }
        lemma_kept_all(front, keep);
        assert(keep(s[s.len() - 1]));
    }
    assert(kept(s, keep) =~= s);
}

/// One item alone is kept or it is not.
pub proof fn lemma_kept_one<T>(item: T, keep: spec_fn(T) -> bool)
    ensures
        kept(seq![item], keep) == if keep(item) {
            seq![item]
        } else {
            Seq::empty()
        },
{
    let one = seq![item];
    assert(one.drop_last() =~= Seq::empty());
    assert(kept(one.drop_last(), keep) =~= Seq::empty());
    assert(kept(one, keep) =~= if keep(item) {
        seq![item]
    } else {
        Seq::empty()
    });
}

/// Looking for something that is kept finds the same item with and without the
/// rest.
pub proof fn lemma_kept_first<T>(s: Seq<T>, keep: spec_fn(T) -> bool, want: spec_fn(T) -> bool)
    requires
        forall|t: T| #[trigger] want(t) ==> keep(t),
    ensures
        match (first_where(s, want), first_where(kept(s, keep), want)) {
            (Some(i), Some(k)) => s[i] == kept(s, keep)[k],
            (None, None) => true,
            _ => false,
        },
    decreases s.len(),
{
    if s.len() > 0 {
        let front = s.drop_last();
        let inner = kept(front, keep);
        let out = kept(s, keep);
        lemma_kept_first(front, keep, want);
        lemma_first_where_is_first(front, want);
        lemma_first_where_is_first(inner, want);
        match first_where(front, want) {
            Some(i) => {
                assert forall|j: int| 0 <= j < i implies !want(#[trigger] s[j]) by {
                    assert(s[j] == front[j]);
                }
                lemma_first_where(s, want, i);
                let k = first_where(inner, want).unwrap();
                assert forall|j: int| 0 <= j < k implies !want(#[trigger] out[j]) by {
                    assert(out[j] == inner[j]);
                }
                lemma_first_where(out, want, k);
            },
            None => {
                let last = s.len() - 1;
                assert forall|j: int| 0 <= j < last implies !want(#[trigger] s[j]) by {
                    assert(s[j] == front[j]);
                }
                assert forall|j: int| 0 <= j < inner.len() implies !want(#[trigger] out[j]) by {
                    assert(out[j] == inner[j]);
                }
                if want(s[last]) {
                    lemma_first_where(s, want, last);
                    lemma_first_where(out, want, inner.len() as int);
                } else {
                    lemma_first_where(s, want, s.len() as int);
                    lemma_first_where(out, want, out.len() as int);
                }
            },
        }
    }
}

/// Putting an item in front of the rest: it is found first if it is wanted, and
/// otherwise the search goes on behind it.
pub proof fn lemma_first_in_front<T>(item: T, rest: Seq<T>, want: spec_fn(T) -> bool)
    ensures
        first_where(seq![item] + rest, want) == if want(item) {
            Some(0)
        } else {
            match first_where(rest, want) {
                Some(i) => Some(i + 1),
                None => None,
            }
        },
{
    assert((seq![item] + rest).drop_first() =~= rest);
}

/// Reading items one by one that all read as something gives one for each.
pub proof fn lemma_collected_all<S, T>(s: Seq<S>, read: spec_fn(S) -> Option<T>, out: Seq<T>)
    requires
        s.len() == out.len(),
        forall|i: int| 0 <= i < s.len() ==> read(#[trigger] s[i]) == Some(out[i]),
    ensures
        collected(s, read) == out,
    decreases s.len(),
{
    if s.len() > 0 {
        let front = s.drop_last();
        assert forall|i: int| 0 <= i < front.len() implies read(#[trigger] front[i]) == Some(
            out.drop_last()[i],
        ) by {
            assert(front[i] == s[i]);
        }
        lemma_collected_all(front, read, out.drop_last());
        assert(read(s[s.len() - 1]) == Some(out.last()));
        assert(collected(s, read) =~= out);
    } else {
        assert(collected(s, read) =~= out);
    }
}

/// Items that all read as nothing give nothing.
pub proof fn lemma_collected_none<S, T>(s: Seq<S>, read: spec_fn(S) -> Option<T>)
    requires
        forall|i: int| 0 <= i < s.len() ==> read(#[trigger] s[i]) is None,
    ensures
        collected(s, read) == Seq::<T>::empty(),
    decreases s.len(),
{
    if s.len() > 0 {
        let front = s.drop_last();
        assert forall|i: int| 0 <= i < front.len() implies read(#[trigger] front[i]) is None by {
            assert(front[i] == s[i]);
        }
        lemma_collected_none(front, read);
        assert(read(s[s.len() - 1]) is None);
    }
}

// ---------------------------------------------------------------------------
// Sorting
// ---------------------------------------------------------------------------

/// A list with one item put in front of the first that it goes before.
pub open spec fn placed<T>(sorted: Seq<T>, item: T, first: spec_fn(T, T) -> bool) -> Seq<T>
    decreases sorted.len(),
{
    if sorted.len() == 0 {
        seq![item]
    } else if first(item, sorted[0]) {
        seq![item] + sorted
    } else {
        seq![sorted[0]] + placed(sorted.drop_first(), item, first)
    }
}

/// The items in order: each in front of those it goes before, and those that go
/// before neither in the order they stood in.
pub open spec fn arranged<T>(s: Seq<T>, first: spec_fn(T, T) -> bool) -> Seq<T>
    decreases s.len(),
{
    if s.len() == 0 {
        Seq::empty()
    } else {
        placed(arranged(s.drop_last(), first), s.last(), first)
    }
}

/// Whether no item goes before one that stands in front of it.
pub open spec fn in_order<T>(s: Seq<T>, first: spec_fn(T, T) -> bool) -> bool {
    forall|i: int, j: int| 0 <= i < j < s.len() ==> !first(#[trigger] s[j], #[trigger] s[i])
}

/// Whether "goes before" can be sorted by: nothing goes before itself or before
/// what goes before it, and what goes before neither of two others is as good as
/// either.
pub open spec fn is_ranking<T>(first: spec_fn(T, T) -> bool) -> bool {
    &&& forall|a: T, b: T| #[trigger] first(a, b) ==> !first(b, a)
    &&& forall|a: T, b: T, c: T|
        !(#[trigger] first(a, b)) && !(#[trigger] first(b, c)) ==> !first(a, c)
}

/// Where an item goes, the list splits into what stays in front and the rest.
pub proof fn lemma_placed<T>(sorted: Seq<T>, item: T, first: spec_fn(T, T) -> bool, at: int)
    requires
        0 <= at <= sorted.len(),
        forall|j: int| 0 <= j < at ==> !first(item, #[trigger] sorted[j]),
        at < sorted.len() ==> first(item, sorted[at]),
    ensures
        placed(sorted, item, first) == sorted.insert(at, item),
    decreases sorted.len(),
{
    if at == 0 {
        if sorted.len() == 0 {
            assert(seq![item] =~= sorted.insert(0, item));
        } else {
            assert(seq![item] + sorted =~= sorted.insert(0, item));
        }
    } else {
        let rest = sorted.drop_first();
        assert(!first(item, sorted[0]));
        assert forall|j: int| 0 <= j < at - 1 implies !first(item, #[trigger] rest[j]) by {
            assert(rest[j] == sorted[j + 1]);
        }
        lemma_placed(rest, item, first, at - 1);
        assert(seq![sorted[0]] + rest.insert(at - 1, item) =~= sorted.insert(at, item));
    }
}

proof fn lemma_placed_in_order<T>(sorted: Seq<T>, item: T, first: spec_fn(T, T) -> bool)
    requires
        in_order(sorted, first),
        is_ranking(first),
    ensures
        in_order(placed(sorted, item, first), first),
        placed(sorted, item, first).len() == sorted.len() + 1,
        forall|i: int|
            0 <= i < sorted.len() + 1 ==> (#[trigger] placed(sorted, item, first)[i] == item
                || sorted.contains(placed(sorted, item, first)[i])),
    decreases sorted.len(),
{
    let out = placed(sorted, item, first);
    if sorted.len() == 0 {
    } else if first(item, sorted[0]) {
        assert forall|i: int, j: int| 0 <= i < j < out.len() implies !first(
            #[trigger] out[j],
            #[trigger] out[i],
        ) by {
            if i > 0 {
                assert(out[i] == sorted[i - 1] && out[j] == sorted[j - 1]);
            } else {
                assert(out[j] == sorted[j - 1]);
                if j > 1 {
                    assert(!first(sorted[j - 1], sorted[0]));
                }
                if first(out[j], item) {
                    assert(!first(item, out[j]));
                    assert(!first(out[j], sorted[0]));
                    assert(!first(item, sorted[0]));
                }
            }
        }
        assert forall|i: int| 0 <= i < out.len() implies (#[trigger] out[i] == item
            || sorted.contains(out[i])) by {
            if i > 0 {
                assert(out[i] == sorted[i - 1]);
            }
        }
    } else {
        let rest = sorted.drop_first();
        assert forall|i: int, j: int| 0 <= i < j < rest.len() implies !first(
            #[trigger] rest[j],
            #[trigger] rest[i],
        ) by {
            assert(rest[i] == sorted[i + 1] && rest[j] == sorted[j + 1]);
        }
        lemma_placed_in_order(rest, item, first);
        let tail = placed(rest, item, first);
        assert forall|i: int, j: int| 0 <= i < j < out.len() implies !first(
            #[trigger] out[j],
            #[trigger] out[i],
        ) by {
            assert(out[j] == tail[j - 1]);
            if i > 0 {
                assert(out[i] == tail[i - 1]);
            } else {
                if tail[j - 1] != item {
                    let k = choose|k: int| 0 <= k < rest.len() && rest[k] == tail[j - 1];
                    assert(sorted[k + 1] == tail[j - 1]);
                    assert(!first(sorted[k + 1], sorted[0]));
                }
            }
        }
        assert forall|i: int| 0 <= i < out.len() implies (#[trigger] out[i] == item
            || sorted.contains(out[i])) by {
            if i > 0 {
                assert(out[i] == tail[i - 1]);
                if tail[i - 1] != item {
                    let k = choose|k: int| 0 <= k < rest.len() && rest[k] == tail[i - 1];
                    assert(sorted[k + 1] == tail[i - 1]);
                }
            } else {
                assert(out[0] == sorted[0]);
            }
        }
    }
}

/// Putting items in order leaves them in order.
pub proof fn law_arranged_in_order<T>(s: Seq<T>, first: spec_fn(T, T) -> bool)
    requires
        is_ranking(first),
    ensures
        in_order(arranged(s, first), first),
    decreases s.len(),
{
    if s.len() > 0 {
        law_arranged_in_order(s.drop_last(), first);
        lemma_placed_in_order(arranged(s.drop_last(), first), s.last(), first);
    }
}

proof fn lemma_placed_multiset<T>(sorted: Seq<T>, item: T, first: spec_fn(T, T) -> bool)
    ensures
        placed(sorted, item, first).to_multiset() == sorted.to_multiset().insert(item),
    decreases sorted.len(),
{
    broadcast use vstd::seq_lib::group_to_multiset_ensures;

    if sorted.len() == 0 {
        assert(seq![item] =~= sorted.push(item));
    } else if first(item, sorted[0]) {
        vstd::seq_lib::lemma_multiset_commutative(seq![item], sorted);
        assert(seq![item] =~= Seq::<T>::empty().push(item));
        assert((seq![item] + sorted).to_multiset() =~= sorted.to_multiset().insert(item));
    } else {
        let rest = sorted.drop_first();
        lemma_placed_multiset(rest, item, first);
        let tail = placed(rest, item, first);
        vstd::seq_lib::lemma_multiset_commutative(seq![sorted[0]], tail);
        vstd::seq_lib::lemma_multiset_commutative(seq![sorted[0]], rest);
        assert(seq![sorted[0]] + rest =~= sorted);
        assert((seq![sorted[0]] + tail).to_multiset() =~= sorted.to_multiset().insert(item));
    }
}

/// Putting items in order neither loses nor adds any.
pub proof fn law_arranged_keeps_all<T>(s: Seq<T>, first: spec_fn(T, T) -> bool)
    ensures
        arranged(s, first).to_multiset() == s.to_multiset(),
    decreases s.len(),
{
    broadcast use vstd::seq_lib::group_to_multiset_ensures;

    if s.len() > 0 {
        law_arranged_keeps_all(s.drop_last(), first);
        lemma_placed_multiset(arranged(s.drop_last(), first), s.last(), first);
        assert(s.drop_last().push(s.last()) =~= s);
    } else {
        assert(arranged(s, first) =~= s);
    }
}

} // verus!
