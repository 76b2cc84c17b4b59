//! Facts about the first element of a sequence that satisfies a predicate.

use vstd::prelude::*;

verus! {

/// The index of the first element of `s` that satisfies `p`, or -1 when none does.
pub open spec fn first_match<T>(s: Seq<T>, p: spec_fn(T) -> bool) -> int
    decreases s.len(),
{
    if s.len() == 0 {
        -1
    } else if p(s[0]) {
        0
    } else {
        let r = first_match(s.drop_first(), p);
        if r < 0 {
            -1
        } else {
            r + 1
        }
    }
}

/// `first_match` is -1 exactly when nothing matches, and otherwise the least matching index.
pub proof fn lemma_first_match<T>(s: Seq<T>, p: spec_fn(T) -> bool)
    ensures
        -1 <= first_match(s, p) < s.len(),
        first_match(s, p) == -1 <==> forall|j: int| 0 <= j < s.len() ==> !p(#[trigger] s[j]),
        first_match(s, p) >= 0 ==> p(s[first_match(s, p)]),
        forall|j: int| 0 <= j < first_match(s, p) ==> !p(#[trigger] s[j]),
    decreases s.len(),
{
    if s.len() > 0 {
        let t = s.drop_first();
        lemma_first_match(t, p);
        assert forall|j: int| 0 < j < s.len() implies s[j] == t[j - 1] by {}
        if !p(s[0]) {
            if first_match(t, p) == -1 {
                assert forall|j: int| 0 <= j < s.len() implies !p(#[trigger] s[j]) by {
                    if j > 0 {
                        assert(s[j] == t[j - 1]);
                    }
                }
            } else {
                assert forall|j: int| 0 <= j < first_match(s, p) implies !p(#[trigger] s[j]) by {
                    if j > 0 {
                        assert(s[j] == t[j - 1]);
                    }
                }
            }
        }
    }
}

/// An index whose predecessors all fail `p` and which satisfies `p` is the first match.
pub proof fn lemma_first_match_at<T>(s: Seq<T>, p: spec_fn(T) -> bool, i: int)
    requires
        0 <= i < s.len(),
        p(s[i]),
        forall|j: int| 0 <= j < i ==> !p(#[trigger] s[j]),
    ensures
        first_match(s, p) == i,
{
    lemma_first_match(s, p);
    let r = first_match(s, p);
    if r == -1 {
        assert(!p(s[i]));
    } else if r < i {
        assert(!p(s[r]));
    } else if r > i {
        assert(!p(s[i]));
    }
}

/// When no element satisfies `p`, there is no first match.
pub proof fn lemma_first_match_none<T>(s: Seq<T>, p: spec_fn(T) -> bool)
    requires
        forall|j: int| 0 <= j < s.len() ==> !p(#[trigger] s[j]),
    ensures
        first_match(s, p) == -1,
{
    lemma_first_match(s, p);
}

/// Filtering a prefix gives a prefix of the filtered sequence.
pub proof fn lemma_filter_prefix<T>(s: Seq<T>, p: spec_fn(T) -> bool, k: int)
    requires
        0 <= k <= s.len(),
    ensures
        s.take(k).filter(p).len() <= s.filter(p).len(),
        forall|j: int|
            0 <= j < s.take(k).filter(p).len() ==> #[trigger] s.take(k).filter(p)[j] == s.filter(p)[j],
{
    assert(s == s.take(k) + s.skip(k));
    Seq::filter_distributes_over_add(s.take(k), s.skip(k), p);
}

/// Filtering one more element of a prefix.
pub proof fn lemma_filter_step<T>(s: Seq<T>, p: spec_fn(T) -> bool, i: int)
    requires
        0 <= i < s.len(),
    ensures
        s.take(i + 1).filter(p) == if p(s[i]) {
            s.take(i).filter(p).push(s[i])
        } else {
            s.take(i).filter(p)
        },
{
    assert(s.take(i + 1) == s.take(i) + seq![s[i]]);
    Seq::filter_distributes_over_add(s.take(i), seq![s[i]], p);
    reveal_with_fuel(Seq::filter, 2);
    assert(seq![s[i]].drop_last() == Seq::<T>::empty());
    if p(s[i]) {
        assert(seq![s[i]].filter(p) == seq![s[i]]);
        assert(s.take(i).filter(p) + seq![s[i]] == s.take(i).filter(p).push(s[i]));
    } else {
        assert(seq![s[i]].filter(p) == Seq::<T>::empty());
        assert(s.take(i).filter(p) + Seq::<T>::empty() == s.take(i).filter(p));
    }
}

/// Filtering the whole sequence.
pub proof fn lemma_take_all<T>(s: Seq<T>)
    ensures
        s.take(s.len() as int) == s,
{
    assert(s.take(s.len() as int) =~= s);
}

/// Filtering by a stronger predicate keeps no more elements, and strictly fewer when some
/// element passes only the weaker one.
pub proof fn lemma_filter_len_mono<T>(s: Seq<T>, p: spec_fn(T) -> bool, q: spec_fn(T) -> bool, k: int)
    requires
        forall|x: T| #[trigger] q(x) ==> p(x),
    ensures
        s.filter(q).len() <= s.filter(p).len(),
        0 <= k < s.len() && p(s[k]) && !q(s[k]) ==> s.filter(q).len() < s.filter(p).len(),
    decreases s.len(),
{
    reveal_with_fuel(Seq::filter, 1);
    if s.len() > 0 {
        let t = s.drop_last();
        if k == s.len() - 1 {
            lemma_filter_len_mono(t, p, q, -1);
        } else {
            lemma_filter_len_mono(t, p, q, k);
            if 0 <= k < s.len() {
                assert(t[k] == s[k]);
            }
        }
    }
}

/// The index of the last element of `s` that satisfies `p`, or -1 when none does.
pub open spec fn last_match<T>(s: Seq<T>, p: spec_fn(T) -> bool) -> int
    decreases s.len(),
{
    if s.len() == 0 {
        -1
    } else if p(s.last()) {
        s.len() - 1
    } else {
        last_match(s.drop_last(), p)
    }
}

/// `last_match` is -1 exactly when nothing matches, and otherwise the greatest matching index.
pub proof fn lemma_last_match<T>(s: Seq<T>, p: spec_fn(T) -> bool)
    ensures
        -1 <= last_match(s, p) < s.len(),
        last_match(s, p) == -1 <==> forall|j: int| 0 <= j < s.len() ==> !p(#[trigger] s[j]),
        last_match(s, p) >= 0 ==> p(s[last_match(s, p)]),
        forall|j: int| last_match(s, p) < j < s.len() ==> !p(#[trigger] s[j]),
    decreases s.len(),
{
    if s.len() > 0 {
        let t = s.drop_last();
        lemma_last_match(t, p);
        assert forall|j: int| 0 <= j < t.len() implies s[j] == t[j] by {}
    }
}

/// An index whose successors all fail `p` and which satisfies `p` is the last match.
pub proof fn lemma_last_match_at<T>(s: Seq<T>, p: spec_fn(T) -> bool, i: int)
    requires
        0 <= i < s.len(),
        p(s[i]),
        forall|j: int| i < j < s.len() ==> !p(#[trigger] s[j]),
    ensures
        last_match(s, p) == i,
{
    lemma_last_match(s, p);
    let r = last_match(s, p);
    if r == -1 {
        assert(!p(s[i]));
    } else if r < i {
        assert(!p(s[i]));
    } else if r > i {
        assert(!p(s[r]));
    }
}

/// The sequences of `ss` joined end to end.
pub open spec fn concat<T>(ss: Seq<Seq<T>>) -> Seq<T>
    decreases ss.len(),
{
    if ss.len() == 0 {
        Seq::empty()
    } else {
        concat(ss.drop_last()) + ss.last()
    }
}

/// Joining one more sequence.
pub proof fn lemma_concat_push<T>(ss: Seq<Seq<T>>, x: Seq<T>)
    ensures
        concat(ss.push(x)) == concat(ss) + x,
{
    assert(ss.push(x).drop_last() =~= ss);
}

/// The predicate "is an error".
pub open spec fn is_err<T, E>() -> spec_fn(Result<T, E>) -> bool {
    |r: Result<T, E>| r is Err
}

/// The first error among `rs`, else all their values.
pub open spec fn all_ok<T, E>(rs: Seq<Result<T, E>>) -> Result<Seq<T>, E> {
    let k = first_match(rs, is_err());
    if k >= 0 {
        Err(rs[k]->Err_0)
    } else {
        Ok(Seq::new(rs.len(), |i: int| rs[i]->Ok_0))
    }
}

/// An element that satisfies the predicate is kept by the filter.
pub proof fn lemma_filter_contains<T>(s: Seq<T>, p: spec_fn(T) -> bool, i: int)
    requires
        0 <= i < s.len(),
        p(s[i]),
    ensures
        s.filter(p).contains(s[i]),
    decreases s.len(),
{
    reveal_with_fuel(Seq::filter, 1);
    if i == s.len() - 1 {
        assert(s.filter(p) == s.drop_last().filter(p).push(s.last()));
        assert(s.filter(p)[s.filter(p).len() - 1] == s[i]);
    } else {
        lemma_filter_contains(s.drop_last(), p, i);
        assert(s.drop_last()[i] == s[i]);
        let t = s.drop_last().filter(p);
        let w = choose|w: int| 0 <= w < t.len() && t[w] == s[i];
        if p(s.last()) {
            assert(s.filter(p) == t.push(s.last()));
            assert(s.filter(p)[w] == s[i]);
        } else {
            assert(s.filter(p) == t);
        }
    }
}

} // verus!
