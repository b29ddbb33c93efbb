//! Facts about filtering sequences.
use vstd::prelude::*;

verus! {

/// Two tests that agree on every element of a sequence keep the same elements.
pub proof fn lemma_filter_agrees<A>(s: Seq<A>, p: spec_fn(A) -> bool, q: spec_fn(A) -> bool)
    requires
        forall|i: int| 0 <= i < s.len() ==> p(#[trigger] s[i]) == q(s[i]),
    ensures
        s.filter(p) == s.filter(q),
    decreases s.len(),
{
    reveal(Seq::filter);
    if s.len() > 0 {
        assert(p(s[s.len() - 1]) == q(s[s.len() - 1]));
        lemma_filter_agrees(s.drop_last(), p, q);
    }
}

/// A test that every element passes keeps the sequence as it is.
pub proof fn lemma_filter_all<A>(s: Seq<A>, p: spec_fn(A) -> bool)
    requires
        forall|i: int| 0 <= i < s.len() ==> p(#[trigger] s[i]),
    ensures
        s.filter(p) == s,
    decreases s.len(),
{
    reveal(Seq::filter);
    if s.len() > 0 {
        lemma_filter_all(s.drop_last(), p);
        assert(s.drop_last().push(s.last()) =~= s);
    }
}

/// Every element that is kept was there and passes the test, and every one that
/// was there and passes it is kept.
pub proof fn lemma_filter_elements<A>(s: Seq<A>, p: spec_fn(A) -> bool)
    ensures
        s.filter(p).len() <= s.len(),
        forall|x: A| #[trigger] s.filter(p).contains(x) <==> s.contains(x) && p(x),
    decreases s.len(),
{
    reveal(Seq::filter);
    if s.len() > 0 {
        let rest = s.drop_last();
        lemma_filter_elements(rest, p);
        assert(s =~= rest.push(s.last()));
        assert forall|x: A| s.contains(x) <==> rest.contains(x) || x == s.last() by {
            if rest.contains(x) {
                assert(s[rest.index_of(x)] == x);
            }
            assert(s[s.len() - 1] == s.last());
        }
        assert forall|x: A| #[trigger] s.filter(p).contains(x) <==> s.contains(x) && p(x) by {
            let kept = rest.filter(p);
            if p(s.last()) {
                if kept.contains(x) {
                    assert(kept.push(s.last())[kept.index_of(x)] == x);
                }
                assert(kept.push(s.last())[kept.len() as int] == s.last());
            }
        }
    }
}

/// An element that is kept has a place, and all that stands before it there stood
/// before it already.
pub proof fn lemma_filter_prefix<A>(s: Seq<A>, p: spec_fn(A) -> bool, at: int) -> (to: int)
    requires
        0 <= at < s.len(),
        p(s[at]),
    ensures
        0 <= to < s.filter(p).len(),
        s.filter(p)[to] == s[at],
        forall|i: int| 0 <= i < to ==> s.take(at).contains(#[trigger] s.filter(p)[i]),
    decreases s.len(),
{
    reveal(Seq::filter);
    let rest = s.drop_last();
    if at == s.len() - 1 {
        let kept = rest.filter(p);
        lemma_filter_elements(rest, p);
        assert(s.take(at) =~= rest);
        assert forall|i: int| 0 <= i < kept.len() implies rest.contains(
            #[trigger] s.filter(p)[i],
        ) by {
            assert(kept.contains(kept[i]));
        }
        kept.len() as int
    } else {
        let to = lemma_filter_prefix(rest, p, at);
        assert(s.take(at) =~= rest.take(at));
        assert forall|i: int| 0 <= i < to implies s.take(at).contains(
            #[trigger] s.filter(p)[i],
        ) by {
            assert(s.filter(p)[i] == rest.filter(p)[i]);
        }
        to
    }
}

/// Mapping before filtering is filtering by the image before mapping.
pub proof fn lemma_filter_map<A, B>(s: Seq<A>, f: spec_fn(A) -> B, p: spec_fn(B) -> bool)
    ensures
        s.map_values(f).filter(p) == s.filter(|x: A| p(f(x))).map_values(f),
    decreases s.len(),
{
    reveal(Seq::filter);
    let q = |x: A| p(f(x));
    if s.len() > 0 {
        let rest = s.drop_last();
        lemma_filter_map(rest, f, p);
        assert(s.map_values(f).drop_last() =~= rest.map_values(f));
        assert(s.map_values(f).last() == f(s.last()));
        assert(rest.filter(q).push(s.last()).map_values(f) =~= rest.filter(q).map_values(f).push(
            f(s.last()),
        ));
    } else {
        assert(s.map_values(f).filter(p) =~= s.filter(q).map_values(f));
    }
}

/// Taking one element out of what was kept is keeping what is not that element.
pub proof fn lemma_filter_remove<A>(
    s: Seq<A>,
    p: spec_fn(A) -> bool,
    q: spec_fn(A) -> bool,
    x: A,
)
    requires
        s.no_duplicates(),
        s.contains(x),
        p(x),
        forall|i: int| 0 <= i < s.len() ==> q(#[trigger] s[i]) == (p(s[i]) && s[i] != x),
    ensures
        s.filter(p).no_duplicates(),
        s.filter(p).contains(x),
        s.filter(p).remove(s.filter(p).index_of(x)) == s.filter(q),
    decreases s.len(),
{
    reveal(Seq::filter);
    let rest = s.drop_last();
    assert(q(s[s.len() - 1]) == (p(s[s.len() - 1]) && s[s.len() - 1] != x));
    lemma_filter_elements(s, p);
    lemma_filter_elements(rest, p);
    lemma_filter_distinct(s, p);
    let kept = rest.filter(p);
    let all = s.filter(p);
    if s.last() == x {
        assert forall|i: int| 0 <= i < rest.len() implies p(#[trigger] rest[i]) == q(rest[i]) by {
            assert(rest[i] == s[i]);
        }
        lemma_filter_agrees(rest, p, q);
        assert(all[all.len() - 1] == x);
        assert(all.remove(all.index_of(x)) =~= kept);
    } else {
        assert(rest[s.index_of(x)] == x);
        lemma_filter_remove(rest, p, q, x);
        let at = kept.index_of(x);
        assert(all[at] == x);
        assert(all.index_of(x) == at);
        if p(s.last()) {
            assert(all.remove(at) =~= kept.remove(at).push(s.last()));
        }
    }
}

/// Filtering a sequence without duplicates leaves none.
pub proof fn lemma_filter_distinct<A>(s: Seq<A>, p: spec_fn(A) -> bool)
    requires
        s.no_duplicates(),
    ensures
        s.filter(p).no_duplicates(),
    decreases s.len(),
{
    reveal(Seq::filter);
    if s.len() > 0 {
        let rest = s.drop_last();
        lemma_filter_distinct(rest, p);
        lemma_filter_elements(rest, p);
        if rest.filter(p).contains(s.last()) {
            assert(rest[rest.index_of(s.last())] == s[rest.index_of(s.last())]);
        }
        let kept = rest.filter(p);
        assert forall|i: int, j: int|
            0 <= i < s.filter(p).len() && 0 <= j < s.filter(p).len() && i != j implies s.filter(
            p,
        )[i] != s.filter(p)[j] by {
            if i < kept.len() {
                assert(kept.contains(kept[i]));
            }
            if j < kept.len() {
                assert(kept.contains(kept[j]));
            }
        }
    }
}

} // verus!
