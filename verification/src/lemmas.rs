use vstd::prelude::*;

verus! {

/// Filtering keeps all of a sequence in which every item is wanted.
pub proof fn lemma_filter_all<A>(s: Seq<A>, keep: spec_fn(A) -> bool)
    requires
        forall|i: int| 0 <= i < s.len() ==> keep(#[trigger] s[i]),
    ensures
        s.filter(keep) == s,
    decreases s.len(),
{
    reveal(Seq::filter);
    if s.len() > 0 {
        let rest = s.drop_last();
        assert(forall|i: int| 0 <= i < rest.len() ==> rest[i] == s[i]);
        lemma_filter_all(rest, keep);
        assert(rest.push(s.last()) == s);
    }
}

/// Filtering keeps nothing of a sequence in which no item is wanted.
pub proof fn lemma_filter_none<A>(s: Seq<A>, keep: spec_fn(A) -> bool)
    requires
        forall|i: int| 0 <= i < s.len() ==> !keep(#[trigger] s[i]),
    ensures
        s.filter(keep) == Seq::<A>::empty(),
    decreases s.len(),
{
    reveal(Seq::filter);
    if s.len() > 0 {
        let rest = s.drop_last();
        assert(forall|i: int| 0 <= i < rest.len() ==> rest[i] == s[i]);
        lemma_filter_none(rest, keep);
    }
}

/// Filtering one item more.
pub proof fn lemma_filter_step<A>(s: Seq<A>, k: int, keep: spec_fn(A) -> bool)
    requires
        0 <= k < s.len(),
    ensures
        s.take(k + 1).filter(keep) == if keep(s[k]) {
            s.take(k).filter(keep).push(s[k])
        } else {
            s.take(k).filter(keep)
        },
{
    reveal(Seq::filter);
    assert(s.take(k + 1).drop_last() == s.take(k));
    assert(s.take(k + 1).last() == s[k]);
}

/// In a sequence whose first `k` items are wanted and the others not, filtering
/// keeps the first `k`.
pub proof fn lemma_filter_split<A>(
    s: Seq<A>,
    k: int,
    keep: spec_fn(A) -> bool,
    drop: spec_fn(A) -> bool,
)
    requires
        0 <= k <= s.len(),
        forall|i: int| 0 <= i < k ==> keep(#[trigger] s[i]) && !drop(s[i]),
        forall|i: int| k <= i < s.len() ==> !keep(#[trigger] s[i]) && drop(s[i]),
    ensures
        s.filter(keep) == s.take(k),
        s.filter(drop) == s.skip(k),
{
    assert(s == s.take(k) + s.skip(k));
    Seq::filter_distributes_over_add(s.take(k), s.skip(k), keep);
    Seq::filter_distributes_over_add(s.take(k), s.skip(k), drop);
    assert forall|i: int| 0 <= i < s.take(k).len() implies keep(#[trigger] s.take(k)[i]) && !drop(
        s.take(k)[i],
    ) by {
        assert(s.take(k)[i] == s[i]);
    }
    assert forall|i: int| 0 <= i < s.skip(k).len() implies !keep(#[trigger] s.skip(k)[i]) && drop(
        s.skip(k)[i],
    ) by {
        assert(s.skip(k)[i] == s[i + k]);
    }
    lemma_filter_all(s.take(k), keep);
    lemma_filter_none(s.skip(k), keep);
    lemma_filter_none(s.take(k), drop);
    lemma_filter_all(s.skip(k), drop);
    assert(s.take(k) + Seq::<A>::empty() == s.take(k));
    assert(Seq::<A>::empty() + s.skip(k) == s.skip(k));
}

/// A finite map is empty exactly when it has no keys.
pub proof fn lemma_empty_map<K, V>(m: Map<K, V>)
    requires
        m.dom().finite(),
    ensures
        m.len() == 0 <==> m.dom() == Set::<K>::empty(),
{
    if m.len() == 0 {
        assert(m.dom() =~= Set::<K>::empty());
    }
}

/// Two lists of sequences flatten one after the other.
pub proof fn lemma_flatten_add<A>(first: Seq<Seq<A>>, then: Seq<Seq<A>>)
    ensures
        (first + then).flatten() == first.flatten() + then.flatten(),
    decreases then.len(),
{
    if then.len() == 0 {
        assert(first + then == first);
        assert(first.flatten() + then.flatten() == first.flatten());
    } else {
        let rest = then.drop_last();
        lemma_flatten_add(first, rest);
        assert(then == rest.push(then.last()));
        assert(first + then == (first + rest).push(then.last()));
        rest.lemma_flatten_push(then.last());
        (first + rest).lemma_flatten_push(then.last());
        assert(first.flatten() + then.flatten() == first.flatten() + rest.flatten() + then.last());
    }
}

/// Every item of a sequence is either kept by a filter or by the opposite one.
pub proof fn lemma_filter_parts<A>(
    s: Seq<A>,
    keep: spec_fn(A) -> bool,
    drop: spec_fn(A) -> bool,
)
    requires
        forall|a: A| #[trigger] keep(a) == !drop(a),
    ensures
        s.filter(keep).len() + s.filter(drop).len() == s.len(),
    decreases s.len(),
{
    reveal(Seq::filter);
    if s.len() > 0 {
        lemma_filter_parts(s.drop_last(), keep, drop);
        assert(keep(s.last()) == !drop(s.last()));
    }
}

} // verus!
