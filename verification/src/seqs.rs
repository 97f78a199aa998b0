//! Facts about sequences that the loops of other modules need.

use std::collections::HashMap;
use vstd::prelude::*;
use vstd::std_specs::iter::IteratorSpec;

verus! {

/// Filtering one element more.
pub(crate) proof fn lemma_filter_next<A>(s: Seq<A>, i: int, p: spec_fn(A) -> bool)
    requires
        0 <= i < s.len(),
    ensures
        s.subrange(0, i + 1).filter(p) == if p(s[i]) {
            s.subrange(0, i).filter(p).push(s[i])
        } else {
            s.subrange(0, i).filter(p)
        },
{
    reveal(Seq::filter);
    let t = s.subrange(0, i + 1);
    assert(t.drop_last() =~= s.subrange(0, i));
    assert(t.last() == s[i]);
}

/// Filtering nothing, and filtering all.
pub(crate) proof fn lemma_filter_ends<A>(s: Seq<A>, p: spec_fn(A) -> bool)
    ensures
        s.subrange(0, 0).filter(p) == Seq::<A>::empty(),
        s.subrange(0, s.len() as int) == s,
{
    reveal(Seq::filter);
    assert(s.subrange(0, 0) =~= Seq::<A>::empty());
    assert(s.subrange(0, s.len() as int) =~= s);
}

/// The keys of a map, each once, in no particular order.
pub fn map_keys<K: Copy + Eq + std::hash::Hash, V>(m: &HashMap<K, V>) -> (r: Vec<K>)
    requires
        vstd::std_specs::hash::obeys_key_model::<K>(),
    ensures
        r@.no_duplicates(),
        r@.to_set() == m@.dom(),
        r@.len() == m@.dom().len(),
{
    let mut keys: Vec<K> = Vec::new();
    let ghost all = vstd::std_specs::hash::spec_keys_iter(m).remaining().unref();
    for k in it: m.keys()
        invariant
            it.seq().unref() == all,
            all.to_set() == m@.dom(),
            all.len() == m@.dom().len(),
            it.seq().no_duplicates(),
            keys@ == all.subrange(0, it.index() as int),
            forall|i: int, j: int| 0 <= i < j < all.len() ==> all[i] != all[j],
    {
        keys.push(*k);
        assert(keys@ =~= all.subrange(0, it.index() + 1));
    }
    assert(keys@ =~= all);
    keys
}

/// A filtered sequence holds exactly the elements that pass, as often as they were there.
pub(crate) proof fn lemma_filter_holds<A>(s: Seq<A>, p: spec_fn(A) -> bool, x: A)
    ensures
        s.filter(p).contains(x) <==> s.contains(x) && p(x),
    decreases s.len(),
{
    reveal(Seq::filter);
    if s.len() > 0 {
        let t = s.drop_last();
        lemma_filter_holds(t, p, x);
        let f = t.filter(p);
        if t.contains(x) {
            let i = choose|i: int| 0 <= i < t.len() && t[i] == x;
            assert(s[i] == x);
        }
        if s.contains(x) && s.last() != x {
            let i = choose|i: int| 0 <= i < s.len() && s[i] == x;
            assert(t[i] == x);
        }
        if s.last() == x {
            assert(s[s.len() - 1] == x);
        }
        if p(s.last()) {
            let g = f.push(s.last());
            if f.contains(x) {
                let i = choose|i: int| 0 <= i < f.len() && f[i] == x;
                assert(g[i] == x);
            }
            if s.last() == x {
                assert(g[f.len() as int] == x);
            }
            if g.contains(x) && s.last() != x {
                let i = choose|i: int| 0 <= i < g.len() && g[i] == x;
                assert(f[i] == x);
            }
        }
    }
}

/// Where one predicate is weaker than another, filtering by the stronger one may be done
/// after filtering by the weaker one.
pub(crate) proof fn lemma_filter_within<A>(
    s: Seq<A>,
    weak: spec_fn(A) -> bool,
    strong: spec_fn(A) -> bool,
)
    requires
        forall|x: A| #[trigger] strong(x) ==> weak(x),
    ensures
        s.filter(weak).filter(strong) == s.filter(strong),
        s.filter(strong).len() <= s.filter(weak).len(),
    decreases s.len(),
{
    reveal(Seq::filter);
    if s.len() > 0 {
        lemma_filter_within(s.drop_last(), weak, strong);
        if weak(s.last()) {
            let f = s.drop_last().filter(weak);
            assert(f.push(s.last()).drop_last() =~= f);
        }
    }
}

/// Where all elements pass, filtering changes nothing.
pub(crate) proof fn lemma_filter_all<A>(s: Seq<A>, p: spec_fn(A) -> bool)
    requires
        forall|i: int| 0 <= i < s.len() ==> p(#[trigger] s[i]),
    ensures
        s.filter(p) == s,
    decreases s.len(),
{
    reveal(Seq::filter);
    if s.len() > 0 {
        assert forall|i: int| 0 <= i < s.drop_last().len() implies p(
            #[trigger] s.drop_last()[i],
        ) by {
            assert(s.drop_last()[i] == s[i]);
        }
        lemma_filter_all(s.drop_last(), p);
        assert(p(s[s.len() - 1]));
        assert(s.drop_last().push(s.last()) =~= s);
    }
}

/// Filtering makes nothing longer.
pub(crate) proof fn lemma_filter_shrinks<A>(s: Seq<A>, p: spec_fn(A) -> bool)
    ensures
        s.filter(p).len() <= s.len(),
    decreases s.len(),
{
    reveal(Seq::filter);
    if s.len() > 0 {
        lemma_filter_shrinks(s.drop_last(), p);
    }
}

} // verus!
