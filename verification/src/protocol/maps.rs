//! Small helpers over `HashMap`s keyed by identifiers, and over sequences of keys.

use vstd::prelude::*;
use std::collections::HashMap;
use vstd::std_specs::iter::IteratorSpec;

verus! {

broadcast use vstd::std_specs::hash::group_hash_axioms;

/// The keys of `m`, each once, in the map's iteration order.
pub fn collect_keys<V>(m: &HashMap<u64, V>) -> (v: Vec<u64>)
    ensures
        v@.to_set() == m@.dom(),
        v@.no_duplicates(),
        v@.len() == m@.dom().len(),
{
    let mut out: Vec<u64> = Vec::new();
    let ghost keys = vstd::std_specs::hash::spec_keys_iter(m).remaining();
    for k in it: m.keys()
        invariant
            it.seq() == keys,
            out@ == it.seq().take(it.index() as int).unref(),
    {
        out.push(*k);
        assert(out@ =~= it.seq().take(it.index() + 1).unref());
    }
    assert(out@ =~= keys.unref());
    out
}

/// The window recorded for `id`, or 0 when there is none.
pub open spec fn window_in(m: Map<u64, u32>, id: u64) -> u32 {
    if m.contains_key(id) {
        m[id]
    } else {
        0
    }
}

/// The window recorded for `id`, or 0 when there is none.
pub fn window_of(m: &HashMap<u64, u32>, id: u64) -> (w: u32)
    ensures
        w == window_in(m@, id),
{
    match m.get(&id) {
        Some(w) => *w,
        None => 0,
    }
}

/// Pushing `v` adds exactly `v` to what a sequence contains.
pub(crate) proof fn lemma_push_contains<A>(s: Seq<A>, v: A)
    ensures
        forall|x: A| #[trigger] s.push(v).contains(x) == (s.contains(x) || x == v),
{
    assert forall|x: A| #[trigger] s.push(v).contains(x) == (s.contains(x) || x == v) by {
        if s.contains(x) {
            let j = choose|j: int| 0 <= j < s.len() && s[j] == x;
            assert(s.push(v)[j] == x);
        }
        if x == v {
            assert(s.push(v)[s.len() as int] == x);
        }
        if s.push(v).contains(x) {
            let j = choose|j: int| 0 <= j < s.push(v).len() && s.push(v)[j] == x;
            if j < s.len() {
                assert(s[j] == x);
            }
        }
    }
}

/// The first `i + 1` items hold what the first `i` hold and item `i`.
pub(crate) proof fn lemma_take_next<A>(s: Seq<A>, i: int)
    requires
        0 <= i < s.len(),
    ensures
        s.take(i + 1) == s.take(i).push(s[i]),
        forall|x: A| #[trigger] s.take(i + 1).contains(x) == (s.take(i).contains(x) || x == s[i]),
        s.take(i + 1).to_set() == s.take(i).to_set().insert(s[i]),
{
    assert(s.take(i + 1) =~= s.take(i).push(s[i]));
    lemma_push_contains(s.take(i), s[i]);
    assert(s.take(i + 1).to_set() =~= s.take(i).to_set().insert(s[i]));
}

/// In a sequence without duplicates, item `i` is not among the first `i`.
pub(crate) proof fn lemma_not_in_prefix<A>(s: Seq<A>, i: int)
    requires
        0 <= i < s.len(),
        s.no_duplicates(),
    ensures
        !s.take(i).contains(s[i]),
{
    if s.take(i).contains(s[i]) {
        let j = choose|j: int| 0 <= j < i && s.take(i)[j] == s[i];
        assert(s[j] == s[i]);
    }
}

/// Pushing a value that is not there keeps a sequence free of duplicates.
pub(crate) proof fn lemma_push_no_duplicates<A>(s: Seq<A>, v: A)
    requires
        s.no_duplicates(),
        !s.contains(v),
    ensures
        s.push(v).no_duplicates(),
{
    assert forall|i: int, j: int| 0 <= i < s.push(v).len() && 0 <= j < s.push(v).len() && i != j
        implies s.push(v)[i] != s.push(v)[j] by {
        if i < s.len() && j < s.len() {
        } else if i < s.len() {
            assert(s.contains(s[i]));
        } else if j < s.len() {
            assert(s.contains(s[j]));
        }
    }
}

} // verus!
