//! Listing the values of a map keyed by 64-bit ids in ascending key order.

use vstd::prelude::*;

verus! {

/// The values of `m` at keys below `n`, by ascending key.
pub open spec fn values_below<V>(m: Map<u64, V>, n: nat) -> Seq<V>
    decreases n,
{
    if n == 0 {
        Seq::empty()
    } else {
        let rest = values_below(m, (n - 1) as nat);
        if n - 1 <= u64::MAX && m.contains_key((n - 1) as u64) {
            rest.push(m[(n - 1) as u64])
        } else {
            rest
        }
    }
}

/// All values of `m`, by ascending key.
pub open spec fn by_key<V>(m: Map<u64, V>) -> Seq<V> {
    values_below(m, u64::MAX as nat + 1)
}

/// Where `m` has no key from `a` up to `b`, listing below `b` is listing
/// below `a`.
pub proof fn lemma_values_below_gap<V>(m: Map<u64, V>, a: nat, b: nat)
    requires
        a <= b,
        forall|k: u64| a <= k < b ==> !m.contains_key(k),
    ensures
        values_below(m, b) == values_below(m, a),
    decreases b,
{
    if a < b {
        lemma_values_below_gap(m, a, (b - 1) as nat);
    }
}

/// The listing below `n + 1` adds the value at `n`, if there is one, to the
/// listing below `n`.
pub proof fn lemma_values_below_step<V>(m: Map<u64, V>, n: u64)
    ensures
        values_below(m, n as nat + 1) == if m.contains_key(n) {
            values_below(m, n as nat).push(m[n])
        } else {
            values_below(m, n as nat)
        },
{
}

/// `u64` keys are ordered as the integers they are, which is what the
/// specifications of the ordered std maps ask of a key type.
pub proof fn lemma_u64_keys_ordered()
    ensures
        vstd::laws_cmp::obeys_cmp::<u64>(),
{
    broadcast use vstd::laws_cmp::group_laws_cmp;

}

/// A filter that selects everything keeps the sequence.
pub proof fn lemma_filter_all<A>(s: Seq<A>, pred: spec_fn(A) -> bool)
    requires
        forall|a: A| #[trigger] pred(a),
    ensures
        s.filter(pred) == s,
    decreases s.len(),
{
    reveal(Seq::filter);
    if s.len() > 0 {
        lemma_filter_all(s.drop_last(), pred);
        assert(s.drop_last().push(s.last()) =~= s);
    }
}

/// Two filters that select the same values give the same sequence.
pub proof fn lemma_filter_same<A>(s: Seq<A>, p: spec_fn(A) -> bool, q: spec_fn(A) -> bool)
    requires
        forall|a: A| #[trigger] p(a) == q(a),
    ensures
        s.filter(p) == s.filter(q),
    decreases s.len(),
{
    reveal(Seq::filter);
    if s.len() > 0 {
        lemma_filter_same(s.drop_last(), p, q);
    }
}

} // verus!
