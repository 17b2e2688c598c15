//! Laws of vector clocks: the join is a semilattice operation and the
//! dominance relation is the order it induces.
use vstd::prelude::*;
use crate::vclock::{count, dominates_spec, join, max_u64};

verus! {

/// Merging clocks in either order gives the same clock.
pub proof fn law_join_commutative(a: Map<Seq<char>, u64>, b: Map<Seq<char>, u64>)
    ensures
        join(a, b) == join(b, a),
{
    assert(join(a, b) =~= join(b, a));
}

/// Merging three clocks gives the same clock however the merges are grouped.
pub proof fn law_join_associative(a: Map<Seq<char>, u64>, b: Map<Seq<char>, u64>, c: Map<Seq<char>, u64>)
    ensures
        join(join(a, b), c) == join(a, join(b, c)),
{
    assert(join(join(a, b), c) =~= join(a, join(b, c)));
}

/// Merging a clock with itself leaves it unchanged.
pub proof fn law_join_idempotent(a: Map<Seq<char>, u64>)
    ensures
        join(a, a) == a,
{
    assert(join(a, a) =~= a);
}

/// A merged clock dominates both of the clocks merged.
pub proof fn law_join_dominates_both(a: Map<Seq<char>, u64>, b: Map<Seq<char>, u64>)
    ensures
        dominates_spec(join(a, b), a),
        dominates_spec(join(a, b), b),
{
}

/// A merged clock is the least one that dominates both: any clock that
/// dominates both dominates their merge.
pub proof fn law_join_least(a: Map<Seq<char>, u64>, b: Map<Seq<char>, u64>, c: Map<Seq<char>, u64>)
    requires
        dominates_spec(c, a),
        dominates_spec(c, b),
    ensures
        dominates_spec(c, join(a, b)),
{
    assert forall|k: Seq<char>| #[trigger] join(a, b).contains_key(k) implies join(a, b)[k] <= count(c, k) by {
        if a.contains_key(k) {
            assert(a[k] <= count(c, k));
        }
        if b.contains_key(k) {
            assert(b[k] <= count(c, k));
        }
    }
}

/// Every clock dominates itself; in particular equal clocks dominate each other.
pub proof fn law_dominates_reflexive(a: Map<Seq<char>, u64>)
    ensures
        dominates_spec(a, a),
{
}

/// Dominance is transitive.
pub proof fn law_dominates_transitive(a: Map<Seq<char>, u64>, b: Map<Seq<char>, u64>, c: Map<Seq<char>, u64>)
    requires
        dominates_spec(a, b),
        dominates_spec(b, c),
    ensures
        dominates_spec(a, c),
{
    assert forall|k: Seq<char>| #[trigger] c.contains_key(k) implies c[k] <= count(a, k) by {
        assert(c[k] <= count(b, k));
        if b.contains_key(k) {
            assert(b[k] <= count(a, k));
        }
    }
}

/// Clocks that dominate each other agree on every actor, counting absent actors as 0.
pub proof fn law_dominates_antisymmetric(a: Map<Seq<char>, u64>, b: Map<Seq<char>, u64>, k: Seq<char>)
    requires
        dominates_spec(a, b),
        dominates_spec(b, a),
    ensures
        count(a, k) == count(b, k),
{
    if a.contains_key(k) {
        assert(a[k] <= count(b, k));
    }
    if b.contains_key(k) {
        assert(b[k] <= count(a, k));
    }
}

/// Incrementing an actor's counter gives a clock that strictly dominates the
/// old one: it dominates it, and is not dominated by it.
pub proof fn law_inc_advances(a: Map<Seq<char>, u64>, actor: Seq<char>)
    requires
        count(a, actor) < u64::MAX,
    ensures
        dominates_spec(a.insert(actor, (count(a, actor) + 1) as u64), a),
        !dominates_spec(a, a.insert(actor, (count(a, actor) + 1) as u64)),
{
    let b = a.insert(actor, (count(a, actor) + 1) as u64);
    assert(b.contains_key(actor));
    assert forall|k: Seq<char>| #[trigger] a.contains_key(k) implies a[k] <= count(b, k) by {
        if k == actor {
        }
    }
}

/// Clocks built by different actors' increments alone do not dominate each
/// other: each has an actor that the other has not seen.
pub proof fn law_independent_actors_concurrent(x: Seq<char>, y: Seq<char>)
    requires
        x != y,
    ensures
        !dominates_spec(Map::<Seq<char>, u64>::empty().insert(x, 1), Map::<Seq<char>, u64>::empty().insert(y, 1)),
        !dominates_spec(Map::<Seq<char>, u64>::empty().insert(y, 1), Map::<Seq<char>, u64>::empty().insert(x, 1)),
{
    let a = Map::<Seq<char>, u64>::empty().insert(x, 1);
    let b = Map::<Seq<char>, u64>::empty().insert(y, 1);
    assert(b.contains_key(y) && b[y] > count(a, y));
    assert(a.contains_key(x) && a[x] > count(b, x));
}

/// The counter of every actor in a merged clock is the larger of its two counters.
pub proof fn law_join_counts(a: Map<Seq<char>, u64>, b: Map<Seq<char>, u64>, k: Seq<char>)
    ensures
        count(join(a, b), k) == max_u64(count(a, k), count(b, k)),
{
}

} // verus!
