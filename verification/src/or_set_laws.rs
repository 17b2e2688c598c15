//! Laws of the observed-remove set: what add and remove promise, the
//! invariant that makes a fresh dot fresh, and convergence of merges.
use vstd::prelude::*;
use crate::vclock::{count, join};
use crate::or_set::{add_dot, adds_join, dots_covered, dots_of, live, AddView, DotView};

verus! {

/// In a replica whose dots are all covered by its clock, an element is in
/// the set right after it has been added: the new dot cannot have been removed.
pub proof fn law_add_then_contains(
    clock: Map<Seq<char>, u64>,
    adds: AddView,
    removes: Set<DotView>,
    actor: Seq<char>,
    t: Seq<char>,
)
    requires
        dots_covered(clock, adds, removes),
        count(clock, actor) < u64::MAX,
    ensures
        live(add_dot(adds, t, (actor, (count(clock, actor) + 1) as u64)), removes, t),
{
    let d = (actor, (count(clock, actor) + 1) as u64);
    let a2 = add_dot(adds, t, d);
    assert(dots_of(a2, t).contains(d));
    if removes.contains(d) {
        assert(d.1 <= count(clock, d.0));
    }
}

/// An element is not in the set right after it has been removed.
pub proof fn law_remove_then_absent(adds: AddView, removes: Set<DotView>, t: Seq<char>)
    ensures
        !live(adds, removes.union(dots_of(adds, t)), t),
{
}

/// Removing one element leaves every other element as it was.
pub proof fn law_remove_keeps_others(adds: AddView, removes: Set<DotView>, t: Seq<char>, u: Seq<char>)
    requires
        forall|d: DotView| dots_of(adds, t).contains(d) ==> !#[trigger] dots_of(adds, u).contains(d),
    ensures
        live(adds, removes.union(dots_of(adds, t)), u) == live(adds, removes, u),
{
    if live(adds, removes, u) {
        let d = choose|d: DotView| #[trigger] dots_of(adds, u).contains(d) && !removes.contains(d);
        assert(!dots_of(adds, t).contains(d));
        assert(!removes.union(dots_of(adds, t)).contains(d));
    }
}

/// An add keeps every dot covered by the advanced clock.
pub proof fn law_add_keeps_dots_covered(
    clock: Map<Seq<char>, u64>,
    adds: AddView,
    removes: Set<DotView>,
    actor: Seq<char>,
    t: Seq<char>,
)
    requires
        dots_covered(clock, adds, removes),
        count(clock, actor) < u64::MAX,
    ensures
        dots_covered(
            clock.insert(actor, (count(clock, actor) + 1) as u64),
            add_dot(adds, t, (actor, (count(clock, actor) + 1) as u64)),
            removes,
        ),
{
    let c2 = clock.insert(actor, (count(clock, actor) + 1) as u64);
    let a2 = add_dot(adds, t, (actor, (count(clock, actor) + 1) as u64));
    assert forall|u: Seq<char>, d: DotView| #[trigger] dots_of(a2, u).contains(d) implies d.1 <= count(c2, d.0) by {
        if u != t || d != (actor, (count(clock, actor) + 1) as u64) {
            assert(dots_of(adds, u).contains(d));
        }
    }
    assert forall|d: DotView| #[trigger] removes.contains(d) implies d.1 <= count(c2, d.0) by {
        assert(d.1 <= count(clock, d.0));
    }
}

/// A remove keeps every dot covered by the clock.
pub proof fn law_remove_keeps_dots_covered(
    clock: Map<Seq<char>, u64>,
    adds: AddView,
    removes: Set<DotView>,
    t: Seq<char>,
)
    requires
        dots_covered(clock, adds, removes),
    ensures
        dots_covered(clock, adds, removes.union(dots_of(adds, t))),
{
    assert forall|d: DotView| #[trigger] removes.union(dots_of(adds, t)).contains(d) implies d.1 <= count(clock, d.0) by {
        if !removes.contains(d) {
            assert(dots_of(adds, t).contains(d));
        }
    }
}

/// A merge keeps every dot covered by the merged clock.
pub proof fn law_merge_keeps_dots_covered(
    ca: Map<Seq<char>, u64>,
    aa: AddView,
    ra: Set<DotView>,
    cb: Map<Seq<char>, u64>,
    ab: AddView,
    rb: Set<DotView>,
)
    requires
        dots_covered(ca, aa, ra),
        dots_covered(cb, ab, rb),
    ensures
        dots_covered(join(ca, cb), adds_join(aa, ab), ra.union(rb)),
{
    let c = join(ca, cb);
    let m = adds_join(aa, ab);
    assert forall|u: Seq<char>, d: DotView| #[trigger] dots_of(m, u).contains(d) implies d.1 <= count(c, d.0) by {
        if dots_of(aa, u).contains(d) {
            assert(d.1 <= count(ca, d.0));
        } else {
            assert(dots_of(ab, u).contains(d));
            assert(d.1 <= count(cb, d.0));
        }
    }
    assert forall|d: DotView| #[trigger] ra.union(rb).contains(d) implies d.1 <= count(c, d.0) by {
        if ra.contains(d) {
            assert(d.1 <= count(ca, d.0));
        } else {
            assert(d.1 <= count(cb, d.0));
        }
    }
}

/// Merging additions in either order gives the same additions.
pub proof fn law_merge_commutative(a: AddView, b: AddView)
    ensures
        adds_join(a, b) == adds_join(b, a),
{
    assert forall|t: Seq<char>| #[trigger] adds_join(a, b).contains_key(t) implies adds_join(a, b)[t]
        == adds_join(b, a)[t] by {
        assert(dots_of(a, t).union(dots_of(b, t)) =~= dots_of(b, t).union(dots_of(a, t)));
    }
    assert(adds_join(a, b) =~= adds_join(b, a));
}

/// Merging three replicas' additions gives the same additions however the
/// merges are grouped.
pub proof fn law_merge_associative(a: AddView, b: AddView, c: AddView)
    ensures
        adds_join(adds_join(a, b), c) == adds_join(a, adds_join(b, c)),
{
    let l = adds_join(adds_join(a, b), c);
    let r = adds_join(a, adds_join(b, c));
    assert forall|t: Seq<char>| #[trigger] l.contains_key(t) implies l[t] == r[t] by {
        assert(dots_of(adds_join(a, b), t) =~= dots_of(a, t).union(dots_of(b, t)));
        assert(dots_of(adds_join(b, c), t) =~= dots_of(b, t).union(dots_of(c, t)));
        assert(l[t] =~= r[t]);
    }
    assert(l =~= r);
}

/// Merging a replica's additions with themselves leaves them unchanged.
pub proof fn law_merge_idempotent(a: AddView)
    ensures
        adds_join(a, a) == a,
{
    assert forall|t: Seq<char>| #[trigger] a.contains_key(t) implies adds_join(a, a)[t] == a[t] by {
        assert(dots_of(a, t).union(dots_of(a, t)) =~= a[t]);
    }
    assert(adds_join(a, a) =~= a);
}

/// An addition that neither replica has removed survives a merge, however
/// the other replica removed what it had observed.
pub proof fn law_unobserved_add_survives_merge(
    aa: AddView,
    ra: Set<DotView>,
    ab: AddView,
    rb: Set<DotView>,
    t: Seq<char>,
    d: DotView,
)
    requires
        dots_of(ab, t).contains(d),
        !ra.contains(d),
        !rb.contains(d),
    ensures
        live(adds_join(aa, ab), ra.union(rb), t),
{
    assert(dots_of(adds_join(aa, ab), t).contains(d));
}

/// A removal propagates through a merge: when one replica has observed every
/// addition of an element that the other holds and has removed it, the
/// element is absent after the merge.
pub proof fn law_observed_remove_propagates(
    aa: AddView,
    ra: Set<DotView>,
    ab: AddView,
    rb: Set<DotView>,
    t: Seq<char>,
)
    requires
        dots_of(aa, t).subset_of(dots_of(ab, t)),
        dots_of(ab, t).subset_of(rb),
    ensures
        !live(adds_join(aa, ab), ra.union(rb), t),
{
    assert forall|d: DotView| #[trigger] dots_of(adds_join(aa, ab), t).contains(d) implies ra.union(rb).contains(d) by {
        if dots_of(aa, t).contains(d) {
            assert(dots_of(ab, t).contains(d));
        }
    }
}

/// Whether an element is in a merged set does not depend on the order of the merge.
pub proof fn law_merged_membership_symmetric(
    aa: AddView,
    ra: Set<DotView>,
    ab: AddView,
    rb: Set<DotView>,
    t: Seq<char>,
)
    ensures
        live(adds_join(aa, ab), ra.union(rb), t) == live(adds_join(ab, aa), rb.union(ra), t),
{
    law_merge_commutative(aa, ab);
    assert(ra.union(rb) =~= rb.union(ra));
}

/// Adding `t` keeps every dot already recorded for `t`, records the new
/// dot, and leaves the dots of every other element as they were.
pub proof fn law_add_keeps_earlier_dots(adds: AddView, t: Seq<char>, d: DotView, u: Seq<char>, x: DotView)
    ensures
        add_dot(adds, t, d).contains_key(t),
        add_dot(adds, t, d)[t].contains(x) <==> (x == d || (adds.contains_key(t) && adds[t].contains(x))),
        u != t ==> add_dot(adds, t, d).contains_key(u) == adds.contains_key(u),
        u != t && adds.contains_key(u) ==> add_dot(adds, t, d)[u] == adds[u],
{
}

/// An element added and then removed stays absent after a merge with any
/// replica that has seen no addition of it that the adder had not seen.
pub proof fn law_add_remove_merge_absent(
    aa: AddView,
    ra: Set<DotView>,
    ab: AddView,
    rb: Set<DotView>,
    t: Seq<char>,
    d: DotView,
)
    requires
        dots_of(ab, t).subset_of(dots_of(aa, t)),
    ensures
        !live(
            adds_join(add_dot(aa, t, d), ab),
            ra.union(dots_of(add_dot(aa, t, d), t)).union(rb),
            t,
        ),
{
    let a2 = add_dot(aa, t, d);
    let r2 = ra.union(dots_of(a2, t)).union(rb);
    assert forall|x: DotView| #[trigger] dots_of(adds_join(a2, ab), t).contains(x) implies r2.contains(x) by {
        if dots_of(ab, t).contains(x) {
            assert(dots_of(aa, t).contains(x));
        }
        assert(dots_of(a2, t).contains(x));
    }
}

} // verus!
