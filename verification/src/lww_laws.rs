//! Laws of the last-write-wins map: stamps are totally ordered, so replicas
//! that merge each other's assignments converge.
use vstd::prelude::*;
use crate::order::lemma_actor_order;
use crate::vclock::{count, join};
use crate::lww_map::{lww_join, lww_pick, lww_put, stamp_gt, AssignView, EntryView, StampView};

verus! {

/// Stamps are strictly and totally ordered: two stamps that differ are
/// ordered one way or the other, and a stamp is never later than itself.
pub proof fn law_stamp_order(s: StampView, t: StampView, u: StampView)
    ensures
        !stamp_gt(s, s),
        !(stamp_gt(s, t) && stamp_gt(t, s)),
        stamp_gt(s, t) && stamp_gt(t, u) ==> stamp_gt(s, u),
        s != t ==> stamp_gt(s, t) || stamp_gt(t, s),
{
    lemma_actor_order(s.1, t.1, u.1);
    lemma_actor_order(t.1, s.1, u.1);
    lemma_actor_order(u.1, t.1, s.1);
    lemma_actor_order(s.1, u.1, t.1);
}

/// Two replicas never hold different values under the same stamp for a key.
pub open spec fn stamps_consistent(a: AssignView, b: AssignView) -> bool {
    forall|k: Seq<char>|
        a.contains_key(k) && b.contains_key(k) && #[trigger] a[k].0 == #[trigger] b[k].0 ==> a[k]
            == b[k]
}

/// An assignment with a later timestamp replaces the current one.
pub proof fn law_newer_timestamp_replaces(m: AssignView, k: Seq<char>, e: EntryView)
    requires
        m.contains_key(k),
        e.0.0 > m[k].0.0,
    ensures
        lww_put(m, k, e)[k] == e,
        lww_put(m, k, e).dom() == m.dom(),
{
    assert(lww_put(m, k, e).dom() =~= m.dom());
}

/// A put replaces the key's assignment exactly when the key has none or the
/// new stamp is later; otherwise (an earlier stamp, or an equal timestamp
/// with a smaller actor) the map is left unchanged.
pub proof fn law_put_replaces_exactly_when_later(m: AssignView, k: Seq<char>, e: EntryView)
    ensures
        (!m.contains_key(k) || stamp_gt(e.0, m[k].0)) ==> lww_put(m, k, e) == m.insert(k, e),
        (m.contains_key(k) && !stamp_gt(e.0, m[k].0)) ==> lww_put(m, k, e) == m,
{
    if m.contains_key(k) && !stamp_gt(e.0, m[k].0) {
        assert(lww_put(m, k, e) =~= m);
    }
}

/// After a merge, a key that both replicas hold holds one of their two
/// assignments: the other replica's exactly when its stamp is later, else its own.
pub proof fn law_merge_picks_an_assignment(a: AssignView, b: AssignView, k: Seq<char>)
    requires
        a.contains_key(k),
        b.contains_key(k),
    ensures
        lww_join(a, b).contains_key(k),
        lww_join(a, b)[k] == a[k] || lww_join(a, b)[k] == b[k],
        stamp_gt(b[k].0, a[k].0) ==> lww_join(a, b)[k] == b[k],
        !stamp_gt(b[k].0, a[k].0) ==> lww_join(a, b)[k] == a[k],
{
}

/// An assignment with an earlier timestamp leaves the map unchanged.
pub proof fn law_older_timestamp_ignored(m: AssignView, k: Seq<char>, e: EntryView)
    requires
        m.contains_key(k),
        e.0.0 < m[k].0.0,
    ensures
        lww_put(m, k, e) == m,
{
    assert(lww_put(m, k, e) =~= m);
}

/// Between assignments with equal timestamps, the one of the larger actor wins.
pub proof fn law_equal_timestamp_actor_decides(m: AssignView, k: Seq<char>, e: EntryView)
    requires
        m.contains_key(k),
        e.0.0 == m[k].0.0,
        crate::order::actor_lt(m[k].0.1, e.0.1),
    ensures
        lww_put(m, k, e)[k] == e,
{
}

/// An assignment to a key that the map does not hold is always taken, and
/// the other keys are left as they were.
pub proof fn law_put_new_key(m: AssignView, k: Seq<char>, e: EntryView, other: Seq<char>)
    requires
        !m.contains_key(k),
        other != k,
    ensures
        lww_put(m, k, e)[k] == e,
        lww_put(m, k, e).contains_key(other) == m.contains_key(other),
        m.contains_key(other) ==> lww_put(m, k, e)[other] == m[other],
{
}

/// Merging keeps every key of both replicas; a key that only one of them
/// holds keeps that replica's assignment.
pub proof fn law_merge_preserves_keys(a: AssignView, b: AssignView, k: Seq<char>)
    ensures
        lww_join(a, b).contains_key(k) == (a.contains_key(k) || b.contains_key(k)),
        a.contains_key(k) && !b.contains_key(k) ==> lww_join(a, b)[k] == a[k],
        b.contains_key(k) && !a.contains_key(k) ==> lww_join(a, b)[k] == b[k],
{
}

/// Merging replicas in either order gives the same assignments, provided
/// they never hold different values under one stamp.
pub proof fn law_merge_commutative(a: AssignView, b: AssignView)
    requires
        stamps_consistent(a, b),
    ensures
        lww_join(a, b) == lww_join(b, a),
{
    assert forall|k: Seq<char>|
        a.contains_key(k) && b.contains_key(k) implies lww_pick(a, k, b[k]) == lww_pick(b, k, a[k]) by {
        law_stamp_order(a[k].0, b[k].0, a[k].0);
    }
    assert(lww_join(a, b) =~= lww_join(b, a));
}

/// Merging three replicas gives the same assignments however the merges are grouped.
pub proof fn law_merge_associative(a: AssignView, b: AssignView, c: AssignView)
    ensures
        lww_join(lww_join(a, b), c) == lww_join(a, lww_join(b, c)),
{
    let l = lww_join(lww_join(a, b), c);
    let r = lww_join(a, lww_join(b, c));
    assert forall|k: Seq<char>| l.contains_key(k) implies l[k] == r[k] by {
        if a.contains_key(k) && b.contains_key(k) && c.contains_key(k) {
            law_stamp_order(a[k].0, b[k].0, c[k].0);
            law_stamp_order(c[k].0, b[k].0, a[k].0);
            law_stamp_order(a[k].0, c[k].0, b[k].0);
            law_stamp_order(b[k].0, a[k].0, c[k].0);
        }
    }
    assert(l =~= r);
}

/// Merging a replica with itself leaves its assignments unchanged.
pub proof fn law_merge_idempotent(a: AssignView)
    ensures
        lww_join(a, a) == a,
{
    assert forall|k: Seq<char>| a.contains_key(k) implies lww_join(a, a)[k] == a[k] by {
        law_stamp_order(a[k].0, a[k].0, a[k].0);
    }
    assert(lww_join(a, a) =~= a);
}

/// After a merge, every key holds the latest of the assignments that the two
/// replicas held for it.
pub proof fn law_merge_keeps_latest(a: AssignView, b: AssignView, k: Seq<char>)
    requires
        a.contains_key(k),
        b.contains_key(k),
    ensures
        !stamp_gt(a[k].0, lww_join(a, b)[k].0),
        !stamp_gt(b[k].0, lww_join(a, b)[k].0),
{
    law_stamp_order(a[k].0, b[k].0, a[k].0);
    law_stamp_order(b[k].0, a[k].0, b[k].0);
}

/// Every stamp that the map holds is covered by the clock.
pub open spec fn stamps_covered(clock: Map<Seq<char>, u64>, m: AssignView) -> bool {
    forall|k: Seq<char>| #[trigger] m.contains_key(k) ==> m[k].0.2 <= count(clock, m[k].0.1)
}

/// A put keeps every stamp covered by the advanced clock.
pub proof fn law_put_keeps_stamps_covered(
    clock: Map<Seq<char>, u64>,
    m: AssignView,
    actor: Seq<char>,
    k: Seq<char>,
    ts: i128,
    v: Seq<char>,
)
    requires
        stamps_covered(clock, m),
        count(clock, actor) < u64::MAX,
    ensures
        stamps_covered(
            clock.insert(actor, (count(clock, actor) + 1) as u64),
            lww_put(m, k, ((ts, actor, (count(clock, actor) + 1) as u64), v)),
        ),
{
    let c2 = clock.insert(actor, (count(clock, actor) + 1) as u64);
    let m2 = lww_put(m, k, ((ts, actor, (count(clock, actor) + 1) as u64), v));
    assert forall|j: Seq<char>| #[trigger] m2.contains_key(j) implies m2[j].0.2 <= count(c2, m2[j].0.1) by {
        if m.contains_key(j) {
            assert(m[j].0.2 <= count(clock, m[j].0.1));
        }
    }
}

/// A merge keeps every stamp covered by the merged clock.
pub proof fn law_merge_keeps_stamps_covered(
    ca: Map<Seq<char>, u64>,
    a: AssignView,
    cb: Map<Seq<char>, u64>,
    b: AssignView,
)
    requires
        stamps_covered(ca, a),
        stamps_covered(cb, b),
    ensures
        stamps_covered(join(ca, cb), lww_join(a, b)),
{
    let m = lww_join(a, b);
    assert forall|k: Seq<char>| #[trigger] m.contains_key(k) implies m[k].0.2 <= count(join(ca, cb), m[k].0.1) by {
        if a.contains_key(k) {
            assert(a[k].0.2 <= count(ca, a[k].0.1));
        }
        if b.contains_key(k) {
            assert(b[k].0.2 <= count(cb, b[k].0.1));
        }
    }
}

/// In a replica whose stamps are covered by its clock, a put at a timestamp
/// no earlier than that of the key's current assignment, made by the actor
/// that made that assignment, replaces it: the actor's counter has grown.
pub proof fn law_own_later_put_wins(
    clock: Map<Seq<char>, u64>,
    m: AssignView,
    actor: Seq<char>,
    k: Seq<char>,
    ts: i128,
    v: Seq<char>,
)
    requires
        stamps_covered(clock, m),
        count(clock, actor) < u64::MAX,
        m.contains_key(k),
        m[k].0.1 == actor,
        m[k].0.0 <= ts,
    ensures
        lww_put(m, k, ((ts, actor, (count(clock, actor) + 1) as u64), v))[k] == ((
            ts,
            actor,
            (count(clock, actor) + 1) as u64,
        ), v),
{
    assert(m[k].0.2 <= count(clock, m[k].0.1));
}

} // verus!
