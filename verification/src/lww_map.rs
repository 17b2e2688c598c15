//! Last-write-wins map: every key holds the value of its latest assignment,
//! where assignments are ordered by timestamp, then by actor, then by counter.
use vstd::prelude::*;
use crate::order::{actor_less, actor_lt};
use crate::vclock::{count, join, Actor, Dot, VClock};
use crate::tables::{assign_table, assigns_get, assigns_insert, assigns_items, assigns_new, entry_view, AssignTable};

verus! {

/// A stamp as a plain value: timestamp, actor, counter.
pub type StampView = (i128, Seq<char>, u64);

/// An assignment as a plain value: its stamp and the value assigned.
pub type EntryView = (StampView, Seq<char>);

/// What an assignment table holds.
pub type AssignView = Map<Seq<char>, EntryView>;

/// `s` is later than `e`: a larger timestamp, or an equal timestamp and a
/// larger (actor, counter) pair, actors compared as strings.
pub open spec fn stamp_gt(s: StampView, e: StampView) -> bool {
    s.0 > e.0 || (s.0 == e.0 && (actor_lt(e.1, s.1) || (s.1 == e.1 && s.2 > e.2)))
}

/// The assignment that `k` holds once `e` has been offered to `m`: `e` when
/// `m` has none for `k` or `e` is later than it, else the one `m` has.
pub open spec fn lww_pick(m: AssignView, k: Seq<char>, e: EntryView) -> EntryView {
    if !m.contains_key(k) || stamp_gt(e.0, m[k].0) {
        e
    } else {
        m[k]
    }
}

/// `m` after `e` has been offered for `k`.
pub open spec fn lww_put(m: AssignView, k: Seq<char>, e: EntryView) -> AssignView {
    m.insert(k, lww_pick(m, k, e))
}

/// The assignments after those of `b` have been offered to `a`, key by key.
pub open spec fn lww_join(a: AssignView, b: AssignView) -> AssignView {
    Map::new(
        |k: Seq<char>| a.contains_key(k) || b.contains_key(k),
        |k: Seq<char>|
            if b.contains_key(k) {
                lww_pick(a, k, b[k])
            } else {
                a[k]
            },
    )
}

/// Timestamped assignment (an LWW register per key) with its causal
/// context: the dot of the actor that made it.
#[derive(Debug, Clone)]
pub struct Stamp {
    pub dot: Dot,
    pub ts_micros: i128,
}

impl Stamp {
    /// The stamp as a plain value.
    pub open spec fn sv(&self) -> StampView {
        (self.ts_micros, self.dot.actor@, self.dot.counter)
    }

    /// A copy of this stamp.
    pub fn copy(&self) -> (r: Stamp)
        ensures
            r.sv() == self.sv(),
    {
        Stamp { dot: self.dot.copy(), ts_micros: self.ts_micros }
    }

    /// Whether this stamp is later than `other`.
    pub fn later_than(&self, other: &Stamp) -> (r: bool)
        ensures
            r == stamp_gt(self.sv(), other.sv()),
    {
        self.ts_micros > other.ts_micros || (self.ts_micros == other.ts_micros && (actor_less(
            &other.dot.actor,
            &self.dot.actor,
        ) || (self.dot.actor == other.dot.actor && self.dot.counter > other.dot.counter)))
    }
}

/// A last-write-wins map from keys to values, owned by one actor.
#[derive(Debug, Clone)]
pub struct LwwMap {
    pub actor: Actor,
    pub clock: VClock,
    pub assigns: AssignTable,
}

impl Default for LwwMap {
    fn default() -> (r: LwwMap)
        ensures
            r.wf(),
            r.actor@ == "anon"@,
            r.clock@ == Map::<Seq<char>, u64>::empty(),
            r.entries() == Map::<Seq<char>, EntryView>::empty(),
    {
        LwwMap { actor: "anon".to_owned(), clock: VClock::default(), assigns: assigns_new() }
    }
}

impl LwwMap {
    /// The clock is well formed.
    pub open spec fn wf(&self) -> bool {
        self.clock.wf()
    }

    /// The current assignment of each key.
    pub open spec fn entries(&self) -> AssignView {
        assign_table(self.assigns)
    }

    /// An empty map owned by `actor`.
    pub fn new(actor: &str) -> (r: LwwMap)
        ensures
            r.wf(),
            r.actor@ == actor@,
            r.clock@ == Map::<Seq<char>, u64>::empty(),
            r.entries() == Map::<Seq<char>, EntryView>::empty(),
    {
        LwwMap { actor: actor.to_owned(), clock: VClock::default(), assigns: assigns_new() }
    }

    /// Assigns `val` to `key` at time `now_micros`: the actor's counter
    /// advances, and the assignment, stamped with the time and the new dot,
    /// replaces the current one of `key` unless that one is later.
    pub fn put(&mut self, key: String, val: String, now_micros: i128)
        requires
            old(self).wf(),
            count(old(self).clock@, old(self).actor@) < u64::MAX,
        ensures
            final(self).wf(),
            final(self).actor == old(self).actor,
            final(self).clock@ == old(self).clock@.insert(
                old(self).actor@,
                (count(old(self).clock@, old(self).actor@) + 1) as u64,
            ),
            final(self).entries() == lww_put(
                old(self).entries(),
                key@,
                (
                    (
                        now_micros,
                        old(self).actor@,
                        (count(old(self).clock@, old(self).actor@) + 1) as u64,
                    ),
                    val@,
                ),
            ),
    {
        let c = self.clock.inc(&self.actor);
        let stamp = Stamp { dot: Dot { actor: self.actor.clone(), counter: c }, ts_micros: now_micros };
        let replace = match assigns_get(&self.assigns, &key) {
            None => true,
            Some(e) => stamp.later_than(&e.0),
        };
        if replace {
            assigns_insert(&mut self.assigns, key, (stamp, val));
        } else {
            proof {
                assert(self.entries() =~= lww_put(
                    old(self).entries(),
                    key@,
                    (stamp.sv(), val@),
                ));
            }
        }
    }

    /// The value currently assigned to `key`.
    pub fn get(&self, key: &String) -> (r: Option<&String>)
        ensures
            r is Some <==> self.entries().contains_key(key@),
            r matches Some(v) ==> v@ == self.entries()[key@].1,
    {
        match assigns_get(&self.assigns, key) {
            Some(e) => Some(&e.1),
            None => None,
        }
    }

    /// Merges `other` into this map: the clocks join, and every assignment
    /// of `other` is offered to this map as `put` offers one.
    pub fn merge(&mut self, other: &LwwMap)
        requires
            old(self).wf(),
            other.wf(),
        ensures
            final(self).wf(),
            final(self).actor == old(self).actor,
            final(self).clock@ == join(old(self).clock@, other.clock@),
            final(self).entries() == lww_join(old(self).entries(), other.entries()),
    {
        self.clock.merge(&other.clock);
        let ghost start = self.entries();
        let ghost theirs = other.entries();
        let items = assigns_items(&other.assigns);
        let ghost mut done: Set<Seq<char>> = Set::empty();
        proof {
            assert(lww_join(start, theirs.restrict(done)) =~= start);
        }
        let mut i: usize = 0;
        while i < items.len()
            invariant
                self.wf(),
                self.clock@ == join(old(self).clock@, other.clock@),
                self.actor == old(self).actor,
                start == old(self).entries(),
                theirs == other.entries(),
                0 <= i <= items@.len(),
                forall|j: int|
                    0 <= j < items@.len() ==> #[trigger] theirs.contains_key(items@[j].0@)
                        && theirs[items@[j].0@] == entry_view(*items@[j].1),
                forall|j: int, l: int|
                    0 <= j < items@.len() && 0 <= l < items@.len() && j != l ==> items@[j].0@
                        != items@[l].0@,
                forall|k: Seq<char>|
                    #[trigger] theirs.contains_key(k) ==> exists|j: int|
                        0 <= j < items@.len() && #[trigger] items@[j].0@ == k,
                forall|k: Seq<char>|
                    done.contains(k) <==> exists|j: int| 0 <= j < i && items@[j].0@ == k,
                self.entries() == lww_join(start, theirs.restrict(done)),
            decreases items@.len() - i,
        {
            let (k, e) = items[i];
            let ghost kv = k@;
            proof {
                assert(theirs.contains_key(items@[i as int].0@));
                assert(!done.contains(kv)) by {
                    if done.contains(kv) {
                        let j = choose|j: int| 0 <= j < i && items@[j].0@ == kv;
                        assert(items@[j].0@ != items@[i as int].0@);
                    }
                }
            }
            let replace = match assigns_get(&self.assigns, k) {
                None => true,
                Some(cur) => e.0.later_than(&cur.0),
            };
            if replace {
                let name = k.clone();
                let entry = (e.0.copy(), e.1.clone());
                assigns_insert(&mut self.assigns, name, entry);
            }
            proof {
                let nd = done.insert(kv);
                assert forall|k2: Seq<char>|
                    nd.contains(k2) <==> exists|j: int| 0 <= j < i + 1 && items@[j].0@ == k2 by {
                    if k2 == kv {
                        assert(items@[i as int].0@ == k2);
                    }
                    if exists|j: int| 0 <= j < i + 1 && items@[j].0@ == k2 {
                        let j = choose|j: int| 0 <= j < i + 1 && items@[j].0@ == k2;
                        if j < i {
                            assert(done.contains(k2));
                        }
                    }
                }
                assert(self.entries() =~= lww_join(start, theirs.restrict(nd)));
                done = nd;
            }
            i = i + 1;
        }
        proof {
            assert(theirs.restrict(done) =~= theirs) by {
                assert forall|k: Seq<char>| theirs.contains_key(k) implies done.contains(k) by {
                    let j = choose|j: int| 0 <= j < items@.len() && #[trigger] items@[j].0@ == k;
                }
            }
        }
    }
}

} // verus!
