//! Observed-remove set: every addition is tagged with a fresh dot, and a
//! removal tombstones exactly the dots that the remover has observed.
use vstd::prelude::*;
use crate::vclock::{count, join, Actor, Dot, VClock};
use crate::tables::{
    add_table, adds_get, adds_insert, adds_items, adds_new, adds_remove, dot_set, dots_contains,
    dots_extend, dots_insert, dots_items, dots_new, AddTable, DotSet,
};

verus! {

/// A dot as a plain value.
pub type DotView = (Seq<char>, u64);

/// What an add table holds: the dots of each element.
pub type AddView = Map<Seq<char>, Set<DotView>>;

/// The dots recorded for `t` (none when `t` has no entry).
pub open spec fn dots_of(adds: AddView, t: Seq<char>) -> Set<DotView> {
    if adds.contains_key(t) {
        adds[t]
    } else {
        Set::empty()
    }
}

/// The dot `d` recorded as an addition of `t`.
pub open spec fn add_dot(adds: AddView, t: Seq<char>, d: DotView) -> AddView {
    adds.insert(t, dots_of(adds, t).insert(d))
}

/// `t` is in the set: one of its dots has not been removed.
pub open spec fn live(adds: AddView, removes: Set<DotView>, t: Seq<char>) -> bool {
    exists|d: DotView| #[trigger] dots_of(adds, t).contains(d) && !removes.contains(d)
}

/// The additions of both replicas: every element of either, with the dots of both.
pub open spec fn adds_join(a: AddView, b: AddView) -> AddView {
    Map::new(
        |t: Seq<char>| a.contains_key(t) || b.contains_key(t),
        |t: Seq<char>| dots_of(a, t).union(dots_of(b, t)),
    )
}

/// Every dot that a replica holds is covered by its clock.
pub open spec fn dots_covered(clock: Map<Seq<char>, u64>, adds: AddView, removes: Set<DotView>) -> bool {
    &&& forall|t: Seq<char>, d: DotView|
        #[trigger] dots_of(adds, t).contains(d) ==> d.1 <= count(clock, d.0)
    &&& forall|d: DotView| #[trigger] removes.contains(d) ==> d.1 <= count(clock, d.0)
}

/// Observed-remove set with tombstones via dot tracking.
#[derive(Debug)]
pub struct OrSet {
    pub actor: Actor,
    pub clock: VClock,
    pub adds: AddTable,
    pub removes: DotSet,
}

impl Default for OrSet {
    fn default() -> (r: OrSet)
        ensures
            r.wf(),
            r.actor@ == "anon"@,
            r.clock@ == Map::<Seq<char>, u64>::empty(),
            r.adds_v() == Map::<Seq<char>, Set<DotView>>::empty(),
            r.removes_v() == Set::<DotView>::empty(),
    {
        let r = OrSet {
            actor: "anon".to_owned(),
            clock: VClock::default(),
            adds: adds_new(),
            removes: dots_new(),
        };
        proof {
            assert(r.adds_v() =~= Map::<Seq<char>, Set<DotView>>::empty());
        }
        r
    }
}

impl OrSet {
    /// The clock is well formed.
    pub open spec fn wf(&self) -> bool {
        self.clock.wf()
    }

    /// The dots of each added element.
    pub open spec fn adds_v(&self) -> AddView {
        add_table(self.adds)
    }

    /// The removed dots.
    pub open spec fn removes_v(&self) -> Set<DotView> {
        dot_set(self.removes)
    }

    /// An empty set owned by `actor`.
    pub fn new(actor: &str) -> (r: OrSet)
        ensures
            r.wf(),
            r.actor@ == actor@,
            r.clock@ == Map::<Seq<char>, u64>::empty(),
            r.adds_v() == Map::<Seq<char>, Set<DotView>>::empty(),
            r.removes_v() == Set::<DotView>::empty(),
    {
        let r = OrSet { actor: actor.to_owned(), clock: VClock::default(), adds: adds_new(), removes: dots_new() };
        proof {
            assert(r.adds_v() =~= Map::<Seq<char>, Set<DotView>>::empty());
        }
        r
    }

    /// Adds `t`: the actor's counter advances and the new dot is recorded for `t`.
    pub fn add(&mut self, t: String)
        requires
            old(self).wf(),
            count(old(self).clock@, old(self).actor@) < u64::MAX,
        ensures
            final(self).wf(),
            final(self).actor == old(self).actor,
            final(self).clock@ == old(self).clock@.insert(
                old(self).actor@,
                (count(old(self).clock@, old(self).actor@) + 1) as u64,
            ),
            final(self).adds_v() == add_dot(
                old(self).adds_v(),
                t@,
                (old(self).actor@, (count(old(self).clock@, old(self).actor@) + 1) as u64),
            ),
            final(self).removes_v() == old(self).removes_v(),
    {
        let c = self.clock.inc(&self.actor);
        let dot = Dot { actor: self.actor.clone(), counter: c };
        let mut dots = match adds_remove(&mut self.adds, &t) {
            Some(s) => s,
            None => dots_new(),
        };
        dots_insert(&mut dots, dot);
        adds_insert(&mut self.adds, t, dots);
        proof {
            assert(self.adds_v() =~= add_dot(
                old(self).adds_v(),
                t@,
                (old(self).actor@, c),
            ));
        }
    }

    /// Removes `t`: every dot observed for `t` becomes a tombstone.
    pub fn remove(&mut self, t: &String)
        ensures
            final(self).actor == old(self).actor,
            final(self).clock == old(self).clock,
            final(self).adds_v() == old(self).adds_v(),
            final(self).removes_v() == old(self).removes_v().union(dots_of(old(self).adds_v(), t@)),
    {
        match adds_get(&self.adds, t) {
            Some(dots) => {
                dots_extend(&mut self.removes, dots);
            },
            None => {
                proof {
                    assert(self.removes_v().union(Set::empty()) =~= self.removes_v());
                }
            },
        }
    }

    /// Whether one of the dots in `dots` has not been removed.
    fn any_live(&self, dots: &DotSet) -> (r: bool)
        ensures
            r == exists|d: DotView| #[trigger] dot_set(*dots).contains(d) && !self.removes_v().contains(d),
    {
        let items = dots_items(dots);
        let mut i: usize = 0;
        while i < items.len()
            invariant
                0 <= i <= items@.len(),
                forall|j: int| 0 <= j < items@.len() ==> dot_set(*dots).contains(#[trigger] items@[j].dv()),
                forall|x: DotView|
                    #[trigger] dot_set(*dots).contains(x) ==> exists|j: int|
                        0 <= j < items@.len() && #[trigger] items@[j].dv() == x,
                forall|j: int| 0 <= j < i ==> self.removes_v().contains(#[trigger] items@[j].dv()),
            decreases items@.len() - i,
        {
            if !dots_contains(&self.removes, items[i]) {
                proof {
                    assert(dot_set(*dots).contains(items@[i as int].dv()));
                }
                return true;
            }
            i = i + 1;
        }
        proof {
            assert forall|d: DotView| #[trigger] dot_set(*dots).contains(d) implies self.removes_v().contains(d) by {
                let j = choose|j: int| 0 <= j < items@.len() && #[trigger] items@[j].dv() == d;
            }
        }
        false
    }

    /// Whether `t` is in the set.
    pub fn contains(&self, t: &String) -> (r: bool)
        ensures
            r == live(self.adds_v(), self.removes_v(), t@),
    {
        match adds_get(&self.adds, t) {
            Some(dots) => {
                proof {
                    assert(dots_of(self.adds_v(), t@) == dot_set(*dots));
                }
                self.any_live(dots)
            },
            None => {
                proof {
                    assert(dots_of(self.adds_v(), t@) =~= Set::empty());
                }
                false
            },
        }
    }

    /// The elements in the set, each once, in the order in which the add
    /// table is walked.
    pub fn elements(&self) -> (r: Vec<String>)
        ensures
            forall|i: int| 0 <= i < r@.len() ==> live(self.adds_v(), self.removes_v(), #[trigger] r@[i]@),
            forall|t: Seq<char>|
                live(self.adds_v(), self.removes_v(), t) ==> exists|i: int|
                    0 <= i < r@.len() && #[trigger] r@[i]@ == t,
            forall|i: int, j: int| 0 <= i < r@.len() && 0 <= j < r@.len() && i != j ==> r@[i]@ != r@[j]@,
    {
        let items = adds_items(&self.adds);
        let ghost adds = self.adds_v();
        let ghost rem = self.removes_v();
        let mut out: Vec<String> = Vec::new();
        proof {
            assert forall|j: int|
                0 <= j < items@.len() implies #[trigger] adds.contains_key(items@[j].0@)
                    && adds[items@[j].0@] == dot_set(*items@[j].1) by {
                assert(add_table(self.adds).contains_key(items@[j].0@));
            }
        }
        let mut i: usize = 0;
        while i < items.len()
            invariant
                adds == self.adds_v(),
                rem == self.removes_v(),
                0 <= i <= items@.len(),
                forall|j: int|
                    0 <= j < items@.len() ==> #[trigger] adds.contains_key(items@[j].0@)
                        && adds[items@[j].0@] == dot_set(*items@[j].1),
                forall|j: int, l: int|
                    0 <= j < items@.len() && 0 <= l < items@.len() && j != l ==> items@[j].0@
                        != items@[l].0@,
                forall|k: Seq<char>|
                    #[trigger] adds.contains_key(k) ==> exists|j: int|
                        0 <= j < items@.len() && #[trigger] items@[j].0@ == k,
                forall|l: int| 0 <= l < out@.len() ==> live(adds, rem, #[trigger] out@[l]@),
                forall|l: int| #![trigger out@[l]]
                    0 <= l < out@.len() ==> exists|j: int| 0 <= j < i && #[trigger] items@[j].0@ == out@[l]@,
                forall|j: int|
                    0 <= j < i && live(adds, rem, #[trigger] items@[j].0@) ==> exists|l: int|
                        0 <= l < out@.len() && #[trigger] out@[l]@ == items@[j].0@,
                forall|l: int, m: int|
                    0 <= l < out@.len() && 0 <= m < out@.len() && l != m ==> out@[l]@ != out@[m]@,
            decreases items@.len() - i,
        {
            let (t, dots) = items[i];
            proof {
                assert(adds.contains_key(items@[i as int].0@));
                assert(dots_of(adds, t@) == dot_set(*dots));
            }
            if self.any_live(dots) {
                let ghost before = out@;
                proof {
                    assert forall|l: int| 0 <= l < before.len() implies #[trigger] before[l]@ != t@ by {
                        let j = choose|j: int| 0 <= j < i && #[trigger] items@[j].0@ == before[l]@;
                        assert(items@[j].0@ != items@[i as int].0@);
                    }
                }
                out.push(t.clone());
                proof {
                    assert(out@[before.len() as int]@ == t@);
                    assert forall|l: int| #![trigger out@[l]]
                        0 <= l < out@.len() implies exists|j: int| 0 <= j < i + 1 && #[trigger] items@[j].0@ == out@[l]@ by {
                        if l == before.len() {
                            assert(items@[i as int].0@ == out@[l]@);
                        } else {
                            assert(out@[l] == before[l]);
                        }
                    }
                    assert forall|j: int|
                        0 <= j < i + 1 && live(adds, rem, #[trigger] items@[j].0@) implies exists|l: int|
                            0 <= l < out@.len() && #[trigger] out@[l]@ == items@[j].0@ by {
                        if j == i {
                            assert(out@[before.len() as int]@ == items@[j].0@);
                        } else {
                            let l = choose|l: int| 0 <= l < before.len() && #[trigger] before[l]@ == items@[j].0@;
                            assert(out@[l] == before[l]);
                        }
                    }
                }
            } else {
                proof {
                    assert(!live(adds, rem, items@[i as int].0@));
                }
            }
            i = i + 1;
        }
        proof {
            assert forall|t: Seq<char>| live(adds, rem, t) implies exists|l: int|
                0 <= l < out@.len() && #[trigger] out@[l]@ == t by {
                let d = choose|d: DotView| #[trigger] dots_of(adds, t).contains(d) && !rem.contains(d);
                assert(adds.contains_key(t));
                let j = choose|j: int| 0 <= j < items@.len() && #[trigger] items@[j].0@ == t;
                assert(live(adds, rem, items@[j].0@));
            }
        }
        out
    }

    /// Merges `other` into this set: the clocks join, and the additions and
    /// tombstones of both are kept.
    pub fn merge(&mut self, other: &OrSet)
        requires
            old(self).wf(),
            other.wf(),
        ensures
            final(self).wf(),
            final(self).actor == old(self).actor,
            final(self).clock@ == join(old(self).clock@, other.clock@),
            final(self).adds_v() == adds_join(old(self).adds_v(), other.adds_v()),
            final(self).removes_v() == old(self).removes_v().union(other.removes_v()),
    {
        self.clock.merge(&other.clock);
        let ghost start = self.adds_v();
        let ghost theirs = other.adds_v();
        let items = adds_items(&other.adds);
        let ghost mut done: Set<Seq<char>> = Set::empty();
        proof {
            assert forall|k: Seq<char>| #[trigger] start.contains_key(k) implies dots_of(start, k).union(
                dots_of(theirs.restrict(done), k),
            ) == start[k] by {
                assert(dots_of(start, k).union(dots_of(theirs.restrict(done), k)) =~= start[k]);
            }
            assert(adds_join(start, theirs.restrict(done)) =~= start);
        }
        let mut i: usize = 0;
        while i < items.len()
            invariant
                self.wf(),
                self.clock@ == join(old(self).clock@, other.clock@),
                self.actor == old(self).actor,
                self.removes_v() == old(self).removes_v(),
                start == old(self).adds_v(),
                theirs == other.adds_v(),
                0 <= i <= items@.len(),
                forall|j: int|
                    0 <= j < items@.len() ==> #[trigger] theirs.contains_key(items@[j].0@)
                        && theirs[items@[j].0@] == dot_set(*items@[j].1),
                forall|j: int, l: int|
                    0 <= j < items@.len() && 0 <= l < items@.len() && j != l ==> items@[j].0@
                        != items@[l].0@,
                forall|k: Seq<char>|
                    #[trigger] theirs.contains_key(k) ==> exists|j: int|
                        0 <= j < items@.len() && #[trigger] items@[j].0@ == k,
                forall|k: Seq<char>|
                    done.contains(k) <==> exists|j: int| 0 <= j < i && items@[j].0@ == k,
                self.adds_v() == adds_join(start, theirs.restrict(done)),
            decreases items@.len() - i,
        {
            let (t, odots) = items[i];
            let ghost tv = t@;
            let ghost before = self.adds_v();
            proof {
                assert(theirs.contains_key(items@[i as int].0@));
                assert(!done.contains(tv)) by {
                    if done.contains(tv) {
                        let j = choose|j: int| 0 <= j < i && items@[j].0@ == tv;
                        assert(items@[j].0@ != items@[i as int].0@);
                    }
                }
            }
            let mut dots = match adds_remove(&mut self.adds, t) {
                Some(s) => s,
                None => dots_new(),
            };
            dots_extend(&mut dots, odots);
            adds_insert(&mut self.adds, t.clone(), dots);
            proof {
                let nd = done.insert(tv);
                assert forall|k2: Seq<char>|
                    nd.contains(k2) <==> exists|j: int| 0 <= j < i + 1 && items@[j].0@ == k2 by {
                    if k2 == tv {
                        assert(items@[i as int].0@ == k2);
                    }
                    if exists|j: int| 0 <= j < i + 1 && items@[j].0@ == k2 {
                        let j = choose|j: int| 0 <= j < i + 1 && items@[j].0@ == k2;
                        if j < i {
                            assert(done.contains(k2));
                        }
                    }
                }
                assert(dots_of(theirs.restrict(done), tv) =~= Set::<DotView>::empty());
                assert(dots_of(before, tv) =~= dots_of(start, tv));
                assert(self.adds_v()[tv] =~= dots_of(start, tv).union(dots_of(theirs.restrict(nd), tv)));
                assert(self.adds_v() =~= adds_join(start, theirs.restrict(nd)));
                done = nd;
            }
            i = i + 1;
        }
        proof {
            assert(theirs.restrict(done) =~= theirs) by {
                assert forall|k: Seq<char>| theirs.contains_key(k) implies done.contains(k) by {
                    let j = choose|j: int| 0 <= j < items@.len() && #[trigger] items@[j].0@ == k;
                }
            }
        }
        dots_extend(&mut self.removes, &other.removes);
    }
}

} // verus!
