//! Vector clocks: one logical counter per replica (actor).
use vstd::prelude::*;
use vstd::std_specs::cmp::PartialEqSpecImpl;
use crate::assoc::{assoc_find, assoc_view, has_key, keys_unique, lemma_assoc_empty, lemma_assoc_entry, lemma_assoc_insert, lemma_assoc_push, lemma_assoc_update};
use crate::order::{actor_less, actor_lt, lemma_actor_order};

verus! {

/// Actor id for replicas.
pub type Actor = String;

/// The counter that a clock holds for `a`: absent actors count as 0.
pub open spec fn count(m: Map<Seq<char>, u64>, a: Seq<char>) -> u64 {
    if m.contains_key(a) {
        m[a]
    } else {
        0
    }
}

/// The larger of two counters.
pub open spec fn max_u64(x: u64, y: u64) -> u64 {
    if x >= y {
        x
    } else {
        y
    }
}

/// The join of two clocks: every actor of either, at the larger of its two counters.
pub open spec fn join(a: Map<Seq<char>, u64>, b: Map<Seq<char>, u64>) -> Map<Seq<char>, u64> {
    Map::new(
        |k: Seq<char>| a.contains_key(k) || b.contains_key(k),
        |k: Seq<char>| max_u64(count(a, k), count(b, k)),
    )
}

/// `a` has seen at least as much of every actor as `b` has.
pub open spec fn dominates_spec(a: Map<Seq<char>, u64>, b: Map<Seq<char>, u64>) -> bool {
    forall|k: Seq<char>| #[trigger] b.contains_key(k) ==> b[k] <= count(a, k)
}

/// A vector clock: the logical counter of each actor that has been seen.
#[derive(Debug, Clone, Eq)]
pub struct VClock {
    entries: Vec<(Actor, u64)>,
}

impl View for VClock {
    type V = Map<Seq<char>, u64>;

    closed spec fn view(&self) -> Map<Seq<char>, u64> {
        assoc_view(self.entries@)
    }
}

/// A dot: one event of one actor, named by the actor and its counter at that event.
#[derive(Debug, Clone, PartialEq, Eq, Hash, PartialOrd, Ord)]
pub struct Dot {
    pub actor: Actor,
    pub counter: u64,
}

impl Dot {
    /// A dot as a plain value: the actor's name and the counter.
    pub open spec fn dv(&self) -> (Seq<char>, u64) {
        (self.actor@, self.counter)
    }

    /// A copy of this dot.
    pub fn copy(&self) -> (r: Dot)
        ensures
            r.dv() == self.dv(),
    {
        Dot { actor: self.actor.clone(), counter: self.counter }
    }
}

/// The entries are in increasing order of their actors, as a `BTreeMap` keeps them.
pub open spec fn sorted_by_actor(s: Seq<(String, u64)>) -> bool {
    forall|i: int, j: int| 0 <= i < j < s.len() ==> actor_lt(#[trigger] s[i].0@, #[trigger] s[j].0@)
}

proof fn lemma_sorted_update(s: Seq<(String, u64)>, i: int, e: (String, u64))
    requires
        sorted_by_actor(s),
        0 <= i < s.len(),
        e.0@ == s[i].0@,
    ensures
        sorted_by_actor(s.update(i, e)),
{
    let t = s.update(i, e);
    assert forall|a: int, b: int| 0 <= a < b < t.len() implies actor_lt(#[trigger] t[a].0@, #[trigger] t[b].0@) by {
        assert(t[a].0@ == s[a].0@ && t[b].0@ == s[b].0@);
    }
}

/// Inserts an entry for a new actor at its place in actor order.
fn insert_sorted(v: &mut Vec<(Actor, u64)>, e: (Actor, u64))
    requires
        keys_unique(old(v)@),
        sorted_by_actor(old(v)@),
        !has_key(old(v)@, e.0@),
    ensures
        keys_unique(final(v)@),
        sorted_by_actor(final(v)@),
        assoc_view(final(v)@) == assoc_view(old(v)@).insert(e.0@, e.1),
{
    let mut p: usize = 0;
    while p < v.len()
        invariant
            0 <= p <= v@.len(),
            forall|j: int| 0 <= j < p ==> actor_lt(#[trigger] v@[j].0@, e.0@),
        ensures
            0 <= p <= v@.len(),
            forall|j: int| 0 <= j < p ==> actor_lt(#[trigger] v@[j].0@, e.0@),
            p < v@.len() ==> !actor_lt(v@[p as int].0@, e.0@),
        decreases v@.len() - p,
    {
        if !actor_less(&v[p].0, &e.0) {
            break;
        }
        p = p + 1;
    }
    let ghost s = v@;
    proof {
        if p < s.len() {
            assert(s[p as int].0@ != e.0@) by {
                if s[p as int].0@ == e.0@ {
                    assert(has_key(s, e.0@));
                }
            }
            lemma_actor_order(s[p as int].0@, e.0@, e.0@);
            assert(actor_lt(e.0@, s[p as int].0@));
            assert forall|j: int| p < j < s.len() implies actor_lt(e.0@, #[trigger] s[j].0@) by {
                assert(actor_lt(s[p as int].0@, s[j].0@));
                lemma_actor_order(e.0@, s[p as int].0@, s[j].0@);
            }
        }
        lemma_assoc_insert(s, p as int, e);
    }
    v.insert(p, e);
    proof {
        let t = v@;
        assert forall|a: int, b: int| 0 <= a < b < t.len() implies actor_lt(#[trigger] t[a].0@, #[trigger] t[b].0@) by {
            if b < p {
                assert(t[a] == s[a] && t[b] == s[b]);
            } else if b == p {
                assert(t[a] == s[a]);
            } else if a < p {
                assert(t[a] == s[a] && t[b] == s[b - 1]);
                assert(actor_lt(s[a].0@, e.0@));
                assert(actor_lt(e.0@, s[b - 1].0@));
                lemma_actor_order(s[a].0@, e.0@, s[b - 1].0@);
            } else if a == p {
                assert(t[b] == s[b - 1]);
            } else {
                assert(t[a] == s[a - 1] && t[b] == s[b - 1]);
            }
        }
    }
}

/// `s` has an entry for the actor of `e` with the counter of `e`.
pub open spec fn holds_entry(s: Seq<(String, u64)>, e: (String, u64)) -> bool {
    exists|j: int| 0 <= j < s.len() && s[j].0@ == e.0@ && s[j].1 == e.1
}

/// Each of `a` and `b` has every (actor, counter) entry of the other.
pub open spec fn same_entries(a: Seq<(String, u64)>, b: Seq<(String, u64)>) -> bool {
    &&& forall|i: int| 0 <= i < a.len() ==> holds_entry(b, #[trigger] a[i])
    &&& forall|j: int| 0 <= j < b.len() ==> holds_entry(a, #[trigger] b[j])
}

/// Whether `s` has every (actor, counter) entry of `t`.
fn holds_all(s: &Vec<(Actor, u64)>, t: &Vec<(Actor, u64)>) -> (r: bool)
    ensures
        r == forall|i: int| 0 <= i < t@.len() ==> holds_entry(s@, #[trigger] t@[i]),
{
    let mut i: usize = 0;
    while i < t.len()
        invariant
            0 <= i <= t@.len(),
            forall|l: int| 0 <= l < i ==> holds_entry(s@, #[trigger] t@[l]),
        decreases t@.len() - i,
    {
        let mut j: usize = 0;
        let mut found = false;
        while j < s.len()
            invariant
                0 <= i < t@.len(),
                0 <= j <= s@.len(),
                found ==> holds_entry(s@, t@[i as int]),
                !found ==> forall|m: int| 0 <= m < j ==> !(s@[m].0@ == t@[i as int].0@ && s@[m].1 == t@[i as int].1),
            decreases s@.len() - j,
        {
            if !found && s[j].0 == t[i].0 && s[j].1 == t[i].1 {
                found = true;
            }
            j = j + 1;
        }
        if !found {
            proof {
                if holds_entry(s@, t@[i as int]) {
                    let m = choose|m: int| 0 <= m < s@.len() && s@[m].0@ == t@[i as int].0@ && s@[m].1 == t@[i as int].1;
                    assert(!(s@[m].0@ == t@[i as int].0@ && s@[m].1 == t@[i as int].1));
                }
            }
            return false;
        }
        i = i + 1;
    }
    true
}

impl PartialEq for VClock {
    fn eq(&self, other: &VClock) -> (r: bool) {
        holds_all(&other.entries, &self.entries) && holds_all(&self.entries, &other.entries)
    }
}

impl PartialEqSpecImpl for VClock {
    open spec fn obeys_eq_spec() -> bool {
        true
    }

    open spec fn eq_spec(&self, other: &VClock) -> bool {
        self.same_as(*other)
    }
}

impl Default for VClock {
    fn default() -> (r: VClock)
        ensures
            r.wf(),
            r@ == Map::<Seq<char>, u64>::empty(),
    {
        let r = VClock { entries: Vec::new() };
        proof {
            lemma_assoc_empty(r.entries@);
        }
        r
    }
}

impl VClock {
    /// No actor occurs twice.
    pub closed spec fn wf(&self) -> bool {
        keys_unique(self.entries@) && sorted_by_actor(self.entries@)
    }

    /// Both clocks hold the same (actor, counter) entries.
    pub closed spec fn same_as(self, other: VClock) -> bool {
        same_entries(self.entries@, other.entries@)
    }

    /// Two clocks compare equal exactly when they hold the same counters.
    pub proof fn law_eq_is_equal_counters(a: VClock, b: VClock)
        requires
            a.wf(),
            b.wf(),
        ensures
            a.same_as(b) <==> a@ == b@,
    {
        let (s, t) = (a.entries@, b.entries@);
        if same_entries(s, t) {
            assert forall|k: Seq<char>| #[trigger] a@.contains_key(k) implies b@.contains_key(k) && b@[k] == a@[k] by {
                let i = choose|i: int| 0 <= i < s.len() && s[i].0@ == k;
                lemma_assoc_entry(s, i);
                assert(holds_entry(t, s[i]));
                let j = choose|j: int| 0 <= j < t.len() && t[j].0@ == s[i].0@ && t[j].1 == s[i].1;
                lemma_assoc_entry(t, j);
            }
            assert forall|k: Seq<char>| #[trigger] b@.contains_key(k) implies a@.contains_key(k) by {
                let j = choose|j: int| 0 <= j < t.len() && t[j].0@ == k;
                assert(holds_entry(s, t[j]));
                let i = choose|i: int| 0 <= i < s.len() && s[i].0@ == t[j].0@ && s[i].1 == t[j].1;
                assert(has_key(s, k));
            }
            assert(a@ =~= b@);
        }
        if a@ == b@ {
            assert forall|i: int| 0 <= i < s.len() implies holds_entry(t, #[trigger] s[i]) by {
                lemma_assoc_entry(s, i);
                let j = choose|j: int| 0 <= j < t.len() && t[j].0@ == s[i].0@;
                lemma_assoc_entry(t, j);
            }
            assert forall|j: int| 0 <= j < t.len() implies holds_entry(s, #[trigger] t[j]) by {
                lemma_assoc_entry(t, j);
                let i = choose|i: int| 0 <= i < s.len() && s[i].0@ == t[j].0@;
                lemma_assoc_entry(s, i);
            }
        }
    }

    /// The clock's entries, one per actor, in increasing order of actors.
    pub fn entries(&self) -> (r: &Vec<(Actor, u64)>)
        requires
            self.wf(),
        ensures
            keys_unique(r@),
            sorted_by_actor(r@),
            assoc_view(r@) == self@,
    {
        &self.entries
    }

    /// The clock whose entries are `pairs`, unless an actor occurs twice in them.
    pub fn from_entries(pairs: Vec<(Actor, u64)>) -> (r: Option<VClock>)
        ensures
            r is Some <==> keys_unique(pairs@),
            r matches Some(c) ==> c.wf() && c@ == assoc_view(pairs@),
    {
        let mut i: usize = 0;
        while i < pairs.len()
            invariant
                0 <= i <= pairs@.len(),
                forall|a: int, b: int| 0 <= a < i && 0 <= b < pairs@.len() && a != b ==> pairs@[a].0@ != pairs@[b].0@,
            decreases pairs@.len() - i,
        {
            let mut j: usize = 0;
            while j < pairs.len()
                invariant
                    0 <= i < pairs@.len(),
                    0 <= j <= pairs@.len(),
                    forall|a: int, b: int| 0 <= a < i && 0 <= b < pairs@.len() && a != b ==> pairs@[a].0@ != pairs@[b].0@,
                    forall|b: int| 0 <= b < j && b != i ==> pairs@[i as int].0@ != pairs@[b].0@,
                decreases pairs@.len() - j,
            {
                if j != i && pairs[i].0 == pairs[j].0 {
                    return None;
                }
                j = j + 1;
            }
            i = i + 1;
        }
        let ghost ps = pairs@;
        let mut out: Vec<(Actor, u64)> = Vec::new();
        proof {
            assert(ps.take(0) =~= Seq::<(String, u64)>::empty());
            lemma_assoc_empty(ps.take(0));
            lemma_assoc_empty(out@);
        }
        let mut k: usize = 0;
        while k < pairs.len()
            invariant
                ps == pairs@,
                keys_unique(ps),
                0 <= k <= ps.len(),
                keys_unique(out@),
                sorted_by_actor(out@),
                assoc_view(out@) == assoc_view(ps.take(k as int)),
            decreases ps.len() - k,
        {
            let ghost prefix = ps.take(k as int);
            proof {
                assert(ps.take(k + 1) =~= prefix.push(ps[k as int]));
                assert(keys_unique(prefix));
                assert(!has_key(prefix, ps[k as int].0@)) by {
                    if has_key(prefix, ps[k as int].0@) {
                        let j = choose|j: int| 0 <= j < prefix.len() && prefix[j].0@ == ps[k as int].0@;
                        assert(ps[j].0@ == ps[k as int].0@);
                    }
                }
                lemma_assoc_push(prefix, ps[k as int]);
                assert(!assoc_view(out@).contains_key(ps[k as int].0@));
            }
            let e = (pairs[k].0.clone(), pairs[k].1);
            insert_sorted(&mut out, e);
            k = k + 1;
        }
        proof {
            assert(ps.take(ps.len() as int) =~= ps);
        }
        Some(VClock { entries: out })
    }

    /// The counter of `actor`, if the clock has one.
    pub fn get(&self, actor: &Actor) -> (r: Option<&u64>)
        requires
            self.wf(),
        ensures
            r is Some <==> self@.contains_key(actor@),
            r matches Some(c) ==> *c == self@[actor@],
    {
        match assoc_find(&self.entries, actor) {
            Some(i) => {
                proof {
                    lemma_assoc_entry(self.entries@, i as int);
                }
                Some(&self.entries[i].1)
            },
            None => None,
        }
    }

    /// The counter of `actor`, 0 when the clock has none.
    pub fn counter(&self, actor: &Actor) -> (r: u64)
        requires
            self.wf(),
        ensures
            r == count(self@, actor@),
    {
        match self.get(actor) {
            Some(c) => *c,
            None => 0,
        }
    }

    /// Advances the counter of `actor` by one and returns the new value.
    pub fn inc(&mut self, actor: &Actor) -> (r: u64)
        requires
            old(self).wf(),
            count(old(self)@, actor@) < u64::MAX,
        ensures
            final(self).wf(),
            r == count(old(self)@, actor@) + 1,
            final(self)@ == old(self)@.insert(actor@, r),
    {
        match assoc_find(&self.entries, actor) {
            Some(i) => {
                proof {
                    lemma_assoc_entry(self.entries@, i as int);
                }
                let c = self.entries[i].1 + 1;
                let name = self.entries[i].0.clone();
                proof {
                    lemma_assoc_update(self.entries@, i as int, (name, c));
                    lemma_sorted_update(self.entries@, i as int, (name, c));
                }
                self.entries.set(i, (name, c));
                c
            },
            None => {
                let e = (actor.clone(), 1u64);
                insert_sorted(&mut self.entries, e);
                1
            },
        }
    }

    /// Joins `other` into this clock: each actor's counter becomes the larger of the two.
    pub fn merge(&mut self, other: &VClock)
        requires
            old(self).wf(),
            other.wf(),
        ensures
            final(self).wf(),
            final(self)@ == join(old(self)@, other@),
    {
        let ghost start = self@;
        let ghost os = other.entries@;
        proof {
            assert(os.take(0) =~= Seq::<(String, u64)>::empty());
            lemma_assoc_empty(os.take(0));
            assert(join(start, assoc_view(os.take(0))) =~= start);
        }
        let mut i: usize = 0;
        while i < other.entries.len()
            invariant
                self.wf(),
                os == other.entries@,
                keys_unique(os),
                0 <= i <= os.len(),
                self@ == join(start, assoc_view(os.take(i as int))),
            decreases os.len() - i,
        {
            let a = &other.entries[i].0;
            let c = other.entries[i].1;
            let ghost prefix = os.take(i as int);
            proof {
                assert(os.take(i + 1) =~= prefix.push(os[i as int]));
                assert(keys_unique(prefix));
                assert(!has_key(prefix, a@)) by {
                    if has_key(prefix, a@) {
                        let j = choose|j: int| 0 <= j < prefix.len() && prefix[j].0@ == a@;
                        assert(os[j].0@ == os[i as int].0@);
                    }
                }
                lemma_assoc_push(prefix, os[i as int]);
                assert(count(self@, a@) == count(start, a@));
                assert(join(start, assoc_view(os.take(i + 1))) =~= self@.insert(
                    a@,
                    max_u64(count(self@, a@), c),
                ));
            }
            match assoc_find(&self.entries, a) {
                Some(j) => {
                    proof {
                        lemma_assoc_entry(self.entries@, j as int);
                    }
                    let cur = self.entries[j].1;
                    let m = if cur >= c {
                        cur
                    } else {
                        c
                    };
                    let name = self.entries[j].0.clone();
                    proof {
                        lemma_assoc_update(self.entries@, j as int, (name, m));
                        lemma_sorted_update(self.entries@, j as int, (name, m));
                    }
                    self.entries.set(j, (name, m));
                },
                None => {
                    let e = (a.clone(), c);
                    insert_sorted(&mut self.entries, e);
                },
            }
            i = i + 1;
        }
        proof {
            assert(os.take(os.len() as int) =~= os);
        }
    }

    /// Whether this clock has seen at least as much of every actor as `other`.
    pub fn dominates(&self, other: &VClock) -> (r: bool)
        requires
            self.wf(),
            other.wf(),
        ensures
            r == dominates_spec(self@, other@),
    {
        let mut i: usize = 0;
        while i < other.entries.len()
            invariant
                self.wf(),
                other.wf(),
                0 <= i <= other.entries@.len(),
                forall|j: int|
                    0 <= j < i ==> other.entries@[j].1 <= count(
                        self@,
                        #[trigger] other.entries@[j].0@,
                    ),
            decreases other.entries@.len() - i,
        {
            let mine = self.counter(&other.entries[i].0);
            if mine < other.entries[i].1 {
                proof {
                    lemma_assoc_entry(other.entries@, i as int);
                }
                return false;
            }
            i = i + 1;
        }
        proof {
            assert forall|k: Seq<char>| #[trigger] other@.contains_key(k) implies other@[k] <= count(
                self@,
                k,
            ) by {
                let j = choose|j: int|
                    0 <= j < other.entries@.len() && other.entries@[j].0@ == k;
                lemma_assoc_entry(other.entries@, j);
            }
        }
        true
    }
}

} // verus!
