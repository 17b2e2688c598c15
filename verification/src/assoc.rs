//! Association lists keyed by strings: a `Vec` of `(String, V)` pairs in
//! which no name occurs twice, read as a map from names to values.
use vstd::prelude::*;

verus! {

/// No name occurs twice in `s`.
pub open spec fn keys_unique<V>(s: Seq<(String, V)>) -> bool {
    forall|i: int, j: int| 0 <= i < s.len() && 0 <= j < s.len() && i != j ==> s[i].0@ != s[j].0@
}

/// `k` is the name of some entry of `s`.
pub open spec fn has_key<V>(s: Seq<(String, V)>, k: Seq<char>) -> bool {
    exists|i: int| 0 <= i < s.len() && s[i].0@ == k
}

/// The map that an association list stands for.
pub open spec fn assoc_view<V>(s: Seq<(String, V)>) -> Map<Seq<char>, V> {
    Map::new(
        |k: Seq<char>| has_key(s, k),
        |k: Seq<char>| s[choose|i: int| 0 <= i < s.len() && s[i].0@ == k].1,
    )
}

/// Each entry of a list without repeated names is read back from its map.
pub proof fn lemma_assoc_entry<V>(s: Seq<(String, V)>, i: int)
    requires
        keys_unique(s),
        0 <= i < s.len(),
    ensures
        assoc_view(s).contains_key(s[i].0@),
        assoc_view(s)[s[i].0@] == s[i].1,
{
    let k = s[i].0@;
    assert(has_key(s, k));
    let j = choose|j: int| 0 <= j < s.len() && s[j].0@ == k;
    assert(j == i);
}

/// Replacing the value of an entry, under the same name, updates the map at that name.
pub proof fn lemma_assoc_update<V>(s: Seq<(String, V)>, i: int, e: (String, V))
    requires
        keys_unique(s),
        0 <= i < s.len(),
        e.0@ == s[i].0@,
    ensures
        keys_unique(s.update(i, e)),
        assoc_view(s.update(i, e)) == assoc_view(s).insert(e.0@, e.1),
{
    let t = s.update(i, e);
    assert forall|k: Seq<char>| has_key(t, k) <==> has_key(s, k) || k == e.0@ by {
        if has_key(s, k) {
            let j = choose|j: int| 0 <= j < s.len() && s[j].0@ == k;
            assert(t[j].0@ == k);
        }
        if has_key(t, k) {
            let j = choose|j: int| 0 <= j < t.len() && t[j].0@ == k;
            assert(s[j].0@ == k);
        }
        if k == e.0@ {
            assert(t[i].0@ == k);
        }
    }
    assert forall|k: Seq<char>| #[trigger] has_key(t, k) implies assoc_view(t)[k] == assoc_view(
        s,
    ).insert(e.0@, e.1)[k] by {
        let j = choose|j: int| 0 <= j < t.len() && t[j].0@ == k;
        if k == e.0@ {
            assert(j == i);
        } else {
            assert(has_key(s, k));
            let j2 = choose|j2: int| 0 <= j2 < s.len() && s[j2].0@ == k;
            assert(j2 == j);
        }
    }
    assert(assoc_view(t) =~= assoc_view(s).insert(e.0@, e.1));
}

/// Appending an entry under a new name inserts it into the map.
pub proof fn lemma_assoc_push<V>(s: Seq<(String, V)>, e: (String, V))
    requires
        keys_unique(s),
        !has_key(s, e.0@),
    ensures
        keys_unique(s.push(e)),
        assoc_view(s.push(e)) == assoc_view(s).insert(e.0@, e.1),
{
    let t = s.push(e);
    let n = s.len() as int;
    assert forall|k: Seq<char>| has_key(t, k) <==> has_key(s, k) || k == e.0@ by {
        if has_key(s, k) {
            let j = choose|j: int| 0 <= j < s.len() && s[j].0@ == k;
            assert(t[j].0@ == k);
        }
        if has_key(t, k) {
            let j = choose|j: int| 0 <= j < t.len() && t[j].0@ == k;
            if j < n {
                assert(s[j].0@ == k);
            }
        }
        if k == e.0@ {
            assert(t[n].0@ == k);
        }
    }
    assert forall|k: Seq<char>| #[trigger] has_key(t, k) implies assoc_view(t)[k] == assoc_view(
        s,
    ).insert(e.0@, e.1)[k] by {
        let j = choose|j: int| 0 <= j < t.len() && t[j].0@ == k;
        if k == e.0@ {
            if j < n {
                assert(has_key(s, e.0@));
            }
        } else {
            assert(has_key(s, k));
            let j2 = choose|j2: int| 0 <= j2 < s.len() && s[j2].0@ == k;
            assert(t[j2] == s[j2]);
            assert(j2 == j);
        }
    }
    assert(assoc_view(t) =~= assoc_view(s).insert(e.0@, e.1));
}

/// Inserting an entry under a new name, at any position, inserts it into the map.
pub proof fn lemma_assoc_insert<V>(s: Seq<(String, V)>, p: int, e: (String, V))
    requires
        keys_unique(s),
        !has_key(s, e.0@),
        0 <= p <= s.len(),
    ensures
        keys_unique(s.insert(p, e)),
        assoc_view(s.insert(p, e)) == assoc_view(s).insert(e.0@, e.1),
{
    let t = s.insert(p, e);
    assert forall|i: int, j: int| 0 <= i < t.len() && 0 <= j < t.len() && i != j implies t[i].0@ != t[j].0@ by {
        if i != p && j != p {
            let si = if i < p { i } else { i - 1 };
            let sj = if j < p { j } else { j - 1 };
            assert(t[i] == s[si] && t[j] == s[sj]);
        } else if i == p {
            let sj = if j < p { j } else { j - 1 };
            assert(t[j] == s[sj]);
        } else {
            let si = if i < p { i } else { i - 1 };
            assert(t[i] == s[si]);
        }
    }
    assert forall|k: Seq<char>| has_key(t, k) <==> has_key(s, k) || k == e.0@ by {
        if has_key(s, k) {
            let j = choose|j: int| 0 <= j < s.len() && s[j].0@ == k;
            if j < p {
                assert(t[j] == s[j]);
            } else {
                assert(t[j + 1] == s[j]);
            }
        }
        if has_key(t, k) {
            let j = choose|j: int| 0 <= j < t.len() && t[j].0@ == k;
            if j < p {
                assert(s[j] == t[j]);
            } else if j > p {
                assert(s[j - 1] == t[j]);
            }
        }
        if k == e.0@ {
            assert(t[p].0@ == k);
        }
    }
    assert forall|k: Seq<char>| #[trigger] has_key(t, k) implies assoc_view(t)[k] == assoc_view(
        s,
    ).insert(e.0@, e.1)[k] by {
        let j = choose|j: int| 0 <= j < t.len() && t[j].0@ == k;
        if k == e.0@ {
            assert(t[p].0@ == k);
            assert(j == p);
        } else {
            assert(has_key(s, k));
            let j2 = choose|j2: int| 0 <= j2 < s.len() && s[j2].0@ == k;
            let tj = if j2 < p { j2 } else { j2 + 1 };
            assert(t[tj] == s[j2]);
            assert(tj == j);
        }
    }
    assert(assoc_view(t) =~= assoc_view(s).insert(e.0@, e.1));
}

/// The map of the empty list is empty.
pub proof fn lemma_assoc_empty<V>(s: Seq<(String, V)>)
    requires
        s.len() == 0,
    ensures
        keys_unique(s),
        assoc_view(s) == Map::<Seq<char>, V>::empty(),
{
    assert(assoc_view(s) =~= Map::<Seq<char>, V>::empty());
}

/// Finds the position of the entry named `k`.
pub fn assoc_find<V>(s: &Vec<(String, V)>, k: &String) -> (r: Option<usize>)
    ensures
        r matches Some(i) ==> i < s@.len() && s@[i as int].0@ == k@,
        r is None ==> !has_key(s@, k@),
{
    let mut i: usize = 0;
    while i < s.len()
        invariant
            0 <= i <= s@.len(),
            forall|j: int| 0 <= j < i ==> s@[j].0@ != k@,
        decreases s@.len() - i,
    {
        if s[i].0 == *k {
            return Some(i);
        }
        i = i + 1;
    }
    None
}

} // verus!
