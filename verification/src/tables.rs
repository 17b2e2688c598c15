//! The hash tables of the replicated types: `fxhash`'s `FxHashMap` and
//! `FxHashSet` (std's `HashMap` and `HashSet` with the Fx hasher), reached
//! through trusted wrappers whose contracts speak of what each table holds.
//!
//! Every contract below states std's documented map and set behaviour. It
//! holds because the keys are `String`s, compared and hashed by content, or
//! `Dot`s, whose derived `Eq` and `Hash` compare and hash both fields, and
//! because `FxHasher` is a deterministic hasher: equal keys hash equally.
use vstd::prelude::*;
use fxhash::{FxHashMap, FxHashSet, FxHasher};
use std::hash::BuildHasherDefault;
use crate::vclock::Dot;
use crate::lww_map::Stamp;

verus! {

/// `fxhash::FxHasher`, declared so that the tables can stand in fields.
#[verifier::external_type_specification]
#[verifier::external_body]
pub struct ExFxHasher(FxHasher);

/// `std::hash::BuildHasherDefault`, the hasher builder of the Fx tables.
#[verifier::external_type_specification]
#[verifier::external_body]
#[verifier::reject_recursive_types(H)]
pub struct ExBuildHasherDefault<H>(BuildHasherDefault<H>);

/// A set of dots.
pub type DotSet = FxHashSet<Dot>;

/// The dots of each element of an observed-remove set.
pub type AddTable = FxHashMap<String, DotSet>;

/// The current assignment of each key of a last-write-wins map.
pub type AssignTable = FxHashMap<String, (Stamp, String)>;

/// What a set of dots holds: each dot as its actor's name and its counter.
pub uninterp spec fn dot_set(s: FxHashSet<Dot>) -> Set<(Seq<char>, u64)>;

/// What an add table holds: each element's name, and the dots of its additions.
pub uninterp spec fn add_table(m: FxHashMap<String, FxHashSet<Dot>>) -> Map<
    Seq<char>,
    Set<(Seq<char>, u64)>,
>;

/// What an assignment table holds: each key's name, and its stamp
/// (timestamp, actor, counter) with its value.
pub uninterp spec fn assign_table(m: FxHashMap<String, (Stamp, String)>) -> Map<
    Seq<char>,
    ((i128, Seq<char>, u64), Seq<char>),
>;

/// An assignment as a plain value.
pub open spec fn entry_view(e: (Stamp, String)) -> ((i128, Seq<char>, u64), Seq<char>) {
    (e.0.sv(), e.1@)
}

// ---------------------------------------------------------------- dot sets

/// `FxHashSet::default`: an empty set.
#[verifier::external_body]
pub fn dots_new() -> (r: DotSet)
    ensures
        dot_set(r) == Set::<(Seq<char>, u64)>::empty(),
{
    FxHashSet::default()
}

/// `HashSet::insert`: the set afterwards also holds `d`.
#[verifier::external_body]
pub fn dots_insert(s: &mut DotSet, d: Dot)
    ensures
        dot_set(*final(s)) == dot_set(*old(s)).insert(d.dv()),
{
    s.insert(d);
}

/// `HashSet::contains`: whether the set holds `d`.
#[verifier::external_body]
pub fn dots_contains(s: &DotSet, d: &Dot) -> (r: bool)
    ensures
        r == dot_set(*s).contains(d.dv()),
{
    s.contains(d)
}

/// `HashSet::extend`, with clones of the dots of `other`: the set afterwards
/// holds the dots of both.
#[verifier::external_body]
pub fn dots_extend(s: &mut DotSet, other: &DotSet)
    ensures
        dot_set(*final(s)) == dot_set(*old(s)).union(dot_set(*other)),
{
    s.extend(other.iter().cloned());
}

/// `HashSet::iter`, collected: the dots of the set, each at least once, in
/// the order in which the set is walked (which nothing states).
#[verifier::external_body]
pub fn dots_items(s: &DotSet) -> (r: Vec<&Dot>)
    ensures
        forall|i: int| 0 <= i < r@.len() ==> dot_set(*s).contains(#[trigger] r@[i].dv()),
        forall|x: (Seq<char>, u64)|
            #[trigger] dot_set(*s).contains(x) ==> exists|i: int|
                0 <= i < r@.len() && #[trigger] r@[i].dv() == x,
{
    s.iter().collect()
}

// ------------------------------------------------------------- add tables

/// `FxHashMap::default`: an empty table.
#[verifier::external_body]
pub fn adds_new() -> (r: AddTable)
    ensures
        add_table(r).dom() == Set::<Seq<char>>::empty(),
{
    FxHashMap::default()
}

/// `HashMap::get`: the dots of `k`, if the table has an entry for it.
#[verifier::external_body]
pub fn adds_get<'a>(m: &'a AddTable, k: &String) -> (r: Option<&'a DotSet>)
    ensures
        r is Some <==> add_table(*m).contains_key(k@),
        r matches Some(s) ==> dot_set(*s) == add_table(*m)[k@],
{
    m.get(k)
}

/// `HashMap::insert`: the entry of `k` becomes `s`.
#[verifier::external_body]
pub fn adds_insert(m: &mut AddTable, k: String, s: DotSet)
    ensures
        add_table(*final(m)) == add_table(*old(m)).insert(k@, dot_set(s)),
{
    m.insert(k, s);
}

/// `HashMap::remove`: takes the entry of `k` out of the table.
#[verifier::external_body]
pub fn adds_remove(m: &mut AddTable, k: &String) -> (r: Option<DotSet>)
    ensures
        add_table(*final(m)) == add_table(*old(m)).remove(k@),
        r is Some <==> add_table(*old(m)).contains_key(k@),
        r matches Some(s) ==> dot_set(s) == add_table(*old(m))[k@],
{
    m.remove(k)
}

/// `HashMap::iter`, collected: every entry of the table once, in the order
/// in which the table is walked (which nothing states).
#[verifier::external_body]
pub fn adds_items(m: &AddTable) -> (r: Vec<(&String, &DotSet)>)
    ensures
        forall|i: int|
            0 <= i < r@.len() ==> #[trigger] add_table(*m).contains_key(r@[i].0@) && add_table(
                *m,
            )[r@[i].0@] == dot_set(*r@[i].1),
        forall|i: int, j: int|
            0 <= i < r@.len() && 0 <= j < r@.len() && i != j ==> r@[i].0@ != r@[j].0@,
        forall|k: Seq<char>|
            #[trigger] add_table(*m).contains_key(k) ==> exists|i: int|
                0 <= i < r@.len() && #[trigger] r@[i].0@ == k,
{
    m.iter().collect()
}

// ------------------------------------------------------ assignment tables

/// `FxHashMap::default`: an empty table.
#[verifier::external_body]
pub fn assigns_new() -> (r: AssignTable)
    ensures
        assign_table(r).dom() == Set::<Seq<char>>::empty(),
{
    FxHashMap::default()
}

/// `HashMap::get`: the assignment of `k`, if the table has one.
#[verifier::external_body]
pub fn assigns_get<'a>(m: &'a AssignTable, k: &String) -> (r: Option<&'a (Stamp, String)>)
    ensures
        r is Some <==> assign_table(*m).contains_key(k@),
        r matches Some(e) ==> entry_view(*e) == assign_table(*m)[k@],
{
    m.get(k)
}

/// `HashMap::insert`: the assignment of `k` becomes `e`.
#[verifier::external_body]
pub fn assigns_insert(m: &mut AssignTable, k: String, e: (Stamp, String))
    ensures
        assign_table(*final(m)) == assign_table(*old(m)).insert(k@, entry_view(e)),
{
    m.insert(k, e);
}

/// `HashMap::iter`, collected: every assignment of the table once, in the
/// order in which the table is walked (which nothing states).
#[verifier::external_body]
pub fn assigns_items(m: &AssignTable) -> (r: Vec<(&String, &(Stamp, String))>)
    ensures
        forall|i: int|
            0 <= i < r@.len() ==> #[trigger] assign_table(*m).contains_key(r@[i].0@)
                && assign_table(*m)[r@[i].0@] == entry_view(*r@[i].1),
        forall|i: int, j: int|
            0 <= i < r@.len() && 0 <= j < r@.len() && i != j ==> r@[i].0@ != r@[j].0@,
        forall|k: Seq<char>|
            #[trigger] assign_table(*m).contains_key(k) ==> exists|i: int|
                0 <= i < r@.len() && #[trigger] r@[i].0@ == k,
{
    m.iter().collect()
}

} // verus!
