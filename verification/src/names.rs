//! Maps by name that keep their insertion order, from `indexmap`

use indexmap::IndexMap;
use vstd::prelude::*;

use crate::analyze::{Location, Ownership};

verus! {

/// `indexmap::IndexMap`, opaque to proofs: what a map holds is told by the
/// names of its entries below
#[verifier::external_type_specification]
#[verifier::external_body]
#[verifier::reject_recursive_types(K)]
#[verifier::reject_recursive_types(V)]
#[verifier::reject_recursive_types(S)]
pub struct ExIndexMap<K, V, S>(IndexMap<K, V, S>);

/// The entries of a map of resource ownerships, in their order (what
/// `IndexMap::iter` gives)
pub uninterp spec fn ownership_entries(m: IndexMap<String, Ownership>) -> Seq<(Seq<char>, Ownership)>;

/// The entries of a map of resource locations, in their order (what
/// `IndexMap::iter` gives)
pub uninterp spec fn location_entries(m: IndexMap<String, Location>) -> Seq<(Seq<char>, Location)>;

/// The entries of a list of named values, each name by its text
pub open spec fn named_entries<T>(s: Seq<(String, T)>) -> Seq<(Seq<char>, T)> {
    s.map_values(|e: (String, T)| (e.0@, e.1))
}

/// The entries after `k` is inserted with `v`: where `k` is there, its value
/// is replaced in its place; else the entry comes last
pub open spec fn inserted<T>(e: Seq<(Seq<char>, T)>, k: Seq<char>, v: T) -> Seq<(Seq<char>, T)> {
    if exists|i: int| 0 <= i < e.len() && e[i].0 == k {
        let i = choose|i: int| 0 <= i < e.len() && e[i].0 == k;
        e.update(i, (k, v))
    } else {
        e.push((k, v))
    }
}

/// `IndexMap::new`: an empty map
#[verifier::external_body]
fn new_ownerships() -> (m: IndexMap<String, Ownership>)
    ensures
        ownership_entries(m) == Seq::<(Seq<char>, Ownership)>::empty(),
{
    IndexMap::new()
}

/// `IndexMap::insert`: the entry for `k` gets `v`, in its place where `k` was
/// there, else last
#[verifier::external_body]
fn insert_ownership(m: &mut IndexMap<String, Ownership>, k: String, v: Ownership)
    ensures
        ownership_entries(*final(m)) == inserted(ownership_entries(*old(m)), k@, v),
{
    m.insert(k, v);
}

/// `IndexMap::new`: an empty map
#[verifier::external_body]
fn new_locations() -> (m: IndexMap<String, Location>)
    ensures
        location_entries(m) == Seq::<(Seq<char>, Location)>::empty(),
{
    IndexMap::new()
}

/// `IndexMap::insert`: the entry for `k` gets `v`, in its place where `k` was
/// there, else last
#[verifier::external_body]
fn insert_location(m: &mut IndexMap<String, Location>, k: String, v: Location)
    ensures
        location_entries(*final(m)) == inserted(location_entries(*old(m)), k@, v),
{
    m.insert(k, v);
}

/// A name not among the first `i` entries of `s` leaves an insertion there
/// at the end
proof fn lemma_insert_new<T>(s: Seq<(String, T)>, i: int)
    requires
        0 <= i < s.len(),
        forall|j: int| 0 <= j < i ==> s[j].0@ != s[i].0@,
    ensures
        inserted(named_entries(s.take(i)), s[i].0@, s[i].1) == named_entries(s.take(i + 1)),
{
    let e = named_entries(s.take(i));
    assert(!exists|j: int| 0 <= j < e.len() && e[j].0 == s[i].0@) by {
        if exists|j: int| 0 <= j < e.len() && e[j].0 == s[i].0@ {
            let j = choose|j: int| 0 <= j < e.len() && e[j].0 == s[i].0@;
            assert(e[j] == (s[j].0@, s[j].1));
        }
    }
    assert(e.push((s[i].0@, s[i].1)) =~= named_entries(s.take(i + 1)));
}

/// The ownerships `v`, whose names are distinct, as a map
pub fn ownership_map(v: &Vec<(String, Ownership)>) -> (m: IndexMap<String, Ownership>)
    requires
        forall|i: int, j: int| 0 <= i < j < v@.len() ==> v@[i].0@ != v@[j].0@,
    ensures
        ownership_entries(m) == named_entries(v@),
{
    let mut m = new_ownerships();
    let mut i: usize = 0;
    assert(named_entries(v@.take(0)) =~= Seq::<(Seq<char>, Ownership)>::empty());
    while i < v.len()
        invariant
            i <= v@.len(),
            forall|a: int, b: int| 0 <= a < b < v@.len() ==> v@[a].0@ != v@[b].0@,
            ownership_entries(m) == named_entries(v@.take(i as int)),
        decreases v@.len() - i,
    {
        proof {
            lemma_insert_new(v@, i as int);
        }
        insert_ownership(&mut m, v[i].0.clone(), v[i].1);
        i = i + 1;
    }
    assert(v@.take(v@.len() as int) =~= v@);
    m
}

/// The locations `v`, whose names are distinct, as a map
pub fn location_map(v: &Vec<(String, Location)>) -> (m: IndexMap<String, Location>)
    requires
        forall|i: int, j: int| 0 <= i < j < v@.len() ==> v@[i].0@ != v@[j].0@,
    ensures
        location_entries(m) == named_entries(v@),
{
    let mut m = new_locations();
    let mut i: usize = 0;
    assert(named_entries(v@.take(0)) =~= Seq::<(Seq<char>, Location)>::empty());
    while i < v.len()
        invariant
            i <= v@.len(),
            forall|a: int, b: int| 0 <= a < b < v@.len() ==> v@[a].0@ != v@[b].0@,
            location_entries(m) == named_entries(v@.take(i as int)),
        decreases v@.len() - i,
    {
        proof {
            lemma_insert_new(v@, i as int);
        }
        insert_location(&mut m, v[i].0.clone(), v[i].1);
        i = i + 1;
    }
    assert(v@.take(v@.len() as int) =~= v@);
    m
}

} // verus!
