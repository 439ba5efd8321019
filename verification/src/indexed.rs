//! The insertion-ordered maps and sets of the `indexmap` crate, as this library
//! uses them: declared types, names for their contents, and one wrapper per
//! method that the library calls.
//!
//! A map's contents are the sequence of its `(key, value)` entries in
//! insertion order; a set's contents are the sequence of its items.
use vstd::prelude::*;
use indexmap::{IndexMap, IndexSet};
use crate::ty::{Property, TypeId};
use crate::packager::node::NodeRef;

verus! {

#[verifier::external_type_specification]
#[verifier::external_body]
#[verifier::reject_recursive_types(K)]
#[verifier::reject_recursive_types(V)]
#[verifier::reject_recursive_types(S)]
pub struct ExIndexMap<K, V, S>(IndexMap<K, V, S>);

#[verifier::external_type_specification]
#[verifier::external_body]
#[verifier::reject_recursive_types(T)]
#[verifier::reject_recursive_types(S)]
pub struct ExIndexSet<T, S>(IndexSet<T, S>);

/// The first index of an entry whose key is `k`, or -1.
pub open spec fn key_pos<V>(e: Seq<(Seq<char>, V)>, k: Seq<char>) -> int
    decreases e.len(),
{
    if e.len() == 0 {
        -1
    } else if key_pos(e.drop_last(), k) >= 0 {
        key_pos(e.drop_last(), k)
    } else if e.last().0 == k {
        e.len() - 1
    } else {
        -1
    }
}

/// Whether some entry has key `k`.
pub open spec fn has_key<V>(e: Seq<(Seq<char>, V)>, k: Seq<char>) -> bool {
    exists|i: int| 0 <= i < e.len() && #[trigger] e[i].0 == k
}

/// `IndexMap::insert`: an existing key keeps its position and takes the new
/// value; a new key is appended.
pub open spec fn entries_insert<V>(e: Seq<(Seq<char>, V)>, k: Seq<char>, v: V) -> Seq<(Seq<char>, V)> {
    if key_pos(e, k) >= 0 {
        e.update(key_pos(e, k), (k, v))
    } else {
        e.push((k, v))
    }
}

/// No key occurs twice.
pub open spec fn keys_distinct<V>(e: Seq<(Seq<char>, V)>) -> bool {
    forall|i: int, j: int| 0 <= i < j < e.len() ==> #[trigger] e[i].0 != #[trigger] e[j].0
}

/// `IndexSet::insert`: an item already present changes nothing; a new one is appended.
pub open spec fn items_insert(s: Seq<Seq<char>>, x: Seq<char>) -> Seq<Seq<char>> {
    if s.contains(x) {
        s
    } else {
        s.push(x)
    }
}

pub proof fn lemma_key_pos<V>(e: Seq<(Seq<char>, V)>, k: Seq<char>)
    ensures
        -1 <= key_pos(e, k) < e.len(),
        key_pos(e, k) >= 0 ==> e[key_pos(e, k)].0 == k,
        key_pos(e, k) >= 0 ==> forall|j: int| 0 <= j < key_pos(e, k) ==> e[j].0 != k,
        key_pos(e, k) < 0 <==> !has_key(e, k),
    decreases e.len(),
{
    if e.len() > 0 {
        let d = e.drop_last();
        lemma_key_pos(d, k);
        assert forall|j: int| 0 <= j < d.len() implies d[j] == e[j] by {}
        if key_pos(d, k) < 0 {
            assert forall|j: int| 0 <= j < d.len() implies e[j].0 != k by {
                assert(d[j] == e[j]);
            }
            if e.last().0 != k {
                assert forall|i: int| 0 <= i < e.len() implies e[i].0 != k by {
                    if i < e.len() - 1 {
                        assert(d[i] == e[i]);
                    }
                }
            }
        }
    }
}

pub proof fn lemma_insert_distinct<V>(e: Seq<(Seq<char>, V)>, k: Seq<char>, v: V)
    requires
        keys_distinct(e),
    ensures
        keys_distinct(entries_insert(e, k, v)),
        has_key(entries_insert(e, k, v), k),
{
    lemma_key_pos(e, k);
    let r = entries_insert(e, k, v);
    if key_pos(e, k) >= 0 {
        assert(r[key_pos(e, k)].0 == k);
    } else {
        assert(r[e.len() as int].0 == k);
    }
}

// ---------------------------------------------------------------------------
// IndexMap<String, String>

/// The entries of an `IndexMap<String, String>`.
pub uninterp spec fn str_map_entries(m: IndexMap<String, String>) -> Seq<(Seq<char>, Seq<char>)>;

/// `IndexMap::new`: an empty map.
#[verifier::external_body]
pub(crate) fn str_map_new() -> (m: IndexMap<String, String>)
    ensures
        str_map_entries(m) == Seq::<(Seq<char>, Seq<char>)>::empty(),
{
    IndexMap::new()
}

/// `IndexMap::len`: the number of entries.
#[verifier::external_body]
pub(crate) fn str_map_len(m: &IndexMap<String, String>) -> (n: usize)
    ensures
        n == str_map_entries(*m).len(),
{
    m.len()
}

/// `IndexMap::get_index`: the entry at position `i`.
#[verifier::external_body]
pub(crate) fn str_map_get_index(m: &IndexMap<String, String>, i: usize) -> (r: (&String, &String))
    requires
        i < str_map_entries(*m).len(),
    ensures
        r.0@ == str_map_entries(*m)[i as int].0,
        r.1@ == str_map_entries(*m)[i as int].1,
{
    m.get_index(i).unwrap()
}

/// `IndexMap::get_index_of`: the position of the entry with key `k`, if any.
#[verifier::external_body]
pub(crate) fn str_map_index_of(m: &IndexMap<String, String>, k: &str) -> (r: Option<usize>)
    ensures
        r matches Some(i) ==> i as int == key_pos(str_map_entries(*m), k@),
        r is None ==> key_pos(str_map_entries(*m), k@) < 0,
{
    m.get_index_of(k)
}

/// `IndexMap::insert`.
#[verifier::external_body]
pub(crate) fn str_map_insert(m: &mut IndexMap<String, String>, k: String, v: String)
    ensures
        str_map_entries(*final(m)) == entries_insert(str_map_entries(*old(m)), k@, v@),
{
    m.insert(k, v);
}

/// `IndexMap::clone`: a map with the same entries.
#[verifier::external_body]
pub(crate) fn str_map_clone(m: &IndexMap<String, String>) -> (r: IndexMap<String, String>)
    ensures
        str_map_entries(r) == str_map_entries(*m),
{
    m.clone()
}

// ---------------------------------------------------------------------------
// IndexMap<String, Property>

/// The entries of an `IndexMap<String, Property>`.
pub uninterp spec fn prop_map_entries(m: IndexMap<String, Property>) -> Seq<(Seq<char>, Property)>;

/// `IndexMap::new`: an empty map.
#[verifier::external_body]
pub(crate) fn prop_map_new() -> (m: IndexMap<String, Property>)
    ensures
        prop_map_entries(m) == Seq::<(Seq<char>, Property)>::empty(),
{
    IndexMap::new()
}

/// `IndexMap::len`: the number of entries.
#[verifier::external_body]
pub(crate) fn prop_map_len(m: &IndexMap<String, Property>) -> (n: usize)
    ensures
        n == prop_map_entries(*m).len(),
{
    m.len()
}

/// `IndexMap::get_index`: the entry at position `i`.
#[verifier::external_body]
pub(crate) fn prop_map_get_index(m: &IndexMap<String, Property>, i: usize) -> (r: (&String, &Property))
    requires
        i < prop_map_entries(*m).len(),
    ensures
        r.0@ == prop_map_entries(*m)[i as int].0,
        *r.1 == prop_map_entries(*m)[i as int].1,
{
    m.get_index(i).unwrap()
}

/// `IndexMap::get_index_of`: the position of the entry with key `k`, if any.
#[verifier::external_body]
pub(crate) fn prop_map_index_of(m: &IndexMap<String, Property>, k: &str) -> (r: Option<usize>)
    ensures
        r matches Some(i) ==> i as int == key_pos(prop_map_entries(*m), k@),
        r is None ==> key_pos(prop_map_entries(*m), k@) < 0,
{
    m.get_index_of(k)
}

/// `IndexMap::insert`.
#[verifier::external_body]
pub(crate) fn prop_map_insert(m: &mut IndexMap<String, Property>, k: String, v: Property)
    ensures
        prop_map_entries(*final(m)) == entries_insert(prop_map_entries(*old(m)), k@, v),
{
    m.insert(k, v);
}

/// `IndexMap::get_index_mut`, then an assignment: the value at position `i`
/// becomes `v`, its key stays.
#[verifier::external_body]
pub(crate) fn prop_map_set_at(m: &mut IndexMap<String, Property>, i: usize, v: Property)
    requires
        i < prop_map_entries(*old(m)).len(),
    ensures
        prop_map_entries(*final(m)) == prop_map_entries(*old(m)).update(
            i as int,
            (prop_map_entries(*old(m))[i as int].0, v),
        ),
{
    *m.get_index_mut(i).unwrap().1 = v;
}

// ---------------------------------------------------------------------------
// IndexMap<String, TypeId>

/// The entries of an `IndexMap<String, TypeId>`.
pub uninterp spec fn id_map_entries(m: IndexMap<String, TypeId>) -> Seq<(Seq<char>, TypeId)>;

/// `IndexMap::new`: an empty map.
#[verifier::external_body]
pub(crate) fn id_map_new() -> (m: IndexMap<String, TypeId>)
    ensures
        id_map_entries(m) == Seq::<(Seq<char>, TypeId)>::empty(),
{
    IndexMap::new()
}

/// `IndexMap::len`: the number of entries.
#[verifier::external_body]
pub(crate) fn id_map_len(m: &IndexMap<String, TypeId>) -> (n: usize)
    ensures
        n == id_map_entries(*m).len(),
{
    m.len()
}

/// `IndexMap::get_index`: the entry at position `i`.
#[verifier::external_body]
pub(crate) fn id_map_get_index(m: &IndexMap<String, TypeId>, i: usize) -> (r: (&String, &TypeId))
    requires
        i < id_map_entries(*m).len(),
    ensures
        r.0@ == id_map_entries(*m)[i as int].0,
        *r.1 == id_map_entries(*m)[i as int].1,
{
    m.get_index(i).unwrap()
}

/// `IndexMap::get_index_of`: the position of the entry with key `k`, if any.
#[verifier::external_body]
pub(crate) fn id_map_index_of(m: &IndexMap<String, TypeId>, k: &str) -> (r: Option<usize>)
    ensures
        r matches Some(i) ==> i as int == key_pos(id_map_entries(*m), k@),
        r is None ==> key_pos(id_map_entries(*m), k@) < 0,
{
    m.get_index_of(k)
}

/// `IndexMap::insert`.
#[verifier::external_body]
pub(crate) fn id_map_insert(m: &mut IndexMap<String, TypeId>, k: String, v: TypeId)
    ensures
        id_map_entries(*final(m)) == entries_insert(id_map_entries(*old(m)), k@, v),
{
    m.insert(k, v);
}

// ---------------------------------------------------------------------------
// IndexMap<String, NodeRef>

/// The entries of an `IndexMap<String, NodeRef>`.
pub uninterp spec fn node_map_entries(m: IndexMap<String, NodeRef>) -> Seq<(Seq<char>, NodeRef)>;

/// `IndexMap::new`: an empty map.
#[verifier::external_body]
pub(crate) fn node_map_new() -> (m: IndexMap<String, NodeRef>)
    ensures
        node_map_entries(m) == Seq::<(Seq<char>, NodeRef)>::empty(),
{
    IndexMap::new()
}

/// `IndexMap::len`: the number of entries.
#[verifier::external_body]
pub(crate) fn node_map_len(m: &IndexMap<String, NodeRef>) -> (n: usize)
    ensures
        n == node_map_entries(*m).len(),
{
    m.len()
}

/// `IndexMap::get_index`: the entry at position `i`.
#[verifier::external_body]
pub(crate) fn node_map_get_index(m: &IndexMap<String, NodeRef>, i: usize) -> (r: (&String, &NodeRef))
    requires
        i < node_map_entries(*m).len(),
    ensures
        r.0@ == node_map_entries(*m)[i as int].0,
        *r.1 == node_map_entries(*m)[i as int].1,
{
    m.get_index(i).unwrap()
}

/// `IndexMap::get_index_of`: the position of the entry with key `k`, if any.
#[verifier::external_body]
pub(crate) fn node_map_index_of(m: &IndexMap<String, NodeRef>, k: &str) -> (r: Option<usize>)
    ensures
        r matches Some(i) ==> i as int == key_pos(node_map_entries(*m), k@),
        r is None ==> key_pos(node_map_entries(*m), k@) < 0,
{
    m.get_index_of(k)
}

/// `IndexMap::insert`.
#[verifier::external_body]
pub(crate) fn node_map_insert(m: &mut IndexMap<String, NodeRef>, k: String, v: NodeRef)
    ensures
        node_map_entries(*final(m)) == entries_insert(node_map_entries(*old(m)), k@, v),
{
    m.insert(k, v);
}

/// `IndexMap::clone`: a map with the same entries.
#[verifier::external_body]
pub(crate) fn node_map_clone(m: &IndexMap<String, NodeRef>) -> (r: IndexMap<String, NodeRef>)
    ensures
        node_map_entries(r) == node_map_entries(*m),
{
    m.clone()
}

// ---------------------------------------------------------------------------
// IndexSet<String>

/// The items of an `IndexSet<String>`, in insertion order.
pub uninterp spec fn str_set_items(s: IndexSet<String>) -> Seq<Seq<char>>;

/// `IndexSet::new`: an empty set.
#[verifier::external_body]
pub(crate) fn str_set_new() -> (s: IndexSet<String>)
    ensures
        str_set_items(s) == Seq::<Seq<char>>::empty(),
{
    IndexSet::new()
}

/// `IndexSet::len`: the number of items.
#[verifier::external_body]
pub(crate) fn str_set_len(s: &IndexSet<String>) -> (n: usize)
    ensures
        n == str_set_items(*s).len(),
{
    s.len()
}

/// `IndexSet::get_index`: the item at position `i`.
#[verifier::external_body]
pub(crate) fn str_set_get_index(s: &IndexSet<String>, i: usize) -> (r: &String)
    requires
        i < str_set_items(*s).len(),
    ensures
        r@ == str_set_items(*s)[i as int],
{
    s.get_index(i).unwrap()
}

/// `IndexSet::insert`.
#[verifier::external_body]
pub(crate) fn str_set_insert(s: &mut IndexSet<String>, x: String)
    ensures
        str_set_items(*final(s)) == items_insert(str_set_items(*old(s)), x@),
{
    s.insert(x);
}

} // verus!
