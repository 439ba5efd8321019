//! Interface merging and the `Omit`/`Pick`/`resolveValue` helpers. These
//! operate on materialized nodes of a [`NodeArena`].
//!
//! The registry of interfaces and aliases (`nodes`) maps a declaration id to
//! the node registered for it.
use vstd::prelude::*;
use indexmap::IndexMap;
use crate::indexed::{
    key_pos, has_key, entries_insert, keys_distinct, lemma_key_pos, node_map_entries, node_map_new,
    node_map_len, node_map_get_index, node_map_index_of, node_map_insert, node_map_clone,
};
use crate::packager::node::{Node, NodeKind, NodeRef, NodeArena, copy_refs, children_below, node_children, map_refs, all_below, lemma_all_below_concat,
    maps_distinct, placeable, extends_arena};
use crate::parse::depth_limit;
use crate::text::{chars_of, chars_eq};
use crate::ty::copy_opt;

verus! {

/// The entries of a property map or registry.
pub type Entries = Seq<(Seq<char>, NodeRef)>;

/// `b`'s entries whose key `a` lacks, appended to `a` in `b`'s order.
pub open spec fn merge_into(a: Entries, b: Entries) -> Entries
    decreases b.len(),
{
    if b.len() == 0 {
        a
    } else {
        let m = merge_into(a, b.drop_last());
        if has_key(m, b.last().0) {
            m
        } else {
            m.push(b.last())
        }
    }
}

/// The node registered under `id`, if any.
pub open spec fn registry_get(reg: Entries, id: Seq<char>) -> Option<NodeRef> {
    if key_pos(reg, id) >= 0 {
        Some(reg[key_pos(reg, id)].1)
    } else {
        None
    }
}

/// Follows `link` (through the registry), `application` (to its base) and
/// `alias` (to its value) nodes to the underlying value node, following at
/// most `fuel` links.
pub open spec fn resolve_value_s(nodes: Seq<Node>, reg: Entries, r: NodeRef, fuel: nat) -> NodeRef
    decreases fuel, r.0,
{
    if r.0 >= nodes.len() {
        r
    } else {
        match nodes[r.0 as int].kind {
            NodeKind::Link { id } => match registry_get(reg, id@) {
                Some(t) => if fuel == 0 {
                    r
                } else {
                    resolve_value_s(nodes, reg, t, (fuel - 1) as nat)
                },
                None => r,
            },
            NodeKind::Application { base, .. } => if base.0 < r.0 {
                resolve_value_s(nodes, reg, base, fuel)
            } else {
                r
            },
            NodeKind::Alias { value, .. } => if value.0 < r.0 {
                resolve_value_s(nodes, reg, value, fuel)
            } else {
                r
            },
            _ => r,
        }
    }
}

/// Whether `n` is a string literal node holding `k`.
pub open spec fn is_string_lit(n: Node, k: Seq<char>) -> bool {
    n.kind matches NodeKind::String { value: Some(v) } && v@ == k
}

/// Whether `k` is one of the string keys named by the node at `r`: the
/// value of a string literal, or of a string literal in a union.
pub open spec fn names_key(nodes: Seq<Node>, r: NodeRef, k: Seq<char>) -> bool {
    r.0 < nodes.len() && match nodes[r.0 as int].kind {
        NodeKind::String { value: Some(v) } => v@ == k,
        NodeKind::Union { elements } => exists|i: int|
            0 <= i < elements@.len() && elements@[i].0 < nodes.len()
                && is_string_lit(#[trigger] nodes[elements@[i].0 as int], k),
        _ => false,
    }
}

/// Whether one of the first `k` of `elements` is a string literal holding `key`.
pub open spec fn lit_among(nodes: Seq<Node>, elements: Seq<NodeRef>, k: int, key: Seq<char>) -> bool {
    exists|i: int| 0 <= i < k && is_string_lit(#[trigger] nodes[elements[i].0 as int], key)
}

/// The entries of `e` whose key is (`keep`) or is not (`!keep`) named by the
/// node at `keys`.
pub open spec fn filter_entries(e: Entries, nodes: Seq<Node>, keys: NodeRef, keep: bool) -> Entries
    decreases e.len(),
{
    if e.len() == 0 {
        e
    } else {
        let f = filter_entries(e.drop_last(), nodes, keys, keep);
        if names_key(nodes, keys, e.last().0) == keep {
            f.push(e.last())
        } else {
            f
        }
    }
}

/// Law: `Pick` and `Omit` with the same keys split a property map: `Pick`
/// keeps exactly the entries whose key is named, `Omit` exactly the others,
/// and together they keep as many entries as the map has.
pub proof fn law_pick_omit_partition(e: Entries, nodes: Seq<Node>, keys: NodeRef)
    ensures
        filter_entries(e, nodes, keys, true).len() + filter_entries(e, nodes, keys, false).len() == e.len(),
        forall|x: (Seq<char>, NodeRef)| #[trigger] filter_entries(e, nodes, keys, true).contains(x) <==> e.contains(x)
            && names_key(nodes, keys, x.0),
        forall|x: (Seq<char>, NodeRef)| #[trigger] filter_entries(e, nodes, keys, false).contains(x) <==> e.contains(x)
            && !names_key(nodes, keys, x.0),
    decreases e.len(),
{
    if e.len() > 0 {
        let d = e.drop_last();
        let l = e.last();
        law_pick_omit_partition(d, nodes, keys);
        assert(e =~= d.push(l));
        let t = filter_entries(d, nodes, keys, true);
        let f = filter_entries(d, nodes, keys, false);
        let tt = filter_entries(e, nodes, keys, true);
        let ff = filter_entries(e, nodes, keys, false);
        if names_key(nodes, keys, l.0) {
            assert(tt == t.push(l));
            assert(ff == f);
        } else {
            assert(tt == t);
            assert(ff == f.push(l));
        }
        assert forall|x: (Seq<char>, NodeRef)| #[trigger] tt.contains(x) <==> e.contains(x) && names_key(nodes, keys, x.0) by {
            lemma_push_contains(d, l, x);
            lemma_push_contains(t, l, x);
            assert(t.contains(x) <==> d.contains(x) && names_key(nodes, keys, x.0));
        }
        assert forall|x: (Seq<char>, NodeRef)| #[trigger] ff.contains(x) <==> e.contains(x) && !names_key(nodes, keys, x.0) by {
            lemma_push_contains(d, l, x);
            lemma_push_contains(f, l, x);
            assert(f.contains(x) <==> d.contains(x) && !names_key(nodes, keys, x.0));
        }
    }
}

/// The properties of an interface or object type node (none for any other
/// node).
pub open spec fn props_of(n: Node) -> Entries {
    match n.kind {
        NodeKind::Interface { properties, .. } => node_map_entries(properties),
        NodeKind::Object { properties: Some(p), .. } => node_map_entries(p),
        _ => Seq::empty(),
    }
}

/// Law: `Pick` and `Omit` with the same keys on the same object give the node
/// the object resolves to, and differ from it only in its properties. When the
/// keys name no key, or that node is neither an interface nor an object type,
/// both give that node itself. Otherwise both give a copy of it: `Pick` with
/// exactly the properties whose key is named, `Omit` with exactly the others,
/// each in the node's order, so that together they hold every property once.
pub proof fn law_pick_omit(
    before: Seq<Node>,
    reg: Entries,
    obj: NodeRef,
    keys: NodeRef,
    after_pick: Seq<Node>,
    picked: NodeRef,
    after_omit: Seq<Node>,
    omitted: NodeRef,
)
    requires
        filter_keys_ok(before, after_pick, reg, obj, keys, true, picked),
        filter_keys_ok(before, after_omit, reg, obj, keys, false, omitted),
    ensures
        ({
            let res = resolve_value_s(before, reg, obj, depth_limit());
            if names_some_key(before, keys) && (before[res.0 as int].kind is Interface || before[res.0 as int].kind is Object) {
                &&& filtered_from(before[res.0 as int], after_pick[picked.0 as int], before, keys, true)
                &&& filtered_from(before[res.0 as int], after_omit[omitted.0 as int], before, keys, false)
                &&& props_of(after_pick[picked.0 as int]) == filter_entries(props_of(before[res.0 as int]), before, keys, true)
                &&& props_of(after_omit[omitted.0 as int]) == filter_entries(props_of(before[res.0 as int]), before, keys, false)
                &&& props_of(after_pick[picked.0 as int]).len() + props_of(after_omit[omitted.0 as int]).len()
                    == props_of(before[res.0 as int]).len()
                &&& forall|x: (Seq<char>, NodeRef)| #[trigger] props_of(after_pick[picked.0 as int]).contains(x) <==> props_of(
                    before[res.0 as int],
                ).contains(x) && names_key(before, keys, x.0)
                &&& forall|x: (Seq<char>, NodeRef)| #[trigger] props_of(after_omit[omitted.0 as int]).contains(x) <==> props_of(
                    before[res.0 as int],
                ).contains(x) && !names_key(before, keys, x.0)
            } else {
                &&& picked == res && after_pick == before
                &&& omitted == res && after_omit == before
            }
        }),
{
    let res = resolve_value_s(before, reg, obj, depth_limit());
    let e = props_of(before[res.0 as int]);
    law_pick_omit_partition(e, before, keys);
    if names_some_key(before, keys) && (before[res.0 as int].kind is Interface || before[res.0 as int].kind is Object) {
        if let NodeKind::Object { properties: None, .. } = before[res.0 as int].kind {
            assert(e.len() == 0);
            assert(filter_entries(e, before, keys, true) =~= e);
            assert(filter_entries(e, before, keys, false) =~= e);
        }
    }
}

proof fn lemma_push_contains(s: Entries, a: (Seq<char>, NodeRef), x: (Seq<char>, NodeRef))
    ensures
        s.push(a).contains(x) <==> s.contains(x) || x == a,
{
    let p = s.push(a);
    if p.contains(x) {
        let i = choose|i: int| 0 <= i < p.len() && p[i] == x;
        if i < s.len() {
            assert(s[i] == x);
        }
    }
    if s.contains(x) {
        let i = choose|i: int| 0 <= i < s.len() && s[i] == x;
        assert(p[i] == x);
    }
    if x == a {
        assert(p[s.len() as int] == x);
    }
}

/// `new` is `old` with its properties filtered by the keys the node at `keys`
/// names; an interface or object keeps its other fields and its description.
pub open spec fn filtered_from(old: Node, new: Node, nodes: Seq<Node>, keys: NodeRef, keep: bool) -> bool {
    &&& new.description == old.description
    &&& match (old.kind, new.kind) {
        (
            NodeKind::Interface { id, name, extends, properties, type_parameters, access },
            NodeKind::Interface {
                id: id2,
                name: name2,
                extends: extends2,
                properties: properties2,
                type_parameters: type_parameters2,
                access: access2,
            },
        ) => id2 == id && name2 == name && extends2@ == extends@ && type_parameters2@ == type_parameters@
            && access2 == access && node_map_entries(properties2) == filter_entries(
            node_map_entries(properties),
            nodes,
            keys,
            keep,
        ),
        (NodeKind::Object { properties, access }, NodeKind::Object { properties: properties2, access: access2 }) =>
            access2 == access && match (properties, properties2) {
            (Some(p), Some(p2)) => node_map_entries(p2) == filter_entries(node_map_entries(p), nodes, keys, keep),
            (None, None) => true,
            _ => false,
        },
        _ => false,
    }
}

/// The node whose interface `merge_interface` flattens: the base of an
/// application, the value of an alias, or the node itself.
pub open spec fn unwrap_decl(nodes: Seq<Node>, r: NodeRef) -> NodeRef {
    if r.0 < nodes.len() {
        match nodes[r.0 as int].kind {
            NodeKind::Application { base, .. } => if base.0 < r.0 {
                base
            } else {
                r
            },
            NodeKind::Alias { value, .. } => if value.0 < r.0 {
                value
            } else {
                r
            },
            _ => r,
        }
    } else {
        r
    }
}

/// Whether the node at `r` is an interface.
pub open spec fn is_interface_at(nodes: Seq<Node>, r: NodeRef) -> bool {
    r.0 < nodes.len() && nodes[r.0 as int].kind is Interface
}

/// The properties of the flattened interface of the node at `r` (empty when
/// it is no interface): its own properties, then those inherited from each
/// interface it extends that it lacks, in `extends` order.
pub open spec fn merged_entries(nodes: Seq<Node>, r: NodeRef) -> Entries
    decreases r.0, 1nat,
{
    let o = unwrap_decl(nodes, r);
    if o.0 <= r.0 && o.0 < nodes.len() {
        match nodes[o.0 as int].kind {
            NodeKind::Interface { extends, properties, .. } => merged_over(
                nodes,
                o,
                extends@,
                extends@.len() as int,
                node_map_entries(properties),
            ),
            _ => Seq::empty(),
        }
    } else {
        Seq::empty()
    }
}

/// `acc` with the flattened properties of the first `k` of `exts` (those that
/// are interfaces, and lie below `o`) merged into it.
pub open spec fn merged_over(nodes: Seq<Node>, o: NodeRef, exts: Seq<NodeRef>, k: int, acc: Entries) -> Entries
    decreases o.0, 0nat, k,
{
    if k <= 0 || k > exts.len() {
        acc
    } else {
        let m = merged_over(nodes, o, exts, k - 1, acc);
        let e = exts[k - 1];
        if e.0 < o.0 && is_interface_at(nodes, unwrap_decl(nodes, e)) {
            merge_into(m, merged_entries(nodes, e))
        } else {
            m
        }
    }
}

/// The `extends` of the flattened interface: the first `k` of `exts` that are
/// not interfaces, each replaced by the node it unwraps to.
pub open spec fn kept_extends(nodes: Seq<Node>, o: NodeRef, exts: Seq<NodeRef>, k: int) -> Seq<NodeRef>
    decreases k,
{
    if k <= 0 || k > exts.len() {
        Seq::empty()
    } else {
        let m = kept_extends(nodes, o, exts, k - 1);
        let e = exts[k - 1];
        if e.0 < o.0 && is_interface_at(nodes, unwrap_decl(nodes, e)) {
            m
        } else {
            m.push(unwrap_decl(nodes, e))
        }
    }
}

/// Merging `b` into `a` keeps every entry of `a` where it was and adds only
/// keys of `b`; no key occurs twice when none did in `a`.
pub proof fn lemma_merge_into(a: Entries, b: Entries)
    ensures
        merge_into(a, b).len() >= a.len(),
        forall|i: int| 0 <= i < a.len() ==> #[trigger] merge_into(a, b)[i] == a[i],
        forall|i: int| a.len() <= i < merge_into(a, b).len() ==> exists|j: int| 0 <= j < b.len() && #[trigger] merge_into(a, b)[i] == b[j],
        forall|k: Seq<char>| #[trigger] has_key(merge_into(a, b), k) <==> has_key(a, k) || has_key(b, k),
        keys_distinct(a) ==> keys_distinct(merge_into(a, b)),
    decreases b.len(),
{
    if b.len() > 0 {
        let d = b.drop_last();
        lemma_merge_into(a, d);
        let m = merge_into(a, d);
        assert forall|k: Seq<char>| has_key(d, k) implies has_key(b, k) by {
            let i = choose|i: int| 0 <= i < d.len() && #[trigger] d[i].0 == k;
            assert(b[i] == d[i]);
        }
        assert forall|k: Seq<char>| has_key(b, k) implies has_key(d, k) || k == b.last().0 by {
            let i = choose|i: int| 0 <= i < b.len() && #[trigger] b[i].0 == k;
            if i < d.len() {
                assert(b[i] == d[i]);
            }
        }
        assert(has_key(b, b.last().0)) by {
            assert(b[b.len() - 1].0 == b.last().0);
        }
        assert forall|i: int| a.len() <= i < m.len() implies exists|j: int| 0 <= j < b.len() && #[trigger] m[i] == b[j] by {
            let j = choose|j: int| 0 <= j < d.len() && m[i] == d[j];
            assert(b[j] == d[j]);
        }
        if !has_key(m, b.last().0) {
            let r = m.push(b.last());
            assert forall|i: int| a.len() <= i < r.len() implies exists|j: int| 0 <= j < b.len() && #[trigger] r[i] == b[j] by {
                if i < m.len() {
                    assert(r[i] == m[i]);
                } else {
                    assert(r[i] == b[b.len() - 1]);
                }
            }
            assert forall|k: Seq<char>| #[trigger] has_key(r, k) <==> has_key(a, k) || has_key(b, k) by {
                if has_key(r, k) {
                    let i = choose|i: int| 0 <= i < r.len() && #[trigger] r[i].0 == k;
                    if i < m.len() {
                        assert(m[i] == r[i]);
                    }
                }
                if has_key(m, k) {
                    let i = choose|i: int| 0 <= i < m.len() && #[trigger] m[i].0 == k;
                    assert(r[i] == m[i]);
                }
                if k == b.last().0 {
                    assert(r[r.len() - 1].0 == k);
                }
            }
            if keys_distinct(a) {
                assert forall|i: int, j: int| 0 <= i < j < r.len() implies #[trigger] r[i].0 != #[trigger] r[j].0 by {
                    if j == r.len() - 1 {
                        assert(r[i] == m[i]);
                        if r[i].0 == r[j].0 {
                            assert(has_key(m, b.last().0));
                        }
                    } else {
                        assert(r[i] == m[i] && r[j] == m[j]);
                    }
                }
            }
        }
    }
}

/// The node registered under `id`, if any.
pub fn registry_lookup(reg: &IndexMap<String, NodeRef>, id: &str) -> (r: Option<NodeRef>)
    ensures
        r == registry_get(node_map_entries(*reg), id@),
{
    proof {
        lemma_key_pos(node_map_entries(*reg), id@);
    }
    match node_map_index_of(reg, id) {
        Some(i) => {
            let (_, v) = node_map_get_index(reg, i);
            Some(*v)
        },
        None => None,
    }
}

/// Registers `node` under `id` unless something is registered there already.
pub fn register(reg: &mut IndexMap<String, NodeRef>, id: String, node: NodeRef)
    ensures
        registry_get(node_map_entries(*old(reg)), id@) is Some ==> *final(reg) == *old(reg),
        registry_get(node_map_entries(*old(reg)), id@) is None ==> node_map_entries(*final(reg))
            == node_map_entries(*old(reg)).push((id@, node)),
{
    proof {
        lemma_key_pos(node_map_entries(*reg), id@);
    }
    if node_map_index_of(reg, id.as_str()).is_none() {
        node_map_insert(reg, id, node);
    }
}

/// Copies keys from `b` into `a` that `a` does not already have.
pub fn merge_props(a: &mut IndexMap<String, NodeRef>, b: &IndexMap<String, NodeRef>)
    ensures
        node_map_entries(*final(a)) == merge_into(node_map_entries(*old(a)), node_map_entries(*b)),
{
    let ghost a0 = node_map_entries(*a);
    let ghost eb = node_map_entries(*b);
    let n = node_map_len(b);
    let mut k: usize = 0;
    while k < n
        invariant
            k <= n,
            n == eb.len(),
            eb == node_map_entries(*b),
            node_map_entries(*a) == merge_into(a0, eb.take(k as int)),
        decreases n - k,
    {
        let (key, v) = node_map_get_index(b, k);
        proof {
            lemma_key_pos(node_map_entries(*a), key@);
            assert(eb.take(k + 1).drop_last() == eb.take(k as int));
            assert(eb.take(k + 1).last() == eb[k as int]);
        }
        if node_map_index_of(a, key.as_str()).is_none() {
            node_map_insert(a, key.clone(), *v);
        }
        k = k + 1;
    }
    proof {
        assert(eb.take(n as int) == eb);
    }
}

/// Follows `link`/`application`/`alias` nodes to the underlying value node.
pub fn resolve_value(arena: &NodeArena, obj: NodeRef, nodes: &IndexMap<String, NodeRef>) -> (r: NodeRef)
    requires
        arena.wf(),
        arena.holds(obj),
        forall|i: int| 0 <= i < node_map_entries(*nodes).len() ==> arena.holds(#[trigger] node_map_entries(*nodes)[i].1),
    ensures
        r == resolve_value_s(arena.nodes@, node_map_entries(*nodes), obj, depth_limit()),
        arena.holds(r),
{
    resolve_value_within(arena, obj, nodes, u64::MAX)
}

fn resolve_value_within(arena: &NodeArena, obj: NodeRef, nodes: &IndexMap<String, NodeRef>, fuel: u64) -> (r: NodeRef)
    requires
        arena.wf(),
        arena.holds(obj),
        forall|i: int| 0 <= i < node_map_entries(*nodes).len() ==> arena.holds(#[trigger] node_map_entries(*nodes)[i].1),
    ensures
        r == resolve_value_s(arena.nodes@, node_map_entries(*nodes), obj, fuel as nat),
        arena.holds(r),
    decreases fuel, obj.0,
{
    let node = arena.get(obj);
    proof {
        assert(placeable(arena.nodes@[obj.0 as int], obj.0 as nat));
    }
    match &node.kind {
        NodeKind::Link { id } => match registry_lookup(nodes, id.as_str()) {
            Some(t) => {
                proof {
                    lemma_key_pos(node_map_entries(*nodes), id@);
                }
                if fuel == 0 {
                    obj
                } else {
                    resolve_value_within(arena, t, nodes, fuel - 1)
                }
            },
            None => obj,
        },
        NodeKind::Application { base, .. } => {
            proof {
                assert(node_children(*node)[0] == *base);
            }
            resolve_value_within(arena, *base, nodes, fuel)
        },
        NodeKind::Alias { value, .. } => {
            proof {
                assert(node_children(*node)[0] == *value);
            }
            resolve_value_within(arena, *value, nodes, fuel)
        },
        _ => obj,
    }
}


/// Every value of `e` lies below position `bound`.
pub open spec fn values_below(e: Entries, bound: nat) -> bool {
    forall|i: int| 0 <= i < e.len() ==> (#[trigger] e[i]).1.0 < bound
}

pub proof fn lemma_map_refs_below(m: IndexMap<String, NodeRef>, bound: nat)
    ensures
        all_below(map_refs(m), bound) <==> values_below(node_map_entries(m), bound),
{
    let e = node_map_entries(m);
    if all_below(map_refs(m), bound) {
        assert forall|i: int| 0 <= i < e.len() implies (#[trigger] e[i]).1.0 < bound by {
            assert(map_refs(m)[i] == e[i].1);
        }
    }
    if values_below(e, bound) {
        assert forall|k: int| 0 <= k < map_refs(m).len() implies (#[trigger] map_refs(m)[k]).0 < bound by {
            assert(map_refs(m)[k] == e[k].1);
        }
    }
}

/// Filtering keeps only entries of `e`, in their order.
pub proof fn lemma_filter_entries(e: Entries, nodes: Seq<Node>, keys: NodeRef, keep: bool)
    ensures
        forall|i: int| 0 <= i < filter_entries(e, nodes, keys, keep).len() ==> exists|j: int|
            0 <= j < e.len() && #[trigger] filter_entries(e, nodes, keys, keep)[i] == e[j],
        forall|i: int| 0 <= i < filter_entries(e, nodes, keys, keep).len() ==> names_key(
            nodes,
            keys,
            #[trigger] filter_entries(e, nodes, keys, keep)[i].0,
        ) == keep,
        filter_entries(e, nodes, keys, keep).len() <= e.len(),
    decreases e.len(),
{
    if e.len() > 0 {
        let d = e.drop_last();
        lemma_filter_entries(d, nodes, keys, keep);
        let f = filter_entries(d, nodes, keys, keep);
        let r = filter_entries(e, nodes, keys, keep);
        assert forall|i: int| 0 <= i < r.len() implies exists|j: int| 0 <= j < e.len() && #[trigger] r[i] == e[j] by {
            if i < f.len() {
                assert(r[i] == f[i]);
                let j = choose|j: int| 0 <= j < d.len() && f[i] == d[j];
                assert(e[j] == d[j]);
            } else {
                assert(r[i] == e[e.len() - 1]);
            }
        }
        assert forall|i: int| 0 <= i < r.len() implies names_key(nodes, keys, #[trigger] r[i].0) == keep by {
            if i < f.len() {
                assert(r[i] == f[i]);
            }
        }
    }
}

/// Whether `k` is one of `keys`.
fn has_name(keys: &Vec<String>, k: &str) -> (r: bool)
    ensures
        r == exists|i: int| 0 <= i < keys@.len() && #[trigger] keys@[i]@ == k@,
{
    let mut i: usize = 0;
    while i < keys.len()
        invariant
            i <= keys.len(),
            forall|j: int| 0 <= j < i ==> #[trigger] keys@[j]@ != k@,
        decreases keys.len() - i,
    {
        if crate::ty::str_eq(keys[i].as_str(), k) {
            return true;
        }
        i = i + 1;
    }
    false
}

/// Collects the string-literal values of a `string` node or of a `union` of
/// them.
fn collect_string_keys(arena: &NodeArena, node: NodeRef) -> (r: Vec<String>)
    requires
        arena.wf(),
        arena.holds(node),
    ensures
        forall|i: int| 0 <= i < r@.len() ==> names_key(arena.nodes@, node, #[trigger] r@[i]@),
        forall|k: Seq<char>| names_key(arena.nodes@, node, k) ==> exists|i: int| 0 <= i < r@.len() && #[trigger] r@[i]@ == k,
{
    let mut keys: Vec<String> = Vec::new();
    let n = arena.get(node);
    proof {
        assert(placeable(arena.nodes@[node.0 as int], node.0 as nat));
    }
    match &n.kind {
        NodeKind::String { value: Some(v) } => {
            keys.push(v.clone());
            proof {
                assert(keys@[0]@ == v@);
            }
        },
        NodeKind::Union { elements } => {
            let mut k: usize = 0;
            while k < elements.len()
                invariant
                    arena.wf(),
                    arena.holds(node),
                    n == arena.nodes@[node.0 as int],
                    n.kind == (NodeKind::Union { elements: *elements }),
                    all_below(elements@, node.0 as nat),
                    k <= elements.len(),
                    forall|i: int| 0 <= i < keys@.len() ==> names_key(arena.nodes@, node, #[trigger] keys@[i]@),
                    forall|key: Seq<char>| #[trigger] lit_among(arena.nodes@, elements@, k as int, key)
                        ==> exists|j: int| 0 <= j < keys@.len() && #[trigger] keys@[j]@ == key,
                decreases elements.len() - k,
            {
                let e = elements[k];
                assert(e.0 < node.0);
                let en = arena.get(e);
                let ghost before = keys@;
                if let NodeKind::String { value: Some(v) } = &en.kind {
                    keys.push(v.clone());
                    proof {
                        assert(is_string_lit(arena.nodes@[elements@[k as int].0 as int], v@));
                        assert(keys@[keys@.len() - 1]@ == v@);
                        assert forall|i: int| 0 <= i < keys@.len() implies names_key(arena.nodes@, node, #[trigger] keys@[i]@) by {
                            if i < before.len() {
                                assert(keys@[i] == before[i]);
                            }
                        }
                    }
                }
                proof {
                    assert forall|key: Seq<char>| #[trigger] lit_among(arena.nodes@, elements@, k + 1, key)
                        implies exists|j: int| 0 <= j < keys@.len() && #[trigger] keys@[j]@ == key by {
                        let i = choose|i: int| 0 <= i < k + 1 && is_string_lit(#[trigger] arena.nodes@[elements@[i].0 as int], key);
                        if i < k {
                            assert(lit_among(arena.nodes@, elements@, k as int, key));
                            let j = choose|j: int| 0 <= j < before.len() && #[trigger] before[j]@ == key;
                            assert(keys@[j] == before[j]);
                        } else {
                            assert(keys@[keys@.len() - 1]@ == key);
                        }
                    }
                }
                k = k + 1;
            }
            proof {
                assert forall|key: Seq<char>| names_key(arena.nodes@, node, key) implies exists|i: int| 0 <= i < keys@.len() && #[trigger] keys@[i]@ == key by {
                    let i = choose|i: int| 0 <= i < elements@.len() && elements@[i].0 < arena.nodes@.len()
                        && is_string_lit(#[trigger] arena.nodes@[elements@[i].0 as int], key);
                    assert(lit_among(arena.nodes@, elements@, elements@.len() as int, key));
                }
            }
        },
        _ => {},
    }
    keys
}

/// The entries of `m` whose key is (`keep`) or is not (`!keep`) among `keys`.
fn filter_map(
    m: &IndexMap<String, NodeRef>,
    keys: &Vec<String>,
    keep: bool,
    Ghost(nodes): Ghost<Seq<Node>>,
    Ghost(keys_node): Ghost<NodeRef>,
) -> (r: IndexMap<String, NodeRef>)
    requires
        keys_distinct(node_map_entries(*m)),
        forall|k: Seq<char>| names_key(nodes, keys_node, k) <==> exists|i: int| 0 <= i < keys@.len() && #[trigger] keys@[i]@ == k,
    ensures
        node_map_entries(r) == filter_entries(node_map_entries(*m), nodes, keys_node, keep),
        keys_distinct(node_map_entries(r)),
{
    let ghost e = node_map_entries(*m);
    let n = node_map_len(m);
    let mut out = node_map_new();
    let mut k: usize = 0;
    while k < n
        invariant
            k <= n,
            n == e.len(),
            e == node_map_entries(*m),
            keys_distinct(e),
            forall|key: Seq<char>| names_key(nodes, keys_node, key) <==> exists|i: int| 0 <= i < keys@.len() && #[trigger] keys@[i]@ == key,
            node_map_entries(out) == filter_entries(e.take(k as int), nodes, keys_node, keep),
            keys_distinct(node_map_entries(out)),
        decreases n - k,
    {
        let (key, v) = node_map_get_index(m, k);
        let named = has_name(keys, key.as_str());
        proof {
            assert(e.take(k + 1).drop_last() == e.take(k as int));
            assert(e.take(k + 1).last() == e[k as int]);
            assert(named == names_key(nodes, keys_node, key@));
        }
        if named == keep {
            proof {
                let f = filter_entries(e.take(k as int), nodes, keys_node, keep);
                lemma_filter_entries(e.take(k as int), nodes, keys_node, keep);
                lemma_key_pos(f, key@);
                if has_key(f, key@) {
                    let i = choose|i: int| 0 <= i < f.len() && #[trigger] f[i].0 == key@;
                    let j = choose|j: int| 0 <= j < e.take(k as int).len() && f[i] == e.take(k as int)[j];
                    assert(e[j].0 == e[k as int].0);
                    assert(false);
                }
                crate::indexed::lemma_insert_distinct(f, key@, *v);
            }
            node_map_insert(&mut out, key.clone(), *v);
        }
        k = k + 1;
    }
    proof {
        assert(e.take(n as int) == e);
    }
    out
}

/// Whether the node at `keys` names at least one key.
pub open spec fn names_some_key(nodes: Seq<Node>, keys: NodeRef) -> bool {
    exists|k: Seq<char>| names_key(nodes, keys, k)
}

/// The result of `Omit`/`Pick`: the node `obj` resolves to, with (for an
/// interface or object, when `keys` names any key) only the properties whose
/// key is (`keep`) or is not (`!keep`) named by `keys`.
pub open spec fn filter_keys_ok(before: Seq<Node>, after: Seq<Node>, reg: Entries, obj: NodeRef, keys: NodeRef, keep: bool, r: NodeRef) -> bool {
    let res = resolve_value_s(before, reg, obj, depth_limit());
    if names_some_key(before, keys) && (before[res.0 as int].kind is Interface || before[res.0 as int].kind is Object) {
        &&& after.len() == before.len() + 1
        &&& after.take(before.len() as int) == before
        &&& r.0 == before.len()
        &&& filtered_from(before[res.0 as int], after[r.0 as int], before, keys, keep)
    } else {
        after == before && r == res
    }
}

fn filter_keys(
    arena: &mut NodeArena,
    obj: NodeRef,
    keys_node: NodeRef,
    nodes: &IndexMap<String, NodeRef>,
    keep: bool,
) -> (r: NodeRef)
    requires
        old(arena).wf(),
        old(arena).holds(obj),
        old(arena).holds(keys_node),
        forall|i: int| 0 <= i < node_map_entries(*nodes).len() ==> old(arena).holds(#[trigger] node_map_entries(*nodes)[i].1),
    ensures
        final(arena).wf(),
        final(arena).holds(r),
        filter_keys_ok(old(arena).nodes@, final(arena).nodes@, node_map_entries(*nodes), obj, keys_node, keep, r),
{
    let ghost before = arena.nodes@;
    let resolved = resolve_value(arena, obj, nodes);
    let keys = collect_string_keys(arena, keys_node);
    if keys.len() == 0 {
        proof {
            if names_some_key(before, keys_node) {
                let k = choose|k: Seq<char>| names_key(before, keys_node, k);
                assert(exists|i: int| 0 <= i < keys@.len() && #[trigger] keys@[i]@ == k);
            }
        }
        return resolved;
    }
    proof {
        assert(keys@[0]@ == keys@[0]@);
        assert(names_key(before, keys_node, keys@[0]@));
        assert(placeable(before[resolved.0 as int], resolved.0 as nat));
    }
    let rn = arena.get(resolved);
    let new_node = match &rn.kind {
        NodeKind::Interface { id, name, extends, properties, type_parameters, access } => {
            let props = filter_map(properties, &keys, keep, Ghost(before), Ghost(keys_node));
            Node {
                kind: NodeKind::Interface {
                    id: id.clone(),
                    name: name.clone(),
                    extends: copy_refs(extends),
                    properties: props,
                    type_parameters: copy_refs(type_parameters),
                    access: copy_opt(access),
                },
                description: copy_opt(&rn.description),
            }
        },
        NodeKind::Object { properties, access } => {
            let props = match properties {
                Some(p) => Some(filter_map(p, &keys, keep, Ghost(before), Ghost(keys_node))),
                None => None,
            };
            Node { kind: NodeKind::Object { properties: props, access: copy_opt(access) }, description: copy_opt(&rn.description) }
        },
        _ => {
            return resolved;
        },
    };
    proof {
        let old_n = before[resolved.0 as int];
        let b = before.len() as nat;
        match (old_n.kind, &new_node.kind) {
            (NodeKind::Interface { extends, properties, type_parameters, .. }, NodeKind::Interface { properties: p2, .. }) => {
                lemma_all_below_concat(extends@ + map_refs(properties), type_parameters@, resolved.0 as nat);
                lemma_all_below_concat(extends@, map_refs(properties), resolved.0 as nat);
                lemma_map_refs_below(properties, resolved.0 as nat);
                lemma_filter_entries(node_map_entries(properties), before, keys_node, keep);
                lemma_map_refs_below(*p2, b);
                lemma_all_below_concat(extends@ + map_refs(*p2), type_parameters@, b);
                lemma_all_below_concat(extends@, map_refs(*p2), b);
            },
            (NodeKind::Object { properties, .. }, NodeKind::Object { properties: p2, .. }) => {
                match (properties, p2) {
                    (Some(p), Some(q)) => {
                        lemma_map_refs_below(p, resolved.0 as nat);
                        lemma_filter_entries(node_map_entries(p), before, keys_node, keep);
                        lemma_map_refs_below(*q, b);
                    },
                    _ => {},
                }
            },
            _ => {},
        }
        assert(placeable(new_node, b));
    }
    let r = arena.push(new_node);
    proof {
        assert(arena.nodes@.take(before.len() as int) == before);
    }
    r
}

/// `Omit<T, K>`: drops the string keys named by `K` from `T`.
pub fn omit(arena: &mut NodeArena, obj: NodeRef, to_omit: NodeRef, nodes: &IndexMap<String, NodeRef>) -> (r: NodeRef)
    requires
        old(arena).wf(),
        old(arena).holds(obj),
        old(arena).holds(to_omit),
        forall|i: int| 0 <= i < node_map_entries(*nodes).len() ==> old(arena).holds(#[trigger] node_map_entries(*nodes)[i].1),
    ensures
        final(arena).wf(),
        final(arena).holds(r),
        filter_keys_ok(old(arena).nodes@, final(arena).nodes@, node_map_entries(*nodes), obj, to_omit, false, r),
{
    filter_keys(arena, obj, to_omit, nodes, false)
}

/// `Pick<T, K>`: keeps only the string keys named by `K` from `T`.
pub fn pick(arena: &mut NodeArena, obj: NodeRef, to_pick: NodeRef, nodes: &IndexMap<String, NodeRef>) -> (r: NodeRef)
    requires
        old(arena).wf(),
        old(arena).holds(obj),
        old(arena).holds(to_pick),
        forall|i: int| 0 <= i < node_map_entries(*nodes).len() ==> old(arena).holds(#[trigger] node_map_entries(*nodes)[i].1),
    ensures
        final(arena).wf(),
        final(arena).holds(r),
        filter_keys_ok(old(arena).nodes@, final(arena).nodes@, node_map_entries(*nodes), obj, to_pick, true, r),
{
    filter_keys(arena, obj, to_pick, nodes, true)
}


/// The flattened interface of the node at `r` (in `nodes`) is the node at
/// `res` (in `out`): when `r` unwraps to an interface, an interface with that
/// interface's id, name, type parameters, access and description, the
/// non-interface `extends` it keeps, and its [`merged_entries`]; otherwise
/// the unwrapped node itself.
pub open spec fn merged_at(nodes: Seq<Node>, r: NodeRef, out: Seq<Node>, res: NodeRef) -> bool {
    let o = unwrap_decl(nodes, r);
    if is_interface_at(nodes, o) {
        match (nodes[o.0 as int].kind, out[res.0 as int].kind) {
            (
                NodeKind::Interface { id, name, extends, type_parameters, access, .. },
                NodeKind::Interface {
                    id: id2,
                    name: name2,
                    extends: extends2,
                    properties: properties2,
                    type_parameters: type_parameters2,
                    access: access2,
                },
            ) => {
                &&& id2 == id
                &&& name2 == name
                &&& type_parameters2@ == type_parameters@
                &&& access2 == access
                &&& extends2@ == kept_extends(nodes, o, extends@, extends@.len() as int)
                &&& node_map_entries(properties2) == merged_entries(nodes, r)
                &&& out[res.0 as int].description == nodes[o.0 as int].description
            },
            _ => false,
        }
    } else {
        res == o
    }
}

/// An arena is well formed when every node refers only to earlier positions
/// and no property map holds a key twice.
pub open spec fn nodes_wf(nodes: Seq<Node>) -> bool {
    forall|i: int| 0 <= i < nodes.len() ==> placeable(#[trigger] nodes[i], i as nat)
}

pub proof fn lemma_unwrap_decl(nodes: Seq<Node>, r: NodeRef)
    requires
        nodes_wf(nodes),
        r.0 < nodes.len(),
    ensures
        unwrap_decl(nodes, r).0 <= r.0,
{
}

/// The flattened properties depend only on the nodes at or below `r`.
pub proof fn lemma_merged_stable(nodes: Seq<Node>, nodes2: Seq<Node>, r: NodeRef)
    requires
        extends_arena(nodes, nodes2),
        r.0 < nodes.len(),
    ensures
        merged_entries(nodes2, r) == merged_entries(nodes, r),
    decreases r.0, 1nat, 0int,
{
    assert(nodes2[r.0 as int] == nodes[r.0 as int]);
    let o = unwrap_decl(nodes, r);
    assert(unwrap_decl(nodes2, r) == o);
    if o.0 <= r.0 && o.0 < nodes.len() {
        assert(nodes2[o.0 as int] == nodes[o.0 as int]);
        match nodes[o.0 as int].kind {
            NodeKind::Interface { extends, properties, .. } => {
                lemma_over_stable(nodes, nodes2, o, extends@, extends@.len() as int, node_map_entries(properties));
            },
            _ => {},
        }
    }
}

pub proof fn lemma_over_stable(nodes: Seq<Node>, nodes2: Seq<Node>, o: NodeRef, exts: Seq<NodeRef>, k: int, acc: Entries)
    requires
        extends_arena(nodes, nodes2),
        o.0 < nodes.len(),
    ensures
        merged_over(nodes2, o, exts, k, acc) == merged_over(nodes, o, exts, k, acc),
    decreases o.0, 0nat, k,
{
    if 0 < k <= exts.len() {
        lemma_over_stable(nodes, nodes2, o, exts, k - 1, acc);
        let e = exts[k - 1];
        if e.0 < o.0 {
            assert(nodes2[e.0 as int] == nodes[e.0 as int]);
            assert(unwrap_decl(nodes2, e) == unwrap_decl(nodes, e));
            let u = unwrap_decl(nodes, e);
            if u.0 < nodes.len() {
                assert(nodes2[u.0 as int] == nodes[u.0 as int]);
            }
            lemma_merged_stable(nodes, nodes2, e);
        }
    }
}

pub proof fn lemma_kept_stable(nodes: Seq<Node>, nodes2: Seq<Node>, o: NodeRef, exts: Seq<NodeRef>, k: int)
    requires
        extends_arena(nodes, nodes2),
        o.0 < nodes.len(),
        all_below(exts, o.0 as nat),
    ensures
        kept_extends(nodes2, o, exts, k) == kept_extends(nodes, o, exts, k),
    decreases k,
{
    if 0 < k <= exts.len() {
        lemma_kept_stable(nodes, nodes2, o, exts, k - 1);
        let e = exts[k - 1];
        assert(e.0 < o.0);
        assert(nodes2[e.0 as int] == nodes[e.0 as int]);
        let u = unwrap_decl(nodes, e);
        assert(unwrap_decl(nodes2, e) == u);
        if u.0 < nodes.len() {
            assert(nodes2[u.0 as int] == nodes[u.0 as int]);
        }
    }
}

/// The flattened properties of the node at `r` refer only to nodes below it,
/// and hold no key twice.
pub proof fn lemma_merged_wf(nodes: Seq<Node>, r: NodeRef)
    requires
        nodes_wf(nodes),
        r.0 < nodes.len(),
    ensures
        values_below(merged_entries(nodes, r), r.0 as nat),
        keys_distinct(merged_entries(nodes, r)),
    decreases r.0, 1nat, 0int,
{
    let o = unwrap_decl(nodes, r);
    assert(placeable(nodes[r.0 as int], r.0 as nat));
    if o.0 != r.0 {
        assert(node_children(nodes[r.0 as int])[0] == o);
    }
    assert(placeable(nodes[o.0 as int], o.0 as nat));
    match nodes[o.0 as int].kind {
        NodeKind::Interface { extends, properties, type_parameters, .. } => {
            lemma_all_below_concat(extends@ + map_refs(properties), type_parameters@, o.0 as nat);
            lemma_all_below_concat(extends@, map_refs(properties), o.0 as nat);
            lemma_map_refs_below(properties, o.0 as nat);
            lemma_over_wf(nodes, o, extends@, extends@.len() as int, node_map_entries(properties));
        },
        _ => {},
    }
}

pub proof fn lemma_over_wf(nodes: Seq<Node>, o: NodeRef, exts: Seq<NodeRef>, k: int, acc: Entries)
    requires
        nodes_wf(nodes),
        o.0 < nodes.len(),
        values_below(acc, o.0 as nat),
        keys_distinct(acc),
    ensures
        values_below(merged_over(nodes, o, exts, k, acc), o.0 as nat),
        keys_distinct(merged_over(nodes, o, exts, k, acc)),
    decreases o.0, 0nat, k,
{
    if 0 < k <= exts.len() {
        lemma_over_wf(nodes, o, exts, k - 1, acc);
        let e = exts[k - 1];
        if e.0 < o.0 && is_interface_at(nodes, unwrap_decl(nodes, e)) {
            let m = merged_over(nodes, o, exts, k - 1, acc);
            let b = merged_entries(nodes, e);
            lemma_merged_wf(nodes, e);
            lemma_merge_into(m, b);
            let res = merge_into(m, b);
            assert forall|i: int| 0 <= i < res.len() implies (#[trigger] res[i]).1.0 < o.0 by {
                if i < m.len() {
                    assert(res[i] == m[i]);
                } else {
                    let j = choose|j: int| 0 <= j < b.len() && res[i] == b[j];
                    assert(b[j].1.0 < e.0);
                }
            }
        }
    }
}

/// Unwraps an application to its base and an alias to its value.
fn unwrap_decl_exec(arena: &NodeArena, r: NodeRef) -> (o: NodeRef)
    requires
        arena.wf(),
        arena.holds(r),
    ensures
        o == unwrap_decl(arena.nodes@, r),
        o.0 <= r.0,
{
    proof {
        assert(placeable(arena.nodes@[r.0 as int], r.0 as nat));
    }
    match &arena.get(r).kind {
        NodeKind::Application { base, .. } => {
            proof {
                assert(node_children(arena.nodes@[r.0 as int])[0] == *base);
            }
            *base
        },
        NodeKind::Alias { value, .. } => {
            proof {
                assert(node_children(arena.nodes@[r.0 as int])[0] == *value);
            }
            *value
        },
        _ => r,
    }
}

/// Flattens an interface (plus its `extends` chain) into a single interface
/// with all inherited properties inlined; `extends` that are no interfaces
/// are kept. An application is unwrapped to its base and an alias to its
/// value first; a node that does not unwrap to an interface is returned as
/// it is.
pub fn merge_interface(arena: &mut NodeArena, node: NodeRef) -> (r: NodeRef)
    requires
        old(arena).wf(),
        old(arena).holds(node),
    ensures
        final(arena).wf(),
        extends_arena(old(arena).nodes@, final(arena).nodes@),
        final(arena).holds(r),
        merged_at(old(arena).nodes@, node, final(arena).nodes@, r),
        is_interface_at(old(arena).nodes@, unwrap_decl(old(arena).nodes@, node)) ==> r.0 == final(arena).nodes@.len() - 1,
        !is_interface_at(old(arena).nodes@, unwrap_decl(old(arena).nodes@, node)) ==> final(arena).nodes@ == old(arena).nodes@,
    decreases node.0,
{
    let ghost nodes0 = arena.nodes@;
    let o = unwrap_decl_exec(arena, node);
    proof {
        assert(placeable(nodes0[o.0 as int], o.0 as nat));
    }
    let fields = match &arena.get(o).kind {
        NodeKind::Interface { id, name, extends, properties, type_parameters, access } => Some(
            (id.clone(), name.clone(), copy_refs(extends), node_map_clone(properties), copy_refs(type_parameters), copy_opt(access)),
        ),
        _ => None,
    };
    let (id, name, extends, mut merged, type_parameters, access) = match fields {
        Some(f) => f,
        None => {
            return o;
        },
    };
    let description = copy_opt(&arena.get(o).description);
    let ghost props0 = node_map_entries(merged);
    proof {
        match nodes0[o.0 as int].kind {
            NodeKind::Interface { extends: ex, properties, type_parameters: tp, .. } => {
                lemma_all_below_concat(ex@ + map_refs(properties), tp@, o.0 as nat);
                lemma_all_below_concat(ex@, map_refs(properties), o.0 as nat);
                lemma_map_refs_below(properties, o.0 as nat);
            },
            _ => {},
        }
    }
    let mut exts: Vec<NodeRef> = Vec::new();
    let mut k: usize = 0;
    while k < extends.len()
        invariant
            arena.wf(),
            extends_arena(nodes0, arena.nodes@),
            nodes_wf(nodes0),
            o.0 < nodes0.len(),
            o.0 <= node.0,
            k <= extends.len(),
            all_below(extends@, o.0 as nat),
            node_map_entries(merged) == merged_over(nodes0, o, extends@, k as int, props0),
            exts@ == kept_extends(nodes0, o, extends@, k as int),
            all_below(exts@, o.0 as nat),
            values_below(props0, o.0 as nat),
            keys_distinct(props0),
        decreases extends.len() - k,
    {
        let e = extends[k];
        assert(e.0 < o.0);
        let ghost before = arena.nodes@;
        let m = merge_interface(arena, e);
        proof {
            lemma_merged_stable(nodes0, before, e);
            assert(before[e.0 as int] == nodes0[e.0 as int]);
            let u = unwrap_decl(nodes0, e);
            assert(unwrap_decl(before, e) == u);
            lemma_unwrap_decl(nodes0, e);
            assert(before[u.0 as int] == nodes0[u.0 as int]);
            assert(arena.nodes@[u.0 as int] == nodes0[u.0 as int]);
        }
        let is_iface = match &arena.get(m).kind {
            NodeKind::Interface { properties, .. } => {
                merge_props(&mut merged, properties);
                true
            },
            _ => false,
        };
        if !is_iface {
            exts.push(m);
        }
        proof {
            let u = unwrap_decl(nodes0, e);
            assert(is_iface == is_interface_at(nodes0, u));
            assert(extends@[k as int] == e);
        }
        k = k + 1;
    }
    proof {
        lemma_over_wf(nodes0, o, extends@, extends@.len() as int, props0);
    }
    let ghost before = arena.nodes@;
    let new_node = Node {
        kind: NodeKind::Interface { id, name, extends: exts, properties: merged, type_parameters, access },
        description,
    };
    proof {
        let b = before.len() as nat;
        match &new_node.kind {
            NodeKind::Interface { extends: ex, properties, type_parameters: tp, .. } => {
                lemma_map_refs_below(*properties, b);
                lemma_all_below_concat(ex@ + map_refs(*properties), tp@, b);
                lemma_all_below_concat(ex@, map_refs(*properties), b);
            },
            _ => {},
        }
        assert(placeable(new_node, b));
    }
    let r = arena.push(new_node);
    proof {
        assert(arena.nodes@[o.0 as int] == nodes0[o.0 as int]);
    }
    r
}


/// Merging inherited properties never changes or moves the ones gathered so far.
pub proof fn lemma_over_prefix(nodes: Seq<Node>, o: NodeRef, exts: Seq<NodeRef>, k: int, acc: Entries)
    ensures
        merged_over(nodes, o, exts, k, acc).len() >= acc.len(),
        forall|i: int| 0 <= i < acc.len() ==> #[trigger] merged_over(nodes, o, exts, k, acc)[i] == acc[i],
    decreases k,
{
    if 0 < k <= exts.len() {
        lemma_over_prefix(nodes, o, exts, k - 1, acc);
        let e = exts[k - 1];
        if e.0 < o.0 && is_interface_at(nodes, unwrap_decl(nodes, e)) {
            let m = merged_over(nodes, o, exts, k - 1, acc);
            lemma_merge_into(m, merged_entries(nodes, e));
            assert forall|i: int| 0 <= i < acc.len() implies #[trigger] merged_over(nodes, o, exts, k, acc)[i] == acc[i] by {
                assert(merge_into(m, merged_entries(nodes, e))[i] == m[i]);
            }
        }
    }
}

/// Every key of the flattened properties of an interface `o` extends is a key
/// of the flattened properties of `o`.
pub proof fn lemma_over_keys(nodes: Seq<Node>, o: NodeRef, exts: Seq<NodeRef>, k: int, acc: Entries, j: int, key: Seq<char>)
    requires
        0 <= j < k <= exts.len(),
        exts[j].0 < o.0,
        is_interface_at(nodes, unwrap_decl(nodes, exts[j])),
        has_key(merged_entries(nodes, exts[j]), key),
    ensures
        has_key(merged_over(nodes, o, exts, k, acc), key),
    decreases k,
{
    let e = exts[k - 1];
    let m = merged_over(nodes, o, exts, k - 1, acc);
    if j < k - 1 {
        lemma_over_keys(nodes, o, exts, k - 1, acc, j, key);
        if e.0 < o.0 && is_interface_at(nodes, unwrap_decl(nodes, e)) {
            lemma_merge_into(m, merged_entries(nodes, e));
        }
    } else {
        lemma_merge_into(m, merged_entries(nodes, e));
    }
}

/// Law: the flattened interface of an interface lists the interface's own
/// properties first, in their order and with their own values: an inherited
/// property never replaces one the interface declares.
pub proof fn law_own_properties_first(nodes: Seq<Node>, r: NodeRef)
    requires
        nodes_wf(nodes),
        r.0 < nodes.len(),
        nodes[r.0 as int].kind is Interface,
    ensures
        match nodes[r.0 as int].kind {
            NodeKind::Interface { properties, .. } => {
                &&& merged_entries(nodes, r).len() >= node_map_entries(properties).len()
                &&& forall|i: int| 0 <= i < node_map_entries(properties).len()
                    ==> #[trigger] merged_entries(nodes, r)[i] == node_map_entries(properties)[i]
            },
            _ => false,
        },
{
    match nodes[r.0 as int].kind {
        NodeKind::Interface { extends, properties, .. } => {
            assert(unwrap_decl(nodes, r) == r);
            lemma_over_prefix(nodes, r, extends@, extends@.len() as int, node_map_entries(properties));
        },
        _ => {},
    }
}

/// Law: every property an interface inherits from an interface it extends
/// (directly or through that interface's own `extends`) is a property of its
/// flattened interface.
pub proof fn law_inherited_keys_kept(nodes: Seq<Node>, r: NodeRef, j: int, key: Seq<char>)
    requires
        nodes_wf(nodes),
        r.0 < nodes.len(),
        match nodes[r.0 as int].kind {
            NodeKind::Interface { extends, .. } => {
                &&& 0 <= j < extends@.len()
                &&& is_interface_at(nodes, unwrap_decl(nodes, extends@[j]))
                &&& has_key(merged_entries(nodes, extends@[j]), key)
            },
            _ => false,
        },
    ensures
        has_key(merged_entries(nodes, r), key),
{
    assert(placeable(nodes[r.0 as int], r.0 as nat));
    match nodes[r.0 as int].kind {
        NodeKind::Interface { extends, properties, type_parameters, .. } => {
            assert(unwrap_decl(nodes, r) == r);
            lemma_all_below_concat(extends@ + map_refs(properties), type_parameters@, r.0 as nat);
            lemma_all_below_concat(extends@, map_refs(properties), r.0 as nat);
            lemma_over_keys(nodes, r, extends@, extends@.len() as int, node_map_entries(properties), j, key);
        },
        _ => {},
    }
}

/// Law: `Omit<T, K>` leaves no property whose key `K` names, and `Pick<T, K>`
/// leaves only such properties; the properties that stay keep their order.
pub proof fn law_filtered_keys(
    before: Seq<Node>,
    after: Seq<Node>,
    reg: Entries,
    obj: NodeRef,
    keys: NodeRef,
    keep: bool,
    r: NodeRef,
)
    requires
        filter_keys_ok(before, after, reg, obj, keys, keep, r),
        names_some_key(before, keys),
        r.0 == before.len(),
    ensures
        match after[r.0 as int].kind {
            NodeKind::Interface { properties, .. } => forall|i: int| 0 <= i < node_map_entries(properties).len()
                ==> names_key(before, keys, #[trigger] node_map_entries(properties)[i].0) == keep,
            NodeKind::Object { properties: Some(p), .. } => forall|i: int| 0 <= i < node_map_entries(p).len()
                ==> names_key(before, keys, #[trigger] node_map_entries(p)[i].0) == keep,
            _ => true,
        },
{
    let res = resolve_value_s(before, reg, obj, depth_limit());
    match (before[res.0 as int].kind, after[r.0 as int].kind) {
        (NodeKind::Interface { properties, .. }, _) => {
            lemma_filter_entries(node_map_entries(properties), before, keys, keep);
        },
        (NodeKind::Object { properties: Some(p), .. }, _) => {
            lemma_filter_entries(node_map_entries(p), before, keys, keep);
        },
        _ => {},
    }
}

} // verus!
