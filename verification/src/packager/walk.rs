//! The transformation walk: resolves a type of a module to an output node,
//! applying reference resolution, generic substitution, and interface merging,
//! and processes each module's exports.
use vstd::prelude::*;
use indexmap::IndexMap;
use crate::indexed::{
    keys_distinct, has_key, entries_insert, key_pos, lemma_insert_distinct, lemma_key_pos, node_map_entries, node_map_new,
    node_map_clone, node_map_insert, node_map_len, node_map_get_index, node_map_index_of, id_map_entries, id_map_len,
    id_map_get_index, id_map_index_of, prop_map_entries, prop_map_len, prop_map_get_index,
};
use crate::reader::{entry_keys, keys_inserted};
use crate::values::lemma_keys_push;
use crate::packager::node::{
    Node, NodeKind, NodeRef, NodeArena, copy_refs, copy_strs, all_below, lemma_all_below_concat, children_below,
    node_children, map_refs, placeable, extends_arena, maps_distinct, opt_ref,
};
use crate::packager::merge::{
    Entries, registry_get, registry_lookup, values_below, lemma_map_refs_below, merge_props, merge_into,
    lemma_merge_into,
};
use crate::packager::bundle::{AssetId, BundleGraph, graph_valid};
use crate::packager::{
    Key, Packager, grows, restores, last_key, should_merge_s, params_view, param_insert, params_copy, param_lookup, visited_ok, finish_ok, type_of_graph,
    id_of_graph, operator_name, return_carries_description, type_description, cycle_link, carries_description,
    lemma_grows_trans, lemma_all_below_grow, lemma_values_below_grow,
};
use crate::ty::{Type, TypeId, Parameter, Property, copy_opt, refs_below, id_below, prop_refs_below, lemma_refs_fields};

verus! {

/// `b` is a copy of `a`: the same fields (lists with the same items, property
/// maps with the same entries).
pub open spec fn same_kind(a: NodeKind, b: NodeKind) -> bool {
    match (a, b) {
        (NodeKind::Union { elements }, NodeKind::Union { elements: e2 }) => e2@ == elements@,
        (NodeKind::Intersection { types }, NodeKind::Intersection { types: t2 }) => t2@ == types@,
        (NodeKind::Tuple { elements }, NodeKind::Tuple { elements: e2 }) => e2@ == elements@,
        (NodeKind::Template { elements }, NodeKind::Template { elements: e2 }) => e2@ == elements@,
        (NodeKind::Application { base, type_parameters }, NodeKind::Application { base: b2, type_parameters: t2 }) =>
            b2 == base && t2@ == type_parameters@,
        (
            NodeKind::Function { id, name, parameters, return_type, type_parameters, examples, access },
            NodeKind::Function { id: i2, name: n2, parameters: p2, return_type: r2, type_parameters: t2, examples: e2, access: a2 },
        ) => i2 == id && n2 == name && p2@ == parameters@ && r2 == return_type && t2@ == type_parameters@
            && e2@ == examples@ && a2 == access,
        (
            NodeKind::Alias { id, name, value, type_parameters, access },
            NodeKind::Alias { id: i2, name: n2, value: v2, type_parameters: t2, access: a2 },
        ) => i2 == id && n2 == name && v2 == value && t2@ == type_parameters@ && a2 == access,
        (
            NodeKind::Interface { id, name, extends, properties, type_parameters, access },
            NodeKind::Interface { id: i2, name: n2, extends: x2, properties: p2, type_parameters: t2, access: a2 },
        ) => i2 == id && n2 == name && x2@ == extends@ && node_map_entries(p2) == node_map_entries(properties)
            && t2@ == type_parameters@ && a2 == access,
        (NodeKind::Object { properties, access }, NodeKind::Object { properties: p2, access: a2 }) => a2 == access
            && match (properties, p2) {
            (Some(p), Some(q)) => node_map_entries(q) == node_map_entries(p),
            (None, None) => true,
            _ => false,
        },
        (
            NodeKind::Component { id, name, props, type_parameters, ref_type, examples, access },
            NodeKind::Component { id: i2, name: n2, props: p2, type_parameters: t2, ref_type: r2, examples: e2, access: a2 },
        ) => i2 == id && n2 == name && p2 == props && t2@ == type_parameters@ && r2 == ref_type && e2@ == examples@
            && a2 == access,
        _ => a == b,
    }
}

/// `b` is `a` with its top-level name set to `name` (for a function,
/// component, interface or alias; other kinds have no name to set).
pub open spec fn renamed_kind(a: NodeKind, b: NodeKind, name: Seq<char>) -> bool {
    match (a, b) {
        (
            NodeKind::Function { id, parameters, return_type, type_parameters, examples, access, .. },
            NodeKind::Function { id: i2, name: n2, parameters: p2, return_type: r2, type_parameters: t2, examples: e2, access: a2 },
        ) => i2 == id && (n2 matches Some(s) && s@ == name) && p2@ == parameters@ && r2 == return_type
            && t2@ == type_parameters@ && e2@ == examples@ && a2 == access,
        (
            NodeKind::Component { id, props, type_parameters, ref_type, examples, access, .. },
            NodeKind::Component { id: i2, name: n2, props: p2, type_parameters: t2, ref_type: r2, examples: e2, access: a2 },
        ) => i2 == id && (n2 matches Some(s) && s@ == name) && p2 == props && t2@ == type_parameters@ && r2
            == ref_type && e2@ == examples@ && a2 == access,
        (
            NodeKind::Interface { id, extends, properties, type_parameters, access, .. },
            NodeKind::Interface { id: i2, name: n2, extends: x2, properties: p2, type_parameters: t2, access: a2 },
        ) => i2 == id && n2@ == name && x2@ == extends@ && node_map_entries(p2) == node_map_entries(properties)
            && t2@ == type_parameters@ && a2 == access,
        (
            NodeKind::Alias { id, value, type_parameters, access, .. },
            NodeKind::Alias { id: i2, name: n2, value: v2, type_parameters: t2, access: a2 },
        ) => i2 == id && n2@ == name && v2 == value && t2@ == type_parameters@ && a2 == access,
        _ => false,
    }
}

/// Whether a node of this kind has a top-level name.
pub open spec fn has_name(k: NodeKind) -> bool {
    k is Function || k is Component || k is Interface || k is Alias
}

/// The node at `r` an export named `name` of type `tid` of module `asset`
/// packages as: what walking the type at the root gives (with no
/// substitutions in force and the types `visiting` being materialized),
/// renamed to the export's name when it has a top-level name.
pub open spec fn export_packed<G: BundleGraph>(
    g: &G,
    asset: AssetId,
    tid: TypeId,
    name: Seq<char>,
    visiting: Seq<(AssetId, u32)>,
    nodes: Seq<Node>,
    r: NodeRef,
    fuel: nat,
) -> bool {
    &&& r.0 < nodes.len()
    &&& exists|w: NodeRef|
        #[trigger] walk_ok(g, asset, tid, Key::Root, Seq::empty(), Seq::empty(), visiting, nodes, w, fuel) && if has_name(
            nodes[w.0 as int].kind,
        ) {
            renamed_kind(nodes[w.0 as int].kind, nodes[r.0 as int].kind, name)
        } else {
            r == w
        }
}

/// Each of the module's own exports maps, at its position, to the node it
/// packages as.
pub open spec fn exports_packed<G: BundleGraph>(
    g: &G,
    asset: AssetId,
    ex: Seq<(Seq<char>, TypeId)>,
    m: Entries,
    visiting: Seq<(AssetId, u32)>,
    nodes: Seq<Node>,
    fuel: nat,
) -> bool {
    forall|i: int| 0 <= i < ex.len() ==> #[trigger] export_packed(g, asset, ex[i].1, ex[i].0, visiting, nodes, m[i].1, fuel)
}

/// What an export packs as stays so as the arena grows.
pub proof fn lemma_export_packed_grow<G: BundleGraph>(
    g: &G,
    asset: AssetId,
    tid: TypeId,
    name: Seq<char>,
    visiting: Seq<(AssetId, u32)>,
    a: Seq<Node>,
    b: Seq<Node>,
    r: NodeRef,
    fuel: nat,
)
    requires
        export_packed(g, asset, tid, name, visiting, a, r, fuel),
        extends_arena(a, b),
    ensures
        export_packed(g, asset, tid, name, visiting, b, r, fuel),
{
    let w = choose|w: NodeRef|
        #[trigger] walk_ok(g, asset, tid, Key::Root, Seq::empty(), Seq::empty(), visiting, a, w, fuel) && if has_name(
            a[w.0 as int].kind,
        ) {
            renamed_kind(a[w.0 as int].kind, a[r.0 as int].kind, name)
        } else {
            r == w
        };
    lemma_walk_ok_grow(g, asset, tid, Key::Root, Seq::empty(), Seq::empty(), visiting, a, b, w, fuel);
    assert(b[w.0 as int] == a[w.0 as int]);
    assert(b[r.0 as int] == a[r.0 as int]);
}

/// What exports pack as stays so as the arena grows and the map takes more
/// entries behind them.
pub proof fn lemma_exports_packed_grow<G: BundleGraph>(
    g: &G,
    asset: AssetId,
    ex: Seq<(Seq<char>, TypeId)>,
    m: Entries,
    m2: Entries,
    visiting: Seq<(AssetId, u32)>,
    a: Seq<Node>,
    b: Seq<Node>,
    fuel: nat,
)
    requires
        exports_packed(g, asset, ex, m, visiting, a, fuel),
        ex.len() <= m.len() <= m2.len(),
        forall|i: int| 0 <= i < m.len() ==> #[trigger] m2[i] == m[i],
        extends_arena(a, b),
    ensures
        exports_packed(g, asset, ex, m2, visiting, b, fuel),
{
    assert forall|i: int| 0 <= i < ex.len() implies #[trigger] export_packed(g, asset, ex[i].1, ex[i].0, visiting, b, m2[i].1, fuel) by {
        assert(export_packed(g, asset, ex[i].1, ex[i].0, visiting, a, m[i].1, fuel));
        assert(m2[i] == m[i]);
        lemma_export_packed_grow(g, asset, ex[i].1, ex[i].0, visiting, a, b, m[i].1, fuel);
    }
}

/// The exports processed for `asset`, if any.
pub open spec fn cache_get(c: Seq<(AssetId, IndexMap<String, NodeRef>)>, asset: AssetId) -> Option<IndexMap<String, NodeRef>>
    decreases c.len(),
{
    if c.len() == 0 {
        None
    } else {
        match cache_get(c.drop_last(), asset) {
            Some(m) => Some(m),
            None => if c.last().0 == asset {
                Some(c.last().1)
            } else {
                None
            },
        }
    }
}

/// The exports of a module come first in its processed exports, in their
/// order, and no name occurs twice.
pub open spec fn exports_first(api_exports: Seq<(Seq<char>, TypeId)>, m: Entries) -> bool {
    &&& m.len() >= api_exports.len()
    &&& forall|i: int| 0 <= i < api_exports.len() ==> #[trigger] m[i].0 == api_exports[i].0
    &&& keys_distinct(m)
}

/// `base`, then, for each `export *` source in `sources` in turn, the
/// processed exports (in `cache`) of the module it resolves to whose names are
/// not present yet. A source that resolves to `asset` itself adds nothing.
pub open spec fn star_merge<G: BundleGraph>(
    g: &G,
    asset: AssetId,
    sources: Seq<String>,
    base: Entries,
    cache: Seq<(AssetId, IndexMap<String, NodeRef>)>,
) -> Entries
    decreases sources.len(),
{
    if sources.len() == 0 {
        base
    } else {
        let acc = star_merge(g, asset, sources.drop_last(), base, cache);
        match g.resolution(asset, sources.last()@) {
            Some(t) => if t == asset {
                acc
            } else {
                match cache_get(cache, t) {
                    Some(m) => merge_into(acc, node_map_entries(m)),
                    None => acc,
                }
            },
            None => acc,
        }
    }
}

/// The module that `src` resolves to from `asset`, unless that is `asset`
/// itself, has the same processed exports in `c` and in `d`.
pub open spec fn same_target<G: BundleGraph>(
    g: &G,
    asset: AssetId,
    src: String,
    c: Seq<(AssetId, IndexMap<String, NodeRef>)>,
    d: Seq<(AssetId, IndexMap<String, NodeRef>)>,
) -> bool {
    g.resolution(asset, src@) matches Some(t) ==> t != asset ==> cache_get(d, t) == cache_get(c, t)
}

/// The module that `src` resolves to from `asset`, unless that is `asset`
/// itself, has been processed in `c`.
pub open spec fn target_cached<G: BundleGraph>(g: &G, asset: AssetId, src: String, c: Seq<(AssetId, IndexMap<String, NodeRef>)>) -> bool {
    g.resolution(asset, src@) matches Some(t) ==> t != asset ==> cache_get(c, t) is Some
}

/// The merge depends on the cache only through the modules the sources
/// resolve to.
pub proof fn lemma_star_merge_same<G: BundleGraph>(
    g: &G,
    asset: AssetId,
    sources: Seq<String>,
    base: Entries,
    c: Seq<(AssetId, IndexMap<String, NodeRef>)>,
    d: Seq<(AssetId, IndexMap<String, NodeRef>)>,
)
    requires
        forall|i: int| 0 <= i < sources.len() ==> #[trigger] same_target(g, asset, sources[i], c, d),
    ensures
        star_merge(g, asset, sources, base, d) == star_merge(g, asset, sources, base, c),
    decreases sources.len(),
{
    if sources.len() > 0 {
        let s1 = sources.drop_last();
        assert forall|i: int| 0 <= i < s1.len() implies #[trigger] same_target(g, asset, s1[i], c, d) by {
            assert(s1[i] == sources[i]);
        }
        lemma_star_merge_same(g, asset, s1, base, c, d);
        assert(same_target(g, asset, sources[sources.len() - 1], c, d));
    }
}

pub proof fn lemma_same_kind(a: Node, b: Node)
    requires
        same_kind(a.kind, b.kind),
    ensures
        node_children(b) == node_children(a),
        maps_distinct(b) == maps_distinct(a),
{
}

pub proof fn lemma_renamed_kind(a: Node, b: Node, name: Seq<char>)
    requires
        renamed_kind(a.kind, b.kind, name),
    ensures
        node_children(b) == node_children(a),
        maps_distinct(b) == maps_distinct(a),
{
}

proof fn lemma_cache_get_bound(c: Seq<(AssetId, IndexMap<String, NodeRef>)>, asset: AssetId, n: nat)
    requires
        forall|i: int| 0 <= i < c.len() ==> values_below(node_map_entries(#[trigger] c[i].1), n),
    ensures
        cache_get(c, asset) matches Some(m) ==> values_below(node_map_entries(m), n),
    decreases c.len(),
{
    if c.len() > 0 {
        let d = c.drop_last();
        assert forall|i: int| 0 <= i < d.len() implies values_below(node_map_entries(#[trigger] d[i].1), n) by {
            assert(d[i] == c[i]);
        }
        lemma_cache_get_bound(d, asset, n);
        assert(c.last() == c[c.len() - 1]);
    }
}

/// A copy of a node.
pub fn duplicate_node(n: &Node) -> (r: Node)
    ensures
        same_kind(n.kind, r.kind),
        r.description == n.description,
{
    let kind = match &n.kind {
        NodeKind::Any => NodeKind::Any,
        NodeKind::Null => NodeKind::Null,
        NodeKind::Undefined => NodeKind::Undefined,
        NodeKind::Void => NodeKind::Void,
        NodeKind::Unknown => NodeKind::Unknown,
        NodeKind::Never => NodeKind::Never,
        NodeKind::This => NodeKind::This,
        NodeKind::Symbol => NodeKind::Symbol,
        NodeKind::Identifier { name } => NodeKind::Identifier { name: name.clone() },
        NodeKind::String { value } => NodeKind::String { value: copy_opt(value) },
        NodeKind::Number { value } => NodeKind::Number { value: *value },
        NodeKind::Boolean { value } => NodeKind::Boolean { value: *value },
        NodeKind::Union { elements } => NodeKind::Union { elements: copy_refs(elements) },
        NodeKind::Intersection { types } => NodeKind::Intersection { types: copy_refs(types) },
        NodeKind::Application { base, type_parameters } => NodeKind::Application {
            base: *base,
            type_parameters: copy_refs(type_parameters),
        },
        NodeKind::TypeOperator { operator, value } => NodeKind::TypeOperator { operator: operator.clone(), value: *value },
        NodeKind::Function { id, name, parameters, return_type, type_parameters, examples, access } => NodeKind::Function {
            id: copy_opt(id),
            name: copy_opt(name),
            parameters: copy_refs(parameters),
            return_type: *return_type,
            type_parameters: copy_refs(type_parameters),
            examples: copy_strs(examples),
            access: copy_opt(access),
        },
        NodeKind::Parameter { name, value, optional, rest } => NodeKind::Parameter {
            name: name.clone(),
            value: *value,
            optional: *optional,
            rest: *rest,
        },
        NodeKind::Property { name, index_type, value, optional, access, selector, default } => NodeKind::Property {
            name: name.clone(),
            index_type: *index_type,
            value: *value,
            optional: *optional,
            access: copy_opt(access),
            selector: copy_opt(selector),
            default: copy_opt(default),
        },
        NodeKind::Method { name, value, access, default, is_static, is_abstract } => NodeKind::Method {
            name: name.clone(),
            value: *value,
            access: copy_opt(access),
            default: copy_opt(default),
            is_static: *is_static,
            is_abstract: *is_abstract,
        },
        NodeKind::Alias { id, name, value, type_parameters, access } => NodeKind::Alias {
            id: id.clone(),
            name: name.clone(),
            value: *value,
            type_parameters: copy_refs(type_parameters),
            access: copy_opt(access),
        },
        NodeKind::Interface { id, name, extends, properties, type_parameters, access } => NodeKind::Interface {
            id: id.clone(),
            name: name.clone(),
            extends: copy_refs(extends),
            properties: node_map_clone(properties),
            type_parameters: copy_refs(type_parameters),
            access: copy_opt(access),
        },
        NodeKind::Object { properties, access } => NodeKind::Object {
            properties: match properties {
                Some(p) => Some(node_map_clone(p)),
                None => None,
            },
            access: copy_opt(access),
        },
        NodeKind::Array { element_type } => NodeKind::Array { element_type: *element_type },
        NodeKind::Tuple { elements } => NodeKind::Tuple { elements: copy_refs(elements) },
        NodeKind::Template { elements } => NodeKind::Template { elements: copy_refs(elements) },
        NodeKind::TypeParameter { name, constraint, default } => NodeKind::TypeParameter {
            name: name.clone(),
            constraint: *constraint,
            default: *default,
        },
        NodeKind::Component { id, name, props, type_parameters, ref_type, examples, access } => NodeKind::Component {
            id: copy_opt(id),
            name: copy_opt(name),
            props: *props,
            type_parameters: copy_refs(type_parameters),
            ref_type: *ref_type,
            examples: copy_strs(examples),
            access: copy_opt(access),
        },
        NodeKind::Conditional { check_type, extends_type, true_type, false_type } => NodeKind::Conditional {
            check_type: *check_type,
            extends_type: *extends_type,
            true_type: *true_type,
            false_type: *false_type,
        },
        NodeKind::IndexedAccess { object_type, index_type } => NodeKind::IndexedAccess {
            object_type: *object_type,
            index_type: *index_type,
        },
        NodeKind::Mapped { readonly, type_parameter, type_annotation } => NodeKind::Mapped {
            readonly: copy_opt(readonly),
            type_parameter: *type_parameter,
            type_annotation: *type_annotation,
        },
        NodeKind::Link { id } => NodeKind::Link { id: id.clone() },
        NodeKind::Reference { specifier, imported, local } => NodeKind::Reference {
            specifier: specifier.clone(),
            imported: copy_opt(imported),
            local: copy_opt(local),
        },
    };
    Node { kind, description: copy_opt(&n.description) }
}

/// Sets the top-level `name` of a declaration node (used for re-export
/// aliases); other nodes are left as they are.
pub fn set_name(node: &mut Node, new_name: &String)
    ensures
        has_name(old(node).kind) ==> renamed_kind(old(node).kind, final(node).kind, new_name@),
        !has_name(old(node).kind) ==> *final(node) == *old(node),
        final(node).description == old(node).description,
{
    match &mut node.kind {
        NodeKind::Function { name, .. } => {
            *name = Some(new_name.clone());
        },
        NodeKind::Component { name, .. } => {
            *name = Some(new_name.clone());
        },
        NodeKind::Interface { name, .. } => {
            *name = new_name.clone();
        },
        NodeKind::Alias { name, .. } => {
            *name = new_name.clone();
        },
        _ => {},
    }
}

impl Packager {
    /// The position of the processed exports of `asset` in the cache.
    fn cache_index(&self, asset: AssetId) -> (r: Option<usize>)
        ensures
            r matches Some(i) ==> i < self.cache@.len() && cache_get(self.cache@, asset) == Some(self.cache@[i as int].1)
                && self.cache@[i as int].0 == asset && cache_get(self.cache@.take(i as int), asset) is None,
            r is None ==> cache_get(self.cache@, asset) is None,
    {
        let mut k: usize = 0;
        while k < self.cache.len()
            invariant
                k <= self.cache@.len(),
                cache_get(self.cache@.take(k as int), asset) is None,
            decreases self.cache.len() - k,
        {
            proof {
                assert(self.cache@.take(k + 1).drop_last() =~= self.cache@.take(k as int));
            }
            if self.cache[k].0 == asset {
                proof {
                    lemma_cache_take(self.cache@, k + 1, asset);
                }
                return Some(k);
            }
            k = k + 1;
        }
        proof {
            assert(self.cache@.take(self.cache@.len() as int) =~= self.cache@);
        }
        None
    }

    /// Records `m` as the processed exports of `asset`.
    fn cache_set(&mut self, asset: AssetId, m: IndexMap<String, NodeRef>)
        requires
            old(self).wf(),
            values_below(node_map_entries(m), old(self).arena.nodes@.len()),
        ensures
            final(self).wf(),
            cache_get(final(self).cache@, asset) == Some(m),
            forall|y: AssetId| y != asset ==> #[trigger] cache_get(final(self).cache@, y) == cache_get(old(self).cache@, y),
            final(self).arena == old(self).arena,
            final(self).nodes == old(self).nodes,
            final(self).param_stack == old(self).param_stack,
            final(self).key_stack == old(self).key_stack,
            final(self).application == old(self).application,
            final(self).visiting == old(self).visiting,
    {
        match self.cache_index(asset) {
            Some(i) => {
                let ghost c = self.cache@;
                self.cache.set(i, (asset, m));
                proof {
                    lemma_cache_update(c, i as int, asset, m);
                    assert forall|y: AssetId| y != asset implies #[trigger] cache_get(self.cache@, y) == cache_get(c, y) by {
                        lemma_cache_get_same(c, self.cache@, y);
                    }
                }
            },
            None => {
                let ghost c = self.cache@;
                self.cache.push((asset, m));
                proof {
                    assert(self.cache@.drop_last() =~= c);
                }
            },
        }
    }

    /// The node at `r`, renamed to `name` when it has a top-level name (as a
    /// new node: the one at `r` may be shared).
    fn renamed(&mut self, r: NodeRef, name: &String) -> (out: NodeRef)
        requires
            old(self).wf(),
            old(self).arena.holds(r),
        ensures
            final(self).wf(),
            grows(*old(self), *final(self)),
            restores(*old(self), *final(self)),
            final(self).cache == old(self).cache,
            final(self).application == old(self).application,
            final(self).nodes == old(self).nodes,
            final(self).arena.holds(out),
            has_name(old(self).arena.nodes@[r.0 as int].kind) ==> out.0 == old(self).arena.nodes@.len() && renamed_kind(
                old(self).arena.nodes@[r.0 as int].kind,
                final(self).arena.nodes@[out.0 as int].kind,
                name@,
            ),
            !has_name(old(self).arena.nodes@[r.0 as int].kind) ==> out == r && final(self).arena == old(self).arena,
    {
        let n = self.arena.get(r);
        let named = match &n.kind {
            NodeKind::Function { .. } | NodeKind::Component { .. } | NodeKind::Interface { .. } | NodeKind::Alias { .. } => true,
            _ => false,
        };
        if !named {
            return r;
        }
        let mut copy = duplicate_node(n);
        proof {
            lemma_same_kind(*n, copy);
        }
        let ghost c0 = copy;
        set_name(&mut copy, name);
        proof {
            lemma_renamed_kind(c0, copy, name@);
            assert(placeable(self.arena.nodes@[r.0 as int], r.0 as nat));
            assert forall|k: int| 0 <= k < node_children(copy).len() implies (#[trigger] node_children(copy)[k]).0
                < self.arena.nodes@.len() by {
                assert(node_children(copy)[k] == node_children(self.arena.nodes@[r.0 as int])[k]);
            }
        }
        self.push_node(copy)
    }
}

/// Where the export `name` of module `asset` is defined: its own export
/// (following an export that re-exports an import to the module and name it
/// imports), else the first `export *` source that defines it; at most
/// `fuel` modules deep.
pub open spec fn resolve_export_s<G: BundleGraph>(g: &G, asset: AssetId, name: Seq<char>, fuel: nat) -> Option<(AssetId, TypeId)>
    decreases fuel, 1nat, 0int,
{
    let api = g.api_at(asset);
    let e = id_map_entries(api.exports);
    if crate::indexed::key_pos(e, name) >= 0 {
        let tid = e[crate::indexed::key_pos(e, name)].1;
        match if (tid.0 as int) < api.types@.len() { Some(api.types@[tid.0 as int]) } else { None } {
            Some(Type::Reference { specifier, imported, .. }) => match g.resolution(asset, specifier@) {
                Some(t) => match imported {
                    Some(i) => if fuel == 0 {
                        None
                    } else {
                        resolve_export_s(g, t, i@, (fuel - 1) as nat)
                    },
                    None => None,
                },
                None => None,
            },
            _ => Some((asset, tid)),
        }
    } else {
        export_all_s(g, asset, name, api.export_all@, 0, fuel)
    }
}

/// The first of the `export *` sources `specs` of `asset`, from the `k`-th
/// on, that defines the export `name` (see [`resolve_export_s`]).
pub open spec fn export_all_s<G: BundleGraph>(
    g: &G,
    asset: AssetId,
    name: Seq<char>,
    specs: Seq<String>,
    k: int,
    fuel: nat,
) -> Option<(AssetId, TypeId)>
    decreases fuel, 0nat, specs.len() - k,
{
    if k < 0 || k >= specs.len() {
        None
    } else {
        let found = match g.resolution(asset, specs[k]@) {
            Some(t) => if fuel > 0 {
                resolve_export_s(g, t, name, (fuel - 1) as nat)
            } else {
                None
            },
            None => None,
        };
        match found {
            Some(x) => Some(x),
            None => export_all_s(g, asset, name, specs, k + 1, fuel),
        }
    }
}

/// What an imported reference written in `asset` points at: the definition
/// of the name it imports in the module its specifier resolves to.
pub open spec fn reference_target_s<G: BundleGraph>(
    g: &G,
    asset: AssetId,
    specifier: Seq<char>,
    imported: Option<String>,
) -> Option<(AssetId, TypeId)> {
    match g.resolution(asset, specifier) {
        Some(t) => match imported {
            Some(i) => resolve_export_s(g, t, i@, u64::MAX as nat),
            None => None,
        },
        None => None,
    }
}

/// The name an unresolved reference is shown under: its local name, else
/// the name it imports, else nothing.
pub open spec fn reference_name_s(imported: Option<String>, local: Option<String>) -> Seq<char> {
    match local {
        Some(l) => l@,
        None => match imported {
            Some(i) => i@,
            None => Seq::empty(),
        },
    }
}

/// The decisions `walk` makes before materializing a type: a reference that
/// resolves nowhere becomes an identifier; a registered interface that is not
/// merged here, and a registered alias outside `props`, become links; a
/// registered interface without type parameters that is merged here is the
/// registered node itself.
pub open spec fn walk_shortcut_ok<G: BundleGraph>(
    g: &G,
    o: Packager,
    asset: AssetId,
    type_id: TypeId,
    key: Key,
    n: Packager,
    r: NodeRef,
) -> bool {
    let ty = g.api_at(asset).types@[type_id.0 as int];
    let reg = node_map_entries(o.nodes);
    let before = o.arena.nodes@;
    match ty {
        Type::Reference { specifier, imported, local } => reference_target_s(g, asset, specifier@, imported) is None
            ==> (n.arena.nodes@.len() == before.len() + 1 && n.arena.nodes@.take(before.len() as int) == before
            && r.0 == before.len() && (n.arena.nodes@[r.0 as int].kind matches NodeKind::Identifier { name } && name@
            == reference_name_s(imported, local)) && n.arena.nodes@[r.0 as int].description is None && state_kept(o, n)),
        Type::Interface { id, type_parameters, .. } => registry_get(reg, id@) is Some ==> if !crate::packager::should_merge_s(
            ty,
            key,
            crate::packager::last_key(o.key_stack@),
        ) {
            n.arena.nodes@ == before.push(Node { kind: NodeKind::Link { id }, description: None }) && r.0 == before.len()
                && state_kept(o, n)
        } else if type_parameters@.len() == 0 {
            r == registry_get(reg, id@)->0 && n.arena.nodes@ == before && state_kept(o, n)
        } else {
            true
        },
        Type::Alias { id, .. } => (registry_get(reg, id@) is Some && key != Key::Props) ==> n.arena.nodes@ == before.push(
            Node { kind: NodeKind::Link { id }, description: None },
        ) && r.0 == before.len() && state_kept(o, n),
        _ => true,
    }
}

/// `n` has the registry, the processed exports and the pending generic
/// application of `o`.
pub open spec fn state_kept(o: Packager, n: Packager) -> bool {
    &&& n.nodes == o.nodes
    &&& n.cache@ == o.cache@
    &&& n.application == o.application
}

/// What walking the type `tid` of module `asset`, reached through `key` below
/// the keys `keys` with the substitutions `top` in force and the types
/// `visiting` being materialized, gives at `r` in the arena `nodes`, with at
/// most `fuel` nested steps:
/// - past the fuel, `any`;
/// - a reference that resolves gives what walking its target gives; one that
///   resolves nowhere, an identifier with its local (else imported) name;
/// - a type parameter outside a parameter declaration gives the node it is
///   bound to in `top`, else an identifier with its name;
/// - an interface merged here (and not already being materialized) gives the
///   registered declaration of its id: the interface merged with its bases;
/// - an alias (outside `props`) or an interface not merged here, a link;
/// - a type packed as it is, its visited node.
pub open spec fn walk_ok<G: BundleGraph>(
    g: &G,
    asset: AssetId,
    tid: TypeId,
    key: Key,
    keys: Seq<Key>,
    top: Entries,
    visiting: Seq<(AssetId, u32)>,
    nodes: Seq<Node>,
    r: NodeRef,
    fuel: nat,
) -> bool
    decreases fuel,
{
    &&& r.0 < nodes.len()
    &&& if fuel == 0 {
        nodes[r.0 as int] == Node { kind: NodeKind::Any, description: None }
    } else {
        let ty = g.api_at(asset).types@[tid.0 as int];
        match ty {
            Type::Reference { specifier, imported, local } => match reference_target_s(g, asset, specifier@, imported) {
                Some((a, t)) => walk_ok(g, a, t, key, keys, top, visiting, nodes, r, (fuel - 1) as nat),
                None => nodes[r.0 as int].description is None && (nodes[r.0 as int].kind matches NodeKind::Identifier {
                    name,
                } && name@ == reference_name_s(imported, local)),
            },
            Type::TypeParameter { name, .. } => key != Key::TypeParamDecl ==> match registry_get(top, name@) {
                Some(b) => r == b,
                None => nodes[r.0 as int] == Node { kind: NodeKind::Identifier { name }, description: None },
            },
            Type::Interface { id, .. } => {
                &&& links_where_not_inline(ty, key, keys, nodes[r.0 as int])
                &&& (crate::packager::should_merge_s(ty, key, crate::packager::last_key(keys)) && !visiting.contains(
                    (asset, tid.0),
                )) ==> crate::packager::decl_named(nodes, (id@, r))
            },
            _ => links_where_not_inline(ty, key, keys, nodes[r.0 as int]) && (packs_as_is(ty) ==> visited_ok(
                ty,
                nodes[r.0 as int],
            )),
        }
    }
}

/// What a walk gives stays so as the arena grows.
pub proof fn lemma_walk_ok_grow<G: BundleGraph>(
    g: &G,
    asset: AssetId,
    tid: TypeId,
    key: Key,
    keys: Seq<Key>,
    top: Entries,
    visiting: Seq<(AssetId, u32)>,
    a: Seq<Node>,
    b: Seq<Node>,
    r: NodeRef,
    fuel: nat,
)
    requires
        walk_ok(g, asset, tid, key, keys, top, visiting, a, r, fuel),
        extends_arena(a, b),
    ensures
        walk_ok(g, asset, tid, key, keys, top, visiting, b, r, fuel),
    decreases fuel,
{
    assert(b[r.0 as int] == a[r.0 as int]);
    if fuel > 0 {
        let ty = g.api_at(asset).types@[tid.0 as int];
        match ty {
            Type::Reference { specifier, imported, local } => {
                if let Some((x, t)) = reference_target_s(g, asset, specifier@, imported) {
                    lemma_walk_ok_grow(g, x, t, key, keys, top, visiting, a, b, r, (fuel - 1) as nat);
                }
            },
            Type::Interface { id, .. } => {
                if crate::packager::should_merge_s(ty, key, crate::packager::last_key(keys)) && !visiting.contains((asset, tid.0)) {
                    crate::packager::lemma_decl_named_grow(a, b, (id@, r));
                }
            },
            _ => {},
        }
    }
}

/// An alias packages as a link to it except as `props`; an interface, as a
/// link to it wherever it is not merged in place.
pub open spec fn links_where_not_inline(ty: Type, key: Key, keys: Seq<Key>, n: Node) -> bool {
    match ty {
        Type::Alias { id, .. } => key != Key::Props ==> n == Node { kind: NodeKind::Link { id }, description: None },
        Type::Interface { id, .. } => !crate::packager::should_merge_s(ty, key, crate::packager::last_key(keys))
            ==> n == Node { kind: NodeKind::Link { id }, description: None },
        _ => true,
    }
}

/// Whether a type packages as the node built for it, with no rewrite after
/// its children are walked: not a reference, interface, alias, application,
/// identifier or type parameter.
pub open spec fn packs_as_is(ty: Type) -> bool {
    !(ty is Reference || ty is Interface || ty is Alias || ty is Application || ty is Identifier
        || ty is TypeParameter || ty is Ref)
}

/// Inserting an entry whose value lies below `n` keeps every value below `n`.
pub proof fn lemma_insert_values(e: Entries, k: Seq<char>, v: NodeRef, n: nat)
    requires
        values_below(e, n),
        v.0 < n,
    ensures
        values_below(entries_insert(e, k, v), n),
{
    lemma_key_pos(e, k);
    let r = entries_insert(e, k, v);
    assert forall|j: int| 0 <= j < r.len() implies (#[trigger] r[j]).1.0 < n by {
        if j < e.len() && !(crate::indexed::key_pos(e, k) == j) {
            assert(r[j] == e[j]);
        }
    }
}

impl Packager {
    /// Whether the arena type `(asset, id)` is being materialized.
    fn is_visiting(&self, asset: AssetId, id: u32) -> (r: bool)
        ensures
            r == self.visiting@.contains((asset, id)),
    {
        let mut k: usize = 0;
        while k < self.visiting.len()
            invariant
                k <= self.visiting@.len(),
                forall|j: int| 0 <= j < k ==> self.visiting@[j] != (asset, id),
            decreases self.visiting.len() - k,
        {
            if self.visiting[k].0 == asset && self.visiting[k].1 == id {
                proof {
                    assert(self.visiting@[k as int] == (asset, id));
                }
                return true;
            }
            k = k + 1;
        }
        false
    }

    /// Reads a type parameter's name and default from the arena.
    fn type_param_name_default<G: BundleGraph>(&self, graph: &G, asset: AssetId, type_id: TypeId) -> (r: (String, Option<TypeId>))
        requires
            graph_valid(graph),
            id_of_graph(graph, asset, type_id),
        ensures
            r.1 matches Some(d) ==> id_of_graph(graph, asset, d),
            match graph.api_at(asset).types@[type_id.0 as int] {
                Type::TypeParameter { name, default, .. } => r.0 == name && r.1 == default,
                _ => r.0@ == Seq::<char>::empty() && r.1 is None,
            },
    {
        let api = graph.api(asset);
        proof {
            assert(api.wf());
            assert(refs_below(api.types@[type_id.0 as int], api.types@.len()));
            lemma_refs_fields(api.types@[type_id.0 as int], api.types@.len());
        }
        match &api.types[type_id.0 as usize] {
            Type::TypeParameter { name, default, .. } => (name.clone(), *default),
            _ => (String::new(), None),
        }
    }

    /// Resolves an export name in an asset to its defining `(asset, type_id)`,
    /// following re-export chains and `export *` (at most `fuel` steps deep).
    pub fn resolve_export<G: BundleGraph>(&self, graph: &G, asset: AssetId, name: &str, fuel: u64) -> (r: Option<(AssetId, TypeId)>)
        requires
            graph_valid(graph),
            asset < graph.asset_count(),
        ensures
            r matches Some((a, t)) ==> id_of_graph(graph, a, t),
            r == resolve_export_s(graph, asset, name@, fuel as nat),
        decreases fuel,
    {
        let api = graph.api(asset);
        proof {
            assert(api.wf());
        }
        match id_map_index_of(&api.exports, name) {
            Some(i) => {
                proof {
                    lemma_key_pos(id_map_entries(api.exports), name@);
                }
                let (_, tid) = id_map_get_index(&api.exports, i);
                let tid = *tid;
                if let Type::Reference { specifier, imported, .. } = &api.types[tid.0 as usize] {
                    let target = match graph.resolve(asset, specifier.as_str()) {
                        Some(t) => t,
                        None => {
                            return None;
                        },
                    };
                    let imp = match imported {
                        Some(i) => i,
                        None => {
                            return None;
                        },
                    };
                    if fuel == 0 {
                        return None;
                    }
                    return self.resolve_export(graph, target, imp.as_str(), fuel - 1);
                }
                return Some((asset, tid));
            },
            None => {},
        }
        proof {
            lemma_key_pos(id_map_entries(api.exports), name@);
        }
        let mut k: usize = 0;
        while k < api.export_all.len()
            invariant
                graph_valid(graph),
                asset < graph.asset_count(),
                *api == graph.api_at(asset),
                k <= api.export_all@.len(),
                resolve_export_s(graph, asset, name@, fuel as nat) == export_all_s(graph, asset, name@, api.export_all@, k as int, fuel as nat),
            decreases api.export_all.len() - k,
        {
            if let Some(target) = graph.resolve(asset, api.export_all[k].as_str()) {
                if fuel > 0 {
                    if let Some(r) = self.resolve_export(graph, target, name, fuel - 1) {
                        return Some(r);
                    }
                }
            }
            k = k + 1;
        }
        None
    }

    /// Resolves an imported `Reference` to the `(asset, type_id)` it points at.
    pub fn resolve_reference<G: BundleGraph>(
        &self,
        graph: &G,
        asset: AssetId,
        specifier: &str,
        imported: &Option<String>,
    ) -> (r: Option<(AssetId, TypeId)>)
        requires
            graph_valid(graph),
            asset < graph.asset_count(),
        ensures
            r matches Some((a, t)) ==> id_of_graph(graph, a, t),
            r == reference_target_s(graph, asset, specifier@, *imported),
    {
        let target = match graph.resolve(asset, specifier) {
            Some(t) => t,
            None => {
                return None;
            },
        };
        match imported {
            Some(i) => self.resolve_export(graph, target, i.as_str(), u64::MAX),
            None => None,
        }
    }

    /// The transformation walk: resolves `(asset, type_id)` to an output node,
    /// applying reference resolution, generic substitution, and interface
    /// merging. Past `fuel` nested steps it gives `any`.
    #[verifier::rlimit(60)]
    pub fn walk<G: BundleGraph>(&mut self, graph: &G, asset: AssetId, type_id: TypeId, key: Key, fuel: u64) -> (r: NodeRef)
        requires
            old(self).wf(),
            graph_valid(graph),
            id_of_graph(graph, asset, type_id),
        ensures
            final(self).wf(),
            grows(*old(self), *final(self)),
            restores(*old(self), *final(self)),
            final(self).arena.holds(r),
            fuel == 0 ==> final(self).arena.nodes@ == old(self).arena.nodes@.push(Node { kind: NodeKind::Any, description: None }),
            fuel > 0 ==> walk_shortcut_ok(graph, *old(self), asset, type_id, key, *final(self), r),
            fuel > 0 ==> links_where_not_inline(
                graph.api_at(asset).types@[type_id.0 as int],
                key,
                old(self).key_stack@,
                final(self).arena.nodes@[r.0 as int],
            ),
            fuel > 0 && packs_as_is(graph.api_at(asset).types@[type_id.0 as int]) ==> crate::packager::visited_ok(
                graph.api_at(asset).types@[type_id.0 as int],
                final(self).arena.nodes@[r.0 as int],
            ),
            walk_ok(
                graph,
                asset,
                type_id,
                key,
                old(self).key_stack@,
                old(self).top_params(),
                old(self).visiting@,
                final(self).arena.nodes@,
                r,
                fuel as nat,
            ),
        decreases fuel, 0nat,
    {
        if fuel == 0 {
            return self.push_node(Node::new(NodeKind::Any));
        }
        let f = fuel - 1;
        let api = graph.api(asset);
        let ty = &api.types[type_id.0 as usize];
        proof {
            assert(api.wf());
            assert(refs_below(*ty, api.types@.len()));
            lemma_refs_fields(*ty, api.types@.len());
        }
        let ghost s0 = *self;
        // 1. Resolve imported references (possibly switching asset).
        if let Type::Reference { specifier, imported, local } = ty {
            match self.resolve_reference(graph, asset, specifier.as_str(), imported) {
                Some((next_asset, next_id)) => {
                    if next_asset != asset {
                        self.ensure_processed(graph, next_asset, f);
                    }
                    let ghost s1 = *self;
                    let r = self.walk(graph, next_asset, next_id, key, f);
                    proof {
                        lemma_grows_trans(s0, s1, *self);
                    }
                    return r;
                },
                None => {
                    let name = match local {
                        Some(l) => l.clone(),
                        None => match imported {
                            Some(i) => i.clone(),
                            None => String::new(),
                        },
                    };
                    let r = self.push_node(Node::new(NodeKind::Identifier { name }));
                    proof {
                        assert(self.arena.nodes@.take(s0.arena.nodes@.len() as int) =~= s0.arena.nodes@);
                    }
                    return r;
                },
            }
        }
        // Fast path: a registered interface that is not merged here is a link.
        if let Type::Interface { id, type_parameters, .. } = ty {
            if let Some(cached) = registry_lookup(&self.nodes, id.as_str()) {
                if !self.should_merge(ty, key) {
                    return self.push_node(Node::new(NodeKind::Link { id: id.clone() }));
                }
                if type_parameters.len() == 0 {
                    proof {
                        lemma_key_pos(node_map_entries(self.nodes), id@);
                    }
                    return cached;
                }
            }
        }
        // Same for aliases: once registered, an alias is a link everywhere but
        // in `props` position.
        if let Type::Alias { id, type_parameters, .. } = ty {
            if let Some(cached) = registry_lookup(&self.nodes, id.as_str()) {
                if key != Key::Props {
                    return self.push_node(Node::new(NodeKind::Link { id: id.clone() }));
                }
                proof {
                    lemma_key_pos(node_map_entries(self.nodes), id@);
                }
                if type_parameters.len() == 0 {
                    let cn = self.arena.get(cached);
                    proof {
                        assert(placeable(self.arena.nodes@[cached.0 as int], cached.0 as nat));
                    }
                    if let NodeKind::Alias { value, .. } = &cn.kind {
                        proof {
                            assert(node_children(*cn)[0] == *value);
                        }
                        return *value;
                    }
                }
            }
        }
        // 2. Capture the resolved type arguments of a generic application.
        if let Type::Application { type_parameters, .. } = ty {
            let app = self.walk_all(graph, asset, type_parameters, Key::Other, f);
            self.application = Some(app);
        }
        let ghost s2 = *self;
        // 3. Push a type-parameter substitution map where appropriate.
        let pushed = self.maybe_push_params(graph, asset, ty, key, f);
        let ghost s3 = *self;
        // 4. Recurse into children.
        self.key_stack.push(key);
        let cycle = self.is_visiting(asset, type_id.0);
        if !cycle {
            self.visiting.push((asset, type_id.0));
        }
        let ghost s4 = *self;
        let node = if cycle {
            match cycle_link(ty) {
                Some(n) => n,
                None => self.visit_children(graph, asset, ty, f),
            }
        } else {
            self.visit_children(graph, asset, ty, f)
        };
        let ghost s5 = *self;
        if !cycle {
            self.visiting.pop();
        }
        self.key_stack.pop();
        if pushed {
            self.param_stack.pop();
        }
        proof {
            assert(self.visiting@ =~= s0.visiting@);
            assert(self.key_stack@ =~= s0.key_stack@);
            assert(self.param_stack@ =~= s0.param_stack@);
            lemma_grows_trans(s0, s2, s3);
            lemma_grows_trans(s0, s3, s5);
            assert(self.refs_ok(self.arena.nodes@.len())) by {
                assert forall|i: int| 0 <= i < self.param_stack@.len() implies values_below(params_view(#[trigger] self.param_stack@[i]), self.arena.nodes@.len()) by {
                    assert(self.param_stack@[i] == s5.param_stack@[i]);
                }
            }
        }
        let ghost s6 = *self;
        // 5. Post-recursion rewrites.
        let r = self.finish(node, ty, key);
        proof {
            lemma_grows_trans(s0, s6, *self);
            if ty is Interface {
                if node.kind is Interface && crate::packager::should_merge_s(*ty, key, crate::packager::last_key(s6.key_stack@)) {
                    let before = s6.arena.nodes@;
                    let after = self.arena.nodes@;
                    let raw = NodeRef(before.len() as usize);
                    assert(after.take(raw.0 + 1) =~= before.push(node));
                    assert(crate::packager::merged_at(after.take(raw.0 + 1), raw, after, r));
                    assert(crate::packager::merged_decl(after, r));
                }
            }
        }
        r
    }

    fn walk_all<G: BundleGraph>(&mut self, graph: &G, asset: AssetId, ids: &Vec<TypeId>, key: Key, fuel: u64) -> (r: Vec<NodeRef>)
        requires
            old(self).wf(),
            graph_valid(graph),
            asset < graph.asset_count(),
            forall|i: int| 0 <= i < ids@.len() ==> id_below(#[trigger] ids@[i], graph.api_at(asset).types@.len()),
        ensures
            final(self).wf(),
            grows(*old(self), *final(self)),
            restores(*old(self), *final(self)),
            r@.len() == ids@.len(),
            all_below(r@, final(self).arena.nodes@.len()),
            all_walked(
                graph,
                asset,
                ids@,
                key,
                old(self).key_stack@,
                old(self).top_params(),
                old(self).visiting@,
                final(self).arena.nodes@,
                r@,
                fuel as nat,
            ),
        decreases fuel, 1nat,
    {
        let ghost s0 = *self;
        let ghost types = graph.api_at(asset).types@;
        let mut out: Vec<NodeRef> = Vec::new();
        let mut k: usize = 0;
        while k < ids.len()
            invariant
                self.wf(),
                grows(s0, *self),
                restores(s0, *self),
                graph_valid(graph),
                asset < graph.asset_count(),
                forall|i: int| 0 <= i < ids@.len() ==> id_below(#[trigger] ids@[i], graph.api_at(asset).types@.len()),
                k <= ids@.len(),
                out@.len() == k,
                all_below(out@, self.arena.nodes@.len()),
                types == graph.api_at(asset).types@,
                all_walked(graph, asset, ids@.take(k as int), key, s0.key_stack@, s0.top_params(), s0.visiting@, self.arena.nodes@, out@, fuel as nat),
            decreases ids.len() - k,
        {
            let ghost s1 = *self;
            let r = self.walk(graph, asset, ids[k], key, fuel);
            proof {
                lemma_grows_trans(s0, s1, *self);
                lemma_all_below_grow(out@, s1.arena.nodes@.len(), self.arena.nodes@.len());
                lemma_all_walked_grow(graph, asset, ids@.take(k as int), key, s0.key_stack@, s0.top_params(), s0.visiting@, s1.arena.nodes@, self.arena.nodes@, out@, fuel as nat);
            }
            let ghost o1 = out@;
            out.push(r);
            proof {
                assert(s1.top_params() == s0.top_params());
                let t = ids@.take(k + 1);
                assert forall|i: int| 0 <= i < t.len() implies #[trigger] walk_ok(graph, asset, t[i], key, s0.key_stack@, s0.top_params(), s0.visiting@, self.arena.nodes@, out@[i], fuel as nat) by {
                    if i < k {
                        assert(t[i] == ids@.take(k as int)[i]);
                        assert(out@[i] == o1[i]);
                    }
                }
            }
            k = k + 1;
        }
        proof {
            assert(ids@.take(ids@.len() as int) =~= ids@);
        }
        out
    }

    fn walk_properties<G: BundleGraph>(
        &mut self,
        graph: &G,
        asset: AssetId,
        properties: &IndexMap<String, Property>,
        fuel: u64,
    ) -> (r: IndexMap<String, NodeRef>)
        requires
            old(self).wf(),
            graph_valid(graph),
            asset < graph.asset_count(),
            forall|i: int| 0 <= i < prop_map_entries(*properties).len() ==> prop_refs_below(
                #[trigger] prop_map_entries(*properties)[i].1,
                graph.api_at(asset).types@.len(),
            ),
        ensures
            final(self).wf(),
            grows(*old(self), *final(self)),
            restores(*old(self), *final(self)),
            values_below(node_map_entries(r), final(self).arena.nodes@.len()),
            keys_distinct(node_map_entries(r)),
            node_keys(node_map_entries(r)) == keys_inserted(entry_keys(prop_map_entries(*properties))),
            props_carried(prop_map_entries(*properties), node_map_entries(r), final(self).arena.nodes@),
        decreases fuel, 2nat,
    {
        let ghost s0 = *self;
        let n = prop_map_len(properties);
        let mut out = node_map_new();
        let mut k: usize = 0;
        while k < n
            invariant
                self.wf(),
                grows(s0, *self),
                restores(s0, *self),
                graph_valid(graph),
                asset < graph.asset_count(),
                n == prop_map_entries(*properties).len(),
                forall|i: int| 0 <= i < prop_map_entries(*properties).len() ==> prop_refs_below(
                    #[trigger] prop_map_entries(*properties)[i].1,
                    graph.api_at(asset).types@.len(),
                ),
                k <= n,
                values_below(node_map_entries(out), self.arena.nodes@.len()),
                keys_distinct(node_map_entries(out)),
                node_keys(node_map_entries(out)) == keys_inserted(entry_keys(prop_map_entries(*properties)).take(k as int)),
                props_carried(prop_map_entries(*properties).take(k as int), node_map_entries(out), self.arena.nodes@),
            decreases n - k,
        {
            let (name, prop) = prop_map_get_index(properties, k);
            proof {
                let pk = entry_keys(prop_map_entries(*properties));
                assert(pk.take(k + 1) =~= pk.take(k as int).push(name@));
                lemma_keys_push(pk.take(k as int), name@);
            }
            let ghost s1 = *self;
            let v = self.walk_property(graph, asset, prop, fuel);
            proof {
                lemma_grows_trans(s0, s1, *self);
                lemma_values_below_grow(node_map_entries(out), s1.arena.nodes@.len(), self.arena.nodes@.len());
                lemma_insert_values(node_map_entries(out), name@, v, self.arena.nodes@.len() as nat);
                lemma_insert_distinct(node_map_entries(out), name@, v);
                lemma_node_keys_insert(node_map_entries(out), name@, v);
            }
            let ghost e0 = node_map_entries(out);
            proof {
                let pe = prop_map_entries(*properties);
                lemma_props_carried_grow(pe.take(k as int), e0, s1.arena.nodes@, self.arena.nodes@);
            }
            node_map_insert(&mut out, name.clone(), v);
            proof {
                let pe = prop_map_entries(*properties);
                let pt = pe.take(k as int);
                let pt1 = pe.take(k + 1);
                let e1 = node_map_entries(out);
                let nodes = self.arena.nodes@;
                lemma_key_pos(e0, name@);
                assert forall|i: int| 0 <= i < e1.len() implies #[trigger] carried_at(pt1, e1[i].0, e1[i].1, nodes) by {
                    if e1[i].0 == name@ {
                        assert(e1[i].1 == v) by {
                            if key_pos(e0, name@) >= 0 {
                                if i != key_pos(e0, name@) {
                                    assert(e1[i] == e0[i]);
                                    assert(e0[i].0 == name@);
                                    lemma_key_pos(e0, name@);
                                }
                            } else {
                                if i < e0.len() {
                                    assert(e1[i] == e0[i]);
                                    assert(has_key(e0, name@));
                                }
                            }
                        }
                        assert(pt1[k as int] == pe[k as int]);
                        assert(property_node(pt1[k as int].1, nodes[e1[i].1.0 as int]));
                    } else {
                        assert(i < e0.len());
                        assert(e1[i] == e0[i]);
                        assert(carried_at(pt, e0[i].0, e0[i].1, nodes));
                        let j = choose|j: int|
                            0 <= j < pt.len() && pt[j].0 == e0[i].0 && #[trigger] property_node(pt[j].1, nodes[e0[i].1.0 as int])
                                && forall|m: int| j < m < pt.len() ==> pt[m].0 != e0[i].0;
                        assert(pt1[j] == pt[j]);
                        assert forall|m: int| j < m < pt1.len() implies pt1[m].0 != e0[i].0 by {
                            if m < pt.len() {
                                assert(pt1[m] == pt[m]);
                            } else {
                                assert(pt1[m] == pe[k as int]);
                            }
                        }
                        assert(property_node(pt1[j].1, nodes[e1[i].1.0 as int]));
                    }
                }
            }
            k = k + 1;
        }
        proof {
            let pk = entry_keys(prop_map_entries(*properties));
            assert(pk.take(pk.len() as int) =~= pk);
            assert(prop_map_entries(*properties).take(n as int) =~= prop_map_entries(*properties));
        }
        out
    }

    fn walk_property<G: BundleGraph>(&mut self, graph: &G, asset: AssetId, prop: &Property, fuel: u64) -> (r: NodeRef)
        requires
            old(self).wf(),
            graph_valid(graph),
            asset < graph.asset_count(),
            prop_refs_below(*prop, graph.api_at(asset).types@.len()),
        ensures
            final(self).wf(),
            grows(*old(self), *final(self)),
            restores(*old(self), *final(self)),
            final(self).arena.holds(r),
            property_node(*prop, final(self).arena.nodes@[r.0 as int]),
        decreases fuel, 1nat,
    {
        let ghost s0 = *self;
        let value = self.walk(graph, asset, prop.value, Key::Other, fuel);
        let kind = if prop.is_method {
            NodeKind::Method {
                name: prop.name.clone(),
                value,
                access: copy_opt(&prop.access),
                default: copy_opt(&prop.default),
                is_static: prop.is_static,
                is_abstract: prop.is_abstract,
            }
        } else {
            let ghost s1 = *self;
            let index_type = match prop.index_type {
                Some(i) => Some(self.walk(graph, asset, i, Key::Other, fuel)),
                None => None,
            };
            proof {
                lemma_grows_trans(s0, s1, *self);
            }
            NodeKind::Property {
                name: prop.name.clone(),
                index_type,
                value,
                optional: prop.optional,
                access: copy_opt(&prop.access),
                selector: copy_opt(&prop.selector),
                default: copy_opt(&prop.default),
            }
        };
        let mut node = Node::new(kind);
        node.set_description(copy_opt(&prop.description));
        let ghost s2 = *self;
        let r = self.push_node(node);
        proof {
            lemma_grows_trans(s0, s2, *self);
        }
        r
    }

    fn walk_parameter<G: BundleGraph>(&mut self, graph: &G, asset: AssetId, param: &Parameter, fuel: u64) -> (r: NodeRef)
        requires
            old(self).wf(),
            graph_valid(graph),
            asset < graph.asset_count(),
            id_below(param.value, graph.api_at(asset).types@.len()),
        ensures
            final(self).wf(),
            grows(*old(self), *final(self)),
            restores(*old(self), *final(self)),
            final(self).arena.holds(r),
        decreases fuel, 1nat,
    {
        let ghost s0 = *self;
        let value = self.walk(graph, asset, param.value, Key::Other, fuel);
        let mut node = Node::new(NodeKind::Parameter {
            name: param.name.clone(),
            value,
            optional: param.optional,
            rest: param.rest,
        });
        node.set_description(copy_opt(&param.description));
        let ghost s1 = *self;
        let r = self.push_node(node);
        proof {
            lemma_grows_trans(s0, s1, *self);
        }
        r
    }
}

/// Child `i` of `rs` is what walking type `ids[i]` of module `asset` gives
/// (through `key`, below `keys`, with `top` in force and `visiting` being
/// materialized), for each `i`.
pub open spec fn all_walked<G: BundleGraph>(
    g: &G,
    asset: AssetId,
    ids: Seq<TypeId>,
    key: Key,
    keys: Seq<Key>,
    top: Entries,
    visiting: Seq<(AssetId, u32)>,
    arena: Seq<Node>,
    rs: Seq<NodeRef>,
    fuel: nat,
) -> bool {
    &&& rs.len() == ids.len()
    &&& forall|i: int| 0 <= i < ids.len() ==> #[trigger] walk_ok(g, asset, ids[i], key, keys, top, visiting, arena, rs[i], fuel)
}

/// What is walked stays walked as the arena grows.
pub proof fn lemma_all_walked_grow<G: BundleGraph>(
    g: &G,
    asset: AssetId,
    ids: Seq<TypeId>,
    key: Key,
    keys: Seq<Key>,
    top: Entries,
    visiting: Seq<(AssetId, u32)>,
    a: Seq<Node>,
    b: Seq<Node>,
    rs: Seq<NodeRef>,
    fuel: nat,
)
    requires
        all_walked(g, asset, ids, key, keys, top, visiting, a, rs, fuel),
        extends_arena(a, b),
    ensures
        all_walked(g, asset, ids, key, keys, top, visiting, b, rs, fuel),
{
    assert forall|i: int| 0 <= i < ids.len() implies #[trigger] walk_ok(g, asset, ids[i], key, keys, top, visiting, b, rs[i], fuel) by {
        lemma_walk_ok_grow(g, asset, ids[i], key, keys, top, visiting, a, b, rs[i], fuel);
    }
}

/// The child lists of the node built for `ty` (of module `asset`, below
/// `keys`, with `top` in force and `visiting` being materialized) hold, at
/// each position, what walking the type's child at that position gives, and
/// its property maps hold the type's property names, in order.
pub open spec fn children_walked<G: BundleGraph>(
    g: &G,
    asset: AssetId,
    ty: Type,
    n: Node,
    keys: Seq<Key>,
    top: Entries,
    visiting: Seq<(AssetId, u32)>,
    arena: Seq<Node>,
    fuel: nat,
) -> bool {
    let other = Key::Other;
    let decl = Key::TypeParamDecl;
    match ty {
        Type::Union { elements } => n.kind matches NodeKind::Union { elements: e } && all_walked(
            g, asset, elements@, other, keys, top, visiting, arena, e@, fuel),
        Type::Intersection { types: ts } => n.kind matches NodeKind::Intersection { types: t } && all_walked(
            g, asset, ts@, other, keys, top, visiting, arena, t@, fuel),
        Type::Tuple { elements } => n.kind matches NodeKind::Tuple { elements: e } && all_walked(
            g, asset, elements@, other, keys, top, visiting, arena, e@, fuel),
        Type::Template { elements } => n.kind matches NodeKind::Template { elements: e } && all_walked(
            g, asset, elements@, other, keys, top, visiting, arena, e@, fuel),
        Type::Application { type_parameters, .. } => n.kind matches NodeKind::Application { type_parameters: t, .. }
            && all_walked(g, asset, type_parameters@, other, keys, top, visiting, arena, t@, fuel),
        Type::Function { type_parameters, .. } => n.kind matches NodeKind::Function { type_parameters: t, .. } && all_walked(
            g, asset, type_parameters@, decl, keys, top, visiting, arena, t@, fuel),
        Type::Alias { value, type_parameters, .. } => n.kind matches NodeKind::Alias { value: v, type_parameters: t, .. }
            && all_walked(g, asset, type_parameters@, decl, keys, top, visiting, arena, t@, fuel) && walk_ok(
            g, asset, value, other, keys, top, visiting, arena, v, fuel),
        Type::Array { element_type } => n.kind matches NodeKind::Array { element_type: e } && walk_ok(
            g, asset, element_type, other, keys, top, visiting, arena, e, fuel),
        Type::TypeOperator { value, .. } => n.kind matches NodeKind::TypeOperator { value: v, .. } && walk_ok(
            g, asset, value, other, keys, top, visiting, arena, v, fuel),
        Type::Conditional { check_type, extends_type, true_type, false_type } => n.kind matches NodeKind::Conditional {
            check_type: c,
            extends_type: e,
            true_type: t,
            false_type: f,
        } && walk_ok(g, asset, check_type, other, keys, top, visiting, arena, c, fuel) && walk_ok(
            g, asset, extends_type, other, keys, top, visiting, arena, e, fuel) && walk_ok(
            g, asset, true_type, other, keys, top, visiting, arena, t, fuel) && walk_ok(
            g, asset, false_type, other, keys, top, visiting, arena, f, fuel),
        Type::Component { type_parameters, .. } => n.kind matches NodeKind::Component { type_parameters: t, .. }
            && all_walked(g, asset, type_parameters@, decl, keys, top, visiting, arena, t@, fuel),
        Type::Interface { extends, properties, type_parameters, .. } => n.kind matches NodeKind::Interface {
            extends: x,
            properties: p,
            type_parameters: t,
            ..
        } && all_walked(g, asset, extends@, Key::Extends, keys, top, visiting, arena, x@, fuel) && all_walked(
            g, asset, type_parameters@, decl, keys, top, visiting, arena, t@, fuel) && node_keys(
            node_map_entries(p),
        ) == keys_inserted(entry_keys(prop_map_entries(properties))) && props_carried(
            prop_map_entries(properties),
            node_map_entries(p),
            arena,
        ),
        Type::Object { properties, .. } => n.kind matches NodeKind::Object { properties: Some(p), .. } && node_keys(
            node_map_entries(p),
        ) == keys_inserted(entry_keys(prop_map_entries(properties))) && props_carried(
            prop_map_entries(properties),
            node_map_entries(p),
            arena,
        ),
        _ => true,
    }
}

/// The node `n` built for the property `p`: a method node, or a property
/// node, with the property's name, flags, access, selector, default and
/// description (and an index type exactly when the property has one).
pub open spec fn property_node(p: Property, n: Node) -> bool {
    &&& n.description == p.description
    &&& if p.is_method {
        n.kind matches NodeKind::Method { name, access, default, is_static, is_abstract, .. } && name == p.name
            && access == p.access && default == p.default && is_static == p.is_static && is_abstract == p.is_abstract
    } else {
        n.kind matches NodeKind::Property { name, index_type, optional, access, selector, default, .. } && name == p.name
            && optional == p.optional && access == p.access && selector == p.selector && default == p.default
            && (index_type is Some) == (p.index_type is Some)
    }
}

/// The node at `r` is built for the last of `props` with key `key`.
pub open spec fn carried_at(props: Seq<(Seq<char>, Property)>, key: Seq<char>, r: NodeRef, nodes: Seq<Node>) -> bool {
    exists|j: int|
        0 <= j < props.len() && props[j].0 == key && #[trigger] property_node(props[j].1, nodes[r.0 as int])
            && forall|m: int| j < m < props.len() ==> props[m].0 != key
}

/// Each entry of the node map `e` holds the node built for the last of
/// `props` with its key.
pub open spec fn props_carried(props: Seq<(Seq<char>, Property)>, e: Entries, nodes: Seq<Node>) -> bool {
    forall|i: int| 0 <= i < e.len() ==> #[trigger] carried_at(props, e[i].0, e[i].1, nodes)
}

/// Property nodes stay what they are as the arena grows.
pub proof fn lemma_props_carried_grow(props: Seq<(Seq<char>, Property)>, e: Entries, a: Seq<Node>, b: Seq<Node>)
    requires
        props_carried(props, e, a),
        values_below(e, a.len()),
        extends_arena(a, b),
    ensures
        props_carried(props, e, b),
{
    assert forall|i: int| 0 <= i < e.len() implies #[trigger] carried_at(props, e[i].0, e[i].1, b) by {
        assert(carried_at(props, e[i].0, e[i].1, a));
        let j = choose|j: int|
            0 <= j < props.len() && props[j].0 == e[i].0 && #[trigger] property_node(props[j].1, a[e[i].1.0 as int])
                && forall|m: int| j < m < props.len() ==> props[m].0 != e[i].0;
        assert(b[e[i].1.0 as int] == a[e[i].1.0 as int]);
        assert(property_node(props[j].1, b[e[i].1.0 as int]));
    }
}

/// The properties an object or interface type declares (none for another type).
pub open spec fn declared_props(ty: Type) -> Seq<(Seq<char>, Property)> {
    match ty {
        Type::Object { properties, .. } => prop_map_entries(properties),
        Type::Interface { properties, .. } => prop_map_entries(properties),
        _ => Seq::empty(),
    }
}

/// Law: the node packaged for an object or interface type holds, under each
/// key of its properties, a node built for the last property declared under
/// that key: for a property, a property node with the same name, optional
/// flag, access, selector, default and description; for a method, a method
/// node with the same name, access, default, flags and description.
pub proof fn law_property_nodes<G: BundleGraph>(
    g: &G,
    asset: AssetId,
    ty: Type,
    n: Node,
    keys: Seq<Key>,
    top: Entries,
    visiting: Seq<(AssetId, u32)>,
    arena: Seq<Node>,
    fuel: nat,
    i: int,
) -> (j: int)
    requires
        children_walked(g, asset, ty, n, keys, top, visiting, arena, fuel),
        ty is Object || ty is Interface,
        0 <= i < crate::packager::merge::props_of(n).len(),
    ensures
        0 <= j < declared_props(ty).len(),
        declared_props(ty)[j].0 == crate::packager::merge::props_of(n)[i].0,
        forall|m: int| j < m < declared_props(ty).len() ==> declared_props(ty)[m].0 != crate::packager::merge::props_of(n)[i].0,
        arena[crate::packager::merge::props_of(n)[i].1.0 as int].description == declared_props(ty)[j].1.description,
        !declared_props(ty)[j].1.is_method ==> (arena[crate::packager::merge::props_of(n)[i].1.0 as int].kind matches NodeKind::Property {
            name,
            optional,
            access,
            selector,
            default,
            ..
        } && name == declared_props(ty)[j].1.name && optional == declared_props(ty)[j].1.optional && access
            == declared_props(ty)[j].1.access && selector == declared_props(ty)[j].1.selector && default == declared_props(
            ty,
        )[j].1.default),
        declared_props(ty)[j].1.is_method ==> (arena[crate::packager::merge::props_of(n)[i].1.0 as int].kind matches NodeKind::Method {
            name,
            access,
            default,
            is_static,
            is_abstract,
            ..
        } && name == declared_props(ty)[j].1.name && access == declared_props(ty)[j].1.access && default == declared_props(
            ty,
        )[j].1.default && is_static == declared_props(ty)[j].1.is_static && is_abstract == declared_props(
            ty,
        )[j].1.is_abstract),
{
    let e = crate::packager::merge::props_of(n)[i];
    let props = declared_props(ty);
    assert(carried_at(props, e.0, e.1, arena));
    let j = choose|j: int|
        0 <= j < props.len() && props[j].0 == e.0 && #[trigger] property_node(props[j].1, arena[e.1.0 as int])
            && forall|m: int| j < m < props.len() ==> props[m].0 != e.0;
    assert(property_node(props[j].1, arena[e.1.0 as int]));
    j
}

/// The keys of a node map's entries.
pub open spec fn node_keys(e: Seq<(Seq<char>, NodeRef)>) -> Seq<Seq<char>> {
    e.map_values(|x: (Seq<char>, NodeRef)| x.0)
}

/// The keys of a node map after an insertion.
pub proof fn lemma_node_keys_insert(e: Seq<(Seq<char>, NodeRef)>, k: Seq<char>, v: NodeRef)
    ensures
        node_keys(entries_insert(e, k, v)) == (if node_keys(e).contains(k) {
            node_keys(e)
        } else {
            node_keys(e).push(k)
        }),
{
    lemma_key_pos(e, k);
    let ks = node_keys(e);
    if key_pos(e, k) >= 0 {
        assert(ks[key_pos(e, k)] == k);
        assert(ks.contains(k));
        assert(node_keys(entries_insert(e, k, v)) =~= ks);
    } else {
        assert(!ks.contains(k)) by {
            if ks.contains(k) {
                let j = choose|j: int| 0 <= j < ks.len() && ks[j] == k;
                assert(e[j].0 == k);
            }
        }
        assert(node_keys(entries_insert(e, k, v)) =~= ks.push(k));
    }
}

/// `b` holds the keys of `a` in front, in order.
pub open spec fn keys_kept(a: Seq<(Seq<char>, NodeRef)>, b: Seq<(Seq<char>, NodeRef)>) -> bool {
    &&& a.len() <= b.len()
    &&& forall|i: int| 0 <= i < a.len() ==> #[trigger] b[i].0 == a[i].0
}

/// Inserting into a map keeps the keys it had, in order.
pub proof fn lemma_keys_kept_insert(a: Seq<(Seq<char>, NodeRef)>, b: Seq<(Seq<char>, NodeRef)>, k: Seq<char>, v: NodeRef)
    requires
        keys_kept(a, b),
    ensures
        keys_kept(a, entries_insert(b, k, v)),
{
    lemma_key_pos(b, k);
    let c = entries_insert(b, k, v);
    assert forall|i: int| 0 <= i < a.len() implies #[trigger] c[i].0 == a[i].0 by {
        assert(b[i].0 == a[i].0);
    }
}

/// Whether a substitution map is pushed for `ty`, reached through `key` in
/// state `s`: `ty` is a generic alias, interface or component, and either a
/// generic application onto it (an alias or interface) is being merged, or it
/// is reached at the root.
pub open spec fn pushes_params(s: Packager, ty: Type, key: Key) -> bool {
    let merging = s.application is Some && should_merge_s(ty, key, last_key(s.key_stack@));
    let at_root = s.key_stack@.len() == 0;
    match ty {
        Type::Alias { type_parameters, .. } => type_parameters@.len() > 0 && (merging || at_root),
        Type::Interface { type_parameters, .. } => type_parameters@.len() > 0 && (merging || at_root),
        Type::Component { type_parameters, .. } => type_parameters@.len() > 0 && at_root,
        _ => false,
    }
}

impl Packager {
    /// Pushes a type-parameter substitution map when a generic application
    /// is being merged, or when replacing root-level parameters with their
    /// constraints. Returns whether a map was pushed.
    fn maybe_push_params<G: BundleGraph>(&mut self, graph: &G, asset: AssetId, ty: &Type, key: Key, fuel: u64) -> (pushed: bool)
        requires
            old(self).wf(),
            graph_valid(graph),
            type_of_graph(graph, asset, *ty),
        ensures
            final(self).wf(),
            grows(*old(self), *final(self)),
            final(self).key_stack@ == old(self).key_stack@,
            final(self).visiting@ == old(self).visiting@,
            pushed == pushes_params(*old(self), *ty, key),
            pushed && old(self).param_stack@.len() > 0 ==> keys_kept(
                params_view(old(self).param_stack@.last()),
                params_view(final(self).param_stack@.last()),
            ),
            pushed ==> final(self).param_stack@.len() == old(self).param_stack@.len() + 1
                && final(self).param_stack@.drop_last() == old(self).param_stack@,
            !pushed ==> final(self).param_stack@ == old(self).param_stack@,
        decreases fuel, 1nat,
    {
        let ghost s0 = *self;
        proof {
            lemma_refs_fields(*ty, graph.api_at(asset).types@.len());
        }
        let (tps, is_component) = match ty {
            Type::Alias { type_parameters, .. } => (type_parameters, false),
            Type::Interface { type_parameters, .. } => (type_parameters, false),
            Type::Component { type_parameters, .. } => (type_parameters, true),
            _ => {
                return false;
            },
        };
        if tps.len() == 0 {
            return false;
        }
        let ghost ntypes = graph.api_at(asset).types@.len();
        // A generic application onto an alias/interface about to be merged.
        if !is_component && self.application.is_some() && self.should_merge(ty, key) {
            let app = self.application.take().unwrap();
            let mut params = if self.param_stack.len() > 0 {
                params_copy(&self.param_stack[self.param_stack.len() - 1])
            } else {
                Vec::new()
            };
            proof {
                if s0.param_stack@.len() > 0 {
                    assert(values_below(params_view(s0.param_stack@[s0.param_stack@.len() - 1]), s0.arena.nodes@.len()));
                }
            }
            let ghost s1 = *self;
            let mut i: usize = 0;
            while i < tps.len()
                invariant
                    self.wf(),
                    grows(s0, *self),
                    self.key_stack@ == s0.key_stack@,
                    self.visiting@ == s0.visiting@,
                    self.param_stack@ == s0.param_stack@,
                    graph_valid(graph),
                    asset < graph.asset_count(),
                    ntypes == graph.api_at(asset).types@.len(),
                    forall|j: int| 0 <= j < tps@.len() ==> id_below(#[trigger] tps@[j], ntypes),
                    i <= tps@.len(),
                    all_below(app@, self.arena.nodes@.len()),
                    values_below(params_view(params), self.arena.nodes@.len()),
                    s0.param_stack@.len() > 0 ==> keys_kept(params_view(s0.param_stack@.last()), params_view(params)),
                decreases tps.len() - i,
            {
                let (name, default) = self.type_param_name_default(graph, asset, tps[i]);
                let ghost s2 = *self;
                let value = if i < app.len() {
                    Some(app[i])
                } else {
                    match default {
                        Some(d) => Some(self.walk(graph, asset, d, Key::Other, fuel)),
                        None => None,
                    }
                };
                proof {
                    lemma_grows_trans(s0, s2, *self);
                    lemma_all_below_grow(app@, s2.arena.nodes@.len(), self.arena.nodes@.len());
                    lemma_values_below_grow(params_view(params), s2.arena.nodes@.len(), self.arena.nodes@.len());
                }
                if let Some(v) = value {
                    proof {
                        lemma_insert_values(params_view(params), name@, v, self.arena.nodes@.len() as nat);
                        if s0.param_stack@.len() > 0 {
                            lemma_keys_kept_insert(params_view(s0.param_stack@.last()), params_view(params), name@, v);
                        }
                    }
                    param_insert(&mut params, name, v);
                }
                i = i + 1;
            }
            self.param_stack.push(params);
            proof {
                assert(self.param_stack@.drop_last() =~= s0.param_stack@);
                assert forall|j: int| 0 <= j < self.param_stack@.len() implies values_below(
                    params_view(#[trigger] self.param_stack@[j]),
                    self.arena.nodes@.len(),
                ) by {
                    if j < s0.param_stack@.len() {
                        assert(self.param_stack@[j] == s0.param_stack@[j]);
                    }
                }
            }
            return true;
        }
        // A root export: replace unbound type parameters with their constraints.
        if self.key_stack.len() == 0 {
            let mut params = if self.param_stack.len() > 0 {
                params_copy(&self.param_stack[self.param_stack.len() - 1])
            } else {
                Vec::new()
            };
            proof {
                if s0.param_stack@.len() > 0 {
                    assert(values_below(params_view(s0.param_stack@[s0.param_stack@.len() - 1]), s0.arena.nodes@.len()));
                }
            }
            let mut i: usize = 0;
            while i < tps.len()
                invariant
                    self.wf(),
                    grows(s0, *self),
                    restores(s0, *self),
                    graph_valid(graph),
                    asset < graph.asset_count(),
                    ntypes == graph.api_at(asset).types@.len(),
                    forall|j: int| 0 <= j < tps@.len() ==> id_below(#[trigger] tps@[j], ntypes),
                    i <= tps@.len(),
                    values_below(params_view(params), self.arena.nodes@.len()),
                    s0.param_stack@.len() > 0 ==> keys_kept(params_view(s0.param_stack@.last()), params_view(params)),
                decreases tps.len() - i,
            {
                let ghost s2 = *self;
                let node = self.walk(graph, asset, tps[i], Key::TypeParamDecl, fuel);
                proof {
                    lemma_grows_trans(s0, s2, *self);
                    lemma_values_below_grow(params_view(params), s2.arena.nodes@.len(), self.arena.nodes@.len());
                    assert(placeable(self.arena.nodes@[node.0 as int], node.0 as nat));
                }
                let nd = self.arena.get(node);
                if let NodeKind::TypeParameter { name, constraint: Some(c), .. } = &nd.kind {
                    if param_lookup(&params, name.as_str()).is_none() {
                        proof {
                            assert(node_children(*nd)[0] == *c);
                            lemma_insert_values(params_view(params), name@, *c, self.arena.nodes@.len() as nat);
                            if s0.param_stack@.len() > 0 {
                                lemma_keys_kept_insert(params_view(s0.param_stack@.last()), params_view(params), name@, *c);
                            }
                        }
                        param_insert(&mut params, name.clone(), *c);
                    }
                }
                i = i + 1;
            }
            self.param_stack.push(params);
            proof {
                assert(self.param_stack@.drop_last() =~= s0.param_stack@);
                assert forall|j: int| 0 <= j < self.param_stack@.len() implies values_below(
                    params_view(#[trigger] self.param_stack@[j]),
                    self.arena.nodes@.len(),
                ) by {
                    if j < s0.param_stack@.len() {
                        assert(self.param_stack@[j] == s0.param_stack@[j]);
                    }
                }
            }
            return true;
        }
        false
    }
}

impl Packager {
    /// Materializes an arena type's children into a node.
    fn visit_children<G: BundleGraph>(&mut self, graph: &G, asset: AssetId, ty: &Type, fuel: u64) -> (r: Node)
        requires
            old(self).wf(),
            graph_valid(graph),
            type_of_graph(graph, asset, *ty),
        ensures
            final(self).wf(),
            grows(*old(self), *final(self)),
            restores(*old(self), *final(self)),
            placeable(r, final(self).arena.nodes@.len()),
            visited_ok(*ty, r),
            children_walked(
                graph,
                asset,
                *ty,
                r,
                old(self).key_stack@,
                old(self).top_params(),
                old(self).visiting@,
                final(self).arena.nodes@,
                fuel as nat,
            ),
        decreases fuel, 3nat,
    {
        let ghost s0 = *self;
        proof {
            lemma_refs_fields(*ty, graph.api_at(asset).types@.len());
        }
        let kind = match ty {
            Type::Any => NodeKind::Any,
            Type::Null => NodeKind::Null,
            Type::Undefined => NodeKind::Undefined,
            Type::Void => NodeKind::Void,
            Type::Unknown => NodeKind::Unknown,
            Type::Never => NodeKind::Never,
            Type::This => NodeKind::This,
            Type::Symbol => NodeKind::Symbol,
            Type::ObjectKeyword => NodeKind::Object { properties: None, access: None },
            Type::Identifier { name } => NodeKind::Identifier { name: name.clone() },
            Type::String { value } => NodeKind::String { value: copy_opt(value) },
            Type::Number { value } => NodeKind::Number { value: *value },
            Type::Boolean { value } => NodeKind::Boolean { value: *value },
            Type::Union { elements } => NodeKind::Union { elements: self.walk_all(graph, asset, elements, Key::Other, fuel) },
            Type::Intersection { types } => NodeKind::Intersection {
                types: self.walk_all(graph, asset, types, Key::Other, fuel),
            },
            Type::Application { base, type_parameters } => {
                let b = self.walk(graph, asset, *base, Key::Base, fuel);
                let ghost s1 = *self;
                let tps = self.walk_all(graph, asset, type_parameters, Key::Other, fuel);
                proof {
                    lemma_grows_trans(s0, s1, *self);
                }
                NodeKind::Application { base: b, type_parameters: tps }
            },
            Type::TypeOperator { operator, value } => {
                let v = self.walk(graph, asset, *value, Key::Other, fuel);
                NodeKind::TypeOperator { operator: operator_name(*operator), value: v }
            },
            Type::Function { id, name, parameters, return_type, return_description, type_parameters, access, examples, .. } => {
                let mut params: Vec<NodeRef> = Vec::new();
                let mut k: usize = 0;
                while k < parameters.len()
                    invariant
                        self.wf(),
                        grows(s0, *self),
                        restores(s0, *self),
                        graph_valid(graph),
                        asset < graph.asset_count(),
                        forall|i: int| 0 <= i < parameters@.len() ==> id_below(#[trigger] parameters@[i].value, graph.api_at(asset).types@.len()),
                        k <= parameters@.len(),
                        params@.len() == k,
                        all_below(params@, self.arena.nodes@.len()),
                    decreases parameters.len() - k,
                {
                    let ghost s1 = *self;
                    let p = self.walk_parameter(graph, asset, &parameters[k], fuel);
                    proof {
                        lemma_grows_trans(s0, s1, *self);
                        lemma_all_below_grow(params@, s1.arena.nodes@.len(), self.arena.nodes@.len());
                    }
                    params.push(p);
                    k = k + 1;
                }
                let ghost s1 = *self;
                let mut ret = self.walk(graph, asset, *return_type, Key::Other, fuel);
                proof {
                    lemma_grows_trans(s0, s1, *self);
                    lemma_all_below_grow(params@, s1.arena.nodes@.len(), self.arena.nodes@.len());
                }
                // Only primitive/container return types carry the `@returns`
                // description; anything the packager rebuilds drops it.
                let rn = self.arena.get(ret);
                if return_carries_description(&rn.kind) && rn.description.is_none() && return_description.is_some() {
                    let mut copy = duplicate_node(rn);
                    copy.set_description(copy_opt(return_description));
                    proof {
                        lemma_same_kind(*rn, copy);
                        assert(placeable(self.arena.nodes@[ret.0 as int], ret.0 as nat));
                        assert forall|j: int| 0 <= j < node_children(copy).len() implies (#[trigger] node_children(copy)[j]).0
                            < self.arena.nodes@.len() by {
                            assert(node_children(copy)[j] == node_children(self.arena.nodes@[ret.0 as int])[j]);
                        }
                    }
                    let ghost s2 = *self;
                    ret = self.push_node(copy);
                    proof {
                        lemma_grows_trans(s0, s2, *self);
                        lemma_all_below_grow(params@, s2.arena.nodes@.len(), self.arena.nodes@.len());
                    }
                }
                let ghost s3 = *self;
                let tps = self.walk_all(graph, asset, type_parameters, Key::TypeParamDecl, fuel);
                proof {
                    lemma_grows_trans(s0, s3, *self);
                    lemma_all_below_grow(params@, s3.arena.nodes@.len(), self.arena.nodes@.len());
                }
                NodeKind::Function {
                    id: copy_opt(id),
                    name: copy_opt(name),
                    parameters: params,
                    return_type: ret,
                    type_parameters: tps,
                    examples: copy_strs(examples),
                    access: copy_opt(access),
                }
            },
            Type::Alias { id, name, value, type_parameters, access, .. } => {
                let v = self.walk(graph, asset, *value, Key::Other, fuel);
                let ghost s1 = *self;
                let tps = self.walk_all(graph, asset, type_parameters, Key::TypeParamDecl, fuel);
                proof {
                    lemma_grows_trans(s0, s1, *self);
                    lemma_walk_ok_grow(graph, asset, *value, Key::Other, s0.key_stack@, s0.top_params(), s0.visiting@, s1.arena.nodes@, self.arena.nodes@, v, fuel as nat);
                }
                NodeKind::Alias { id: id.clone(), name: name.clone(), value: v, type_parameters: tps, access: copy_opt(access) }
            },
            Type::Interface { id, name, extends, properties, type_parameters, access, .. } => {
                let ex = self.walk_all(graph, asset, extends, Key::Extends, fuel);
                let ghost s1 = *self;
                let props = self.walk_properties(graph, asset, properties, fuel);
                let ghost s2 = *self;
                proof {
                    lemma_grows_trans(s0, s1, s2);
                    lemma_all_below_grow(ex@, s1.arena.nodes@.len(), s2.arena.nodes@.len());
                }
                let tps = self.walk_all(graph, asset, type_parameters, Key::TypeParamDecl, fuel);
                proof {
                    lemma_grows_trans(s0, s2, *self);
                    lemma_all_below_grow(ex@, s2.arena.nodes@.len(), self.arena.nodes@.len());
                    lemma_props_carried_grow(prop_map_entries(*properties), node_map_entries(props), s2.arena.nodes@, self.arena.nodes@);
                    lemma_values_below_grow(node_map_entries(props), s2.arena.nodes@.len(), self.arena.nodes@.len());
                    lemma_all_walked_grow(graph, asset, extends@, Key::Extends, s0.key_stack@, s0.top_params(), s0.visiting@, s1.arena.nodes@, self.arena.nodes@, ex@, fuel as nat);
                }
                NodeKind::Interface {
                    id: id.clone(),
                    name: name.clone(),
                    extends: ex,
                    properties: props,
                    type_parameters: tps,
                    access: copy_opt(access),
                }
            },
            Type::Object { properties, access, .. } => {
                let props = self.walk_properties(graph, asset, properties, fuel);
                NodeKind::Object { properties: Some(props), access: copy_opt(access) }
            },
            Type::Array { element_type } => NodeKind::Array { element_type: self.walk(graph, asset, *element_type, Key::Other, fuel) },
            Type::Tuple { elements } => NodeKind::Tuple { elements: self.walk_all(graph, asset, elements, Key::Other, fuel) },
            Type::Template { elements } => NodeKind::Template {
                elements: self.walk_all(graph, asset, elements, Key::Other, fuel),
            },
            Type::Component { id, name, props, type_parameters, ref_type, access, examples, .. } => {
                let p = match props {
                    Some(p) => Some(self.walk(graph, asset, *p, Key::Props, fuel)),
                    None => None,
                };
                let ghost s1 = *self;
                let tps = self.walk_all(graph, asset, type_parameters, Key::TypeParamDecl, fuel);
                let ghost s2 = *self;
                proof {
                    lemma_grows_trans(s0, s1, s2);
                }
                let rt = match ref_type {
                    Some(r) => Some(self.walk(graph, asset, *r, Key::Other, fuel)),
                    None => None,
                };
                proof {
                    lemma_grows_trans(s0, s2, *self);
                    lemma_all_below_grow(tps@, s2.arena.nodes@.len(), self.arena.nodes@.len());
                    lemma_all_walked_grow(graph, asset, type_parameters@, Key::TypeParamDecl, s0.key_stack@, s0.top_params(), s0.visiting@, s2.arena.nodes@, self.arena.nodes@, tps@, fuel as nat);
                }
                NodeKind::Component {
                    id: copy_opt(id),
                    name: copy_opt(name),
                    props: p,
                    type_parameters: tps,
                    ref_type: rt,
                    examples: copy_strs(examples),
                    access: copy_opt(access),
                }
            },
            Type::Conditional { check_type, extends_type, true_type, false_type } => {
                let c = self.walk(graph, asset, *check_type, Key::Other, fuel);
                let ghost s1 = *self;
                let e = self.walk(graph, asset, *extends_type, Key::Other, fuel);
                let ghost s2 = *self;
                let t = self.walk(graph, asset, *true_type, Key::Other, fuel);
                let ghost s3 = *self;
                let f = self.walk(graph, asset, *false_type, Key::Other, fuel);
                proof {
                    lemma_grows_trans(s0, s1, s2);
                    lemma_grows_trans(s0, s2, s3);
                    lemma_grows_trans(s0, s3, *self);
                    let (ks, tp, vs) = (s0.key_stack@, s0.top_params(), s0.visiting@);
                    lemma_walk_ok_grow(graph, asset, *check_type, Key::Other, ks, tp, vs, s1.arena.nodes@, self.arena.nodes@, c, fuel as nat);
                    lemma_walk_ok_grow(graph, asset, *extends_type, Key::Other, ks, tp, vs, s2.arena.nodes@, self.arena.nodes@, e, fuel as nat);
                    lemma_walk_ok_grow(graph, asset, *true_type, Key::Other, ks, tp, vs, s3.arena.nodes@, self.arena.nodes@, t, fuel as nat);
                }
                NodeKind::Conditional { check_type: c, extends_type: e, true_type: t, false_type: f }
            },
            Type::IndexedAccess { object_type, index_type } => {
                let o = self.walk(graph, asset, *object_type, Key::Other, fuel);
                let ghost s1 = *self;
                let i = self.walk(graph, asset, *index_type, Key::Other, fuel);
                proof {
                    lemma_grows_trans(s0, s1, *self);
                }
                NodeKind::IndexedAccess { object_type: o, index_type: i }
            },
            Type::Mapped { readonly, type_parameter, type_annotation } => {
                let tp = self.walk(graph, asset, *type_parameter, Key::TypeParamDecl, fuel);
                let ghost s1 = *self;
                let ta = self.walk(graph, asset, *type_annotation, Key::Other, fuel);
                proof {
                    lemma_grows_trans(s0, s1, *self);
                }
                NodeKind::Mapped { readonly: copy_opt(readonly), type_parameter: tp, type_annotation: ta }
            },
            Type::TypeParameter { name, constraint, default } => {
                let c = match constraint {
                    Some(c) => Some(self.walk(graph, asset, *c, Key::Other, fuel)),
                    None => None,
                };
                let ghost s1 = *self;
                let d = match default {
                    Some(d) => Some(self.walk(graph, asset, *d, Key::Other, fuel)),
                    None => None,
                };
                proof {
                    lemma_grows_trans(s0, s1, *self);
                }
                NodeKind::TypeParameter { name: name.clone(), constraint: c, default: d }
            },
            Type::Link { id, .. } => NodeKind::Link { id: id.clone() },
            Type::Reference { specifier, imported, local } => NodeKind::Reference {
                specifier: specifier.clone(),
                imported: copy_opt(imported),
                local: copy_opt(local),
            },
            Type::Ref(_) => NodeKind::Any,
        };
        let mut node = Node::new(kind);
        node.set_description(type_description(ty));
        proof {
            let b = self.arena.nodes@.len() as nat;
            match &node.kind {
                NodeKind::Application { base, type_parameters } => {
                    lemma_all_below_concat(seq![*base], type_parameters@, b);
                },
                NodeKind::Function { parameters, return_type, type_parameters, .. } => {
                    lemma_all_below_concat(parameters@ + seq![*return_type], type_parameters@, b);
                    lemma_all_below_concat(parameters@, seq![*return_type], b);
                },
                NodeKind::Alias { value, type_parameters, .. } => {
                    lemma_all_below_concat(seq![*value], type_parameters@, b);
                },
                NodeKind::Interface { extends, properties, type_parameters, .. } => {
                    lemma_map_refs_below(*properties, b);
                    lemma_all_below_concat(extends@ + map_refs(*properties), type_parameters@, b);
                    lemma_all_below_concat(extends@, map_refs(*properties), b);
                },
                NodeKind::Object { properties: Some(p), .. } => {
                    lemma_map_refs_below(*p, b);
                },
                NodeKind::Component { props, type_parameters, ref_type, .. } => {
                    lemma_all_below_concat(opt_ref(*props) + type_parameters@, opt_ref(*ref_type), b);
                    lemma_all_below_concat(opt_ref(*props), type_parameters@, b);
                },
                NodeKind::TypeParameter { constraint, default, .. } => {
                    lemma_all_below_concat(opt_ref(*constraint), opt_ref(*default), b);
                },
                _ => {},
            }
        }
        node
    }

    /// Processes an asset's exports into the cache (memoized): each export is
    /// walked at the root and named by its export name, then the exports of
    /// each `export *` target that the asset lacks are added.
    pub fn ensure_processed<G: BundleGraph>(&mut self, graph: &G, asset: AssetId, fuel: u64)
        requires
            old(self).wf(),
            graph_valid(graph),
            asset < graph.asset_count(),
        ensures
            final(self).wf(),
            grows(*old(self), *final(self)),
            restores(*old(self), *final(self)),
            final(self).application == old(self).application,
            cache_get(old(self).cache@, asset) is Some ==> *final(self) == *old(self),
            cache_get(old(self).cache@, asset) is None ==> (cache_get(final(self).cache@, asset) matches Some(m)
                && exports_first(id_map_entries(graph.api_at(asset).exports), node_map_entries(m)) && exports_packed(
                graph,
                asset,
                id_map_entries(graph.api_at(asset).exports),
                node_map_entries(m),
                old(self).visiting@,
                final(self).arena.nodes@,
                fuel as nat,
            ) && node_map_entries(m) == star_merge(
                graph,
                asset,
                graph.api_at(asset).export_all@,
                node_map_entries(m).take(id_map_entries(graph.api_at(asset).exports).len() as int),
                final(self).cache@,
            )),
        decreases fuel, 1nat,
    {
        if self.cache_index(asset).is_some() {
            return;
        }
        let ghost s0 = *self;
        // A placeholder guards against export-all cycles.
        self.cache_set(asset, node_map_new());
        // Each asset's exports are processed in a fresh root context.
        let mut saved_keys: Vec<Key> = Vec::new();
        std::mem::swap(&mut saved_keys, &mut self.key_stack);
        let mut saved_params: Vec<Vec<(String, NodeRef)>> = Vec::new();
        std::mem::swap(&mut saved_params, &mut self.param_stack);
        let saved_app = self.application.take();
        let ghost s1 = *self;
        let api = graph.api(asset);
        let ghost ex = id_map_entries(api.exports);
        proof {
            assert(api.wf());
        }
        let mut res = node_map_new();
        let n = id_map_len(&api.exports);
        let mut k: usize = 0;
        while k < n
            invariant
                self.wf(),
                grows(s1, *self),
                self.key_stack@.len() == 0,
                self.param_stack@.len() == 0,
                self.visiting@ == s0.visiting@,
                graph_valid(graph),
                asset < graph.asset_count(),
                *api == graph.api_at(asset),
                api.wf(),
                ex == id_map_entries(api.exports),
                n == ex.len(),
                k <= n,
                node_map_entries(res).len() == k,
                forall|i: int| 0 <= i < k ==> #[trigger] node_map_entries(res)[i].0 == ex[i].0,
                keys_distinct(node_map_entries(res)),
                values_below(node_map_entries(res), self.arena.nodes@.len()),
                exports_packed(graph, asset, ex.take(k as int), node_map_entries(res), s0.visiting@, self.arena.nodes@, fuel as nat),
            decreases n - k,
        {
            let (name, tid) = id_map_get_index(&api.exports, k);
            let ghost s2 = *self;
            let walked = self.walk(graph, asset, *tid, Key::Root, fuel);
            let ghost s2w = *self;
            // The export name becomes the type's name (handles re-export aliases).
            let node = self.renamed(walked, name);
            proof {
                assert(s2.top_params() =~= Seq::<(Seq<char>, NodeRef)>::empty());
                assert(s2.key_stack@ =~= Seq::<Key>::empty());
                lemma_walk_ok_grow(graph, asset, *tid, Key::Root, s2.key_stack@, s2.top_params(), s2.visiting@, s2w.arena.nodes@, self.arena.nodes@, walked, fuel as nat);
                assert(self.arena.nodes@[walked.0 as int] == s2w.arena.nodes@[walked.0 as int]);
                assert(walk_ok(graph, asset, *tid, Key::Root, Seq::empty(), Seq::empty(), s0.visiting@, self.arena.nodes@, walked, fuel as nat));
                assert(export_packed(graph, asset, *tid, name@, s0.visiting@, self.arena.nodes@, node, fuel as nat));
            }
            proof {
                lemma_grows_trans(s1, s2, *self);
                lemma_values_below_grow(node_map_entries(res), s2.arena.nodes@.len(), self.arena.nodes@.len());
                let e = node_map_entries(res);
                lemma_key_pos(e, name@);
                if has_key(e, name@) {
                    let i = choose|i: int| 0 <= i < e.len() && #[trigger] e[i].0 == name@;
                    assert(ex[i].0 == ex[k as int].0);
                    assert(false);
                }
                lemma_insert_distinct(e, name@, node);
                lemma_insert_values(e, name@, node, self.arena.nodes@.len() as nat);
            }
            let ghost e0 = node_map_entries(res);
            node_map_insert(&mut res, name.clone(), node);
            proof {
                let e1 = node_map_entries(res);
                assert(e1 == e0.push((name@, node)));
                let exk = ex.take(k + 1);
                assert forall|i: int| 0 <= i < exk.len() implies #[trigger] export_packed(
                    graph,
                    asset,
                    exk[i].1,
                    exk[i].0,
                    s0.visiting@,
                    self.arena.nodes@,
                    e1[i].1,
                    fuel as nat,
                ) by {
                    if i < k {
                        assert(exk[i] == ex.take(k as int)[i]);
                        assert(e1[i] == e0[i]);
                        assert(export_packed(graph, asset, exk[i].1, exk[i].0, s0.visiting@, s2.arena.nodes@, e0[i].1, fuel as nat));
                        lemma_export_packed_grow(graph, asset, exk[i].1, exk[i].0, s0.visiting@, s2.arena.nodes@, self.arena.nodes@, e0[i].1, fuel as nat);
                    } else {
                        assert(exk[i] == ex[k as int]);
                        assert(ex[k as int].0 == name@);
                        assert(ex[k as int].1 == *tid);
                    }
                }
            }
            k = k + 1;
        }
        proof {
            assert(ex.take(n as int) =~= ex);
        }
        let ghost own = node_map_entries(res);
        let ghost srcs = api.export_all@;
        let ghost s5 = *self;
        proof {
            assert(own.take(ex.len() as int) =~= own);
            assert(srcs.take(0) =~= Seq::<String>::empty());
        }
        // `export * from './x'` merges the target's exports.
        let mut j: usize = 0;
        while j < api.export_all.len()
            invariant
                srcs == api.export_all@,
                own.len() == ex.len(),
                node_map_entries(res).take(ex.len() as int) == own,
                node_map_entries(res) == star_merge(graph, asset, srcs.take(j as int), own, self.cache@),
                cache_get(self.cache@, asset) matches Some(p) && node_map_entries(p).len() == 0,
                fuel == 0 ==> self.cache@ == s5.cache@,
                fuel > 0 ==> forall|i: int| 0 <= i < j ==> #[trigger] target_cached(graph, asset, srcs[i], self.cache@),
                self.wf(),
                grows(s1, *self),
                self.key_stack@.len() == 0,
                self.param_stack@.len() == 0,
                self.visiting@ == s0.visiting@,
                graph_valid(graph),
                asset < graph.asset_count(),
                *api == graph.api_at(asset),
                ex == id_map_entries(api.exports),
                j <= api.export_all@.len(),
                exports_first(ex, node_map_entries(res)),
                values_below(node_map_entries(res), self.arena.nodes@.len()),
                exports_packed(graph, asset, ex, node_map_entries(res), s0.visiting@, self.arena.nodes@, fuel as nat),
            decreases api.export_all.len() - j,
        {
            let ghost s2 = *self;
            let ghost r0 = node_map_entries(res);
            proof {
                assert(srcs.take(j + 1).drop_last() =~= srcs.take(j as int));
                assert(srcs.take(j + 1).last() == srcs[j as int]);
            }
            if let Some(target) = graph.resolve(asset, api.export_all[j].as_str()) {
                if fuel > 0 {
                    self.ensure_processed(graph, target, fuel - 1);
                }
                proof {
                    assert forall|i: int| 0 <= i < srcs.take(j as int).len() implies #[trigger] same_target(
                        graph,
                        asset,
                        srcs.take(j as int)[i],
                        s2.cache@,
                        self.cache@,
                    ) by {
                        if fuel > 0 {
                            assert(target_cached(graph, asset, srcs[i], s2.cache@));
                        }
                    }
                    lemma_star_merge_same(graph, asset, srcs.take(j as int), own, s2.cache@, self.cache@);
                    lemma_grows_trans(s1, s2, *self);
                    lemma_exports_packed_grow(graph, asset, ex, node_map_entries(res), node_map_entries(res), s0.visiting@, s2.arena.nodes@, self.arena.nodes@, fuel as nat);
                    lemma_values_below_grow(node_map_entries(res), s2.arena.nodes@.len(), self.arena.nodes@.len());
                }
                if let Some(i) = self.cache_index(target) {
                    let ghost before = node_map_entries(res);
                    let ghost other = node_map_entries(self.cache@[i as int].1);
                    merge_props(&mut res, &self.cache[i].1);
                    proof {
                        assert(values_below(other, self.arena.nodes@.len()));
                        lemma_merge_into(before, other);
                        let m = node_map_entries(res);
                        assert forall|q: int| 0 <= q < ex.len() implies #[trigger] m[q].0 == ex[q].0 by {
                            assert(m[q] == before[q]);
                        }
                        lemma_exports_packed_grow(graph, asset, ex, before, m, s0.visiting@, self.arena.nodes@, self.arena.nodes@, fuel as nat);
                        assert(m.take(ex.len() as int) =~= before.take(ex.len() as int));
                        assert forall|q: int| 0 <= q < m.len() implies (#[trigger] m[q]).1.0 < self.arena.nodes@.len() by {
                            if q < before.len() {
                                assert(m[q] == before[q]);
                            } else {
                                let w = choose|w: int| 0 <= w < other.len() && m[q] == other[w];
                                assert(other[w].1.0 < self.arena.nodes@.len());
                            }
                        }
                    }
                }
            }
            proof {
                assert(node_map_entries(res) == star_merge(graph, asset, srcs.take(j + 1), own, self.cache@));
                if fuel > 0 {
                    assert forall|i: int| 0 <= i < j + 1 implies #[trigger] target_cached(graph, asset, srcs[i], self.cache@) by {
                        if i < j {
                            assert(target_cached(graph, asset, srcs[i], s2.cache@));
                        }
                    }
                }
            }
            j = j + 1;
        }
        let ghost s3 = *self;
        std::mem::swap(&mut saved_keys, &mut self.key_stack);
        std::mem::swap(&mut saved_params, &mut self.param_stack);
        self.application = saved_app;
        proof {
            s0.lemma_refs_ok_grow(s0.arena.nodes@.len(), self.arena.nodes@.len());
            assert(extends_arena(s0.arena.nodes@, s1.arena.nodes@));
            lemma_grows_trans(s0, s1, s3);
            assert(self.refs_ok(self.arena.nodes@.len())) by {
                assert forall|i: int| 0 <= i < self.param_stack@.len() implies values_below(params_view(#[trigger] self.param_stack@[i]), self.arena.nodes@.len()) by {
                    assert(self.param_stack@[i] == s0.param_stack@[i]);
                }
            }
        }
        let ghost s4 = *self;
        proof {
            lemma_exports_packed_grow(graph, asset, ex, node_map_entries(res), node_map_entries(res), s0.visiting@, s3.arena.nodes@, self.arena.nodes@, fuel as nat);
        }
        let ghost fin = node_map_entries(res);
        self.cache_set(asset, res);
        proof {
            assert(grows(s3, s4));
            lemma_grows_trans(s0, s3, s4);
            assert forall|y: AssetId| #[trigger] cache_get(s0.cache@, y) is Some implies cache_get(self.cache@, y) == cache_get(
                s0.cache@,
                y,
            ) by {
                assert(cache_get(s4.cache@, y) == cache_get(s0.cache@, y));
            }
            assert(grows(s0, *self));
            assert(srcs.take(srcs.len() as int) =~= srcs);
            assert forall|i: int| 0 <= i < srcs.len() implies #[trigger] same_target(graph, asset, srcs[i], s4.cache@, self.cache@) by {}
            lemma_star_merge_same(graph, asset, srcs, own, s4.cache@, self.cache@);
            assert(fin.take(ex.len() as int) == own);
        }
    }
}

/// A link node to a registered declaration has an entry in `links`.
pub open spec fn link_covered(n: Node, reg: Entries, links: Entries) -> bool {
    match n.kind {
        NodeKind::Link { id } => registry_get(reg, id@) is Some ==> has_key(links, id@),
        _ => true,
    }
}

/// Every link to a registered declaration in the tree of nodes under `r`
/// (the node, its children, their children, ...) has an entry in `links`.
pub open spec fn covers(nodes: Seq<Node>, reg: Entries, links: Entries, r: NodeRef) -> bool
    decreases r.0,
{
    &&& r.0 < nodes.len()
    &&& link_covered(nodes[r.0 as int], reg, links)
    &&& forall|k: int| 0 <= k < node_children(nodes[r.0 as int]).len() ==> (node_children(nodes[r.0 as int])[k].0 < r.0
        ==> covers(nodes, reg, links, #[trigger] node_children(nodes[r.0 as int])[k]))
}

/// The tree of nodes under `r` holds a link to `id`.
pub open spec fn mentions(nodes: Seq<Node>, r: NodeRef, id: Seq<char>) -> bool
    decreases r.0, (if r.0 < nodes.len() { node_children(nodes[r.0 as int]).len() + 1 } else { 0 }),
{
    if r.0 < nodes.len() {
        links_to(nodes[r.0 as int], id) || mentions_among(nodes, r, id, node_children(nodes[r.0 as int]).len() as int)
    } else {
        false
    }
}

/// One of the first `k` children of `r` (those placed before it) has a link
/// to `id` in the tree under it.
pub open spec fn mentions_among(nodes: Seq<Node>, r: NodeRef, id: Seq<char>, k: int) -> bool
    decreases r.0, (if k > 0 { k } else { 0 }),
{
    if 0 < k && r.0 < nodes.len() && k <= node_children(nodes[r.0 as int]).len() {
        (node_children(nodes[r.0 as int])[k - 1].0 < r.0 && mentions(nodes, node_children(nodes[r.0 as int])[k - 1], id))
            || mentions_among(nodes, r, id, k - 1)
    } else {
        false
    }
}

/// `n` is a link to `id`.
pub open spec fn links_to(n: Node, id: Seq<char>) -> bool {
    n.kind matches NodeKind::Link { id: i } && i@ == id
}

/// A link in the tree under a child is in the tree under its parent.
pub proof fn lemma_mentions_child(nodes: Seq<Node>, r: NodeRef, k: int, id: Seq<char>)
    requires
        r.0 < nodes.len(),
        0 <= k < node_children(nodes[r.0 as int]).len(),
        node_children(nodes[r.0 as int])[k].0 < r.0,
        mentions(nodes, node_children(nodes[r.0 as int])[k], id),
    ensures
        mentions(nodes, r, id),
{
    lemma_mentions_among(nodes, r, id, k, node_children(nodes[r.0 as int]).len() as int);
}

proof fn lemma_mentions_among(nodes: Seq<Node>, r: NodeRef, id: Seq<char>, k: int, m: int)
    requires
        r.0 < nodes.len(),
        0 <= k < m <= node_children(nodes[r.0 as int]).len(),
        node_children(nodes[r.0 as int])[k].0 < r.0,
        mentions(nodes, node_children(nodes[r.0 as int])[k], id),
    ensures
        mentions_among(nodes, r, id, m),
    decreases m,
{
    if k < m - 1 {
        lemma_mentions_among(nodes, r, id, k, m - 1);
    }
}

/// In a well-formed arena every child is placed before its parent, so a link
/// in the tree under any child of `r` is in the tree under `r`.
pub proof fn lemma_wf_mentions_child(arena: NodeArena, r: NodeRef, k: int, id: Seq<char>)
    requires
        arena.wf(),
        arena.holds(r),
        0 <= k < node_children(arena.nodes@[r.0 as int]).len(),
        mentions(arena.nodes@, node_children(arena.nodes@[r.0 as int])[k], id),
    ensures
        mentions(arena.nodes@, r, id),
{
    assert(placeable(arena.nodes@[r.0 as int], r.0 as nat));
    assert(node_children(arena.nodes@[r.0 as int])[k].0 < r.0);
    lemma_mentions_child(arena.nodes@, r, k, id);
}

/// A link found among the first `k` children of `r` is under one of them.
proof fn lemma_mentions_among_child(nodes: Seq<Node>, r: NodeRef, id: Seq<char>, k: int) -> (c: int)
    requires
        mentions_among(nodes, r, id, k),
    ensures
        r.0 < nodes.len(),
        0 <= c < k <= node_children(nodes[r.0 as int]).len(),
        node_children(nodes[r.0 as int])[c].0 < r.0,
        mentions(nodes, node_children(nodes[r.0 as int])[c], id),
    decreases k,
{
    if node_children(nodes[r.0 as int])[k - 1].0 < r.0 && mentions(nodes, node_children(nodes[r.0 as int])[k - 1], id) {
        k - 1
    } else {
        lemma_mentions_among_child(nodes, r, id, k - 1)
    }
}

/// Every link to a registered declaration in the tree under a covered node
/// has its entry in `links`.
pub proof fn lemma_covers_mentions(nodes: Seq<Node>, reg: Entries, links: Entries, r: NodeRef, id: Seq<char>)
    requires
        covers(nodes, reg, links, r),
        mentions(nodes, r, id),
        registry_get(reg, id) is Some,
    ensures
        has_key(links, id),
    decreases r.0,
{
    if !links_to(nodes[r.0 as int], id) {
        let c = lemma_mentions_among_child(nodes, r, id, node_children(nodes[r.0 as int]).len() as int);
        let child = node_children(nodes[r.0 as int])[c];
        assert(covers(nodes, reg, links, child));
        lemma_covers_mentions(nodes, reg, links, child, id);
    }
}

/// Each entry of a links section is the alias or interface with its id.
pub proof fn lemma_links_named(nodes: Seq<Node>, reg: Entries, links: Entries)
    requires
        links_ok(reg, links),
        crate::packager::registry_named(nodes, reg),
    ensures
        forall|i: int| 0 <= i < links.len() ==> #[trigger] crate::packager::decl_named(nodes, links[i]),
{
    assert forall|i: int| 0 <= i < links.len() implies #[trigger] crate::packager::decl_named(nodes, links[i]) by {
        lemma_key_pos(reg, links[i].0);
        let p = key_pos(reg, links[i].0);
        assert(crate::packager::decl_named(nodes, reg[p]));
    }
}

/// Entry `i` of `links` was reached: a link to its id is in the tree under
/// `root`, or under an earlier entry.
pub open spec fn reached_from(nodes: Seq<Node>, root: NodeRef, links: Entries, i: int) -> bool {
    ||| mentions(nodes, root, links[i].0)
    ||| exists|j: int| 0 <= j < i && #[trigger] mentions(nodes, links[j].1, links[i].0)
}

/// Entry `i` of `links` was reached: a link to its id is in the tree under
/// one of `roots`, or under an earlier entry.
pub open spec fn reached(nodes: Seq<Node>, roots: Entries, links: Entries, i: int) -> bool {
    ||| exists|j: int| 0 <= j < roots.len() && #[trigger] mentions(nodes, roots[j].1, links[i].0)
    ||| exists|j: int| 0 <= j < i && #[trigger] mentions(nodes, links[j].1, links[i].0)
}

/// Each entry of `links` is the registered declaration of its id, and no id
/// occurs twice.
pub open spec fn links_ok(reg: Entries, links: Entries) -> bool {
    &&& keys_distinct(links)
    &&& forall|i: int| 0 <= i < links.len() ==> registry_get(reg, (#[trigger] links[i]).0) == Some(links[i].1)
}

/// The links section is closed: the tree under each of its entries has all
/// its links to registered declarations in it.
pub open spec fn links_closed(nodes: Seq<Node>, reg: Entries, links: Entries) -> bool {
    &&& links_ok(reg, links)
    &&& forall|i: int| 0 <= i < links.len() ==> covers(nodes, reg, links, (#[trigger] links[i]).1)
}

/// `b` holds the entries of `a` at the same positions, and possibly more.
pub open spec fn entries_grow(a: Entries, b: Entries) -> bool {
    a.len() <= b.len() && forall|i: int| 0 <= i < a.len() ==> #[trigger] b[i] == a[i]
}

pub proof fn lemma_covers_mono(nodes: Seq<Node>, reg: Entries, a: Entries, b: Entries, r: NodeRef)
    requires
        covers(nodes, reg, a, r),
        entries_grow(a, b),
    ensures
        covers(nodes, reg, b, r),
    decreases r.0,
{
    let n = nodes[r.0 as int];
    match n.kind {
        NodeKind::Link { id } => {
            if registry_get(reg, id@) is Some {
                let i = choose|i: int| 0 <= i < a.len() && #[trigger] a[i].0 == id@;
                assert(b[i] == a[i]);
            }
        },
        _ => {},
    }
    assert forall|k: int| 0 <= k < node_children(n).len() implies (node_children(n)[k].0 < r.0 ==> covers(
        nodes,
        reg,
        b,
        #[trigger] node_children(n)[k],
    )) by {
        if node_children(n)[k].0 < r.0 {
            lemma_covers_mono(nodes, reg, a, b, node_children(n)[k]);
        }
    }
}

/// A links section holds no more entries than the registry.
pub proof fn lemma_links_bound(reg: Entries, links: Entries)
    requires
        links_ok(reg, links),
    ensures
        links.len() <= reg.len(),
{
    broadcast use vstd::set::group_set_axioms;
    broadcast use vstd::seq_lib::seq_to_set_is_finite;
    let lk = links.map_values(|e: (Seq<char>, NodeRef)| e.0);
    let rk = reg.map_values(|e: (Seq<char>, NodeRef)| e.0);
    assert(lk.no_duplicates()) by {
        assert forall|i: int, j: int| 0 <= i < lk.len() && 0 <= j < lk.len() && i != j implies lk[i] != lk[j] by {
            if i < j {
                assert(links[i].0 != links[j].0);
            } else {
                assert(links[j].0 != links[i].0);
            }
        }
    }
    lk.unique_seq_to_set();
    rk.lemma_cardinality_of_set();
    assert(lk.to_set().subset_of(rk.to_set())) by {
        assert forall|x: Seq<char>| lk.to_set().contains(x) implies rk.to_set().contains(x) by {
            let i = choose|i: int| 0 <= i < lk.len() && lk[i] == x;
            assert(registry_get(reg, links[i].0) is Some);
            lemma_key_pos(reg, x);
            let p = crate::indexed::key_pos(reg, x);
            assert(rk[p] == x);
        }
    }
    vstd::set_lib::lemma_len_subset(lk.to_set(), rk.to_set());
}

impl Packager {
    /// Adds to `links` every registered declaration that a link in the tree
    /// under `node` refers to, and (in turn) those their trees refer to.
    pub fn walk_links(&self, node: NodeRef, links: &mut IndexMap<String, NodeRef>)
        requires
            self.wf(),
            self.arena.holds(node),
            links_ok(node_map_entries(self.nodes), node_map_entries(*old(links))),
        ensures
            links_ok(node_map_entries(self.nodes), node_map_entries(*final(links))),
            entries_grow(node_map_entries(*old(links)), node_map_entries(*final(links))),
            covers(self.arena.nodes@, node_map_entries(self.nodes), node_map_entries(*final(links)), node),
            forall|i: int| node_map_entries(*old(links)).len() <= i < node_map_entries(*final(links)).len() ==> covers(
                self.arena.nodes@,
                node_map_entries(self.nodes),
                node_map_entries(*final(links)),
                (#[trigger] node_map_entries(*final(links))[i]).1,
            ),
            forall|i: int| node_map_entries(*old(links)).len() <= i < node_map_entries(*final(links)).len() ==> #[trigger] reached_from(
                self.arena.nodes@,
                node,
                node_map_entries(*final(links)),
                i,
            ),
        decreases node_map_entries(self.nodes).len() - node_map_entries(*old(links)).len(), node.0,
    {
        let ghost reg = node_map_entries(self.nodes);
        let ghost nodes = self.arena.nodes@;
        let ghost l0 = node_map_entries(*links);
        proof {
            lemma_links_bound(reg, l0);
        }
        let n = self.arena.get(node);
        proof {
            assert(placeable(nodes[node.0 as int], node.0 as nat));
        }
        if let NodeKind::Link { id } = &n.kind {
            proof {
                lemma_key_pos(l0, id@);
            }
            if node_map_index_of(links, id.as_str()).is_none() {
                if let Some(target) = registry_lookup(&self.nodes, id.as_str()) {
                    proof {
                        lemma_key_pos(reg, id@);
                        lemma_insert_distinct(l0, id@, target);
                    }
                    node_map_insert(links, id.clone(), target);
                    let ghost l1 = node_map_entries(*links);
                    proof {
                        assert(l1 == l0.push((id@, target)));
                        assert(links_ok(reg, l1));
                        lemma_links_bound(reg, l1);
                    }
                    self.walk_links(target, links);
                    proof {
                        let l2 = node_map_entries(*links);
                        assert(l2[l0.len() as int] == l1[l0.len() as int]);
                        assert(mentions(nodes, node, id@));
                        assert forall|i: int| l0.len() <= i < l2.len() implies #[trigger] reached_from(nodes, node, l2, i) by {
                            if i > l0.len() {
                                if mentions(nodes, target, l2[i].0) {
                                    assert(l2[l0.len() as int].1 == target);
                                    assert(mentions(nodes, l2[l0.len() as int].1, l2[i].0));
                                } else {
                                    assert(reached_from(nodes, target, l2, i));
                                }
                            }
                        }
                        assert forall|i: int| l0.len() <= i < l2.len() implies covers(nodes, reg, l2, (#[trigger] l2[i]).1) by {
                            if i == l0.len() {
                                assert(l2[i].1 == target);
                            }
                        }
                    }
                }
            }
        }
        let ghost l3 = node_map_entries(*links);
        proof {
            lemma_links_bound(reg, l3);
            match &n.kind {
                NodeKind::Link { id } => {
                    if registry_get(reg, id@) is Some {
                        lemma_key_pos(l0, id@);
                        if !has_key(l0, id@) {
                            assert(l3[l0.len() as int].0 == id@);
                        } else {
                            let i = choose|i: int| 0 <= i < l0.len() && #[trigger] l0[i].0 == id@;
                            assert(l3[i] == l0[i]);
                        }
                    }
                },
                _ => {},
            }
        }
        let children = crate::packager::node::child_nodes(n);
        let mut k: usize = 0;
        while k < children.len()
            invariant
                self.wf(),
                reg == node_map_entries(self.nodes),
                nodes == self.arena.nodes@,
                *n == nodes[node.0 as int],
                children@ == node_children(*n),
                all_below(children@, node.0 as nat),
                node.0 < nodes.len(),
                k <= children@.len(),
                links_ok(reg, node_map_entries(*links)),
                l0 == node_map_entries(*old(links)),
                entries_grow(l0, node_map_entries(*links)),
                link_covered(*n, reg, node_map_entries(*links)),
                forall|j: int| 0 <= j < k ==> covers(nodes, reg, node_map_entries(*links), #[trigger] children@[j]),
                forall|i: int| l0.len() <= i < node_map_entries(*links).len() ==> covers(
                    nodes,
                    reg,
                    node_map_entries(*links),
                    (#[trigger] node_map_entries(*links)[i]).1,
                ),
                forall|i: int| l0.len() <= i < node_map_entries(*links).len() ==> #[trigger] reached_from(
                    nodes,
                    node,
                    node_map_entries(*links),
                    i,
                ),
                node_map_entries(self.nodes).len() >= node_map_entries(*links).len(),
            decreases children.len() - k,
        {
            let ghost la = node_map_entries(*links);
            proof {
                lemma_links_bound(reg, la);
                assert(children@[k as int].0 < node.0);
                assert(la.len() >= l0.len());
                assert(reg.len() - la.len() <= reg.len() - l0.len());
            }
            let child = children[k];
            assert(child.0 < node.0);
            self.walk_links(child, links);
            proof {
                let lb = node_map_entries(*links);
                lemma_links_bound(reg, lb);
                assert forall|j: int| 0 <= j < k + 1 implies covers(nodes, reg, lb, #[trigger] children@[j]) by {
                    if j < k {
                        lemma_covers_mono(nodes, reg, la, lb, children@[j]);
                    }
                }
                assert forall|i: int| l0.len() <= i < lb.len() implies covers(nodes, reg, lb, (#[trigger] lb[i]).1) by {
                    if i < la.len() {
                        assert(lb[i] == la[i]);
                        lemma_covers_mono(nodes, reg, la, lb, la[i].1);
                    }
                }
                match &n.kind {
                    NodeKind::Link { id } => {
                        if registry_get(reg, id@) is Some {
                            let i = choose|i: int| 0 <= i < la.len() && #[trigger] la[i].0 == id@;
                            assert(lb[i] == la[i]);
                        }
                    },
                    _ => {},
                }
                assert forall|i: int| 0 <= i < l0.len() implies #[trigger] lb[i] == l0[i] by {
                    assert(la[i] == l0[i]);
                }
                assert forall|i: int| l0.len() <= i < lb.len() implies #[trigger] reached_from(nodes, node, lb, i) by {
                    if i < la.len() {
                        assert(lb[i] == la[i]);
                        assert(reached_from(nodes, node, la, i));
                        if !mentions(nodes, node, la[i].0) {
                            let j = choose|j: int| 0 <= j < i && #[trigger] mentions(nodes, la[j].1, la[i].0);
                            assert(lb[j] == la[j]);
                            assert(mentions(nodes, lb[j].1, lb[i].0));
                        }
                    } else {
                        assert(reached_from(nodes, child, lb, i));
                        if mentions(nodes, child, lb[i].0) {
                            assert(node_children(nodes[node.0 as int])[k as int] == child);
                            assert(mentions(nodes, node_children(nodes[node.0 as int])[k as int], lb[i].0));
                            assert(node_children(nodes[node.0 as int])[k as int].0 < node.0);
                            assert(0 <= k < node_children(nodes[node.0 as int]).len());
                            assert(node.0 < nodes.len());
                            lemma_mentions_child(nodes, node, k as int, lb[i].0);
                        }
                    }
                }
            }
            k = k + 1;
        }
    }

    /// Collects the `links` section by following every link in `exports`.
    pub fn collect_links(&self, exports: &IndexMap<String, NodeRef>) -> (r: IndexMap<String, NodeRef>)
        requires
            self.wf(),
            values_below(node_map_entries(*exports), self.arena.nodes@.len()),
        ensures
            links_closed(self.arena.nodes@, node_map_entries(self.nodes), node_map_entries(r)),
            forall|i: int| 0 <= i < node_map_entries(*exports).len() ==> covers(
                self.arena.nodes@,
                node_map_entries(self.nodes),
                node_map_entries(r),
                (#[trigger] node_map_entries(*exports)[i]).1,
            ),
            forall|i: int| 0 <= i < node_map_entries(r).len() ==> #[trigger] reached(
                self.arena.nodes@,
                node_map_entries(*exports),
                node_map_entries(r),
                i,
            ),
            forall|i: int| 0 <= i < node_map_entries(r).len() ==> #[trigger] crate::packager::decl_named(
                self.arena.nodes@,
                node_map_entries(r)[i],
            ),
    {
        let ghost reg = node_map_entries(self.nodes);
        let ghost nodes = self.arena.nodes@;
        let ghost ex = node_map_entries(*exports);
        let mut links = node_map_new();
        let n = node_map_len(exports);
        let mut k: usize = 0;
        while k < n
            invariant
                self.wf(),
                reg == node_map_entries(self.nodes),
                nodes == self.arena.nodes@,
                ex == node_map_entries(*exports),
                n == ex.len(),
                values_below(ex, nodes.len()),
                k <= n,
                links_closed(nodes, reg, node_map_entries(links)),
                forall|j: int| 0 <= j < k ==> covers(nodes, reg, node_map_entries(links), (#[trigger] ex[j]).1),
                forall|i: int| 0 <= i < node_map_entries(links).len() ==> #[trigger] reached(nodes, ex, node_map_entries(links), i),
            decreases n - k,
        {
            let (_, v) = node_map_get_index(exports, k);
            let ghost la = node_map_entries(links);
            self.walk_links(*v, &mut links);
            proof {
                let lb = node_map_entries(links);
                assert forall|j: int| 0 <= j < k + 1 implies covers(nodes, reg, lb, (#[trigger] ex[j]).1) by {
                    if j < k {
                        lemma_covers_mono(nodes, reg, la, lb, ex[j].1);
                    }
                }
                assert forall|i: int| 0 <= i < lb.len() implies covers(nodes, reg, lb, (#[trigger] lb[i]).1) by {
                    if i < la.len() {
                        assert(lb[i] == la[i]);
                        lemma_covers_mono(nodes, reg, la, lb, la[i].1);
                    }
                }
                assert forall|i: int| 0 <= i < lb.len() implies #[trigger] reached(nodes, ex, lb, i) by {
                    if i < la.len() {
                        assert(lb[i] == la[i]);
                        assert(reached(nodes, ex, la, i));
                        if exists|j: int| 0 <= j < ex.len() && #[trigger] mentions(nodes, ex[j].1, la[i].0) {
                        } else {
                            let j = choose|j: int| 0 <= j < i && #[trigger] mentions(nodes, la[j].1, la[i].0);
                            assert(lb[j] == la[j]);
                            assert(mentions(nodes, lb[j].1, lb[i].0));
                        }
                    } else {
                        assert(reached_from(nodes, *v, lb, i));
                        if mentions(nodes, *v, lb[i].0) {
                            assert(ex[k as int].1 == *v);
                            assert(mentions(nodes, ex[k as int].1, lb[i].0));
                        }
                    }
                }
            }
            k = k + 1;
        }
        proof {
            lemma_links_named(nodes, reg, node_map_entries(links));
        }
        links
    }
}

/// Packages a bundle graph, starting from its entry module: the entry's
/// processed exports, and the links section that the links under them need.
pub fn package<G: BundleGraph>(graph: &G) -> (r: crate::packager::PackageOutput)
    requires
        graph_valid(graph),
    ensures
        r.arena.wf(),
        values_below(node_map_entries(r.exports), r.arena.nodes@.len()),
        exports_first(id_map_entries(graph.api_at(graph.entry_asset()).exports), node_map_entries(r.exports)),
        links_closed(r.arena.nodes@, r.registry@, node_map_entries(r.links)),
        forall|i: int| 0 <= i < node_map_entries(r.exports).len() ==> covers(
            r.arena.nodes@,
            r.registry@,
            node_map_entries(r.links),
            (#[trigger] node_map_entries(r.exports)[i]).1,
        ),
        forall|i: int| 0 <= i < node_map_entries(r.links).len() ==> #[trigger] reached(
            r.arena.nodes@,
            node_map_entries(r.exports),
            node_map_entries(r.links),
            i,
        ),
        forall|i: int| 0 <= i < node_map_entries(r.links).len() ==> #[trigger] crate::packager::decl_named(
            r.arena.nodes@,
            node_map_entries(r.links)[i],
        ),
        exports_packed(
            graph,
            graph.entry_asset(),
            id_map_entries(graph.api_at(graph.entry_asset()).exports),
            node_map_entries(r.exports),
            Seq::empty(),
            r.arena.nodes@,
            u64::MAX as nat,
        ),
        forall|i: int, id: Seq<char>|
            0 <= i < node_map_entries(r.exports).len() && #[trigger] mentions(r.arena.nodes@, node_map_entries(r.exports)[i].1, id)
                && registry_get(r.registry@, id) is Some ==> has_key(node_map_entries(r.links), id),
        forall|i: int, id: Seq<char>|
            0 <= i < node_map_entries(r.links).len() && #[trigger] mentions(r.arena.nodes@, node_map_entries(r.links)[i].1, id)
                && registry_get(r.registry@, id) is Some ==> has_key(node_map_entries(r.links), id),
        node_map_entries(r.exports) == star_merge(
            graph,
            graph.entry_asset(),
            graph.api_at(graph.entry_asset()).export_all@,
            node_map_entries(r.exports).take(id_map_entries(graph.api_at(graph.entry_asset()).exports).len() as int),
            r.processed@,
        ),
{
    let mut packager = Packager::new();
    let entry = graph.entry();
    proof {
        assert(packager.visiting@ =~= Seq::<(AssetId, u32)>::empty());
    }
    packager.ensure_processed(graph, entry, u64::MAX);
    let exports = match packager.cache_index(entry) {
        Some(i) => node_map_clone(&packager.cache[i].1),
        None => node_map_new(),
    };
    proof {
        lemma_cache_get_bound(packager.cache@, entry, packager.arena.nodes@.len() as nat);
    }
    let links = packager.collect_links(&exports);
    let ghost registry = node_map_entries(packager.nodes);
    let ghost processed = packager.cache@;
    proof {
        let nodes = packager.arena.nodes@;
        let ex = node_map_entries(exports);
        let ls = node_map_entries(links);
        assert forall|i: int, id: Seq<char>|
            0 <= i < ex.len() && #[trigger] mentions(nodes, ex[i].1, id) && registry_get(registry, id) is Some implies has_key(ls, id) by {
            lemma_covers_mentions(nodes, registry, ls, ex[i].1, id);
        }
        assert forall|i: int, id: Seq<char>|
            0 <= i < ls.len() && #[trigger] mentions(nodes, ls[i].1, id) && registry_get(registry, id) is Some implies has_key(ls, id) by {
            lemma_covers_mentions(nodes, registry, ls, ls[i].1, id);
        }
    }
    crate::packager::PackageOutput { arena: packager.arena, exports, links, registry: Ghost(registry), processed: Ghost(processed) }
}

proof fn lemma_cache_take(c: Seq<(AssetId, IndexMap<String, NodeRef>)>, m: int, asset: AssetId)
    requires
        0 < m <= c.len(),
        cache_get(c.take(m - 1), asset) is None,
        c[m - 1].0 == asset,
    ensures
        cache_get(c, asset) == Some(c[m - 1].1),
    decreases c.len() - m,
{
    assert(c.take(m).drop_last() =~= c.take(m - 1));
    if m < c.len() {
        lemma_cache_take_more(c, m, asset);
    } else {
        assert(c.take(m) =~= c);
    }
}

proof fn lemma_cache_take_more(c: Seq<(AssetId, IndexMap<String, NodeRef>)>, m: int, asset: AssetId)
    requires
        0 < m <= c.len(),
        cache_get(c.take(m), asset) is Some,
    ensures
        cache_get(c, asset) == cache_get(c.take(m), asset),
    decreases c.len() - m,
{
    if m < c.len() {
        assert(c.take(m + 1).drop_last() =~= c.take(m));
        lemma_cache_take_more(c, m + 1, asset);
    } else {
        assert(c.take(m) =~= c);
    }
}

/// Two caches that agree on every entry that either holds for `y` give the
/// same processed exports for `y`.
proof fn lemma_cache_get_same(c: Seq<(AssetId, IndexMap<String, NodeRef>)>, d: Seq<(AssetId, IndexMap<String, NodeRef>)>, y: AssetId)
    requires
        c.len() == d.len(),
        forall|k: int| #![trigger c[k], d[k]] 0 <= k < c.len() && (c[k].0 == y || d[k].0 == y) ==> c[k] == d[k],
    ensures
        cache_get(c, y) == cache_get(d, y),
    decreases c.len(),
{
    if c.len() > 0 {
        let c1 = c.drop_last();
        let d1 = d.drop_last();
        assert forall|k: int| #![trigger c1[k], d1[k]] 0 <= k < c1.len() && (c1[k].0 == y || d1[k].0 == y) implies c1[k] == d1[k] by {
            assert(c1[k] == c[k] && d1[k] == d[k]);
        }
        lemma_cache_get_same(c1, d1, y);
        assert(c.last() == c[c.len() - 1] && d.last() == d[d.len() - 1]);
    }
}

proof fn lemma_cache_update(c: Seq<(AssetId, IndexMap<String, NodeRef>)>, i: int, asset: AssetId, m: IndexMap<String, NodeRef>)
    requires
        0 <= i < c.len(),
        c[i].0 == asset,
        cache_get(c, asset) == Some(c[i].1),
        cache_get(c.take(i), asset) is None,
    ensures
        cache_get(c.update(i, (asset, m)), asset) == Some(m),
{
    let u = c.update(i, (asset, m));
    assert(u.take(i) =~= c.take(i));
    lemma_cache_take(u, i + 1, asset);
}

} // verus!
