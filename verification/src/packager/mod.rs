//! The packaging phase: links and merges the per-module `API`s produced by the
//! transformer into the final `{ exports, links }` documentation artifact.
use vstd::prelude::*;
use indexmap::IndexMap;
use crate::indexed::{keys_distinct, node_map_entries, node_map_new, node_map_clone, lemma_key_pos};
use crate::packager::node::{
    Node, NodeKind, NodeRef, NodeArena, copy_refs, copy_strs, all_below, lemma_all_below_concat, children_below,
    node_children, map_refs, placeable, extends_arena, maps_distinct,
};
use crate::packager::merge::{
    Entries, registry_get, registry_lookup, register, values_below, lemma_map_refs_below, merge_interface, merged_at,
    omit, pick, filter_keys_ok, unwrap_decl, is_interface_at,
};
use crate::ty::{Type, TypeId, TypeOperatorOp, Parameter, Property, copy_opt, str_eq, refs_below, id_below, arena_wf};
use crate::packager::bundle::{AssetId, BundleGraph, graph_valid};
use crate::packager::walk::cache_get;

pub mod node;
pub mod merge;
pub mod bundle;
pub mod walk;

verus! {

/// The "key" a node was reached through: it controls interface merging and
/// type-parameter substitution. Only the variants below are distinguished;
/// every other key is [`Key::Other`].
#[derive(Clone, Copy, Debug, PartialEq, Eq, Structural)]
pub enum Key {
    Root,
    Props,
    Extends,
    Base,
    /// A type-parameter *declaration* (in a `typeParameters` list), as
    /// opposed to a usage. Usages are substituted; declarations are preserved.
    TypeParamDecl,
    Other,
}

/// The entries of a type-parameter substitution map.
pub open spec fn params_view(p: Vec<(String, NodeRef)>) -> Entries {
    p@.map_values(|e: (String, NodeRef)| (e.0@, e.1))
}

/// Whether an alias/interface reached through `key`,
/// below a node reached through `last`, is inlined.
pub open spec fn should_merge_s(ty: Type, key: Key, last: Option<Key>) -> bool {
    let under_props = last == Some(Key::Props) || last == Some(Key::Extends);
    match ty {
        Type::Interface { .. } => key == Key::Root || key == Key::Props || key == Key::Extends || (key == Key::Base
            && under_props),
        Type::Alias { .. } => key == Key::Base && under_props,
        _ => false,
    }
}

/// The text of a type operator.
pub open spec fn operator_text(op: TypeOperatorOp) -> Seq<char> {
    match op {
        TypeOperatorOp::KeyOf => "keyof"@,
        TypeOperatorOp::Unique => "unique"@,
        TypeOperatorOp::ReadOnly => "readonly"@,
    }
}

/// The description carried directly on an arena type, if any.
pub open spec fn type_description_s(ty: Type) -> Option<String> {
    match ty {
        Type::Function { description, .. } => description,
        Type::Alias { description, .. } => description,
        Type::Interface { description, .. } => description,
        Type::Object { description, .. } => description,
        Type::Component { description, .. } => description,
        _ => None,
    }
}

/// Whether a return node of this kind keeps the `@returns` description
/// (leaf/primitive and container types), as opposed to nodes the packager
/// rebuilds fresh (applications, unions, references, ...).
pub open spec fn carries_description(kind: NodeKind) -> bool {
    match kind {
        NodeKind::Any | NodeKind::Null | NodeKind::Undefined | NodeKind::Void | NodeKind::Unknown
        | NodeKind::Never | NodeKind::This | NodeKind::Symbol => true,
        NodeKind::String { .. } | NodeKind::Number { .. } | NodeKind::Boolean { .. } | NodeKind::Object { .. } => true,
        NodeKind::Alias { .. } | NodeKind::Interface { .. } | NodeKind::Function { .. } | NodeKind::Component { .. } => true,
        _ => false,
    }
}

/// Returns the text of a type operator.
pub fn operator_name(op: TypeOperatorOp) -> (r: String)
    ensures
        r@ == operator_text(op),
{
    match op {
        TypeOperatorOp::KeyOf => String::from_str("keyof"),
        TypeOperatorOp::Unique => String::from_str("unique"),
        TypeOperatorOp::ReadOnly => String::from_str("readonly"),
    }
}

/// Whether a return node of this kind preserves the `@returns` description.
pub fn return_carries_description(kind: &NodeKind) -> (r: bool)
    ensures
        r == carries_description(*kind),
{
    match kind {
        NodeKind::Any | NodeKind::Null | NodeKind::Undefined | NodeKind::Void | NodeKind::Unknown
        | NodeKind::Never | NodeKind::This | NodeKind::Symbol => true,
        NodeKind::String { .. } | NodeKind::Number { .. } | NodeKind::Boolean { .. } | NodeKind::Object { .. } => true,
        NodeKind::Alias { .. } | NodeKind::Interface { .. } | NodeKind::Function { .. } | NodeKind::Component { .. } => true,
        _ => false,
    }
}

/// The description carried directly on an arena type, if any.
pub fn type_description(ty: &Type) -> (r: Option<String>)
    ensures
        r == type_description_s(*ty),
{
    match ty {
        Type::Function { description, .. } => copy_opt(description),
        Type::Alias { description, .. } => copy_opt(description),
        Type::Interface { description, .. } => copy_opt(description),
        Type::Object { description, .. } => copy_opt(description),
        Type::Component { description, .. } => copy_opt(description),
        _ => None,
    }
}

/// A link node for a circular reference, if the type has an id.
pub fn cycle_link(ty: &Type) -> (r: Option<Node>)
    ensures
        match *ty {
            Type::Interface { id, .. } => r == Some(Node { kind: NodeKind::Link { id }, description: None }),
            Type::Alias { id, .. } => r == Some(Node { kind: NodeKind::Link { id }, description: None }),
            _ => r is None,
        },
{
    match ty {
        Type::Interface { id, .. } => Some(Node::new(NodeKind::Link { id: id.clone() })),
        Type::Alias { id, .. } => Some(Node::new(NodeKind::Link { id: id.clone() })),
        _ => None,
    }
}

/// The value stored under `name` in a substitution map.
pub fn param_lookup(p: &Vec<(String, NodeRef)>, name: &str) -> (r: Option<NodeRef>)
    ensures
        r == registry_get(params_view(*p), name@),
{
    let ghost e = params_view(*p);
    proof {
        lemma_key_pos(e, name@);
    }
    let mut k: usize = 0;
    while k < p.len()
        invariant
            k <= p.len(),
            e == params_view(*p),
            e.len() == p@.len(),
            forall|j: int| 0 <= j < k ==> (#[trigger] e[j]).0 != name@,
            -1 <= crate::indexed::key_pos(e, name@) < e.len(),
            crate::indexed::key_pos(e, name@) >= 0 ==> e[crate::indexed::key_pos(e, name@)].0 == name@,
            crate::indexed::key_pos(e, name@) >= 0 ==> forall|j: int| 0 <= j < crate::indexed::key_pos(e, name@) ==> e[j].0 != name@,
            crate::indexed::key_pos(e, name@) < 0 <==> !crate::indexed::has_key(e, name@),
        decreases p.len() - k,
    {
        if str_eq(p[k].0.as_str(), name) {
            proof {
                assert(e[k as int].0 == name@);
                assert(crate::indexed::has_key(e, name@));
            }
            return Some(p[k].1);
        }
        k = k + 1;
    }
    proof {
        if crate::indexed::has_key(e, name@) {
            let i = choose|i: int| 0 <= i < e.len() && #[trigger] e[i].0 == name@;
            assert(e[i].0 != name@);
        }
    }
    None
}

/// Sets `name` to `value` in a substitution map (`HashMap::insert`).
pub fn param_insert(p: &mut Vec<(String, NodeRef)>, name: String, value: NodeRef)
    ensures
        params_view(*final(p)) == crate::indexed::entries_insert(params_view(*old(p)), name@, value),
{
    let ghost e = params_view(*p);
    proof {
        lemma_key_pos(e, name@);
    }
    let mut k: usize = 0;
    while k < p.len()
        invariant
            k <= p.len(),
            e == params_view(*p),
            e == params_view(*old(p)),
            e.len() == p@.len(),
            forall|j: int| 0 <= j < k ==> (#[trigger] e[j]).0 != name@,
            -1 <= crate::indexed::key_pos(e, name@) < e.len(),
            crate::indexed::key_pos(e, name@) >= 0 ==> e[crate::indexed::key_pos(e, name@)].0 == name@,
            crate::indexed::key_pos(e, name@) >= 0 ==> forall|j: int| 0 <= j < crate::indexed::key_pos(e, name@) ==> e[j].0 != name@,
            crate::indexed::key_pos(e, name@) < 0 <==> !crate::indexed::has_key(e, name@),
        decreases p.len() - k,
    {
        if str_eq(p[k].0.as_str(), name.as_str()) {
            proof {
                assert(e[k as int].0 == name@);
                assert(crate::indexed::has_key(e, name@));
                assert(crate::indexed::key_pos(e, name@) == k);
            }
            let ghost nm = name@;
            p.set(k, (name, value));
            proof {
                assert(params_view(*p) =~= e.update(k as int, (nm, value)));
                assert(params_view(*p) == crate::indexed::entries_insert(e, nm, value));
            }
            return;
        }
        k = k + 1;
    }
    proof {
        if crate::indexed::has_key(e, name@) {
            let i = choose|i: int| 0 <= i < e.len() && #[trigger] e[i].0 == name@;
            assert(e[i].0 != name@);
        }
    }
    p.push((name, value));
    proof {
        assert(params_view(*p) =~= e.push((name@, value)));
    }
}

/// A copy of a substitution map.
pub fn params_copy(p: &Vec<(String, NodeRef)>) -> (r: Vec<(String, NodeRef)>)
    ensures
        params_view(r) == params_view(*p),
{
    let mut out: Vec<(String, NodeRef)> = Vec::new();
    let mut k: usize = 0;
    while k < p.len()
        invariant
            k <= p.len(),
            out@.len() == k,
            params_view(out) == params_view(*p).take(k as int),
        decreases p.len() - k,
    {
        let ghost before = out@;
        out.push((p[k].0.clone(), p[k].1));
        proof {
            assert(out@ == before.push(out@[k as int]));
            assert(params_view(out)[k as int] == params_view(*p)[k as int]);
            assert forall|i: int| 0 <= i < k implies params_view(out)[i] == params_view(*p).take(k as int)[i] by {
                assert(out@[i] == before[i]);
            }
            assert(params_view(out) =~= params_view(*p).take(k + 1));
        }
        k = k + 1;
    }
    proof {
        assert(params_view(*p).take(p.len() as int) =~= params_view(*p));
    }
    out
}


/// The key of the node currently being visited, if any.
pub open spec fn last_key(s: Seq<Key>) -> Option<Key> {
    if s.len() > 0 {
        Some(s.last())
    } else {
        None
    }
}

/// The registry `b` is `a` with `node` registered under `id`, unless `a`
/// already had something there.
pub open spec fn registered(a: Entries, b: Entries, id: Seq<char>, node: NodeRef) -> bool {
    if registry_get(a, id) is Some {
        b == a
    } else {
        b == a.push((id, node))
    }
}

/// What `finish` does with the node built for `ty` (reached through `key`),
/// from state `o` to state `n`, returning `r`:
/// - an application used as `props` is unwrapped to its base (and the
///   pending type arguments are dropped in any case);
/// - an identifier `Omit`/`Pick` applied to two arguments filters the first
///   by the second; an identifier bound in the substitution in force becomes
///   its value;
/// - a type-parameter usage becomes its value, or a plain identifier;
/// - an alias used as `props` becomes its value; otherwise it is registered
///   under its id and a link to it takes its place;
/// - an interface is flattened and the flattened form registered under its
///   id; it stays inline where it merges and is a link elsewhere;
/// - anything else is placed in the arena as it is.
pub open spec fn finish_ok(o: Packager, node: Node, ty: Type, key: Key, n: Packager, r: NodeRef) -> bool {
    let before = o.arena.nodes@;
    let after = n.arena.nodes@;
    let reg = node_map_entries(o.nodes);
    let reg2 = node_map_entries(n.nodes);
    let same = after == before && reg2 == reg;
    let pushed = after == before.push(node) && r.0 == before.len() && reg2 == reg;
    let top = o.top_params();
    &&& restores(o, n)
    &&& n.cache == o.cache
    &&& match node.kind {
        NodeKind::Application { base, .. } => n.application is None && if key == Key::Props {
            r == base && same
        } else {
            pushed
        },
        NodeKind::Identifier { name } => {
            let app = o.application;
            &&& n.application == app
            &&& if app is Some && app->0@.len() >= 2 && name@ == "Omit"@ {
                reg2 == reg && filter_keys_ok(before, after, reg, app->0@[0], app->0@[1], false, r)
            } else if app is Some && app->0@.len() >= 2 && name@ == "Pick"@ {
                reg2 == reg && filter_keys_ok(before, after, reg, app->0@[0], app->0@[1], true, r)
            } else if registry_get(top, name@) is Some {
                r == registry_get(top, name@)->0 && same
            } else {
                pushed
            }
        },
        NodeKind::TypeParameter { name, .. } => n.application == o.application && if key != Key::TypeParamDecl {
            if registry_get(top, name@) is Some {
                r == registry_get(top, name@)->0 && same
            } else {
                after == before.push(Node { kind: NodeKind::Identifier { name }, description: None }) && r.0
                    == before.len() && reg2 == reg
            }
        } else {
            pushed
        },
        NodeKind::Alias { id, value, .. } => n.application == o.application && if key == Key::Props {
            r == value && same
        } else {
            &&& after == before.push(node).push(Node { kind: NodeKind::Link { id }, description: None })
            &&& r.0 == before.len() + 1
            &&& registered(reg, reg2, id@, NodeRef(before.len() as usize))
        },
        NodeKind::Interface { id, .. } => {
            let raw = NodeRef(before.len() as usize);
            let merging = should_merge_s(ty, key, last_key(o.key_stack@));
            let m = if merging { r } else { NodeRef((r.0 - 1) as usize) };
            &&& n.application == o.application
            &&& extends_arena(before.push(node), after)
            &&& merged_at(before.push(node), raw, after, m)
            &&& registered(reg, reg2, id@, m)
            &&& (merging ==> r.0 == after.len() - 1)
            &&& (!merging ==> r.0 == after.len() - 1 && r.0 >= 1 && after[r.0 as int] == Node {
                kind: NodeKind::Link { id },
                description: None,
            })
        },
        _ => n.application == o.application && pushed,
    }
}

/// The node `visit_children` builds for `ty` has the kind that corresponds to
/// it, with the same plain fields and one child for each type it refers to,
/// and carries the description of `ty`.
pub open spec fn visited_ok(ty: Type, n: Node) -> bool {
    &&& n.description == type_description_s(ty)
    &&& match ty {
        Type::Any => n.kind == NodeKind::Any,
        Type::Null => n.kind == NodeKind::Null,
        Type::Undefined => n.kind == NodeKind::Undefined,
        Type::Void => n.kind == NodeKind::Void,
        Type::Unknown => n.kind == NodeKind::Unknown,
        Type::Never => n.kind == NodeKind::Never,
        Type::This => n.kind == NodeKind::This,
        Type::Symbol => n.kind == NodeKind::Symbol,
        Type::ObjectKeyword => n.kind == (NodeKind::Object { properties: None, access: None }),
        Type::Identifier { name } => n.kind == (NodeKind::Identifier { name }),
        Type::String { value } => n.kind == (NodeKind::String { value }),
        Type::Number { value } => n.kind == (NodeKind::Number { value }),
        Type::Boolean { value } => n.kind == (NodeKind::Boolean { value }),
        Type::Union { elements } => n.kind matches NodeKind::Union { elements: e } && e@.len() == elements@.len(),
        Type::Intersection { types } => n.kind matches NodeKind::Intersection { types: t } && t@.len() == types@.len(),
        Type::Application { type_parameters, .. } => n.kind matches NodeKind::Application { type_parameters: t, .. }
            && t@.len() == type_parameters@.len(),
        Type::TypeOperator { operator, .. } => n.kind matches NodeKind::TypeOperator { operator: o, .. } && o@
            == operator_text(operator),
        Type::Function { id, name, parameters, type_parameters, access, examples, .. } => match n.kind {
            NodeKind::Function { id: i2, name: n2, parameters: p2, type_parameters: t2, examples: e2, access: a2, .. } =>
                i2 == id && n2 == name && p2@.len() == parameters@.len() && t2@.len() == type_parameters@.len()
                    && e2@ == examples@ && a2 == access,
            _ => false,
        },
        Type::Alias { id, name, type_parameters, access, .. } => match n.kind {
            NodeKind::Alias { id: i2, name: n2, type_parameters: t2, access: a2, .. } => i2 == id && n2 == name
                && t2@.len() == type_parameters@.len() && a2 == access,
            _ => false,
        },
        Type::Interface { id, name, extends, type_parameters, access, .. } => match n.kind {
            NodeKind::Interface { id: i2, name: n2, extends: x2, type_parameters: t2, access: a2, .. } => i2 == id
                && n2 == name && x2@.len() == extends@.len() && t2@.len() == type_parameters@.len() && a2 == access,
            _ => false,
        },
        Type::Object { access, .. } => n.kind matches NodeKind::Object { properties: Some(_), access: a2 } && a2 == access,
        Type::Array { .. } => n.kind is Array,
        Type::Tuple { elements } => n.kind matches NodeKind::Tuple { elements: e } && e@.len() == elements@.len(),
        Type::Template { elements } => n.kind matches NodeKind::Template { elements: e } && e@.len() == elements@.len(),
        Type::Component { id, name, props, type_parameters, ref_type, access, examples, .. } => match n.kind {
            NodeKind::Component { id: i2, name: n2, props: p2, type_parameters: t2, ref_type: r2, examples: e2, access: a2 } =>
                i2 == id && n2 == name && (p2 is Some) == (props is Some) && t2@.len() == type_parameters@.len()
                    && (r2 is Some) == (ref_type is Some) && e2@ == examples@ && a2 == access,
            _ => false,
        },
        Type::Conditional { .. } => n.kind is Conditional,
        Type::IndexedAccess { .. } => n.kind is IndexedAccess,
        Type::Mapped { readonly, .. } => n.kind matches NodeKind::Mapped { readonly: r2, .. } && r2 == readonly,
        Type::TypeParameter { name, constraint, default } => match n.kind {
            NodeKind::TypeParameter { name: n2, constraint: c2, default: d2 } => n2 == name && (c2 is Some) == (
            constraint is Some) && (d2 is Some) == (default is Some),
            _ => false,
        },
        Type::Link { id, .. } => n.kind == (NodeKind::Link { id }),
        Type::Reference { specifier, imported, local } => n.kind == (NodeKind::Reference { specifier, imported, local }),
        Type::Ref(_) => n.kind == NodeKind::Any,
    }
}

/// `ty` is a type of module `asset` of `g` (or a type taken from one).
pub open spec fn type_of_graph<G: BundleGraph>(g: &G, asset: AssetId, ty: Type) -> bool {
    &&& asset < g.asset_count()
    &&& crate::ty::refs_below(ty, g.api_at(asset).types@.len())
}

/// `t` is the id of a type of module `asset` of `g`.
pub open spec fn id_of_graph<G: BundleGraph>(g: &G, asset: AssetId, t: crate::ty::TypeId) -> bool {
    asset < g.asset_count() && (t.0 as nat) < g.api_at(asset).types@.len()
}

pub proof fn lemma_grows_trans(a: Packager, b: Packager, c: Packager)
    requires
        grows(a, b),
        grows(b, c),
    ensures
        grows(a, c),
{
    assert forall|id: Seq<char>| #[trigger] registry_get(node_map_entries(a.nodes), id) is Some implies registry_get(
        node_map_entries(c.nodes),
        id,
    ) == registry_get(node_map_entries(a.nodes), id) by {
        assert(registry_get(node_map_entries(b.nodes), id) is Some);
    }
    assert forall|i: int| 0 <= i < a.arena.nodes@.len() implies #[trigger] c.arena.nodes@[i] == a.arena.nodes@[i] by {
        assert(b.arena.nodes@[i] == a.arena.nodes@[i]);
    }
    assert forall|y: AssetId| #[trigger] cache_get(a.cache@, y) is Some implies cache_get(c.cache@, y) == cache_get(a.cache@, y) by {
        assert(cache_get(b.cache@, y) is Some);
    }
}

pub proof fn lemma_all_below_grow(s: Seq<NodeRef>, a: nat, b: nat)
    requires
        all_below(s, a),
        a <= b,
    ensures
        all_below(s, b),
{
}

pub proof fn lemma_values_below_grow(e: Entries, a: nat, b: nat)
    requires
        values_below(e, a),
        a <= b,
    ensures
        values_below(e, b),
{
    assert forall|j: int| 0 <= j < e.len() implies (#[trigger] e[j]).1.0 < b by {}
}

/// The final documentation artifact: the exported nodes and the nodes that
/// links refer to, by name, in one arena.
pub struct PackageOutput {
    pub arena: NodeArena,
    pub exports: IndexMap<String, NodeRef>,
    pub links: IndexMap<String, NodeRef>,
    /// The declarations registered while packaging, by id.
    pub registry: Ghost<Entries>,
    /// The processed exports of every module reached, as packaging left them.
    pub processed: Ghost<Seq<(AssetId, IndexMap<String, NodeRef>)>>,
}

/// The state of one packaging run.
pub struct Packager {
    /// The nodes built so far.
    pub arena: NodeArena,
    /// Processed exports per asset (memoized; also guards export-all cycles).
    pub cache: Vec<(AssetId, IndexMap<String, NodeRef>)>,
    /// Registry of every interface/alias encountered, keyed by id.
    pub nodes: IndexMap<String, NodeRef>,
    /// Type-parameter substitution maps (stack).
    pub param_stack: Vec<Vec<(String, NodeRef)>>,
    /// Keys of the current recursion path (for `should_merge`).
    pub key_stack: Vec<Key>,
    /// Resolved type arguments of the current generic application.
    pub application: Option<Vec<NodeRef>>,
    /// Arena types currently being materialized, to break cycles.
    pub visiting: Vec<(AssetId, u32)>,
}

/// The node at `res` is an interface merged from the one at a position
/// `raw` not after it: its own properties, then those of its bases (see
/// [`merged_at`]).
pub open spec fn merged_decl(nodes: Seq<Node>, res: NodeRef) -> bool {
    exists|raw: NodeRef| raw.0 <= res.0 && #[trigger] merged_at(nodes.take(raw.0 + 1), raw, nodes, res)
}

/// Entry `e` of a registry names the declaration it holds: the node is an
/// alias with that id, or an interface with that id merged with its bases.
pub open spec fn decl_named(nodes: Seq<Node>, e: (Seq<char>, NodeRef)) -> bool {
    &&& e.1.0 < nodes.len()
    &&& match nodes[e.1.0 as int].kind {
        NodeKind::Alias { id, .. } => id@ == e.0,
        NodeKind::Interface { id, .. } => id@ == e.0 && merged_decl(nodes, e.1),
        _ => false,
    }
}

/// Every registry entry names the declaration it holds.
pub open spec fn registry_named(nodes: Seq<Node>, reg: Entries) -> bool {
    forall|i: int| 0 <= i < reg.len() ==> #[trigger] decl_named(nodes, reg[i])
}

/// A merged interface stays merged as the arena grows.
pub proof fn lemma_merged_decl_grow(a: Seq<Node>, b: Seq<Node>, res: NodeRef)
    requires
        merged_decl(a, res),
        res.0 < a.len(),
        extends_arena(a, b),
    ensures
        merged_decl(b, res),
{
    let raw = choose|raw: NodeRef| raw.0 <= res.0 && #[trigger] merged_at(a.take(raw.0 + 1), raw, a, res);
    assert(a.take(raw.0 + 1) =~= b.take(raw.0 + 1));
    assert(b[res.0 as int] == a[res.0 as int]);
    assert(merged_at(b.take(raw.0 + 1), raw, b, res));
}

/// A registry entry keeps naming its declaration as the arena grows.
pub proof fn lemma_decl_named_grow(a: Seq<Node>, b: Seq<Node>, e: (Seq<char>, NodeRef))
    requires
        decl_named(a, e),
        extends_arena(a, b),
    ensures
        decl_named(b, e),
{
    assert(b[e.1.0 as int] == a[e.1.0 as int]);
    if a[e.1.0 as int].kind is Interface {
        lemma_merged_decl_grow(a, b, e.1);
    }
}

/// The registry keeps naming its declarations as the arena grows.
pub proof fn lemma_registry_named_grow(a: Seq<Node>, b: Seq<Node>, reg: Entries)
    requires
        registry_named(a, reg),
        extends_arena(a, b),
    ensures
        registry_named(b, reg),
{
    assert forall|i: int| 0 <= i < reg.len() implies #[trigger] decl_named(b, reg[i]) by {
        lemma_decl_named_grow(a, b, reg[i]);
    }
}

/// `b` is `a` after more work: the arena and the registry only grew, and
/// the processed exports of each module already processed stay as they were.
pub open spec fn grows(a: Packager, b: Packager) -> bool {
    &&& extends_arena(a.arena.nodes@, b.arena.nodes@)
    &&& forall|id: Seq<char>| #[trigger] registry_get(node_map_entries(a.nodes), id) is Some
        ==> registry_get(node_map_entries(b.nodes), id) == registry_get(node_map_entries(a.nodes), id)
    &&& forall|y: AssetId| #[trigger] cache_get(a.cache@, y) is Some ==> cache_get(b.cache@, y) == cache_get(a.cache@, y)
}

/// `b` has the recursion state (keys, substitution maps, types being
/// visited) of `a`.
pub open spec fn restores(a: Packager, b: Packager) -> bool {
    &&& b.key_stack@ == a.key_stack@
    &&& b.param_stack@ == a.param_stack@
    &&& b.visiting@ == a.visiting@
}

impl Packager {
    /// Every reference the state holds lies below `n`.
    pub open spec fn refs_ok(&self, n: nat) -> bool {
        &&& forall|i: int| 0 <= i < self.cache@.len() ==> values_below(node_map_entries(#[trigger] self.cache@[i].1), n)
        &&& values_below(node_map_entries(self.nodes), n)
        &&& forall|i: int| 0 <= i < self.param_stack@.len() ==> values_below(params_view(#[trigger] self.param_stack@[i]), n)
        &&& (self.application matches Some(a) ==> all_below(a@, n))
    }

    /// The arena is well formed and every reference the state holds is a node
    /// of it.
    pub open spec fn wf(&self) -> bool {
        &&& self.arena.wf()
        &&& self.refs_ok(self.arena.nodes@.len())
        &&& registry_named(self.arena.nodes@, node_map_entries(self.nodes))
    }

    /// The substitution in force: the top map of the stack.
    pub open spec fn top_params(&self) -> Entries {
        if self.param_stack@.len() > 0 {
            params_view(self.param_stack@.last())
        } else {
            Seq::empty()
        }
    }

    pub proof fn lemma_refs_ok_grow(&self, a: nat, b: nat)
        requires
            self.refs_ok(a),
            a <= b,
        ensures
            self.refs_ok(b),
    {
        assert forall|i: int| 0 <= i < self.cache@.len() implies values_below(node_map_entries(#[trigger] self.cache@[i].1), b) by {
            let e = node_map_entries(self.cache@[i].1);
            assert forall|j: int| 0 <= j < e.len() implies (#[trigger] e[j]).1.0 < b by {
                assert(values_below(e, a));
            }
        }
        let e = node_map_entries(self.nodes);
        assert forall|j: int| 0 <= j < e.len() implies (#[trigger] e[j]).1.0 < b by {}
        assert forall|i: int| 0 <= i < self.param_stack@.len() implies values_below(params_view(#[trigger] self.param_stack@[i]), b) by {
            let e = params_view(self.param_stack@[i]);
            assert forall|j: int| 0 <= j < e.len() implies (#[trigger] e[j]).1.0 < b by {
                assert(values_below(e, a));
            }
        }
    }

    /// A packager with nothing processed yet.
    pub fn new() -> (r: Packager)
        ensures
            r.wf(),
            r.arena.nodes@.len() == 0,
            r.cache@.len() == 0,
            node_map_entries(r.nodes).len() == 0,
            r.param_stack@.len() == 0,
            r.key_stack@.len() == 0,
            r.application is None,
            r.visiting@.len() == 0,
    {
        Packager {
            arena: NodeArena::new(),
            cache: Vec::new(),
            nodes: node_map_new(),
            param_stack: Vec::new(),
            key_stack: Vec::new(),
            application: None,
            visiting: Vec::new(),
        }
    }

    /// Places a node in the arena.
    fn push_node(&mut self, n: Node) -> (r: NodeRef)
        requires
            old(self).wf(),
            placeable(n, old(self).arena.nodes@.len()),
        ensures
            final(self).wf(),
            final(self).arena.nodes@ == old(self).arena.nodes@.push(n),
            r.0 == old(self).arena.nodes@.len(),
            final(self).cache == old(self).cache,
            final(self).nodes == old(self).nodes,
            final(self).param_stack == old(self).param_stack,
            final(self).key_stack == old(self).key_stack,
            final(self).application == old(self).application,
            final(self).visiting == old(self).visiting,
    {
        proof {
            self.lemma_refs_ok_grow(self.arena.nodes@.len(), self.arena.nodes@.len() + 1);
        }
        let ghost a0 = self.arena.nodes@;
        let r = self.arena.push(n);
        proof {
            lemma_registry_named_grow(a0, self.arena.nodes@, node_map_entries(self.nodes));
        }
        r
    }

    /// Whether an alias/interface should be inlined here.
    pub fn should_merge(&self, ty: &Type, key: Key) -> (r: bool)
        ensures
            r == should_merge_s(*ty, key, last_key(self.key_stack@)),
    {
        let under_props = self.key_stack.len() > 0 && (self.key_stack[self.key_stack.len() - 1] == Key::Props
            || self.key_stack[self.key_stack.len() - 1] == Key::Extends);
        match ty {
            Type::Interface { .. } => key == Key::Root || key == Key::Props || key == Key::Extends || (key == Key::Base
                && under_props),
            Type::Alias { .. } => key == Key::Base && under_props,
            _ => false,
        }
    }

    /// The substitution for `name` in force, if any.
    fn top_param(&self, name: &str) -> (r: Option<NodeRef>)
        requires
            self.wf(),
        ensures
            r == registry_get(self.top_params(), name@),
            r matches Some(t) ==> self.arena.holds(t),
    {
        if self.param_stack.len() == 0 {
            proof {
                crate::indexed::lemma_key_pos(Seq::<(Seq<char>, NodeRef)>::empty(), name@);
            }
            return None;
        }
        let r = param_lookup(&self.param_stack[self.param_stack.len() - 1], name);
        proof {
            let e = self.top_params();
            lemma_key_pos(e, name@);
            assert(values_below(params_view(self.param_stack@[self.param_stack@.len() - 1]), self.arena.nodes@.len()));
        }
        r
    }

    /// Registers `node` under `id` (first registration wins).
    fn register_node(&mut self, id: String, node: NodeRef)
        requires
            old(self).wf(),
            old(self).arena.holds(node),
            decl_named(old(self).arena.nodes@, (id@, node)),
        ensures
            final(self).wf(),
            grows(*old(self), *final(self)),
            restores(*old(self), *final(self)),
            final(self).arena == old(self).arena,
            final(self).cache == old(self).cache,
            final(self).application == old(self).application,
            registry_get(node_map_entries(old(self).nodes), id@) is None ==> registry_get(node_map_entries(final(self).nodes), id@) == Some(node),
            registered(node_map_entries(old(self).nodes), node_map_entries(final(self).nodes), id@, node),
            registry_get(node_map_entries(old(self).nodes), id@) is Some ==> final(self).nodes == old(self).nodes,
    {
        let ghost e = node_map_entries(self.nodes);
        proof {
            lemma_key_pos(e, id@);
        }
        register(&mut self.nodes, id, node);
        proof {
            let e2 = node_map_entries(self.nodes);
            if registry_get(e, id@) is None {
                assert(e2 == e.push((id@, node)));
                lemma_key_pos(e2, id@);
                assert(e2[e.len() as int].0 == id@);
                assert(crate::indexed::has_key(e2, id@));
                assert(crate::indexed::key_pos(e2, id@) == e.len());
                assert forall|k: Seq<char>| #[trigger] registry_get(e, k) is Some implies registry_get(e2, k) == registry_get(e, k) by {
                    lemma_key_pos(e, k);
                    assert(e2.drop_last() == e);
                }
                assert forall|j: int| 0 <= j < e2.len() implies (#[trigger] e2[j]).1.0 < self.arena.nodes@.len() by {
                    if j < e.len() {
                        assert(e2[j] == e[j]);
                    }
                }
                assert forall|j: int| 0 <= j < e2.len() implies #[trigger] decl_named(self.arena.nodes@, e2[j]) by {
                    if j < e.len() {
                        assert(e2[j] == e[j]);
                    }
                }
            }
        }
    }

    /// Whether `name` is the text `lit`.
    fn is_name(name: &String, lit: &str) -> (r: bool)
        ensures
            r == (name@ == lit@),
    {
        str_eq(name.as_str(), lit)
    }

    /// The post-recursion rewrites of a node built for `ty`: applications,
    /// `Omit`/`Pick`, parameter substitution, interface/alias links.
    fn finish(&mut self, node: Node, ty: &Type, key: Key) -> (r: NodeRef)
        requires
            old(self).wf(),
            placeable(node, old(self).arena.nodes@.len()),
        ensures
            final(self).wf(),
            grows(*old(self), *final(self)),
            final(self).arena.holds(r),
            finish_ok(*old(self), node, *ty, key, *final(self), r),
    {
        let ghost o = *self;
        proof {
            assert(children_below(node, self.arena.nodes@.len() as nat));
        }
        if let NodeKind::Application { base, .. } = &node.kind {
            self.application = None;
            if key == Key::Props {
                proof {
                    assert(node_children(node)[0] == *base);
                }
                return *base;
            }
        }
        if let NodeKind::Identifier { name } = &node.kind {
            match &self.application {
                Some(app) => {
                    if app.len() >= 2 {
                        let a0 = app[0];
                        let a1 = app[1];
                        if Self::is_name(name, "Omit") {
                            let r = omit(&mut self.arena, a0, a1, &self.nodes);
                            proof {
                                o.lemma_refs_ok_grow(o.arena.nodes@.len(), self.arena.nodes@.len());
                                lemma_registry_named_grow(o.arena.nodes@, self.arena.nodes@, node_map_entries(self.nodes));
                            }
                            return r;
                        }
                        if Self::is_name(name, "Pick") {
                            let r = pick(&mut self.arena, a0, a1, &self.nodes);
                            proof {
                                o.lemma_refs_ok_grow(o.arena.nodes@.len(), self.arena.nodes@.len());
                                lemma_registry_named_grow(o.arena.nodes@, self.arena.nodes@, node_map_entries(self.nodes));
                            }
                            return r;
                        }
                    }
                },
                None => {},
            }
            if let Some(sub) = self.top_param(name.as_str()) {
                return sub;
            }
        }
        if key != Key::TypeParamDecl {
            if let NodeKind::TypeParameter { name, .. } = &node.kind {
                if let Some(sub) = self.top_param(name.as_str()) {
                    return sub;
                }
                let n = name.clone();
                return self.push_node(Node::new(NodeKind::Identifier { name: n }));
            }
        }
        if let NodeKind::Alias { id, value, .. } = &node.kind {
            if key == Key::Props {
                proof {
                    assert(node_children(node)[0] == *value);
                }
                return *value;
            }
            let id = id.clone();
            let raw = self.push_node(node);
            self.register_node(id.clone(), raw);
            return self.push_node(Node::new(NodeKind::Link { id }));
        }
        if let NodeKind::Interface { id, .. } = &node.kind {
            let id = id.clone();
            let raw = self.push_node(node);
            let ghost mid = *self;
            let merged = merge_interface(&mut self.arena, raw);
            proof {
                mid.lemma_refs_ok_grow(mid.arena.nodes@.len(), self.arena.nodes@.len());
                assert(unwrap_decl(mid.arena.nodes@, raw) == raw);
                assert(is_interface_at(mid.arena.nodes@, raw));
                lemma_registry_named_grow(mid.arena.nodes@, self.arena.nodes@, node_map_entries(self.nodes));
                let a = self.arena.nodes@;
                assert(merged.0 >= raw.0);
                assert(a.take(raw.0 + 1) =~= mid.arena.nodes@);
                assert(merged_at(a.take(raw.0 + 1), raw, a, merged));
                assert(merged_decl(a, merged));
            }
            self.register_node(id.clone(), merged);
            if self.should_merge(ty, key) {
                return merged;
            } else {
                return self.push_node(Node::new(NodeKind::Link { id }));
            }
        }
        self.push_node(node)
    }
}

} // verus!
