//! The output type produced by the packager.
//!
//! A [`Node`] is a materialized documentation type. Nodes live in a
//! [`NodeArena`] and refer to their children by [`NodeRef`], the position of
//! the child in the arena. A child is always built before its parent, so every
//! reference of a node points to an earlier position: the arena is a DAG in
//! topological order, and a node that is reused from several places (a shared
//! interface, a type-parameter substitution, ...) is simply referenced again.
//! Shared and circular interfaces/aliases are represented as
//! [`NodeKind::Link`] and collected into a separate `links` section.
use vstd::prelude::*;
use indexmap::IndexMap;
use crate::indexed::{keys_distinct, node_map_entries, node_map_len, node_map_get_index};

verus! {

/// The position of a node in its [`NodeArena`].
#[derive(Clone, Copy, Debug, PartialEq, Eq, Structural)]
pub struct NodeRef(pub usize);

/// A materialized output type: its structural kind plus an optional
/// description (JSDoc can attach a description to a node of any kind).
#[derive(Debug)]
pub struct Node {
    pub kind: NodeKind,
    pub description: Option<String>,
}

/// The structural kind of a [`Node`]. Numeric literal values are carried as
/// the bit pattern of the IEEE-754 double they denote.
#[derive(Debug)]
pub enum NodeKind {
    Any,
    Null,
    Undefined,
    Void,
    Unknown,
    Never,
    This,
    Symbol,
    Identifier { name: String },
    String { value: Option<String> },
    Number { value: Option<u64> },
    Boolean { value: Option<bool> },
    Union { elements: Vec<NodeRef> },
    Intersection { types: Vec<NodeRef> },
    Application { base: NodeRef, type_parameters: Vec<NodeRef> },
    TypeOperator { operator: String, value: NodeRef },
    Function {
        id: Option<String>,
        name: Option<String>,
        parameters: Vec<NodeRef>,
        return_type: NodeRef,
        type_parameters: Vec<NodeRef>,
        examples: Vec<String>,
        access: Option<String>,
    },
    Parameter { name: String, value: NodeRef, optional: bool, rest: bool },
    Property {
        name: String,
        index_type: Option<NodeRef>,
        value: NodeRef,
        optional: bool,
        access: Option<String>,
        selector: Option<String>,
        default: Option<String>,
    },
    Method {
        name: String,
        value: NodeRef,
        access: Option<String>,
        default: Option<String>,
        is_static: bool,
        is_abstract: bool,
    },
    Alias {
        id: String,
        name: String,
        value: NodeRef,
        type_parameters: Vec<NodeRef>,
        access: Option<String>,
    },
    Interface {
        id: String,
        name: String,
        extends: Vec<NodeRef>,
        properties: IndexMap<String, NodeRef>,
        type_parameters: Vec<NodeRef>,
        access: Option<String>,
    },
    Object { properties: Option<IndexMap<String, NodeRef>>, access: Option<String> },
    Array { element_type: NodeRef },
    Tuple { elements: Vec<NodeRef> },
    Template { elements: Vec<NodeRef> },
    TypeParameter { name: String, constraint: Option<NodeRef>, default: Option<NodeRef> },
    Component {
        id: Option<String>,
        name: Option<String>,
        props: Option<NodeRef>,
        type_parameters: Vec<NodeRef>,
        ref_type: Option<NodeRef>,
        examples: Vec<String>,
        access: Option<String>,
    },
    Conditional { check_type: NodeRef, extends_type: NodeRef, true_type: NodeRef, false_type: NodeRef },
    IndexedAccess { object_type: NodeRef, index_type: NodeRef },
    Mapped { readonly: Option<String>, type_parameter: NodeRef, type_annotation: NodeRef },
    Link { id: String },
    /// An unresolved reference to an imported type (external/skipped module).
    Reference { specifier: String, imported: Option<String>, local: Option<String> },
}

/// The reference held by an optional child, as a sequence of zero or one.
pub open spec fn opt_ref(o: Option<NodeRef>) -> Seq<NodeRef> {
    match o {
        Some(r) => seq![r],
        None => Seq::empty(),
    }
}

/// The values of a property map, in order.
pub open spec fn map_refs(m: IndexMap<String, NodeRef>) -> Seq<NodeRef> {
    node_map_entries(m).map_values(|e: (Seq<char>, NodeRef)| e.1)
}

/// The immediate children of a node, in the order they are listed.
pub open spec fn node_children(n: Node) -> Seq<NodeRef> {
    match n.kind {
        NodeKind::Union { elements } => elements@,
        NodeKind::Tuple { elements } => elements@,
        NodeKind::Template { elements } => elements@,
        NodeKind::Intersection { types } => types@,
        NodeKind::Application { base, type_parameters } => seq![base] + type_parameters@,
        NodeKind::TypeOperator { value, .. } => seq![value],
        NodeKind::Function { parameters, return_type, type_parameters, .. } =>
            parameters@ + seq![return_type] + type_parameters@,
        NodeKind::Parameter { value, .. } => seq![value],
        NodeKind::Property { index_type, value, .. } => opt_ref(index_type) + seq![value],
        NodeKind::Method { value, .. } => seq![value],
        NodeKind::Alias { value, type_parameters, .. } => seq![value] + type_parameters@,
        NodeKind::Interface { extends, properties, type_parameters, .. } =>
            extends@ + map_refs(properties) + type_parameters@,
        NodeKind::Object { properties, .. } => match properties {
            Some(p) => map_refs(p),
            None => Seq::empty(),
        },
        NodeKind::Array { element_type } => seq![element_type],
        NodeKind::TypeParameter { constraint, default, .. } => opt_ref(constraint) + opt_ref(default),
        NodeKind::Component { props, type_parameters, ref_type, .. } =>
            opt_ref(props) + type_parameters@ + opt_ref(ref_type),
        NodeKind::Conditional { check_type, extends_type, true_type, false_type } =>
            seq![check_type, extends_type, true_type, false_type],
        NodeKind::IndexedAccess { object_type, index_type } => seq![object_type, index_type],
        NodeKind::Mapped { type_parameter, type_annotation, .. } => seq![type_parameter, type_annotation],
        _ => Seq::empty(),
    }
}

/// Every reference of `s` lies below position `bound`.
pub open spec fn all_below(s: Seq<NodeRef>, bound: nat) -> bool {
    forall|k: int| 0 <= k < s.len() ==> (#[trigger] s[k]).0 < bound
}

/// Every child of `n` lies below position `bound`.
pub open spec fn children_below(n: Node, bound: nat) -> bool {
    all_below(node_children(n), bound)
}

pub proof fn lemma_all_below_concat(a: Seq<NodeRef>, c: Seq<NodeRef>, bound: nat)
    ensures
        all_below(a + c, bound) <==> all_below(a, bound) && all_below(c, bound),
{
    if all_below(a + c, bound) {
        assert forall|k: int| 0 <= k < a.len() implies (#[trigger] a[k]).0 < bound by {
            assert((a + c)[k] == a[k]);
        }
        assert forall|k: int| 0 <= k < c.len() implies (#[trigger] c[k]).0 < bound by {
            assert((a + c)[a.len() + k] == c[k]);
        }
    }
}

/// A copy of a list of references.
pub fn copy_refs(v: &Vec<NodeRef>) -> (r: Vec<NodeRef>)
    ensures
        r@ == v@,
{
    let mut out: Vec<NodeRef> = Vec::new();
    let mut k: usize = 0;
    while k < v.len()
        invariant
            k <= v.len(),
            out@ == v@.take(k as int),
        decreases v.len() - k,
    {
        out.push(v[k]);
        proof {
            assert(v@.take(k + 1) == v@.take(k as int).push(v@[k as int]));
        }
        k = k + 1;
    }
    proof {
        assert(v@.take(v.len() as int) == v@);
    }
    out
}

/// A copy of a list of strings.
pub fn copy_strs(v: &Vec<String>) -> (r: Vec<String>)
    ensures
        r@ == v@,
{
    let mut out: Vec<String> = Vec::new();
    let mut k: usize = 0;
    while k < v.len()
        invariant
            k <= v.len(),
            out@ == v@.take(k as int),
        decreases v.len() - k,
    {
        out.push(v[k].clone());
        proof {
            assert(v@.take(k + 1) == v@.take(k as int).push(v@[k as int]));
        }
        k = k + 1;
    }
    proof {
        assert(v@.take(v.len() as int) == v@);
    }
    out
}

/// The values of a property map, in order.
pub fn map_values(m: &IndexMap<String, NodeRef>) -> (r: Vec<NodeRef>)
    ensures
        r@ == map_refs(*m),
{
    let n = node_map_len(m);
    let mut out: Vec<NodeRef> = Vec::new();
    let mut k: usize = 0;
    while k < n
        invariant
            k <= n,
            n == node_map_entries(*m).len(),
            out@ == map_refs(*m).take(k as int),
        decreases n - k,
    {
        let (_, v) = node_map_get_index(m, k);
        out.push(*v);
        proof {
            assert(map_refs(*m).take(k + 1) == map_refs(*m).take(k as int).push(map_refs(*m)[k as int]));
        }
        k = k + 1;
    }
    proof {
        assert(map_refs(*m).take(n as int) == map_refs(*m));
    }
    out
}

/// Yields the immediate children of a node (for link collection).
pub fn child_nodes(node: &Node) -> (r: Vec<NodeRef>)
    ensures
        r@ == node_children(*node),
{
    match &node.kind {
        NodeKind::Union { elements } => copy_refs(elements),
        NodeKind::Tuple { elements } => copy_refs(elements),
        NodeKind::Template { elements } => copy_refs(elements),
        NodeKind::Intersection { types } => copy_refs(types),
        NodeKind::Application { base, type_parameters } => {
            let mut out = vec![*base];
            let mut rest = copy_refs(type_parameters);
            out.append(&mut rest);
            out
        },
        NodeKind::TypeOperator { value, .. } => vec![*value],
        NodeKind::Function { parameters, return_type, type_parameters, .. } => {
            let mut out = copy_refs(parameters);
            out.push(*return_type);
            let mut rest = copy_refs(type_parameters);
            out.append(&mut rest);
            out
        },
        NodeKind::Parameter { value, .. } => vec![*value],
        NodeKind::Property { index_type, value, .. } => {
            let mut out: Vec<NodeRef> = Vec::new();
            if let Some(i) = index_type {
                out.push(*i);
            }
            out.push(*value);
            out
        },
        NodeKind::Method { value, .. } => vec![*value],
        NodeKind::Alias { value, type_parameters, .. } => {
            let mut out = vec![*value];
            let mut rest = copy_refs(type_parameters);
            out.append(&mut rest);
            out
        },
        NodeKind::Interface { extends, properties, type_parameters, .. } => {
            let mut out = copy_refs(extends);
            let mut props = map_values(properties);
            out.append(&mut props);
            let mut rest = copy_refs(type_parameters);
            out.append(&mut rest);
            out
        },
        NodeKind::Object { properties, .. } => match properties {
            Some(p) => map_values(p),
            None => Vec::new(),
        },
        NodeKind::Array { element_type } => vec![*element_type],
        NodeKind::TypeParameter { constraint, default, .. } => {
            let mut out: Vec<NodeRef> = Vec::new();
            if let Some(c) = constraint {
                out.push(*c);
            }
            if let Some(d) = default {
                out.push(*d);
            }
            out
        },
        NodeKind::Component { props, type_parameters, ref_type, .. } => {
            let mut out: Vec<NodeRef> = Vec::new();
            if let Some(p) = props {
                out.push(*p);
            }
            let mut rest = copy_refs(type_parameters);
            out.append(&mut rest);
            if let Some(r) = ref_type {
                out.push(*r);
            }
            out
        },
        NodeKind::Conditional { check_type, extends_type, true_type, false_type } =>
            vec![*check_type, *extends_type, *true_type, *false_type],
        NodeKind::IndexedAccess { object_type, index_type } => vec![*object_type, *index_type],
        NodeKind::Mapped { type_parameter, type_annotation, .. } => vec![*type_parameter, *type_annotation],
        _ => Vec::new(),
    }
}

impl Node {
    /// A node of the given kind, without a description.
    pub fn new(kind: NodeKind) -> (r: Node)
        ensures
            r.kind == kind,
            r.description is None,
    {
        Node { kind, description: None }
    }

    /// Sets the description if one is provided and not already present.
    pub fn set_description(&mut self, description: Option<String>)
        ensures
            final(self).kind == old(self).kind,
            final(self).description == (if old(self).description is None && description is Some {
                description
            } else {
                old(self).description
            }),
    {
        if self.description.is_none() && description.is_some() {
            self.description = description;
        }
    }

    /// Adds a link to the type registered under `id`.
    pub fn link(arena: &mut NodeArena, id: String) -> (r: NodeRef)
        ensures
            final(arena).nodes@ == old(arena).nodes@.push(Node { kind: NodeKind::Link { id }, description: None }),
            r.0 == old(arena).nodes@.len(),
    {
        arena.push(Node::new(NodeKind::Link { id }))
    }

    /// Adds an identifier node.
    pub fn identifier(arena: &mut NodeArena, name: String) -> (r: NodeRef)
        ensures
            final(arena).nodes@ == old(arena).nodes@.push(Node { kind: NodeKind::Identifier { name }, description: None }),
            r.0 == old(arena).nodes@.len(),
    {
        arena.push(Node::new(NodeKind::Identifier { name }))
    }
}

/// The nodes built by the packager, each referring to its children by their
/// positions.
pub struct NodeArena {
    pub nodes: Vec<Node>,
}

/// The property maps of `n` hold no key twice.
pub open spec fn maps_distinct(n: Node) -> bool {
    match n.kind {
        NodeKind::Interface { properties, .. } => keys_distinct(node_map_entries(properties)),
        NodeKind::Object { properties, .. } => match properties {
            Some(p) => keys_distinct(node_map_entries(p)),
            None => true,
        },
        _ => true,
    }
}

/// `n` may be placed at position `i` of an arena: it refers only to earlier
/// positions and its property maps hold no key twice.
pub open spec fn placeable(n: Node, i: nat) -> bool {
    children_below(n, i) && maps_distinct(n)
}

/// `b` holds the nodes of `a` at the same positions, and possibly more.
pub open spec fn extends_arena(a: Seq<Node>, b: Seq<Node>) -> bool {
    a.len() <= b.len() && forall|i: int| 0 <= i < a.len() ==> #[trigger] b[i] == a[i]
}

impl NodeArena {
    /// Every node refers only to nodes placed before it, and no property map
    /// holds a key twice.
    pub open spec fn wf(&self) -> bool {
        forall|i: int| 0 <= i < self.nodes@.len() ==> placeable(#[trigger] self.nodes@[i], i as nat)
    }

    /// Whether `r` designates a node of this arena.
    pub open spec fn holds(&self, r: NodeRef) -> bool {
        r.0 < self.nodes@.len()
    }

    /// An empty arena.
    pub fn new() -> (r: NodeArena)
        ensures
            r.wf(),
            r.nodes@.len() == 0,
    {
        NodeArena { nodes: Vec::new() }
    }

    /// The number of nodes.
    pub fn len(&self) -> (r: usize)
        ensures
            r == self.nodes@.len(),
    {
        self.nodes.len()
    }

    /// Places a node after all existing ones and returns its position.
    pub fn push(&mut self, node: Node) -> (r: NodeRef)
        ensures
            final(self).nodes@ == old(self).nodes@.push(node),
            r.0 == old(self).nodes@.len(),
    {
        let r = NodeRef(self.nodes.len());
        self.nodes.push(node);
        r
    }

    /// The node at position `r`.
    pub fn get(&self, r: NodeRef) -> (n: &Node)
        requires
            self.holds(r),
        ensures
            *n == self.nodes@[r.0 as int],
    {
        &self.nodes[r.0]
    }
}

} // verus!
