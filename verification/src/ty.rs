//! The per-module type model: an arena of [`Type`]s addressed by [`TypeId`].
use vstd::prelude::*;
use indexmap::IndexMap;
use crate::indexed::{key_pos, lemma_key_pos, str_map_entries, str_map_index_of, str_map_get_index, prop_map_entries, prop_map_len, prop_map_get_index, prop_map_set_at};
use crate::jsdoc::{JsDocs, DocsView, opt_view};
use crate::text::{chars_of, chars_eq};

verus! {

/// Index of a type in a module's arena.
#[derive(Clone, Copy, Debug, PartialEq, Eq, Hash, Structural)]
pub struct TypeId(pub u32);

/// The operator of a TypeScript type operator (`keyof`, `unique`, `readonly`).
#[derive(Clone, Copy, Debug, PartialEq, Eq, Structural)]
pub enum TypeOperatorOp {
    KeyOf,
    Unique,
    ReadOnly,
}

/// A function or component parameter.
#[derive(Clone, Debug)]
pub struct Parameter {
    pub name: String,
    pub value: TypeId,
    pub optional: bool,
    pub rest: bool,
    pub description: Option<String>,
}

/// A property, method or index signature of an interface or object type.
#[derive(Clone, Debug)]
pub struct Property {
    pub name: String,
    pub index_type: Option<TypeId>,
    pub value: TypeId,
    pub optional: bool,
    pub is_method: bool,
    pub is_static: bool,
    pub is_abstract: bool,
    pub description: Option<String>,
    pub access: Option<String>,
    pub selector: Option<String>,
    pub default: Option<String>,
}

/// A type as recorded while reading one module. Numeric literal values are
/// carried as the bit pattern of the IEEE-754 double they denote.
#[derive(Debug)]
pub enum Type {
    Any,
    Null,
    Undefined,
    Void,
    Unknown,
    Never,
    This,
    Symbol,
    ObjectKeyword,
    Identifier { name: String },
    String { value: Option<String> },
    Number { value: Option<u64> },
    Boolean { value: Option<bool> },
    Union { elements: Vec<TypeId> },
    Intersection { types: Vec<TypeId> },
    Application { base: TypeId, type_parameters: Vec<TypeId> },
    TypeOperator { operator: TypeOperatorOp, value: TypeId },
    Function {
        id: Option<String>,
        name: Option<String>,
        parameters: Vec<Parameter>,
        return_type: TypeId,
        type_parameters: Vec<TypeId>,
        description: Option<String>,
        return_description: Option<String>,
        access: Option<String>,
        examples: Vec<String>,
    },
    Alias {
        id: String,
        name: String,
        value: TypeId,
        type_parameters: Vec<TypeId>,
        description: Option<String>,
        access: Option<String>,
    },
    Interface {
        id: String,
        name: String,
        extends: Vec<TypeId>,
        properties: IndexMap<String, Property>,
        type_parameters: Vec<TypeId>,
        description: Option<String>,
        access: Option<String>,
    },
    Object {
        properties: IndexMap<String, Property>,
        description: Option<String>,
        access: Option<String>,
    },
    Array { element_type: TypeId },
    Tuple { elements: Vec<TypeId> },
    Template { elements: Vec<TypeId> },
    Component {
        id: Option<String>,
        name: Option<String>,
        props: Option<TypeId>,
        type_parameters: Vec<TypeId>,
        ref_type: Option<TypeId>,
        description: Option<String>,
        access: Option<String>,
        examples: Vec<String>,
    },
    Conditional { check_type: TypeId, extends_type: TypeId, true_type: TypeId, false_type: TypeId },
    IndexedAccess { object_type: TypeId, index_type: TypeId },
    Link { id: String, value: TypeId },
    /// Reference to an imported type.
    Reference { specifier: String, imported: Option<String>, local: Option<String> },
    Mapped { readonly: Option<String>, type_parameter: TypeId, type_annotation: TypeId },
    TypeParameter { name: String, constraint: Option<TypeId>, default: Option<TypeId> },
    Ref(TypeId),
}

/// A copy of an optional string.
pub fn copy_opt(o: &Option<String>) -> (r: Option<String>)
    ensures
        r == *o,
{
    match o {
        Some(s) => Some(s.clone()),
        None => None,
    }
}

impl Parameter {
    /// A copy of this parameter.
    pub fn duplicate(&self) -> (r: Parameter)
        ensures
            r == *self,
    {
        Parameter {
            name: self.name.clone(),
            value: self.value,
            optional: self.optional,
            rest: self.rest,
            description: copy_opt(&self.description),
        }
    }
}

impl Property {
    /// A copy of this property.
    pub fn duplicate(&self) -> (r: Property)
        ensures
            r == *self,
    {
        Property {
            name: self.name.clone(),
            index_type: self.index_type,
            value: self.value,
            optional: self.optional,
            is_method: self.is_method,
            is_static: self.is_static,
            is_abstract: self.is_abstract,
            description: copy_opt(&self.description),
            access: copy_opt(&self.access),
            selector: copy_opt(&self.selector),
            default: copy_opt(&self.default),
        }
    }
}

/// Whether two strings hold the same characters.
pub fn str_eq(a: &str, b: &str) -> (r: bool)
    ensures
        r == (a@ == b@),
{
    let x = chars_of(a);
    let y = chars_of(b);
    chars_eq(&x, &y)
}

/// Whether an optional string holds exactly the characters of `b`.
pub open spec fn opt_is(a: Option<String>, b: Seq<char>) -> bool {
    a matches Some(s) && s@ == b
}

/// The type a function becomes once recognized as a component: its first
/// parameter gives the props, its second the ref.
pub open spec fn spec_to_component(t: Type) -> Type {
    match t {
        Type::Function { id, name, parameters, type_parameters, description, access, examples, .. } => Type::Component {
            id,
            name,
            props: if parameters.len() > 0 { Some(parameters[0].value) } else { None },
            type_parameters,
            ref_type: if parameters.len() > 1 { Some(parameters[1].value) } else { None },
            description,
            access,
            examples,
        },
        _ => t,
    }
}

/// The description carried directly by a type, if any.
pub open spec fn spec_description(t: Type) -> Option<String> {
    match t {
        Type::Function { description, .. } => description,
        Type::Alias { description, .. } => description,
        Type::Interface { description, .. } => description,
        Type::Object { description, .. } => description,
        Type::Component { description, .. } => description,
        _ => None,
    }
}

/// Whether a type kind carries a description.
pub open spec fn has_description_slot(t: Type) -> bool {
    t is Function || t is Alias || t is Interface || t is Object || t is Component
}

/// The `id` of a named type kind, set to `new_id`.
pub open spec fn spec_with_id(t: Type, new_id: String) -> Type {
    match t {
        Type::Function { id: _, name, parameters, return_type, type_parameters, description, return_description, access, examples } =>
            Type::Function { id: Some(new_id), name, parameters, return_type, type_parameters, description, return_description, access, examples },
        Type::Component { id: _, name, props, type_parameters, ref_type, description, access, examples } =>
            Type::Component { id: Some(new_id), name, props, type_parameters, ref_type, description, access, examples },
        Type::Interface { id: _, name, extends, properties, type_parameters, description, access } =>
            Type::Interface { id: new_id, name, extends, properties, type_parameters, description, access },
        Type::Alias { id: _, name, value, type_parameters, description, access } =>
            Type::Alias { id: new_id, name, value, type_parameters, description, access },
        _ => t,
    }
}

/// The `name` of a named type kind, set to `new_name`.
pub open spec fn spec_with_name(t: Type, new_name: String) -> Type {
    match t {
        Type::Function { id, name: _, parameters, return_type, type_parameters, description, return_description, access, examples } =>
            Type::Function { id, name: Some(new_name), parameters, return_type, type_parameters, description, return_description, access, examples },
        Type::Component { id, name: _, props, type_parameters, ref_type, description, access, examples } =>
            Type::Component { id, name: Some(new_name), props, type_parameters, ref_type, description, access, examples },
        Type::Interface { id, name: _, extends, properties, type_parameters, description, access } =>
            Type::Interface { id, name: new_name, extends, properties, type_parameters, description, access },
        Type::Alias { id, name: _, value, type_parameters, description, access } =>
            Type::Alias { id, name: new_name, value, type_parameters, description, access },
        _ => t,
    }
}

/// The description of a type that carries one, set to `desc`.
pub open spec fn spec_with_description(t: Type, desc: Option<String>) -> Type {
    match t {
        Type::Function { id, name, parameters, return_type, type_parameters, description: _, return_description, access, examples } =>
            Type::Function { id, name, parameters, return_type, type_parameters, description: desc, return_description, access, examples },
        Type::Alias { id, name, value, type_parameters, description: _, access } =>
            Type::Alias { id, name, value, type_parameters, description: desc, access },
        Type::Interface { id, name, extends, properties, type_parameters, description: _, access } =>
            Type::Interface { id, name, extends, properties, type_parameters, description: desc, access },
        Type::Object { properties, description: _, access } =>
            Type::Object { properties, description: desc, access },
        Type::Component { id, name, props, type_parameters, ref_type, description: _, access, examples } =>
            Type::Component { id, name, props, type_parameters, ref_type, description: desc, access, examples },
        _ => t,
    }
}

/// The ids in an optional id.
pub open spec fn opt_seq(o: Option<TypeId>) -> Seq<TypeId> {
    match o {
        Some(t) => seq![t],
        None => Seq::empty(),
    }
}

/// `value_name` if there is one, else `name`.
pub open spec fn name_or(value_name: Option<String>, name: String) -> String {
    match value_name {
        Some(v) => v,
        None => name,
    }
}

/// `new` is `old` with the description of its `@param` entry (if any).
pub open spec fn param_documented(old: Parameter, params: Seq<(Seq<char>, Seq<char>)>, new: Parameter) -> bool {
    &&& new.name == old.name
    &&& new.value == old.value
    &&& new.optional == old.optional
    &&& new.rest == old.rest
    &&& if key_pos(params, old.name@) >= 0 {
        opt_is(new.description, params[key_pos(params, old.name@)].1)
    } else {
        new.description == old.description
    }
}

/// `new` is `old` with its access set to `"private"`.
pub open spec fn made_private(old: Property, new: Property) -> bool {
    &&& new.name == old.name
    &&& new.index_type == old.index_type
    &&& new.value == old.value
    &&& new.optional == old.optional
    &&& new.is_method == old.is_method
    &&& new.is_static == old.is_static
    &&& new.is_abstract == old.is_abstract
    &&& new.description == old.description
    &&& opt_is(new.access, "private"@)
    &&& new.selector == old.selector
    &&& new.default == old.default
}

/// Every property of `new` is the one of `old` made private, in the same order.
pub open spec fn all_made_private(old: Seq<(Seq<char>, Property)>, new: Seq<(Seq<char>, Property)>) -> bool {
    &&& new.len() == old.len()
    &&& forall|i: int| 0 <= i < old.len() ==> #[trigger] new[i].0 == old[i].0 && made_private(old[i].1, new[i].1)
}

/// The characters of each string.
pub open spec fn strs_view(v: Vec<String>) -> Seq<Seq<char>> {
    v@.map_values(|s: String| s@)
}

/// A doc field that replaces the current value only when the doc block has one.
pub open spec fn doc_field(doc: Option<Seq<char>>, current: Option<String>) -> Option<Seq<char>> {
    if doc is Some { doc } else { opt_view(current) }
}

/// The examples of a doc block if it has any, else the current ones.
pub open spec fn doc_examples(doc: Seq<Seq<char>>, current: Vec<String>) -> Seq<Seq<char>> {
    if doc.len() > 0 { doc } else { strs_view(current) }
}

/// `new` is `old` once a doc block `d` and an optional value name are applied
/// (what [`Type::add_docs`] does to a type).
pub open spec fn docs_applied(old: Type, d: DocsView, value_name: Option<String>, new: Type) -> bool {
    match old {
        Type::Function { id, name, parameters, return_type, type_parameters, description, return_description, access, examples } =>
            match new {
                Type::Function { id: id2, name: name2, parameters: ps2, return_type: rt2, type_parameters: tp2, description: d2, return_description: rd2, access: a2, examples: ex2 } => {
                    &&& id2 == id
                    &&& name2 == (if value_name is Some { value_name } else { name })
                    &&& ps2.len() == parameters.len()
                    &&& forall|i: int| 0 <= i < parameters.len() ==> param_documented(#[trigger] parameters[i], d.params, ps2[i])
                    &&& rt2 == return_type
                    &&& tp2 == type_parameters
                    &&& opt_view(d2) == doc_field(d.description, description)
                    &&& opt_view(a2) == doc_field(d.access, access)
                    &&& strs_view(ex2) == doc_examples(d.examples, examples)
                    &&& opt_view(rd2) == doc_field(d.return_description, return_description)
                },
                _ => false,
            },
        Type::Component { id, name, props, type_parameters, ref_type, description, access, examples } =>
            match new {
                Type::Component { id: id2, name: name2, props: p2, type_parameters: tp2, ref_type: r2, description: d2, access: a2, examples: ex2 } => {
                    &&& id2 == id
                    &&& name2 == (if value_name is Some { value_name } else { name })
                    &&& p2 == props
                    &&& tp2 == type_parameters
                    &&& r2 == ref_type
                    &&& opt_view(d2) == doc_field(d.description, description)
                    &&& opt_view(a2) == doc_field(d.access, access)
                    &&& strs_view(ex2) == doc_examples(d.examples, examples)
                },
                _ => false,
            },
        Type::Alias { id, name, value, type_parameters, description, access } =>
            match new {
                Type::Alias { id: id2, name: name2, value: v2, type_parameters: tp2, description: d2, access: a2 } => {
                    &&& id2 == id
                    &&& name2 == name_or(value_name, name)
                    &&& v2 == value
                    &&& tp2 == type_parameters
                    &&& opt_view(d2) == doc_field(d.description, description)
                    &&& opt_view(a2) == doc_field(d.access, access)
                },
                _ => false,
            },
        Type::Interface { id, name, extends, properties, type_parameters, description, access } =>
            match new {
                Type::Interface { id: id2, name: name2, extends: ex2, properties: p2, type_parameters: tp2, description: d2, access: a2 } => {
                    &&& id2 == id
                    &&& name2 == name_or(value_name, name)
                    &&& ex2 == extends
                    &&& tp2 == type_parameters
                    &&& opt_view(d2) == doc_field(d.description, description)
                    &&& opt_view(a2) == doc_field(d.access, access)
                    &&& if opt_is(a2, "private"@) {
                        all_made_private(prop_map_entries(properties), prop_map_entries(p2))
                    } else {
                        p2 == properties
                    }
                },
                _ => false,
            },
        Type::Object { properties, description, access } =>
            match new {
                Type::Object { properties: p2, description: d2, access: a2 } => {
                    &&& p2 == properties
                    &&& opt_view(d2) == doc_field(d.description, description)
                    &&& opt_view(a2) == doc_field(d.access, access)
                },
                _ => false,
            },
        _ => new == old,
    }
}

/// `b` is the parameter `a`, its description compared by its characters.
pub open spec fn same_param(a: Parameter, b: Parameter) -> bool {
    &&& b.name == a.name
    &&& b.value == a.value
    &&& b.optional == a.optional
    &&& b.rest == a.rest
    &&& opt_view(b.description) == opt_view(a.description)
}

/// `b` is the property `a`, its access compared by its characters.
pub open spec fn same_property(a: Property, b: Property) -> bool {
    &&& b.name == a.name
    &&& b.index_type == a.index_type
    &&& b.value == a.value
    &&& b.optional == a.optional
    &&& b.is_method == a.is_method
    &&& b.is_static == a.is_static
    &&& b.is_abstract == a.is_abstract
    &&& b.description == a.description
    &&& opt_view(b.access) == opt_view(a.access)
    &&& b.selector == a.selector
    &&& b.default == a.default
}

/// `b` is the type `a`: every field the same, the texts that a doc block
/// writes compared by their characters.
pub open spec fn same_type(a: Type, b: Type) -> bool {
    match (a, b) {
        (
            Type::Function { id, name, parameters, return_type, type_parameters, description, return_description, access, examples },
            Type::Function { id: id2, name: name2, parameters: ps2, return_type: rt2, type_parameters: tp2, description: d2, return_description: rd2, access: a2, examples: ex2 },
        ) => {
            &&& id2 == id
            &&& name2 == name
            &&& ps2.len() == parameters.len()
            &&& forall|i: int| 0 <= i < parameters.len() ==> same_param(#[trigger] parameters[i], ps2[i])
            &&& rt2 == return_type
            &&& tp2 == type_parameters
            &&& opt_view(d2) == opt_view(description)
            &&& opt_view(rd2) == opt_view(return_description)
            &&& opt_view(a2) == opt_view(access)
            &&& strs_view(ex2) == strs_view(examples)
        },
        (
            Type::Component { id, name, props, type_parameters, ref_type, description, access, examples },
            Type::Component { id: id2, name: name2, props: p2, type_parameters: tp2, ref_type: r2, description: d2, access: a2, examples: ex2 },
        ) => {
            &&& id2 == id
            &&& name2 == name
            &&& p2 == props
            &&& tp2 == type_parameters
            &&& r2 == ref_type
            &&& opt_view(d2) == opt_view(description)
            &&& opt_view(a2) == opt_view(access)
            &&& strs_view(ex2) == strs_view(examples)
        },
        (
            Type::Alias { id, name, value, type_parameters, description, access },
            Type::Alias { id: id2, name: name2, value: v2, type_parameters: tp2, description: d2, access: a2 },
        ) => {
            &&& id2 == id
            &&& name2 == name
            &&& v2 == value
            &&& tp2 == type_parameters
            &&& opt_view(d2) == opt_view(description)
            &&& opt_view(a2) == opt_view(access)
        },
        (
            Type::Interface { id, name, extends, properties, type_parameters, description, access },
            Type::Interface { id: id2, name: name2, extends: ex2, properties: p2, type_parameters: tp2, description: d2, access: a2 },
        ) => {
            &&& id2 == id
            &&& name2 == name
            &&& ex2 == extends
            &&& tp2 == type_parameters
            &&& opt_view(d2) == opt_view(description)
            &&& opt_view(a2) == opt_view(access)
            &&& prop_map_entries(p2).len() == prop_map_entries(properties).len()
            &&& forall|i: int| 0 <= i < prop_map_entries(properties).len() ==> #[trigger] prop_map_entries(p2)[i].0
                == prop_map_entries(properties)[i].0 && same_property(prop_map_entries(properties)[i].1, prop_map_entries(p2)[i].1)
        },
        (Type::Object { properties, description, access }, Type::Object { properties: p2, description: d2, access: a2 }) => {
            &&& p2 == properties
            &&& opt_view(d2) == opt_view(description)
            &&& opt_view(a2) == opt_view(access)
        },
        _ => b == a,
    }
}

/// Law: a doc block only overwrites the fields it provides, so applying it a
/// second time (with the same value name) changes nothing: the result is the
/// type it was applied to, and what applying it once to the original gives.
pub proof fn law_docs_idempotent(t: Type, d: DocsView, value_name: Option<String>, t1: Type, t2: Type)
    requires
        docs_applied(t, d, value_name, t1),
        docs_applied(t1, d, value_name, t2),
    ensures
        same_type(t1, t2),
        docs_applied(t, d, value_name, t2),
{
    match t {
        Type::Function { parameters, .. } => {
            if let Type::Function { parameters: p1, .. } = t1 {
                if let Type::Function { parameters: p2, .. } = t2 {
                    assert forall|i: int| 0 <= i < parameters.len() implies param_documented(
                        #[trigger] parameters[i],
                        d.params,
                        p2[i],
                    ) by {
                        assert(param_documented(parameters[i], d.params, p1[i]));
                        assert(param_documented(p1[i], d.params, p2[i]));
                    }
                    assert forall|i: int| 0 <= i < p1.len() implies same_param(#[trigger] p1[i], p2[i]) by {
                        assert(param_documented(parameters[i], d.params, p1[i]));
                        assert(param_documented(p1[i], d.params, p2[i]));
                    }
                }
            }
        },
        Type::Interface { properties, access, .. } => {
            if let Type::Interface { properties: q1, access: a1, .. } = t1 {
                if let Type::Interface { properties: q2, access: a2, .. } = t2 {
                    if opt_is(a2, "private"@) {
                        let e0 = prop_map_entries(properties);
                        let e1 = prop_map_entries(q1);
                        let e2 = prop_map_entries(q2);
                        assert(opt_view(a1) == opt_view(a2));
                        assert(opt_is(a1, "private"@));
                        assert forall|i: int| 0 <= i < e0.len() implies #[trigger] e2[i].0 == e0[i].0 && made_private(
                            e0[i].1,
                            e2[i].1,
                        ) by {
                            assert(e1[i].0 == e0[i].0 && made_private(e0[i].1, e1[i].1));
                            assert(e2[i].0 == e1[i].0 && made_private(e1[i].1, e2[i].1));
                        }
                        assert forall|i: int| 0 <= i < e1.len() implies #[trigger] e2[i].0 == e1[i].0 && same_property(
                            e1[i].1,
                            e2[i].1,
                        ) by {
                            assert(e1[i].0 == e0[i].0 && made_private(e0[i].1, e1[i].1));
                            assert(e2[i].0 == e1[i].0 && made_private(e1[i].1, e2[i].1));
                        }
                    } else {
                        assert(q2 == q1);
                        let e1 = prop_map_entries(q1);
                        assert forall|i: int| 0 <= i < e1.len() implies #[trigger] prop_map_entries(q2)[i].0 == e1[i].0
                            && same_property(e1[i].1, prop_map_entries(q2)[i].1) by {}
                    }
                }
            }
        },
        _ => {},
    }
}

/// The type ids a type refers to directly (not those inside its properties
/// or parameters).
pub open spec fn direct_refs(t: Type) -> Seq<TypeId> {
    match t {
        Type::Union { elements } => elements@,
        Type::Intersection { types } => types@,
        Type::Application { base, type_parameters } => seq![base] + type_parameters@,
        Type::TypeOperator { value, .. } => seq![value],
        Type::Function { return_type, type_parameters, .. } => seq![return_type] + type_parameters@,
        Type::Alias { value, type_parameters, .. } => seq![value] + type_parameters@,
        Type::Interface { extends, type_parameters, .. } => extends@ + type_parameters@,
        Type::Array { element_type } => seq![element_type],
        Type::Tuple { elements } => elements@,
        Type::Template { elements } => elements@,
        Type::Component { props, type_parameters, ref_type, .. } =>
            opt_seq(props) + type_parameters@
                + opt_seq(ref_type),
        Type::Conditional { check_type, extends_type, true_type, false_type } =>
            seq![check_type, extends_type, true_type, false_type],
        Type::IndexedAccess { object_type, index_type } => seq![object_type, index_type],
        Type::Link { value, .. } => seq![value],
        Type::Mapped { type_parameter, type_annotation, .. } => seq![type_parameter, type_annotation],
        Type::TypeParameter { constraint, default, .. } =>
            opt_seq(constraint)
                + opt_seq(default),
        Type::Ref(r) => seq![r],
        _ => Seq::empty(),
    }
}

pub open spec fn id_below(t: TypeId, n: nat) -> bool {
    (t.0 as nat) < n
}

pub open spec fn prop_refs_below(p: Property, n: nat) -> bool {
    &&& id_below(p.value, n)
    &&& (p.index_type matches Some(i) ==> id_below(i, n))
}

/// Every id that `t` refers to, directly or through its parameters and
/// properties, is below `n`.
pub open spec fn refs_below(t: Type, n: nat) -> bool {
    &&& forall|i: int| 0 <= i < direct_refs(t).len() ==> id_below(#[trigger] direct_refs(t)[i], n)
    &&& (t matches Type::Function { parameters, .. } ==> forall|i: int|
        0 <= i < parameters.len() ==> id_below(#[trigger] parameters[i].value, n))
    &&& (t matches Type::Interface { properties, .. } ==> forall|i: int|
        0 <= i < prop_map_entries(properties).len() ==> prop_refs_below(
            #[trigger] prop_map_entries(properties)[i].1,
            n,
        ))
    &&& (t matches Type::Object { properties, .. } ==> forall|i: int|
        0 <= i < prop_map_entries(properties).len() ==> prop_refs_below(
            #[trigger] prop_map_entries(properties)[i].1,
            n,
        ))
}

/// An arena in which every id refers to an entry and no entry is a bare `Ref`
/// (a `Ref` only ever stands for an arena entry, it is never stored in one).
pub open spec fn arena_wf(types: Seq<Type>) -> bool {
    forall|i: int| 0 <= i < types.len() ==> refs_below(#[trigger] types[i], types.len()) && !(types[i] is Ref)
}


/// Whether every id of `ids` is below `n`.
fn ids_within(ids: &Vec<TypeId>, n: usize) -> (r: bool)
    ensures
        r == forall|i: int| 0 <= i < ids@.len() ==> id_below(#[trigger] ids@[i], n as nat),
{
    let mut k: usize = 0;
    while k < ids.len()
        invariant
            k <= ids.len(),
            forall|i: int| 0 <= i < k ==> id_below(#[trigger] ids@[i], n as nat),
        decreases ids.len() - k,
    {
        if ids[k].0 as usize >= n {
            return false;
        }
        k = k + 1;
    }
    true
}

/// Whether every property of a map refers only to ids below `n`.
fn props_within(props: &IndexMap<String, Property>, n: usize) -> (r: bool)
    ensures
        r == forall|i: int| 0 <= i < prop_map_entries(*props).len() ==> prop_refs_below(
            #[trigger] prop_map_entries(*props)[i].1,
            n as nat,
        ),
{
    let len = prop_map_len(props);
    let mut k: usize = 0;
    while k < len
        invariant
            k <= len,
            len == prop_map_entries(*props).len(),
            forall|i: int| 0 <= i < k ==> prop_refs_below(#[trigger] prop_map_entries(*props)[i].1, n as nat),
        decreases len - k,
    {
        let (_, p) = prop_map_get_index(props, k);
        let ok = (p.value.0 as usize) < n && match p.index_type {
            Some(t) => (t.0 as usize) < n,
            None => true,
        };
        if !ok {
            return false;
        }
        k = k + 1;
    }
    true
}

/// The ids a type refers to directly.
fn direct_ids(t: &Type) -> (r: Vec<TypeId>)
    ensures
        r@ == direct_refs(*t),
{
    let mut out: Vec<TypeId> = Vec::new();
    match t {
        Type::Union { elements } => {
            out = elements.clone();
        },
        Type::Intersection { types } => {
            out = types.clone();
        },
        Type::Application { base, type_parameters } => {
            out.push(*base);
            let mut rest = type_parameters.clone();
            out.append(&mut rest);
        },
        Type::TypeOperator { value, .. } => {
            out.push(*value);
        },
        Type::Function { return_type, type_parameters, .. } => {
            out.push(*return_type);
            let mut rest = type_parameters.clone();
            out.append(&mut rest);
        },
        Type::Alias { value, type_parameters, .. } => {
            out.push(*value);
            let mut rest = type_parameters.clone();
            out.append(&mut rest);
        },
        Type::Interface { extends, type_parameters, .. } => {
            out = extends.clone();
            let mut rest = type_parameters.clone();
            out.append(&mut rest);
        },
        Type::Array { element_type } => {
            out.push(*element_type);
        },
        Type::Tuple { elements } => {
            out = elements.clone();
        },
        Type::Template { elements } => {
            out = elements.clone();
        },
        Type::Component { props, type_parameters, ref_type, .. } => {
            if let Some(p) = props {
                out.push(*p);
            }
            let mut rest = type_parameters.clone();
            out.append(&mut rest);
            if let Some(r) = ref_type {
                out.push(*r);
            }
            proof {
                assert(out@ =~= opt_seq(*props) + type_parameters@ + opt_seq(*ref_type));
            }
        },
        Type::Conditional { check_type, extends_type, true_type, false_type } => {
            out.push(*check_type);
            out.push(*extends_type);
            out.push(*true_type);
            out.push(*false_type);
        },
        Type::IndexedAccess { object_type, index_type } => {
            out.push(*object_type);
            out.push(*index_type);
        },
        Type::Link { value, .. } => {
            out.push(*value);
        },
        Type::Mapped { type_parameter, type_annotation, .. } => {
            out.push(*type_parameter);
            out.push(*type_annotation);
        },
        Type::TypeParameter { constraint, default, .. } => {
            if let Some(c) = constraint {
                out.push(*c);
            }
            if let Some(d) = default {
                out.push(*d);
            }
            proof {
                assert(out@ =~= opt_seq(*constraint) + opt_seq(*default));
            }
        },
        Type::Ref(r) => {
            out.push(*r);
        },
        _ => {},
    }
    proof {
        assert(out@ =~= direct_refs(*t));
    }
    out
}

/// Whether every id a type refers to, directly or through its parameters and
/// properties, is below `n`.
pub fn refs_within(t: &Type, n: usize) -> (r: bool)
    ensures
        r == refs_below(*t, n as nat),
{
    let ds = direct_ids(t);
    if !ids_within(&ds, n) {
        return false;
    }
    match t {
        Type::Function { parameters, .. } => {
            let mut k: usize = 0;
            while k < parameters.len()
                invariant
                    k <= parameters.len(),
                    match *t {
                        Type::Function { parameters: ps, .. } => ps == *parameters,
                        _ => false,
                    },
                    forall|i: int| 0 <= i < k ==> id_below(#[trigger] parameters@[i].value, n as nat),
                decreases parameters.len() - k,
            {
                if parameters[k].value.0 as usize >= n {
                    proof {
                        assert(!id_below(parameters[k as int].value, n as nat));
                    }
                    return false;
                }
                k = k + 1;
            }
            true
        },
        Type::Interface { properties, .. } => props_within(properties, n),
        Type::Object { properties, .. } => props_within(properties, n),
        _ => true,
    }
}


/// What `refs_below` says of each kind of type, field by field.
pub proof fn lemma_refs_fields(t: Type, n: nat)
    requires
        refs_below(t, n),
    ensures
        match t {
            Type::Union { elements } => forall|i: int| 0 <= i < elements@.len() ==> id_below(#[trigger] elements@[i], n),
            Type::Intersection { types } => forall|i: int| 0 <= i < types@.len() ==> id_below(#[trigger] types@[i], n),
            Type::Tuple { elements } => forall|i: int| 0 <= i < elements@.len() ==> id_below(#[trigger] elements@[i], n),
            Type::Template { elements } => forall|i: int| 0 <= i < elements@.len() ==> id_below(#[trigger] elements@[i], n),
            Type::Application { base, type_parameters } => id_below(base, n) && forall|i: int|
                0 <= i < type_parameters@.len() ==> id_below(#[trigger] type_parameters@[i], n),
            Type::TypeOperator { value, .. } => id_below(value, n),
            Type::Function { return_type, type_parameters, parameters, .. } => id_below(return_type, n) && (forall|i: int|
                0 <= i < type_parameters@.len() ==> id_below(#[trigger] type_parameters@[i], n)) && (forall|i: int|
                0 <= i < parameters@.len() ==> id_below(#[trigger] parameters@[i].value, n)),
            Type::Alias { value, type_parameters, .. } => id_below(value, n) && forall|i: int|
                0 <= i < type_parameters@.len() ==> id_below(#[trigger] type_parameters@[i], n),
            Type::Interface { extends, type_parameters, properties, .. } => (forall|i: int|
                0 <= i < extends@.len() ==> id_below(#[trigger] extends@[i], n)) && (forall|i: int|
                0 <= i < type_parameters@.len() ==> id_below(#[trigger] type_parameters@[i], n)) && (forall|i: int|
                0 <= i < prop_map_entries(properties).len() ==> prop_refs_below(#[trigger] prop_map_entries(properties)[i].1, n)),
            Type::Object { properties, .. } => forall|i: int|
                0 <= i < prop_map_entries(properties).len() ==> prop_refs_below(#[trigger] prop_map_entries(properties)[i].1, n),
            Type::Array { element_type } => id_below(element_type, n),
            Type::Component { props, type_parameters, ref_type, .. } => (props matches Some(p) ==> id_below(p, n)) && (forall|i: int|
                0 <= i < type_parameters@.len() ==> id_below(#[trigger] type_parameters@[i], n)) && (ref_type matches Some(r) ==> id_below(r, n)),
            Type::Conditional { check_type, extends_type, true_type, false_type } => id_below(check_type, n) && id_below(extends_type, n)
                && id_below(true_type, n) && id_below(false_type, n),
            Type::IndexedAccess { object_type, index_type } => id_below(object_type, n) && id_below(index_type, n),
            Type::Mapped { type_parameter, type_annotation, .. } => id_below(type_parameter, n) && id_below(type_annotation, n),
            Type::TypeParameter { constraint, default, .. } => (constraint matches Some(c) ==> id_below(c, n)) && (default matches Some(d)
                ==> id_below(d, n)),
            Type::Link { value, .. } => id_below(value, n),
            _ => true,
        },
{
    let d = direct_refs(t);
    match t {
        Type::Application { base, type_parameters } => {
            assert(d[0] == base);
            assert forall|i: int| 0 <= i < type_parameters@.len() implies id_below(#[trigger] type_parameters@[i], n) by {
                assert(d[i + 1] == type_parameters@[i]);
            }
        },
        Type::Function { return_type, type_parameters, parameters, .. } => {
            assert(d[0] == return_type);
            assert forall|i: int| 0 <= i < type_parameters@.len() implies id_below(#[trigger] type_parameters@[i], n) by {
                assert(d[i + 1] == type_parameters@[i]);
            }
            assert forall|i: int| 0 <= i < parameters@.len() implies id_below(#[trigger] parameters@[i].value, n) by {
                assert(parameters@[i] == parameters[i]);
            }
        },
        Type::Alias { value, type_parameters, .. } => {
            assert(d[0] == value);
            assert forall|i: int| 0 <= i < type_parameters@.len() implies id_below(#[trigger] type_parameters@[i], n) by {
                assert(d[i + 1] == type_parameters@[i]);
            }
        },
        Type::Interface { extends, type_parameters, properties, .. } => {
            assert forall|i: int| 0 <= i < extends@.len() implies id_below(#[trigger] extends@[i], n) by {
                assert(d[i] == extends@[i]);
            }
            assert forall|i: int| 0 <= i < type_parameters@.len() implies id_below(#[trigger] type_parameters@[i], n) by {
                assert(d[extends@.len() + i] == type_parameters@[i]);
            }
        },
        Type::Component { props, type_parameters, ref_type, .. } => {
            let k = opt_seq(props).len() as int;
            if props is Some {
                assert(d[0] == props->0);
            }
            assert forall|i: int| 0 <= i < type_parameters@.len() implies id_below(#[trigger] type_parameters@[i], n) by {
                assert(d[k + i] == type_parameters@[i]);
            }
            if ref_type is Some {
                assert(d[k + type_parameters@.len()] == ref_type->0);
            }
        },
        Type::TypeParameter { constraint, default, .. } => {
            let k = opt_seq(constraint).len() as int;
            if constraint is Some {
                assert(d[0] == constraint->0);
            }
            if default is Some {
                assert(d[k] == default->0);
            }
        },
        Type::Conditional { .. } => {
            assert(id_below(d[0], n) && id_below(d[1], n) && id_below(d[2], n) && id_below(d[3], n));
        },
        Type::IndexedAccess { .. } => {
            assert(id_below(d[0], n) && id_below(d[1], n));
        },
        Type::Mapped { .. } => {
            assert(id_below(d[0], n) && id_below(d[1], n));
        },
        Type::TypeOperator { .. } => {
            assert(id_below(d[0], n));
        },
        Type::Array { .. } => {
            assert(id_below(d[0], n));
        },
        Type::Link { .. } => {
            assert(id_below(d[0], n));
        },
        _ => {},
    }
}

impl Type {
    /// Turns a function into a component (props from the first parameter, ref
    /// from the second); any other type is returned unchanged.
    pub fn to_component(self) -> (r: Type)
        ensures
            r == spec_to_component(self),
    {
        match self {
            Type::Function { id, name, parameters, type_parameters, description, access, examples, .. } => {
                let props = if parameters.len() > 0 { Some(parameters[0].value) } else { None };
                let ref_type = if parameters.len() > 1 { Some(parameters[1].value) } else { None };
                Type::Component { id, name, props, type_parameters, ref_type, description, access, examples }
            },
            other => other,
        }
    }

    /// Sets the `id` on named type kinds (function, component, interface, alias).
    pub fn set_id(&mut self, new_id: String)
        ensures
            *final(self) == spec_with_id(*old(self), new_id),
    {
        match self {
            Type::Function { id, .. } => *id = Some(new_id),
            Type::Component { id, .. } => *id = Some(new_id),
            Type::Interface { id, .. } => *id = new_id,
            Type::Alias { id, .. } => *id = new_id,
            _ => {},
        }
    }

    /// Sets the `name` on named type kinds (function, component, interface, alias).
    pub fn set_name(&mut self, new_name: String)
        ensures
            *final(self) == spec_with_name(*old(self), new_name),
    {
        match self {
            Type::Function { name, .. } => *name = Some(new_name),
            Type::Component { name, .. } => *name = Some(new_name),
            Type::Interface { name, .. } => *name = new_name,
            Type::Alias { name, .. } => *name = new_name,
            _ => {},
        }
    }

    /// The description carried directly on this type, if any.
    pub fn description(&self) -> (r: Option<&String>)
        ensures
            r matches Some(d) ==> spec_description(*self) == Some(*d),
            r is None ==> spec_description(*self) is None,
    {
        match self {
            Type::Function { description, .. } => description.as_ref(),
            Type::Alias { description, .. } => description.as_ref(),
            Type::Interface { description, .. } => description.as_ref(),
            Type::Object { description, .. } => description.as_ref(),
            Type::Component { description, .. } => description.as_ref(),
            _ => None,
        }
    }

    /// Sets the description on type kinds that carry one.
    pub fn set_description(&mut self, desc: Option<String>)
        ensures
            *final(self) == spec_with_description(*old(self), desc),
    {
        match self {
            Type::Function { description, .. } => *description = desc,
            Type::Alias { description, .. } => *description = desc,
            Type::Interface { description, .. } => *description = desc,
            Type::Object { description, .. } => *description = desc,
            Type::Component { description, .. } => *description = desc,
            _ => {},
        }
    }

    /// Applies a parsed doc block to this type. Only the fields that the doc
    /// block provides are overwritten, so it can be applied more than once; a
    /// `@private` interface also marks all of its properties private. A `Ref`
    /// is left as it is (see [`crate::parse::Context::add_docs_at`] for
    /// documenting what a `Ref` stands for).
    pub fn add_docs(&mut self, jsdoc: JsDocs, value_name: Option<String>)
        ensures
            docs_applied(*old(self), jsdoc@, value_name, *final(self)),
    {
        let ghost d = jsdoc@;
        let JsDocs { description: d_description, default: _, access: d_access, return_description: d_return, params: d_params, selector: _, examples: d_examples } = jsdoc;
        match self {
            Type::Function { name, parameters, description, return_description, access, examples, .. } => {
                if value_name.is_some() {
                    *name = value_name;
                }
                document_params(parameters, &d_params);
                if d_description.is_some() {
                    *description = d_description;
                }
                if d_access.is_some() {
                    *access = d_access;
                }
                if d_examples.len() > 0 {
                    *examples = d_examples;
                }
                if d_return.is_some() {
                    *return_description = d_return;
                }
            },
            Type::Component { name, description, access, examples, .. } => {
                if value_name.is_some() {
                    *name = value_name;
                }
                if d_description.is_some() {
                    *description = d_description;
                }
                if d_access.is_some() {
                    *access = d_access;
                }
                if d_examples.len() > 0 {
                    *examples = d_examples;
                }
            },
            Type::Alias { name, description, access, .. } => {
                if let Some(v) = value_name {
                    *name = v;
                }
                if d_description.is_some() {
                    *description = d_description;
                }
                if d_access.is_some() {
                    *access = d_access;
                }
            },
            Type::Interface { name, properties, description, access, .. } => {
                if let Some(v) = value_name {
                    *name = v;
                }
                if d_description.is_some() {
                    *description = d_description;
                }
                if d_access.is_some() {
                    *access = d_access;
                }
                let private = match access {
                    Some(a) => str_eq(a.as_str(), "private"),
                    None => false,
                };
                proof {
                    reveal_strlit("private");
                }
                if private {
                    make_all_private(properties);
                }
            },
            Type::Object { description, access, .. } => {
                if d_description.is_some() {
                    *description = d_description;
                }
                if d_access.is_some() {
                    *access = d_access;
                }
            },
            _ => {},
        }
    }
}

/// Gives each parameter the description of its `@param` entry, if any.
pub fn document_params(parameters: &mut Vec<Parameter>, params: &IndexMap<String, String>)
    ensures
        final(parameters)@.len() == old(parameters)@.len(),
        forall|i: int| 0 <= i < old(parameters)@.len() ==> param_documented(
            #[trigger] old(parameters)@[i],
            str_map_entries(*params),
            final(parameters)@[i],
        ),
{
    let ghost e = str_map_entries(*params);
    let mut k: usize = 0;
    while k < parameters.len()
        invariant
            e == str_map_entries(*params),
            k <= parameters@.len() == old(parameters)@.len(),
            forall|i: int| 0 <= i < k ==> param_documented(#[trigger] old(parameters)@[i], e, parameters@[i]),
            forall|i: int| k <= i < parameters@.len() ==> parameters@[i] == old(parameters)@[i],
        decreases parameters.len() - k,
    {
        let found = str_map_index_of(params, parameters[k].name.as_str());
        if let Some(pos) = found {
            proof {
                lemma_key_pos(e, parameters@[k as int].name@);
            }
            let (_, desc) = str_map_get_index(params, pos);
            let desc = desc.clone();
            let mut p = parameters[k].duplicate();
            p.description = Some(desc);
            parameters.set(k, p);
        }
        k = k + 1;
    }
}

/// Sets the access of every property to `"private"`.
fn make_all_private(properties: &mut IndexMap<String, Property>)
    ensures
        all_made_private(prop_map_entries(*old(properties)), prop_map_entries(*final(properties))),
{
    let ghost e = prop_map_entries(*properties);
    let n = prop_map_len(properties);
    let mut k: usize = 0;
    while k < n
        invariant
            n == e.len(),
            k <= n,
            prop_map_entries(*properties).len() == n,
            forall|i: int| 0 <= i < k ==> #[trigger] prop_map_entries(*properties)[i].0 == e[i].0
                && made_private(e[i].1, prop_map_entries(*properties)[i].1),
            forall|i: int| k <= i < n ==> #[trigger] prop_map_entries(*properties)[i] == e[i],
        decreases n - k,
    {
        proof {
            reveal_strlit("private");
        }
        let (_, p) = prop_map_get_index(properties, k);
        let mut p = p.duplicate();
        p.access = Some(String::from_str("private"));
        let ghost before = prop_map_entries(*properties);
        prop_map_set_at(properties, k, p);
        proof {
            assert(before[k as int] == e[k as int]);
            assert(made_private(e[k as int].1, prop_map_entries(*properties)[k as int].1));
            assert forall|i: int| 0 <= i < k + 1 implies #[trigger] prop_map_entries(*properties)[i].0 == e[i].0
                && made_private(e[i].1, prop_map_entries(*properties)[i].1) by {
                if i < k {
                    assert(prop_map_entries(*properties)[i] == before[i]);
                }
            }
        }
        k = k + 1;
    }
}

} // verus!
