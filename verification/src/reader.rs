//! Reading TypeScript types, parameters and members into the module's type
//! arena.
use vstd::prelude::*;
use crate::ast::{EntityName, IndexSignature, Pat, PropKey, TplPart, TruePlusMinus, TsKeywordKind, TsType, TsTypeElement, TypeParam};
use crate::indexed::{entries_insert, key_pos, lemma_key_pos, prop_map_entries, prop_map_get_index, prop_map_index_of, prop_map_insert, prop_map_new, str_set_insert, str_set_items};
use crate::jsdoc::{DocsView, JsDocs, opt_view};
use crate::parse::{BindingId, Context, decl_of, lemma_decl_pos};
use crate::text::{chars_of, string_of};
use crate::ty::{Parameter, Property, Type, TypeId, copy_opt, document_params, id_below, prop_refs_below, refs_below, direct_refs};
use indexmap::IndexMap;

verus! {

// ---------------------------------------------------------------------------
// What a reading step keeps.

/// `b` holds the items of `a` in front, in order.
pub open spec fn items_grow(a: Seq<Seq<char>>, b: Seq<Seq<char>>) -> bool {
    &&& a.len() <= b.len()
    &&& forall|i: int| 0 <= i < a.len() ==> b[i] == a[i]
}

/// `b` holds the declarations of `a` in front, in order.
pub open spec fn decls_grow(a: Seq<(BindingId, TypeId)>, b: Seq<(BindingId, TypeId)>) -> bool {
    &&& a.len() <= b.len()
    &&& forall|i: int| 0 <= i < a.len() ==> b[i] == a[i]
}

/// A reading step from `o` to `n`: the state stays well formed, the arena
/// only grows, declarations and dependencies are only added, and exports are
/// untouched.
pub open spec fn ctx_step(o: Context, n: Context) -> bool {
    &&& n.wf()
    &&& n.path == o.path
    &&& o.api.types@.len() <= n.api.types@.len()
    &&& decls_grow(o.decls@, n.decls@)
    &&& n.api.exports == o.api.exports
    &&& n.api.export_all == o.api.export_all
    &&& items_grow(str_set_items(o.api.dependencies), str_set_items(n.api.dependencies))
}

pub proof fn lemma_step_refl(a: Context)
    requires
        a.wf(),
    ensures
        ctx_step(a, a),
{
}

/// All ids of `v` are below `n`.
pub open spec fn ids_below(v: Seq<TypeId>, n: nat) -> bool {
    forall|i: int| 0 <= i < v.len() ==> id_below(#[trigger] v[i], n)
}

// ---------------------------------------------------------------------------
// What reading gives back.

/// How a keyword type is spelled in TypeScript.
pub open spec fn keyword_text(k: TsKeywordKind) -> Seq<char> {
    match k {
        TsKeywordKind::Any => "any"@,
        TsKeywordKind::Unknown => "unknown"@,
        TsKeywordKind::Number => "number"@,
        TsKeywordKind::Object => "object"@,
        TsKeywordKind::Boolean => "boolean"@,
        TsKeywordKind::BigInt => "bigint"@,
        TsKeywordKind::String => "string"@,
        TsKeywordKind::Symbol => "symbol"@,
        TsKeywordKind::Void => "void"@,
        TsKeywordKind::Undefined => "undefined"@,
        TsKeywordKind::Null => "null"@,
        TsKeywordKind::Never => "never"@,
        TsKeywordKind::Intrinsic => "intrinsic"@,
    }
}

/// The keyword a type is written with, when it is a keyword type (a
/// primitive without a literal value).
pub open spec fn type_keyword(t: Type) -> Option<Seq<char>> {
    match t {
        Type::Any => Some("any"@),
        Type::Unknown => Some("unknown"@),
        Type::Number { value: None } => Some("number"@),
        Type::ObjectKeyword => Some("object"@),
        Type::Boolean { value: None } => Some("boolean"@),
        Type::String { value: None } => Some("string"@),
        Type::Symbol => Some("symbol"@),
        Type::Void => Some("void"@),
        Type::Undefined => Some("undefined"@),
        Type::Null => Some("null"@),
        Type::Never => Some("never"@),
        _ => None,
    }
}

/// Law: reading a keyword type gives the type written with that same
/// keyword (so no two keywords read as the same type); `bigint` and
/// `intrinsic`, which have no type of their own, read as `any`.
pub proof fn law_keyword_types(k: TsKeywordKind)
    ensures
        !(k is BigInt || k is Intrinsic) ==> type_keyword(keyword_type(k)) == Some(keyword_text(k)),
        k is BigInt || k is Intrinsic ==> keyword_type(k) == Type::Any,
{
}

/// The type of a keyword.
pub open spec fn keyword_type(k: TsKeywordKind) -> Type {
    match k {
        TsKeywordKind::Any => Type::Any,
        TsKeywordKind::Unknown => Type::Unknown,
        TsKeywordKind::Number => Type::Number { value: None },
        TsKeywordKind::Object => Type::ObjectKeyword,
        TsKeywordKind::Boolean => Type::Boolean { value: None },
        TsKeywordKind::BigInt => Type::Any,
        TsKeywordKind::String => Type::String { value: None },
        TsKeywordKind::Symbol => Type::Symbol,
        TsKeywordKind::Void => Type::Void,
        TsKeywordKind::Undefined => Type::Undefined,
        TsKeywordKind::Null => Type::Null,
        TsKeywordKind::Never => Type::Never,
        TsKeywordKind::Intrinsic => Type::Any,
    }
}

/// How a mapped type's `readonly` modifier is written down.
pub open spec fn readonly_text(r: Option<TruePlusMinus>) -> Option<Seq<char>> {
    match r {
        Some(TruePlusMinus::True) => Some("true"@),
        Some(TruePlusMinus::Plus) => Some("+"@),
        Some(TruePlusMinus::Minus) => Some("-"@),
        None => None,
    }
}

/// The dotted text of an entity name (`React.JSX.Element`).
pub open spec fn dotted_name(e: EntityName) -> Seq<char>
    decreases e,
{
    match e {
        EntityName::Ident(id) => id.sym@,
        EntityName::Qualified(left, right) => dotted_name(*left) + "."@ + right@,
    }
}

/// The name a property key gives.
pub open spec fn key_name(k: PropKey) -> Seq<char> {
    match k {
        PropKey::Name(s) => s@,
        PropKey::Unknown => "unknown"@,
    }
}

/// The name a parameter pattern gives.
pub open spec fn pat_name(p: Pat) -> Seq<char>
    decreases p,
{
    match p {
        Pat::Ident { name, .. } => name@,
        Pat::Rest { name: Some(n), .. } => n@,
        Pat::Assign(inner) => pat_name(*inner),
        _ => "unknown"@,
    }
}

/// Whether a parameter pattern is optional.
pub open spec fn pat_optional(p: Pat) -> bool
    decreases p,
{
    match p {
        Pat::Ident { optional, .. } => optional,
        Pat::Array { optional, .. } => optional,
        Pat::Object { optional, .. } => optional,
        Pat::Assign(inner) => pat_optional(*inner),
        _ => false,
    }
}

/// Whether a parameter pattern is a rest parameter.
pub open spec fn pat_rest(p: Pat) -> bool
    decreases p,
{
    match p {
        Pat::Rest { .. } => true,
        Pat::Assign(inner) => pat_rest(*inner),
        _ => false,
    }
}

/// The parameter read from a pattern, up to its type: its name, whether it is
/// optional or a rest parameter, and no description.
pub open spec fn param_shape(pat: Pat, p: Parameter) -> bool {
    &&& p.name@ == pat_name(pat)
    &&& p.optional == pat_optional(pat)
    &&& p.rest == pat_rest(pat)
    &&& p.description is None
}

/// The parameters read from a list of patterns, one each, in order.
pub open spec fn params_shape(pats: Seq<Pat>, ps: Seq<Parameter>) -> bool {
    &&& ps.len() == pats.len()
    &&& forall|i: int| 0 <= i < ps.len() ==> param_shape(#[trigger] pats[i], ps[i])
}

/// The number of arena entries a template type lists: one per piece, and one
/// per type between pieces.
pub open spec fn template_len(parts: Seq<TplPart>) -> nat
    decreases parts.len(),
{
    if parts.len() == 0 {
        0
    } else {
        template_len(parts.drop_last()) + if parts.last().next is Some {
            2nat
        } else {
            1nat
        }
    }
}

/// Property fields that come from a doc block.
pub open spec fn docs_fields(p: Property, d: DocsView) -> bool {
    &&& opt_view(p.description) == d.description
    &&& opt_view(p.access) == d.access
    &&& opt_view(p.selector) == d.selector
    &&& opt_view(p.default) == d.default
}

/// The property read from an index signature, up to its types.
pub open spec fn index_property(sig: IndexSignature, p: Property) -> bool {
    &&& p.name@ == pat_name(sig.param)
    &&& p.index_type is Some
    &&& !p.optional && !p.is_method && !p.is_static && !p.is_abstract
    &&& docs_fields(p, sig.docs@)
}

/// The property read from a member of an interface or type literal, up to
/// its types.
pub open spec fn element_property(m: TsTypeElement, p: Property) -> bool {
    match m {
        TsTypeElement::CallSignature { docs, .. } => p.name@ == ""@ && p.index_type is None && !p.optional
            && p.is_method && !p.is_static && !p.is_abstract && docs_fields(p, docs@),
        TsTypeElement::ConstructSignature { docs, .. } => p.name@ == "constructor"@ && p.index_type is None
            && !p.optional && p.is_method && !p.is_static && !p.is_abstract && docs_fields(p, docs@),
        TsTypeElement::Property { docs, key, optional, .. } => p.name@ == key_name(key) && p.index_type is None
            && p.optional == optional && !p.is_method && !p.is_static && !p.is_abstract && docs_fields(p, docs@),
        TsTypeElement::Getter { docs, key, .. } => p.name@ == key_name(key) && p.index_type is None && !p.optional
            && !p.is_method && !p.is_static && !p.is_abstract && docs_fields(p, docs@),
        TsTypeElement::Setter { docs, key, .. } => p.name@ == key_name(key) && p.index_type is None && !p.optional
            && !p.is_method && !p.is_static && !p.is_abstract && docs_fields(p, docs@),
        TsTypeElement::Method { docs, key, optional, .. } => p.name@ == key_name(key) && p.index_type is None
            && p.optional == optional && p.is_method && !p.is_static && !p.is_abstract && docs_fields(p, docs@),
        TsTypeElement::Index(sig) => index_property(sig, p),
    }
}

/// The name of the property a member gives.
pub open spec fn element_name(m: TsTypeElement) -> Seq<char> {
    match m {
        TsTypeElement::CallSignature { .. } => ""@,
        TsTypeElement::ConstructSignature { .. } => "constructor"@,
        TsTypeElement::Property { key, .. } => key_name(key),
        TsTypeElement::Getter { key, .. } => key_name(key),
        TsTypeElement::Setter { key, .. } => key_name(key),
        TsTypeElement::Method { key, .. } => key_name(key),
        TsTypeElement::Index(sig) => pat_name(sig.param),
    }
}

/// Entry `id` of `types` holds what `t` stands for: `t` itself, or, for a
/// `Ref`, the entry it points to (`id` is that entry).
pub open spec fn stored_at(types: Seq<Type>, id: TypeId, t: Type) -> bool {
    match t {
        Type::Ref(x) => id == x,
        _ => types[id.0 as int] == t,
    }
}

/// Entry `id` of `types` holds what the annotation `ann` reads as (`any`
/// when there is none).
pub open spec fn ann_stored(types: Seq<Type>, id: TypeId, ann: Option<TsType>) -> bool {
    match ann {
        Some(a) => exists|t: Type| #[trigger] ts_type_shape(a, t) && stored_at(types, id, t),
        None => types[id.0 as int] == Type::Any,
    }
}

/// What an entry holds does not depend on the other entries.
pub proof fn lemma_ann_stored_same(a: Seq<Type>, b: Seq<Type>, id: TypeId, ann: Option<TsType>)
    requires
        ann_stored(a, id, ann),
        a[id.0 as int] == b[id.0 as int],
    ensures
        ann_stored(b, id, ann),
{
    if let Some(x) = ann {
        let t = choose|t: Type| #[trigger] ts_type_shape(x, t) && stored_at(a, id, t);
        assert(stored_at(b, id, t));
    }
}

/// Entry `id` of `types` holds what the boxed annotation `ann` reads as.
pub open spec fn boxed_ann_stored(types: Seq<Type>, id: TypeId, ann: Option<Box<TsType>>) -> bool {
    match ann {
        Some(a) => ann_stored(types, id, Some(*a)),
        None => ann_stored(types, id, None),
    }
}

/// The entry a member of an interface body or type literal gives its
/// property: a signature or method gives a function type with its
/// parameters; a property or getter, what its annotation reads as.
pub open spec fn element_value(m: TsTypeElement, v: TypeId, types: Seq<Type>) -> bool {
    match m {
        TsTypeElement::CallSignature { params, .. } => types[v.0 as int] matches Type::Function { parameters, .. }
            && parameters@.len() == params@.len(),
        TsTypeElement::ConstructSignature { params, .. } => types[v.0 as int] matches Type::Function { parameters, .. }
            && parameters@.len() == params@.len(),
        TsTypeElement::Method { params, .. } => types[v.0 as int] matches Type::Function { parameters, .. }
            && parameters@.len() == params@.len(),
        TsTypeElement::Property { type_ann, .. } => ann_stored(types, v, type_ann),
        TsTypeElement::Getter { type_ann, .. } => ann_stored(types, v, type_ann),
        _ => true,
    }
}

/// The keys of a map's entries.
pub open spec fn entry_keys(e: Seq<(Seq<char>, Property)>) -> Seq<Seq<char>> {
    e.map_values(|x: (Seq<char>, Property)| x.0)
}

/// The keys a map gets when `names` are inserted in order (a repeated name
/// keeps its first position).
pub open spec fn keys_inserted(names: Seq<Seq<char>>) -> Seq<Seq<char>>
    decreases names.len(),
{
    if names.len() == 0 {
        Seq::empty()
    } else {
        let k = keys_inserted(names.drop_last());
        if k.contains(names.last()) {
            k
        } else {
            k.push(names.last())
        }
    }
}

/// The names of the members of a type literal or interface body.
pub open spec fn element_names(ms: Seq<TsTypeElement>) -> Seq<Seq<char>> {
    ms.map_values(|m: TsTypeElement| element_name(m))
}

/// The type read from an entity name, up to what the names in scope hold: a
/// plain identifier reads as a `Ref`; a qualified name as a `Ref` to a member
/// or as the dotted identifier.
pub open spec fn entity_shape(e: EntityName, r: Type) -> bool {
    match e {
        EntityName::Ident(_) => r is Ref,
        EntityName::Qualified(..) => r is Ref || (r matches Type::Identifier { name } && name@ == dotted_name(e)),
    }
}

/// The type read from a type node, up to what its parts read as.
pub open spec fn ts_type_shape(node: TsType, r: Type) -> bool
    decreases node,
{
    match node {
        TsType::Keyword(k) => r == keyword_type(k),
        TsType::This => r == Type::This,
        TsType::Fn { type_params, params, .. } => match r {
            Type::Function {
                id,
                name,
                parameters,
                type_parameters,
                description,
                return_description,
                access,
                examples,
                ..
            } => id is None && name is None && description is None && return_description is None && access is None
                && examples@.len() == 0 && params_shape(params@, parameters@) && type_parameters@.len()
                == type_params@.len(),
            _ => false,
        },
        TsType::TypeRef { name, type_args } => match type_args {
            Some(args) => r matches Type::Application { type_parameters, .. } && type_parameters@.len() == args@.len(),
            None => entity_shape(name, r),
        },
        TsType::TypeQuery { name, type_args } => match type_args {
            Some(args) => r matches Type::Application { type_parameters, .. } && type_parameters@.len() == args@.len(),
            None => match name {
                Some(n) => entity_shape(n, r),
                None => r == Type::Any,
            },
        },
        TsType::TypeLit(members) => match r {
            Type::Object { properties, description, access } => description is None && access is None
                && entry_keys(prop_map_entries(properties)) == keys_inserted(element_names(members@)),
            _ => false,
        },
        TsType::Array(_) => r is Array,
        TsType::Tuple(es) => r matches Type::Tuple { elements } && elements@.len() == es@.len(),
        TsType::Union(ts) => r matches Type::Union { elements } && elements@.len() == ts@.len(),
        TsType::Intersection(ts) => r matches Type::Intersection { types } && types@.len() == ts@.len(),
        TsType::Conditional { .. } => r is Conditional,
        TsType::Paren(inner) => ts_type_shape(*inner, r),
        TsType::Operator { op, .. } => r matches Type::TypeOperator { operator, .. } && operator == op,
        TsType::IndexedAccess { .. } => r is IndexedAccess,
        TsType::Mapped { readonly, .. } => r matches Type::Mapped { readonly: ro, .. } && opt_view(ro)
            == readonly_text(readonly),
        TsType::NumberLit(bits) => r == Type::Number { value: Some(bits) },
        TsType::StringLit(s) => r matches Type::String { value: Some(v) } && v@ == s@,
        TsType::BoolLit(b) => r == Type::Boolean { value: Some(b) },
        TsType::Template(parts) => r matches Type::Template { elements } && elements@.len() == template_len(parts@),
        TsType::Unsupported => r == Type::Any,
    }
}

// ---------------------------------------------------------------------------
// Small pieces.

impl BindingId {
    /// A copy of this binding.
    pub fn duplicate(&self) -> (r: BindingId)
        ensures
            r == *self,
    {
        BindingId { sym: self.sym.clone(), ctxt: self.ctxt }
    }
}

/// The type of a keyword.
pub fn keyword_to_type(k: &TsKeywordKind) -> (r: Type)
    ensures
        r == keyword_type(*k),
{
    match k {
        TsKeywordKind::Any => Type::Any,
        TsKeywordKind::Unknown => Type::Unknown,
        TsKeywordKind::Number => Type::Number { value: None },
        TsKeywordKind::Object => Type::ObjectKeyword,
        TsKeywordKind::Boolean => Type::Boolean { value: None },
        TsKeywordKind::BigInt => Type::Any,
        TsKeywordKind::String => Type::String { value: None },
        TsKeywordKind::Symbol => Type::Symbol,
        TsKeywordKind::Void => Type::Void,
        TsKeywordKind::Undefined => Type::Undefined,
        TsKeywordKind::Null => Type::Null,
        TsKeywordKind::Never => Type::Never,
        TsKeywordKind::Intrinsic => Type::Any,
    }
}

/// How a mapped type's `readonly` modifier is written down.
pub fn readonly_to_text(r: &Option<TruePlusMinus>) -> (s: Option<String>)
    ensures
        opt_view(s) == readonly_text(*r),
{
    match r {
        Some(TruePlusMinus::True) => Some(String::from_str("true")),
        Some(TruePlusMinus::Plus) => Some(String::from_str("+")),
        Some(TruePlusMinus::Minus) => Some(String::from_str("-")),
        None => None,
    }
}

/// The name a property key gives.
pub fn prop_key_name(k: &PropKey) -> (s: String)
    ensures
        s@ == key_name(*k),
{
    match k {
        PropKey::Name(s) => s.clone(),
        PropKey::Unknown => String::from_str("unknown"),
    }
}

/// The dotted text of an entity name.
pub fn entity_name_str(e: &EntityName) -> (s: String)
    ensures
        s@ == dotted_name(*e),
    decreases e,
{
    match e {
        EntityName::Ident(id) => id.sym.clone(),
        EntityName::Qualified(left, right) => {
            let l = entity_name_str(left);
            let mut v = chars_of(l.as_str());
            v.push('.');
            let r = chars_of(right.as_str());
            let mut k: usize = 0;
            let ghost v0 = v@;
            while k < r.len()
                invariant
                    k <= r@.len(),
                    v@ == v0 + r@.take(k as int),
                decreases r.len() - k,
            {
                proof {
                    assert(r@.take(k + 1) == r@.take(k as int).push(r@[k as int]));
                }
                v.push(r[k]);
                k = k + 1;
            }
            proof {
                assert(r@.take(r@.len() as int) == r@);
                reveal_strlit(".");
                assert(v@ == dotted_name(**left) + "."@ + right@);
            }
            string_of(v.as_slice())
        },
    }
}

/// Building a type from fields that are in range gives a type in range.
pub proof fn lemma_fields_refs(t: Type, n: nat)
    requires
        match t {
            Type::Union { elements } => ids_below(elements@, n),
            Type::Intersection { types } => ids_below(types@, n),
            Type::Tuple { elements } => ids_below(elements@, n),
            Type::Template { elements } => ids_below(elements@, n),
            Type::Application { base, type_parameters } => id_below(base, n) && ids_below(type_parameters@, n),
            Type::TypeOperator { value, .. } => id_below(value, n),
            Type::Function { return_type, type_parameters, parameters, .. } => id_below(return_type, n)
                && ids_below(type_parameters@, n) && (forall|i: int|
                0 <= i < parameters@.len() ==> id_below(#[trigger] parameters@[i].value, n)),
            Type::Alias { value, type_parameters, .. } => id_below(value, n) && ids_below(type_parameters@, n),
            Type::Interface { extends, type_parameters, properties, .. } => ids_below(extends@, n) && ids_below(
                type_parameters@,
                n,
            ) && (forall|i: int|
                0 <= i < prop_map_entries(properties).len() ==> prop_refs_below(
                    #[trigger] prop_map_entries(properties)[i].1,
                    n,
                )),
            Type::Object { properties, .. } => forall|i: int|
                0 <= i < prop_map_entries(properties).len() ==> prop_refs_below(
                    #[trigger] prop_map_entries(properties)[i].1,
                    n,
                ),
            Type::Array { element_type } => id_below(element_type, n),
            Type::Component { props, type_parameters, ref_type, .. } => (props matches Some(p) ==> id_below(p, n))
                && ids_below(type_parameters@, n) && (ref_type matches Some(r) ==> id_below(r, n)),
            Type::Conditional { check_type, extends_type, true_type, false_type } => id_below(check_type, n)
                && id_below(extends_type, n) && id_below(true_type, n) && id_below(false_type, n),
            Type::IndexedAccess { object_type, index_type } => id_below(object_type, n) && id_below(index_type, n),
            Type::Mapped { type_parameter, type_annotation, .. } => id_below(type_parameter, n) && id_below(
                type_annotation,
                n,
            ),
            Type::TypeParameter { constraint, default, .. } => (constraint matches Some(c) ==> id_below(c, n)) && (
            default matches Some(d) ==> id_below(d, n)),
            Type::Link { value, .. } => id_below(value, n),
            Type::Ref(r) => id_below(r, n),
            _ => true,
        },
    ensures
        refs_below(t, n),
{
    let d = direct_refs(t);
    match t {
        Type::Application { base, type_parameters } => {
            assert forall|i: int| 0 <= i < d.len() implies id_below(#[trigger] d[i], n) by {
                if i > 0 {
                    assert(d[i] == type_parameters@[i - 1]);
                }
            }
        },
        Type::Function { return_type, type_parameters, parameters, .. } => {
            assert forall|i: int| 0 <= i < d.len() implies id_below(#[trigger] d[i], n) by {
                if i > 0 {
                    assert(d[i] == type_parameters@[i - 1]);
                }
            }
            assert forall|i: int| 0 <= i < parameters.len() implies id_below(#[trigger] parameters[i].value, n) by {
                assert(parameters@[i] == parameters[i]);
            }
        },
        Type::Alias { value, type_parameters, .. } => {
            assert forall|i: int| 0 <= i < d.len() implies id_below(#[trigger] d[i], n) by {
                if i > 0 {
                    assert(d[i] == type_parameters@[i - 1]);
                }
            }
        },
        Type::Interface { extends, type_parameters, .. } => {
            assert forall|i: int| 0 <= i < d.len() implies id_below(#[trigger] d[i], n) by {
                if i < extends@.len() {
                    assert(d[i] == extends@[i]);
                } else {
                    assert(d[i] == type_parameters@[i - extends@.len()]);
                }
            }
        },
        Type::Component { props, type_parameters, ref_type, .. } => {
            let k = crate::ty::opt_seq(props).len() as int;
            assert forall|i: int| 0 <= i < d.len() implies id_below(#[trigger] d[i], n) by {
                if i < k {
                    assert(d[i] == props->0);
                } else if i < k + type_parameters@.len() {
                    assert(d[i] == type_parameters@[i - k]);
                } else {
                    assert(d[i] == ref_type->0);
                }
            }
        },
        Type::TypeParameter { constraint, default, .. } => {
            let k = crate::ty::opt_seq(constraint).len() as int;
            assert forall|i: int| 0 <= i < d.len() implies id_below(#[trigger] d[i], n) by {
                if i < k {
                    assert(d[i] == constraint->0);
                } else {
                    assert(d[i] == default->0);
                }
            }
        },
        _ => {},
    }
}

// ---------------------------------------------------------------------------
// Reading.

/// Reads an identifier in a type or value position: a declared binding reads
/// as a `Ref` to its type (and, when that is an import, records the import's
/// module as a dependency); an undeclared one is declared as a plain
/// identifier.
pub fn ident_to_type(id: &BindingId, ctx: &mut Context) -> (r: Type)
    requires
        old(ctx).wf(),
    ensures
        ctx_step(*old(ctx), *final(ctx)),
        forall|i: int| 0 <= i < old(ctx).api.types@.len() ==> final(ctx).api.types@[i] == old(ctx).api.types@[i],
        refs_below(r, final(ctx).api.types@.len()),
        r is Ref,
        match decl_of(old(ctx).decls@, *id) {
            Some(t) => r == Type::Ref(t) && final(ctx).api.types@ == old(ctx).api.types@
                && final(ctx).decls@ == old(ctx).decls@
                && str_set_items(final(ctx).api.dependencies) == match old(ctx).api.types@[t.0 as int] {
                    Type::Reference { specifier, .. } => crate::indexed::items_insert(
                        str_set_items(old(ctx).api.dependencies),
                        specifier@,
                    ),
                    _ => str_set_items(old(ctx).api.dependencies),
                },
            None => r == Type::Ref(decl_of(final(ctx).decls@, *id)->0),
        },
{
    match ctx.lookup(id) {
        Some(decl) => {
            proof {
                lemma_decl_pos(ctx.decls@, *id);
            }
            let dep = match &ctx.api.types[decl.0 as usize] {
                Type::Reference { specifier, .. } => Some(specifier.clone()),
                _ => None,
            };
            if let Some(s) = dep {
                str_set_insert(&mut ctx.api.dependencies, s);
            }
            Type::Ref(decl)
        },
        None => {
            let name = id.sym.clone();
            ctx.add_decl(id.duplicate(), Type::Identifier { name })
        },
    }
}

/// The value of the property called `name` among `properties`, if any.
fn member_value(properties: &IndexMap<String, Property>, name: &str, Ghost(n): Ghost<nat>) -> (r: Option<TypeId>)
    requires
        forall|i: int|
            0 <= i < prop_map_entries(*properties).len() ==> prop_refs_below(
                #[trigger] prop_map_entries(*properties)[i].1,
                n,
            ),
    ensures
        r matches Some(t) ==> id_below(t, n),
        r == (if key_pos(prop_map_entries(*properties), name@) >= 0 {
            Some(prop_map_entries(*properties)[key_pos(prop_map_entries(*properties), name@)].1.value)
        } else {
            None::<TypeId>
        }),
{
    match prop_map_index_of(properties, name) {
        Some(i) => {
            proof {
                lemma_key_pos(prop_map_entries(*properties), name@);
            }
            let (_, p) = prop_map_get_index(properties, i);
            Some(p.value)
        },
        None => None,
    }
}

impl ToType for EntityName {
    /// Reads a name in a type position. A qualified name whose left side is
    /// an interface or object type with a member of that name reads as that
    /// member's type; any other qualified name reads as its dotted identifier
    /// (`JSX.Element`).
    fn to_type(&self, ctx: &mut Context) -> (r: Type)
        ensures
            entity_shape(*self, r),
        decreases self,
    {
        match self {
            EntityName::Ident(id) => ident_to_type(id, ctx),
            EntityName::Qualified(left, right) => {
                let l = left.to_type(ctx);
                let n = Ghost(ctx.api.types@.len());
                let found = match &l {
                    Type::Ref(r) => {
                        proof {
                            assert(direct_refs(l)[0] == *r);
                            assert(refs_below(ctx.api.types@[r.0 as int], n@));
                            crate::ty::lemma_refs_fields(ctx.api.types@[r.0 as int], n@);
                        }
                        match &ctx.api.types[r.0 as usize] {
                            Type::Interface { properties, .. } => member_value(properties, right.as_str(), n),
                            Type::Object { properties, .. } => member_value(properties, right.as_str(), n),
                            _ => None,
                        }
                    },
                    Type::Interface { properties, .. } => {
                        proof {
                            crate::ty::lemma_refs_fields(l, n@);
                        }
                        member_value(properties, right.as_str(), n)
                    },
                    Type::Object { properties, .. } => {
                        proof {
                            crate::ty::lemma_refs_fields(l, n@);
                        }
                        member_value(properties, right.as_str(), n)
                    },
                    _ => None,
                };
                match found {
                    Some(t) => Type::Ref(t),
                    None => Type::Identifier { name: entity_name_str(self) },
                }
            },
        }
    }
}

/// Reads an optional type annotation and stores it; a missing one is `any`.
pub fn optional_type_ann(t: &Option<TsType>, ctx: &mut Context) -> (r: TypeId)
    requires
        old(ctx).wf(),
    ensures
        ctx_step(*old(ctx), *final(ctx)),
        id_below(r, final(ctx).api.types@.len()),
        final(ctx).api.types@.len() < u32::MAX ==> ann_stored(final(ctx).api.types@, r, *t),
    decreases t,
{
    let ty = match t {
        Some(t) => t.to_type(ctx),
        None => Type::Any,
    };
    ctx.add_type(ty)
}

/// Reads an optional boxed type annotation and stores it; a missing one is `any`.
pub fn boxed_type_ann(t: &Option<Box<TsType>>, ctx: &mut Context) -> (r: TypeId)
    requires
        old(ctx).wf(),
    ensures
        ctx_step(*old(ctx), *final(ctx)),
        id_below(r, final(ctx).api.types@.len()),
        final(ctx).api.types@.len() < u32::MAX ==> boxed_ann_stored(final(ctx).api.types@, r, *t),
    decreases t,
{
    let ty = match t {
        Some(t) => t.to_type(ctx),
        None => Type::Any,
    };
    ctx.add_type(ty)
}

/// Reads and stores a list of types, in order.
pub fn types_to_ids(ts: &Vec<TsType>, ctx: &mut Context) -> (r: Vec<TypeId>)
    requires
        old(ctx).wf(),
    ensures
        ctx_step(*old(ctx), *final(ctx)),
        r@.len() == ts@.len(),
        ids_below(r@, final(ctx).api.types@.len()),
    decreases ts,
{
    let mut r: Vec<TypeId> = Vec::new();
    let mut k: usize = 0;
    while k < ts.len()
        invariant
            k <= ts@.len(),
            r@.len() == k,
            ctx_step(*old(ctx), *ctx),
            ids_below(r@, ctx.api.types@.len()),
        decreases ts.len() - k,
    {
        let t = ts[k].to_type(ctx);
        let id = ctx.add_type(t);
        r.push(id);
        k = k + 1;
    }
    r
}

/// Declares type parameters, in order, and gives their ids.
pub fn define_type_params(tps: &Vec<TypeParam>, ctx: &mut Context) -> (r: Vec<TypeId>)
    requires
        old(ctx).wf(),
    ensures
        ctx_step(*old(ctx), *final(ctx)),
        r@.len() == tps@.len(),
        ids_below(r@, final(ctx).api.types@.len()),
    decreases tps,
{
    let mut r: Vec<TypeId> = Vec::new();
    let mut k: usize = 0;
    while k < tps.len()
        invariant
            k <= tps@.len(),
            r@.len() == k,
            ctx_step(*old(ctx), *ctx),
            ids_below(r@, ctx.api.types@.len()),
        decreases tps.len() - k,
    {
        let t = tps[k].to_type(ctx);
        let id = ctx.define(tps[k].name.duplicate(), t);
        r.push(id);
        k = k + 1;
    }
    r
}

/// Reads the parameters of a signature, in order.
pub fn params_to_parameters(ps: &Vec<Pat>, ctx: &mut Context) -> (r: Vec<Parameter>)
    requires
        old(ctx).wf(),
    ensures
        ctx_step(*old(ctx), *final(ctx)),
        params_shape(ps@, r@),
        forall|i: int| 0 <= i < r@.len() ==> id_below(#[trigger] r@[i].value, final(ctx).api.types@.len()),
    decreases ps,
{
    let mut r: Vec<Parameter> = Vec::new();
    let mut k: usize = 0;
    while k < ps.len()
        invariant
            k <= ps@.len(),
            r@.len() == k,
            ctx_step(*old(ctx), *ctx),
            forall|i: int| 0 <= i < k ==> param_shape(#[trigger] ps@[i], r@[i]),
            forall|i: int| 0 <= i < r@.len() ==> id_below(#[trigger] r@[i].value, ctx.api.types@.len()),
        decreases ps.len() - k,
    {
        let p = ps[k].to_parameter(ctx);
        r.push(p);
        k = k + 1;
    }
    r
}

impl ToType for TypeParam {
    /// Reads a type parameter and declares it: the result is a `Ref` to its
    /// `TypeParameter` entry.
    fn to_type(&self, ctx: &mut Context) -> (r: Type)
        ensures
            r is Ref,
        decreases self,
    {
        let constraint = match &self.constraint {
            Some(c) => {
                let t = c.to_type(ctx);
                Some(ctx.add_type(t))
            },
            None => None,
        };
        let default = match &self.default {
            Some(d) => {
                let t = d.to_type(ctx);
                Some(ctx.add_type(t))
            },
            None => None,
        };
        let ty = Type::TypeParameter { name: self.name.sym.clone(), constraint, default };
        proof {
            lemma_fields_refs(ty, ctx.api.types@.len());
        }
        ctx.add_decl(self.name.duplicate(), ty)
    }
}

/// What reads as a type.
pub trait ToType {
    /// Reads this as a type, storing the types it is made of.
    fn to_type(&self, ctx: &mut Context) -> (r: Type)
        requires
            old(ctx).wf(),
        ensures
            ctx_step(*old(ctx), *final(ctx)),
            refs_below(r, final(ctx).api.types@.len()),
    ;
}

/// What reads as a property.
pub trait ToProperty {
    /// Reads this as a property, storing the types it refers to.
    fn to_property(&self, ctx: &mut Context) -> (r: Property)
        requires
            old(ctx).wf(),
        ensures
            ctx_step(*old(ctx), *final(ctx)),
            prop_refs_below(r, final(ctx).api.types@.len()),
    ;
}

/// What reads as a parameter.
pub trait ToParameter {
    /// Reads this as a parameter, storing the types it refers to.
    fn to_parameter(&self, ctx: &mut Context) -> (r: Parameter)
        requires
            old(ctx).wf(),
        ensures
            ctx_step(*old(ctx), *final(ctx)),
            id_below(r.value, final(ctx).api.types@.len()),
    ;
}

impl ToParameter for Pat {
    /// Reads a parameter pattern.
    fn to_parameter(&self, ctx: &mut Context) -> (r: Parameter)
        ensures
            param_shape(*self, r),
        decreases self,
    {
        match self {
            Pat::Ident { name, type_ann, optional } => {
                let value = optional_type_ann(type_ann, ctx);
                Parameter { name: name.clone(), value, optional: *optional, rest: false, description: None }
            },
            Pat::Rest { name, type_ann } => {
                let name = match name {
                    Some(n) => n.clone(),
                    None => String::from_str("unknown"),
                };
                let value = optional_type_ann(type_ann, ctx);
                Parameter { name, value, optional: false, rest: true, description: None }
            },
            Pat::Array { type_ann, optional } => {
                let value = optional_type_ann(type_ann, ctx);
                Parameter { name: String::from_str("unknown"), value, optional: *optional, rest: false, description: None }
            },
            Pat::Object { type_ann, optional } => {
                let value = optional_type_ann(type_ann, ctx);
                Parameter { name: String::from_str("unknown"), value, optional: *optional, rest: false, description: None }
            },
            Pat::Assign(inner) => inner.to_parameter(ctx),
            Pat::Other => {
                let value = ctx.add_type(Type::Any);
                Parameter { name: String::from_str("unknown"), value, optional: false, rest: false, description: None }
            },
        }
    }
}

/// The keys of a map after an insertion.
pub proof fn lemma_keys_insert(e: Seq<(Seq<char>, Property)>, k: Seq<char>, v: Property)
    ensures
        entry_keys(entries_insert(e, k, v)) == (if entry_keys(e).contains(k) {
            entry_keys(e)
        } else {
            entry_keys(e).push(k)
        }),
{
    lemma_key_pos(e, k);
    let ks = entry_keys(e);
    if key_pos(e, k) >= 0 {
        assert(ks[key_pos(e, k)] == k);
        assert(ks.contains(k));
        assert(entry_keys(entries_insert(e, k, v)) =~= ks);
    } else {
        assert(!ks.contains(k)) by {
            if ks.contains(k) {
                let j = choose|j: int| 0 <= j < ks.len() && ks[j] == k;
                assert(e[j].0 == k);
            }
        }
        assert(entry_keys(entries_insert(e, k, v)) =~= ks.push(k));
    }
}

/// Inserting a property in range keeps every property of a map in range.
pub proof fn lemma_insert_in_range(e: Seq<(Seq<char>, Property)>, k: Seq<char>, v: Property, n: nat)
    requires
        forall|i: int| 0 <= i < e.len() ==> prop_refs_below(#[trigger] e[i].1, n),
        prop_refs_below(v, n),
    ensures
        forall|i: int|
            0 <= i < entries_insert(e, k, v).len() ==> prop_refs_below(#[trigger] entries_insert(e, k, v)[i].1, n),
{
    lemma_key_pos(e, k);
}

/// The names of the first `k + 1` members.
proof fn lemma_names_take(ms: Seq<TsTypeElement>, k: int)
    requires
        0 <= k < ms.len(),
    ensures
        element_names(ms.take(k + 1)) == element_names(ms.take(k)).push(element_name(ms[k])),
        keys_inserted(element_names(ms.take(k + 1))) == ({
            let ks = keys_inserted(element_names(ms.take(k)));
            if ks.contains(element_name(ms[k])) {
                ks
            } else {
                ks.push(element_name(ms[k]))
            }
        }),
{
    assert(element_names(ms.take(k + 1)) =~= element_names(ms.take(k)).push(element_name(ms[k])));
    assert(element_names(ms.take(k + 1)).drop_last() =~= element_names(ms.take(k)));
}

/// Reads the members of a type literal or interface body into a property map
/// (a repeated name keeps its first position and takes the last value).
pub fn elements_to_properties(ms: &Vec<TsTypeElement>, ctx: &mut Context) -> (r: IndexMap<String, Property>)
    requires
        old(ctx).wf(),
    ensures
        ctx_step(*old(ctx), *final(ctx)),
        entry_keys(prop_map_entries(r)) == keys_inserted(element_names(ms@)),
        forall|i: int|
            0 <= i < prop_map_entries(r).len() ==> prop_refs_below(
                #[trigger] prop_map_entries(r)[i].1,
                final(ctx).api.types@.len(),
            ),
    decreases ms,
{
    let mut props = prop_map_new();
    let mut k: usize = 0;
    proof {
        assert(element_names(ms@.take(0)) =~= Seq::<Seq<char>>::empty());
        assert(entry_keys(prop_map_entries(props)) =~= Seq::<Seq<char>>::empty());
    }
    while k < ms.len()
        invariant
            k <= ms@.len(),
            ctx_step(*old(ctx), *ctx),
            entry_keys(prop_map_entries(props)) == keys_inserted(element_names(ms@.take(k as int))),
            forall|i: int|
                0 <= i < prop_map_entries(props).len() ==> prop_refs_below(
                    #[trigger] prop_map_entries(props)[i].1,
                    ctx.api.types@.len(),
                ),
        decreases ms.len() - k,
    {
        let p = ms[k].to_property(ctx);
        let ghost e = prop_map_entries(props);
        proof {
            lemma_names_take(ms@, k as int);
            lemma_keys_insert(e, p.name@, p);
            lemma_insert_in_range(e, p.name@, p, ctx.api.types@.len());
        }
        prop_map_insert(&mut props, p.name.clone(), p);
        k = k + 1;
    }
    proof {
        assert(ms@.take(ms@.len() as int) =~= ms@);
    }
    props
}

/// A function type with the given type parameters, parameters and return type.
fn function_type(type_parameters: Vec<TypeId>, params: Vec<Parameter>, return_type: TypeId, Ghost(n): Ghost<nat>) -> (r: Type)
    requires
        id_below(return_type, n),
        ids_below(type_parameters@, n),
        forall|i: int| 0 <= i < params@.len() ==> id_below(#[trigger] params@[i].value, n),
    ensures
        refs_below(r, n),
        r matches Type::Function { parameters, return_type: rt, .. } && parameters@ == params@ && rt == return_type,
{
    let r = Type::Function {
        id: None,
        name: None,
        type_parameters,
        parameters: params,
        return_type,
        description: None,
        return_description: None,
        access: None,
        examples: Vec::new(),
    };
    proof {
        lemma_fields_refs(r, n);
    }
    r
}

/// Gives each parameter the description of its `@param` entry in `docs`.
fn apply_param_docs(params: Vec<Parameter>, docs: &JsDocs, Ghost(n): Ghost<nat>) -> (r: Vec<Parameter>)
    requires
        forall|i: int| 0 <= i < params@.len() ==> id_below(#[trigger] params@[i].value, n),
    ensures
        r@.len() == params@.len(),
        forall|i: int| 0 <= i < r@.len() ==> id_below(#[trigger] r@[i].value, n),
        forall|i: int| 0 <= i < params@.len() ==> crate::ty::param_documented(
            #[trigger] params@[i],
            crate::indexed::str_map_entries(docs.params),
            r@[i],
        ),
{
    let mut params = params;
    let ghost before = params@;
    document_params(&mut params, &docs.params);
    proof {
        assert forall|i: int| 0 <= i < params@.len() implies id_below(#[trigger] params@[i].value, n) by {
            assert(crate::ty::param_documented(before[i], crate::indexed::str_map_entries(docs.params), params@[i]));
        }
    }
    params
}

impl ToProperty for IndexSignature {
    /// Reads an index signature `[key: K]: V` as a property named after its key.
    fn to_property(&self, ctx: &mut Context) -> (r: Property)
        ensures
            index_property(*self, r),
        decreases self,
    {
        let param = self.param.to_parameter(ctx);
        let value = optional_type_ann(&self.type_ann, ctx);
        Property {
            name: param.name,
            index_type: Some(param.value),
            value,
            optional: false,
            is_method: false,
            is_static: false,
            is_abstract: false,
            default: copy_opt(&self.docs.default),
            description: copy_opt(&self.docs.description),
            access: copy_opt(&self.docs.access),
            selector: copy_opt(&self.docs.selector),
        }
    }
}

impl ToProperty for TsTypeElement {
    /// Reads a member of an interface body or type literal.
    fn to_property(&self, ctx: &mut Context) -> (r: Property)
        ensures
            element_property(*self, r),
            r.name@ == element_name(*self),
            final(ctx).api.types@.len() < u32::MAX ==> element_value(*self, r.value, final(ctx).api.types@),
        decreases self,
    {
        proof {
            reveal_strlit("constructor");
            reveal_strlit("");
        }
        match self {
            TsTypeElement::CallSignature { docs, type_params, params, type_ann } => {
                let return_type = optional_type_ann(type_ann, ctx);
                let ps = params_to_parameters(params, ctx);
                let ps = apply_param_docs(ps, docs, Ghost(ctx.api.types@.len()));
                let type_parameters = define_type_params(type_params, ctx);
                let value = function_type(type_parameters, ps, return_type, Ghost(ctx.api.types@.len()));
                let value = ctx.add_type(value);
                Property {
                    name: String::from_str(""),
                    index_type: None,
                    value,
                    optional: false,
                    is_method: true,
                    is_static: false,
                    is_abstract: false,
                    description: copy_opt(&docs.description),
                    access: copy_opt(&docs.access),
                    selector: copy_opt(&docs.selector),
                    default: copy_opt(&docs.default),
                }
            },
            TsTypeElement::ConstructSignature { docs, type_params, params, type_ann } => {
                let return_type = optional_type_ann(type_ann, ctx);
                let ps = params_to_parameters(params, ctx);
                let ps = apply_param_docs(ps, docs, Ghost(ctx.api.types@.len()));
                let type_parameters = define_type_params(type_params, ctx);
                let value = function_type(type_parameters, ps, return_type, Ghost(ctx.api.types@.len()));
                let value = ctx.add_type(value);
                Property {
                    name: String::from_str("constructor"),
                    index_type: None,
                    value,
                    optional: false,
                    is_method: true,
                    is_static: false,
                    is_abstract: false,
                    description: copy_opt(&docs.description),
                    access: copy_opt(&docs.access),
                    selector: copy_opt(&docs.selector),
                    default: copy_opt(&docs.default),
                }
            },
            TsTypeElement::Property { docs, key, type_ann, optional } => {
                let name = prop_key_name(key);
                let value = optional_type_ann(type_ann, ctx);
                Property {
                    name,
                    index_type: None,
                    value,
                    optional: *optional,
                    is_method: false,
                    is_static: false,
                    is_abstract: false,
                    description: copy_opt(&docs.description),
                    access: copy_opt(&docs.access),
                    selector: copy_opt(&docs.selector),
                    default: copy_opt(&docs.default),
                }
            },
            TsTypeElement::Getter { docs, key, type_ann } => {
                let name = prop_key_name(key);
                let value = optional_type_ann(type_ann, ctx);
                Property {
                    name,
                    index_type: None,
                    value,
                    optional: false,
                    is_method: false,
                    is_static: false,
                    is_abstract: false,
                    access: copy_opt(&docs.access),
                    default: copy_opt(&docs.default),
                    description: copy_opt(&docs.description),
                    selector: copy_opt(&docs.selector),
                }
            },
            TsTypeElement::Setter { docs, key, param } => {
                let name = prop_key_name(key);
                let value = param.to_parameter(ctx).value;
                Property {
                    name,
                    index_type: None,
                    value,
                    optional: false,
                    is_method: false,
                    is_static: false,
                    is_abstract: false,
                    access: copy_opt(&docs.access),
                    default: copy_opt(&docs.default),
                    description: copy_opt(&docs.description),
                    selector: copy_opt(&docs.selector),
                }
            },
            TsTypeElement::Method { docs, key, type_params, params, type_ann, optional } => {
                let return_type = optional_type_ann(type_ann, ctx);
                let ps = params_to_parameters(params, ctx);
                let ps = apply_param_docs(ps, docs, Ghost(ctx.api.types@.len()));
                let type_parameters = define_type_params(type_params, ctx);
                let value = function_type(type_parameters, ps, return_type, Ghost(ctx.api.types@.len()));
                let value = ctx.add_type(value);
                Property {
                    name: prop_key_name(key),
                    index_type: None,
                    value,
                    optional: *optional,
                    is_method: true,
                    is_static: false,
                    is_abstract: false,
                    description: copy_opt(&docs.description),
                    access: copy_opt(&docs.access),
                    selector: copy_opt(&docs.selector),
                    default: copy_opt(&docs.default),
                }
            },
            TsTypeElement::Index(sig) => sig.to_property(ctx),
        }
    }
}

/// Reads a template literal type: each piece's text as a string literal type,
/// each type between pieces as itself, in order.
fn template_to_ids(parts: &Vec<TplPart>, ctx: &mut Context) -> (r: Vec<TypeId>)
    requires
        old(ctx).wf(),
    ensures
        ctx_step(*old(ctx), *final(ctx)),
        r@.len() == template_len(parts@),
        ids_below(r@, final(ctx).api.types@.len()),
    decreases parts,
{
    let mut elements: Vec<TypeId> = Vec::new();
    let mut k: usize = 0;
    while k < parts.len()
        invariant
            k <= parts@.len(),
            elements@.len() == template_len(parts@.take(k as int)),
            ctx_step(*old(ctx), *ctx),
            ids_below(elements@, ctx.api.types@.len()),
        decreases parts.len() - k,
    {
        proof {
            assert(parts@.take(k + 1).drop_last() =~= parts@.take(k as int));
        }
        let s = ctx.add_type(Type::String { value: Some(parts[k].raw.clone()) });
        elements.push(s);
        match &parts[k].next {
            Some(t) => {
                let t = t.to_type(ctx);
                let id = ctx.add_type(t);
                elements.push(id);
            },
            None => {},
        }
        k = k + 1;
    }
    proof {
        assert(parts@.take(parts@.len() as int) =~= parts@);
    }
    elements
}

impl ToType for TsType {
    /// Reads a type, storing the types it is made of.
    fn to_type(&self, ctx: &mut Context) -> (r: Type)
        ensures
            ts_type_shape(*self, r),
        decreases self,
    {
        match self {
            TsType::Keyword(k) => keyword_to_type(k),
            TsType::This => Type::This,
            TsType::Fn { type_params, params, return_type } => {
                let type_parameters = define_type_params(type_params, ctx);
                let parameters = params_to_parameters(params, ctx);
                let rt = return_type.to_type(ctx);
                let rt = ctx.add_type(rt);
                let r = Type::Function {
                    id: None,
                    name: None,
                    type_parameters,
                    parameters,
                    return_type: rt,
                    description: None,
                    return_description: None,
                    access: None,
                    examples: Vec::new(),
                };
                proof {
                    lemma_fields_refs(r, ctx.api.types@.len());
                }
                r
            },
            TsType::TypeRef { name, type_args } => {
                let base = name.to_type(ctx);
                match type_args {
                    Some(args) => {
                        let type_parameters = types_to_ids(args, ctx);
                        let b = ctx.add_type(base);
                        let r = Type::Application { base: b, type_parameters };
                        proof {
                            lemma_fields_refs(r, ctx.api.types@.len());
                        }
                        r
                    },
                    None => base,
                }
            },
            TsType::TypeQuery { name, type_args } => {
                let base = match name {
                    Some(n) => n.to_type(ctx),
                    None => Type::Any,
                };
                match type_args {
                    Some(args) => {
                        let type_parameters = types_to_ids(args, ctx);
                        let b = ctx.add_type(base);
                        let r = Type::Application { base: b, type_parameters };
                        proof {
                            lemma_fields_refs(r, ctx.api.types@.len());
                        }
                        r
                    },
                    None => base,
                }
            },
            TsType::TypeLit(members) => {
                let properties = elements_to_properties(members, ctx);
                let r = Type::Object { properties, description: None, access: None };
                proof {
                    lemma_fields_refs(r, ctx.api.types@.len());
                }
                r
            },
            TsType::Array(e) => {
                let t = e.to_type(ctx);
                let element_type = ctx.add_type(t);
                Type::Array { element_type }
            },
            TsType::Tuple(es) => {
                let elements = types_to_ids(es, ctx);
                Type::Tuple { elements }
            },
            TsType::Union(ts) => {
                let elements = types_to_ids(ts, ctx);
                Type::Union { elements }
            },
            TsType::Intersection(ts) => {
                let types = types_to_ids(ts, ctx);
                Type::Intersection { types }
            },
            TsType::Conditional { check, extends, true_type, false_type } => {
                let t = check.to_type(ctx);
                let check_type = ctx.add_type(t);
                let t = extends.to_type(ctx);
                let extends_type = ctx.add_type(t);
                let t = true_type.to_type(ctx);
                let tt = ctx.add_type(t);
                let t = false_type.to_type(ctx);
                let ft = ctx.add_type(t);
                Type::Conditional { check_type, extends_type, true_type: tt, false_type: ft }
            },
            TsType::Paren(inner) => inner.to_type(ctx),
            TsType::Operator { op, type_ann } => {
                let t = type_ann.to_type(ctx);
                let value = ctx.add_type(t);
                Type::TypeOperator { operator: *op, value }
            },
            TsType::IndexedAccess { object, index } => {
                let t = object.to_type(ctx);
                let object_type = ctx.add_type(t);
                let t = index.to_type(ctx);
                let index_type = ctx.add_type(t);
                Type::IndexedAccess { object_type, index_type }
            },
            TsType::Mapped { readonly, type_param, type_ann } => {
                let readonly = readonly_to_text(readonly);
                let t = type_param.to_type(ctx);
                let type_parameter = ctx.define(type_param.name.duplicate(), t);
                let type_annotation = boxed_type_ann(type_ann, ctx);
                Type::Mapped { readonly, type_parameter, type_annotation }
            },
            TsType::NumberLit(bits) => Type::Number { value: Some(*bits) },
            TsType::StringLit(s) => Type::String { value: Some(s.clone()) },
            TsType::BoolLit(b) => Type::Boolean { value: Some(*b) },
            TsType::Template(parts) => {
                let elements = template_to_ids(parts, ctx);
                Type::Template { elements }
            },
            TsType::Unsupported => Type::Any,
        }
    }
}

} // verus!
