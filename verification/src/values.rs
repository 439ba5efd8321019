//! Reading expressions, functions and classes into the module's type arena.
use vstd::prelude::*;
use indexmap::IndexMap;
use crate::ast::{Accessibility, ArrowExpr, CallExpr, Class, ClassExpr, ClassMember, CtorParam, Expr, FnExpr, Function, Lit, MethodKind, Pat, Prop, PropOrSpread, TplExprPart, TsType};
use crate::indexed::{prop_map_entries, prop_map_insert, prop_map_new};
use crate::jsdoc::{DocsView, JsDocs, opt_view};
use crate::parse::{CalleeRef, Context, ReturnShape, decl_of, is_ident_named, refers_to_import, unwrapped};
use crate::reader::{ToParameter, ToProperty, ToType};
use crate::reader::{
    boxed_type_ann, ctx_step, define_type_params, entry_keys, ids_below, index_property, key_name,
    keys_inserted, lemma_fields_refs, lemma_insert_in_range, lemma_keys_insert, optional_type_ann, params_to_parameters,
    pat_name, prop_key_name, ts_type_shape, types_to_ids, stored_at, ann_stored, boxed_ann_stored,
};
use crate::text::{chars_of, string_of};
use crate::ty::{Parameter, Property, Type, TypeId, copy_opt, document_params, id_below, prop_refs_below, refs_below, strs_view};

verus! {

// ---------------------------------------------------------------------------
// What reading gives back.

/// The type of a literal.
pub open spec fn lit_shape(l: Lit, r: Type) -> bool {
    match l {
        Lit::Num(bits) => r == Type::Number { value: Some(bits) },
        Lit::Str(s) => r matches Type::String { value: Some(v) } && v@ == s@,
        Lit::JsxText(s) => r matches Type::String { value: Some(v) } && v@ == s@,
        Lit::Bool(b) => r == Type::Boolean { value: Some(b) },
        Lit::BigInt => r == Type::Any,
        Lit::Null => r == Type::Null,
        Lit::Regex => r == Type::Any,
    }
}

/// The number of arena entries a template literal lists.
pub open spec fn tpl_len(parts: Seq<TplExprPart>) -> nat
    decreases parts.len(),
{
    if parts.len() == 0 {
        0
    } else {
        tpl_len(parts.drop_last()) + if parts.last().next is Some {
            2nat
        } else {
            1nat
        }
    }
}

/// Whether a returned expression makes its function a component (what
/// [`Context::is_jsx_expr`] decides).
pub open spec fn jsx_return(types: Seq<Type>, decls: Seq<(crate::parse::BindingId, TypeId)>, e: ReturnShape) -> bool {
    match e {
        ReturnShape::Jsx => true,
        ReturnShape::Call(c) => refers_to_import(types, decls, unwrapped(c), "react"@, "cloneElement"@)
            || refers_to_import(types, decls, unwrapped(c), "react-dom"@, "createPortal"@),
        ReturnShape::Other => false,
    }
}

/// Which argument of a call holds the component it wraps (what
/// [`Context::call_component_arg`] decides).
pub open spec fn component_arg(types: Seq<Type>, decls: Seq<(crate::parse::BindingId, TypeId)>, c: CalleeRef) -> Option<usize> {
    if refers_to_import(types, decls, unwrapped(c), "react"@, "forwardRef"@) || is_ident_named(
        unwrapped(c),
        "createHideableComponent"@,
    ) {
        Some(0usize)
    } else if is_ident_named(unwrapped(c), "createLeafComponent"@) || is_ident_named(
        unwrapped(c),
        "createBranchComponent"@,
    ) {
        Some(1usize)
    } else {
        None
    }
}

/// The name of the property an object literal member gives.
pub open spec fn prop_name_of(p: Prop) -> Seq<char> {
    match p {
        Prop::Shorthand(n) => n@,
        Prop::KeyValue { key, .. } => key_name(key),
        Prop::Method { key, .. } => key_name(key),
        Prop::Getter { key, .. } => key_name(key),
        Prop::Setter { key } => key_name(key),
        Prop::Assign(n) => n@,
    }
}

/// The names of the properties of an object literal (spreads give none).
pub open spec fn object_prop_names(ps: Seq<PropOrSpread>) -> Seq<Seq<char>>
    decreases ps.len(),
{
    if ps.len() == 0 {
        Seq::empty()
    } else {
        let rest = object_prop_names(ps.drop_last());
        match ps.last() {
            PropOrSpread::Prop(p) => rest.push(prop_name_of(p)),
            PropOrSpread::Spread => rest,
        }
    }
}

/// The name of the property a class member gives, if it gives one.
pub open spec fn member_name(m: ClassMember) -> Option<Seq<char>> {
    match m {
        ClassMember::Prop { key, .. } => Some(key_name(key)),
        ClassMember::Method { key, .. } => Some(key_name(key)),
        ClassMember::Index(sig) => Some(pat_name(sig.param)),
        ClassMember::Constructor { name, .. } => Some(
            match name {
                Some(n) => n@,
                None => "constructor"@,
            },
        ),
        ClassMember::Other => None,
    }
}

/// The names of the properties of a class body.
pub open spec fn class_member_names(ms: Seq<ClassMember>) -> Seq<Seq<char>>
    decreases ms.len(),
{
    if ms.len() == 0 {
        Seq::empty()
    } else {
        let rest = class_member_names(ms.drop_last());
        match member_name(ms.last()) {
            Some(n) => rest.push(n),
            None => rest,
        }
    }
}

/// The access a class member gets: its modifier, else its doc block's `@access`.
pub open spec fn access_of(a: Option<Accessibility>, doc: Option<Seq<char>>) -> Option<Seq<char>> {
    match a {
        Some(Accessibility::Public) => Some("public"@),
        Some(Accessibility::Protected) => Some("protected"@),
        Some(Accessibility::Private) => Some("private"@),
        None => doc,
    }
}

/// The description, selector and default of a property come from a doc block.
pub open spec fn docs_notes(p: Property, d: DocsView) -> bool {
    &&& opt_view(p.description) == d.description
    &&& opt_view(p.selector) == d.selector
    &&& opt_view(p.default) == d.default
}

/// The property read from a class member, up to its types.
pub open spec fn class_member_property(m: ClassMember, p: Property) -> bool {
    match m {
        ClassMember::Prop { docs, key, is_optional, is_static, is_abstract, accessibility, .. } => p.name@ == key_name(
            key,
        ) && p.index_type is None && p.optional == is_optional && !p.is_method && p.is_static == is_static
            && p.is_abstract == is_abstract && opt_view(p.access) == access_of(accessibility, docs@.access)
            && docs_notes(p, docs@),
        ClassMember::Method { docs, key, kind, is_optional, is_static, is_abstract, accessibility, .. } => p.name@
            == key_name(key) && p.index_type is None && p.optional == (!(kind is Setter) && is_optional)
            && p.is_method == (kind is Method) && p.is_static == is_static && p.is_abstract == is_abstract
            && opt_view(p.access) == access_of(accessibility, docs@.access) && docs_notes(p, docs@),
        ClassMember::Index(sig) => index_property(sig, p),
        ClassMember::Constructor { docs, is_optional, accessibility, .. } => p.name@ == member_name(m)->0
            && p.index_type is None && p.optional == is_optional && p.is_method && !p.is_static && !p.is_abstract
            && opt_view(p.access) == access_of(accessibility, docs@.access) && docs_notes(p, docs@),
        ClassMember::Other => false,
    }
}

/// The property read from an object literal member, up to its type.
pub open spec fn object_property(m: Prop, p: Property) -> bool {
    &&& p.name@ == prop_name_of(m)
    &&& p.index_type is None
    &&& !p.optional && !p.is_static && !p.is_abstract
    &&& p.is_method == (m is Method)
    &&& p.description is None && p.access is None && p.selector is None && p.default is None
}

/// The entry an object literal member gives its property: what its value
/// (or function, or getter annotation) reads as; `any` for the others.
pub open spec fn object_value(m: Prop, v: TypeId, types: Seq<Type>) -> bool {
    match m {
        Prop::KeyValue { value, .. } => exists|t: Type| #[trigger] expr_shape(*value, t) && stored_at(types, v, t),
        Prop::Method { function, .. } => exists|t: Type| #[trigger] function_shape(function, t) && stored_at(types, v, t),
        Prop::Getter { type_ann, .. } => ann_stored(types, v, type_ann),
        _ => types[v.0 as int] == Type::Any,
    }
}

/// The type annotation of the first parameter of a setter, if any.
pub open spec fn setter_ann(params: Seq<Pat>) -> Option<TsType> {
    if params.len() > 0 {
        match params[0] {
            Pat::Ident { type_ann: Some(t), .. } => Some(t),
            _ => None,
        }
    } else {
        None
    }
}

/// The entry a class member gives its property: what its annotation (a
/// getter's return type, a setter's parameter type) reads as; for a method,
/// its function type with the method's description moved to the property;
/// for a constructor, a function type with its parameters.
pub open spec fn class_member_value(m: ClassMember, v: TypeId, types: Seq<Type>) -> bool {
    match m {
        ClassMember::Prop { type_ann, .. } => ann_stored(types, v, type_ann),
        ClassMember::Method { kind, function, .. } => match kind {
            MethodKind::Getter => boxed_ann_stored(types, v, function.return_type),
            MethodKind::Setter => ann_stored(types, v, setter_ann(function.params@)),
            MethodKind::Method => match types[v.0 as int] {
                Type::Function { description, parameters, .. } => description is None && parameters@.len()
                    == function.params@.len(),
                Type::Component { .. } => true,
                _ => false,
            },
        },
        ClassMember::Constructor { params, .. } => types[v.0 as int] matches Type::Function { parameters, .. }
            && parameters@.len() == params@.len(),
        _ => true,
    }
}

/// Each parameter with an `@param` entry in `params` has its text as
/// description.
pub open spec fn params_doc_from(ps: Seq<Parameter>, params: Seq<(Seq<char>, Seq<char>)>) -> bool {
    forall|i: int|
        0 <= i < ps.len() && crate::indexed::key_pos(params, (#[trigger] ps[i]).name@) >= 0 ==> crate::ty::opt_is(
            ps[i].description,
            params[crate::indexed::key_pos(params, ps[i].name@)].1,
        )
}

/// The type read from a function body, up to whether it is a component.
pub open spec fn function_shape(f: Function, r: Type) -> bool {
    match r {
        Type::Function { id, name, parameters, type_parameters, description, return_description, access, examples, .. } =>
            id is None && name is None && parameters@.len() == f.params@.len() && type_parameters@.len()
                == f.type_params@.len() && opt_view(description) == f.docs@.description && opt_view(return_description)
                == f.docs@.return_description && opt_view(access) == f.docs@.access && strs_view(examples)
                == f.docs@.examples,
        Type::Component { id, name, type_parameters, description, access, examples, .. } => id is None && name is None
            && type_parameters@.len() == f.type_params@.len() && opt_view(description) == f.docs@.description
            && opt_view(access) == f.docs@.access && strs_view(examples) == f.docs@.examples,
        _ => false,
    }
}

/// The type read from an arrow function, up to whether it is a component.
pub open spec fn arrow_shape(a: ArrowExpr, r: Type) -> bool {
    match r {
        Type::Function { id, name, parameters, type_parameters, description, return_description, access, examples, .. } =>
            id is None && name is None && parameters@.len() == a.params@.len() && type_parameters@.len()
                == a.type_params@.len() && description is None && return_description is None && access is None
                && examples@.len() == 0,
        Type::Component { id, name, type_parameters, description, access, examples, .. } => id is None && name is None
            && type_parameters@.len() == a.type_params@.len() && description is None && access is None && examples@.len()
            == 0,
        _ => false,
    }
}

/// The type read from a class body.
pub open spec fn class_shape(c: Class, r: Type) -> bool {
    match r {
        Type::Interface { id, name, extends, properties, type_parameters, description, access } => id@ == ""@ && name@
            == ""@ && extends@.len() == (if c.super_class is Some {
            1nat
        } else {
            0nat
        }) && type_parameters@.len() == c.type_params@.len() && opt_view(description) == c.docs@.description
            && opt_view(access) == c.docs@.access && entry_keys(prop_map_entries(properties)) == keys_inserted(
            class_member_names(c.body@),
        ),
        _ => false,
    }
}

/// The type read from an expression, up to what its parts read as.
pub open spec fn expr_shape(e: Expr, r: Type) -> bool
    decreases e,
{
    match e {
        Expr::Lit(l) => lit_shape(l, r),
        Expr::Tpl(parts) => r matches Type::Template { elements } && elements@.len() == tpl_len(parts@),
        Expr::Paren(inner) => expr_shape(*inner, r),
        Expr::TypeCast(t) => ts_type_shape(t, r) || r is Component,
        Expr::Satisfies(t) => ts_type_shape(t, r),
        Expr::This => r == Type::This,
        Expr::Fn(f) => match f.ident {
            Some(_) => r is Ref,
            None => r is Function || r is Component,
        },
        Expr::Arrow(a) => arrow_shape(a, r),
        Expr::Class(c) => match c.ident {
            Some(_) => r is Ref,
            None => r is Interface,
        },
        Expr::Call(c) => c.callee is None ==> r == Type::Any,
        Expr::Ident(_) => r is Ref,
        Expr::Object(props) => match r {
            Type::Interface { id, name, extends, properties, type_parameters, description, access } => id@ == ""@
                && name@ == ""@ && extends@.len() == 0 && type_parameters@.len() == 0 && description is None
                && access is None && entry_keys(prop_map_entries(properties)) == keys_inserted(object_prop_names(props@)),
            _ => false,
        },
        Expr::Member { .. } => r == Type::Any,
        Expr::Other => r == Type::Any,
    }
}

/// The keys after inserting one more name.
pub proof fn lemma_keys_push(names: Seq<Seq<char>>, n: Seq<char>)
    ensures
        keys_inserted(names.push(n)) == ({
            let ks = keys_inserted(names);
            if ks.contains(n) {
                ks
            } else {
                ks.push(n)
            }
        }),
{
    assert(names.push(n).drop_last() =~= names);
}

// ---------------------------------------------------------------------------
// Small pieces.

/// `a`, then `sep`, then `b`.
pub fn join_with(a: &str, sep: char, b: &str) -> (r: String)
    ensures
        r@ == a@ + seq![sep] + b@,
{
    let mut v = chars_of(a);
    v.push(sep);
    let w = chars_of(b);
    let ghost v0 = v@;
    let mut k: usize = 0;
    while k < w.len()
        invariant
            k <= w@.len(),
            v@ == v0 + w@.take(k as int),
        decreases w.len() - k,
    {
        proof {
            assert(w@.take(k + 1) == w@.take(k as int).push(w@[k as int]));
        }
        v.push(w[k]);
        k = k + 1;
    }
    proof {
        assert(w@.take(w@.len() as int) == w@);
    }
    string_of(v.as_slice())
}

/// The id of a top-level declaration: `<path>:<name>`.
pub open spec fn qualified(path: Seq<char>, name: Seq<char>) -> Seq<char> {
    path + seq![':'] + name
}

/// The id of a top-level declaration of the module being read.
pub fn qualified_id(ctx: &Context, name: &String) -> (r: String)
    ensures
        r@ == qualified(ctx.path@, name@),
{
    join_with(ctx.path.as_str(), ':', name.as_str())
}

/// The access a class member gets: its modifier, else its doc block's `@access`.
pub fn convert_access(a: &Option<Accessibility>, doc: &Option<String>) -> (r: Option<String>)
    ensures
        opt_view(r) == access_of(*a, opt_view(*doc)),
{
    match a {
        Some(Accessibility::Public) => Some(String::from_str("public")),
        Some(Accessibility::Protected) => Some(String::from_str("protected")),
        Some(Accessibility::Private) => Some(String::from_str("private")),
        None => copy_opt(doc),
    }
}

/// A copy of a list of strings.
pub fn copy_strs(v: &Vec<String>) -> (r: Vec<String>)
    ensures
        r@ == v@,
{
    let mut r: Vec<String> = Vec::new();
    let mut k: usize = 0;
    while k < v.len()
        invariant
            k <= v@.len(),
            r@ == v@.take(k as int),
        decreases v.len() - k,
    {
        proof {
            assert(v@.take(k + 1) == v@.take(k as int).push(v@[k as int]));
        }
        r.push(v[k].clone());
        k = k + 1;
    }
    proof {
        assert(v@.take(v@.len() as int) == v@);
    }
    r
}

/// The type of a literal.
pub fn lit_to_type(l: &Lit) -> (r: Type)
    ensures
        lit_shape(*l, r),
        refs_below(r, 0),
{
    match l {
        Lit::Num(bits) => Type::Number { value: Some(*bits) },
        Lit::Str(s) => Type::String { value: Some(s.clone()) },
        Lit::JsxText(s) => Type::String { value: Some(s.clone()) },
        Lit::Bool(b) => Type::Boolean { value: Some(*b) },
        Lit::BigInt => Type::Any,
        Lit::Null => Type::Null,
        Lit::Regex => Type::Any,
    }
}

/// Setting an id or a name changes no type id.
pub proof fn lemma_rename_keeps_refs(t: Type, id: String, name: String, n: nat)
    requires
        refs_below(t, n),
    ensures
        refs_below(crate::ty::spec_with_id(t, id), n),
        refs_below(crate::ty::spec_with_name(t, name), n),
        refs_below(crate::ty::spec_with_name(crate::ty::spec_with_id(t, id), name), n),
        (t is Ref) == (crate::ty::spec_with_name(crate::ty::spec_with_id(t, id), name) is Ref),
{
    let a = crate::ty::spec_with_id(t, id);
    let b = crate::ty::spec_with_name(t, name);
    let c = crate::ty::spec_with_name(a, name);
    assert(crate::ty::direct_refs(a) == crate::ty::direct_refs(t));
    assert(crate::ty::direct_refs(b) == crate::ty::direct_refs(t));
    assert(crate::ty::direct_refs(c) == crate::ty::direct_refs(t));
}

// ---------------------------------------------------------------------------
// Reading.

impl Context {
    /// Whether any of the returned expressions makes its function a component.
    pub fn returns_jsx(&self, shapes: &Vec<ReturnShape>) -> (r: bool)
        requires
            self.wf(),
        ensures
            r == exists|i: int| 0 <= i < shapes@.len() && jsx_return(self.api.types@, self.decls@, #[trigger] shapes@[i]),
    {
        let mut k: usize = 0;
        while k < shapes.len()
            invariant
                k <= shapes@.len(),
                self.wf(),
                forall|i: int| 0 <= i < k ==> !jsx_return(self.api.types@, self.decls@, #[trigger] shapes@[i]),
            decreases shapes.len() - k,
        {
            if self.is_jsx_expr(&shapes[k]) {
                return true;
            }
            k = k + 1;
        }
        false
    }
}

/// Reads a template literal: each piece's text as a string literal type, each
/// expression between pieces as itself, in order.
fn tpl_to_ids(parts: &Vec<TplExprPart>, ctx: &mut Context) -> (r: Vec<TypeId>)
    requires
        old(ctx).wf(),
    ensures
        ctx_step(*old(ctx), *final(ctx)),
        r@.len() == tpl_len(parts@),
        ids_below(r@, final(ctx).api.types@.len()),
    decreases parts,
{
    let mut elements: Vec<TypeId> = Vec::new();
    let mut k: usize = 0;
    while k < parts.len()
        invariant
            k <= parts@.len(),
            elements@.len() == tpl_len(parts@.take(k as int)),
            ctx_step(*old(ctx), *ctx),
            ids_below(elements@, ctx.api.types@.len()),
        decreases parts.len() - k,
    {
        proof {
            assert(parts@.take(k + 1).drop_last() =~= parts@.take(k as int));
        }
        let s = ctx.add_type(Type::String { value: Some(parts[k].raw.clone()) });
        elements.push(s);
        match &parts[k].next {
            Some(e) => {
                let t = e.to_type(ctx);
                let id = ctx.add_type(t);
                elements.push(id);
            },
            None => {},
        }
        k = k + 1;
    }
    proof {
        assert(parts@.take(parts@.len() as int) =~= parts@);
    }
    elements
}

/// Reads the members of an object literal (spreads are skipped).
fn object_props(ps: &Vec<PropOrSpread>, ctx: &mut Context) -> (r: IndexMap<String, Property>)
    requires
        old(ctx).wf(),
    ensures
        ctx_step(*old(ctx), *final(ctx)),
        entry_keys(prop_map_entries(r)) == keys_inserted(object_prop_names(ps@)),
        forall|i: int|
            0 <= i < prop_map_entries(r).len() ==> prop_refs_below(
                #[trigger] prop_map_entries(r)[i].1,
                final(ctx).api.types@.len(),
            ),
    decreases ps,
{
    let mut props = prop_map_new();
    let mut k: usize = 0;
    proof {
        assert(object_prop_names(ps@.take(0)) =~= Seq::<Seq<char>>::empty());
        assert(entry_keys(prop_map_entries(props)) =~= Seq::<Seq<char>>::empty());
    }
    while k < ps.len()
        invariant
            k <= ps@.len(),
            ctx_step(*old(ctx), *ctx),
            entry_keys(prop_map_entries(props)) == keys_inserted(object_prop_names(ps@.take(k as int))),
            forall|i: int|
                0 <= i < prop_map_entries(props).len() ==> prop_refs_below(
                    #[trigger] prop_map_entries(props)[i].1,
                    ctx.api.types@.len(),
                ),
        decreases ps.len() - k,
    {
        proof {
            assert(ps@.take(k + 1).drop_last() =~= ps@.take(k as int));
        }
        match &ps[k] {
            PropOrSpread::Prop(p) => {
                let p = p.to_property(ctx);
                let ghost e = prop_map_entries(props);
                proof {
                    lemma_keys_push(object_prop_names(ps@.take(k as int)), p.name@);
                    lemma_keys_insert(e, p.name@, p);
                    lemma_insert_in_range(e, p.name@, p, ctx.api.types@.len());
                }
                prop_map_insert(&mut props, p.name.clone(), p);
            },
            PropOrSpread::Spread => {},
        }
        k = k + 1;
    }
    proof {
        assert(ps@.take(ps@.len() as int) =~= ps@);
    }
    props
}

impl ToProperty for Prop {
    /// Reads a member of an object literal.
    fn to_property(&self, ctx: &mut Context) -> (r: Property)
        ensures
            object_property(*self, r),
            final(ctx).api.types@.len() < u32::MAX ==> object_value(*self, r.value, final(ctx).api.types@),
        decreases self,
    {
        match self {
            Prop::Shorthand(n) => {
                let value = ctx.add_type(Type::Any);
                Property {
                    name: n.clone(),
                    index_type: None,
                    value,
                    optional: false,
                    is_method: false,
                    is_static: false,
                    is_abstract: false,
                    description: None,
                    access: None,
                    selector: None,
                    default: None,
                }
            },
            Prop::KeyValue { key, value } => {
                let t = value.to_type(ctx);
                let name = prop_key_name(key);
                let value = ctx.add_type(t);
                Property {
                    name,
                    index_type: None,
                    value,
                    optional: false,
                    is_method: false,
                    is_static: false,
                    is_abstract: false,
                    description: None,
                    access: None,
                    selector: None,
                    default: None,
                }
            },
            Prop::Method { key, function } => {
                let f = function.to_type(ctx);
                let name = prop_key_name(key);
                let value = ctx.add_type(f);
                Property {
                    name,
                    index_type: None,
                    value,
                    optional: false,
                    is_method: true,
                    is_static: false,
                    is_abstract: false,
                    description: None,
                    access: None,
                    selector: None,
                    default: None,
                }
            },
            Prop::Getter { key, type_ann } => {
                let name = prop_key_name(key);
                let value = optional_type_ann(type_ann, ctx);
                Property {
                    name,
                    index_type: None,
                    value,
                    optional: false,
                    is_method: false,
                    is_static: false,
                    is_abstract: false,
                    description: None,
                    access: None,
                    selector: None,
                    default: None,
                }
            },
            Prop::Setter { key } => {
                let value = ctx.add_type(Type::Any);
                Property {
                    name: prop_key_name(key),
                    index_type: None,
                    value,
                    optional: false,
                    is_method: false,
                    is_static: false,
                    is_abstract: false,
                    description: None,
                    access: None,
                    selector: None,
                    default: None,
                }
            },
            Prop::Assign(n) => {
                let value = ctx.add_type(Type::Any);
                Property {
                    name: n.clone(),
                    index_type: None,
                    value,
                    optional: false,
                    is_method: false,
                    is_static: false,
                    is_abstract: false,
                    description: None,
                    access: None,
                    selector: None,
                    default: None,
                }
            },
        }
    }
}

/// Gives each parameter the description of its `@param` entry in `docs`.
fn with_param_docs(params: Vec<Parameter>, docs: &JsDocs, Ghost(n): Ghost<nat>) -> (r: Vec<Parameter>)
    requires
        forall|i: int| 0 <= i < params@.len() ==> id_below(#[trigger] params@[i].value, n),
    ensures
        r@.len() == params@.len(),
        forall|i: int| 0 <= i < r@.len() ==> id_below(#[trigger] r@[i].value, n),
        forall|i: int| 0 <= i < params@.len() ==> crate::ty::param_documented(
            #[trigger] params@[i],
            crate::indexed::str_map_entries(docs.params),
            r@[i],
        ),
{
    let mut params = params;
    let ghost before = params@;
    document_params(&mut params, &docs.params);
    proof {
        assert forall|i: int| 0 <= i < params@.len() implies id_below(#[trigger] params@[i].value, n) by {
            assert(crate::ty::param_documented(before[i], crate::indexed::str_map_entries(docs.params), params@[i]));
        }
    }
    params
}

impl ToType for Function {
    /// Reads a function: its parameters (with their `@param` descriptions),
    /// return type and type parameters, and its doc block. It is a component
    /// when its return type is `JSX.Element` (or a union holding it) or when
    /// one of its `return`s gives JSX (or a React `cloneElement` /
    /// `createPortal` call).
    fn to_type(&self, ctx: &mut Context) -> (r: Type)
        ensures
            function_shape(*self, r),
            r matches Type::Function { parameters, .. } ==> params_doc_from(parameters@, self.docs@.params),
        decreases self,
    {
        let parameters = params_to_parameters(&self.params, ctx);
        let ghost p0 = parameters@;
        let parameters = with_param_docs(parameters, &self.docs, Ghost(ctx.api.types@.len()));
        proof {
            assert forall|i: int|
                0 <= i < parameters@.len() && crate::indexed::key_pos(self.docs@.params, (#[trigger] parameters@[i]).name@)
                    >= 0 implies crate::ty::opt_is(
                parameters@[i].description,
                self.docs@.params[crate::indexed::key_pos(self.docs@.params, parameters@[i].name@)].1,
            ) by {
                assert(crate::ty::param_documented(p0[i], crate::indexed::str_map_entries(self.docs.params), parameters@[i]));
            }
        }
        let return_type = match &self.return_type {
            Some(t) => t.to_type(ctx),
            None => Type::Any,
        };
        let mut is_component = return_type.is_jsx(ctx);
        if !is_component {
            is_component = ctx.returns_jsx(&self.returned);
        }
        let type_parameters = define_type_params(&self.type_params, ctx);
        let rt = ctx.add_type(return_type);
        let f = Type::Function {
            id: None,
            name: None,
            type_parameters,
            parameters,
            return_type: rt,
            description: copy_opt(&self.docs.description),
            return_description: copy_opt(&self.docs.return_description),
            access: copy_opt(&self.docs.access),
            examples: copy_strs(&self.docs.examples),
        };
        proof {
            lemma_fields_refs(f, ctx.api.types@.len());
        }
        if is_component {
            proof {
                crate::parse::lemma_component_refs(f, ctx.api.types@.len());
            }
            f.to_component()
        } else {
            f
        }
    }
}

impl ToType for ArrowExpr {
    /// Reads an arrow function (a component when its return type or what it
    /// gives back is JSX, as for [`Function::to_type`]).
    fn to_type(&self, ctx: &mut Context) -> (r: Type)
        ensures
            arrow_shape(*self, r),
        decreases self,
    {
        let return_type = match &self.return_type {
            Some(t) => t.to_type(ctx),
            None => Type::Any,
        };
        let mut is_component = return_type.is_jsx(ctx);
        if !is_component {
            is_component = ctx.returns_jsx(&self.returned);
        }
        let type_parameters = define_type_params(&self.type_params, ctx);
        let parameters = params_to_parameters(&self.params, ctx);
        let rt = ctx.add_type(return_type);
        let f = Type::Function {
            id: None,
            name: None,
            type_parameters,
            parameters,
            return_type: rt,
            description: None,
            return_description: None,
            access: None,
            examples: Vec::new(),
        };
        proof {
            lemma_fields_refs(f, ctx.api.types@.len());
        }
        if is_component {
            proof {
                crate::parse::lemma_component_refs(f, ctx.api.types@.len());
            }
            f.to_component()
        } else {
            f
        }
    }
}

impl ToType for FnExpr {
    /// Reads a function expression. A named one is declared under its name
    /// (with the id `<path>:<name>`) and reads as a `Ref` to it.
    fn to_type(&self, ctx: &mut Context) -> (r: Type)
        ensures
            match self.ident {
                Some(id) => r == Type::Ref(decl_of(final(ctx).decls@, id)->0),
                None => r is Function || r is Component,
            },
        decreases self,
    {
        let mut f = self.function.to_type(ctx);
        let ghost f0 = f;
        match &self.ident {
            Some(ident) => {
                let id = qualified_id(ctx, &ident.sym);
                let name = ident.sym.clone();
                proof {
                    lemma_rename_keeps_refs(f0, id, name, ctx.api.types@.len());
                }
                f.set_id(id);
                f.set_name(name);
                let ghost f1 = f;
                let docs = self.docs.duplicate();
                let ghost d = docs@;
                f.add_docs(docs, None);
                proof {
                    crate::parse::lemma_docs_keep_refs(f1, d, None, f, ctx.api.types@.len());
                }
                proof {
                    assert(!(f is Ref));
                }
                ctx.add_decl(ident.duplicate(), f)
            },
            None => {
                let docs = self.docs.duplicate();
                let ghost d = docs@;
                f.add_docs(docs, None);
                proof {
                    crate::parse::lemma_docs_keep_refs(f0, d, None, f, ctx.api.types@.len());
                }
                f
            },
        }
    }
}

impl ToType for CallExpr {
    /// Reads a call: a call of a component wrapper (`forwardRef`,
    /// `createHideableComponent`, `createLeafComponent`,
    /// `createBranchComponent`) reads as the argument holding the component;
    /// any other call (or a wrapper call without that argument) as `any`,
    /// reading nothing.
    fn to_type(&self, ctx: &mut Context) -> (r: Type)
        ensures
            match self.callee {
                Some(c) => match component_arg(old(ctx).api.types@, old(ctx).decls@, c) {
                    Some(i) => if i < self.args@.len() {
                        expr_shape(self.args@[i as int], r)
                    } else {
                        r == Type::Any && *final(ctx) == *old(ctx)
                    },
                    None => r == Type::Any && *final(ctx) == *old(ctx),
                },
                None => r == Type::Any && *final(ctx) == *old(ctx),
            },
        decreases self,
    {
        match &self.callee {
            Some(c) => match ctx.call_component_arg(c) {
                Some(i) => {
                    if i < self.args.len() {
                        self.args[i].to_type(ctx)
                    } else {
                        Type::Any
                    }
                },
                None => Type::Any,
            },
            None => Type::Any,
        }
    }
}

impl ClassMember {
    /// Reads a member of a class body; members other than properties,
    /// methods, index signatures and constructors give nothing.
    pub fn to_property(&self, ctx: &mut Context) -> (r: Option<Property>)
        requires
            old(ctx).wf(),
        ensures
            ctx_step(*old(ctx), *final(ctx)),
            match r {
                Some(p) => prop_refs_below(p, final(ctx).api.types@.len()) && class_member_property(*self, p)
                    && member_name(*self) == Some(p.name@) && (final(ctx).api.types@.len() < u32::MAX
                    ==> class_member_value(*self, p.value, final(ctx).api.types@)),
                None => member_name(*self) is None,
            },
        decreases self,
    {
        proof {
            reveal_strlit("constructor");
        }
        match self {
            ClassMember::Prop { docs, key, type_ann, is_optional, is_static, is_abstract, accessibility } => {
                let name = prop_key_name(key);
                let value = optional_type_ann(type_ann, ctx);
                Some(
                    Property {
                        name,
                        index_type: None,
                        value,
                        optional: *is_optional,
                        is_method: false,
                        is_static: *is_static,
                        is_abstract: *is_abstract,
                        access: convert_access(accessibility, &docs.access),
                        default: copy_opt(&docs.default),
                        description: copy_opt(&docs.description),
                        selector: copy_opt(&docs.selector),
                    },
                )
            },
            ClassMember::Method { docs, key, kind, function, is_optional, is_static, is_abstract, accessibility } => {
                let name = prop_key_name(key);
                let access = convert_access(accessibility, &docs.access);
                match kind {
                    MethodKind::Getter => {
                        let value = boxed_type_ann(&function.return_type, ctx);
                        Some(
                            Property {
                                name,
                                index_type: None,
                                value,
                                optional: *is_optional,
                                is_method: false,
                                is_static: *is_static,
                                is_abstract: *is_abstract,
                                access,
                                default: copy_opt(&docs.default),
                                description: copy_opt(&docs.description),
                                selector: copy_opt(&docs.selector),
                            },
                        )
                    },
                    MethodKind::Setter => {
                        let t = if function.params.len() > 0 {
                            match &function.params[0] {
                                Pat::Ident { type_ann: Some(t), .. } => t.to_type(ctx),
                                _ => Type::Any,
                            }
                        } else {
                            Type::Any
                        };
                        let value = ctx.add_type(t);
                        Some(
                            Property {
                                name,
                                index_type: None,
                                value,
                                optional: false,
                                is_method: false,
                                is_static: *is_static,
                                is_abstract: *is_abstract,
                                access,
                                default: copy_opt(&docs.default),
                                description: copy_opt(&docs.description),
                                selector: copy_opt(&docs.selector),
                            },
                        )
                    },
                    MethodKind::Method => {
                        let mut f = function.to_type(ctx);
                        let ghost f0 = f;
                        // The method's description lives on the property, not on
                        // the function value.
                        if let Type::Function { description, .. } = &mut f {
                            *description = None;
                        }
                        proof {
                            crate::parse::lemma_description_keeps_refs(f0, None, ctx.api.types@.len());
                            if f0 is Function {
                                assert(f == crate::ty::spec_with_description(f0, None));
                            }
                        }
                        let value = ctx.add_type(f);
                        Some(
                            Property {
                                name,
                                index_type: None,
                                value,
                                optional: *is_optional,
                                is_method: true,
                                is_static: *is_static,
                                is_abstract: *is_abstract,
                                access,
                                default: copy_opt(&docs.default),
                                description: copy_opt(&docs.description),
                                selector: copy_opt(&docs.selector),
                            },
                        )
                    },
                }
            },
            ClassMember::Index(sig) => Some(sig.to_property(ctx)),
            ClassMember::Constructor { docs, name, params, is_optional, accessibility } => {
                let name = match name {
                    Some(n) => n.clone(),
                    None => String::from_str("constructor"),
                };
                let return_type = ctx.add_type(Type::Void);
                let mut parameters: Vec<Parameter> = Vec::new();
                let mut k: usize = 0;
                while k < params.len()
                    invariant
                        k <= params@.len(),
                        parameters@.len() == k,
                        ctx_step(*old(ctx), *ctx),
                        id_below(return_type, ctx.api.types@.len()),
                        forall|i: int|
                            0 <= i < parameters@.len() ==> id_below(#[trigger] parameters@[i].value, ctx.api.types@.len()),
                    decreases params.len() - k,
                {
                    let p = match &params[k] {
                        CtorParam::Param(p) => p.to_parameter(ctx),
                        CtorParam::PropIdent(n) => {
                            let value = ctx.add_type(Type::Any);
                            Parameter { name: n.clone(), value, optional: false, rest: false, description: None }
                        },
                    };
                    parameters.push(p);
                    k = k + 1;
                }
                let parameters = with_param_docs(parameters, docs, Ghost(ctx.api.types@.len()));
                let value = Type::Function {
                    id: None,
                    name: None,
                    type_parameters: Vec::new(),
                    parameters,
                    return_type,
                    description: None,
                    return_description: None,
                    access: None,
                    examples: Vec::new(),
                };
                proof {
                    lemma_fields_refs(value, ctx.api.types@.len());
                }
                let value = ctx.add_type(value);
                Some(
                    Property {
                        name,
                        index_type: None,
                        value,
                        optional: *is_optional,
                        is_method: true,
                        is_static: false,
                        is_abstract: false,
                        access: convert_access(accessibility, &docs.access),
                        default: copy_opt(&docs.default),
                        description: copy_opt(&docs.description),
                        selector: copy_opt(&docs.selector),
                    },
                )
            },
            ClassMember::Other => None,
        }
    }
}

/// Reads the members of a class body into a property map.
fn class_props(ms: &Vec<ClassMember>, ctx: &mut Context) -> (r: IndexMap<String, Property>)
    requires
        old(ctx).wf(),
    ensures
        ctx_step(*old(ctx), *final(ctx)),
        entry_keys(prop_map_entries(r)) == keys_inserted(class_member_names(ms@)),
        forall|i: int|
            0 <= i < prop_map_entries(r).len() ==> prop_refs_below(
                #[trigger] prop_map_entries(r)[i].1,
                final(ctx).api.types@.len(),
            ),
    decreases ms,
{
    let mut props = prop_map_new();
    let mut k: usize = 0;
    proof {
        assert(class_member_names(ms@.take(0)) =~= Seq::<Seq<char>>::empty());
        assert(entry_keys(prop_map_entries(props)) =~= Seq::<Seq<char>>::empty());
    }
    while k < ms.len()
        invariant
            k <= ms@.len(),
            ctx_step(*old(ctx), *ctx),
            entry_keys(prop_map_entries(props)) == keys_inserted(class_member_names(ms@.take(k as int))),
            forall|i: int|
                0 <= i < prop_map_entries(props).len() ==> prop_refs_below(
                    #[trigger] prop_map_entries(props)[i].1,
                    ctx.api.types@.len(),
                ),
        decreases ms.len() - k,
    {
        proof {
            assert(ms@.take(k + 1).drop_last() =~= ms@.take(k as int));
        }
        match ms[k].to_property(ctx) {
            Some(p) => {
                let ghost e = prop_map_entries(props);
                proof {
                    lemma_keys_push(class_member_names(ms@.take(k as int)), p.name@);
                    lemma_keys_insert(e, p.name@, p);
                    lemma_insert_in_range(e, p.name@, p, ctx.api.types@.len());
                }
                prop_map_insert(&mut props, p.name.clone(), p);
            },
            None => {},
        }
        k = k + 1;
    }
    proof {
        assert(ms@.take(ms@.len() as int) =~= ms@);
    }
    props
}

impl ToType for Class {
    /// Reads a class body as an interface with an empty id and name (a class
    /// declaration or a variable sets them): its base class (applied to its
    /// type arguments), its members and its type parameters.
    fn to_type(&self, ctx: &mut Context) -> (r: Type)
        ensures
            class_shape(*self, r),
        decreases self,
    {
        proof {
            reveal_strlit("");
        }
        let mut extends: Vec<TypeId> = Vec::new();
        match &self.super_class {
            Some(e) => {
                let base = e.to_type(ctx);
                let id = match &self.super_type_params {
                    Some(args) => {
                        let type_parameters = types_to_ids(args, ctx);
                        let b = ctx.add_type(base);
                        let app = Type::Application { base: b, type_parameters };
                        proof {
                            lemma_fields_refs(app, ctx.api.types@.len());
                        }
                        ctx.add_type(app)
                    },
                    None => ctx.add_type(base),
                };
                extends.push(id);
            },
            None => {},
        }
        let properties = class_props(&self.body, ctx);
        let type_parameters = define_type_params(&self.type_params, ctx);
        let r = Type::Interface {
            id: String::from_str(""),
            name: String::from_str(""),
            extends,
            properties,
            type_parameters,
            description: copy_opt(&self.docs.description),
            access: copy_opt(&self.docs.access),
        };
        proof {
            lemma_fields_refs(r, ctx.api.types@.len());
        }
        r
    }
}

impl ToType for ClassExpr {
    /// Reads a class expression. A named one is declared under its name
    /// (with the id `<path>:<name>`) and reads as a `Ref` to it.
    fn to_type(&self, ctx: &mut Context) -> (r: Type)
        ensures
            match self.ident {
                Some(id) => r == Type::Ref(decl_of(final(ctx).decls@, id)->0),
                None => r is Interface,
            },
        decreases self,
    {
        let mut ty = self.class.to_type(ctx);
        let ghost t0 = ty;
        match &self.ident {
            Some(ident) => {
                let id = qualified_id(ctx, &ident.sym);
                let name = ident.sym.clone();
                proof {
                    lemma_rename_keeps_refs(t0, id, name, ctx.api.types@.len());
                }
                ty.set_id(id);
                ty.set_name(name);
                let ghost t1 = ty;
                let docs = self.docs.duplicate();
                let ghost d = docs@;
                ty.add_docs(docs, None);
                proof {
                    crate::parse::lemma_docs_keep_refs(t1, d, None, ty, ctx.api.types@.len());
                }
                proof {
                    assert(!(ty is Ref));
                }
                ctx.add_decl(ident.duplicate(), ty)
            },
            None => {
                let docs = self.docs.duplicate();
                let ghost d = docs@;
                ty.add_docs(docs, None);
                proof {
                    crate::parse::lemma_docs_keep_refs(t0, d, None, ty, ctx.api.types@.len());
                }
                ty
            },
        }
    }
}

impl ToType for Expr {
    /// Reads an expression. A type cast reads as its type (a function type
    /// returning a React element becoming a component); the kinds of
    /// expression the reader does not model read as `any`.
    fn to_type(&self, ctx: &mut Context) -> (r: Type)
        ensures
            expr_shape(*self, r),
        decreases self,
    {
        proof {
            crate::reader::lemma_step_refl(*ctx);
        }
        match self {
            Expr::Lit(l) => lit_to_type(l),
            Expr::Tpl(parts) => {
                let elements = tpl_to_ids(parts, ctx);
                Type::Template { elements }
            },
            Expr::Paren(inner) => inner.to_type(ctx),
            Expr::TypeCast(t) => {
                let t = t.to_type(ctx);
                if ctx.api.types.len() < 0xffff_fffe {
                    ctx.component_if_element_return(t)
                } else {
                    t
                }
            },
            Expr::Satisfies(t) => t.to_type(ctx),
            Expr::This => Type::This,
            Expr::Fn(f) => f.to_type(ctx),
            Expr::Arrow(a) => a.to_type(ctx),
            Expr::Class(c) => c.to_type(ctx),
            Expr::Call(c) => c.to_type(ctx),
            Expr::Ident(id) => crate::reader::ident_to_type(id, ctx),
            Expr::Object(props) => {
                let properties = object_props(props, ctx);
                let r = Type::Interface {
                    id: String::from_str(""),
                    name: String::from_str(""),
                    extends: Vec::new(),
                    properties,
                    type_parameters: Vec::new(),
                    description: None,
                    access: None,
                };
                proof {
                    reveal_strlit("");
                    lemma_fields_refs(r, ctx.api.types@.len());
                }
                r
            },
            Expr::Member { .. } => Type::Any,
            Expr::Other => Type::Any,
        }
    }
}

} // verus!
