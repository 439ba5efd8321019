//! The state kept while reading one module: its [`API`] and the declarations
//! seen so far, with the decisions the reader makes on them.
use vstd::prelude::*;
use crate::API;
use crate::indexed::{prop_map_entries, prop_map_len, prop_map_get_index};
use crate::jsdoc::{JsDocs, docs_empty};
use crate::ty::{
    Type, TypeId, arena_wf, refs_below, spec_description, spec_with_description, docs_applied,
    id_below, str_eq, spec_to_component,
};

verus! {

/// A binding as the name resolver identifies it: its symbol and its syntax
/// context.
pub struct BindingId {
    pub sym: String,
    pub ctxt: u32,
}

/// What a callee expression refers to, as far as the reader needs to know.
pub enum CalleeRef {
    /// An identifier.
    Ident(BindingId),
    /// A member access `object.property`; `property` is `None` unless it is a
    /// plain identifier.
    Member { object: Box<CalleeRef>, property: Option<String> },
    /// A parenthesized expression or a type cast (`as`, `<T>x`, `satisfies`)
    /// around an expression.
    Wrapped(Box<CalleeRef>),
    /// Anything else.
    Other,
}

/// The shape of a returned expression (parentheses already removed), as far
/// as recognizing a component goes.
pub enum ReturnShape {
    /// A JSX element or fragment.
    Jsx,
    /// A call of the given callee.
    Call(CalleeRef),
    /// Anything else.
    Other,
}

/// The state of reading one module.
pub struct Context {
    /// The module's path.
    pub path: String,
    /// The type each declared binding stands for, in declaration order.
    pub decls: Vec<(BindingId, TypeId)>,
    /// The module's API being built.
    pub api: API,
}

/// Whether two bindings are the same.
pub open spec fn same_binding(a: BindingId, b: BindingId) -> bool {
    a.sym@ == b.sym@ && a.ctxt == b.ctxt
}

/// The first position of `id` in a declaration table, or -1.
pub open spec fn decl_pos(decls: Seq<(BindingId, TypeId)>, id: BindingId) -> int
    decreases decls.len(),
{
    if decls.len() == 0 {
        -1
    } else if decl_pos(decls.drop_last(), id) >= 0 {
        decl_pos(decls.drop_last(), id)
    } else if same_binding(decls.last().0, id) {
        decls.len() - 1
    } else {
        -1
    }
}

pub proof fn lemma_decl_pos(decls: Seq<(BindingId, TypeId)>, id: BindingId)
    ensures
        -1 <= decl_pos(decls, id) < decls.len(),
        decl_pos(decls, id) >= 0 ==> same_binding(decls[decl_pos(decls, id)].0, id),
        decl_pos(decls, id) < 0 ==> forall|i: int| 0 <= i < decls.len() ==> !same_binding(#[trigger] decls[i].0, id),
    decreases decls.len(),
{
    if decls.len() > 0 {
        let d = decls.drop_last();
        lemma_decl_pos(d, id);
        assert forall|i: int| 0 <= i < d.len() implies d[i] == decls[i] by {}
        if decl_pos(d, id) < 0 && !same_binding(decls.last().0, id) {
            assert forall|i: int| 0 <= i < decls.len() implies !same_binding(decls[i].0, id) by {
                if i < decls.len() - 1 {
                    assert(d[i] == decls[i]);
                }
            }
        }
    }
}

/// The type a declared binding stands for, if it has been declared.
pub open spec fn decl_of(decls: Seq<(BindingId, TypeId)>, id: BindingId) -> Option<TypeId> {
    if decl_pos(decls, id) >= 0 {
        Some(decls[decl_pos(decls, id)].1)
    } else {
        None
    }
}

/// A declared binding keeps its entry when declarations are added behind it.
pub proof fn lemma_decl_of_grow(a: Seq<(BindingId, TypeId)>, b: Seq<(BindingId, TypeId)>, id: BindingId)
    requires
        a.len() <= b.len(),
        forall|i: int| 0 <= i < a.len() ==> b[i] == a[i],
    ensures
        decl_pos(a, id) >= 0 ==> decl_pos(b, id) == decl_pos(a, id),
        decl_of(a, id) is Some ==> decl_of(b, id) == decl_of(a, id),
    decreases b.len(),
{
    if b.len() == a.len() {
        assert(b =~= a);
    } else {
        lemma_decl_of_grow(a, b.drop_last(), id);
        lemma_decl_pos(a, id);
        if decl_pos(a, id) >= 0 {
            assert(b.drop_last()[decl_pos(a, id)] == b[decl_pos(a, id)]);
        }
    }
}

/// `ty`, given the description of the type it replaces when it has none itself.
pub open spec fn keep_description(ty: Type, prev: Type) -> Type {
    if spec_description(ty) is None && spec_description(prev) is Some {
        spec_with_description(ty, spec_description(prev))
    } else {
        ty
    }
}

/// Whether `e` refers to the export `name` of the module `import` (through
/// an imported binding, or a member of an imported default or namespace).
pub open spec fn refers_to_import(
    types: Seq<Type>,
    decls: Seq<(BindingId, TypeId)>,
    e: CalleeRef,
    import: Seq<char>,
    name: Seq<char>,
) -> bool
    decreases e,
{
    match e {
        CalleeRef::Ident(id) => match decl_of(decls, id) {
            Some(t) => match types[t.0 as int] {
                Type::Reference { specifier, imported, .. } => specifier@ == import && (imported matches Some(i) && i@ == name),
                _ => false,
            },
            None => false,
        },
        CalleeRef::Member { object, property } => match property {
            Some(p) => (refers_to_import(types, decls, *object, import, "default"@)
                || refers_to_import(types, decls, *object, import, "*"@)) && p@ == name,
            None => false,
        },
        _ => false,
    }
}

/// A callee with parentheses and type casts removed.
pub open spec fn unwrapped(e: CalleeRef) -> CalleeRef
    decreases e,
{
    match e {
        CalleeRef::Wrapped(inner) => unwrapped(*inner),
        _ => e,
    }
}

/// Whether a callee is the plain identifier `sym`.
pub open spec fn is_ident_named(e: CalleeRef, sym: Seq<char>) -> bool {
    e matches CalleeRef::Ident(id) && id.sym@ == sym
}

pub proof fn lemma_first_decl(decls: Seq<(BindingId, TypeId)>, id: BindingId, k: int)
    requires
        0 <= k < decls.len(),
        same_binding(decls[k].0, id),
        forall|i: int| 0 <= i < k ==> !same_binding(#[trigger] decls[i].0, id),
    ensures
        decl_pos(decls, id) == k,
    decreases decls.len(),
{
    lemma_decl_pos(decls, id);
    if k < decls.len() - 1 {
        let d = decls.drop_last();
        assert forall|i: int| 0 <= i < d.len() implies d[i] == decls[i] by {}
        lemma_first_decl(d, id, k);
    } else {
        lemma_decl_pos(decls.drop_last(), id);
        assert forall|i: int| 0 <= i < decls.len() - 1 implies decls.drop_last()[i] == decls[i] by {}
    }
}

/// Replacing an arena entry by a type whose ids are in the arena keeps it well formed.
pub proof fn lemma_arena_update(types: Seq<Type>, i: int, ty: Type)
    requires
        arena_wf(types),
        0 <= i < types.len(),
        refs_below(ty, types.len()),
        !(ty is Ref),
    ensures
        arena_wf(types.update(i, ty)),
{
    let n = types.update(i, ty);
    assert forall|k: int| 0 <= k < n.len() implies refs_below(#[trigger] n[k], n.len()) && !(n[k] is Ref) by {
        if k != i {
            assert(n[k] == types[k]);
        }
    }
}

/// Setting a description changes no type id.
pub proof fn lemma_description_keeps_refs(t: Type, d: Option<String>, n: nat)
    requires
        refs_below(t, n),
    ensures
        refs_below(spec_with_description(t, d), n),
        (t is Ref) == (spec_with_description(t, d) is Ref),
{
    assert(crate::ty::direct_refs(spec_with_description(t, d)) == crate::ty::direct_refs(t));
}

/// Applying a doc block changes no type id.
pub proof fn lemma_docs_keep_refs(old: Type, d: crate::jsdoc::DocsView, value_name: Option<String>, new: Type, n: nat)
    requires
        refs_below(old, n),
        docs_applied(old, d, value_name, new),
    ensures
        refs_below(new, n),
        (old is Ref) == (new is Ref),
{
    assert(crate::ty::direct_refs(new) == crate::ty::direct_refs(old));
    match old {
        Type::Function { parameters, .. } => {
            if let Type::Function { parameters: ps2, .. } = new {
                assert forall|i: int| 0 <= i < ps2.len() implies id_below(#[trigger] ps2[i].value, n) by {
                    assert(crate::ty::param_documented(parameters[i], d.params, ps2[i]));
                }
            }
        },
        Type::Interface { properties, .. } => {
            if let Type::Interface { properties: p2, access: a2, .. } = new {
                if crate::ty::opt_is(a2, "private"@) {
                    let e = prop_map_entries(properties);
                    let e2 = prop_map_entries(p2);
                    assert forall|i: int| 0 <= i < e2.len() implies crate::ty::prop_refs_below(#[trigger] e2[i].1, n) by {
                        assert(e2[i].0 == e[i].0);
                        assert(crate::ty::made_private(e[i].1, e2[i].1));
                    }
                }
            }
        },
        _ => {},
    }
}

/// Growing an arena by a type whose ids are below the old length keeps it well formed.
pub proof fn lemma_arena_push(types: Seq<Type>, ty: Type)
    requires
        arena_wf(types),
        refs_below(ty, types.len()),
        !(ty is Ref),
    ensures
        arena_wf(types.push(ty)),
{
    let n = types.push(ty);
    assert forall|i: int| 0 <= i < n.len() implies refs_below(#[trigger] n[i], n.len()) && !(n[i] is Ref) by {
        if i < types.len() {
            assert(n[i] == types[i]);
            assert(refs_below(types[i], types.len()));
        }
    }
}

impl Context {
    /// The table and the arena agree: every declared binding stands for an
    /// arena entry, and the API is well formed.
    pub open spec fn wf(&self) -> bool {
        &&& self.api.wf()
        &&& forall|i: int| 0 <= i < self.decls@.len() ==> id_below(#[trigger] self.decls@[i].1, self.api.types@.len())
    }

    /// A fresh context for the module at `path`.
    pub fn new(path: String) -> (r: Context)
        ensures
            r.wf(),
            r.path == path,
            r.decls@.len() == 0,
            r.api.types@.len() == 0,
            crate::indexed::id_map_entries(r.api.exports).len() == 0,
            r.api.export_all@.len() == 0,
            crate::indexed::str_set_items(r.api.dependencies).len() == 0,
    {
        Context { path, decls: Vec::new(), api: API::new() }
    }

    /// The type a binding stands for, if it has been declared.
    pub fn lookup(&self, id: &BindingId) -> (r: Option<TypeId>)
        ensures
            r == decl_of(self.decls@, *id),
    {
        let mut k: usize = 0;
        while k < self.decls.len()
            invariant
                k <= self.decls@.len(),
                forall|i: int| 0 <= i < k ==> !same_binding(#[trigger] self.decls@[i].0, *id),
            decreases self.decls.len() - k,
        {
            let (b, t) = &self.decls[k];
            if b.ctxt == id.ctxt && str_eq(b.sym.as_str(), id.sym.as_str()) {
                proof {
                    lemma_decl_pos(self.decls@, *id);
                    lemma_first_decl(self.decls@, *id, k as int);
                }
                return Some(*t);
            }
            k = k + 1;
        }
        proof {
            lemma_decl_pos(self.decls@, *id);
        }
        None
    }

    /// Records `ty` as what the binding `id` stands for. A `Ref` is not stored
    /// (its id is returned); a binding declared before keeps its id and takes
    /// the new type, which inherits the old description when it has none of its
    /// own (as for a function overload's implementation signature).
    pub fn define(&mut self, id: BindingId, ty: Type) -> (r: TypeId)
        requires
            old(self).wf(),
            refs_below(ty, old(self).api.types@.len()),
        ensures
            final(self).wf(),
            final(self).path == old(self).path,
            final(self).api.dependencies == old(self).api.dependencies,
            final(self).api.exports == old(self).api.exports,
            final(self).api.export_all == old(self).api.export_all,
            id_below(r, final(self).api.types@.len()),
            match ty {
                Type::Ref(t) => r == t && final(self).api.types@ == old(self).api.types@
                    && final(self).decls@ == old(self).decls@,
                _ => match decl_of(old(self).decls@, id) {
                    Some(e) => r == e && final(self).decls@ == old(self).decls@
                        && final(self).api.types@ == old(self).api.types@.update(
                        e.0 as int,
                        keep_description(ty, old(self).api.types@[e.0 as int]),
                    ),
                    None => final(self).decls@ == old(self).decls@.push((id, r)) && if old(self).api.types@.len()
                        < u32::MAX {
                        r == TypeId(old(self).api.types@.len() as u32) && final(self).api.types@
                            == old(self).api.types@.push(ty)
                    } else {
                        r == TypeId(0) && final(self).api.types@ == old(self).api.types@
                    },
                },
            },
    {
        if let Type::Ref(t) = ty {
            proof {
                assert(crate::ty::direct_refs(ty)[0] == t);
            }
            return t;
        }
        match self.lookup(&id) {
            Some(existing) => {
                proof {
                    lemma_decl_pos(self.decls@, id);
                }
                let mut ty = ty;
                let ghost ty0 = ty;
                if ty.description().is_none() {
                    let prev = match self.api.types[existing.0 as usize].description() {
                        Some(d) => Some(d.clone()),
                        None => None,
                    };
                    if prev.is_some() {
                        ty.set_description(prev);
                    }
                }
                proof {
                    assert(ty == keep_description(ty0, self.api.types@[existing.0 as int]));
                    lemma_description_keeps_refs(ty0, spec_description(self.api.types@[existing.0 as int]), self.api.types@.len());
                }
                let ghost before = self.api.types@;
                self.api.types.set(existing.0 as usize, ty);
                proof {
                    lemma_arena_update(before, existing.0 as int, ty);
                }
                existing
            },
            None => {
                let t = self.add_type(ty);
                self.decls.push((id, t));
                t
            },
        }
    }

    /// Records `ty` for the binding `id` (see [`Context::define`]) and returns
    /// a `Ref` to it.
    pub fn add_decl(&mut self, id: BindingId, ty: Type) -> (r: Type)
        requires
            old(self).wf(),
            refs_below(ty, old(self).api.types@.len()),
        ensures
            final(self).wf(),
            final(self).path == old(self).path,
            final(self).api.dependencies == old(self).api.dependencies,
            final(self).api.exports == old(self).api.exports,
            final(self).api.export_all == old(self).api.export_all,
            final(self).api.types@.len() >= old(self).api.types@.len(),
            old(self).decls@.len() <= final(self).decls@.len(),
            final(self).decls@.take(old(self).decls@.len() as int) == old(self).decls@,
            ty is Ref ==> r == ty,
            !(ty is Ref) ==> decl_of(final(self).decls@, id) is Some,
            !(ty is Ref) ==> r == Type::Ref(decl_of(final(self).decls@, id)->0),
            !(ty is Ref) ==> forall|i: int|
                0 <= i < old(self).api.types@.len() && i != (decl_of(final(self).decls@, id)->0).0 ==> final(self).api.types@[i]
                    == old(self).api.types@[i],
            !(ty is Ref) && decl_of(old(self).decls@, id) is None ==> forall|i: int|
                0 <= i < old(self).api.types@.len() ==> final(self).api.types@[i] == old(self).api.types@[i],
            !(ty is Ref) && decl_of(old(self).decls@, id) is Some ==> decl_of(final(self).decls@, id) == decl_of(
                old(self).decls@,
                id,
            ),
            !(ty is Ref) && decl_of(old(self).decls@, id) is None && old(self).api.types@.len() < u32::MAX ==> (decl_of(
                final(self).decls@,
                id,
            )->0).0 == old(self).api.types@.len(),
            !(ty is Ref) && final(self).api.types@.len() < u32::MAX ==> ({
                let x = (decl_of(final(self).decls@, id)->0).0 as int;
                ||| final(self).api.types@[x] == ty
                ||| final(self).api.types@[x] == keep_description(ty, old(self).api.types@[x])
            }),
            r matches Type::Ref(t) && id_below(t, final(self).api.types@.len()),
    {
        let ghost d0 = self.decls@;
        let t = self.define(id, ty);
        proof {
            assert(self.decls@.take(d0.len() as int) =~= d0);
            lemma_decl_pos(d0, id);
            if decl_pos(d0, id) < 0 && !(ty is Ref) {
                let d1 = self.decls@;
                assert forall|i: int| 0 <= i < d0.len() implies !same_binding(#[trigger] d1[i].0, id) by {
                    assert(d1[i] == d0[i]);
                }
                lemma_first_decl(d1, id, d0.len() as int);
            }
        }
        Type::Ref(t)
    }

    /// Applies a doc block to the type of an arena entry (as a `Ref` would: see
    /// [`Context::add_docs_at`]). A doc block without content changes nothing.
    pub fn apply_export_docs(&mut self, ty: TypeId, jsdoc: &JsDocs)
        requires
            old(self).wf(),
            id_below(ty, old(self).api.types@.len()),
        ensures
            final(self).wf(),
            final(self).path == old(self).path,
            final(self).decls == old(self).decls,
            final(self).api.dependencies == old(self).api.dependencies,
            final(self).api.exports == old(self).api.exports,
            final(self).api.export_all == old(self).api.export_all,
            final(self).api.types@.len() == old(self).api.types@.len(),
            docs_empty(jsdoc@) ==> final(self).api.types@ == old(self).api.types@,
            !docs_empty(jsdoc@) ==> docs_applied(
                old(self).api.types@[ty.0 as int],
                jsdoc@,
                None,
                final(self).api.types@[ty.0 as int],
            ),
            forall|i: int| 0 <= i < old(self).api.types@.len() && i != ty.0 ==> final(self).api.types@[i]
                == old(self).api.types@[i],
    {
        if jsdoc.is_empty() {
            return;
        }
        let i = ty.0 as usize;
        let ghost before = self.api.types@;
        let mut t = Type::Any;
        std::mem::swap(&mut t, &mut self.api.types[i]);
        let ghost t0 = t;
        t.add_docs(jsdoc.duplicate(), None);
        proof {
            assert(t0 == before[i as int]);
            lemma_docs_keep_refs(t0, jsdoc@, None, t, before.len());
        }
        self.api.types.set(i, t);
        proof {
            lemma_arena_update(before, i as int, t);
        }
    }

    /// Applies a doc block to `ty`, or, when `ty` is a `Ref`, to the arena
    /// entry it stands for.
    pub fn add_docs_at(&mut self, ty: &mut Type, jsdoc: JsDocs, value_name: Option<String>)
        requires
            old(self).wf(),
            refs_below(*old(ty), old(self).api.types@.len()),
        ensures
            final(self).wf(),
            final(self).path == old(self).path,
            final(self).decls == old(self).decls,
            final(self).api.dependencies == old(self).api.dependencies,
            final(self).api.exports == old(self).api.exports,
            final(self).api.export_all == old(self).api.export_all,
            refs_below(*final(ty), final(self).api.types@.len()),
            match *old(ty) {
                Type::Ref(r) => *final(ty) == *old(ty) && final(self).api.types@.len() == old(self).api.types@.len()
                    && docs_applied(old(self).api.types@[r.0 as int], jsdoc@, value_name, final(self).api.types@[r.0 as int])
                    && forall|i: int| 0 <= i < old(self).api.types@.len() && i != r.0 ==> final(self).api.types@[i]
                        == old(self).api.types@[i],
                _ => final(self).api.types@ == old(self).api.types@
                    && docs_applied(*old(ty), jsdoc@, value_name, *final(ty)),
            },
    {
        let target = match ty {
            Type::Ref(r) => Some(*r),
            _ => None,
        };
        match target {
            Some(r) => {
                proof {
                    assert(crate::ty::direct_refs(*ty)[0] == r);
                }
                let i = r.0 as usize;
                let ghost before = self.api.types@;
                let mut t = Type::Any;
                std::mem::swap(&mut t, &mut self.api.types[i]);
                let ghost t0 = t;
                let ghost d = jsdoc@;
                t.add_docs(jsdoc, value_name);
                proof {
                    assert(t0 == before[i as int]);
                    lemma_docs_keep_refs(t0, d, value_name, t, before.len());
                }
                self.api.types.set(i, t);
                proof {
                    lemma_arena_update(before, i as int, t);
                }
            },
            None => {
                let ghost t0 = *ty;
                let ghost d = jsdoc@;
                ty.add_docs(jsdoc, value_name);
                proof {
                    lemma_docs_keep_refs(t0, d, value_name, *ty, self.api.types@.len());
                }
            },
        }
    }

    /// Adds a type to the module's arena. Type ids are 32-bit, so the arena
    /// holds at most `u32::MAX` types: a type added to a full arena is not
    /// stored, and the id of the first entry is returned for it.
    pub fn add_type(&mut self, ty: Type) -> (r: TypeId)
        requires
            old(self).wf(),
            refs_below(ty, old(self).api.types@.len()),
        ensures
            final(self).wf(),
            final(self).path == old(self).path,
            final(self).decls == old(self).decls,
            final(self).api.dependencies == old(self).api.dependencies,
            final(self).api.exports == old(self).api.exports,
            final(self).api.export_all == old(self).api.export_all,
            match ty {
                Type::Ref(t) => r == t && final(self).api.types@ == old(self).api.types@,
                _ => if old(self).api.types@.len() < u32::MAX {
                    r == TypeId(old(self).api.types@.len() as u32)
                        && final(self).api.types@ == old(self).api.types@.push(ty)
                } else {
                    r == TypeId(0) && final(self).api.types@ == old(self).api.types@
                },
            },
            id_below(r, final(self).api.types@.len()),
    {
        if let Type::Ref(t) = ty {
            proof {
                assert(crate::ty::direct_refs(ty)[0] == t);
            }
            return t;
        }
        if self.api.types.len() >= 0xffff_ffff {
            return TypeId(0);
        }
        let r = self.api.add_type(ty);
        proof {
            lemma_arena_push(old(self).api.types@, ty);
        }
        r
    }
}

/// `ty` with its props and ref replaced (a component keeps its other fields).
pub open spec fn with_props_ref(ty: Type, props: Option<TypeId>, r: Option<TypeId>) -> Type {
    match ty {
        Type::Component { id, name, props: _, type_parameters, ref_type: _, description, access, examples } =>
            Type::Component { id, name, props, type_parameters, ref_type: r, description, access, examples },
        _ => ty,
    }
}

/// If the type at `id` is an object with exactly one property, named `ref`,
/// the type of that property.
pub open spec fn ref_object_value_s(types: Seq<Type>, id: TypeId) -> Option<TypeId> {
    match types[id.0 as int] {
        Type::Object { properties, .. } => {
            let e = prop_map_entries(properties);
            if e.len() == 1 && e[0].0 == "ref"@ {
                Some(e[0].1.value)
            } else {
                None
            }
        },
        _ => None,
    }
}

/// The position of the first member that is a `{ref?: X}` object, or -1.
pub open spec fn first_ref_member(types: Seq<Type>, ms: Seq<TypeId>) -> int
    decreases ms.len(),
{
    if ms.len() == 0 {
        -1
    } else if first_ref_member(types, ms.drop_last()) >= 0 {
        first_ref_member(types, ms.drop_last())
    } else if ref_object_value_s(types, ms.last()) is Some {
        ms.len() - 1
    } else {
        -1
    }
}

pub proof fn lemma_first_ref_member(types: Seq<Type>, ms: Seq<TypeId>)
    ensures
        -1 <= first_ref_member(types, ms) < ms.len(),
        first_ref_member(types, ms) >= 0 ==> ref_object_value_s(types, ms[first_ref_member(types, ms)]) is Some,
        forall|i: int| 0 <= i < ms.len() && (first_ref_member(types, ms) < 0 || i < first_ref_member(types, ms))
            ==> ref_object_value_s(types, #[trigger] ms[i]) is None,
    decreases ms.len(),
{
    if ms.len() > 0 {
        let d = ms.drop_last();
        lemma_first_ref_member(types, d);
        assert forall|i: int| 0 <= i < d.len() implies d[i] == ms[i] by {}
    }
}

/// What splitting the `{ref?: X}` member out of a component's props
/// intersection does: `(props, ref, whether a new intersection is added)`,
/// or `None` when the component is left as it is.
pub open spec fn ref_split(types: Seq<Type>, ty: Type) -> Option<(Option<TypeId>, TypeId, Seq<TypeId>)> {
    match ty {
        Type::Component { props: Some(p), ref_type: None, .. } => match types[p.0 as int] {
            Type::Intersection { types: ms } => {
                let j = first_ref_member(types, ms@);
                if j >= 0 {
                    let rest = ms@.remove(j);
                    Some((
                        if rest.len() == 0 { None } else if rest.len() == 1 { Some(rest[0]) } else { Some(TypeId(types.len() as u32)) },
                        ref_object_value_s(types, ms@[j])->0,
                        rest,
                    ))
                } else {
                    None
                }
            },
            _ => None,
        },
        _ => None,
    }
}

pub proof fn lemma_first_ref_prefix(types: Seq<Type>, ms: Seq<TypeId>, k: int)
    requires
        0 <= k <= ms.len(),
        first_ref_member(types, ms.take(k)) >= 0,
    ensures
        first_ref_member(types, ms) == first_ref_member(types, ms.take(k)),
    decreases ms.len() - k,
{
    if k < ms.len() {
        let t = ms.take(k + 1);
        assert(t.drop_last() == ms.take(k));
        lemma_first_ref_prefix(types, ms, k + 1);
    } else {
        assert(ms.take(k) == ms);
    }
}

/// Replacing a component's props and ref by ids in the arena keeps its ids in the arena.
pub proof fn lemma_props_ref_refs(t: Type, props: Option<TypeId>, rf: TypeId, n: nat)
    requires
        refs_below(t, n),
        props matches Some(p) ==> id_below(p, n),
        id_below(rf, n),
    ensures
        refs_below(with_props_ref(t, props, Some(rf)), n),
{
    if let Type::Component { props: p0, type_parameters, ref_type: r0, .. } = t {
        let c = with_props_ref(t, props, Some(rf));
        let d = crate::ty::direct_refs(c);
        let d0 = crate::ty::direct_refs(t);
        let o: int = if p0 is Some { 1 } else { 0 };
        let o2: int = if props is Some { 1 } else { 0 };
        assert forall|i: int| 0 <= i < d.len() implies id_below(#[trigger] d[i], n) by {
            if o2 == 1 && i == 0 {
            } else if i == d.len() - 1 {
            } else {
                assert(d[i] == type_parameters@[i - o2]);
                assert(d0[i - o2 + o] == type_parameters@[i - o2]);
            }
        }
    }
}

/// Turning a function into a component changes no type id.
pub proof fn lemma_component_refs(t: Type, n: nat)
    requires
        refs_below(t, n),
    ensures
        refs_below(spec_to_component(t), n),
{
    if let Type::Function { parameters, type_parameters, .. } = t {
        let c = spec_to_component(t);
        let d = crate::ty::direct_refs(c);
        assert forall|i: int| 0 <= i < d.len() implies id_below(#[trigger] d[i], n) by {
            if parameters.len() > 0 && i == 0 {
                assert(id_below(parameters[0].value, n));
            } else if parameters.len() > 1 && i == d.len() - 1 {
                assert(id_below(parameters[1].value, n));
            } else {
                let off: int = if parameters.len() > 0 { 1 } else { 0 };
                assert(d[i] == type_parameters@[i - off]);
                assert(crate::ty::direct_refs(t)[i - off + 1] == type_parameters@[i - off]);
            }
        }
    }
}

/// Whether the type is an interface or a component, directly or through a `Ref`.
pub open spec fn interface_or_component(types: Seq<Type>, t: Type) -> bool {
    match t {
        Type::Interface { .. } => true,
        Type::Component { .. } => true,
        Type::Ref(r) => types[r.0 as int] is Interface || types[r.0 as int] is Component,
        _ => false,
    }
}

/// The depth up to which the recursive type predicates follow the arena
/// (they follow unions, applications and refs, which may form cycles).
pub open spec fn depth_limit() -> nat {
    u64::MAX as nat
}

/// `Some(b)` when, within `fuel` steps, `t` turns out (not) to be `JSX.Element`
/// or a union holding it; `None` when the steps run out.
pub open spec fn jsx_in(types: Seq<Type>, t: Type, fuel: nat) -> Option<bool>
    decreases fuel, 0nat,
{
    if fuel == 0 {
        None
    } else {
        match t {
            Type::Identifier { name } => Some(name@ == "JSX.Element"@),
            Type::Union { elements } => any_jsx_in(types, elements@, (fuel - 1) as nat),
            Type::Ref(r) => jsx_in(types, types[r.0 as int], (fuel - 1) as nat),
            _ => Some(false),
        }
    }
}

/// [`jsx_in`] for each of `es` in order, stopping at the first that is not `Some(false)`.
pub open spec fn any_jsx_in(types: Seq<Type>, es: Seq<TypeId>, fuel: nat) -> Option<bool>
    decreases fuel, es.len() + 1,
{
    if es.len() == 0 {
        Some(false)
    } else {
        match jsx_in(types, types[es[0].0 as int], fuel) {
            Some(false) => any_jsx_in(types, es.drop_first(), fuel),
            other => other,
        }
    }
}

/// Whether a name denotes a React element type.
pub open spec fn is_element_name(name: Seq<char>) -> bool {
    name == "JSX.Element"@ || name == "React.JSX.Element"@ || name == "ReactElement"@ || name
        == "React.ReactElement"@
}

/// `Some(b)` when, within `fuel` steps, `t` turns out (not) to be a React
/// element type (directly, as an application's base, or in a union).
pub open spec fn element_in(types: Seq<Type>, t: Type, fuel: nat) -> Option<bool>
    decreases fuel, 0nat,
{
    if fuel == 0 {
        None
    } else {
        match t {
            Type::Identifier { name } => Some(is_element_name(name@)),
            Type::Reference { imported, .. } => Some(imported matches Some(i) && i@ == "ReactElement"@),
            Type::Application { base, .. } => element_in(types, types[base.0 as int], (fuel - 1) as nat),
            Type::Union { elements } => any_element_in(types, elements@, (fuel - 1) as nat),
            Type::Ref(r) => element_in(types, types[r.0 as int], (fuel - 1) as nat),
            _ => Some(false),
        }
    }
}

/// [`element_in`] for each of `es` in order, stopping at the first that is not `Some(false)`.
pub open spec fn any_element_in(types: Seq<Type>, es: Seq<TypeId>, fuel: nat) -> Option<bool>
    decreases fuel, es.len() + 1,
{
    if es.len() == 0 {
        Some(false)
    } else {
        match element_in(types, types[es[0].0 as int], fuel) {
            Some(false) => any_element_in(types, es.drop_first(), fuel),
            other => other,
        }
    }
}

/// A callee without the parentheses and type casts around it.
pub fn unwrap_as(e: &CalleeRef) -> (r: &CalleeRef)
    ensures
        *r == unwrapped(*e),
    decreases e,
{
    match e {
        CalleeRef::Wrapped(inner) => unwrap_as(inner),
        _ => e,
    }
}

/// Whether a callee is the plain identifier `sym`.
fn ident_named(e: &CalleeRef, sym: &str) -> (r: bool)
    ensures
        r == is_ident_named(*e, sym@),
{
    match e {
        CalleeRef::Ident(id) => str_eq(id.sym.as_str(), sym),
        _ => false,
    }
}

impl Context {
    /// Whether `expr` refers to the export `name` of the module `import`:
    /// through a binding imported from it, or as a member of a binding that
    /// holds its default export or its namespace.
    pub fn references_import(&self, expr: &CalleeRef, import: &str, name: &str) -> (r: bool)
        requires
            self.wf(),
        ensures
            r == refers_to_import(self.api.types@, self.decls@, *expr, import@, name@),
        decreases expr,
    {
        proof {
            reveal_strlit("default");
            reveal_strlit("*");
        }
        match expr {
            CalleeRef::Ident(id) => {
                match self.lookup(id) {
                    Some(decl) => {
                        proof {
                            lemma_decl_pos(self.decls@, *id);
                            assert(id_below(self.decls@[decl_pos(self.decls@, *id)].1, self.api.types@.len()));
                        }
                        match &self.api.types[decl.0 as usize] {
                            Type::Reference { imported, specifier, .. } => {
                                str_eq(specifier.as_str(), import) && match imported {
                                    Some(i) => str_eq(name, i.as_str()),
                                    None => false,
                                }
                            },
                            _ => false,
                        }
                    },
                    None => false,
                }
            },
            CalleeRef::Member { object, property } => {
                match property {
                    Some(p) => {
                        if self.references_import(object, import, "default") || self.references_import(
                            object,
                            import,
                            "*",
                        ) {
                            return str_eq(p.as_str(), name);
                        }
                        false
                    },
                    None => false,
                }
            },
            _ => false,
        }
    }

    /// Whether a returned expression makes its function a component: JSX, or a
    /// call of React's `cloneElement` or of React DOM's `createPortal`.
    pub fn is_jsx_expr(&self, e: &ReturnShape) -> (r: bool)
        requires
            self.wf(),
        ensures
            r == match *e {
                ReturnShape::Jsx => true,
                ReturnShape::Call(c) => refers_to_import(self.api.types@, self.decls@, unwrapped(c), "react"@, "cloneElement"@)
                    || refers_to_import(self.api.types@, self.decls@, unwrapped(c), "react-dom"@, "createPortal"@),
                ReturnShape::Other => false,
            },
    {
        match e {
            ReturnShape::Jsx => true,
            ReturnShape::Call(callee) => {
                let c = unwrap_as(callee);
                self.references_import(c, "react", "cloneElement") || self.references_import(c, "react-dom", "createPortal")
            },
            ReturnShape::Other => false,
        }
    }

    /// Which argument of a call holds the component function it wraps: the
    /// first for React's `forwardRef` and for `createHideableComponent`, the
    /// second for `createLeafComponent` and `createBranchComponent`; `None`
    /// for any other call (whose type is then `any`).
    pub fn call_component_arg(&self, callee: &CalleeRef) -> (r: Option<usize>)
        requires
            self.wf(),
        ensures
            r == (if refers_to_import(self.api.types@, self.decls@, unwrapped(*callee), "react"@, "forwardRef"@)
                || is_ident_named(unwrapped(*callee), "createHideableComponent"@) {
                Some(0usize)
            } else if is_ident_named(unwrapped(*callee), "createLeafComponent"@) || is_ident_named(
                unwrapped(*callee),
                "createBranchComponent"@,
            ) {
                Some(1usize)
            } else {
                None
            }),
    {
        let e = unwrap_as(callee);
        if self.references_import(e, "react", "forwardRef") || ident_named(e, "createHideableComponent") {
            Some(0)
        } else if ident_named(e, "createLeafComponent") || ident_named(e, "createBranchComponent") {
            Some(1)
        } else {
            None
        }
    }

    /// Follows `Ref`s to the arena entry a type id stands for. Arena entries are
    /// never `Ref`s, so this is the id itself.
    pub fn resolve_ref(&self, id: TypeId) -> (r: TypeId)
        requires
            self.wf(),
            id_below(id, self.api.types@.len()),
        ensures
            r == id,
            !(self.api.types@[r.0 as int] is Ref),
    {
        id
    }

    /// If `id` is an object type with a single `ref` property (`{ref?: X}`),
    /// the type of that property (`X`).
    pub fn ref_object_value(&self, id: TypeId) -> (r: Option<TypeId>)
        requires
            self.wf(),
            id_below(id, self.api.types@.len()),
        ensures
            r == ref_object_value_s(self.api.types@, id),
            r matches Some(t) ==> id_below(t, self.api.types@.len()),
    {
        proof {
            reveal_strlit("ref");
        }
        let id = self.resolve_ref(id);
        match &self.api.types[id.0 as usize] {
            Type::Object { properties, .. } => {
                if prop_map_len(properties) == 1 {
                    let (name, prop) = prop_map_get_index(properties, 0);
                    if str_eq(name.as_str(), "ref") {
                        proof {
                            assert(refs_below(self.api.types@[id.0 as int], self.api.types@.len()));
                            assert(crate::ty::prop_refs_below(prop_map_entries(*properties)[0].1, self.api.types@.len()));
                        }
                        return Some(prop.value);
                    }
                }
                None
            },
            _ => None,
        }
    }
}

impl Context {
    /// When a component's props is an intersection with a `{ref?: X}` member
    /// (`(props: P & {ref?: R}) => ReactElement`), moves that member out into
    /// the component's ref; the remaining members become the props (a single
    /// member as is, several as a new intersection). Anything else is returned
    /// unchanged.
    pub fn split_component_ref(&mut self, ty: Type) -> (r: Type)
        requires
            old(self).wf(),
            old(self).api.types@.len() + 1 < u32::MAX,
            refs_below(ty, old(self).api.types@.len()),
        ensures
            final(self).wf(),
            final(self).path == old(self).path,
            final(self).decls == old(self).decls,
            final(self).api.dependencies == old(self).api.dependencies,
            final(self).api.exports == old(self).api.exports,
            final(self).api.export_all == old(self).api.export_all,
            refs_below(r, final(self).api.types@.len()),
            match ref_split(old(self).api.types@, ty) {
                None => r == ty && final(self).api.types@ == old(self).api.types@,
                Some((props, rf, rest)) => {
                    &&& r == with_props_ref(ty, props, Some(rf))
                    &&& if rest.len() >= 2 {
                        &&& final(self).api.types@.len() == old(self).api.types@.len() + 1
                        &&& final(self).api.types@.take(old(self).api.types@.len() as int) == old(self).api.types@
                        &&& final(self).api.types@.last() matches Type::Intersection { types } && types@ == rest
                    } else {
                        final(self).api.types@ == old(self).api.types@
                    }
                },
            },
    {
        let props_id = match &ty {
            Type::Component { props: Some(p), ref_type: None, .. } => *p,
            _ => return ty,
        };
        proof {
            assert(crate::ty::direct_refs(ty)[0] == props_id);
        }
        let resolved = self.resolve_ref(props_id);
        let ghost types0 = self.api.types@;
        let members: Vec<TypeId> = match &self.api.types[resolved.0 as usize] {
            Type::Intersection { types } => {
                let mut m: Vec<TypeId> = Vec::new();
                let mut k: usize = 0;
                while k < types.len()
                    invariant
                        k <= types@.len(),
                        m@ == types@.take(k as int),
                    decreases types.len() - k,
                {
                    m.push(types[k]);
                    proof {
                        assert(types@.take(k + 1) == types@.take(k as int).push(types@[k as int]));
                    }
                    k = k + 1;
                }
                proof {
                    assert(types@.take(types@.len() as int) == types@);
                    assert(crate::ty::direct_refs(self.api.types@[resolved.0 as int]) == types@);
                }
                m
            },
            _ => return ty,
        };
        let ghost ms = members@;
        proof {
            assert(refs_below(types0[resolved.0 as int], types0.len()));
            assert(forall|i: int| 0 <= i < ms.len() ==> id_below(#[trigger] ms[i], types0.len()));
        }
        let mut ref_type: Option<TypeId> = None;
        let mut rest: Vec<TypeId> = Vec::new();
        let mut k: usize = 0;
        while k < members.len()
            invariant
                self.wf(),
                self.api.types@ == types0,
                ms == members@,
                k <= ms.len(),
                forall|i: int| 0 <= i < ms.len() ==> id_below(#[trigger] ms[i], types0.len()),
                ref_type is None ==> first_ref_member(types0, ms.take(k as int)) < 0 && rest@ == ms.take(k as int),
                ref_type matches Some(rv) ==> {
                    let j = first_ref_member(types0, ms.take(k as int));
                    &&& 0 <= j < k
                    &&& j == first_ref_member(types0, ms)
                    &&& Some(rv) == ref_object_value_s(types0, ms[j])
                    &&& rest@ == ms.take(k as int).remove(j)
                },
                ref_type matches Some(rv) ==> id_below(rv, types0.len()),
            decreases ms.len() - k,
        {
            let member = members[k];
            proof {
                let t1 = ms.take(k + 1);
                assert(t1.drop_last() == ms.take(k as int));
                assert(t1.last() == member);
                lemma_first_ref_member(types0, ms.take(k as int));
            }
            let mut taken = false;
            if ref_type.is_none() {
                if let Some(r) = self.ref_object_value(member) {
                    ref_type = Some(r);
                    taken = true;
                    proof {
                        lemma_first_ref_prefix(types0, ms, (k + 1) as int);
                        assert(ms.take(k + 1).remove(k as int) == ms.take(k as int));
                    }
                }
            }
            if !taken {
                let ghost before = rest@;
                rest.push(member);
                proof {
                    if ref_type is Some {
                        let j = first_ref_member(types0, ms.take(k as int));
                        lemma_first_ref_member(types0, ms.take(k as int));
                        assert(ms.take(k + 1).remove(j) == ms.take(k as int).remove(j).push(member));
                    } else {
                        assert(ms.take(k + 1) == ms.take(k as int).push(member));
                    }
                }
            }
            k = k + 1;
        }
        proof {
            assert(ms.take(ms.len() as int) == ms);
        }
        let rf = match ref_type {
            Some(rf) => rf,
            None => {
                return ty;
            },
        };
        let new_props = if rest.len() == 0 {
            None
        } else if rest.len() == 1 {
            Some(rest[0])
        } else {
            let ghost rv = rest@;
            let it = Type::Intersection { types: rest };
            proof {
                assert(crate::ty::direct_refs(it) == rv);
                assert forall|i: int| 0 <= i < rv.len() implies id_below(#[trigger] rv[i], types0.len()) by {
                    lemma_first_ref_member(types0, ms);
                    let j = first_ref_member(types0, ms);
                    if i < j {
                        assert(rv[i] == ms[i]);
                    } else {
                        assert(rv[i] == ms[i + 1]);
                    }
                }
            }
            Some(self.add_type(it))
        };
        let ghost ty0 = ty;
        let mut ty = ty;
        if let Type::Component { props, ref_type: r, .. } = &mut ty {
            *props = new_props;
            *r = Some(rf);
        }
        proof {
            if self.api.types@.len() > types0.len() {
                assert(self.api.types@.take(types0.len() as int) == types0);
            }
            assert(ty == with_props_ref(ty0, new_props, Some(rf)));
            if let Some(np) = new_props {
                if rest@.len() == 1 {
                    lemma_first_ref_member(types0, ms);
                    let j = first_ref_member(types0, ms);
                    if j == 0 { assert(rest@[0] == ms[1]); } else { assert(rest@[0] == ms[0]); }
                }
            }
            lemma_props_ref_refs(ty0, new_props, rf, self.api.types@.len());
        }
        ty
    }

    /// If `ty` is a function whose return type is a React element type, the
    /// component it stands for (with a `{ref?: X}` props member split out into
    /// its ref); otherwise `ty` unchanged. This keeps the annotated signature of
    /// a cast such as `forwardRef(fn) as <T>(props) => JSX.Element`.
    pub fn component_if_element_return(&mut self, ty: Type) -> (r: Type)
        requires
            old(self).wf(),
            old(self).api.types@.len() + 1 < u32::MAX,
            refs_below(ty, old(self).api.types@.len()),
        ensures
            final(self).wf(),
            final(self).path == old(self).path,
            final(self).decls == old(self).decls,
            final(self).api.dependencies == old(self).api.dependencies,
            final(self).api.exports == old(self).api.exports,
            final(self).api.export_all == old(self).api.export_all,
            final(self).api.types@.len() >= old(self).api.types@.len(),
            refs_below(r, final(self).api.types@.len()),
            (ty matches Type::Function { return_type, .. } && element_in(
                old(self).api.types@,
                old(self).api.types@[return_type.0 as int],
                depth_limit(),
            ) == Some(true)) ==> match ref_split(old(self).api.types@, spec_to_component(ty)) {
                None => r == spec_to_component(ty),
                Some((props, rf, _)) => r == with_props_ref(spec_to_component(ty), props, Some(rf)),
            },
            !(ty matches Type::Function { return_type, .. } && element_in(
                old(self).api.types@,
                old(self).api.types@[return_type.0 as int],
                depth_limit(),
            ) == Some(true)) ==> r == ty && final(self).api.types@ == old(self).api.types@,
    {
        let is_component = match &ty {
            Type::Function { return_type, .. } => {
                proof {
                    assert(crate::ty::direct_refs(ty)[0] == *return_type);
                    assert(refs_below(self.api.types@[return_type.0 as int], self.api.types@.len()));
                }
                self.api.types[return_type.0 as usize].is_react_element(self)
            },
            _ => false,
        };
        if is_component {
            let c = ty.to_component();
            proof {
                lemma_component_refs(ty, self.api.types@.len());
            }
            self.split_component_ref(c)
        } else {
            ty
        }
    }
}

impl Type {
    /// Whether this is `JSX.Element` or a union holding it (following refs).
    /// The answer is the one [`jsx_in`] gives within [`depth_limit`] steps;
    /// past that depth (only reached through a cycle of unions) it is `false`.
    pub fn is_jsx(&self, ctx: &Context) -> (r: bool)
        requires
            ctx.wf(),
            refs_below(*self, ctx.api.types@.len()),
        ensures
            r == (jsx_in(ctx.api.types@, *self, depth_limit()) == Some(true)),
    {
        match jsx_upto(&ctx.api.types, self, u64::MAX) {
            Some(b) => b,
            None => false,
        }
    }

    /// Whether this is a React element type (`JSX.Element`, `ReactElement`,
    /// an imported `ReactElement`, an application of one, or a union holding
    /// one). Past [`depth_limit`] steps the answer is `false`.
    pub fn is_react_element(&self, ctx: &Context) -> (r: bool)
        requires
            ctx.wf(),
            refs_below(*self, ctx.api.types@.len()),
        ensures
            r == (element_in(ctx.api.types@, *self, depth_limit()) == Some(true)),
    {
        match element_upto(&ctx.api.types, self, u64::MAX) {
            Some(b) => b,
            None => false,
        }
    }

    /// Whether this is an interface or component (used for variable-declarator naming).
    pub fn is_interface_or_component(&self, ctx: &Context) -> (r: bool)
        requires
            ctx.wf(),
            refs_below(*self, ctx.api.types@.len()),
        ensures
            r == interface_or_component(ctx.api.types@, *self),
    {
        match self {
            Type::Interface { .. } => true,
            Type::Component { .. } => true,
            Type::Ref(r) => {
                proof {
                    assert(crate::ty::direct_refs(*self)[0] == *r);
                }
                match &ctx.api.types[r.0 as usize] {
                    Type::Interface { .. } => true,
                    Type::Component { .. } => true,
                    _ => false,
                }
            },
            _ => false,
        }
    }
}

fn jsx_upto(types: &Vec<Type>, t: &Type, fuel: u64) -> (r: Option<bool>)
    requires
        arena_wf(types@),
        refs_below(*t, types@.len()),
    ensures
        r == jsx_in(types@, *t, fuel as nat),
    decreases fuel,
{
    proof {
        reveal_strlit("JSX.Element");
    }
    if fuel == 0 {
        return None;
    }
    match t {
        Type::Identifier { name } => Some(str_eq(name.as_str(), "JSX.Element")),
        Type::Union { elements } => {
            let ghost es = elements@;
            proof {
                assert(crate::ty::direct_refs(*t) == es);
                assert(es.skip(0) == es);
            }
            let mut k: usize = 0;
            while k < elements.len()
                invariant
                    arena_wf(types@),
                    es == elements@,
                    fuel > 0,
                    k <= es.len(),
                    forall|i: int| 0 <= i < es.len() ==> id_below(#[trigger] es[i], types@.len()),
                    any_jsx_in(types@, es, (fuel - 1) as nat) == any_jsx_in(types@, es.skip(k as int), (fuel - 1) as nat),
                    jsx_in(types@, *t, fuel as nat) == any_jsx_in(types@, es, (fuel - 1) as nat),
                decreases es.len() - k,
            {
                proof {
                    assert(es.skip(k as int)[0] == es[k as int]);
                    assert(es.skip(k as int).drop_first() == es.skip(k + 1));
                    assert(id_below(es[k as int], types@.len()));
                }
                let e = elements[k];
                let sub = jsx_upto(types, &types[e.0 as usize], fuel - 1);
                match sub {
                    Some(false) => {},
                    _ => {
                        proof {
                            assert(any_jsx_in(types@, es.skip(k as int), (fuel - 1) as nat) == sub);

                        }
                        return sub;
                    },
                }
                k = k + 1;
            }
            proof {
                assert(es.skip(k as int).len() == 0);
            }
            Some(false)
        },
        Type::Ref(r) => {
            proof {
                assert(crate::ty::direct_refs(*t)[0] == *r);
            }
            jsx_upto(types, &types[r.0 as usize], fuel - 1)
        },
        _ => Some(false),
    }
}

fn element_name(name: &String) -> (r: bool)
    ensures
        r == is_element_name(name@),
{
    str_eq(name.as_str(), "JSX.Element") || str_eq(name.as_str(), "React.JSX.Element") || str_eq(
        name.as_str(),
        "ReactElement",
    ) || str_eq(name.as_str(), "React.ReactElement")
}

fn element_upto(types: &Vec<Type>, t: &Type, fuel: u64) -> (r: Option<bool>)
    requires
        arena_wf(types@),
        refs_below(*t, types@.len()),
    ensures
        r == element_in(types@, *t, fuel as nat),
    decreases fuel,
{
    proof {
        reveal_strlit("ReactElement");
    }
    if fuel == 0 {
        return None;
    }
    match t {
        Type::Identifier { name } => Some(element_name(name)),
        Type::Reference { imported, .. } => Some(
            match imported {
                Some(i) => str_eq(i.as_str(), "ReactElement"),
                None => false,
            },
        ),
        Type::Application { base, .. } => {
            proof {
                assert(crate::ty::direct_refs(*t)[0] == *base);
            }
            element_upto(types, &types[base.0 as usize], fuel - 1)
        },
        Type::Union { elements } => {
            let ghost es = elements@;
            proof {
                assert(crate::ty::direct_refs(*t) == es);
                assert(es.skip(0) == es);
            }
            let mut k: usize = 0;
            while k < elements.len()
                invariant
                    arena_wf(types@),
                    es == elements@,
                    fuel > 0,
                    k <= es.len(),
                    forall|i: int| 0 <= i < es.len() ==> id_below(#[trigger] es[i], types@.len()),
                    any_element_in(types@, es, (fuel - 1) as nat) == any_element_in(types@, es.skip(k as int), (fuel - 1) as nat),
                    element_in(types@, *t, fuel as nat) == any_element_in(types@, es, (fuel - 1) as nat),
                decreases es.len() - k,
            {
                proof {
                    assert(es.skip(k as int)[0] == es[k as int]);
                    assert(es.skip(k as int).drop_first() == es.skip(k + 1));
                    assert(id_below(es[k as int], types@.len()));
                }
                let e = elements[k];
                let sub = element_upto(types, &types[e.0 as usize], fuel - 1);
                match sub {
                    Some(false) => {},
                    _ => {
                        proof {
                            assert(any_element_in(types@, es.skip(k as int), (fuel - 1) as nat) == sub);

                        }
                        return sub;
                    },
                }
                k = k + 1;
            }
            proof {
                assert(es.skip(k as int).len() == 0);
            }
            Some(false)
        },
        Type::Ref(r) => {
            proof {
                assert(crate::ty::direct_refs(*t)[0] == *r);
            }
            element_upto(types, &types[r.0 as usize], fuel - 1)
        },
        _ => Some(false),
    }
}

} // verus!
