//! Reading declarations and module items: what a module declares and exports.
use vstd::prelude::*;
use crate::API;
use crate::ast::{BindPat, ClassDecl, Decl, DefaultDecl, Expr, ExprWithTypeArgs, FnDecl, ImportSpecifier, InterfaceDecl, LocalExportSpecifier, ModuleItem, ObjectPatProp, ReexportSpecifier, TypeAliasDecl, VarDecl, VarDeclarator};
use crate::indexed::{entries_insert, id_map_entries, items_insert, key_pos, lemma_key_pos, str_set_insert, str_set_items, prop_map_entries};
use crate::jsdoc::JsDocs;
use crate::parse::{BindingId, Context, decl_of, lemma_arena_update, lemma_decl_of_grow, lemma_docs_keep_refs};
use crate::reader::{ToType, ctx_step, define_type_params, elements_to_properties, ids_below, items_grow, keys_inserted, entry_keys, element_names, lemma_fields_refs, lemma_step_refl, ts_type_shape, types_to_ids};
use crate::values::{expr_shape, join_with, lemma_rename_keeps_refs, params_doc_from, qualified_id, qualified};
use crate::ty::{Type, TypeId, id_below, refs_below, spec_with_id, spec_with_name};

verus! {

// ---------------------------------------------------------------------------
// What reading a module gives.

/// The keys of a map's entries.
pub open spec fn id_keys(e: Seq<(Seq<char>, TypeId)>) -> Seq<Seq<char>> {
    e.map_values(|x: (Seq<char>, TypeId)| x.0)
}

/// The names a binding pattern binds, in order.
pub open spec fn bind_names(p: BindPat) -> Seq<Seq<char>>
    decreases p,
{
    match p {
        BindPat::Ident { id, .. } => seq![id.sym@],
        BindPat::Array(els) => array_names(els@),
        BindPat::Object(props) => object_names(props@),
        BindPat::Rest(inner) => bind_names(*inner),
        BindPat::Assign(inner) => bind_names(*inner),
        BindPat::Other => Seq::empty(),
    }
}

/// The names the elements of an array pattern bind, in order.
pub open spec fn array_names(els: Seq<Option<BindPat>>) -> Seq<Seq<char>>
    decreases els,
{
    if els.len() == 0 {
        Seq::empty()
    } else {
        array_names(els.drop_last()) + match els.last() {
            Some(p) => bind_names(p),
            None => Seq::empty(),
        }
    }
}

/// The names the properties of an object pattern bind, in order.
pub open spec fn object_names(props: Seq<ObjectPatProp>) -> Seq<Seq<char>>
    decreases props,
{
    if props.len() == 0 {
        Seq::empty()
    } else {
        object_names(props.drop_last()) + match props.last() {
            ObjectPatProp::KeyValue(p) => bind_names(p),
            ObjectPatProp::Assign(k) => seq![k@],
            ObjectPatProp::Rest(p) => bind_names(p),
        }
    }
}

/// The names a variable declarator exports.
pub open spec fn declarator_names(d: VarDeclarator) -> Seq<Seq<char>> {
    bind_names(d.name)
}

/// The names the declarators of a variable declaration export, in order.
pub open spec fn declarators_names(ds: Seq<VarDeclarator>) -> Seq<Seq<char>>
    decreases ds.len(),
{
    if ds.len() == 0 {
        Seq::empty()
    } else {
        declarators_names(ds.drop_last()) + declarator_names(ds.last())
    }
}

/// The type a class, function, interface or alias declaration of a module at
/// `path` declares its binding as (before a doc block in front of an
/// `export` is applied): it carries the id `<path>:<name>` and the name, and
/// - a class reads as an interface;
/// - a function as a function or (returning JSX) a component, with one
///   parameter for each of its own, the description and examples of the doc
///   block in front of it (else of its own), and each parameter described by
///   its `@param` entry there (else in its own doc block);
/// - an interface with one base per `extends` entry, its type parameters,
///   its members' names as property keys, and its doc block's `@access`;
/// - an alias with its type parameters, its doc block's `@access`, and as
///   value the entry `types` holds for what its annotation reads as.
pub open spec fn declared_entry(d: Decl, path: Seq<char>, types: Seq<Type>, t: Type) -> bool {
    match d {
        Decl::Class(c) => t matches Type::Interface { id, name, .. } && id@ == qualified(path, c.ident.sym@) && name@
            == c.ident.sym@,
        Decl::Fn(f) => match t {
            Type::Function { id: Some(i), name: Some(n), parameters, description, examples, .. } => i@ == qualified(
                path,
                f.ident.sym@,
            ) && n@ == f.ident.sym@ && parameters@.len() == f.function.params@.len() && fn_docs_ok(f, description, examples)
                && params_doc_from(parameters@, f.docs@.params) && forall|k: int|
                0 <= k < parameters@.len() && key_pos(f.docs@.params, (#[trigger] parameters@[k]).name@) < 0 && key_pos(
                    f.function.docs@.params,
                    parameters@[k].name@,
                ) >= 0 ==> crate::ty::opt_is(
                    parameters@[k].description,
                    f.function.docs@.params[key_pos(f.function.docs@.params, parameters@[k].name@)].1,
                ),
            Type::Component { id: Some(i), name: Some(n), description, examples, .. } => i@ == qualified(path, f.ident.sym@)
                && n@ == f.ident.sym@ && fn_docs_ok(f, description, examples),
            _ => false,
        },
        Decl::Interface(i) => t matches Type::Interface { id, name, extends, properties, type_parameters, access, .. }
            && id@ == qualified(path, i.id.sym@) && name@ == i.id.sym@ && extends@.len() == i.extends@.len()
            && type_parameters@.len() == i.type_params@.len() && crate::jsdoc::opt_view(access) == i.docs@.access
            && entry_keys(prop_map_entries(properties)) == keys_inserted(element_names(i.body@)),
        Decl::TypeAlias(a) => t matches Type::Alias { id, name, value, type_parameters, access, .. } && id@ == qualified(
            path,
            a.id.sym@,
        ) && name@ == a.id.sym@ && type_parameters@.len() == a.type_params@.len() && crate::jsdoc::opt_view(access)
            == a.docs@.access && crate::reader::ann_stored(types, value, Some(a.type_ann)),
        _ => true,
    }
}

/// An exported declarator binding a plain name binds it to an entry that,
/// before the doc block in front of the `export` was applied, held what the
/// declarator reads as (see [`declarator_reads`]; when the arena had room).
pub open spec fn var_bound(d: VarDeclarator, docs: crate::jsdoc::DocsView, e: Seq<(Seq<char>, TypeId)>, types: Seq<Type>) -> bool {
    match d.name {
        BindPat::Ident { id, .. } => exists|t: TypeId|
            #[trigger] exported_to(e, id.sym@, t) && (types.len() < u32::MAX ==> exists|before: Type|
                #[trigger] declarator_reads(d, types.update(t.0 as int, before), Type::Ref(t)) && if crate::jsdoc::docs_empty(
                    docs,
                ) {
                    types[t.0 as int] == before
                } else {
                    crate::ty::docs_applied(before, docs, None, types[t.0 as int])
                }),
        _ => true,
    }
}

/// The last specifier of a local `export { .. }` read from state `o` into `n`
/// exports the binding it names (declared before the item) under its
/// exported name, and that entry takes the exported name as its name.
pub open spec fn local_export_bound(specifiers: Seq<LocalExportSpecifier>, o: Context, n: Context) -> bool {
    specifiers.len() > 0 ==> match specifiers.last() {
        LocalExportSpecifier::Named { orig, exported } => decl_of(o.decls@, orig) matches Some(t) ==> {
            let name = match exported {
                Some(e) => e,
                None => orig.sym,
            };
            &&& exported_to(id_map_entries(n.api.exports), name@, t)
            &&& n.api.types@[t.0 as int] == spec_with_name(o.api.types@[t.0 as int], name)
        },
        LocalExportSpecifier::Other => true,
    }
}

/// `export default <decl>` binds `default` to what the declaration reads as:
/// an interface, the entry it is declared as (see [`declared_entry`]); an
/// anonymous class, an interface; an anonymous function, a function or a
/// component (when the arena had room).
pub open spec fn default_bound(d: DefaultDecl, path: Seq<char>, e: Seq<(Seq<char>, TypeId)>, types: Seq<Type>) -> bool {
    exists|t: TypeId|
        #[trigger] exported_to(e, "default"@, t) && (types.len() < u32::MAX ==> match d {
            DefaultDecl::Interface(i) => declared_entry(Decl::Interface(i), path, types, types[t.0 as int]),
            DefaultDecl::Class(c) => c.ident is None ==> types[t.0 as int] is Interface,
            DefaultDecl::Fn(f) => f.ident is None ==> (types[t.0 as int] is Function || types[t.0 as int] is Component),
        })
}

/// The name an export specifier exports under: the one written after `as`,
/// else the original name.
pub open spec fn exported_name(orig: String, exported: Option<String>) -> Seq<char> {
    match exported {
        Some(x) => x@,
        None => orig@,
    }
}

/// A re-exported name binds to a `Reference` to the export it takes from
/// `src` (when the arena had room).
pub open spec fn reexport_bound(sp: ReexportSpecifier, src: Seq<char>, e: Seq<(Seq<char>, TypeId)>, types: Seq<Type>) -> bool {
    match sp {
        ReexportSpecifier::Named { orig, exported } => {
            exists|t: TypeId| #[trigger] exported_to(e, exported_name(orig, exported), t) && (types.len() < u32::MAX ==> (types[t.0 as int] matches Type::Reference {
                specifier,
                imported: Some(i),
                local: None,
            } && specifier@ == src && i@ == orig@))
        },
        ReexportSpecifier::Other => true,
    }
}

/// `b` holds the declarations of `a` in front, in order.
pub open spec fn decls_grow_to(a: Seq<(BindingId, TypeId)>, b: Seq<(BindingId, TypeId)>) -> bool {
    &&& a.len() <= b.len()
    &&& forall|i: int| 0 <= i < a.len() ==> b[i] == a[i]
}

/// A function declaration's description and examples: those of the doc
/// block in front of it, else those of its own.
pub open spec fn fn_docs_ok(f: FnDecl, description: Option<String>, examples: Vec<String>) -> bool {
    &&& (f.docs@.description is Some ==> crate::jsdoc::opt_view(description) == f.docs@.description)
    &&& (f.docs@.description is None && f.function.docs@.description is Some ==> crate::jsdoc::opt_view(description)
        == f.function.docs@.description)
    &&& crate::ty::strs_view(examples) == if f.docs@.examples.len() > 0 {
        f.docs@.examples
    } else {
        f.function.docs@.examples
    }
}

/// The export `name` of `e` is bound to `t`.
pub open spec fn exported_to(e: Seq<(Seq<char>, TypeId)>, name: Seq<char>, t: TypeId) -> bool {
    key_pos(e, name) >= 0 && e[key_pos(e, name)].1 == t
}

/// An exported declaration of a class, function, interface or alias binds
/// its name to the entry of the declared binding, which holds the type it is
/// declared as (see [`declared_entry`]) with the doc block in front of the
/// `export` applied (when the arena had room); of a variable declaration, the
/// last declarator is bound as [`var_bound`] says.
pub open spec fn decl_export_bound(
    d: Decl,
    path: Seq<char>,
    docs: crate::jsdoc::DocsView,
    decls: Seq<(BindingId, TypeId)>,
    e: Seq<(Seq<char>, TypeId)>,
    types: Seq<Type>,
) -> bool {
    let bound = |b: BindingId|
        decl_of(decls, b) matches Some(t) && exported_to(e, b.sym@, t) && (types.len() < u32::MAX ==> exists|
            before: Type,
        |
            #[trigger] declared_entry(d, path, types, before) && if crate::jsdoc::docs_empty(docs) {
                types[t.0 as int] == before
            } else {
                crate::ty::docs_applied(before, docs, None, types[t.0 as int])
            });
    match d {
        Decl::Class(c) => bound(c.ident),
        Decl::Fn(f) => bound(f.ident),
        Decl::Interface(i) => bound(i.id),
        Decl::TypeAlias(a) => bound(a.id),
        Decl::Var(v) => v.decls@.len() > 0 ==> var_bound(v.decls@.last(), docs, e, types),
        _ => true,
    }
}

/// An inserted export is bound to the inserted entry.
pub proof fn lemma_exported_insert(e: Seq<(Seq<char>, TypeId)>, name: Seq<char>, t: TypeId)
    ensures
        exported_to(entries_insert(e, name, t), name, t),
{
    lemma_key_pos(e, name);
    let e2 = entries_insert(e, name, t);
    lemma_key_pos(e2, name);
    if key_pos(e, name) >= 0 {
        assert(e2[key_pos(e, name)].0 == name);
        assert(key_pos(e2, name) == key_pos(e, name)) by {
            crate::indexed::lemma_key_pos(e2, name);
        }
    } else {
        assert(e2[e.len() as int].0 == name);
    }
}

/// The names an exported declaration exports.
pub open spec fn decl_export_names(d: Decl) -> Seq<Seq<char>> {
    match d {
        Decl::Class(c) => seq![c.ident.sym@],
        Decl::Fn(f) => seq![f.ident.sym@],
        Decl::Interface(i) => seq![i.id.sym@],
        Decl::TypeAlias(t) => seq![t.id.sym@],
        Decl::Var(v) => declarators_names(v.decls@),
        Decl::Other => Seq::empty(),
    }
}

/// The name a re-export specifier exports.
pub open spec fn reexport_name(s: ReexportSpecifier) -> Seq<Seq<char>> {
    match s {
        ReexportSpecifier::Named { orig, exported } => seq![
            match exported {
                Some(e) => e@,
                None => orig@,
            },
        ],
        ReexportSpecifier::Other => Seq::empty(),
    }
}

/// The names the specifiers of a re-export export, in order.
pub open spec fn reexport_names(ss: Seq<ReexportSpecifier>) -> Seq<Seq<char>>
    decreases ss.len(),
{
    if ss.len() == 0 {
        Seq::empty()
    } else {
        reexport_names(ss.drop_last()) + reexport_name(ss.last())
    }
}

/// The name a local export specifier exports.
pub open spec fn local_export_name(s: LocalExportSpecifier) -> Seq<Seq<char>> {
    match s {
        LocalExportSpecifier::Named { orig, exported } => seq![
            match exported {
                Some(e) => e@,
                None => orig.sym@,
            },
        ],
        LocalExportSpecifier::Other => Seq::empty(),
    }
}

/// The names the specifiers of a local export export, in order.
pub open spec fn local_export_names(ss: Seq<LocalExportSpecifier>) -> Seq<Seq<char>>
    decreases ss.len(),
{
    if ss.len() == 0 {
        Seq::empty()
    } else {
        local_export_names(ss.drop_last()) + local_export_name(ss.last())
    }
}

/// The names a module item exports, in order.
pub open spec fn item_export_names(it: ModuleItem) -> Seq<Seq<char>> {
    match it {
        ModuleItem::ExportDecl { decl, .. } => decl_export_names(decl),
        ModuleItem::ExportDefault(_) => seq!["default"@],
        ModuleItem::Reexport { specifiers, .. } => reexport_names(specifiers@),
        ModuleItem::LocalExport(specifiers) => local_export_names(specifiers@),
        _ => Seq::empty(),
    }
}

/// The names the items of a module export, in order.
pub open spec fn items_export_names(items: Seq<ModuleItem>) -> Seq<Seq<char>>
    decreases items.len(),
{
    if items.len() == 0 {
        Seq::empty()
    } else {
        items_export_names(items.drop_last()) + item_export_names(items.last())
    }
}

/// The modules a module re-exports everything from (`export * from`), in order.
pub open spec fn export_all_sources(items: Seq<ModuleItem>) -> Seq<Seq<char>>
    decreases items.len(),
{
    if items.len() == 0 {
        Seq::empty()
    } else {
        export_all_sources(items.drop_last()) + match items.last() {
            ModuleItem::ExportAll { src } => seq![src@],
            _ => Seq::empty(),
        }
    }
}

/// The module an item re-exports from, if it is a re-export.
pub open spec fn item_source(it: ModuleItem) -> Option<Seq<char>> {
    match it {
        ModuleItem::Reexport { src, .. } => Some(src@),
        ModuleItem::ExportAll { src } => Some(src@),
        _ => None,
    }
}

/// A step of reading a module: the state stays well formed, the arena only
/// grows and dependencies are only added.
pub open spec fn visit_step(o: Context, n: Context) -> bool {
    &&& n.wf()
    &&& n.path == o.path
    &&& o.api.types@.len() <= n.api.types@.len()
    &&& items_grow(str_set_items(o.api.dependencies), str_set_items(n.api.dependencies))
}

/// The keys of a map after an insertion.
pub proof fn lemma_id_keys_insert(e: Seq<(Seq<char>, TypeId)>, k: Seq<char>, v: TypeId)
    ensures
        id_keys(entries_insert(e, k, v)) == (if id_keys(e).contains(k) {
            id_keys(e)
        } else {
            id_keys(e).push(k)
        }),
{
    lemma_key_pos(e, k);
    let ks = id_keys(e);
    if key_pos(e, k) >= 0 {
        assert(ks[key_pos(e, k)] == k);
        assert(ks.contains(k));
        assert(id_keys(entries_insert(e, k, v)) =~= ks);
    } else {
        assert(!ks.contains(k)) by {
            if ks.contains(k) {
                let j = choose|j: int| 0 <= j < ks.len() && ks[j] == k;
                assert(e[j].0 == k);
            }
        }
        assert(id_keys(entries_insert(e, k, v)) =~= ks.push(k));
    }
}

pub proof fn lemma_visit_trans(a: Context, b: Context, c: Context)
    requires
        visit_step(a, b),
        visit_step(b, c),
    ensures
        visit_step(a, c),
{
    let x = str_set_items(a.api.dependencies);
    let y = str_set_items(b.api.dependencies);
    assert forall|i: int| 0 <= i < x.len() implies str_set_items(c.api.dependencies)[i] == x[i] by {
        assert(y[i] == x[i]);
    }
}

/// Inserting an item keeps the items in front.
pub proof fn lemma_items_insert_grow(s: Seq<Seq<char>>, x: Seq<char>)
    ensures
        items_grow(s, items_insert(s, x)),
        items_insert(s, x).contains(x),
{
    if !s.contains(x) {
        assert(s.push(x)[s.len() as int] == x);
    }
}

// ---------------------------------------------------------------------------
// Small pieces.

/// The dotted name of a chain of identifiers and member accesses
/// (`Intl.NumberFormatOptions`), if the expression is one.
pub open spec fn dotted_expr(e: Expr) -> Option<Seq<char>>
    decreases e,
{
    match e {
        Expr::Ident(id) => Some(id.sym@),
        Expr::Member { object, property: Some(p) } => match dotted_expr(*object) {
            Some(o) => Some(o + seq!['.'] + p@),
            None => None,
        },
        _ => None,
    }
}

/// The dotted name of a chain of identifiers and member accesses, if the
/// expression is one.
pub fn expr_dotted_name(e: &Expr) -> (r: Option<String>)
    ensures
        match r {
            Some(s) => dotted_expr(*e) == Some(s@),
            None => dotted_expr(*e) is None,
        },
    decreases e,
{
    match e {
        Expr::Ident(id) => Some(id.sym.clone()),
        Expr::Member { object, property: Some(p) } => match expr_dotted_name(object) {
            Some(o) => Some(join_with(o.as_str(), '.', p.as_str())),
            None => None,
        },
        _ => None,
    }
}

/// Collects the names a binding pattern binds.
pub fn collect_binding_idents(p: &BindPat, out: &mut Vec<String>)
    ensures
        final(out)@.map_values(|s: String| s@) == old(out)@.map_values(|s: String| s@) + bind_names(*p),
    decreases p,
{
    match p {
        BindPat::Ident { id, .. } => {
            let ghost o = out@.map_values(|s: String| s@);
            out.push(id.sym.clone());
            proof {
                assert(out@.map_values(|s: String| s@) =~= o + seq![id.sym@]);
            }
        },
        BindPat::Array(els) => collect_array_idents(els, out),
        BindPat::Object(props) => collect_object_idents(props, out),
        BindPat::Rest(inner) => collect_binding_idents(inner, out),
        BindPat::Assign(inner) => collect_binding_idents(inner, out),
        BindPat::Other => {
            proof {
                assert(out@.map_values(|s: String| s@) =~= old(out)@.map_values(|s: String| s@) + Seq::empty());
            }
        },
    }
}

/// Collects the names the elements of an array pattern bind.
fn collect_array_idents(els: &Vec<Option<BindPat>>, out: &mut Vec<String>)
    ensures
        final(out)@.map_values(|s: String| s@) == old(out)@.map_values(|s: String| s@) + array_names(els@),
    decreases els,
{
    let ghost o = out@.map_values(|s: String| s@);
    let mut k: usize = 0;
    proof {
        assert(o + array_names(els@.take(0)) =~= o);
    }
    while k < els.len()
        invariant
            k <= els@.len(),
            out@.map_values(|s: String| s@) == o + array_names(els@.take(k as int)),
        decreases els.len() - k,
    {
        proof {
            assert(els@.take(k + 1).drop_last() =~= els@.take(k as int));
        }
        let ghost before = out@.map_values(|s: String| s@);
        match &els[k] {
            Some(q) => collect_binding_idents(q, out),
            None => {},
        }
        proof {
            assert(out@.map_values(|s: String| s@) =~= o + array_names(els@.take(k + 1)));
        }
        k = k + 1;
    }
    proof {
        assert(els@.take(els@.len() as int) =~= els@);
    }
}

/// Collects the names the properties of an object pattern bind.
fn collect_object_idents(props: &Vec<ObjectPatProp>, out: &mut Vec<String>)
    ensures
        final(out)@.map_values(|s: String| s@) == old(out)@.map_values(|s: String| s@) + object_names(props@),
    decreases props,
{
    let ghost o = out@.map_values(|s: String| s@);
    let mut k: usize = 0;
    proof {
        assert(o + object_names(props@.take(0)) =~= o);
    }
    while k < props.len()
        invariant
            k <= props@.len(),
            out@.map_values(|s: String| s@) == o + object_names(props@.take(k as int)),
        decreases props.len() - k,
    {
        proof {
            assert(props@.take(k + 1).drop_last() =~= props@.take(k as int));
        }
        match &props[k] {
            ObjectPatProp::KeyValue(q) => collect_binding_idents(q, out),
            ObjectPatProp::Assign(key) => {
                let ghost o2 = out@.map_values(|s: String| s@);
                out.push(key.clone());
                proof {
                    assert(out@.map_values(|s: String| s@) =~= o2 + seq![key@]);
                }
            },
            ObjectPatProp::Rest(q) => collect_binding_idents(q, out),
        }
        proof {
            assert(out@.map_values(|s: String| s@) =~= o + object_names(props@.take(k + 1)));
        }
        k = k + 1;
    }
    proof {
        assert(props@.take(props@.len() as int) =~= props@);
    }
}

/// The keys a map has after `names` are inserted in order into a map with
/// keys `ks` (a name already present keeps its position).
pub open spec fn keys_extended(ks: Seq<Seq<char>>, names: Seq<Seq<char>>) -> Seq<Seq<char>>
    decreases names.len(),
{
    if names.len() == 0 {
        ks
    } else {
        let k = keys_extended(ks, names.drop_last());
        if k.contains(names.last()) {
            k
        } else {
            k.push(names.last())
        }
    }
}

pub proof fn lemma_keys_inserted_ext(names: Seq<Seq<char>>)
    ensures
        keys_inserted(names) == keys_extended(Seq::empty(), names),
    decreases names.len(),
{
    if names.len() > 0 {
        lemma_keys_inserted_ext(names.drop_last());
    }
}

pub proof fn lemma_keys_ext_concat(ks: Seq<Seq<char>>, a: Seq<Seq<char>>, b: Seq<Seq<char>>)
    ensures
        keys_extended(keys_extended(ks, a), b) == keys_extended(ks, a + b),
    decreases b.len(),
{
    if b.len() == 0 {
        assert(a + b =~= a);
    } else {
        lemma_keys_ext_concat(ks, a, b.drop_last());
        assert((a + b).drop_last() =~= a + b.drop_last());
        assert((a + b).last() == b.last());
    }
}

pub proof fn lemma_keys_ext_push(ks: Seq<Seq<char>>, names: Seq<Seq<char>>, n: Seq<char>)
    ensures
        keys_extended(ks, names.push(n)) == ({
            let k = keys_extended(ks, names);
            if k.contains(n) {
                k
            } else {
                k.push(n)
            }
        }),
{
    assert(names.push(n).drop_last() =~= names);
}

impl Context {
    /// Sets the id and name of an arena entry.
    pub fn rename_at(&mut self, t: TypeId, id: String, name: String)
        requires
            old(self).wf(),
            id_below(t, old(self).api.types@.len()),
        ensures
            final(self).wf(),
            final(self).path == old(self).path,
            final(self).decls == old(self).decls,
            final(self).api.dependencies == old(self).api.dependencies,
            final(self).api.exports == old(self).api.exports,
            final(self).api.export_all == old(self).api.export_all,
            final(self).api.types@ == old(self).api.types@.update(
                t.0 as int,
                spec_with_name(spec_with_id(old(self).api.types@[t.0 as int], id), name),
            ),
    {
        let i = t.0 as usize;
        let ghost before = self.api.types@;
        let ghost gid = id;
        let ghost gname = name;
        let mut ty = Type::Any;
        std::mem::swap(&mut ty, &mut self.api.types[i]);
        let ghost t0 = ty;
        proof {
            assert(t0 == before[i as int]);
            lemma_rename_keeps_refs(t0, gid, gname, before.len());
        }
        ty.set_id(id);
        ty.set_name(name);
        self.api.types.set(i, ty);
        proof {
            lemma_arena_update(before, i as int, ty);
        }
    }

    /// Sets the name of an arena entry.
    pub fn set_name_at(&mut self, t: TypeId, name: String)
        requires
            old(self).wf(),
            id_below(t, old(self).api.types@.len()),
        ensures
            final(self).wf(),
            final(self).path == old(self).path,
            final(self).decls == old(self).decls,
            final(self).api.dependencies == old(self).api.dependencies,
            final(self).api.exports == old(self).api.exports,
            final(self).api.export_all == old(self).api.export_all,
            final(self).api.types@ == old(self).api.types@.update(
                t.0 as int,
                spec_with_name(old(self).api.types@[t.0 as int], name),
            ),
    {
        let i = t.0 as usize;
        let ghost before = self.api.types@;
        let ghost gname = name;
        let mut ty = Type::Any;
        std::mem::swap(&mut ty, &mut self.api.types[i]);
        let ghost t0 = ty;
        proof {
            assert(t0 == before[i as int]);
            lemma_rename_keeps_refs(t0, name, gname, before.len());
        }
        ty.set_name(name);
        self.api.types.set(i, ty);
        proof {
            lemma_arena_update(before, i as int, ty);
        }
    }
}

// ---------------------------------------------------------------------------
// Reading declarations.

impl ToType for ExprWithTypeArgs {
    /// Reads a heritage clause (`extends Base<T>`). A member chain in a type
    /// position reads as its dotted identifier (`Intl.NumberFormatOptions`).
    fn to_type(&self, ctx: &mut Context) -> (r: Type)
        ensures
            match self.type_args {
                Some(args) => r matches Type::Application { type_parameters, .. } && type_parameters@.len() == args@.len(),
                None => (*self.expr is Member && dotted_expr(*self.expr) is Some) ==> (r matches Type::Identifier { name }
                    && Some(name@) == dotted_expr(*self.expr)),
            },
    {
        proof {
            lemma_step_refl(*ctx);
        }
        let base = match &*self.expr {
            Expr::Member { .. } => match expr_dotted_name(&self.expr) {
                Some(name) => Type::Identifier { name },
                None => self.expr.to_type(ctx),
            },
            _ => self.expr.to_type(ctx),
        };
        match &self.type_args {
            Some(args) => {
                let type_parameters = types_to_ids(args, ctx);
                let b = ctx.add_type(base);
                let r = Type::Application { base: b, type_parameters };
                proof {
                    lemma_fields_refs(r, ctx.api.types@.len());
                }
                r
            },
            None => base,
        }
    }
}

impl ToType for ClassDecl {
    /// Reads a class declaration and declares it under its name, with the
    /// id `<path>:<name>`.
    fn to_type(&self, ctx: &mut Context) -> (r: Type)
        ensures
            decl_of(final(ctx).decls@, self.ident) is Some,
            r == Type::Ref(decl_of(final(ctx).decls@, self.ident)->0),
            final(ctx).api.types@.len() < u32::MAX ==> declared_entry(
                Decl::Class(*self),
                final(ctx).path@,
                final(ctx).api.types@,
                final(ctx).api.types@[(decl_of(final(ctx).decls@, self.ident)->0).0 as int],
            ),
    {
        let mut ty = self.class.to_type(ctx);
        let ghost t0 = ty;
        let id = qualified_id(ctx, &self.ident.sym);
        let name = self.ident.sym.clone();
        proof {
            lemma_rename_keeps_refs(t0, id, name, ctx.api.types@.len());
        }
        ty.set_id(id);
        ty.set_name(name);
        let ghost t1 = ty;
        let docs = self.docs.duplicate();
        let ghost d = docs@;
        ty.add_docs(docs, None);
        proof {
            lemma_docs_keep_refs(t1, d, None, ty, ctx.api.types@.len());
        }
        ctx.add_decl(self.ident.duplicate(), ty)
    }
}

impl ToType for FnDecl {
    /// Reads a function declaration and declares it under its name, with the
    /// id `<path>:<name>`.
    fn to_type(&self, ctx: &mut Context) -> (r: Type)
        ensures
            decl_of(final(ctx).decls@, self.ident) is Some,
            r == Type::Ref(decl_of(final(ctx).decls@, self.ident)->0),
            final(ctx).api.types@.len() < u32::MAX ==> declared_entry(
                Decl::Fn(*self),
                final(ctx).path@,
                final(ctx).api.types@,
                final(ctx).api.types@[(decl_of(final(ctx).decls@, self.ident)->0).0 as int],
            ),
    {
        let mut f = self.function.to_type(ctx);
        let ghost t0 = f;
        let id = qualified_id(ctx, &self.ident.sym);
        let name = self.ident.sym.clone();
        proof {
            lemma_rename_keeps_refs(t0, id, name, ctx.api.types@.len());
        }
        f.set_id(id);
        f.set_name(name);
        let ghost t1 = f;
        let docs = self.docs.duplicate();
        let ghost d = docs@;
        f.add_docs(docs, None);
        proof {
            lemma_docs_keep_refs(t1, d, None, f, ctx.api.types@.len());
        }
        let ghost t2 = f;
        let r = ctx.add_decl(self.ident.duplicate(), f);
        proof {
            if ctx.api.types@.len() < u32::MAX {
                let e = ctx.api.types@[(decl_of(ctx.decls@, self.ident)->0).0 as int];
                if let Type::Function { parameters: p0, .. } = t0 {
                    if let Type::Function { parameters: p2, .. } = t2 {
                        assert forall|k: int| 0 <= k < p2@.len() implies crate::ty::param_documented(
                            #[trigger] p0@[k],
                            d.params,
                            p2@[k],
                        ) by {}
                        assert forall|k: int|
                            0 <= k < p2@.len() && key_pos(d.params, (#[trigger] p2@[k]).name@) >= 0 implies crate::ty::opt_is(
                            p2@[k].description,
                            d.params[key_pos(d.params, p2@[k].name@)].1,
                        ) by {
                            assert(crate::ty::param_documented(p0@[k], d.params, p2@[k]));
                        }
                        let fd = self.function.docs@.params;
                        assert forall|k: int|
                            0 <= k < p2@.len() && key_pos(d.params, (#[trigger] p2@[k]).name@) < 0 && key_pos(fd, p2@[k].name@)
                                >= 0 implies crate::ty::opt_is(p2@[k].description, fd[key_pos(fd, p2@[k].name@)].1) by {
                            assert(crate::ty::param_documented(p0@[k], d.params, p2@[k]));
                            assert(p0@[k].name == p2@[k].name);
                        }
                        if let Type::Function { parameters: pe, .. } = e {
                            assert(pe == p2);
                        }
                    }
                }
                assert(declared_entry(Decl::Fn(*self), ctx.path@, ctx.api.types@, e));
            }
        }
        r
    }
}

impl ToType for InterfaceDecl {
    /// Reads an interface declaration (its type parameters, heritage and
    /// members) and declares it under its name, with the id `<path>:<name>`.
    fn to_type(&self, ctx: &mut Context) -> (r: Type)
        ensures
            decl_of(final(ctx).decls@, self.id) is Some,
            r == Type::Ref(decl_of(final(ctx).decls@, self.id)->0),
            final(ctx).api.types@.len() < u32::MAX ==> declared_entry(
                Decl::Interface(*self),
                final(ctx).path@,
                final(ctx).api.types@,
                final(ctx).api.types@[(decl_of(final(ctx).decls@, self.id)->0).0 as int],
            ),
    {
        let id = qualified_id(ctx, &self.id.sym);
        let name = self.id.sym.clone();
        let type_parameters = define_type_params(&self.type_params, ctx);
        let mut extends: Vec<TypeId> = Vec::new();
        let mut k: usize = 0;
        while k < self.extends.len()
            invariant
                k <= self.extends@.len(),
                extends@.len() == k,
                ctx_step(*old(ctx), *ctx),
                ids_below(extends@, ctx.api.types@.len()),
                ids_below(type_parameters@, ctx.api.types@.len()),
            decreases self.extends.len() - k,
        {
            let t = self.extends[k].to_type(ctx);
            let e = ctx.add_type(t);
            extends.push(e);
            k = k + 1;
        }
        let properties = elements_to_properties(&self.body, ctx);
        let ty = Type::Interface {
            id,
            name,
            extends,
            properties,
            type_parameters,
            description: crate::ty::copy_opt(&self.docs.description),
            access: crate::ty::copy_opt(&self.docs.access),
        };
        proof {
            lemma_fields_refs(ty, ctx.api.types@.len());
        }
        ctx.add_decl(self.id.duplicate(), ty)
    }
}

impl ToType for TypeAliasDecl {
    /// Reads a type alias and declares it under its name, with the id
    /// `<path>:<name>`.
    fn to_type(&self, ctx: &mut Context) -> (r: Type)
        ensures
            decl_of(final(ctx).decls@, self.id) is Some,
            r == Type::Ref(decl_of(final(ctx).decls@, self.id)->0),
            final(ctx).api.types@.len() < u32::MAX ==> declared_entry(
                Decl::TypeAlias(*self),
                final(ctx).path@,
                final(ctx).api.types@,
                final(ctx).api.types@[(decl_of(final(ctx).decls@, self.id)->0).0 as int],
            ),
            final(ctx).api.types@.len() < u32::MAX ==> (final(ctx).api.types@[(decl_of(final(ctx).decls@, self.id)->0).0 as int] matches Type::Alias {
                value,
                ..
            } ==> (value != decl_of(final(ctx).decls@, self.id)->0 || ts_type_shape(self.type_ann, Type::Ref(value)))),
    {
        let id = qualified_id(ctx, &self.id.sym);
        let name = self.id.sym.clone();
        let type_parameters = define_type_params(&self.type_params, ctx);
        let t = self.type_ann.to_type(ctx);
        let ghost before_decls = ctx.decls@;
        let ghost n0 = ctx.api.types@.len();
        let value = ctx.add_type(t);
        let ghost types1 = ctx.api.types@;
        proof {
            crate::parse::lemma_decl_pos(ctx.decls@, self.id);
            if decl_of(ctx.decls@, self.id) is Some {
                assert(id_below(ctx.decls@[crate::parse::decl_pos(ctx.decls@, self.id)].1, n0));
            }
        }
        let ty = Type::Alias {
            id,
            name,
            value,
            type_parameters,
            description: crate::ty::copy_opt(&self.docs.description),
            access: crate::ty::copy_opt(&self.docs.access),
        };
        proof {
            lemma_fields_refs(ty, ctx.api.types@.len());
        }
        let r = ctx.add_decl(self.id.duplicate(), ty);
        proof {
            if ctx.api.types@.len() < u32::MAX {
                let x = (decl_of(ctx.decls@, self.id)->0).0 as int;
                assert(n0 < u32::MAX);
                if t is Ref {
                    assert(t == Type::Ref(value));
                    assert(crate::reader::stored_at(ctx.api.types@, value, t));
                    assert(crate::reader::ann_stored(ctx.api.types@, value, Some(self.type_ann)));
                } else {
                    assert(value.0 == n0);
                    assert(x != value.0);
                    assert(ctx.api.types@[value.0 as int] == types1[value.0 as int]);
                    crate::reader::lemma_ann_stored_same(types1, ctx.api.types@, value, Some(self.type_ann));
                }
            }
        }
        r
    }
}

/// Whether an initializer reads as a type of its own rather than as a `Ref`
/// to another entry: names, casts, calls of a component wrapper and named
/// function or class expressions may read as a `Ref`.
pub open spec fn reads_own_type(e: Expr) -> bool
    decreases e,
{
    match e {
        Expr::Paren(inner) => reads_own_type(*inner),
        Expr::TypeCast(_) => false,
        Expr::Satisfies(_) => false,
        Expr::Ident(_) => false,
        Expr::Fn(f) => f.ident is None,
        Expr::Class(c) => c.ident is None,
        Expr::Call(c) => c.callee is None,
        _ => true,
    }
}

/// Whether a declarator declares its binding: it binds a plain identifier
/// without a type annotation, and its initializer, if any, reads as a type of
/// its own.
pub open spec fn declares_binding(d: VarDeclarator) -> bool {
    &&& d.name matches BindPat::Ident { type_ann, .. } && type_ann is None
    &&& match d.init {
        Some(e) => reads_own_type(*e),
        None => true,
    }
}

/// The arena entry `entry` holds the type `t` as read, up to the fields a
/// declaration sets on it (id, name, documentation): a type without such
/// fields is held as it is.
pub open spec fn read_as(entry: Type, t: Type) -> bool {
    match t {
        Type::Function { .. } => entry is Function,
        Type::Component { .. } => entry is Component,
        Type::Alias { .. } => entry is Alias,
        Type::Interface { .. } => entry is Interface,
        Type::Object { .. } => entry is Object,
        _ => entry == t,
    }
}

/// What a declarator binding a name reads as: a `Ref` read stays that `Ref`;
/// any other type `t` is declared, and the `Ref` given back points to an
/// entry that holds `t` (when the arena had room).
pub open spec fn declarator_read(types: Seq<Type>, r: Type, t: Type) -> bool {
    match t {
        Type::Ref(x) => r == Type::Ref(x),
        _ => r matches Type::Ref(x) && (types.len() < u32::MAX ==> read_as(types[x.0 as int], t)),
    }
}

/// A declarator binding a plain name reads as its annotation, else as its
/// initializer, else as `any`.
pub open spec fn declarator_reads(d: VarDeclarator, types: Seq<Type>, r: Type) -> bool {
    match d.name {
        BindPat::Ident { type_ann: Some(a), .. } => exists|t: Type| #[trigger] ts_type_shape(a, t) && declarator_read(types, r, t),
        BindPat::Ident { type_ann: None, .. } => match d.init {
            Some(e) => exists|t: Type| #[trigger] expr_shape(*e, t) && declarator_read(types, r, t),
            None => declarator_read(types, r, Type::Any),
        },
        _ => true,
    }
}

proof fn lemma_own_type_not_ref(e: Expr, r: Type)
    requires
        expr_shape(e, r),
    ensures
        reads_own_type(e) ==> !(r is Ref),
    decreases e,
{
    if let Expr::Paren(inner) = e {
        lemma_own_type_not_ref(*inner, r);
    }
}

impl ToType for VarDeclarator {
    /// Reads a variable declarator bound to a plain identifier: its
    /// annotation, else its initializer. An interface or component takes its
    /// id (`<path>:<name>`) and name from the variable; the declarator's doc
    /// block is applied, and the variable is declared. Other patterns read
    /// as `any`.
    fn to_type(&self, ctx: &mut Context) -> (r: Type)
        ensures
            self.name is Ident ==> r is Ref,
            !(self.name is Ident) ==> r == Type::Any,
            self.name matches BindPat::Ident { id, .. } ==> (declares_binding(*self) ==> decl_of(final(ctx).decls@, id) is Some
                && r == Type::Ref(decl_of(final(ctx).decls@, id)->0)),
            declarator_reads(*self, final(ctx).api.types@, r),
    {
        proof {
            lemma_step_refl(*ctx);
        }
        match &self.name {
            BindPat::Ident { id, type_ann } => {
                let mut t = match type_ann {
                    Some(a) => a.to_type(ctx),
                    None => match &self.init {
                        Some(e) => {
                            let t = e.to_type(ctx);
                            proof {
                                lemma_own_type_not_ref(**e, t);
                            }
                            t
                        },
                        None => Type::Any,
                    },
                };
                let ghost t0 = t;
                if t.is_interface_or_component(ctx) {
                    let qid = qualified_id(ctx, &id.sym);
                    let name = id.sym.clone();
                    let target = match &t {
                        Type::Ref(r) => Some(*r),
                        _ => None,
                    };
                    match target {
                        Some(r) => {
                            proof {
                                assert(crate::ty::direct_refs(t)[0] == r);
                            }
                            ctx.rename_at(r, qid, name);
                        },
                        None => {
                            let ghost t0 = t;
                            proof {
                                lemma_rename_keeps_refs(t0, qid, name, ctx.api.types@.len());
                            }
                            t.set_id(qid);
                            t.set_name(name);
                        },
                    }
                }
                let ghost t1 = t;
                proof {
                    assert(read_as(t1, t0));
                }
                ctx.add_docs_at(&mut t, self.docs.duplicate(), None);
                let ghost t2 = t;
                proof {
                    assert(read_as(t2, t1));
                }
                let r = ctx.add_decl(id.duplicate(), t);
                proof {
                    if !(t0 is Ref) && ctx.api.types@.len() < u32::MAX {
                        let x = (decl_of(ctx.decls@, *id)->0).0 as int;
                        assert(read_as(ctx.api.types@[x], t2));
                        assert(read_as(ctx.api.types@[x], t0));
                        assert(declarator_read(ctx.api.types@, r, t0));
                    }
                    assert(declarator_read(ctx.api.types@, r, t0));
                }
                r
            },
            _ => Type::Any,
        }
    }
}

impl ToType for VarDecl {
    /// Reads each declarator of a variable declaration, applying the
    /// declaration's doc block to what each reads as; the declaration itself
    /// reads as `any`. Each binding that reads as a type of its own (see
    /// [`declares_binding`]) is declared.
    fn to_type(&self, ctx: &mut Context) -> (r: Type)
        ensures
            r == Type::Any,
            forall|k: int|
                0 <= k < self.decls@.len() && declares_binding(#[trigger] self.decls@[k]) ==> (self.decls@[k].name matches BindPat::Ident { id, .. }
                    && decl_of(final(ctx).decls@, id) is Some),
    {
        let mut k: usize = 0;
        proof {
            lemma_step_refl(*ctx);
        }
        while k < self.decls.len()
            invariant
                k <= self.decls@.len(),
                ctx_step(*old(ctx), *ctx),
                forall|j: int|
                    0 <= j < k && declares_binding(#[trigger] self.decls@[j]) ==> (self.decls@[j].name matches BindPat::Ident { id, .. }
                        && decl_of(ctx.decls@, id) is Some),
            decreases self.decls.len() - k,
        {
            let ghost d0 = ctx.decls@;
            let mut ty = self.decls[k].to_type(ctx);
            ctx.add_docs_at(&mut ty, self.docs.duplicate(), None);
            proof {
                assert forall|j: int|
                    0 <= j < k + 1 && declares_binding(#[trigger] self.decls@[j]) implies (self.decls@[j].name matches BindPat::Ident { id, .. }
                        && decl_of(ctx.decls@, id) is Some) by {
                    if j < k {
                        if let BindPat::Ident { id, .. } = self.decls@[j].name {
                            lemma_decl_of_grow(d0, ctx.decls@, id);
                        }
                    }
                }
            }
            k = k + 1;
        }
        Type::Any
    }
}

impl ToType for Decl {
    /// Reads a declaration, applying its doc block to what it reads as: a
    /// class, function, interface or alias reads as a `Ref` to the entry of
    /// the name it declares; a variable declaration or another declaration
    /// as `any`.
    fn to_type(&self, ctx: &mut Context) -> (r: Type)
        ensures
            match *self {
                Decl::Class(c) => decl_of(final(ctx).decls@, c.ident) is Some && r == Type::Ref(
                    decl_of(final(ctx).decls@, c.ident)->0,
                ),
                Decl::Fn(f) => decl_of(final(ctx).decls@, f.ident) is Some && r == Type::Ref(
                    decl_of(final(ctx).decls@, f.ident)->0,
                ),
                Decl::Interface(i) => decl_of(final(ctx).decls@, i.id) is Some && r == Type::Ref(
                    decl_of(final(ctx).decls@, i.id)->0,
                ),
                Decl::TypeAlias(t) => decl_of(final(ctx).decls@, t.id) is Some && r == Type::Ref(
                    decl_of(final(ctx).decls@, t.id)->0,
                ),
                Decl::Var(_) => r == Type::Any,
                Decl::Other => r == Type::Any,
            },
    {
        proof {
            lemma_step_refl(*ctx);
        }
        match self {
            Decl::Class(c) => {
                let mut ty = c.to_type(ctx);
                ctx.add_docs_at(&mut ty, c.docs.duplicate(), None);
                ty
            },
            Decl::Fn(f) => {
                let mut ty = f.to_type(ctx);
                ctx.add_docs_at(&mut ty, f.docs.duplicate(), None);
                ty
            },
            Decl::Interface(i) => {
                let mut ty = i.to_type(ctx);
                ctx.add_docs_at(&mut ty, i.docs.duplicate(), None);
                ty
            },
            Decl::TypeAlias(t) => {
                let mut ty = t.to_type(ctx);
                ctx.add_docs_at(&mut ty, t.docs.duplicate(), None);
                ty
            },
            Decl::Var(v) => v.to_type(ctx),
            Decl::Other => Type::Any,
        }
    }
}

// ---------------------------------------------------------------------------
// Reading module items.

/// One more name exported: the keys of the exports grow by it.
proof fn lemma_export_step(
    e: Seq<(Seq<char>, TypeId)>,
    ks: Seq<Seq<char>>,
    names: Seq<Seq<char>>,
    n: Seq<char>,
    t: TypeId,
)
    requires
        id_keys(e) == keys_extended(ks, names),
    ensures
        id_keys(entries_insert(e, n, t)) == keys_extended(ks, names.push(n)),
{
    lemma_id_keys_insert(e, n, t);
    lemma_keys_ext_push(ks, names, n);
}

impl Context {
    /// Exports `t` under `name`.
    fn export(&mut self, name: String, t: TypeId, Ghost(ks): Ghost<Seq<Seq<char>>>, Ghost(names): Ghost<Seq<Seq<char>>>)
        requires
            old(self).wf(),
            id_below(t, old(self).api.types@.len()),
            id_keys(id_map_entries(old(self).api.exports)) == keys_extended(ks, names),
        ensures
            final(self).wf(),
            final(self).path == old(self).path,
            final(self).decls == old(self).decls,
            final(self).api.types == old(self).api.types,
            final(self).api.dependencies == old(self).api.dependencies,
            final(self).api.export_all == old(self).api.export_all,
            id_keys(id_map_entries(final(self).api.exports)) == keys_extended(ks, names.push(name@)),
            id_map_entries(final(self).api.exports) == entries_insert(id_map_entries(old(self).api.exports), name@, t),
    {
        proof {
            lemma_export_step(id_map_entries(self.api.exports), ks, names, name@, t);
        }
        self.api.add_export(name, t);
    }

    /// Declares the bindings an import brings in: each stands for a
    /// `Reference` to the export it names in the imported module.
    pub fn visit_import_decl(&mut self, src: &String, specifiers: &Vec<ImportSpecifier>)
        requires
            old(self).wf(),
        ensures
            ctx_step(*old(self), *final(self)),
            forall|i: int|
                0 <= i < specifiers@.len() ==> (decl_of(final(self).decls@, import_local(#[trigger] specifiers@[i]))
                    is Some),
            old(self).api.types@.len() + specifiers@.len() < u32::MAX ==> forall|i: int|
                0 <= i < specifiers@.len() && fresh_import(old(self).decls@, specifiers@, i) ==> (decl_of(
                    final(self).decls@,
                    import_local(#[trigger] specifiers@[i]),
                ) matches Some(t) && is_import_type(final(self).api.types@[t.0 as int], src@, specifiers@[i])),
    {
        let ghost o = *self;
        let ghost n0 = self.api.types@.len();
        let mut k: usize = 0;
        proof {
            lemma_step_refl(*self);
        }
        while k < specifiers.len()
            invariant
                k <= specifiers@.len(),
                o == *old(self),
                n0 == o.api.types@.len(),
                ctx_step(o, *self),
                self.api.types@.len() <= n0 + k,
                o.decls@.len() <= self.decls@.len(),
                self.decls@.take(o.decls@.len() as int) == o.decls@,
                forall|m: int|
                    o.decls@.len() <= m < self.decls@.len() ==> exists|j: int|
                        0 <= j < k && #[trigger] self.decls@[m].0 == import_local(specifiers@[j]),
                forall|i: int|
                    0 <= i < k ==> (decl_of(self.decls@, import_local(#[trigger] specifiers@[i])) is Some),
                n0 + specifiers@.len() < u32::MAX ==> forall|i: int|
                    0 <= i < k && fresh_import(o.decls@, specifiers@, i) ==> import_declared(
                        self.decls@,
                        self.api.types@,
                        n0,
                        src@,
                        #[trigger] specifiers@[i],
                    ),
            decreases specifiers.len() - k,
        {
            let (local, ty) = match &specifiers[k] {
                ImportSpecifier::Named { local, imported } => {
                    let imported = match imported {
                        Some(i) => i.clone(),
                        None => local.sym.clone(),
                    };
                    (
                        local,
                        Type::Reference {
                            imported: Some(imported),
                            specifier: src.clone(),
                            local: Some(local.sym.clone()),
                        },
                    )
                },
                ImportSpecifier::Default { local } => (
                    local,
                    Type::Reference {
                        imported: Some(String::from_str("default")),
                        specifier: src.clone(),
                        local: Some(local.sym.clone()),
                    },
                ),
                ImportSpecifier::Namespace { local } => (
                    local,
                    Type::Reference { imported: None, specifier: src.clone(), local: Some(local.sym.clone()) },
                ),
            };
            proof {
                reveal_strlit("default");
                assert(*local == import_local(specifiers@[k as int]));
                assert(is_import_type(ty, src@, specifiers@[k as int]));
            }
            let ghost s0 = *self;
            let ghost ty0 = ty;
            let r = self.define(local.duplicate(), ty);
            proof {
                lemma_import_step(o, s0, *self, n0, src@, specifiers@, k as int, ty0, r);
            }
            k = k + 1;
        }
    }
}

/// The binding an import specifier declares.
pub open spec fn import_local(sp: ImportSpecifier) -> BindingId {
    match sp {
        ImportSpecifier::Named { local, .. } => local,
        ImportSpecifier::Default { local } => local,
        ImportSpecifier::Namespace { local } => local,
    }
}

/// The type an import specifier declares its binding as: a `Reference` to
/// the export it names (`default` for a default import, none for a
/// namespace import) in module `src`.
pub open spec fn is_import_type(t: Type, src: Seq<char>, sp: ImportSpecifier) -> bool {
    match t {
        Type::Reference { specifier, imported, local } => specifier@ == src && (local matches Some(l) && l@
            == import_local(sp).sym@) && match sp {
            ImportSpecifier::Named { local: b, imported: i } => imported matches Some(x) && x@ == match i {
                Some(n) => n@,
                None => b.sym@,
            },
            ImportSpecifier::Default { .. } => imported matches Some(x) && x@ == "default"@,
            ImportSpecifier::Namespace { .. } => imported is None,
        },
        _ => false,
    }
}

/// Specifier `i` declares a binding that was not declared before and that no
/// other specifier of the import declares.
pub open spec fn fresh_import(decls: Seq<(BindingId, TypeId)>, sps: Seq<ImportSpecifier>, i: int) -> bool {
    &&& decl_of(decls, import_local(sps[i])) is None
    &&& forall|j: int|
        0 <= j < sps.len() && j != i ==> !crate::parse::same_binding(
            import_local(#[trigger] sps[j]),
            import_local(sps[i]),
        )
}

/// The binding of `sp` is declared with its import type, at an arena entry
/// from `n0` on that no other binding is declared at.
pub open spec fn import_declared(
    decls: Seq<(BindingId, TypeId)>,
    types: Seq<Type>,
    n0: nat,
    src: Seq<char>,
    sp: ImportSpecifier,
) -> bool {
    decl_of(decls, import_local(sp)) matches Some(t) && t.0 >= n0 && t.0 < types.len() && is_import_type(
        types[t.0 as int],
        src,
        sp,
    ) && forall|m: int|
        0 <= m < decls.len() && (#[trigger] decls[m]).1 == t ==> crate::parse::same_binding(
            decls[m].0,
            import_local(sp),
        )
}

/// One step of declaring an import's bindings (defining the binding of
/// specifier `k` as `ty`, at `r`) keeps what the earlier steps established.
proof fn lemma_import_step(
    o: Context,
    a: Context,
    b: Context,
    n0: nat,
    src: Seq<char>,
    sps: Seq<ImportSpecifier>,
    k: int,
    ty: Type,
    r: TypeId,
)
    requires
        0 <= k < sps.len(),
        n0 == o.api.types@.len(),
        ctx_step(o, a),
        a.wf(),
        b.wf(),
        b.path == a.path,
        b.api.exports == a.api.exports,
        b.api.export_all == a.api.export_all,
        b.api.dependencies == a.api.dependencies,
        a.api.types@.len() <= n0 + k,
        o.decls@.len() <= a.decls@.len(),
        a.decls@.take(o.decls@.len() as int) == o.decls@,
        forall|m: int|
            o.decls@.len() <= m < a.decls@.len() ==> exists|j: int|
                0 <= j < k && #[trigger] a.decls@[m].0 == import_local(sps[j]),
        forall|i: int| 0 <= i < k ==> (decl_of(a.decls@, import_local(#[trigger] sps[i])) is Some),
        n0 + sps.len() < u32::MAX ==> forall|i: int|
            0 <= i < k && fresh_import(o.decls@, sps, i) ==> import_declared(
                a.decls@,
                a.api.types@,
                n0,
                src,
                #[trigger] sps[i],
            ),
        is_import_type(ty, src, sps[k]),
        match decl_of(a.decls@, import_local(sps[k])) {
            Some(e) => r == e && b.decls@ == a.decls@ && b.api.types@ == a.api.types@.update(
                e.0 as int,
                crate::parse::keep_description(ty, a.api.types@[e.0 as int]),
            ),
            None => b.decls@ == a.decls@.push((import_local(sps[k]), r)) && if a.api.types@.len() < u32::MAX {
                r == TypeId(a.api.types@.len() as u32) && b.api.types@ == a.api.types@.push(ty)
            } else {
                r == TypeId(0) && b.api.types@ == a.api.types@
            },
        },
    ensures
        ctx_step(o, b),
        b.api.types@.len() <= n0 + k + 1,
        o.decls@.len() <= b.decls@.len(),
        b.decls@.take(o.decls@.len() as int) == o.decls@,
        forall|m: int|
            o.decls@.len() <= m < b.decls@.len() ==> exists|j: int|
                0 <= j < k + 1 && #[trigger] b.decls@[m].0 == import_local(sps[j]),
        forall|i: int| 0 <= i < k + 1 ==> (decl_of(b.decls@, import_local(#[trigger] sps[i])) is Some),
        n0 + sps.len() < u32::MAX ==> forall|i: int|
            0 <= i < k + 1 && fresh_import(o.decls@, sps, i) ==> import_declared(
                b.decls@,
                b.api.types@,
                n0,
                src,
                #[trigger] sps[i],
            ),
{
    let lk = import_local(sps[k]);
    let ad = a.decls@;
    let bd = b.decls@;
    crate::parse::lemma_decl_pos(ad, lk);
    crate::parse::lemma_decl_pos(o.decls@, lk);
    if decl_of(ad, lk) is None {
        assert(bd.drop_last() =~= ad);
        assert(bd.take(o.decls@.len() as int) =~= ad.take(o.decls@.len() as int));
        crate::parse::lemma_first_decl(bd, lk, ad.len() as int);
    }
    assert forall|m: int| o.decls@.len() <= m < bd.len() implies exists|j: int|
        0 <= j < k + 1 && #[trigger] bd[m].0 == import_local(sps[j]) by {
        if m < ad.len() {
            let j = choose|j: int| 0 <= j < k && #[trigger] ad[m].0 == import_local(sps[j]);
            assert(bd[m] == ad[m]);
            assert(bd[m].0 == import_local(sps[j]));
        } else {
            assert(bd[m].0 == import_local(sps[k]));
        }
    }
    assert(bd.take(ad.len() as int) =~= ad);
    assert forall|i: int| 0 <= i < k + 1 implies (decl_of(bd, import_local(#[trigger] sps[i])) is Some) by {
        if i < k {
            lemma_decl_kept(ad, bd, import_local(sps[i]));
        }
    }
    if n0 + sps.len() < u32::MAX {
        assert forall|i: int| 0 <= i < k + 1 && fresh_import(o.decls@, sps, i) implies import_declared(
            bd,
            b.api.types@,
            n0,
            src,
            #[trigger] sps[i],
        ) by {
            let li = import_local(sps[i]);
            if i < k {
                assert(import_declared(ad, a.api.types@, n0, src, sps[i]));
                let ti = decl_of(ad, li)->0;
                match decl_of(ad, lk) {
                    Some(e) => {
                        if e.0 == ti.0 {
                            let m = crate::parse::decl_pos(ad, lk);
                            assert(ad[m].1 == ti);
                            assert(crate::parse::same_binding(ad[m].0, li));
                            assert(crate::parse::same_binding(lk, li));
                            assert(!crate::parse::same_binding(import_local(sps[k]), li));
                        }
                        assert(b.api.types@[ti.0 as int] == a.api.types@[ti.0 as int]);
                    },
                    None => {
                        crate::parse::lemma_decl_pos(ad, li);
                        crate::parse::lemma_decl_pos(bd, li);
                        assert(decl_of(bd, li) == decl_of(ad, li));
                        assert(b.api.types@[ti.0 as int] == a.api.types@[ti.0 as int]);
                        assert forall|m: int| 0 <= m < bd.len() && (#[trigger] bd[m]).1 == ti implies crate::parse::same_binding(
                            bd[m].0,
                            li,
                        ) by {
                            if m < ad.len() {
                                assert(bd[m] == ad[m]);
                            }
                        }
                    },
                }
            } else {
                // The binding of specifier `k` is new: neither declared before
                // the import nor by an earlier specifier.
                if decl_of(ad, lk) is Some {
                    let m = crate::parse::decl_pos(ad, lk);
                    if m < o.decls@.len() {
                        assert(ad.take(o.decls@.len() as int)[m] == ad[m]);
                        assert(o.decls@[m] == ad[m]);
                    } else {
                        let j = choose|j: int| 0 <= j < k && #[trigger] ad[m].0 == import_local(sps[j]);
                        assert(crate::parse::same_binding(import_local(sps[j]), lk));
                    }
                }
                assert(decl_of(ad, lk) is None);
                assert(decl_of(bd, lk) == Some(r));
                assert forall|m: int| 0 <= m < bd.len() && (#[trigger] bd[m]).1 == r implies crate::parse::same_binding(
                    bd[m].0,
                    li,
                ) by {
                    if m < ad.len() {
                        assert(bd[m] == ad[m]);
                        assert(id_below(ad[m].1, a.api.types@.len()));
                    }
                }
            }
        }
    }
}

/// A declaration table that only grew still declares what it declared.
proof fn lemma_decl_kept(d0: Seq<(BindingId, TypeId)>, d1: Seq<(BindingId, TypeId)>, b: BindingId)
    requires
        d0.len() <= d1.len(),
        d1.take(d0.len() as int) == d0,
    ensures
        decl_of(d0, b) is Some ==> decl_of(d1, b) is Some,
{
    crate::parse::lemma_decl_pos(d0, b);
    crate::parse::lemma_decl_pos(d1, b);
    if decl_of(d0, b) is Some {
        let k = crate::parse::decl_pos(d0, b);
        assert(d1.take(d0.len() as int)[k] == d1[k]);
        assert(crate::parse::same_binding(d1[k].0, b));
    }
}

/// An item kept in front stays contained.
proof fn lemma_contains_grow(a: Seq<Seq<char>>, b: Seq<Seq<char>>, x: Seq<char>)
    requires
        items_grow(a, b),
        a.contains(x),
    ensures
        b.contains(x),
{
    let j = choose|j: int| 0 <= j < a.len() && a[j] == x;
    assert(b[j] == x);
}

impl Context {
    /// Reads an exported declaration: the declaration is read, the doc block
    /// in front of `export` is applied to what it declares, and each name it
    /// declares is exported (the names bound by a destructuring declarator as
    /// `any`).
    pub fn visit_export_decl(&mut self, docs: &JsDocs, decl: &Decl)
        requires
            old(self).wf(),
        ensures
            visit_step(*old(self), *final(self)),
            final(self).api.export_all == old(self).api.export_all,
            id_keys(id_map_entries(final(self).api.exports)) == keys_extended(
                id_keys(id_map_entries(old(self).api.exports)),
                decl_export_names(*decl),
            ),
            decl_export_bound(
                *decl,
                final(self).path@,
                docs@,
                final(self).decls@,
                id_map_entries(final(self).api.exports),
                final(self).api.types@,
            ),
    {
        let ghost ks = id_keys(id_map_entries(self.api.exports));
        let ghost none = Seq::<Seq<char>>::empty();
        proof {
            assert(keys_extended(ks, none) == ks);
        }
        match decl {
            Decl::Class(c) => {
                let ty = c.to_type(self);
                if let Type::Ref(t) = ty {
                    proof {
                        assert(crate::ty::direct_refs(ty)[0] == t);
                    }
                    let ghost before = self.api.types@[t.0 as int];
                    self.apply_export_docs(t, docs);
                    self.export(c.ident.sym.clone(), t, Ghost(ks), Ghost(none));
                    proof {
                        assert(none.push(c.ident.sym@) =~= seq![c.ident.sym@]);
                        lemma_key_pos(entries_insert(id_map_entries(old(self).api.exports), c.ident.sym@, t), c.ident.sym@);
                        lemma_exported_insert(id_map_entries(old(self).api.exports), c.ident.sym@, t);
                        if self.api.types@.len() < u32::MAX {
                            assert(declared_entry(*decl, self.path@, self.api.types@, before));
                            if !crate::jsdoc::docs_empty(docs@) {
                                assert(crate::ty::docs_applied(before, docs@, None, self.api.types@[t.0 as int]));
                            }
                        }
                    }
                }
            },
            Decl::Fn(f) => {
                let ty = f.to_type(self);
                if let Type::Ref(t) = ty {
                    proof {
                        assert(crate::ty::direct_refs(ty)[0] == t);
                    }
                    let ghost before = self.api.types@[t.0 as int];
                    self.apply_export_docs(t, docs);
                    self.export(f.ident.sym.clone(), t, Ghost(ks), Ghost(none));
                    proof {
                        assert(none.push(f.ident.sym@) =~= seq![f.ident.sym@]);
                        lemma_key_pos(entries_insert(id_map_entries(old(self).api.exports), f.ident.sym@, t), f.ident.sym@);
                        lemma_exported_insert(id_map_entries(old(self).api.exports), f.ident.sym@, t);
                        if self.api.types@.len() < u32::MAX {
                            assert(declared_entry(*decl, self.path@, self.api.types@, before));
                            if !crate::jsdoc::docs_empty(docs@) {
                                assert(crate::ty::docs_applied(before, docs@, None, self.api.types@[t.0 as int]));
                            }
                        }
                    }
                }
            },
            Decl::Interface(i) => {
                let ty = i.to_type(self);
                if let Type::Ref(t) = ty {
                    proof {
                        assert(crate::ty::direct_refs(ty)[0] == t);
                    }
                    let ghost before = self.api.types@[t.0 as int];
                    self.apply_export_docs(t, docs);
                    self.export(i.id.sym.clone(), t, Ghost(ks), Ghost(none));
                    proof {
                        assert(none.push(i.id.sym@) =~= seq![i.id.sym@]);
                        lemma_key_pos(entries_insert(id_map_entries(old(self).api.exports), i.id.sym@, t), i.id.sym@);
                        lemma_exported_insert(id_map_entries(old(self).api.exports), i.id.sym@, t);
                        if self.api.types@.len() < u32::MAX {
                            assert(declared_entry(*decl, self.path@, self.api.types@, before));
                            if !crate::jsdoc::docs_empty(docs@) {
                                assert(crate::ty::docs_applied(before, docs@, None, self.api.types@[t.0 as int]));
                            }
                        }
                    }
                }
            },
            Decl::TypeAlias(a) => {
                let ty = a.to_type(self);
                if let Type::Ref(t) = ty {
                    proof {
                        assert(crate::ty::direct_refs(ty)[0] == t);
                    }
                    let ghost before = self.api.types@[t.0 as int];
                    let ghost pre = self.api.types@;
                    self.apply_export_docs(t, docs);
                    self.export(a.id.sym.clone(), t, Ghost(ks), Ghost(none));
                    proof {
                        assert(none.push(a.id.sym@) =~= seq![a.id.sym@]);
                        lemma_key_pos(entries_insert(id_map_entries(old(self).api.exports), a.id.sym@, t), a.id.sym@);
                        lemma_exported_insert(id_map_entries(old(self).api.exports), a.id.sym@, t);
                        if self.api.types@.len() < u32::MAX {
                            assert(pre.len() == self.api.types@.len());
                            assert(declared_entry(Decl::TypeAlias(*a), self.path@, pre, before));
                            if let Type::Alias { value, .. } = before {
                                assert(crate::ty::arena_wf(pre));
                                assert(refs_below(pre[t.0 as int], pre.len()));
                                crate::ty::lemma_refs_fields(before, pre.len());
                                if value != t {
                                    assert(value.0 < pre.len());
                                    assert(self.api.types@[value.0 as int] == pre[value.0 as int]);
                                    crate::reader::lemma_ann_stored_same(pre, self.api.types@, value, Some(a.type_ann));
                                } else {
                                    assert(ts_type_shape(a.type_ann, Type::Ref(value)));
                                    assert(crate::reader::stored_at(self.api.types@, value, Type::Ref(value)));
                                }
                            }
                            assert(declared_entry(*decl, self.path@, self.api.types@, before));
                            if !crate::jsdoc::docs_empty(docs@) {
                                assert(crate::ty::docs_applied(before, docs@, None, self.api.types@[t.0 as int]));
                            }
                        }
                    }
                }
            },
            Decl::Var(v) => {
                let mut k: usize = 0;
                proof {
                    assert(declarators_names(v.decls@.take(0)) =~= none);
                }
                while k < v.decls.len()
                    invariant
                        k <= v.decls@.len(),
                        visit_step(*old(self), *self),
                        self.api.export_all == old(self).api.export_all,
                        id_keys(id_map_entries(self.api.exports)) == keys_extended(
                            ks,
                            declarators_names(v.decls@.take(k as int)),
                        ),
                        k > 0 ==> var_bound(v.decls@[k - 1], docs@, id_map_entries(self.api.exports), self.api.types@),
                    decreases v.decls.len() - k,
                {
                    let ghost before = declarators_names(v.decls@.take(k as int));
                    proof {
                        assert(v.decls@.take(k + 1).drop_last() =~= v.decls@.take(k as int));
                        assert(declarators_names(v.decls@.take(k + 1)) == before + declarator_names(v.decls@[k as int]));
                    }
                    let d = &v.decls[k];
                    match &d.name {
                        BindPat::Ident { id, .. } => {
                            let ty = d.to_type(self);
                            if let Type::Ref(t) = ty {
                                proof {
                                    assert(crate::ty::direct_refs(ty)[0] == t);
                                }
                                let ghost pre = self.api.types@;
                                self.apply_export_docs(t, docs);
                                let ghost e0 = id_map_entries(self.api.exports);
                                self.export(id.sym.clone(), t, Ghost(ks), Ghost(before));
                                proof {
                                    assert(before.push(id.sym@) =~= before + bind_names(d.name));
                                    lemma_exported_insert(e0, id.sym@, t);
                                    let types = self.api.types@;
                                    assert(types.update(t.0 as int, pre[t.0 as int]) =~= pre);
                                    assert(declarator_reads(*d, types.update(t.0 as int, pre[t.0 as int]), Type::Ref(t)));
                                    assert(exported_to(id_map_entries(self.api.exports), id.sym@, t));
                                }
                            }
                        },
                        _ => {
                            let _ = d.to_type(self);
                            let mut names: Vec<String> = Vec::new();
                            collect_binding_idents(&d.name, &mut names);
                            let ghost nv = names@.map_values(|s: String| s@);
                            proof {
                                assert(nv =~= Seq::<Seq<char>>::empty() + bind_names(d.name));
                            }
                            let mut j: usize = 0;
                            proof {
                                assert(before + nv.take(0) =~= before);
                            }
                            while j < names.len()
                                invariant
                                    j <= names@.len(),
                                    nv == names@.map_values(|s: String| s@),
                                    visit_step(*old(self), *self),
                                    self.api.export_all == old(self).api.export_all,
                                    id_keys(id_map_entries(self.api.exports)) == keys_extended(
                                        ks,
                                        before + nv.take(j as int),
                                    ),
                                decreases names.len() - j,
                            {
                                let ghost c0 = *self;
                                let t = self.add_type(Type::Any);
                                self.export(names[j].clone(), t, Ghost(ks), Ghost(before + nv.take(j as int)));
                                proof {
                                    assert((before + nv.take(j as int)).push(names@[j as int]@) =~= before + nv.take(
                                        j + 1,
                                    ));
                                    lemma_visit_trans(*old(self), c0, *self);
                                }
                                j = j + 1;
                            }
                            proof {
                                assert(nv.take(names@.len() as int) =~= nv);
                            }
                        },
                    }
                    k = k + 1;
                }
                proof {
                    assert(v.decls@.take(v.decls@.len() as int) =~= v.decls@);
                }
            },
            Decl::Other => {},
        }
    }

    /// Reads `export default <decl>`: what it declares is exported as `default`.
    pub fn visit_export_default_decl(&mut self, decl: &DefaultDecl)
        requires
            old(self).wf(),
        ensures
            visit_step(*old(self), *final(self)),
            final(self).api.export_all == old(self).api.export_all,
            id_keys(id_map_entries(final(self).api.exports)) == keys_extended(
                id_keys(id_map_entries(old(self).api.exports)),
                seq!["default"@],
            ),
            default_bound(*decl, final(self).path@, id_map_entries(final(self).api.exports), final(self).api.types@),
    {
        let ghost ks = id_keys(id_map_entries(self.api.exports));
        let ty = match decl {
            DefaultDecl::Class(c) => c.to_type(self),
            DefaultDecl::Fn(f) => f.to_type(self),
            DefaultDecl::Interface(i) => i.to_type(self),
        };
        let ghost pre = self.api.types@;
        let t = self.add_type(ty);
        proof {
            assert(keys_extended(ks, Seq::<Seq<char>>::empty()) == ks);
            assert(Seq::<Seq<char>>::empty().push("default"@) =~= seq!["default"@]);
            reveal_strlit("default");
        }
        let name = String::from_str("default");
        let ghost e0 = id_map_entries(self.api.exports);
        self.export(name, t, Ghost(ks), Ghost(Seq::empty()));
        proof {
            lemma_exported_insert(e0, "default"@, t);
            assert(exported_to(id_map_entries(self.api.exports), "default"@, t));
            if self.api.types@.len() < u32::MAX {
                if !(ty is Ref) {
                    assert(self.api.types@[t.0 as int] == ty);
                }
            }
        }
    }

    /// Reads `export { .. } from 'src'`: the module becomes a dependency, and
    /// each name is exported as a `Reference` to the export it takes from there
    /// (stated for the last one).
    pub fn visit_reexport(&mut self, src: &String, specifiers: &Vec<ReexportSpecifier>)
        requires
            old(self).wf(),
        ensures
            visit_step(*old(self), *final(self)),
            final(self).api.export_all == old(self).api.export_all,
            str_set_items(final(self).api.dependencies).contains(src@),
            id_keys(id_map_entries(final(self).api.exports)) == keys_extended(
                id_keys(id_map_entries(old(self).api.exports)),
                reexport_names(specifiers@),
            ),
            specifiers@.len() > 0 ==> reexport_bound(
                specifiers@.last(),
                src@,
                id_map_entries(final(self).api.exports),
                final(self).api.types@,
            ),
    {
        let ghost ks = id_keys(id_map_entries(self.api.exports));
        proof {
            lemma_items_insert_grow(str_set_items(self.api.dependencies), src@);
        }
        str_set_insert(&mut self.api.dependencies, src.clone());
        let mut k: usize = 0;
        proof {
            assert(reexport_names(specifiers@.take(0)) =~= Seq::<Seq<char>>::empty());
        }
        while k < specifiers.len()
            invariant
                k <= specifiers@.len(),
                visit_step(*old(self), *self),
                self.api.export_all == old(self).api.export_all,
                str_set_items(self.api.dependencies).contains(src@),
                id_keys(id_map_entries(self.api.exports)) == keys_extended(ks, reexport_names(specifiers@.take(k as int))),
                k > 0 ==> reexport_bound(specifiers@[k - 1], src@, id_map_entries(self.api.exports), self.api.types@),
            decreases specifiers.len() - k,
        {
            let ghost before = reexport_names(specifiers@.take(k as int));
            proof {
                assert(specifiers@.take(k + 1).drop_last() =~= specifiers@.take(k as int));
            }
            match &specifiers[k] {
                ReexportSpecifier::Named { orig, exported } => {
                    let name = match exported {
                        Some(e) => e.clone(),
                        None => orig.clone(),
                    };
                    let ty = Type::Reference { imported: Some(orig.clone()), specifier: src.clone(), local: None };
                    let t = self.add_type(ty);
                    let ghost e0 = id_map_entries(self.api.exports);
                    self.export(name, t, Ghost(ks), Ghost(before));
                    proof {
                        assert(before.push(name@) =~= before + reexport_name(specifiers@[k as int]));
                        lemma_exported_insert(e0, name@, t);
                        assert(exported_to(id_map_entries(self.api.exports), name@, t));
                        assert(name@ == match exported {
                            Some(x) => x@,
                            None => orig@,
                        });
                        assert(self.api.types@.len() < u32::MAX ==> (self.api.types@[t.0 as int] matches Type::Reference {
                            specifier,
                            imported: Some(i),
                            local: None,
                        } && specifier@ == src@ && i@ == orig@)) by {
                            if self.api.types@.len() < u32::MAX {
                                assert(self.api.types@[t.0 as int] == ty);
                            }
                        }
                        assert(name@ == exported_name(*orig, *exported));
                        assert(exported_to(id_map_entries(self.api.exports), exported_name(*orig, *exported), t));
                        assert(specifiers@[k as int] == ReexportSpecifier::Named { orig: *orig, exported: *exported });
                        assert(reexport_bound(specifiers@[k as int], src@, id_map_entries(self.api.exports), self.api.types@));
                    }
                },
                ReexportSpecifier::Other => {
                    proof {
                        assert(before =~= before + reexport_name(specifiers@[k as int]));
                    }
                },
            }
            k = k + 1;
        }
        proof {
            assert(specifiers@.take(specifiers@.len() as int) =~= specifiers@);
        }
    }

    /// Reads a local `export { .. }`: each binding is exported under its
    /// exported name, which also becomes the name of the type it stands for.
    pub fn visit_local_export(&mut self, specifiers: &Vec<LocalExportSpecifier>)
        requires
            old(self).wf(),
        ensures
            visit_step(*old(self), *final(self)),
            final(self).api.export_all == old(self).api.export_all,
            id_keys(id_map_entries(final(self).api.exports)) == keys_extended(
                id_keys(id_map_entries(old(self).api.exports)),
                local_export_names(specifiers@),
            ),
            local_export_bound(specifiers@, *old(self), *final(self)),
    {
        let ghost ks = id_keys(id_map_entries(self.api.exports));
        let mut k: usize = 0;
        proof {
            assert(local_export_names(specifiers@.take(0)) =~= Seq::<Seq<char>>::empty());
        }
        while k < specifiers.len()
            invariant
                k <= specifiers@.len(),
                visit_step(*old(self), *self),
                self.api.export_all == old(self).api.export_all,
                id_keys(id_map_entries(self.api.exports)) == keys_extended(
                    ks,
                    local_export_names(specifiers@.take(k as int)),
                ),
                old(self).wf(),
                decls_grow_to(old(self).decls@, self.decls@),
                forall|i: int, nm: String|
                    0 <= i < old(self).api.types@.len() ==> #[trigger] spec_with_name(self.api.types@[i], nm) == spec_with_name(
                        old(self).api.types@[i],
                        nm,
                    ),
                local_export_bound(specifiers@.take(k as int), *old(self), *self),
            decreases specifiers.len() - k,
        {
            let ghost before = local_export_names(specifiers@.take(k as int));
            proof {
                assert(specifiers@.take(k + 1).drop_last() =~= specifiers@.take(k as int));
            }
            match &specifiers[k] {
                LocalExportSpecifier::Named { orig, exported } => {
                    let name = match exported {
                        Some(e) => e.clone(),
                        None => orig.sym.clone(),
                    };
                    let ghost s0 = *self;
                    let ty = crate::reader::ident_to_type(orig, self);
                    if let Type::Ref(t) = ty {
                        proof {
                            assert(crate::ty::direct_refs(ty)[0] == t);
                        }
                        let ghost s1 = *self;
                        self.set_name_at(t, name.clone());
                        let ghost e0 = id_map_entries(self.api.exports);
                        self.export(name.clone(), t, Ghost(ks), Ghost(before));
                        proof {
                            assert(before.push(name@) =~= before + local_export_name(specifiers@[k as int]));
                            lemma_exported_insert(e0, name@, t);
                            let o = old(self);
                            crate::parse::lemma_decl_of_grow(o.decls@, s0.decls@, *orig);
                            if decl_of(o.decls@, *orig) is Some {
                                crate::parse::lemma_decl_pos(o.decls@, *orig);
                                assert(o.wf());
                                let pp = crate::parse::decl_pos(o.decls@, *orig);
                                assert(0 <= pp < o.decls@.len());
                                assert(id_below(o.decls@[crate::parse::decl_pos(o.decls@, *orig)].1, o.api.types@.len()));
                                assert(decl_of(s0.decls@, *orig) == decl_of(o.decls@, *orig));
                                assert(t == decl_of(o.decls@, *orig)->0);
                                assert(s1.api.types@ == s0.api.types@);
                                assert(spec_with_name(s0.api.types@[t.0 as int], name) == spec_with_name(o.api.types@[t.0 as int], name));
                            }
                            assert forall|i: int, nm: String|
                                0 <= i < o.api.types@.len() implies #[trigger] spec_with_name(self.api.types@[i], nm)
                                    == spec_with_name(o.api.types@[i], nm) by {
                                assert(s1.api.types@[i] == s0.api.types@[i]);
                                assert(spec_with_name(s0.api.types@[i], nm) == spec_with_name(o.api.types@[i], nm));
                                if i != t.0 {
                                    assert(self.api.types@[i] == s1.api.types@[i]);
                                }
                            }
                            assert(specifiers@.take(k + 1).last() == specifiers@[k as int]);
                        }
                    }
                },
                LocalExportSpecifier::Other => {
                    proof {
                        assert(before =~= before + local_export_name(specifiers@[k as int]));
                        assert(specifiers@.take(k + 1).last() == specifiers@[k as int]);
                    }
                },
            }
            k = k + 1;
        }
        proof {
            assert(specifiers@.take(specifiers@.len() as int) =~= specifiers@);
        }
    }

    /// Reads `export * from 'src'`: the module becomes a dependency and is
    /// listed among the modules re-exported whole.
    pub fn visit_export_all(&mut self, src: &String)
        requires
            old(self).wf(),
        ensures
            visit_step(*old(self), *final(self)),
            final(self).api.exports == old(self).api.exports,
            final(self).api.export_all@ == old(self).api.export_all@.push(*src),
            str_set_items(final(self).api.dependencies) == items_insert(
                str_set_items(old(self).api.dependencies),
                src@,
            ),
    {
        proof {
            lemma_items_insert_grow(str_set_items(self.api.dependencies), src@);
        }
        str_set_insert(&mut self.api.dependencies, src.clone());
        self.api.export_all.push(src.clone());
    }

    /// Reads one module item.
    pub fn visit_item(&mut self, item: &ModuleItem)
        requires
            old(self).wf(),
        ensures
            visit_step(*old(self), *final(self)),
            id_keys(id_map_entries(final(self).api.exports)) == keys_extended(
                id_keys(id_map_entries(old(self).api.exports)),
                item_export_names(*item),
            ),
            final(self).api.export_all@.map_values(|s: String| s@) == old(self).api.export_all@.map_values(
                |s: String| s@,
            ) + match *item {
                ModuleItem::ExportAll { src } => seq![src@],
                _ => Seq::empty(),
            },
            item_source(*item) matches Some(s) ==> str_set_items(final(self).api.dependencies).contains(s),
            item_read(*old(self), *item, *final(self)),
    {
        let ghost ks = id_keys(id_map_entries(self.api.exports));
        let ghost ea = self.api.export_all@.map_values(|s: String| s@);
        proof {
            assert(keys_extended(ks, Seq::<Seq<char>>::empty()) == ks);
            assert(ea + Seq::<Seq<char>>::empty() =~= ea);
        }
        match item {
            ModuleItem::Import { src, specifiers } => {
                self.visit_import_decl(src, specifiers);
            },
            ModuleItem::ExportDecl { docs, decl } => {
                self.visit_export_decl(docs, decl);
            },
            ModuleItem::ExportDefault(d) => {
                self.visit_export_default_decl(d);
            },
            ModuleItem::Reexport { src, specifiers } => {
                self.visit_reexport(src, specifiers);
            },
            ModuleItem::LocalExport(specifiers) => {
                self.visit_local_export(specifiers);
            },
            ModuleItem::ExportAll { src } => {
                self.visit_export_all(src);
                proof {
                    assert(self.api.export_all@.map_values(|s: String| s@) =~= ea + seq![src@]);
                    lemma_items_insert_grow(str_set_items(old(self).api.dependencies), src@);
                }
            },
            ModuleItem::Decl(d) => {
                let _ = d.to_type(self);
            },
        }
    }
}

/// What reading a module's items gives: a well-formed API whose exports
/// are the declared export names (each once, in the order first declared),
/// whose `export *` sources are those of the items, in order, and whose
/// dependencies include the source of every `export .. from` and
/// `export * from`.
pub open spec fn module_read(api: API, items: Seq<ModuleItem>) -> bool {
    &&& api.wf()
    &&& id_keys(id_map_entries(api.exports)) == keys_inserted(items_export_names(items))
    &&& api.export_all@.map_values(|s: String| s@) == export_all_sources(items)
    &&& forall|i: int|
        0 <= i < items.len() && #[trigger] item_source(items[i]) is Some ==> str_set_items(api.dependencies).contains(
            item_source(items[i])->0,
        )
}

/// What reading one item of a module does to the reading state `o`, giving
/// `n`: the state only grows, the item's export names are added, an
/// `export *` source is appended, the item's source becomes a dependency, an
/// exported declaration binds its name as [`decl_export_bound`] says, a local
/// `export { .. }` as [`local_export_bound`] says, a re-export as
/// [`reexport_bound`] says, and `export default` as [`default_bound`] says.
pub open spec fn item_read(o: Context, it: ModuleItem, n: Context) -> bool {
    &&& visit_step(o, n)
    &&& id_keys(id_map_entries(n.api.exports)) == keys_extended(id_keys(id_map_entries(o.api.exports)), item_export_names(it))
    &&& n.api.export_all@.map_values(|s: String| s@) == o.api.export_all@.map_values(|s: String| s@) + match it {
        ModuleItem::ExportAll { src } => seq![src@],
        _ => Seq::empty(),
    }
    &&& (item_source(it) matches Some(s) ==> str_set_items(n.api.dependencies).contains(s))
    &&& (it matches ModuleItem::LocalExport(sps) ==> local_export_bound(sps@, o, n))
    &&& (it matches ModuleItem::ExportDefault(d) ==> default_bound(d, n.path@, id_map_entries(n.api.exports), n.api.types@))
    &&& (it matches ModuleItem::Reexport { src, specifiers } ==> (specifiers@.len() > 0 ==> reexport_bound(
        specifiers@.last(),
        src@,
        id_map_entries(n.api.exports),
        n.api.types@,
    )))
    &&& (it matches ModuleItem::ExportDecl { docs, decl } ==> decl_export_bound(
        decl,
        n.path@,
        docs@,
        n.decls@,
        id_map_entries(n.api.exports),
        n.api.types@,
    ))
}

/// The reading states of a module at `path` with `items`: a fresh state,
/// then the state after each item in turn.
pub open spec fn read_trace(path: Seq<char>, items: Seq<ModuleItem>, cs: Seq<Context>) -> bool {
    &&& cs.len() == items.len() + 1
    &&& cs[0].path@ == path
    &&& cs[0].decls@.len() == 0
    &&& cs[0].api.types@.len() == 0
    &&& id_map_entries(cs[0].api.exports).len() == 0
    &&& cs[0].api.export_all@.len() == 0
    &&& str_set_items(cs[0].api.dependencies).len() == 0
    &&& forall|i: int| 0 <= i < items.len() ==> #[trigger] item_read(cs[i], items[i], cs[i + 1])
}

/// `api` is the API read from a module at `path` with `items`: what the last
/// of a trace of reading states (see [`read_trace`]) holds.
pub open spec fn module_api(path: Seq<char>, items: Seq<ModuleItem>, api: API) -> bool {
    exists|cs: Seq<Context>| #[trigger] read_trace(path, items, cs) && api == cs.last().api
}

/// Reads a module: its items, in the order the module visitor meets them,
/// into the module's API.
pub fn parse_module(path: String, items: &Vec<ModuleItem>) -> (r: API)
    ensures
        module_read(r, items@),
        module_api(path@, items@, r),
{
    let ghost p = path@;
    let mut ctx = Context::new(path);
    let ghost mut cs: Seq<Context> = seq![ctx];
    let mut k: usize = 0;
    proof {
        assert(items_export_names(items@.take(0)) =~= Seq::<Seq<char>>::empty());
        assert(export_all_sources(items@.take(0)) =~= Seq::<Seq<char>>::empty());
        assert(id_keys(id_map_entries(ctx.api.exports)) =~= Seq::<Seq<char>>::empty());
        assert(ctx.api.export_all@.map_values(|s: String| s@) =~= Seq::<Seq<char>>::empty());
    }
    while k < items.len()
        invariant
            k <= items@.len(),
            ctx.wf(),
            id_keys(id_map_entries(ctx.api.exports)) == keys_extended(
                Seq::empty(),
                items_export_names(items@.take(k as int)),
            ),
            ctx.api.export_all@.map_values(|s: String| s@) == export_all_sources(items@.take(k as int)),
            forall|i: int|
                0 <= i < k && #[trigger] item_source(items@[i]) is Some ==> str_set_items(
                    ctx.api.dependencies,
                ).contains(item_source(items@[i])->0),
            read_trace(p, items@.take(k as int), cs),
            cs.last() == ctx,
        decreases items.len() - k,
    {
        let ghost c0 = ctx;
        proof {
            assert(items@.take(k + 1).drop_last() =~= items@.take(k as int));
        }
        ctx.visit_item(&items[k]);
        proof {
            let cs0 = cs;
            cs = cs.push(ctx);
            let t = items@.take(k + 1);
            assert forall|i: int| 0 <= i < t.len() implies #[trigger] item_read(cs[i], t[i], cs[i + 1]) by {
                if i < k {
                    assert(t[i] == items@.take(k as int)[i]);
                    assert(cs[i] == cs0[i]);
                    assert(cs[i + 1] == cs0[i + 1]);
                } else {
                    assert(cs[i] == c0);
                }
            }
            assert(read_trace(p, t, cs));
            lemma_keys_ext_concat(
                Seq::empty(),
                items_export_names(items@.take(k as int)),
                item_export_names(items@[k as int]),
            );
            assert forall|i: int|
                0 <= i < k + 1 && #[trigger] item_source(items@[i]) is Some implies str_set_items(
                    ctx.api.dependencies,
                ).contains(item_source(items@[i])->0) by {
                if i < k {
                    lemma_contains_grow(
                        str_set_items(c0.api.dependencies),
                        str_set_items(ctx.api.dependencies),
                        item_source(items@[i])->0,
                    );
                }
            }
        }
        k = k + 1;
    }
    proof {
        assert(items@.take(items@.len() as int) =~= items@);
        lemma_keys_inserted_ext(items_export_names(items@));
        assert(read_trace(p, items@, cs));
    }
    ctx.api
}

} // verus!
