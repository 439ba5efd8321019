//! The structure of a Component Story Format (CSF) file as the Storybook
//! transform reads it: its top-level items, held as plain values with the
//! byte spans they cover, and the decisions taken on them: which exports are
//! stories, where their source and annotations are, which object is the
//! default export (the meta), which component is documented, which story
//! bodies move into components, and how the React Refresh wrapper
//! rearranges the module.
use vstd::prelude::*;
use crate::storybook::{
    filter_stories, kept_stories, keeps_story, Story, StoryFilter, StoryView, names_view, decimal_s, meta_name_s,
    meta_name, concat_str, slice_span, slice_span_s, md5_hex, md5_of, hex_s,
};
use vstd::set_lib::{set_int_range, lemma_int_range, lemma_map_size, lemma_len_subset};
use vstd::relations::injective_on;
use crate::ty::str_eq;

verus! {

/// An expression as the transform sees it, with its span.
pub struct CsfExpr {
    pub span: (u32, u32),
    pub kind: CsfKind,
}

/// The kinds of expression the transform tells apart.
pub enum CsfKind {
    Ident(String),
    /// A string literal.
    Str(String),
    Object(Vec<CsfProp>),
    /// An array literal (holes left out).
    Array(Vec<CsfExpr>),
    /// A call; `callee` is `None` for `super(..)` and `import(..)`.
    Call { callee: Option<Box<CsfExpr>>, args: Vec<CsfExpr> },
    /// A member access.
    Member { object: Box<CsfExpr>, property: CsfMemberProp },
    /// Parentheses or a TypeScript wrapper (`as`, `satisfies`, `<T>x`, `x!`,
    /// `as const`, `f<T>`) around an expression.
    Wrapped(Box<CsfExpr>),
    Arrow,
    Function,
    Other,
}

/// The property of a member access.
pub enum CsfMemberProp {
    /// `.name`
    Ident(String),
    /// `[expr]`
    Computed(Box<CsfExpr>),
    /// `.#name`
    Private,
}

/// The name an import specifier imports under, when it is written.
pub enum CsfExportName {
    Ident(String),
    /// A string literal name.
    Str,
}

/// An import specifier.
pub enum CsfImportSpec {
    /// `import local from ..`
    Default { local: String },
    /// `import { imported as local } from ..`
    Named { local: String, imported: Option<CsfExportName>, type_only: bool },
    /// `import * as local from ..`
    Namespace { local: String },
}

/// A property of an object literal. `key` is set for an identifier or
/// string key.
pub enum CsfProp {
    KeyValue { key: Option<String>, value: CsfExpr },
    Method { key: Option<String> },
    Other,
    Spread,
}

/// A declarator: its name when it binds a plain identifier, and its
/// initializer.
pub struct CsfDeclarator {
    pub name: Option<String>,
    pub init: Option<CsfExpr>,
}

/// A top-level item of a CSF file.
pub enum CsfItem {
    /// An import declaration; `src` is the specifier when it is valid text.
    Import { type_only: bool, src: Option<String>, specifiers: Vec<CsfImportSpec> },
    /// `export const ..`, with the span of the export statement.
    ExportVar { span: (u32, u32), decls: Vec<CsfDeclarator> },
    /// A top-level variable declaration, with its span.
    Var { span: (u32, u32), decls: Vec<CsfDeclarator> },
    /// `export function name ..`, with the spans of the export statement and
    /// of the function.
    ExportFn { span: (u32, u32), name: String, fn_span: (u32, u32) },
    /// A top-level function declaration, with its span.
    Fn { name: String, fn_span: (u32, u32) },
    /// `export default <expr>`, with the span of the statement.
    DefaultExpr { span: (u32, u32), expr: CsfExpr },
    /// An expression statement assigning to `object.property` (both plain
    /// identifiers), with the span of the assigned value.
    Assign { object: String, property: String, value_span: (u32, u32) },
    Other,
}

// ---------------------------------------------------------------------------
// Finding things.

/// An expression without the wrappers around it.
pub open spec fn unwrapped_s(e: CsfExpr) -> CsfExpr
    decreases e,
{
    match e.kind {
        CsfKind::Wrapped(inner) => unwrapped_s(*inner),
        _ => e,
    }
}

/// An expression without the wrappers around it.
pub fn unwrap_ts(e: &CsfExpr) -> (r: &CsfExpr)
    ensures
        *r == unwrapped_s(*e),
    decreases e,
{
    match &e.kind {
        CsfKind::Wrapped(inner) => unwrap_ts(inner),
        _ => e,
    }
}

/// The declarators of the top-level variable declarations, in order.
pub open spec fn var_decls(items: Seq<CsfItem>) -> Seq<CsfDeclarator>
    decreases items.len(),
{
    if items.len() == 0 {
        Seq::empty()
    } else {
        var_decls(items.drop_last()) + match items.last() {
            CsfItem::ExportVar { decls, .. } => decls@,
            CsfItem::Var { decls, .. } => decls@,
            _ => Seq::empty(),
        }
    }
}

/// Whether a declarator binds `name`.
pub open spec fn binds(d: CsfDeclarator, name: Seq<char>) -> bool {
    d.name matches Some(n) && n@ == name
}

/// The position of the first declarator binding `name`, or -1.
pub open spec fn first_binding(ds: Seq<CsfDeclarator>, name: Seq<char>) -> int
    decreases ds.len(),
{
    if ds.len() == 0 {
        -1
    } else if first_binding(ds.drop_last(), name) >= 0 {
        first_binding(ds.drop_last(), name)
    } else if binds(ds.last(), name) {
        ds.len() - 1
    } else {
        -1
    }
}

/// The initializer of the first top-level declarator binding `name` (none
/// when that declarator has none).
pub open spec fn var_init_s(items: Seq<CsfItem>, name: Seq<char>) -> Option<CsfExpr> {
    let ds = var_decls(items);
    if first_binding(ds, name) >= 0 {
        ds[first_binding(ds, name)].init
    } else {
        None
    }
}

/// The function declared under `name` by an item.
pub open spec fn fn_of(it: CsfItem, name: Seq<char>) -> Option<(u32, u32)> {
    match it {
        CsfItem::ExportFn { name: n, fn_span, .. } => if n@ == name {
            Some(fn_span)
        } else {
            None
        },
        CsfItem::Fn { name: n, fn_span } => if n@ == name {
            Some(fn_span)
        } else {
            None
        },
        _ => None,
    }
}

/// The span of the first top-level function declared under `name`.
pub open spec fn function_s(items: Seq<CsfItem>, name: Seq<char>) -> Option<(u32, u32)>
    decreases items.len(),
{
    if items.len() == 0 {
        None
    } else {
        match function_s(items.drop_last(), name) {
            Some(s) => Some(s),
            None => fn_of(items.last(), name),
        }
    }
}

/// The first binding of `name` is a binding of it, and none comes before.
pub proof fn lemma_first_binding(ds: Seq<CsfDeclarator>, name: Seq<char>)
    ensures
        -1 <= first_binding(ds, name) < ds.len(),
        first_binding(ds, name) >= 0 ==> binds(ds[first_binding(ds, name)], name),
        forall|i: int| 0 <= i < ds.len() && (first_binding(ds, name) < 0 || i < first_binding(ds, name)) ==> !binds(
            #[trigger] ds[i],
            name,
        ),
    decreases ds.len(),
{
    if ds.len() > 0 {
        let d = ds.drop_last();
        lemma_first_binding(d, name);
        assert forall|i: int| 0 <= i < d.len() implies d[i] == ds[i] by {}
    }
}

/// A binding of `name` with none before it is the first one.
pub proof fn lemma_first_binding_at(ds: Seq<CsfDeclarator>, name: Seq<char>, k: int)
    requires
        0 <= k < ds.len(),
        binds(ds[k], name),
        forall|i: int| 0 <= i < k ==> !binds(#[trigger] ds[i], name),
    ensures
        first_binding(ds, name) == k,
    decreases ds.len(),
{
    lemma_first_binding(ds, name);
    if k < ds.len() - 1 {
        let d = ds.drop_last();
        assert forall|i: int| 0 <= i < d.len() implies d[i] == ds[i] by {}
        lemma_first_binding_at(d, name, k);
    } else {
        lemma_first_binding(ds.drop_last(), name);
        assert forall|i: int| 0 <= i < ds.len() - 1 implies ds.drop_last()[i] == ds[i] by {}
    }
}

/// The declarators of one more item follow those of the items before it.
proof fn lemma_var_decls_step(items: Seq<CsfItem>, k: int)
    requires
        0 <= k < items.len(),
    ensures
        var_decls(items.take(k + 1)) == var_decls(items.take(k)) + match items[k] {
            CsfItem::ExportVar { decls, .. } => decls@,
            CsfItem::Var { decls, .. } => decls@,
            _ => Seq::empty(),
        },
{
    assert(items.take(k + 1).drop_last() =~= items.take(k));
}

/// The declarators of a variable statement.
pub open spec fn decls_of(it: CsfItem) -> Option<Seq<CsfDeclarator>> {
    match it {
        CsfItem::ExportVar { decls, .. } => Some(decls@),
        CsfItem::Var { decls, .. } => Some(decls@),
        _ => None,
    }
}

/// Where the initializer of the first top-level declarator binding `name`
/// is: the position of its statement and its position among the
/// declarators.
pub fn find_var_init_at(items: &Vec<CsfItem>, name: &str) -> (r: Option<(usize, usize)>)
    ensures
        match r {
            Some(p) => p.0 < items@.len() && (decls_of(items@[p.0 as int]) matches Some(ds) && p.1 < ds.len()
                && binds(ds[p.1 as int], name@) && ds[p.1 as int].init is Some && var_init_s(items@, name@)
                == ds[p.1 as int].init),
            None => var_init_s(items@, name@) is None,
        },
{
    let mut k: usize = 0;
    while k < items.len()
        invariant
            k <= items@.len(),
            forall|i: int|
                0 <= i < var_decls(items@.take(k as int)).len() ==> !binds(
                    #[trigger] var_decls(items@.take(k as int))[i],
                    name@,
                ),
        decreases items.len() - k,
    {
        let ghost before = var_decls(items@.take(k as int));
        proof {
            lemma_var_decls_step(items@, k as int);
        }
        let decls = match &items[k] {
            CsfItem::ExportVar { decls, .. } => Some(decls),
            CsfItem::Var { decls, .. } => Some(decls),
            _ => None,
        };
        if let Some(decls) = decls {
            proof {
                assert(var_decls(items@.take(k + 1)) == before + decls@);
                assert(decls_of(items@[k as int]) == Some(decls@));
            }
            let mut j: usize = 0;
            while j < decls.len()
                invariant
                    j <= decls@.len(),
                    k < items@.len(),
                    before == var_decls(items@.take(k as int)),
                    var_decls(items@.take(k + 1)) == before + decls@,
                    forall|i: int| 0 <= i < before.len() ==> !binds(#[trigger] before[i], name@),
                    forall|i: int| 0 <= i < j ==> !binds(#[trigger] decls@[i], name@),
                    decls_of(items@[k as int]) == Some(decls@),
                decreases decls.len() - j,
            {
                let hit = match &decls[j].name {
                    Some(n) => str_eq(n.as_str(), name),
                    None => false,
                };
                if hit {
                    proof {
                        let all = var_decls(items@.take(k + 1));
                        let pos = before.len() + j;
                        assert(all[pos] == decls@[j as int]);
                        assert forall|i: int| 0 <= i < pos implies !binds(#[trigger] all[i], name@) by {
                            if i < before.len() {
                                assert(all[i] == before[i]);
                            } else {
                                assert(all[i] == decls@[i - before.len()]);
                            }
                        }
                        lemma_first_binding_at(all, name@, pos);
                        lemma_var_decls_prefix(items@, k + 1, name@);
                    }
                    return match &decls[j].init {
                        Some(_) => Some((k, j)),
                        None => None,
                    };
                }
                j = j + 1;
            }
            proof {
                let all = var_decls(items@.take(k + 1));
                assert forall|i: int| 0 <= i < all.len() implies !binds(#[trigger] all[i], name@) by {
                    if i < before.len() {
                        assert(all[i] == before[i]);
                    } else {
                        assert(all[i] == decls@[i - before.len()]);
                    }
                }
            }
        } else {
            proof {
                assert(var_decls(items@.take(k + 1)) =~= before);
            }
        }
        k = k + 1;
    }
    proof {
        assert(items@.take(items@.len() as int) =~= items@);
        lemma_first_binding(var_decls(items@), name@);
    }
    None
}

/// The initializer of the first top-level declarator binding `name`.
pub fn find_var_init<'a>(items: &'a Vec<CsfItem>, name: &str) -> (r: Option<&'a CsfExpr>)
    ensures
        match r {
            Some(e) => var_init_s(items@, name@) == Some(*e),
            None => var_init_s(items@, name@) is None,
        },
{
    let (i, j) = match find_var_init_at(items, name) {
        Some(p) => p,
        None => return None,
    };
    let decls = match &items[i] {
        CsfItem::ExportVar { decls, .. } => decls,
        CsfItem::Var { decls, .. } => decls,
        _ => return None,
    };
    match &decls[j].init {
        Some(e) => Some(e),
        None => None,
    }
}

/// The declarators of a prefix come first among those of the whole list, so
/// a binding found in the prefix is the first one overall.
proof fn lemma_var_decls_prefix(items: Seq<CsfItem>, k: int, name: Seq<char>)
    requires
        0 <= k <= items.len(),
        first_binding(var_decls(items.take(k)), name) >= 0,
    ensures
        first_binding(var_decls(items), name) == first_binding(var_decls(items.take(k)), name),
        var_decls(items)[first_binding(var_decls(items), name)] == var_decls(items.take(k))[first_binding(
            var_decls(items.take(k)),
            name,
        )],
    decreases items.len() - k,
{
    if k < items.len() {
        lemma_var_decls_prefix_step(items, k);
        let a = var_decls(items.take(k));
        let b = var_decls(items.take(k + 1));
        lemma_first_binding(a, name);
        let p = first_binding(a, name);
        assert(b[p] == a[p]);
        assert forall|i: int| 0 <= i < p implies !binds(#[trigger] b[i], name) by {
            assert(b[i] == a[i]);
        }
        lemma_first_binding_at(b, name, p);
        lemma_var_decls_prefix(items, k + 1, name);
    } else {
        assert(items.take(k) =~= items);
    }
}

proof fn lemma_var_decls_prefix_step(items: Seq<CsfItem>, k: int)
    requires
        0 <= k < items.len(),
    ensures
        var_decls(items.take(k)).len() <= var_decls(items.take(k + 1)).len(),
        forall|i: int| 0 <= i < var_decls(items.take(k)).len() ==> var_decls(items.take(k + 1))[i] == var_decls(
            items.take(k),
        )[i],
{
    lemma_var_decls_step(items, k);
}

/// The position of the first top-level function declared under `name`.
pub fn find_function_at(items: &Vec<CsfItem>, name: &str) -> (r: Option<usize>)
    ensures
        match r {
            Some(k) => k < items@.len() && fn_of(items@[k as int], name@) is Some && function_s(items@, name@)
                == fn_of(items@[k as int], name@),
            None => function_s(items@, name@) is None,
        },
{
    let mut k: usize = 0;
    while k < items.len()
        invariant
            k <= items@.len(),
            function_s(items@.take(k as int), name@) is None,
        decreases items.len() - k,
    {
        proof {
            assert(items@.take(k + 1).drop_last() =~= items@.take(k as int));
        }
        let found = match &items[k] {
            CsfItem::ExportFn { name: n, fn_span, .. } => if str_eq(n.as_str(), name) {
                Some(*fn_span)
            } else {
                None
            },
            CsfItem::Fn { name: n, fn_span } => if str_eq(n.as_str(), name) {
                Some(*fn_span)
            } else {
                None
            },
            _ => None,
        };
        if found.is_some() {
            proof {
                lemma_function_prefix(items@, k + 1, name@);
            }
            return Some(k);
        }
        k = k + 1;
    }
    proof {
        assert(items@.take(items@.len() as int) =~= items@);
    }
    None
}

/// The span of the first top-level function declared under `name`.
pub fn find_function(items: &Vec<CsfItem>, name: &str) -> (r: Option<(u32, u32)>)
    ensures
        r == function_s(items@, name@),
{
    match find_function_at(items, name) {
        Some(k) => match &items[k] {
            CsfItem::ExportFn { fn_span, .. } => Some(*fn_span),
            CsfItem::Fn { fn_span, .. } => Some(*fn_span),
            _ => None,
        },
        None => None,
    }
}

/// A function found among the first `k` items is the first one overall.
proof fn lemma_function_prefix(items: Seq<CsfItem>, k: int, name: Seq<char>)
    requires
        0 <= k <= items.len(),
        function_s(items.take(k), name) is Some,
    ensures
        function_s(items, name) == function_s(items.take(k), name),
    decreases items.len() - k,
{
    if k < items.len() {
        assert(items.take(k + 1).drop_last() =~= items.take(k));
        lemma_function_prefix(items, k + 1, name);
    } else {
        assert(items.take(k) =~= items);
    }
}

// ---------------------------------------------------------------------------
// Stories.

/// The template `T` of an initializer `T.bind()` or `T.bind({})`.
pub open spec fn bind_template(e: CsfExpr) -> Option<Seq<char>> {
    match e.kind {
        CsfKind::Call { callee: Some(c), args } => match c.kind {
            CsfKind::Member { object, property: CsfMemberProp::Ident(p) } => if p@ == "bind"@
                && empty_bind_args(args@) {
                match object.kind {
                    CsfKind::Ident(t) => Some(t@),
                    _ => None,
                }
            } else {
                None
            },
            _ => None,
        },
        _ => None,
    }
}

/// No argument, or one empty object literal.
pub open spec fn empty_bind_args(args: Seq<CsfExpr>) -> bool {
    args.len() == 0 || (args.len() == 1 && (args[0].kind matches CsfKind::Object(ps) && ps@.len() == 0))
}

/// The template a story binding is bound from (`const S = T.bind({})`).
pub open spec fn bound_story_s(items: Seq<CsfItem>, name: Seq<char>) -> Option<Seq<char>> {
    match var_init_s(items, name) {
        Some(e) => bind_template(unwrapped_s(e)),
        None => None,
    }
}

/// The span of the source of a binding: its function declaration, else its
/// initializer without wrappers.
pub open spec fn source_span_s(items: Seq<CsfItem>, name: Seq<char>) -> Option<(u32, u32)> {
    match function_s(items, name) {
        Some(s) => Some(s),
        None => match var_init_s(items, name) {
            Some(e) => Some(unwrapped_s(e).span),
            None => None,
        },
    }
}

/// The span of the value of the last `key: value` property under `key`.
pub open spec fn annotation_s(props: Seq<CsfProp>, key: Seq<char>) -> Option<(u32, u32)>
    decreases props.len(),
{
    if props.len() == 0 {
        None
    } else {
        match props.last() {
            CsfProp::KeyValue { key: Some(k), value } => if k@ == key {
                Some(value.span)
            } else {
                annotation_s(props.drop_last(), key)
            },
            _ => annotation_s(props.drop_last(), key),
        }
    }
}

/// The story of an exported declarator, if it is one: a named binding other
/// than `__namedExportsOrder` with an initializer. Its source is that of the
/// template it is bound from, where that template has one.
pub open spec fn decl_story(items: Seq<CsfItem>, span: (u32, u32), d: CsfDeclarator) -> Option<StoryView> {
    match d.name {
        Some(n) => if n@ == "__namedExportsOrder"@ {
            None
        } else {
            match d.init {
                Some(e) => {
                    let x = unwrapped_s(e);
                    let args = match x.kind {
                        CsfKind::Object(ps) => annotation_s(ps@, "args"@),
                        _ => None,
                    };
                    let params = match x.kind {
                        CsfKind::Object(ps) => annotation_s(ps@, "parameters"@),
                        _ => None,
                    };
                    let target = match bound_story_s(items, n@) {
                        Some(t) => match source_span_s(items, t) {
                            Some(sp) => (t, sp),
                            None => (n@, x.span),
                        },
                        None => (n@, x.span),
                    };
                    Some(
                        StoryView {
                            export_name: n@,
                            target_name: target.0,
                            statement_span: span,
                            source_span: target.1,
                            args_span: args,
                            parameters_span: params,
                        },
                    )
                },
                None => None,
            }
        },
        None => None,
    }
}

/// The stories of the declarators of one exported declaration.
pub open spec fn decls_stories(items: Seq<CsfItem>, span: (u32, u32), ds: Seq<CsfDeclarator>) -> Seq<StoryView>
    decreases ds.len(),
{
    if ds.len() == 0 {
        Seq::empty()
    } else {
        decls_stories(items, span, ds.drop_last()) + match decl_story(items, span, ds.last()) {
            Some(st) => seq![st],
            None => Seq::empty(),
        }
    }
}

/// The stories of one item: its exported declarators, or its exported
/// function.
pub open spec fn item_stories(items: Seq<CsfItem>, it: CsfItem) -> Seq<StoryView> {
    match it {
        CsfItem::ExportVar { span, decls } => decls_stories(items, span, decls@),
        CsfItem::ExportFn { span, name, fn_span } => seq![
            StoryView {
                export_name: name@,
                target_name: name@,
                statement_span: span,
                source_span: fn_span,
                args_span: None,
                parameters_span: None,
            },
        ],
        _ => Seq::empty(),
    }
}

/// The stories of the items of `scan`, looked up in `items`.
pub open spec fn stories_s(items: Seq<CsfItem>, scan: Seq<CsfItem>) -> Seq<StoryView>
    decreases scan.len(),
{
    if scan.len() == 0 {
        Seq::empty()
    } else {
        stories_s(items, scan.drop_last()) + item_stories(items, scan.last())
    }
}

/// The views of a list of stories.
pub open spec fn story_views(v: Seq<Story>) -> Seq<StoryView> {
    v.map_values(|s: Story| s@)
}

/// The template a story binding is bound from (`const S = T.bind({})`).
pub fn resolve_bound_story(items: &Vec<CsfItem>, name: &str) -> (r: Option<String>)
    ensures
        match r {
            Some(t) => bound_story_s(items@, name@) == Some(t@),
            None => bound_story_s(items@, name@) is None,
        },
{
    let e = match find_var_init(items, name) {
        Some(e) => e,
        None => return None,
    };
    let e = unwrap_ts(e);
    match &e.kind {
        CsfKind::Call { callee: Some(c), args } => match &c.kind {
            CsfKind::Member { object, property: CsfMemberProp::Ident(p) } => {
                if !str_eq(p.as_str(), "bind") || args.len() > 1 {
                    return None;
                }
                if args.len() == 1 {
                    let empty = match &args[0].kind {
                        CsfKind::Object(ps) => ps.len() == 0,
                        _ => false,
                    };
                    if !empty {
                        return None;
                    }
                }
                match &object.kind {
                    CsfKind::Ident(t) => Some(t.clone()),
                    _ => None,
                }
            },
            _ => None,
        },
        _ => None,
    }
}

/// The span of the source of a binding: its function declaration, else its
/// initializer without wrappers.
pub fn binding_source_span(items: &Vec<CsfItem>, name: &str) -> (r: Option<(u32, u32)>)
    ensures
        r == source_span_s(items@, name@),
{
    if let Some(s) = find_function(items, name) {
        return Some(s);
    }
    match find_var_init(items, name) {
        Some(e) => Some(unwrap_ts(e).span),
        None => None,
    }
}

/// The span of the value of the last `key: value` property under `key`.
pub fn annotation_span(props: &Vec<CsfProp>, key: &str) -> (r: Option<(u32, u32)>)
    ensures
        r == annotation_s(props@, key@),
{
    let mut found: Option<(u32, u32)> = None;
    let mut i: usize = 0;
    while i < props.len()
        invariant
            i <= props@.len(),
            found == annotation_s(props@.take(i as int), key@),
        decreases props.len() - i,
    {
        proof {
            assert(props@.take(i + 1).drop_last() =~= props@.take(i as int));
        }
        match &props[i] {
            CsfProp::KeyValue { key: Some(k), value } => {
                if str_eq(k.as_str(), key) {
                    found = Some(value.span);
                }
            },
            _ => {},
        }
        i = i + 1;
    }
    proof {
        assert(props@.take(props@.len() as int) =~= props@);
    }
    found
}

/// The story of an exported declarator, if it is one.
fn declarator_story(items: &Vec<CsfItem>, span: (u32, u32), d: &CsfDeclarator) -> (r: Option<Story>)
    ensures
        match r {
            Some(st) => decl_story(items@, span, *d) == Some(st@),
            None => decl_story(items@, span, *d) is None,
        },
{
    let n = match &d.name {
        Some(n) => n,
        None => return None,
    };
    if str_eq(n.as_str(), "__namedExportsOrder") {
        return None;
    }
    let e = match &d.init {
        Some(e) => e,
        None => return None,
    };
    let x = unwrap_ts(e);
    let (args, params) = match &x.kind {
        CsfKind::Object(ps) => (annotation_span(ps, "args"), annotation_span(ps, "parameters")),
        _ => (None, None),
    };
    let (target, source) = match resolve_bound_story(items, n.as_str()) {
        Some(t) => match binding_source_span(items, t.as_str()) {
            Some(sp) => (t, sp),
            None => (n.clone(), x.span),
        },
        None => (n.clone(), x.span),
    };
    Some(
        Story {
            export_name: n.clone(),
            target_name: target,
            statement_span: span,
            source_span: source,
            args_span: args,
            parameters_span: params,
        },
    )
}

/// The stories of a CSF file, in order: its exported declarators (but
/// `__namedExportsOrder` and those without initializer) and its exported
/// functions.
pub fn collect_stories(items: &Vec<CsfItem>) -> (r: Vec<Story>)
    ensures
        story_views(r@) == stories_s(items@, items@),
{
    let mut out: Vec<Story> = Vec::new();
    let mut k: usize = 0;
    while k < items.len()
        invariant
            k <= items@.len(),
            story_views(out@) == stories_s(items@, items@.take(k as int)),
        decreases items.len() - k,
    {
        proof {
            assert(items@.take(k + 1).drop_last() =~= items@.take(k as int));
        }
        let ghost start = out@;
        match &items[k] {
            CsfItem::ExportVar { span, decls } => {
                let mut j: usize = 0;
                while j < decls.len()
                    invariant
                        j <= decls@.len(),
                        story_views(out@) == story_views(start) + decls_stories(items@, *span, decls@.take(j as int)),
                    decreases decls.len() - j,
                {
                    proof {
                        assert(decls@.take(j + 1).drop_last() =~= decls@.take(j as int));
                    }
                    let ghost before = out@;
                    match declarator_story(items, *span, &decls[j]) {
                        Some(st) => {
                            out.push(st);
                            proof {
                                assert(story_views(out@) =~= story_views(before).push(st@));
                            }
                        },
                        None => {},
                    }
                    proof {
                        assert(story_views(out@) =~= story_views(start) + decls_stories(
                            items@,
                            *span,
                            decls@.take(j + 1),
                        ));
                    }
                    j = j + 1;
                }
                proof {
                    assert(decls@.take(decls@.len() as int) =~= decls@);
                }
            },
            CsfItem::ExportFn { span, name, fn_span } => {
                out.push(
                    Story {
                        export_name: name.clone(),
                        target_name: name.clone(),
                        statement_span: *span,
                        source_span: *fn_span,
                        args_span: None,
                        parameters_span: None,
                    },
                );
                proof {
                    assert(story_views(out@) =~= story_views(start) + item_stories(items@, items@[k as int]));
                }
            },
            _ => {
                proof {
                    assert(story_views(out@) =~= story_views(start) + item_stories(items@, items@[k as int]));
                }
            },
        }
        proof {
            assert(story_views(out@) =~= stories_s(items@, items@.take(k + 1)));
        }
        k = k + 1;
    }
    proof {
        assert(items@.take(items@.len() as int) =~= items@);
    }
    out
}

// ---------------------------------------------------------------------------
// Annotations assigned after the fact (`Story.args = {..}`).

/// The position of the first story from `i` on exported as `name`, or -1.
pub open spec fn first_story_from(st: Seq<StoryView>, name: Seq<char>, i: int) -> int
    decreases st.len() - i,
{
    if i < 0 || i >= st.len() {
        -1
    } else if st[i].export_name == name {
        i
    } else {
        first_story_from(st, name, i + 1)
    }
}

/// A story with its `args` or `parameters` annotation set to `span`.
pub open spec fn annotated(s: StoryView, args: bool, span: (u32, u32)) -> StoryView {
    StoryView {
        export_name: s.export_name,
        target_name: s.target_name,
        statement_span: s.statement_span,
        source_span: s.source_span,
        args_span: if args {
            Some(span)
        } else {
            s.args_span
        },
        parameters_span: if args {
            s.parameters_span
        } else {
            Some(span)
        },
    }
}

/// The stories after one item: an assignment `S.args = ..` or
/// `S.parameters = ..` sets that annotation of the first story exported as
/// `S`.
pub open spec fn apply_assign(st: Seq<StoryView>, it: CsfItem) -> Seq<StoryView> {
    match it {
        CsfItem::Assign { object, property, value_span } => {
            let p = first_story_from(st, object@, 0);
            if p < 0 {
                st
            } else if property@ == "args"@ {
                st.update(p, annotated(st[p], true, value_span))
            } else if property@ == "parameters"@ {
                st.update(p, annotated(st[p], false, value_span))
            } else {
                st
            }
        },
        _ => st,
    }
}

/// The stories after the assignments among `items`, in order.
pub open spec fn assigned_s(st: Seq<StoryView>, items: Seq<CsfItem>) -> Seq<StoryView>
    decreases items.len(),
{
    if items.len() == 0 {
        st
    } else {
        apply_assign(assigned_s(st, items.drop_last()), items.last())
    }
}

/// The position of the first story exported as `name`.
fn find_story(stories: &Vec<Story>, name: &str) -> (r: Option<usize>)
    ensures
        match r {
            Some(p) => p < stories@.len() && p == first_story_from(story_views(stories@), name@, 0),
            None => first_story_from(story_views(stories@), name@, 0) == -1,
        },
{
    let ghost st = story_views(stories@);
    let mut i: usize = 0;
    while i < stories.len()
        invariant
            i <= stories@.len(),
            st == story_views(stories@),
            first_story_from(st, name@, 0) == first_story_from(st, name@, i as int),
        decreases stories.len() - i,
    {
        if str_eq(stories[i].export_name.as_str(), name) {
            return Some(i);
        }
        i = i + 1;
    }
    None
}

/// A copy of a story with one annotation set.
fn with_annotation(s: &Story, args: bool, span: (u32, u32)) -> (r: Story)
    ensures
        r@ == annotated(s@, args, span),
{
    Story {
        export_name: s.export_name.clone(),
        target_name: s.target_name.clone(),
        statement_span: s.statement_span,
        source_span: s.source_span,
        args_span: if args {
            Some(span)
        } else {
            s.args_span
        },
        parameters_span: if args {
            s.parameters_span
        } else {
            Some(span)
        },
    }
}

/// Applies the assignments `S.args = ..` and `S.parameters = ..` of a CSF
/// file to its stories.
pub fn collect_assigned_annotations(items: &Vec<CsfItem>, stories: &mut Vec<Story>)
    ensures
        story_views(final(stories)@) == assigned_s(story_views(old(stories)@), items@),
{
    let ghost st0 = story_views(stories@);
    let mut k: usize = 0;
    while k < items.len()
        invariant
            k <= items@.len(),
            story_views(stories@) == assigned_s(st0, items@.take(k as int)),
        decreases items.len() - k,
    {
        proof {
            assert(items@.take(k + 1).drop_last() =~= items@.take(k as int));
        }
        let ghost before = story_views(stories@);
        match &items[k] {
            CsfItem::Assign { object, property, value_span } => {
                match find_story(stories, object.as_str()) {
                    Some(p) => {
                        let is_args = str_eq(property.as_str(), "args");
                        let is_params = str_eq(property.as_str(), "parameters");
                        if is_args || is_params {
                            let updated = with_annotation(&stories[p], is_args, *value_span);
                            stories.set(p, updated);
                            proof {
                                assert(story_views(stories@) =~= before.update(p as int, updated@));
                            }
                        }
                    },
                    None => {},
                }
            },
            _ => {},
        }
        proof {
            assert(story_views(stories@) == apply_assign(before, items@[k as int]));
        }
        k = k + 1;
    }
    proof {
        assert(items@.take(items@.len() as int) =~= items@);
    }
}

// ---------------------------------------------------------------------------
// The default export (meta) object.

/// The value of the first `key: value` property under `name`.
pub open spec fn object_property_s(props: Seq<CsfProp>, name: Seq<char>) -> Option<CsfExpr>
    decreases props.len(),
{
    if props.len() == 0 {
        None
    } else {
        match object_property_s(props.drop_last(), name) {
            Some(v) => Some(v),
            None => match props.last() {
                CsfProp::KeyValue { key: Some(k), value } => if k@ == name {
                    Some(value)
                } else {
                    None
                },
                _ => None,
            },
        }
    }
}

/// The string literals among array elements (wrappers removed), in order.
pub open spec fn string_elems(es: Seq<CsfExpr>) -> Seq<Seq<char>>
    decreases es.len(),
{
    if es.len() == 0 {
        Seq::empty()
    } else {
        string_elems(es.drop_last()) + match unwrapped_s(es.last()).kind {
            CsfKind::Str(v) => seq![v@],
            _ => Seq::empty(),
        }
    }
}

/// The strings of an array-literal property.
pub open spec fn string_array_s(props: Seq<CsfProp>, name: Seq<char>) -> Option<Seq<Seq<char>>> {
    match object_property_s(props, name) {
        Some(v) => match unwrapped_s(v).kind {
            CsfKind::Array(es) => Some(string_elems(es@)),
            _ => None,
        },
        None => None,
    }
}

/// The properties of the object literal that binding `name` is initialized
/// with.
pub open spec fn meta_object_s(items: Seq<CsfItem>, name: Seq<char>) -> Option<Seq<CsfProp>> {
    match var_init_s(items, name) {
        Some(e) => match unwrapped_s(e).kind {
            CsfKind::Object(ps) => Some(ps@),
            _ => None,
        },
        None => None,
    }
}

/// The text of each string of an optional list.
pub open spec fn opt_names(o: Option<Vec<String>>) -> Option<Seq<Seq<char>>> {
    match o {
        Some(v) => Some(names_view(v)),
        None => None,
    }
}

/// The position of the first `key: value` property under `name`.
pub fn object_property_at(props: &Vec<CsfProp>, name: &str) -> (r: Option<usize>)
    ensures
        match r {
            Some(i) => i < props@.len() && (props@[i as int] matches CsfProp::KeyValue { key: Some(k), value }
                && k@ == name@ && object_property_s(props@, name@) == Some(value)),
            None => object_property_s(props@, name@) is None,
        },
{
    let mut i: usize = 0;
    while i < props.len()
        invariant
            i <= props@.len(),
            object_property_s(props@.take(i as int), name@) is None,
        decreases props.len() - i,
    {
        proof {
            assert(props@.take(i + 1).drop_last() =~= props@.take(i as int));
        }
        match &props[i] {
            CsfProp::KeyValue { key: Some(k), value } => {
                if str_eq(k.as_str(), name) {
                    proof {
                        lemma_object_property_prefix(props@, i + 1, name@);
                    }
                    return Some(i);
                }
            },
            _ => {},
        }
        i = i + 1;
    }
    proof {
        assert(props@.take(props@.len() as int) =~= props@);
    }
    None
}

/// The value of the first `key: value` property under `name`.
pub fn object_property<'a>(props: &'a Vec<CsfProp>, name: &str) -> (r: Option<&'a CsfExpr>)
    ensures
        match r {
            Some(v) => object_property_s(props@, name@) == Some(*v),
            None => object_property_s(props@, name@) is None,
        },
{
    match object_property_at(props, name) {
        Some(i) => match &props[i] {
            CsfProp::KeyValue { value, .. } => Some(value),
            _ => None,
        },
        None => None,
    }
}

/// A property found among the first `k` properties is the first one overall.
proof fn lemma_object_property_prefix(props: Seq<CsfProp>, k: int, name: Seq<char>)
    requires
        0 <= k <= props.len(),
        object_property_s(props.take(k), name) is Some,
    ensures
        object_property_s(props, name) == object_property_s(props.take(k), name),
    decreases props.len() - k,
{
    if k < props.len() {
        assert(props.take(k + 1).drop_last() =~= props.take(k));
        lemma_object_property_prefix(props, k + 1, name);
    } else {
        assert(props.take(k) =~= props);
    }
}

/// The strings of an array-literal property (`includeStories: ["A"]`).
pub fn string_array_property(props: &Vec<CsfProp>, name: &str) -> (r: Option<Vec<String>>)
    ensures
        opt_names(r) == string_array_s(props@, name@),
{
    let v = match object_property(props, name) {
        Some(v) => v,
        None => return None,
    };
    let es = match &unwrap_ts(v).kind {
        CsfKind::Array(es) => es,
        _ => return None,
    };
    let mut out: Vec<String> = Vec::new();
    let mut i: usize = 0;
    while i < es.len()
        invariant
            i <= es@.len(),
            names_view(out) == string_elems(es@.take(i as int)),
        decreases es.len() - i,
    {
        proof {
            assert(es@.take(i + 1).drop_last() =~= es@.take(i as int));
        }
        let ghost before = out;
        match &unwrap_ts(&es[i]).kind {
            CsfKind::Str(t) => {
                out.push(t.clone());
                proof {
                    assert(names_view(out) =~= names_view(before).push(t@));
                }
            },
            _ => {},
        }
        proof {
            assert(names_view(out) =~= string_elems(es@.take(i + 1)));
        }
        i = i + 1;
    }
    proof {
        assert(es@.take(es@.len() as int) =~= es@);
    }
    Some(out)
}

/// The `includeStories` and `excludeStories` lists of the meta object bound
/// to `meta_name`, when that binding holds an object literal.
pub fn meta_filter(items: &Vec<CsfItem>, meta_name: &str) -> (r: Option<StoryFilter>)
    ensures
        match meta_object_s(items@, meta_name@) {
            Some(ps) => r matches Some(f) && opt_names(f.includes) == string_array_s(ps, "includeStories"@)
                && opt_names(f.excludes) == string_array_s(ps, "excludeStories"@),
            None => r is None,
        },
{
    let e = match find_var_init(items, meta_name) {
        Some(e) => e,
        None => return None,
    };
    match &unwrap_ts(e).kind {
        CsfKind::Object(ps) => Some(
            StoryFilter {
                includes: string_array_property(ps, "includeStories"),
                excludes: string_array_property(ps, "excludeStories"),
            },
        ),
        _ => None,
    }
}

// ---------------------------------------------------------------------------
// Normalizing the default export.

/// Whether one of the declarators binds `name`.
pub open spec fn decls_bind(ds: Seq<CsfDeclarator>, name: Seq<char>) -> bool {
    exists|i: int| 0 <= i < ds.len() && binds(#[trigger] ds[i], name)
}

/// The span of a variable statement binding `name`.
pub open spec fn var_stmt_of(it: CsfItem, name: Seq<char>) -> Option<(u32, u32)> {
    match it {
        CsfItem::Var { span, decls } => if decls_bind(decls@, name) {
            Some(span)
        } else {
            None
        },
        CsfItem::ExportVar { span, decls } => if decls_bind(decls@, name) {
            Some(span)
        } else {
            None
        },
        _ => None,
    }
}

/// The span of the first top-level variable statement binding `name`
/// (for an exported one, the span of the export).
pub open spec fn var_statement_span_s(items: Seq<CsfItem>, name: Seq<char>) -> Option<(u32, u32)>
    decreases items.len(),
{
    if items.len() == 0 {
        None
    } else {
        match var_statement_span_s(items.drop_last(), name) {
            Some(s) => Some(s),
            None => var_stmt_of(items.last(), name),
        }
    }
}

/// A statement found among the first `k` items is the first one overall.
proof fn lemma_var_statement_prefix(items: Seq<CsfItem>, k: int, name: Seq<char>)
    requires
        0 <= k <= items.len(),
        var_statement_span_s(items.take(k), name) is Some,
    ensures
        var_statement_span_s(items, name) == var_statement_span_s(items.take(k), name),
    decreases items.len() - k,
{
    if k < items.len() {
        assert(items.take(k + 1).drop_last() =~= items.take(k));
        lemma_var_statement_prefix(items, k + 1, name);
    } else {
        assert(items.take(k) =~= items);
    }
}

/// Whether one of the declarators binds `name`.
fn any_binds(ds: &Vec<CsfDeclarator>, name: &str) -> (r: bool)
    ensures
        r == decls_bind(ds@, name@),
{
    let mut i: usize = 0;
    while i < ds.len()
        invariant
            i <= ds@.len(),
            forall|j: int| 0 <= j < i ==> !binds(#[trigger] ds@[j], name@),
        decreases ds.len() - i,
    {
        let hit = match &ds[i].name {
            Some(n) => str_eq(n.as_str(), name),
            None => false,
        };
        if hit {
            return true;
        }
        i = i + 1;
    }
    false
}

/// The span of the first top-level variable statement binding `name`.
pub fn find_var_statement_span(items: &Vec<CsfItem>, name: &str) -> (r: Option<(u32, u32)>)
    ensures
        r == var_statement_span_s(items@, name@),
{
    let mut k: usize = 0;
    while k < items.len()
        invariant
            k <= items@.len(),
            var_statement_span_s(items@.take(k as int), name@) is None,
        decreases items.len() - k,
    {
        proof {
            assert(items@.take(k + 1).drop_last() =~= items@.take(k as int));
        }
        let found = match &items[k] {
            CsfItem::Var { span, decls } => if any_binds(decls, name) {
                Some(*span)
            } else {
                None
            },
            CsfItem::ExportVar { span, decls } => if any_binds(decls, name) {
                Some(*span)
            } else {
                None
            },
            _ => None,
        };
        if found.is_some() {
            proof {
                lemma_var_statement_prefix(items@, k + 1, name@);
            }
            return found;
        }
        k = k + 1;
    }
    proof {
        assert(items@.take(items@.len() as int) =~= items@);
    }
    None
}

/// Whether `name` is bound at the top level with an initializer or as a
/// function.
pub open spec fn name_taken(items: Seq<CsfItem>, name: Seq<char>) -> bool {
    var_init_s(items, name) is Some || function_s(items, name) is Some
}

/// `suffix` gives the first meta name that is not taken.
pub open spec fn first_free_suffix(items: Seq<CsfItem>, suffix: nat) -> bool {
    &&& !name_taken(items, meta_name_s(suffix))
    &&& forall|t: nat| t < suffix ==> name_taken(items, #[trigger] meta_name_s(t))
}

/// The names of declarators (empty for patterns).
pub open spec fn decl_names(ds: Seq<CsfDeclarator>) -> Seq<Seq<char>> {
    ds.map_values(
        |d: CsfDeclarator|
            match d.name {
                Some(n) => n@,
                None => Seq::empty(),
            },
    )
}

/// The names of the top-level functions.
pub open spec fn fn_names(items: Seq<CsfItem>) -> Seq<Seq<char>>
    decreases items.len(),
{
    if items.len() == 0 {
        Seq::empty()
    } else {
        fn_names(items.drop_last()) + match items.last() {
            CsfItem::ExportFn { name, .. } => seq![name@],
            CsfItem::Fn { name, .. } => seq![name@],
            _ => Seq::empty(),
        }
    }
}

/// Every name bound at the top level, with repetitions.
pub open spec fn bound_names(items: Seq<CsfItem>) -> Seq<Seq<char>> {
    decl_names(var_decls(items)) + fn_names(items)
}

/// A declared function's name is among the function names.
proof fn lemma_function_named(items: Seq<CsfItem>, name: Seq<char>)
    requires
        function_s(items, name) is Some,
    ensures
        fn_names(items).contains(name),
    decreases items.len(),
{
    let rest = items.drop_last();
    let tail = fn_names(items).subrange(fn_names(rest).len() as int, fn_names(items).len() as int);
    assert(fn_names(items) =~= fn_names(rest) + tail);
    if function_s(rest, name) is Some {
        lemma_function_named(rest, name);
        let i = choose|i: int| 0 <= i < fn_names(rest).len() && fn_names(rest)[i] == name;
        assert(fn_names(items)[i] == name);
    } else {
        assert(fn_names(items)[fn_names(rest).len() as int] == name);
    }
}

/// A taken name is among the bound names.
proof fn lemma_taken_is_bound(items: Seq<CsfItem>, name: Seq<char>)
    requires
        name_taken(items, name),
    ensures
        bound_names(items).contains(name),
{
    let ds = var_decls(items);
    let all = bound_names(items);
    if var_init_s(items, name) is Some {
        lemma_first_binding(ds, name);
        let p = first_binding(ds, name);
        assert(all[p] == decl_names(ds)[p]);
        assert(all[p] == name);
    } else {
        lemma_function_named(items, name);
        let i = choose|i: int| 0 <= i < fn_names(items).len() && fn_names(items)[i] == name;
        assert(all[decl_names(ds).len() + i] == name);
    }
}

/// Decimal digits are never empty, and a number from 10 on has two or more.
proof fn lemma_decimal_len(n: nat)
    ensures
        decimal_s(n).len() >= 1,
        n >= 10 ==> decimal_s(n).len() >= 2,
    decreases n,
{
    if n >= 10 {
        lemma_decimal_len(n / 10);
    }
}

/// Different numbers have different decimal digits.
proof fn lemma_decimal_injective(a: nat, b: nat)
    requires
        decimal_s(a) == decimal_s(b),
    ensures
        a == b,
    decreases a,
{
    lemma_decimal_len(a);
    lemma_decimal_len(b);
    let da = decimal_s(a);
    let la = (48 + a % 10) as char;
    let lb = (48 + b % 10) as char;
    assert(da.last() == la);
    assert(decimal_s(b).last() == lb);
    assert(la as int == 48 + a % 10);
    assert(lb as int == 48 + b % 10);
    if a >= 10 && b >= 10 {
        assert(decimal_s(a / 10) =~= da.drop_last());
        assert(decimal_s(b / 10) =~= decimal_s(b).drop_last());
        lemma_decimal_injective(a / 10, b / 10);
    }
}

/// Different suffixes give different meta names.
proof fn lemma_meta_name_injective(a: nat, b: nat)
    requires
        meta_name_s(a) == meta_name_s(b),
    ensures
        a == b,
{
    reveal_strlit("$parcel$storybook$meta");
    let p = "$parcel$storybook$meta"@;
    lemma_decimal_len(a);
    lemma_decimal_len(b);
    if a > 0 && b > 0 {
        assert(decimal_s(a) =~= meta_name_s(a).subrange(p.len() as int, meta_name_s(a).len() as int));
        assert(decimal_s(b) =~= meta_name_s(b).subrange(p.len() as int, meta_name_s(b).len() as int));
        lemma_decimal_injective(a, b);
    }
}

/// Among names bound in `names`, at most `names.len()` distinct meta names
/// fit, so a run of taken meta names is at most that long.
proof fn lemma_taken_run_bounded(names: Seq<Seq<char>>, m: nat)
    requires
        forall|t: nat| t < m ==> names.contains(#[trigger] meta_name_s(t)),
    ensures
        m <= names.len(),
{
    let x = set_int_range(0, m as int);
    let f = |i: int| meta_name_s(i as nat);
    lemma_int_range(0, m as int);
    assert forall|a: int, b: int| x.contains(a) && x.contains(b) && #[trigger] f(a) == #[trigger] f(b) implies a
        == b by {
        lemma_meta_name_injective(a as nat, b as nat);
    }
    assert(injective_on(f, x));
    let y = x.map(f);
    lemma_map_size(x, y, f);
    let z = names.to_set();
    assert forall|v: Seq<char>| y.contains(v) implies z.contains(v) by {
        let i = choose|i: int| x.contains(i) && v == f(i);
        assert(names.contains(meta_name_s(i as nat)));
    }
    assert(y.subset_of(z));
    vstd::seq_lib::seq_to_set_is_finite(names);
    lemma_len_subset(y, z);
    names.lemma_cardinality_of_set();
}

/// Why the default export of a CSF file cannot serve as its meta.
#[derive(Debug)]
pub enum MetaError {
    /// No `export default <expr>`.
    MissingDefault,
    /// The default export is not an object literal, nor bound to one.
    NotObject,
}

impl MetaError {
    /// The message for the file at `path`.
    pub fn message(&self, path: &str) -> (r: String)
        ensures
            r@ == match self {
                MetaError::MissingDefault => "CSF: missing default export in "@ + path@,
                MetaError::NotObject => "CSF: default export must be an object in "@ + path@,
            },
    {
        match self {
            MetaError::MissingDefault => concat_str("CSF: missing default export in ", path),
            MetaError::NotObject => concat_str("CSF: default export must be an object in ", path),
        }
    }
}

/// The meta (default export) object of a CSF file: the binding that holds
/// it, the span of the statement its documentation comment sits on, and the
/// span of the object literal.
pub struct Meta {
    pub name: String,
    pub statement_span: (u32, u32),
    pub object_span: (u32, u32),
}

/// What the default export of a file is, as plain values.
pub enum MetaCase {
    Missing,
    NotObject,
    /// `export default name`, where `name` is bound to an object literal.
    Bound { name: Seq<char>, statement_span: (u32, u32), object_span: (u32, u32) },
    /// `export default { .. }` at position `at`.
    Inline { at: int, statement_span: (u32, u32), object_span: (u32, u32), expr: CsfExpr },
}

/// The position of the first `export default <expr>` from `i` on, or -1.
pub open spec fn first_default_from(items: Seq<CsfItem>, i: int) -> int
    decreases items.len() - i,
{
    if i < 0 || i >= items.len() {
        -1
    } else if items[i] is DefaultExpr {
        i
    } else {
        first_default_from(items, i + 1)
    }
}

/// What the first default export of a file is.
pub open spec fn meta_case(items: Seq<CsfItem>) -> MetaCase {
    let d = first_default_from(items, 0);
    if d < 0 {
        MetaCase::Missing
    } else {
        match items[d] {
            CsfItem::DefaultExpr { span, expr } => {
                let u = unwrapped_s(expr);
                match u.kind {
                    CsfKind::Ident(n) => match var_init_s(items, n@) {
                        Some(e) => match unwrapped_s(e).kind {
                            CsfKind::Object(_) => MetaCase::Bound {
                                name: n@,
                                statement_span: match var_statement_span_s(items, n@) {
                                    Some(s) => s,
                                    None => span,
                                },
                                object_span: unwrapped_s(e).span,
                            },
                            _ => MetaCase::NotObject,
                        },
                        None => MetaCase::NotObject,
                    },
                    CsfKind::Object(_) => MetaCase::Inline {
                        at: d,
                        statement_span: span,
                        object_span: u.span,
                        expr: expr,
                    },
                    _ => MetaCase::NotObject,
                }
            },
            _ => MetaCase::Missing,
        }
    }
}

/// `after` is `before` with item `at` replaced by `const name = expr;` and
/// `export default name;` (both without a source span).
pub open spec fn meta_bound_at(before: Seq<CsfItem>, after: Seq<CsfItem>, at: int, name: Seq<char>, expr: CsfExpr) -> bool {
    &&& after.len() == before.len() + 1
    &&& forall|i: int| 0 <= i < at ==> after[i] == before[i]
    &&& forall|i: int| at < i < before.len() ==> after[i + 1] == before[i]
    &&& after[at] matches CsfItem::Var { span, decls } && span == (0u32, 0u32) && decls@.len() == 1
        && decls@[0].init == Some(expr) && (decls@[0].name matches Some(n) && n@ == name)
    &&& after[at + 1] matches CsfItem::DefaultExpr { span, expr: e } && span == (0u32, 0u32) && e.span == (
        0u32,
        0u32,
    ) && (e.kind matches CsfKind::Ident(n) && n@ == name)
}

/// What normalizing the meta of `before` gives: the error, or the meta and
/// the items `after` (unchanged, but for an inline default-export object,
/// which is bound to the first free meta name).
pub open spec fn meta_outcome(before: Seq<CsfItem>, after: Seq<CsfItem>, r: Result<Meta, MetaError>) -> bool {
    match meta_case(before) {
        MetaCase::Missing => r matches Err(MetaError::MissingDefault) && after == before,
        MetaCase::NotObject => r matches Err(MetaError::NotObject) && after == before,
        MetaCase::Bound { name, statement_span, object_span } => r matches Ok(m) && m.name@ == name
            && m.statement_span == statement_span && m.object_span == object_span && after == before,
        MetaCase::Inline { at, statement_span, object_span, expr } => r matches Ok(m) && m.statement_span
            == statement_span && m.object_span == object_span && (exists|s: nat|
            first_free_suffix(before, s) && m.name@ == #[trigger] meta_name_s(s)) && meta_bound_at(
            before,
            after,
            at,
            m.name@,
            expr,
        ),
    }
}

/// The first default export from `i` on is -1 or a position from `i` on.
proof fn lemma_first_default_bounds(items: Seq<CsfItem>, i: int)
    requires
        0 <= i,
    ensures
        first_default_from(items, i) == -1 || i <= first_default_from(items, i) < items.len(),
    decreases items.len() - i,
{
    if i < items.len() && !(items[i] is DefaultExpr) {
        lemma_first_default_bounds(items, i + 1);
    }
}

/// Law: once the meta is normalized, its name is bound to the meta object:
/// the object literal the default export named or held, at the span the
/// meta records. For an object written inline, this needs that no earlier
/// declarator binds the new name without a value.
pub proof fn law_meta_bound_to_object(before: Seq<CsfItem>, after: Seq<CsfItem>, m: Meta)
    requires
        meta_outcome(before, after, Ok(m)),
        meta_case(before) matches MetaCase::Inline { at, .. } ==> forall|i: int|
            0 <= i < var_decls(before.take(at)).len() ==> !binds(#[trigger] var_decls(before.take(at))[i], m.name@),
    ensures
        var_init_s(after, m.name@) matches Some(e) && unwrapped_s(e).span == m.object_span && unwrapped_s(e).kind is Object,
{
    lemma_first_default_bounds(before, 0);
    match meta_case(before) {
        MetaCase::Inline { at, statement_span, object_span, expr } => {
            let name = m.name@;
            assert(meta_bound_at(before, after, at, name, expr));
            assert(0 <= at < before.len());
            assert(after.take(at) =~= before.take(at));
            lemma_var_decls_step(after, at);
            let a = var_decls(after.take(at));
            let b = var_decls(after.take(at + 1));
            let ds = match after[at] {
                CsfItem::Var { decls, .. } => decls@,
                _ => Seq::empty(),
            };
            assert(b == a + ds);
            assert(b[a.len() as int] == ds[0]);
            assert(binds(ds[0], name));
            assert forall|i: int| 0 <= i < a.len() implies !binds(#[trigger] b[i], name) by {
                assert(b[i] == a[i]);
            }
            lemma_first_binding_at(b, name, a.len() as int);
            lemma_var_decls_prefix(after, at + 1, name);
        },
        _ => {},
    }
}

/// The position of the first `export default <expr>`.
pub fn find_default(items: &Vec<CsfItem>) -> (r: Option<usize>)
    ensures
        match r {
            Some(p) => p < items@.len() && p == first_default_from(items@, 0),
            None => first_default_from(items@, 0) == -1,
        },
{
    let mut i: usize = 0;
    while i < items.len()
        invariant
            i <= items@.len(),
            first_default_from(items@, 0) == first_default_from(items@, i as int),
        decreases items.len() - i,
    {
        if let CsfItem::DefaultExpr { .. } = &items[i] {
            return Some(i);
        }
        i = i + 1;
    }
    None
}

/// Finds the meta object of a CSF file. `export default name` must name a
/// binding initialized with an object literal; `export default { .. }` is
/// rewritten into `const $parcel$storybook$meta = { .. }; export default
/// $parcel$storybook$meta;`, with a numeric suffix on the name while the name
/// is taken.
pub fn normalize_meta(items: &mut Vec<CsfItem>) -> (r: Result<Meta, MetaError>)
    requires
        bound_names(old(items)@).len() < usize::MAX,
    ensures
        meta_outcome(old(items)@, final(items)@, r),
{
    let d = match find_default(items) {
        Some(d) => d,
        None => return Err(MetaError::MissingDefault),
    };
    let (span, object_span, ident) = match &items[d] {
        CsfItem::DefaultExpr { span, expr } => {
            let u = unwrap_ts(expr);
            match &u.kind {
                CsfKind::Ident(n) => (*span, u.span, Some(n.clone())),
                CsfKind::Object(_) => (*span, u.span, None),
                _ => return Err(MetaError::NotObject),
            }
        },
        _ => return Err(MetaError::MissingDefault),
    };
    if let Some(name) = ident {
        let e = match find_var_init(items, name.as_str()) {
            Some(e) => unwrap_ts(e),
            None => return Err(MetaError::NotObject),
        };
        let object_span = match &e.kind {
            CsfKind::Object(_) => e.span,
            _ => return Err(MetaError::NotObject),
        };
        let statement_span = match find_var_statement_span(items, name.as_str()) {
            Some(s) => s,
            None => span,
        };
        return Ok(Meta { name, statement_span, object_span });
    }
    let ghost names = bound_names(items@);
    let mut suffix: usize = 0;
    let mut name = meta_name(0);
    while find_var_init(items, name.as_str()).is_some() || find_function(items, name.as_str()).is_some()
        invariant
            names == bound_names(items@),
            names.len() < usize::MAX,
            name@ == meta_name_s(suffix as nat),
            forall|t: nat| t < suffix ==> name_taken(items@, #[trigger] meta_name_s(t)),
            suffix <= names.len(),
        decreases names.len() - suffix,
    {
        proof {
            assert forall|t: nat| t < suffix + 1 implies names.contains(#[trigger] meta_name_s(t)) by {
                lemma_taken_is_bound(items@, meta_name_s(t));
            }
            lemma_taken_run_bounded(names, (suffix + 1) as nat);
        }
        suffix = suffix + 1;
        name = meta_name(suffix);
    }
    let ghost old_items = items@;
    proof {
        assert(first_free_suffix(old_items, suffix as nat));
    }
    let removed = items.remove(d);
    let expr = match removed {
        CsfItem::DefaultExpr { expr, .. } => expr,
        _ => {
            proof {
                assert(false);
            }
            return Err(MetaError::MissingDefault);
        },
    };
    let declaration = CsfItem::Var {
        span: (0, 0),
        decls: vec![CsfDeclarator { name: Some(name.clone()), init: Some(expr) }],
    };
    let reference = CsfItem::DefaultExpr {
        span: (0, 0),
        expr: CsfExpr { span: (0, 0), kind: CsfKind::Ident(name.clone()) },
    };
    items.insert(d, reference);
    items.insert(d, declaration);
    proof {
        assert forall|i: int| d < i < old_items.len() implies items@[i + 1] == old_items[i] by {}
    }
    Ok(Meta { name, statement_span: span, object_span })
}

// ---------------------------------------------------------------------------
// The documented component.

/// The local name a component expression refers to, and for a member access
/// `ns.Name` or `ns["Name"]` the name taken from the namespace.
pub open spec fn import_ref_s(e: CsfExpr) -> Option<(Seq<char>, Option<Seq<char>>)> {
    match unwrapped_s(e).kind {
        CsfKind::Ident(n) => Some((n@, None)),
        CsfKind::Member { object, property } => match unwrapped_s(*object).kind {
            CsfKind::Ident(n) => Some(
                (
                    n@,
                    match property {
                        CsfMemberProp::Ident(p) => Some(p@),
                        CsfMemberProp::Computed(c) => match unwrapped_s(*c).kind {
                            CsfKind::Str(v) => Some(v@),
                            _ => None,
                        },
                        CsfMemberProp::Private => None,
                    },
                ),
            ),
            _ => None,
        },
        _ => None,
    }
}

/// The export a specifier imports under the local name `local` (for a
/// namespace import, `ns`).
pub open spec fn spec_export(sp: CsfImportSpec, local: Seq<char>, ns: Option<Seq<char>>) -> Option<Seq<char>> {
    match sp {
        CsfImportSpec::Default { local: l } => if l@ == local {
            Some("default"@)
        } else {
            None
        },
        CsfImportSpec::Named { local: l, imported, type_only } => if !type_only && l@ == local {
            match imported {
                Some(CsfExportName::Ident(i)) => Some(i@),
                Some(CsfExportName::Str) => None,
                None => Some(l@),
            }
        } else {
            None
        },
        CsfImportSpec::Namespace { local: l } => if l@ == local {
            ns
        } else {
            None
        },
    }
}

/// The export of the first specifier that imports `local`.
pub open spec fn specs_export(sps: Seq<CsfImportSpec>, local: Seq<char>, ns: Option<Seq<char>>) -> Option<Seq<char>>
    decreases sps.len(),
{
    if sps.len() == 0 {
        None
    } else {
        match specs_export(sps.drop_last(), local, ns) {
            Some(n) => Some(n),
            None => spec_export(sps.last(), local, ns),
        }
    }
}

/// The first value import of `local`: `Some(Some((source, export)))`, or
/// `Some(None)` when that import's source is not valid text; `None` when
/// there is no such import.
pub open spec fn import_of_s(items: Seq<CsfItem>, local: Seq<char>, ns: Option<Seq<char>>) -> Option<
    Option<(Seq<char>, Seq<char>)>,
>
    decreases items.len(),
{
    if items.len() == 0 {
        None
    } else {
        match import_of_s(items.drop_last(), local, ns) {
            Some(x) => Some(x),
            None => match items.last() {
                CsfItem::Import { type_only, src, specifiers } => if type_only {
                    None
                } else {
                    match specs_export(specifiers@, local, ns) {
                        Some(n) => Some(
                            match src {
                                Some(s) => Some((s@, n)),
                                None => None,
                            },
                        ),
                        None => None,
                    }
                },
                _ => None,
            },
        }
    }
}

/// The `component` of the meta object (wrappers removed).
pub open spec fn component_s(items: Seq<CsfItem>, meta_name: Seq<char>) -> Option<CsfExpr> {
    match meta_object_s(items, meta_name) {
        Some(ps) => match object_property_s(ps, "component"@) {
            Some(c) => Some(unwrapped_s(c)),
            None => None,
        },
        None => None,
    }
}

/// Law: a member access `ns.Name` on a namespace refers to the export `Name`
/// of what `ns` names, exactly as `ns["Name"]` does.
pub proof fn law_member_reference(object: CsfExpr, name: String, s1: (u32, u32), s2: (u32, u32))
    ensures
        import_ref_s(
            CsfExpr { span: s1, kind: CsfKind::Member { object: Box::new(object), property: CsfMemberProp::Ident(name) } },
        ) == import_ref_s(
            CsfExpr {
                span: s1,
                kind: CsfKind::Member {
                    object: Box::new(object),
                    property: CsfMemberProp::Computed(Box::new(CsfExpr { span: s2, kind: CsfKind::Str(name) })),
                },
            },
        ),
        unwrapped_s(object).kind matches CsfKind::Ident(n) ==> import_ref_s(
            CsfExpr { span: s1, kind: CsfKind::Member { object: Box::new(object), property: CsfMemberProp::Ident(name) } },
        ) == Some((n@, Some(name@))),
{
}

proof fn lemma_import_of_prefix(a: Seq<CsfItem>, b: Seq<CsfItem>, local: Seq<char>, ns: Option<Seq<char>>)
    requires
        import_of_s(a, local, ns) is Some,
    ensures
        import_of_s(a + b, local, ns) == import_of_s(a, local, ns),
    decreases b.len(),
{
    if b.len() > 0 {
        lemma_import_of_prefix(a, b.drop_last(), local, ns);
        assert((a + b).drop_last() =~= a + b.drop_last());
    } else {
        assert(a + b =~= a);
    }
}

/// Law: when the documented component is `ns.Name` and the first value
/// import of `ns` is `import * as ns from "src"`, the docgen target is the
/// export `Name` of `src`.
pub proof fn law_namespace_component(
    pre: Seq<CsfItem>,
    post: Seq<CsfItem>,
    src: String,
    local: String,
    specifiers: Vec<CsfImportSpec>,
    meta_name: Seq<char>,
    object: CsfExpr,
    name: String,
    span: (u32, u32),
)
    requires
        specifiers@ == seq![CsfImportSpec::Namespace { local }],
        unwrapped_s(object).kind matches CsfKind::Ident(n) && n@ == local@,
        import_of_s(pre, local@, Some(name@)) is None,
        component_s(
            pre + seq![CsfItem::Import { type_only: false, src: Some(src), specifiers }] + post,
            meta_name,
        ) == Some(
            CsfExpr { span, kind: CsfKind::Member { object: Box::new(object), property: CsfMemberProp::Ident(name) } },
        ),
    ensures
        docgen_s(pre + seq![CsfItem::Import { type_only: false, src: Some(src), specifiers }] + post, meta_name) == Some(
            (
                CsfExpr { span, kind: CsfKind::Member { object: Box::new(object), property: CsfMemberProp::Ident(name) } },
                src@,
                name@,
            ),
        ),
{
    let imp = CsfItem::Import { type_only: false, src: Some(src), specifiers };
    let a = pre + seq![imp];
    assert(a.drop_last() =~= pre);
    let sps = specifiers@;
    assert(sps.drop_last() =~= Seq::<CsfImportSpec>::empty());
    assert(specs_export(sps.drop_last(), local@, Some(name@)) is None);
    assert(sps.last() == CsfImportSpec::Namespace { local });
    assert(specs_export(sps, local@, Some(name@)) == Some(name@));
    assert(import_of_s(a, local@, Some(name@)) == Some(Some((src@, name@))));
    lemma_import_of_prefix(a, post, local@, Some(name@));
}

/// The component whose documentation is attached, the module it is
/// imported from and the name it is exported under there.
pub open spec fn docgen_s(items: Seq<CsfItem>, meta_name: Seq<char>) -> Option<(CsfExpr, Seq<char>, Seq<char>)> {
    match component_s(items, meta_name) {
        Some(c) => match import_ref_s(c) {
            Some(rf) => match import_of_s(items, rf.0, rf.1) {
                Some(Some(found)) => Some((c, found.0, found.1)),
                _ => None,
            },
            None => None,
        },
        None => None,
    }
}

/// The component whose documentation is attached to the meta, with the
/// module it is imported from and the name it is exported under there.
pub struct DocgenTarget<'a> {
    pub component: &'a CsfExpr,
    pub source: String,
    pub export_name: String,
}

/// The local name a component expression refers to, and for a member access
/// `ns.Name` or `ns["Name"]` the name taken from the namespace.
pub fn component_import_reference(e: &CsfExpr) -> (r: Option<(String, Option<String>)>)
    ensures
        match r {
            Some(p) => import_ref_s(*e) == Some((p.0@, match p.1 {
                Some(x) => Some(x@),
                None => None,
            })),
            None => import_ref_s(*e) is None,
        },
{
    match &unwrap_ts(e).kind {
        CsfKind::Ident(n) => Some((n.clone(), None)),
        CsfKind::Member { object, property } => match &unwrap_ts(object).kind {
            CsfKind::Ident(n) => {
                let ns = match property {
                    CsfMemberProp::Ident(p) => Some(p.clone()),
                    CsfMemberProp::Computed(c) => match &unwrap_ts(c).kind {
                        CsfKind::Str(v) => Some(v.clone()),
                        _ => None,
                    },
                    CsfMemberProp::Private => None,
                };
                Some((n.clone(), ns))
            },
            _ => None,
        },
        _ => None,
    }
}

/// The export a specifier imports under `local`.
fn specifier_export(sp: &CsfImportSpec, local: &str, ns: &Option<String>) -> (r: Option<String>)
    ensures
        match r {
            Some(n) => spec_export(*sp, local@, opt_text(*ns)) == Some(n@),
            None => spec_export(*sp, local@, opt_text(*ns)) is None,
        },
{
    match sp {
        CsfImportSpec::Default { local: l } => if str_eq(l.as_str(), local) {
            Some(String::from_str("default"))
        } else {
            None
        },
        CsfImportSpec::Named { local: l, imported, type_only } => if !*type_only && str_eq(l.as_str(), local) {
            match imported {
                Some(CsfExportName::Ident(i)) => Some(i.clone()),
                Some(CsfExportName::Str) => None,
                None => Some(l.clone()),
            }
        } else {
            None
        },
        CsfImportSpec::Namespace { local: l } => if str_eq(l.as_str(), local) {
            match ns {
                Some(n) => Some(n.clone()),
                None => None,
            }
        } else {
            None
        },
    }
}

/// The text of an optional string.
pub open spec fn opt_text(o: Option<String>) -> Option<Seq<char>> {
    match o {
        Some(s) => Some(s@),
        None => None,
    }
}

/// The first value import of `local` (see [`import_of_s`]).
fn find_import(items: &Vec<CsfItem>, local: &str, ns: &Option<String>) -> (r: Option<Option<(String, String)>>)
    ensures
        match r {
            Some(Some(p)) => import_of_s(items@, local@, opt_text(*ns)) == Some(Some((p.0@, p.1@))),
            Some(None) => import_of_s(items@, local@, opt_text(*ns)) == Some(None::<(Seq<char>, Seq<char>)>),
            None => import_of_s(items@, local@, opt_text(*ns)) is None,
        },
{
    let ghost nsv = opt_text(*ns);
    let mut k: usize = 0;
    while k < items.len()
        invariant
            k <= items@.len(),
            nsv == opt_text(*ns),
            import_of_s(items@.take(k as int), local@, nsv) is None,
        decreases items.len() - k,
    {
        proof {
            assert(items@.take(k + 1).drop_last() =~= items@.take(k as int));
        }
        match &items[k] {
            CsfItem::Import { type_only, src, specifiers } => {
                if !*type_only {
                    let mut j: usize = 0;
                    while j < specifiers.len()
                        invariant
                            j <= specifiers@.len(),
                            specs_export(specifiers@.take(j as int), local@, nsv) is None,
                            nsv == opt_text(*ns),
                            k < items@.len(),
                            import_of_s(items@.take(k as int), local@, nsv) is None,
                            items@.take(k + 1).drop_last() == items@.take(k as int),
                            items@[k as int] == (CsfItem::Import { type_only: false, src: *src, specifiers: *specifiers }),
                        decreases specifiers.len() - j,
                    {
                        proof {
                            assert(specifiers@.take(j + 1).drop_last() =~= specifiers@.take(j as int));
                        }
                        if let Some(n) = specifier_export(&specifiers[j], local, ns) {
                            proof {
                                lemma_specs_export_prefix(specifiers@, j + 1, local@, nsv);
                                lemma_import_prefix(items@, k + 1, local@, nsv);
                            }
                            return match src {
                                Some(s) => Some(Some((s.clone(), n))),
                                None => Some(None),
                            };
                        }
                        j = j + 1;
                    }
                    proof {
                        assert(specifiers@.take(specifiers@.len() as int) =~= specifiers@);
                    }
                }
            },
            _ => {},
        }
        k = k + 1;
    }
    proof {
        assert(items@.take(items@.len() as int) =~= items@);
    }
    None
}

/// A specifier found among the first `k` is the first one overall.
proof fn lemma_specs_export_prefix(sps: Seq<CsfImportSpec>, k: int, local: Seq<char>, ns: Option<Seq<char>>)
    requires
        0 <= k <= sps.len(),
        specs_export(sps.take(k), local, ns) is Some,
    ensures
        specs_export(sps, local, ns) == specs_export(sps.take(k), local, ns),
    decreases sps.len() - k,
{
    if k < sps.len() {
        assert(sps.take(k + 1).drop_last() =~= sps.take(k));
        lemma_specs_export_prefix(sps, k + 1, local, ns);
    } else {
        assert(sps.take(k) =~= sps);
    }
}

/// An import found among the first `k` items is the first one overall.
proof fn lemma_import_prefix(items: Seq<CsfItem>, k: int, local: Seq<char>, ns: Option<Seq<char>>)
    requires
        0 <= k <= items.len(),
        import_of_s(items.take(k), local, ns) is Some,
    ensures
        import_of_s(items, local, ns) == import_of_s(items.take(k), local, ns),
    decreases items.len() - k,
{
    if k < items.len() {
        assert(items.take(k + 1).drop_last() =~= items.take(k));
        lemma_import_prefix(items, k + 1, local, ns);
    } else {
        assert(items.take(k) =~= items);
    }
}

/// The component whose documentation is attached to the meta bound to
/// `meta_name`: its `component` property, when it names an import (or a
/// member of a namespace import) whose source is valid text.
pub fn resolve_docgen_target<'a>(items: &'a Vec<CsfItem>, meta_name: &str) -> (r: Option<DocgenTarget<'a>>)
    ensures
        match r {
            Some(t) => docgen_s(items@, meta_name@) == Some((*t.component, t.source@, t.export_name@)),
            None => docgen_s(items@, meta_name@) is None,
        },
{
    let e = match find_var_init(items, meta_name) {
        Some(e) => e,
        None => return None,
    };
    let ps = match &unwrap_ts(e).kind {
        CsfKind::Object(ps) => ps,
        _ => return None,
    };
    let c = match object_property(ps, "component") {
        Some(c) => unwrap_ts(c),
        None => return None,
    };
    let (local, ns) = match component_import_reference(c) {
        Some(p) => p,
        None => return None,
    };
    match find_import(items, local.as_str(), &ns) {
        Some(Some((source, export_name))) => Some(DocgenTarget { component: c, source, export_name }),
        _ => None,
    }
}

/// Whether documentation is attached for a file with this extension.
pub fn docgen_enabled(extension: Option<&str>) -> (r: bool)
    ensures
        r == (extension matches Some(e) && (e@ == "ts"@ || e@ == "tsx"@)),
{
    match extension {
        Some(e) => str_eq(e, "ts") || str_eq(e, "tsx"),
        None => false,
    }
}

// ---------------------------------------------------------------------------
// Hashes.

/// The text of a story's `args` annotation followed by that of its
/// `parameters` annotation (each empty when absent).
pub open spec fn story_hash_input(source: Seq<u8>, start: u32, s: StoryView) -> Seq<u8> {
    (match s.args_span {
        Some(a) => slice_span_s(source, start, a.0, a.1),
        None => Seq::empty(),
    }) + match s.parameters_span {
        Some(p) => slice_span_s(source, start, p.0, p.1),
        None => Seq::empty(),
    }
}

/// The hash of a story's annotations: the MD5, in hexadecimal, of the text
/// of its `args` followed by that of its `parameters` (the MD5 of the empty
/// string when it has neither).
pub fn story_hash(source: &Vec<u8>, start: u32, story: &Story) -> (r: String)
    ensures
        r@ == hex_s(md5_of(story_hash_input(source@, start, story@))),
{
    let mut input: Vec<u8> = match story.args_span {
        Some(a) => slice_span(source, start, a.0, a.1),
        None => Vec::new(),
    };
    let rest: Vec<u8> = match story.parameters_span {
        Some(p) => slice_span(source, start, p.0, p.1),
        None => Vec::new(),
    };
    let ghost first = input@;
    let mut i: usize = 0;
    while i < rest.len()
        invariant
            i <= rest@.len(),
            input@ == first + rest@.take(i as int),
        decreases rest.len() - i,
    {
        input.push(rest[i]);
        proof {
            assert(rest@.take(i + 1) =~= rest@.take(i as int).push(rest@[i as int]));
        }
        i = i + 1;
    }
    proof {
        assert(rest@.take(rest@.len() as int) =~= rest@);
    }
    md5_hex(input.as_slice())
}

// ---------------------------------------------------------------------------
// The React Refresh wrapper.

/// A top-level item as the React Refresh wrapper sees it.
pub enum RefreshItem {
    /// Stays at the module level: imports, `export * from ..`, and the
    /// TypeScript module declarations (`import x = require(..)`, `export =`).
    Hoisted,
    /// `export <declaration>`, with the names its outermost bindings declare.
    ExportDecl { names: Vec<String> },
    /// `export { .. }`: whether it is type-only, whether it re-exports from
    /// another module, and its specifiers.
    ExportNamed { type_only: bool, from_source: bool, specifiers: Vec<RefreshSpec> },
    /// `export default <expression>`.
    DefaultExpr,
    /// `export default function ..` or `export default class ..`; `named`
    /// when it declares a name.
    DefaultDecl { named: bool },
    /// `export default interface ..`.
    DefaultInterface,
    /// A statement.
    Stmt,
}

/// A specifier of `export { .. }`.
pub enum RefreshSpec {
    /// `local as exported` (`exported` is `None` when not renamed; `local`
    /// is `None` when it is a string), and whether it is type-only.
    Named { local: Option<String>, exported: Option<String>, type_only: bool },
    /// A namespace or default specifier.
    Other,
}

/// The name a specifier exports a value under: that of a value specifier
/// whose local name is an identifier.
pub open spec fn spec_export_name(sp: RefreshSpec) -> Option<Seq<char>> {
    match sp {
        RefreshSpec::Named { local: Some(l), exported, type_only } => if type_only {
            None
        } else {
            Some(
                match exported {
                    Some(e) => e@,
                    None => l@,
                },
            )
        },
        _ => None,
    }
}

/// The names the specifiers export values under, in order.
pub open spec fn named_exports(sps: Seq<RefreshSpec>) -> Seq<Seq<char>>
    decreases sps.len(),
{
    if sps.len() == 0 {
        Seq::empty()
    } else {
        named_exports(sps.drop_last()) + match spec_export_name(sps.last()) {
            Some(n) => seq![n],
            None => Seq::empty(),
        }
    }
}

/// The assignments of the exported specifiers of item `item`; `part` is the
/// position of the specifier.
pub open spec fn named_steps(item: int, sps: Seq<RefreshSpec>, base: int) -> Seq<RefreshStep>
    decreases sps.len(),
{
    if sps.len() == 0 {
        Seq::empty()
    } else {
        named_steps(item, sps.drop_last(), base) + match spec_export_name(sps.last()) {
            Some(_) => seq![
                RefreshStep::Assign {
                    item: item as usize,
                    part: (sps.len() - 1) as usize,
                    var: (base + named_exports(sps.drop_last()).len()) as usize,
                },
            ],
            None => Seq::empty(),
        }
    }
}

/// One statement of the body the wrapper runs.
#[derive(Clone, Copy, Debug, PartialEq, Eq, Structural)]
pub enum RefreshStep {
    /// The statement (or, for an export, the declaration) of item `item`.
    Keep { item: usize },
    /// `<export variable var> = <exported value part of item>;`: for an
    /// exported declaration the `part`-th name, for `export { .. }` the
    /// local of the `part`-th specifier, for a default export its value.
    Assign { item: usize, part: usize, var: usize },
}

/// How the wrapper rearranges a module: the items that stay at the module
/// level, the body it runs, the variables the exports are held in, and the
/// export list as `(variable, exported name)`.
pub struct RefreshPlan {
    pub hoisted: Vec<usize>,
    pub steps: Vec<RefreshStep>,
    pub export_vars: Vec<String>,
    pub exports: Vec<(String, String)>,
}

/// The names an item exports.
pub open spec fn item_exports(it: RefreshItem) -> Seq<Seq<char>> {
    match it {
        RefreshItem::ExportDecl { names } => names_view(names),
        RefreshItem::ExportNamed { type_only, from_source, specifiers } => if type_only || from_source {
            Seq::empty()
        } else {
            named_exports(specifiers@)
        },
        RefreshItem::DefaultExpr => seq!["default"@],
        RefreshItem::DefaultDecl { .. } => seq!["default"@],
        _ => Seq::empty(),
    }
}

/// Whether an item's own statement or declaration stays in the body.
pub open spec fn keeps_statement(it: RefreshItem) -> bool {
    match it {
        RefreshItem::ExportDecl { .. } => true,
        RefreshItem::DefaultDecl { named } => named,
        RefreshItem::DefaultInterface => true,
        RefreshItem::Stmt => true,
        _ => false,
    }
}

/// The names exported by a list of items, in order.
pub open spec fn exports_s(items: Seq<RefreshItem>) -> Seq<Seq<char>>
    decreases items.len(),
{
    if items.len() == 0 {
        Seq::empty()
    } else {
        exports_s(items.drop_last()) + item_exports(items.last())
    }
}

/// The steps of item `i`, whose exports are held from variable `base` on.
pub open spec fn item_steps(i: int, it: RefreshItem, base: int) -> Seq<RefreshStep> {
    match it {
        RefreshItem::ExportNamed { type_only, from_source, specifiers } => if type_only || from_source {
            Seq::empty()
        } else {
            named_steps(i, specifiers@, base)
        },
        _ => (if keeps_statement(it) {
            seq![RefreshStep::Keep { item: i as usize }]
        } else {
            Seq::empty()
        }) + Seq::new(
            item_exports(it).len(),
            |k: int| RefreshStep::Assign { item: i as usize, part: k as usize, var: (base + k) as usize },
        ),
    }
}

/// The body steps of a list of items.
pub open spec fn steps_s(items: Seq<RefreshItem>) -> Seq<RefreshStep>
    decreases items.len(),
{
    if items.len() == 0 {
        Seq::empty()
    } else {
        steps_s(items.drop_last()) + item_steps(
            items.len() - 1,
            items.last(),
            exports_s(items.drop_last()).len() as int,
        )
    }
}

/// Whether an item stays at the module level: a hoisted item, or a
/// type-only or re-exporting `export { .. }`.
pub open spec fn is_hoisted(it: RefreshItem) -> bool {
    match it {
        RefreshItem::Hoisted => true,
        RefreshItem::ExportNamed { type_only, from_source, .. } => type_only || from_source,
        _ => false,
    }
}

/// The positions of the items that stay at the module level.
pub open spec fn hoisted_s(items: Seq<RefreshItem>) -> Seq<usize>
    decreases items.len(),
{
    if items.len() == 0 {
        Seq::empty()
    } else {
        hoisted_s(items.drop_last()) + if is_hoisted(items.last()) {
            seq![(items.len() - 1) as usize]
        } else {
            Seq::empty()
        }
    }
}

/// The name of the `i`-th export variable of a refresh registration.
pub open spec fn export_var_s(refresh_name: Seq<char>, i: nat) -> Seq<char> {
    refresh_name + "$Export"@ + decimal_s(i)
}

/// The name of the `i`-th export variable of a refresh registration.
pub fn export_var(refresh_name: &str, i: usize) -> (r: String)
    ensures
        r@ == export_var_s(refresh_name@, i as nat),
{
    let head = concat_str(refresh_name, "$Export");
    concat_str(head.as_str(), crate::storybook::decimal(i).as_str())
}

/// Law: the variables a refresh registration holds its exports in are all
/// different.
pub proof fn law_export_vars_distinct(refresh_name: Seq<char>, i: nat, j: nat)
    requires
        i != j,
    ensures
        export_var_s(refresh_name, i) != export_var_s(refresh_name, j),
{
    if export_var_s(refresh_name, i) == export_var_s(refresh_name, j) {
        reveal_strlit("$Export");
        let p = refresh_name + "$Export"@;
        let a = export_var_s(refresh_name, i);
        assert(decimal_s(i) =~= a.subrange(p.len() as int, a.len() as int));
        assert(decimal_s(j) =~= a.subrange(p.len() as int, a.len() as int));
        lemma_decimal_injective(i, j);
    }
}

/// Adds one export: a fresh variable, its pair in the export list, and the
/// step assigning it.
fn add_export(
    refresh_name: &str,
    item: usize,
    part: usize,
    exported: &String,
    plan: &mut RefreshPlan,
)
    requires
        old(plan).export_vars@.len() == old(plan).exports@.len(),
    ensures
        final(plan).hoisted == old(plan).hoisted,
        final(plan).export_vars@.len() == old(plan).export_vars@.len() + 1,
        final(plan).exports@.len() == old(plan).exports@.len() + 1,
        forall|i: int| 0 <= i < old(plan).export_vars@.len() ==> final(plan).export_vars@[i] == old(plan).export_vars@[i],
        forall|i: int| 0 <= i < old(plan).exports@.len() ==> final(plan).exports@[i] == old(plan).exports@[i],
        final(plan).export_vars@.last()@ == export_var_s(refresh_name@, old(plan).export_vars@.len() as nat),
        final(plan).exports@.last().0@ == export_var_s(refresh_name@, old(plan).export_vars@.len() as nat),
        final(plan).exports@.last().1@ == exported@,
        final(plan).steps@ == old(plan).steps@.push(
            RefreshStep::Assign { item, part, var: old(plan).export_vars.len() },
        ),
{
    let var = plan.export_vars.len();
    let name = export_var(refresh_name, var);
    plan.export_vars.push(name.clone());
    plan.exports.push((name, exported.clone()));
    plan.steps.push(RefreshStep::Assign { item, part, var });
}

/// How the React Refresh wrapper rearranges a module: imports and the other
/// hoisted items stay at the module level; every other statement runs inside
/// the wrapper, where each exported value is assigned to a variable
/// `<refresh_name>$Export<i>` that the export list exports under its name.
pub fn refresh_plan(items: &Vec<RefreshItem>, refresh_name: &str) -> (r: RefreshPlan)
    ensures
        r.hoisted@ == hoisted_s(items@),
        r.steps@ == steps_s(items@),
        r.export_vars@.len() == exports_s(items@).len(),
        r.exports@.len() == exports_s(items@).len(),
        forall|i: int|
            0 <= i < r.export_vars@.len() ==> (#[trigger] r.export_vars@[i])@ == export_var_s(refresh_name@, i as nat),
        forall|i: int|
            0 <= i < r.exports@.len() ==> (#[trigger] r.exports@[i]).0@ == export_var_s(refresh_name@, i as nat)
                && r.exports@[i].1@ == exports_s(items@)[i],
{
    let mut plan = RefreshPlan { hoisted: Vec::new(), steps: Vec::new(), export_vars: Vec::new(), exports: Vec::new() };
    let mut k: usize = 0;
    while k < items.len()
        invariant
            k <= items@.len(),
            plan.hoisted@ == hoisted_s(items@.take(k as int)),
            plan.steps@ == steps_s(items@.take(k as int)),
            plan.export_vars@.len() == exports_s(items@.take(k as int)).len(),
            plan.exports@.len() == exports_s(items@.take(k as int)).len(),
            forall|i: int|
                0 <= i < plan.export_vars@.len() ==> (#[trigger] plan.export_vars@[i])@ == export_var_s(
                    refresh_name@,
                    i as nat,
                ),
            forall|i: int|
                0 <= i < plan.exports@.len() ==> (#[trigger] plan.exports@[i]).0@ == export_var_s(
                    refresh_name@,
                    i as nat,
                ) && plan.exports@[i].1@ == exports_s(items@.take(k as int))[i],
        decreases items.len() - k,
    {
        proof {
            assert(items@.take(k + 1).drop_last() =~= items@.take(k as int));
        }
        let ghost prev = exports_s(items@.take(k as int));
        let ghost steps0 = plan.steps@;
        let ghost base = plan.export_vars@.len();
        let ghost it = items@[k as int];
        let ghost ex = item_exports(it);
        let mut part: usize = 0;
        match &items[k] {
            RefreshItem::Hoisted => {
                plan.hoisted.push(k);
            },
            RefreshItem::ExportDecl { names } => {
                plan.steps.push(RefreshStep::Keep { item: k });
                while part < names.len()
                    invariant
                        part <= names@.len(),
                        ex == names_view(*names),
                        plan.hoisted@ == hoisted_s(items@.take(k as int)),
                        plan.export_vars@.len() == base + part,
                        plan.exports@.len() == base + part,
                        base == prev.len(),
                        plan.steps@ == steps0 + seq![RefreshStep::Keep { item: k }] + Seq::new(
                            part as nat,
                            |j: int| RefreshStep::Assign { item: k, part: j as usize, var: (base + j) as usize },
                        ),
                        forall|i: int|
                            0 <= i < plan.export_vars@.len() ==> (#[trigger] plan.export_vars@[i])@ == export_var_s(
                                refresh_name@,
                                i as nat,
                            ),
                        forall|i: int|
                            0 <= i < plan.exports@.len() ==> (#[trigger] plan.exports@[i]).0@ == export_var_s(
                                refresh_name@,
                                i as nat,
                            ) && plan.exports@[i].1@ == (prev + ex)[i],
                    decreases names.len() - part,
                {
                    let ghost s1 = plan.steps@;
                    add_export(refresh_name, k, part, &names[part], &mut plan);
                    proof {
                        assert(plan.steps@ =~= steps0 + seq![RefreshStep::Keep { item: k }] + Seq::new(
                            (part + 1) as nat,
                            |j: int| RefreshStep::Assign { item: k, part: j as usize, var: (base + j) as usize },
                        ));
                    }
                    part = part + 1;
                }
            },
            RefreshItem::ExportNamed { type_only: true, .. } => {
                plan.hoisted.push(k);
            },
            RefreshItem::ExportNamed { from_source: true, .. } => {
                plan.hoisted.push(k);
            },
            RefreshItem::ExportNamed { specifiers, .. } => {
                while part < specifiers.len()
                    invariant
                        part <= specifiers@.len(),
                        ex == named_exports(specifiers@),
                        plan.hoisted@ == hoisted_s(items@.take(k as int)),
                        plan.export_vars@.len() == base + named_exports(specifiers@.take(part as int)).len(),
                        plan.exports@.len() == base + named_exports(specifiers@.take(part as int)).len(),
                        base == prev.len(),
                        plan.steps@ == steps0 + named_steps(k as int, specifiers@.take(part as int), base as int),
                        forall|i: int|
                            0 <= i < plan.export_vars@.len() ==> (#[trigger] plan.export_vars@[i])@ == export_var_s(
                                refresh_name@,
                                i as nat,
                            ),
                        forall|i: int|
                            0 <= i < plan.exports@.len() ==> (#[trigger] plan.exports@[i]).0@ == export_var_s(
                                refresh_name@,
                                i as nat,
                            ) && plan.exports@[i].1@ == (prev + named_exports(specifiers@.take(part as int)))[i],
                    decreases specifiers.len() - part,
                {
                    proof {
                        assert(specifiers@.take(part + 1).drop_last() =~= specifiers@.take(part as int));
                    }
                    let ghost done = named_exports(specifiers@.take(part as int));
                    match &specifiers[part] {
                        RefreshSpec::Named { local: Some(l), exported, type_only: false } => {
                            let name = match exported {
                                Some(e) => e,
                                None => l,
                            };
                            add_export(refresh_name, k, part, name, &mut plan);
                            proof {
                                assert(named_exports(specifiers@.take(part + 1)) =~= done.push(name@));
                                assert(prev + named_exports(specifiers@.take(part + 1)) =~= (prev + done).push(name@));
                            }
                        },
                        _ => {},
                    }
                    part = part + 1;
                }
                proof {
                    assert(specifiers@.take(specifiers@.len() as int) =~= specifiers@);
                }
            },
            RefreshItem::DefaultExpr => {
                let d = String::from_str("default");
                add_export(refresh_name, k, 0, &d, &mut plan);
            },
            RefreshItem::DefaultDecl { named } => {
                if *named {
                    plan.steps.push(RefreshStep::Keep { item: k });
                }
                let d = String::from_str("default");
                add_export(refresh_name, k, 0, &d, &mut plan);
            },
            RefreshItem::DefaultInterface => {
                plan.steps.push(RefreshStep::Keep { item: k });
            },
            RefreshItem::Stmt => {
                plan.steps.push(RefreshStep::Keep { item: k });
            },
        }
        proof {
            reveal_strlit("default");
            assert(exports_s(items@.take(k + 1)) =~= prev + ex);
            assert(plan.steps@ =~= steps_s(items@.take(k + 1)));
            assert(plan.hoisted@ =~= hoisted_s(items@.take(k + 1)));
        }
        k = k + 1;
    }
    proof {
        assert(items@.take(items@.len() as int) =~= items@);
    }
    plan
}

// ---------------------------------------------------------------------------
// Reading a CSF file.

/// Whether a story is documented under the include and exclude lists.
pub open spec fn keeps_view(incl: Option<Seq<Seq<char>>>, excl: Option<Seq<Seq<char>>>, s: StoryView) -> bool {
    &&& !(s.export_name.len() > 0 && s.export_name[0] == '_')
    &&& match incl {
        Some(names) => names.contains(s.export_name),
        None => true,
    }
    &&& match excl {
        Some(names) => !names.contains(s.export_name),
        None => true,
    }
}

/// The stories documented under the include and exclude lists, in order.
pub open spec fn kept_views(incl: Option<Seq<Seq<char>>>, excl: Option<Seq<Seq<char>>>, s: Seq<StoryView>) -> Seq<
    StoryView,
>
    decreases s.len(),
{
    if s.len() == 0 {
        s
    } else if keeps_view(incl, excl, s.last()) {
        kept_views(incl, excl, s.drop_last()).push(s.last())
    } else {
        kept_views(incl, excl, s.drop_last())
    }
}

/// The documented stories of a file whose meta is bound to `meta_name`:
/// its stories, filtered by the meta's `includeStories` and
/// `excludeStories`, with the annotations assigned after the fact.
pub open spec fn documented_stories(items: Seq<CsfItem>, meta_name: Seq<char>) -> Seq<StoryView> {
    let all = stories_s(items, items);
    let kept = match meta_object_s(items, meta_name) {
        Some(ps) => kept_views(string_array_s(ps, "includeStories"@), string_array_s(ps, "excludeStories"@), all),
        None => all,
    };
    assigned_s(kept, items)
}

/// Filtering stories and taking their views commute.
proof fn lemma_kept_views(f: StoryFilter, s: Seq<Story>)
    ensures
        story_views(kept_stories(f, s)) == kept_views(opt_names(f.includes), opt_names(f.excludes), story_views(s)),
    decreases s.len(),
{
    if s.len() > 0 {
        lemma_kept_views(f, s.drop_last());
        assert(story_views(s.drop_last()) =~= story_views(s).drop_last());
        assert(keeps_story(f, s.last()) == keeps_view(opt_names(f.includes), opt_names(f.excludes), s.last()@));
        if keeps_story(f, s.last()) {
            assert(story_views(kept_stories(f, s.drop_last()).push(s.last())) =~= story_views(
                kept_stories(f, s.drop_last()),
            ).push(s.last()@));
        }
    }
}

/// Reads a CSF file: normalizes its meta (see [`normalize_meta`]), then
/// collects its documented stories.
pub fn read_csf(items: &mut Vec<CsfItem>) -> (r: Result<(Meta, Vec<Story>), MetaError>)
    requires
        bound_names(old(items)@).len() < usize::MAX,
    ensures
        match r {
            Ok(p) => meta_outcome(old(items)@, final(items)@, Ok(p.0)) && story_views(p.1@) == documented_stories(
                final(items)@,
                p.0.name@,
            ),
            Err(e) => meta_outcome(old(items)@, final(items)@, Err(e)),
        },
{
    let meta = match normalize_meta(items) {
        Ok(m) => m,
        Err(e) => return Err(e),
    };
    let mut stories = collect_stories(items);
    let ghost all = stories@;
    let filter = meta_filter(items, meta.name.as_str());
    match &filter {
        Some(f) => {
            filter_stories(Some(f), &mut stories);
            proof {
                lemma_kept_views(*f, all);
            }
        },
        None => {
            filter_stories(None, &mut stories);
        },
    }
    collect_assigned_annotations(items, &mut stories);
    Ok((meta, stories))
}

// ---------------------------------------------------------------------------
// Components extracted for React Refresh.

/// Whether an expression (wrappers removed) is an arrow or function
/// expression, whose body can be moved into a component.
pub open spec fn extractable(e: CsfExpr) -> bool {
    unwrapped_s(e).kind is Arrow || unwrapped_s(e).kind is Function
}

/// Law: a function expression is moved into a component just as an arrow
/// is, wrappers or not, and nothing else is: a story template without a
/// function declaration whose initializer is a function expression always
/// has a body to extract (so [`story_target`] gives `Init` for it, and a
/// `render: function () {..}` is extracted by [`render_action`]).
pub proof fn law_function_expressions_extracted(items: Seq<CsfItem>, name: Seq<char>, e: CsfExpr)
    ensures
        unwrapped_s(e).kind is Function ==> extractable(e),
        unwrapped_s(e).kind is Arrow ==> extractable(e),
        extractable(e) ==> unwrapped_s(e).kind is Function || unwrapped_s(e).kind is Arrow,
        function_s(items, name) is None && var_init_s(items, name) == Some(e) && unwrapped_s(e).kind is Function ==> (
        var_init_s(items, name) matches Some(x) && extractable(x)),
{
}

/// Where the body of a story template is: a function declaration, or an
/// arrow or function expression initializing a declarator.
pub enum StoryTarget {
    Function { item: usize },
    Init { item: usize, decl: usize },
}

/// Where the body of the story template `name` is, if it has one to move
/// into a component: its function declaration, else its initializer when
/// that is an arrow or function expression.
pub fn story_target(items: &Vec<CsfItem>, name: &str) -> (r: Option<StoryTarget>)
    ensures
        match r {
            Some(StoryTarget::Function { item }) => item < items@.len() && function_s(items@, name@) is Some
                && function_s(items@, name@) == fn_of(items@[item as int], name@),
            Some(StoryTarget::Init { item, decl }) => function_s(items@, name@) is None && item < items@.len() && (
            decls_of(items@[item as int]) matches Some(ds) && decl < ds.len() && binds(ds[decl as int], name@)
                && var_init_s(items@, name@) == ds[decl as int].init) && (var_init_s(items@, name@) matches Some(
                e,
            ) && extractable(e)),
            None => function_s(items@, name@) is None && !(var_init_s(items@, name@) matches Some(e) && extractable(
                e,
            )),
        },
{
    if let Some(k) = find_function_at(items, name) {
        return Some(StoryTarget::Function { item: k });
    }
    let (i, j) = match find_var_init_at(items, name) {
        Some(p) => p,
        None => return None,
    };
    let decls = match &items[i] {
        CsfItem::ExportVar { decls, .. } => decls,
        CsfItem::Var { decls, .. } => decls,
        _ => return None,
    };
    let e = match &decls[j].init {
        Some(e) => e,
        None => return None,
    };
    match &unwrap_ts(e).kind {
        CsfKind::Arrow => Some(StoryTarget::Init { item: i, decl: j }),
        CsfKind::Function => Some(StoryTarget::Init { item: i, decl: j }),
        _ => None,
    }
}

/// The key of a `key: value` property or a method.
pub open spec fn prop_key_s(p: CsfProp) -> Option<Seq<char>> {
    match p {
        CsfProp::KeyValue { key: Some(k), .. } => Some(k@),
        CsfProp::Method { key: Some(k) } => Some(k@),
        _ => None,
    }
}

/// The position of the first property keyed `render` from `i` on, or -1.
pub open spec fn first_render_from(props: Seq<CsfProp>, i: int) -> int
    decreases props.len() - i,
{
    if i < 0 || i >= props.len() {
        -1
    } else if prop_key_s(props[i]) == Some("render"@) {
        i
    } else {
        first_render_from(props, i + 1)
    }
}

/// What becomes of a story's `render` property.
pub enum RenderAction {
    /// It names a component: it is wrapped into `(args) => <Name {...args} />`.
    Wrap(String),
    /// Its function body is moved into a component.
    Extract,
    /// It stays as it is.
    Keep,
}

/// What becomes of the `render` property of a story object: the position of
/// the first property keyed `render`, and whether it is wrapped (it names a
/// component), extracted (an arrow or function value, or a method) or kept.
pub fn render_action(props: &Vec<CsfProp>) -> (r: Option<(usize, RenderAction)>)
    ensures
        match r {
            Some(p) => p.0 == first_render_from(props@, 0) && p.0 < props@.len() && match props@[p.0 as int] {
                CsfProp::KeyValue { value, .. } => match unwrapped_s(value).kind {
                    CsfKind::Ident(n) => p.1 matches RenderAction::Wrap(m) && m@ == n@,
                    _ => (p.1 is Extract) == extractable(value) && (p.1 is Extract || p.1 is Keep),
                },
                CsfProp::Method { .. } => p.1 is Extract,
                _ => p.1 is Keep,
            },
            None => first_render_from(props@, 0) == -1,
        },
{
    let mut i: usize = 0;
    while i < props.len()
        invariant
            i <= props@.len(),
            first_render_from(props@, 0) == first_render_from(props@, i as int),
        decreases props.len() - i,
    {
        let hit = match &props[i] {
            CsfProp::KeyValue { key: Some(k), .. } => str_eq(k.as_str(), "render"),
            CsfProp::Method { key: Some(k) } => str_eq(k.as_str(), "render"),
            _ => false,
        };
        if hit {
            let action = match &props[i] {
                CsfProp::KeyValue { value, .. } => match &unwrap_ts(value).kind {
                    CsfKind::Ident(n) => RenderAction::Wrap(n.clone()),
                    CsfKind::Arrow => RenderAction::Extract,
                    CsfKind::Function => RenderAction::Extract,
                    _ => RenderAction::Keep,
                },
                CsfProp::Method { .. } => RenderAction::Extract,
                _ => RenderAction::Keep,
            };
            return Some((i, action));
        }
        i = i + 1;
    }
    None
}

// ---------------------------------------------------------------------------
// Components shared between stories.

/// The component recorded first for `target`.
pub open spec fn component_of(targets: Seq<(String, String)>, target: Seq<char>) -> Option<Seq<char>>
    decreases targets.len(),
{
    if targets.len() == 0 {
        None
    } else {
        match component_of(targets.drop_last(), target) {
            Some(c) => Some(c),
            None => if targets.last().0@ == target {
                Some(targets.last().1@)
            } else {
                None
            },
        }
    }
}

/// The components extracted so far for React Refresh: the component each
/// story template was moved into, and how many components there are (the
/// next one is `Story<count>`).
pub struct RefreshState {
    pub targets: Vec<(String, String)>,
    pub count: usize,
}

impl RefreshState {
    /// No component extracted yet.
    pub fn new() -> (r: RefreshState)
        ensures
            r.targets@.len() == 0,
            r.count == 0,
    {
        RefreshState { targets: Vec::new(), count: 0 }
    }

    /// The component the template `target` was moved into, if it was.
    pub fn component_for(&self, target: &str) -> (r: Option<String>)
        ensures
            opt_text(r) == component_of(self.targets@, target@),
    {
        let mut i: usize = 0;
        while i < self.targets.len()
            invariant
                i <= self.targets@.len(),
                component_of(self.targets@.take(i as int), target@) is None,
            decreases self.targets.len() - i,
        {
            proof {
                assert(self.targets@.take(i + 1).drop_last() =~= self.targets@.take(i as int));
            }
            if str_eq(self.targets[i].0.as_str(), target) {
                proof {
                    lemma_component_prefix(self.targets@, i + 1, target@);
                }
                return Some(self.targets[i].1.clone());
            }
            i = i + 1;
        }
        proof {
            assert(self.targets@.take(self.targets@.len() as int) =~= self.targets@);
        }
        None
    }

    /// The name of the next component: `Story<count>`.
    pub fn next_component(&self) -> (r: String)
        ensures
            r@ == "Story"@ + decimal_s(self.count as nat),
    {
        crate::storybook::story_component_name(self.count)
    }

    /// Records that the template `target` was moved into `component`.
    pub fn record(&mut self, target: String, component: String)
        requires
            old(self).count < usize::MAX,
        ensures
            final(self).targets@ == old(self).targets@.push((target, component)),
            final(self).count == old(self).count + 1,
    {
        self.targets.push((target, component));
        self.count = self.count + 1;
    }

    /// Counts a component extracted from a `render` property.
    pub fn count_component(&mut self)
        requires
            old(self).count < usize::MAX,
        ensures
            final(self).targets@ == old(self).targets@,
            final(self).count == old(self).count + 1,
    {
        self.count = self.count + 1;
    }
}

/// A component recorded among the first `k` is the first one overall.
proof fn lemma_component_prefix(targets: Seq<(String, String)>, k: int, target: Seq<char>)
    requires
        0 <= k <= targets.len(),
        component_of(targets.take(k), target) is Some,
    ensures
        component_of(targets, target) == component_of(targets.take(k), target),
    decreases targets.len() - k,
{
    if k < targets.len() {
        assert(targets.take(k + 1).drop_last() =~= targets.take(k));
        lemma_component_prefix(targets, k + 1, target);
    } else {
        assert(targets.take(k) =~= targets);
    }
}

/// A template is moved into a component once: after recording the
/// component of a template that had none, every later story of that
/// template gets that component, and the other templates keep theirs.
pub proof fn law_template_extracted_once(targets: Seq<(String, String)>, target: String, component: String, other: Seq<char>)
    requires
        component_of(targets, target@) is None,
    ensures
        component_of(targets.push((target, component)), target@) == Some(component@),
        other != target@ ==> component_of(targets.push((target, component)), other) == component_of(
            targets,
            other,
        ),
{
    assert(targets.push((target, component)).drop_last() =~= targets);
}

} // verus!
