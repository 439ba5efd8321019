use ts_doc::ast::{
    ArrowExpr, BindPat, CallExpr, Decl, EntityName, Expr, ExprWithTypeArgs, FnDecl, Function, ImportSpecifier,
    InterfaceDecl, Lit, LocalExportSpecifier, ModuleItem, Pat, PropKey, TplPart, TsKeywordKind, TsType, TsTypeElement,
    TypeAliasDecl, TypeParam, VarDecl, VarDeclarator,
};
use ts_doc::jsdoc::{parse_jsdoc, Comment, JsDocs};
use ts_doc::mock::MockBundleGraph;
use ts_doc::parse::{BindingId, CalleeRef, ReturnShape};
use ts_doc::{package, NodeKind, NodeRef, PackageOutput};

const INDEX: &str = "/test/src/index.tsx";

fn b(sym: &str) -> BindingId {
    BindingId { sym: sym.to_string(), ctxt: 1 }
}

fn docs(text: &str) -> JsDocs {
    parse_jsdoc(&vec![Comment { is_block: true, text: text.to_string() }])
}

fn number() -> TsType {
    TsType::Keyword(TsKeywordKind::Number)
}

fn string() -> TsType {
    TsType::Keyword(TsKeywordKind::String)
}

fn boolean() -> TsType {
    TsType::Keyword(TsKeywordKind::Boolean)
}

fn type_ref(name: &str, args: Option<Vec<TsType>>) -> TsType {
    TsType::TypeRef { name: EntityName::Ident(b(name)), type_args: args }
}

fn declarator(name: &str, type_ann: Option<TsType>, init: Option<Expr>) -> VarDecl {
    VarDecl {
        docs: JsDocs::new(),
        decls: vec![VarDeclarator {
            docs: JsDocs::new(),
            name: BindPat::Ident { id: b(name), type_ann },
            init: init.map(Box::new),
        }],
    }
}

fn export_var(name: &str, type_ann: Option<TsType>, init: Option<Expr>) -> ModuleItem {
    ModuleItem::ExportDecl { docs: JsDocs::new(), decl: Decl::Var(declarator(name, type_ann, init)) }
}

fn local_var(name: &str, type_ann: Option<TsType>, init: Option<Expr>) -> ModuleItem {
    ModuleItem::Decl(Decl::Var(declarator(name, type_ann, init)))
}

fn alias(name: &str, ty: TsType) -> TypeAliasDecl {
    TypeAliasDecl { docs: JsDocs::new(), id: b(name), type_params: vec![], type_ann: ty }
}

fn export_alias(name: &str, ty: TsType) -> ModuleItem {
    ModuleItem::ExportDecl { docs: JsDocs::new(), decl: Decl::TypeAlias(alias(name, ty)) }
}

fn prop_sig(name: &str, ty: TsType) -> TsTypeElement {
    TsTypeElement::Property { docs: JsDocs::new(), key: PropKey::Name(name.to_string()), type_ann: Some(ty), optional: false }
}

fn interface(name: &str, type_params: Vec<TypeParam>, extends: Vec<ExprWithTypeArgs>, body: Vec<TsTypeElement>) -> InterfaceDecl {
    InterfaceDecl { docs: JsDocs::new(), id: b(name), type_params, extends, body }
}

fn export_interface(i: InterfaceDecl) -> ModuleItem {
    ModuleItem::ExportDecl { docs: JsDocs::new(), decl: Decl::Interface(i) }
}

fn type_param(name: &str) -> TypeParam {
    TypeParam { name: b(name), constraint: None, default: None }
}

fn param(name: &str, ty: Option<TsType>) -> Pat {
    Pat::Ident { name: name.to_string(), type_ann: ty, optional: false }
}

fn function(params: Vec<Pat>, return_type: Option<TsType>, returned: Vec<ReturnShape>) -> Function {
    Function { docs: JsDocs::new(), params, type_params: vec![], return_type: return_type.map(Box::new), returned }
}

fn fn_decl(name: &str, f: Function) -> Decl {
    Decl::Fn(FnDecl { docs: JsDocs::new(), ident: b(name), function: f })
}

fn package_one(items: Vec<ModuleItem>) -> PackageOutput {
    package(&MockBundleGraph::from_sources(vec![(INDEX.to_string(), items)], INDEX))
}

fn package_many(sources: Vec<(&str, Vec<ModuleItem>)>) -> PackageOutput {
    let entry = sources[0].0.to_string();
    let sources: Vec<(String, Vec<ModuleItem>)> = sources.into_iter().map(|(p, items)| (p.to_string(), items)).collect();
    package(&MockBundleGraph::from_sources(sources, &entry))
}

/// A compact text of the node at `r` and what it holds.
fn render(out: &PackageOutput, r: NodeRef) -> String {
    render_at(out, r, 0)
}

fn render_all(out: &PackageOutput, refs: &[NodeRef], depth: usize) -> String {
    refs.iter().map(|r| render_at(out, *r, depth)).collect::<Vec<_>>().join(", ")
}

fn render_at(out: &PackageOutput, r: NodeRef, depth: usize) -> String {
    if depth > 12 {
        return "...".to_string();
    }
    let d = depth + 1;
    let node = &out.arena.nodes[r.0];
    let text = match &node.kind {
        NodeKind::Any => "any".to_string(),
        NodeKind::Null => "null".to_string(),
        NodeKind::Undefined => "undefined".to_string(),
        NodeKind::Void => "void".to_string(),
        NodeKind::Unknown => "unknown".to_string(),
        NodeKind::Never => "never".to_string(),
        NodeKind::This => "this".to_string(),
        NodeKind::Symbol => "symbol".to_string(),
        NodeKind::Identifier { name } => format!("ident {name}"),
        NodeKind::String { value } => match value {
            Some(v) => format!("'{v}'"),
            None => "string".to_string(),
        },
        NodeKind::Number { value } => match value {
            Some(bits) => format!("{}", f64::from_bits(*bits)),
            None => "number".to_string(),
        },
        NodeKind::Boolean { value } => match value {
            Some(v) => format!("{v}"),
            None => "boolean".to_string(),
        },
        NodeKind::Union { elements } => format!("union({})", render_all(out, elements, d)),
        NodeKind::Intersection { types } => format!("intersection({})", render_all(out, types, d)),
        NodeKind::Application { base, type_parameters } => {
            format!("app({}; {})", render_at(out, *base, d), render_all(out, type_parameters, d))
        },
        NodeKind::TypeOperator { operator, value } => format!("{operator} {}", render_at(out, *value, d)),
        NodeKind::Function { name, parameters, return_type, .. } => format!(
            "fn {}({}) -> {}",
            name.clone().unwrap_or_default(),
            render_all(out, parameters, d),
            render_at(out, *return_type, d)
        ),
        NodeKind::Parameter { name, value, optional, .. } => {
            format!("{name}{}: {}", if *optional { "?" } else { "" }, render_at(out, *value, d))
        },
        NodeKind::Property { name, value, optional, .. } => {
            format!("{name}{}: {}", if *optional { "?" } else { "" }, render_at(out, *value, d))
        },
        NodeKind::Method { name, value, .. } => format!("method {name}: {}", render_at(out, *value, d)),
        NodeKind::Alias { name, value, .. } => format!("alias {name} = {}", render_at(out, *value, d)),
        NodeKind::Interface { name, properties, extends, .. } => format!(
            "interface {name}{} {{{}}}",
            if extends.is_empty() { String::new() } else { format!(" extends {}", render_all(out, extends, d)) },
            render_all(out, &properties.values().cloned().collect::<Vec<_>>(), d)
        ),
        NodeKind::Object { properties, .. } => match properties {
            Some(p) => format!("{{{}}}", render_all(out, &p.values().cloned().collect::<Vec<_>>(), d)),
            None => "object".to_string(),
        },
        NodeKind::Array { element_type } => format!("{}[]", render_at(out, *element_type, d)),
        NodeKind::Tuple { elements } => format!("[{}]", render_all(out, elements, d)),
        NodeKind::Template { elements } => format!("`{}`", render_all(out, elements, d)),
        NodeKind::TypeParameter { name, .. } => format!("typeparam {name}"),
        NodeKind::Component { name, props, .. } => format!(
            "component {}({})",
            name.clone().unwrap_or_default(),
            props.map(|p| render_at(out, p, d)).unwrap_or_default()
        ),
        NodeKind::Conditional { .. } => "conditional".to_string(),
        NodeKind::IndexedAccess { .. } => "indexed".to_string(),
        NodeKind::Mapped { .. } => "mapped".to_string(),
        NodeKind::Link { id } => format!("link {id}"),
        NodeKind::Reference { specifier, .. } => format!("ref {specifier}"),
    };
    match &node.description {
        Some(desc) => format!("{text} /* {desc} */"),
        None => text,
    }
}

fn export(out: &PackageOutput, name: &str) -> String {
    render(out, *out.exports.get(name).expect("export"))
}

fn links(out: &PackageOutput) -> Vec<(String, String)> {
    out.links.iter().map(|(k, v)| (k.clone(), render(out, *v))).collect()
}

fn export_names(out: &PackageOutput) -> Vec<String> {
    out.exports.keys().cloned().collect()
}

fn static_number_out() -> PackageOutput {
    package_one(vec![export_var("a", Some(number()), Some(Expr::Lit(Lit::Num(4.0f64.to_bits()))))])
}

fn static_string_out() -> PackageOutput {
    package_one(vec![export_var("b", Some(string()), Some(Expr::Lit(Lit::Str("foo".to_string()))))])
}

fn referenced_string_out() -> PackageOutput {
    package_one(vec![
        local_var("name", None, Some(Expr::Lit(Lit::Str("foo".to_string())))),
        export_var("c", None, Some(Expr::Ident(b("name")))),
    ])
}

fn referenced_function_out() -> PackageOutput {
    package_one(vec![
        ModuleItem::Decl(fn_decl("foo", function(vec![], None, vec![ReturnShape::Other]))),
        export_var("d", None, Some(Expr::Call(CallExpr { callee: Some(CalleeRef::Ident(b("foo"))), args: vec![] }))),
    ])
}

fn react_import() -> ModuleItem {
    ModuleItem::Import { src: "react".to_string(), specifiers: vec![ImportSpecifier::Default { local: b("React") }] }
}

fn react_component_out() -> PackageOutput {
    package_one(vec![
        react_import(),
        ModuleItem::ExportDecl {
            docs: JsDocs::new(),
            decl: fn_decl("App1", function(vec![param("props", None)], None, vec![ReturnShape::Jsx])),
        },
    ])
}

fn local_name_react_component_out() -> PackageOutput {
    package_one(vec![
        react_import(),
        ModuleItem::Decl(fn_decl("App2", function(vec![param("props", None)], None, vec![ReturnShape::Jsx]))),
        ModuleItem::LocalExport(vec![LocalExportSpecifier::Named { orig: b("App2"), exported: Some("AppReal".to_string()) }]),
    ])
}

fn template(parts: Vec<(&str, Option<TsType>)>) -> TsType {
    TsType::Template(parts.into_iter().map(|(raw, next)| TplPart { raw: raw.to_string(), next }).collect())
}

fn full_interface() -> ModuleItem {
    ModuleItem::Decl(Decl::Interface(interface(
        "Full",
        vec![],
        vec![],
        vec![prop_sig("a", number()), prop_sig("b", string()), prop_sig("c", boolean())],
    )))
}

fn omit_out() -> PackageOutput {
    let keys = TsType::Union(vec![TsType::StringLit("a".to_string()), TsType::StringLit("b".to_string())]);
    package_one(vec![full_interface(), export_alias("Sub", type_ref("Omit", Some(vec![type_ref("Full", None), keys])))])
}

fn pick_out() -> PackageOutput {
    package_one(vec![
        full_interface(),
        export_alias("Sub", type_ref("Pick", Some(vec![type_ref("Full", None), TsType::StringLit("a".to_string())]))),
    ])
}

fn identifiers_out() -> PackageOutput {
    let cast = TsType::Fn {
        type_params: vec![type_param("T")],
        params: vec![param("props", Some(type_ref("SpectrumColumnProps", Some(vec![type_ref("T", None)]))))],
        return_type: Box::new(TsType::TypeRef {
            name: EntityName::Qualified(
                Box::new(EntityName::Qualified(Box::new(EntityName::Ident(b("React"))), "JSX".to_string())),
                "Element".to_string(),
            ),
            type_args: None,
        }),
    };
    let index = vec![
        ModuleItem::Import {
            src: "./column".to_string(),
            specifiers: vec![
                ImportSpecifier::Named { local: b("Column"), imported: None },
                ImportSpecifier::Named { local: b("SpectrumColumnProps"), imported: None },
            ],
        },
        local_var("SpectrumColumn", None, Some(Expr::TypeCast(cast))),
        ModuleItem::LocalExport(vec![LocalExportSpecifier::Named {
            orig: b("SpectrumColumn"),
            exported: Some("Column".to_string()),
        }]),
    ];
    let column = vec![
        export_interface(interface("SpectrumColumnProps", vec![type_param("T")], vec![], vec![prop_sig("id", string())])),
        export_var(
            "Column",
            None,
            Some(Expr::Arrow(ArrowExpr {
                params: vec![param("props", Some(TsType::TypeLit(vec![prop_sig("id", string())])))],
                type_params: vec![],
                return_type: None,
                returned: vec![ReturnShape::Other],
            })),
        ),
    ];
    package_many(vec![(INDEX, index), ("/test/src/column.tsx", column)])
}

#[test]
fn package_static_number() {
    let out = static_number_out();
    assert_eq!(export_names(&out), vec!["a"]);
    assert_eq!(export(&out, "a"), "number");
    assert!(links(&out).is_empty());
}

#[test]
fn package_static_string() {
    let out = static_string_out();
    assert_eq!(export(&out, "b"), "string");
    assert!(links(&out).is_empty());
}

#[test]
fn package_referenced_string() {
    let out = referenced_string_out();
    assert_eq!(export_names(&out), vec!["c"]);
    assert_eq!(export(&out, "c"), "'foo'");
}

#[test]
fn package_referenced_function() {
    let out = referenced_function_out();
    assert_eq!(export(&out, "d"), "any");
}

#[test]
fn package_react_component() {
    let out = react_component_out();
    assert_eq!(export(&out, "App1"), "component App1(any)");
    match &out.arena.nodes[out.exports.get("App1").unwrap().0].kind {
        NodeKind::Component { id, .. } => assert_eq!(id.as_deref(), Some("/test/src/index.tsx:App1")),
        _ => panic!("component expected"),
    }
    assert!(links(&out).is_empty());
}

#[test]
fn package_local_name_react_component() {
    let out = local_name_react_component_out();
    assert_eq!(export_names(&out), vec!["AppReal"]);
    assert_eq!(export(&out, "AppReal"), "component AppReal(any)");
}

#[test]
fn package_type_alias() {
    let out = package_one(vec![export_alias("Foo", number())]);
    assert_eq!(export(&out, "Foo"), "link /test/src/index.tsx:Foo");
    assert_eq!(links(&out), vec![("/test/src/index.tsx:Foo".to_string(), "alias Foo = number".to_string())]);
}

#[test]
fn package_type_union() {
    let out = package_one(vec![export_alias("Foo", TsType::Union(vec![number(), string()]))]);
    assert_eq!(export(&out, "Foo"), "link /test/src/index.tsx:Foo");
    assert_eq!(
        links(&out),
        vec![("/test/src/index.tsx:Foo".to_string(), "alias Foo = union(number, string)".to_string())]
    );
}

#[test]
fn package_type_template() {
    let out = package_one(vec![export_alias("Foo", template(vec![("", Some(number())), ("%", None)]))]);
    assert_eq!(links(&out), vec![("/test/src/index.tsx:Foo".to_string(), "alias Foo = `'', number, '%'`".to_string())]);
}

#[test]
fn package_complex_type_template() {
    let out = package_one(vec![export_alias(
        "Foo",
        template(vec![("", Some(number())), (".", Some(number())), (" ", Some(string())), ("", None)]),
    )]);
    assert_eq!(
        links(&out),
        vec![(
            "/test/src/index.tsx:Foo".to_string(),
            "alias Foo = `'', number, '.', number, ' ', string, ''`".to_string()
        )]
    );
}

#[test]
fn package_interface() {
    let out = package_one(vec![export_interface(interface("Foo", vec![], vec![], vec![prop_sig("a", number())]))]);
    assert_eq!(export(&out, "Foo"), "interface Foo {a: number}");
    assert!(links(&out).is_empty());
}

#[test]
fn package_follows_imported_interfaces() {
    let out = package_many(vec![
        (
            INDEX,
            vec![
                ModuleItem::Import {
                    src: "./component".to_string(),
                    specifiers: vec![ImportSpecifier::Named { local: b("Foo"), imported: None }],
                },
                ModuleItem::ExportDecl {
                    docs: JsDocs::new(),
                    decl: fn_decl(
                        "Bar",
                        function(vec![param("props", Some(type_ref("Foo", None)))], None, vec![ReturnShape::Other]),
                    ),
                },
            ],
        ),
        ("/test/src/component.tsx", vec![export_interface(interface("Foo", vec![], vec![], vec![prop_sig("a", number())]))]),
    ]);
    assert_eq!(export(&out, "Bar"), "fn Bar(props: link /test/src/component.tsx:Foo) -> any");
    assert_eq!(
        links(&out),
        vec![("/test/src/component.tsx:Foo".to_string(), "interface Foo {a: number}".to_string())]
    );
}

#[test]
fn interface_extends_merges_properties() {
    let out = package_one(vec![
        ModuleItem::Decl(Decl::Interface(interface("Base", vec![], vec![], vec![prop_sig("a", number())]))),
        export_interface(interface(
            "Foo",
            vec![],
            vec![ExprWithTypeArgs { expr: Box::new(Expr::Ident(b("Base"))), type_args: None }],
            vec![prop_sig("b", string())],
        )),
    ]);
    assert_eq!(export(&out, "Foo"), "interface Foo {b: string, a: number}");
    assert!(links(&out).is_empty());
}

#[test]
fn generic_interface_application() {
    let out = package_one(vec![
        ModuleItem::Decl(Decl::Interface(interface(
            "Base",
            vec![type_param("T")],
            vec![],
            vec![prop_sig("value", type_ref("T", None))],
        ))),
        export_interface(interface(
            "Foo",
            vec![],
            vec![ExprWithTypeArgs { expr: Box::new(Expr::Ident(b("Base"))), type_args: Some(vec![string()]) }],
            vec![prop_sig("b", number())],
        )),
    ]);
    assert_eq!(export(&out, "Foo"), "interface Foo {b: number, value: string}");
}

#[test]
fn omit() {
    let out = omit_out();
    assert_eq!(export(&out, "Sub"), "link /test/src/index.tsx:Sub");
    assert_eq!(
        links(&out),
        vec![
            (
                "/test/src/index.tsx:Sub".to_string(),
                "alias Sub = app(interface Full {c: boolean}; link /test/src/index.tsx:Full, union('a', 'b'))".to_string()
            ),
            ("/test/src/index.tsx:Full".to_string(), "interface Full {a: number, b: string, c: boolean}".to_string()),
        ]
    );
}

#[test]
fn pick() {
    let out = pick_out();
    assert_eq!(export(&out, "Sub"), "link /test/src/index.tsx:Sub");
    assert_eq!(
        links(&out),
        vec![
            (
                "/test/src/index.tsx:Sub".to_string(),
                "alias Sub = app(interface Full {a: number}; link /test/src/index.tsx:Full, 'a')".to_string()
            ),
            ("/test/src/index.tsx:Full".to_string(), "interface Full {a: number, b: string, c: boolean}".to_string()),
        ]
    );
}

#[test]
fn return_description_on_primitive() {
    let out = package_one(vec![ModuleItem::ExportDecl {
        docs: docs("*\n * Does a thing.\n * @returns whether it worked\n "),
        decl: fn_decl("f", function(vec![], Some(boolean()), vec![ReturnShape::Other])),
    }]);
    assert_eq!(export(&out, "f"), "fn f() -> boolean /* whether it worked */ /* Does a thing. */");
}

#[test]
fn typed_component_props() {
    let out = package_one(vec![ModuleItem::ExportDecl {
        docs: JsDocs::new(),
        decl: fn_decl(
            "C",
            function(
                vec![param("props", Some(TsType::TypeLit(vec![prop_sig("x", number())])))],
                Some(TsType::TypeRef {
                    name: EntityName::Qualified(Box::new(EntityName::Ident(b("JSX"))), "Element".to_string()),
                    type_args: None,
                }),
                vec![ReturnShape::Other],
            ),
        ),
    }]);
    assert_eq!(export(&out, "C"), "component C({x: number})");
}

#[test]
fn circular_interface() {
    let out = package_one(vec![export_interface(interface(
        "Tree",
        vec![],
        vec![],
        vec![prop_sig("value", number()), prop_sig("child", type_ref("Tree", None))],
    ))]);
    assert_eq!(export(&out, "Tree"), "interface Tree {value: number, child: link /test/src/index.tsx:Tree}");
    assert_eq!(
        links(&out),
        vec![(
            "/test/src/index.tsx:Tree".to_string(),
            "interface Tree {value: number, child: link /test/src/index.tsx:Tree}".to_string()
        )]
    );
}

#[test]
fn package_identifiers() {
    let out = identifiers_out();
    assert_eq!(export_names(&out), vec!["Column"]);
    assert_eq!(export(&out, "Column"), "component Column(interface SpectrumColumnProps {id: string})");
    assert!(links(&out).is_empty());
}

#[test]
fn export_all_adds_the_names_the_module_lacks() {
    let out = package_many(vec![
        (
            INDEX,
            vec![
                export_alias("A", number()),
                ModuleItem::ExportAll { src: "./more".to_string() },
                ModuleItem::ExportAll { src: "./index".to_string() },
            ],
        ),
        (
            "/test/src/more.tsx",
            vec![
                export_alias("B", string()),
                export_alias("A", boolean()),
                ModuleItem::ExportAll { src: "./index".to_string() },
            ],
        ),
    ]);
    assert_eq!(export_names(&out), vec!["A", "B"]);
    assert_eq!(export(&out, "A"), "link /test/src/index.tsx:A");
    assert_eq!(export(&out, "B"), "link /test/src/more.tsx:B");
    assert_eq!(
        links(&out),
        vec![
            ("/test/src/index.tsx:A".to_string(), "alias A = number".to_string()),
            ("/test/src/more.tsx:B".to_string(), "alias B = string".to_string()),
        ]
    );
}
