use ts_doc::ast::{
    ArrowExpr, BindPat, CallExpr, Class, ClassDecl, ClassMember, Decl, EntityName, Expr, ExprWithTypeArgs, FnDecl,
    Function, ImportSpecifier, InterfaceDecl, Lit, LocalExportSpecifier, MethodKind, ModuleItem, ObjectPatProp, Pat,
    Prop, PropKey, PropOrSpread, ReexportSpecifier, TplPart, TsKeywordKind, TsType, TsTypeElement, TypeAliasDecl,
    TypeParam, VarDecl, VarDeclarator,
};
use ts_doc::decls::parse_module;
use ts_doc::jsdoc::{parse_jsdoc, Comment, JsDocs};
use ts_doc::mock::MockBundleGraph;
use ts_doc::ast::TruePlusMinus;
use ts_doc::parse::{BindingId, CalleeRef, Context, ReturnShape};
use ts_doc::reader::ToType;
use ts_doc::{package, NodeKind, Type, TypeId, API};

const INDEX: &str = "/test/src/index.tsx";

fn b(sym: &str) -> BindingId {
    BindingId { sym: sym.to_string(), ctxt: 1 }
}

fn docs(text: &str) -> JsDocs {
    parse_jsdoc(&vec![Comment { is_block: true, text: text.to_string() }])
}

fn kw(k: TsKeywordKind) -> TsType {
    TsType::Keyword(k)
}

fn number() -> TsType {
    kw(TsKeywordKind::Number)
}

fn string() -> TsType {
    kw(TsKeywordKind::String)
}

fn export_var(name: &str, type_ann: Option<TsType>, init: Option<Expr>) -> ModuleItem {
    ModuleItem::ExportDecl {
        docs: JsDocs::new(),
        decl: Decl::Var(VarDecl {
            docs: JsDocs::new(),
            decls: vec![VarDeclarator {
                docs: JsDocs::new(),
                name: BindPat::Ident { id: b(name), type_ann },
                init: init.map(Box::new),
            }],
        }),
    }
}

fn export_alias(name: &str, ty: TsType) -> ModuleItem {
    ModuleItem::ExportDecl {
        docs: JsDocs::new(),
        decl: Decl::TypeAlias(TypeAliasDecl { docs: JsDocs::new(), id: b(name), type_params: vec![], type_ann: ty }),
    }
}

fn prop_sig(name: &str, ty: TsType) -> TsTypeElement {
    TsTypeElement::Property {
        docs: JsDocs::new(),
        key: PropKey::Name(name.to_string()),
        type_ann: Some(ty),
        optional: false,
    }
}

fn param(name: &str, ty: Option<TsType>) -> Pat {
    Pat::Ident { name: name.to_string(), type_ann: ty, optional: false }
}

fn function(params: Vec<Pat>, return_type: Option<TsType>, returned: Vec<ReturnShape>) -> Function {
    Function { docs: JsDocs::new(), params, type_params: vec![], return_type: return_type.map(Box::new), returned }
}

fn export_fn(docs: JsDocs, name: &str, f: Function) -> ModuleItem {
    ModuleItem::ExportDecl {
        docs,
        decl: Decl::Fn(FnDecl { docs: JsDocs::new(), ident: b(name), function: f }),
    }
}

fn import_named(src: &str, name: &str) -> ModuleItem {
    ModuleItem::Import {
        src: src.to_string(),
        specifiers: vec![ImportSpecifier::Named { local: b(name), imported: None }],
    }
}

fn read(items: Vec<ModuleItem>) -> API {
    parse_module(INDEX.to_string(), &items)
}

fn exported(api: &API, name: &str) -> TypeId {
    *api.exports.get(name).expect("export")
}

fn ty(api: &API, id: TypeId) -> &Type {
    &api.types[id.0 as usize]
}

fn export_keys(api: &API) -> Vec<String> {
    api.exports.keys().cloned().collect()
}

#[test]
fn transform_static_number() {
    let api = read(vec![export_var("a", Some(number()), Some(Expr::Lit(Lit::Num(4.0f64.to_bits()))))]);
    assert_eq!(export_keys(&api), vec!["a"]);
    assert!(matches!(ty(&api, exported(&api, "a")), Type::Number { value: None }));
}

#[test]
fn transform_static_string() {
    let api = read(vec![export_var("b", Some(string()), Some(Expr::Lit(Lit::Str("foo".to_string()))))]);
    assert!(matches!(ty(&api, exported(&api, "b")), Type::String { value: None }));
}

#[test]
fn transform_referenced_string() {
    let local = ModuleItem::Decl(Decl::Var(VarDecl {
        docs: JsDocs::new(),
        decls: vec![VarDeclarator {
            docs: JsDocs::new(),
            name: BindPat::Ident { id: b("name"), type_ann: None },
            init: Some(Box::new(Expr::Lit(Lit::Str("foo".to_string())))),
        }],
    }));
    let api = read(vec![local, export_var("c", None, Some(Expr::Ident(b("name"))))]);
    // `c` stands for the same arena entry as `name`.
    assert_eq!(exported(&api, "c"), TypeId(0));
    match ty(&api, TypeId(0)) {
        Type::String { value: Some(v) } => assert_eq!(v, "foo"),
        other => panic!("unexpected {:?}", other),
    }
}

#[test]
fn transform_referenced_function() {
    let foo = ModuleItem::Decl(Decl::Fn(FnDecl {
        docs: JsDocs::new(),
        ident: b("foo"),
        function: function(vec![], None, vec![ReturnShape::Other]),
    }));
    let call = Expr::Call(CallExpr { callee: Some(CalleeRef::Ident(b("foo"))), args: vec![] });
    let api = read(vec![foo, export_var("d", None, Some(call))]);
    // A call of an ordinary function reads as `any`.
    assert!(matches!(ty(&api, exported(&api, "d")), Type::Any));
}

#[test]
fn transform_react_component() {
    let react = ModuleItem::Import {
        src: "react".to_string(),
        specifiers: vec![ImportSpecifier::Default { local: b("React") }],
    };
    let app = export_fn(JsDocs::new(), "App1", function(vec![param("props", None)], None, vec![ReturnShape::Jsx]));
    let api = read(vec![react, app]);
    match ty(&api, exported(&api, "App1")) {
        Type::Component { id, name, props, ref_type, .. } => {
            assert_eq!(id.as_deref(), Some("/test/src/index.tsx:App1"));
            assert_eq!(name.as_deref(), Some("App1"));
            assert!(props.is_some());
            assert!(ref_type.is_none());
        },
        other => panic!("unexpected {:?}", other),
    }
    assert!(api.dependencies.is_empty());
}

#[test]
fn transform_local_name_react_component() {
    let app2 = ModuleItem::Decl(Decl::Fn(FnDecl {
        docs: JsDocs::new(),
        ident: b("App2"),
        function: function(vec![param("props", None)], None, vec![ReturnShape::Jsx]),
    }));
    let export = ModuleItem::LocalExport(vec![LocalExportSpecifier::Named {
        orig: b("App2"),
        exported: Some("AppReal".to_string()),
    }]);
    let api = read(vec![app2, export]);
    assert_eq!(export_keys(&api), vec!["AppReal"]);
    match ty(&api, exported(&api, "AppReal")) {
        Type::Component { id, name, .. } => {
            assert_eq!(id.as_deref(), Some("/test/src/index.tsx:App2"));
            assert_eq!(name.as_deref(), Some("AppReal"));
        },
        other => panic!("unexpected {:?}", other),
    }
}

#[test]
fn transform_type_alias() {
    let api = read(vec![export_alias("Foo", number())]);
    match ty(&api, exported(&api, "Foo")) {
        Type::Alias { id, name, value, type_parameters, .. } => {
            assert_eq!(id, "/test/src/index.tsx:Foo");
            assert_eq!(name, "Foo");
            assert!(type_parameters.is_empty());
            assert!(matches!(ty(&api, *value), Type::Number { value: None }));
        },
        other => panic!("unexpected {:?}", other),
    }
}

#[test]
fn transform_type_union() {
    let api = read(vec![export_alias("Foo", TsType::Union(vec![number(), string()]))]);
    let Type::Alias { value, .. } = ty(&api, exported(&api, "Foo")) else { panic!("alias") };
    match ty(&api, *value) {
        Type::Union { elements } => {
            assert_eq!(elements.len(), 2);
            assert!(matches!(ty(&api, elements[0]), Type::Number { value: None }));
            assert!(matches!(ty(&api, elements[1]), Type::String { value: None }));
        },
        other => panic!("unexpected {:?}", other),
    }
}

fn template_texts(api: &API, elements: &[TypeId]) -> Vec<String> {
    elements
        .iter()
        .map(|e| match ty(api, *e) {
            Type::String { value: Some(s) } => format!("'{}'", s),
            Type::String { value: None } => "string".to_string(),
            Type::Number { value: None } => "number".to_string(),
            other => format!("{:?}", other),
        })
        .collect()
}

#[test]
fn transform_type_template() {
    let tpl = TsType::Template(vec![
        TplPart { raw: String::new(), next: Some(number()) },
        TplPart { raw: "%".to_string(), next: None },
    ]);
    let api = read(vec![export_alias("Foo", tpl)]);
    let Type::Alias { value, .. } = ty(&api, exported(&api, "Foo")) else { panic!("alias") };
    let Type::Template { elements } = ty(&api, *value) else { panic!("template") };
    assert_eq!(template_texts(&api, elements), vec!["''", "number", "'%'"]);
}

#[test]
fn transform_complex_type_template() {
    let tpl = TsType::Template(vec![
        TplPart { raw: String::new(), next: Some(number()) },
        TplPart { raw: ".".to_string(), next: Some(number()) },
        TplPart { raw: " ".to_string(), next: Some(string()) },
        TplPart { raw: String::new(), next: None },
    ]);
    let api = read(vec![export_alias("Foo", tpl)]);
    let Type::Alias { value, .. } = ty(&api, exported(&api, "Foo")) else { panic!("alias") };
    let Type::Template { elements } = ty(&api, *value) else { panic!("template") };
    assert_eq!(template_texts(&api, elements), vec!["''", "number", "'.'", "number", "' '", "string", "''"]);
}

fn interface_item(name: &str, body: Vec<TsTypeElement>) -> ModuleItem {
    ModuleItem::ExportDecl {
        docs: JsDocs::new(),
        decl: Decl::Interface(InterfaceDecl { docs: JsDocs::new(), id: b(name), type_params: vec![], extends: vec![], body }),
    }
}

#[test]
fn transform_interface() {
    let api = read(vec![interface_item("Foo", vec![prop_sig("a", number())])]);
    match ty(&api, exported(&api, "Foo")) {
        Type::Interface { id, name, properties, extends, .. } => {
            assert_eq!(id, "/test/src/index.tsx:Foo");
            assert_eq!(name, "Foo");
            assert!(extends.is_empty());
            let a = properties.get("a").expect("a");
            assert!(matches!(ty(&api, a.value), Type::Number { value: None }));
            assert!(!a.optional && !a.is_method);
        },
        other => panic!("unexpected {:?}", other),
    }
}

#[test]
fn transform_follows_imported_interfaces() {
    let index = read(vec![
        import_named("./component", "Foo"),
        export_fn(
            JsDocs::new(),
            "Bar",
            function(
                vec![param("props", Some(TsType::TypeRef { name: EntityName::Ident(b("Foo")), type_args: None }))],
                None,
                vec![ReturnShape::Other],
            ),
        ),
    ]);
    // Reading the imported name records the module it comes from.
    assert_eq!(index.dependencies.iter().cloned().collect::<Vec<_>>(), vec!["./component"]);
    let Type::Function { parameters, .. } = ty(&index, exported(&index, "Bar")) else { panic!("function") };
    match ty(&index, parameters[0].value) {
        Type::Reference { specifier, imported, local } => {
            assert_eq!(specifier, "./component");
            assert_eq!(imported.as_deref(), Some("Foo"));
            assert_eq!(local.as_deref(), Some("Foo"));
        },
        other => panic!("unexpected {:?}", other),
    }
}

#[test]
fn class_id_name_extends_and_members() {
    let class = Class {
        docs: JsDocs::new(),
        super_class: Some(Box::new(Expr::Ident(b("Bar")))),
        super_type_params: Some(vec![TsType::TypeRef { name: EntityName::Ident(b("T")), type_args: None }]),
        body: vec![
            ClassMember::Prop {
                docs: JsDocs::new(),
                key: PropKey::Name("x".to_string()),
                type_ann: Some(number()),
                is_optional: false,
                is_static: false,
                is_abstract: false,
                accessibility: None,
            },
            ClassMember::Prop {
                docs: JsDocs::new(),
                key: PropKey::Name("y".to_string()),
                type_ann: None,
                is_optional: false,
                is_static: true,
                is_abstract: false,
                accessibility: None,
            },
            ClassMember::Method {
                docs: JsDocs::new(),
                key: PropKey::Name("z".to_string()),
                kind: MethodKind::Method,
                function: function(vec![], None, vec![]),
                is_optional: false,
                is_static: false,
                is_abstract: false,
                accessibility: Some(ts_doc::ast::Accessibility::Private),
            },
        ],
        type_params: vec![],
    };
    let api = read(vec![ModuleItem::ExportDecl {
        docs: JsDocs::new(),
        decl: Decl::Class(ClassDecl { docs: JsDocs::new(), ident: b("Foo"), class }),
    }]);
    match ty(&api, exported(&api, "Foo")) {
        Type::Interface { id, name, extends, properties, .. } => {
            assert_eq!(id, "/test/src/index.tsx:Foo");
            assert_eq!(name, "Foo");
            assert_eq!(extends.len(), 1);
            assert!(matches!(ty(&api, extends[0]), Type::Application { .. }));
            assert_eq!(properties.keys().cloned().collect::<Vec<_>>(), vec!["x", "y", "z"]);
            assert!(properties["y"].is_static);
            assert!(properties["z"].is_method);
            assert_eq!(properties["z"].access.as_deref(), Some("private"));
        },
        other => panic!("unexpected {:?}", other),
    }
}

#[test]
fn jsdoc_on_exported_declaration() {
    let f = function(vec![param("a", None)], None, vec![ReturnShape::Other]);
    let api = read(vec![export_fn(docs("* My docs "), "foo", f)]);
    match ty(&api, exported(&api, "foo")) {
        Type::Function { description, name, .. } => {
            assert_eq!(description.as_deref(), Some("My docs"));
            assert_eq!(name.as_deref(), Some("foo"));
        },
        other => panic!("unexpected {:?}", other),
    }
}

#[test]
fn constructor_type() {
    let f = TsType::Fn { type_params: vec![], params: vec![], return_type: Box::new(string()) };
    let api = read(vec![export_alias("F", f)]);
    let Type::Alias { value, .. } = ty(&api, exported(&api, "F")) else { panic!("alias") };
    match ty(&api, *value) {
        Type::Function { parameters, return_type, id, name, .. } => {
            assert!(parameters.is_empty());
            assert!(id.is_none() && name.is_none());
            assert!(matches!(ty(&api, *return_type), Type::String { value: None }));
        },
        other => panic!("unexpected {:?}", other),
    }
}

#[test]
fn object_expression() {
    let obj = Expr::Object(vec![
        PropOrSpread::Prop(Prop::KeyValue {
            key: PropKey::Name("a".to_string()),
            value: Box::new(Expr::Lit(Lit::Num(1.0f64.to_bits()))),
        }),
        PropOrSpread::Prop(Prop::KeyValue {
            key: PropKey::Name("b".to_string()),
            value: Box::new(Expr::Lit(Lit::Str("x".to_string()))),
        }),
    ]);
    let api = read(vec![export_var("config", None, Some(obj))]);
    match ty(&api, exported(&api, "config")) {
        Type::Interface { id, name, properties, .. } => {
            assert_eq!(id, "/test/src/index.tsx:config");
            assert_eq!(name, "config");
            assert_eq!(properties.keys().cloned().collect::<Vec<_>>(), vec!["a", "b"]);
            assert!(matches!(ty(&api, properties["a"].value), Type::Number { value: Some(v) } if *v == 1.0f64.to_bits()));
        },
        other => panic!("unexpected {:?}", other),
    }
}

#[test]
fn param_descriptions_by_name() {
    let d = docs("*\n * Does a thing.\n * @param first The first argument.\n * @param second The second argument.\n ");
    let f = function(vec![param("first", None), param("second", None)], None, vec![ReturnShape::Other]);
    let api = read(vec![export_fn(d, "foo", f)]);
    match ty(&api, exported(&api, "foo")) {
        Type::Function { description, parameters, .. } => {
            assert_eq!(description.as_deref(), Some("Does a thing."));
            assert_eq!(parameters[0].description.as_deref(), Some("The first argument."));
            assert_eq!(parameters[1].description.as_deref(), Some("The second argument."));
        },
        other => panic!("unexpected {:?}", other),
    }
}

#[test]
fn examples() {
    let d = docs("*\n * Docs.\n * @example\n * foo();\n ");
    let jsx = TsType::TypeRef {
        name: EntityName::Qualified(Box::new(EntityName::Ident(b("JSX"))), "Element".to_string()),
        type_args: None,
    };
    let f = function(vec![param("props", None)], Some(jsx), vec![ReturnShape::Other]);
    let api = read(vec![export_fn(d, "Comp", f)]);
    match ty(&api, exported(&api, "Comp")) {
        Type::Component { description, examples, .. } => {
            assert_eq!(description.as_deref(), Some("Docs."));
            assert_eq!(examples, &vec!["foo();".to_string()]);
        },
        other => panic!("unexpected {:?}", other),
    }
}

#[test]
fn forward_ref_component_naming() {
    let props = TsType::TypeLit(vec![prop_sig("x", number())]);
    let arrow = Expr::Arrow(ArrowExpr {
        params: vec![param("props", Some(props)), param("ref", None)],
        type_params: vec![],
        return_type: None,
        returned: vec![ReturnShape::Jsx],
    });
    let call = Expr::Call(CallExpr { callee: Some(CalleeRef::Ident(b("forwardRef"))), args: vec![arrow] });
    let api = read(vec![import_named("react", "forwardRef"), export_var("Button", None, Some(call))]);
    match ty(&api, exported(&api, "Button")) {
        Type::Component { id, name, props, ref_type, .. } => {
            assert_eq!(id.as_deref(), Some("/test/src/index.tsx:Button"));
            assert_eq!(name.as_deref(), Some("Button"));
            assert!(matches!(ty(&api, props.unwrap()), Type::Object { .. }));
            assert!(matches!(ty(&api, ref_type.unwrap()), Type::Any));
        },
        other => panic!("unexpected {:?}", other),
    }
    // Recognizing the wrapper does not make `react` a dependency.
    assert!(api.dependencies.is_empty());
}

#[test]
fn destructured_export() {
    let item = ModuleItem::ExportDecl {
        docs: JsDocs::new(),
        decl: Decl::Var(VarDecl {
            docs: JsDocs::new(),
            decls: vec![VarDeclarator {
                docs: JsDocs::new(),
                name: BindPat::Object(vec![ObjectPatProp::Assign("a".to_string()), ObjectPatProp::Assign("b".to_string())]),
                init: Some(Box::new(Expr::Ident(b("obj")))),
            }],
        }),
    };
    let api = read(vec![item]);
    assert_eq!(export_keys(&api), vec!["a", "b"]);
    assert!(matches!(ty(&api, exported(&api, "a")), Type::Any));
    assert!(matches!(ty(&api, exported(&api, "b")), Type::Any));
}

#[test]
fn private_interface_propagates_access() {
    let item = ModuleItem::ExportDecl {
        docs: docs("* @private "),
        decl: Decl::Interface(InterfaceDecl {
            docs: JsDocs::new(),
            id: b("Secret"),
            type_params: vec![],
            extends: vec![],
            body: vec![prop_sig("a", number()), prop_sig("b", string())],
        }),
    };
    let api = read(vec![item]);
    match ty(&api, exported(&api, "Secret")) {
        Type::Interface { access, properties, .. } => {
            assert_eq!(access.as_deref(), Some("private"));
            assert_eq!(properties["a"].access.as_deref(), Some("private"));
            assert_eq!(properties["b"].access.as_deref(), Some("private"));
        },
        other => panic!("unexpected {:?}", other),
    }
}

#[test]
fn transform_identifiers() {
    let column_props = TsType::TypeRef {
        name: EntityName::Ident(b("SpectrumColumnProps")),
        type_args: Some(vec![TsType::TypeRef { name: EntityName::Ident(BindingId { sym: "T".to_string(), ctxt: 2 }), type_args: None }]),
    };
    let element = TsType::TypeRef {
        name: EntityName::Qualified(
            Box::new(EntityName::Qualified(Box::new(EntityName::Ident(b("React"))), "JSX".to_string())),
            "Element".to_string(),
        ),
        type_args: None,
    };
    let cast = TsType::Fn {
        type_params: vec![TypeParam { name: BindingId { sym: "T".to_string(), ctxt: 2 }, constraint: None, default: None }],
        params: vec![param("props", Some(column_props))],
        return_type: Box::new(element),
    };
    let local = ModuleItem::Decl(Decl::Var(VarDecl {
        docs: JsDocs::new(),
        decls: vec![VarDeclarator {
            docs: JsDocs::new(),
            name: BindPat::Ident { id: b("SpectrumColumn"), type_ann: None },
            init: Some(Box::new(Expr::TypeCast(cast))),
        }],
    }));
    let import = ModuleItem::Import {
        src: "./column".to_string(),
        specifiers: vec![
            ImportSpecifier::Named { local: b("Column"), imported: None },
            ImportSpecifier::Named { local: b("SpectrumColumnProps"), imported: None },
        ],
    };
    let export = ModuleItem::LocalExport(vec![LocalExportSpecifier::Named {
        orig: b("SpectrumColumn"),
        exported: Some("Column".to_string()),
    }]);
    let api = read(vec![import, local, export]);
    match ty(&api, exported(&api, "Column")) {
        Type::Component { id, name, props, .. } => {
            assert_eq!(id.as_deref(), Some("/test/src/index.tsx:SpectrumColumn"));
            assert_eq!(name.as_deref(), Some("Column"));
            assert!(matches!(ty(&api, props.unwrap()), Type::Application { .. }));
        },
        other => panic!("unexpected {:?}", other),
    }
}

#[test]
fn reexports_and_export_all() {
    let api = read(vec![
        ModuleItem::Reexport {
            src: "./a".to_string(),
            specifiers: vec![
                ReexportSpecifier::Named { orig: "x".to_string(), exported: None },
                ReexportSpecifier::Named { orig: "y".to_string(), exported: Some("z".to_string()) },
            ],
        },
        ModuleItem::ExportAll { src: "./b".to_string() },
        ModuleItem::ExportAll { src: "./a".to_string() },
    ]);
    assert_eq!(export_keys(&api), vec!["x", "z"]);
    assert_eq!(api.export_all, vec!["./b".to_string(), "./a".to_string()]);
    assert_eq!(api.dependencies.iter().cloned().collect::<Vec<_>>(), vec!["./a", "./b"]);
    match ty(&api, exported(&api, "z")) {
        Type::Reference { specifier, imported, local } => {
            assert_eq!(specifier, "./a");
            assert_eq!(imported.as_deref(), Some("y"));
            assert!(local.is_none());
        },
        other => panic!("unexpected {:?}", other),
    }
}

#[test]
fn export_default_class() {
    let class = Class { docs: JsDocs::new(), super_class: None, super_type_params: None, body: vec![], type_params: vec![] };
    let api = read(vec![ModuleItem::ExportDefault(ts_doc::ast::DefaultDecl::Class(ts_doc::ast::ClassExpr {
        docs: JsDocs::new(),
        ident: None,
        class,
    }))]);
    assert_eq!(export_keys(&api), vec!["default"]);
    assert!(matches!(ty(&api, exported(&api, "default")), Type::Interface { .. }));
}

#[test]
fn interface_extends_heritage_reads_dotted_names() {
    let member = Expr::Member { object: Box::new(Expr::Ident(b("Intl"))), property: Some("NumberFormatOptions".to_string()) };
    let item = ModuleItem::ExportDecl {
        docs: JsDocs::new(),
        decl: Decl::Interface(InterfaceDecl {
            docs: JsDocs::new(),
            id: b("Opts"),
            type_params: vec![],
            extends: vec![ExprWithTypeArgs { expr: Box::new(member), type_args: None }],
            body: vec![],
        }),
    };
    let api = read(vec![item]);
    let Type::Interface { extends, .. } = ty(&api, exported(&api, "Opts")) else { panic!("interface") };
    match ty(&api, extends[0]) {
        Type::Identifier { name } => assert_eq!(name, "Intl.NumberFormatOptions"),
        other => panic!("unexpected {:?}", other),
    }
}

#[test]
fn package_read_modules() {
    let component = vec![interface_item("Foo", vec![prop_sig("a", number())])];
    let index = vec![
        import_named("./component", "Foo"),
        export_fn(
            JsDocs::new(),
            "Bar",
            function(
                vec![param("props", Some(TsType::TypeRef { name: EntityName::Ident(b("Foo")), type_args: None }))],
                None,
                vec![ReturnShape::Other],
            ),
        ),
    ];
    let graph = MockBundleGraph::from_sources(
        vec![("/test/src/index.tsx".to_string(), index), ("/test/src/component.tsx".to_string(), component)],
        "/test/src/index.tsx",
    );
    let out = package(&graph);
    let bar = *out.exports.get("Bar").expect("Bar");
    let NodeKind::Function { parameters, .. } = &out.arena.nodes[bar.0].kind else { panic!("function") };
    let NodeKind::Parameter { value, .. } = &out.arena.nodes[parameters[0].0].kind else { panic!("parameter") };
    match &out.arena.nodes[value.0].kind {
        NodeKind::Interface { name, .. } => assert_eq!(name, "Foo"),
        NodeKind::Link { id } => assert_eq!(id, "/test/src/component.tsx:Foo"),
        other => panic!("unexpected {:?}", other),
    }
}

#[test]
fn keyword_and_literal_types_read_exactly() {
    let mut ctx = Context::new(INDEX.to_string());
    assert!(matches!(kw(TsKeywordKind::BigInt).to_type(&mut ctx), Type::Any));
    assert!(matches!(kw(TsKeywordKind::Object).to_type(&mut ctx), Type::ObjectKeyword));
    assert!(matches!(kw(TsKeywordKind::Never).to_type(&mut ctx), Type::Never));
    match TsType::StringLit("a".to_string()).to_type(&mut ctx) {
        Type::String { value: Some(v) } => assert_eq!(v, "a"),
        other => panic!("unexpected {:?}", other),
    }
    assert!(matches!(TsType::BoolLit(true).to_type(&mut ctx), Type::Boolean { value: Some(true) }));
    assert!(matches!(TsType::Unsupported.to_type(&mut ctx), Type::Any));
    // None of these stores anything.
    assert!(ctx.api.types.is_empty());
    // A parenthesized type reads as what it holds.
    assert!(matches!(TsType::Paren(Box::new(number())).to_type(&mut ctx), Type::Number { value: None }));
}

#[test]
fn mapped_type_writes_readonly_modifier() {
    let mut ctx = Context::new(INDEX.to_string());
    let mapped = TsType::Mapped {
        readonly: Some(TruePlusMinus::Minus),
        type_param: TypeParam { name: b("K"), constraint: Some(Box::new(string())), default: None },
        type_ann: None,
    };
    match mapped.to_type(&mut ctx) {
        Type::Mapped { readonly, type_parameter, type_annotation } => {
            assert_eq!(readonly.as_deref(), Some("-"));
            assert!(matches!(&ctx.api.types[type_parameter.0 as usize], Type::TypeParameter { name, constraint: Some(_), default: None } if name == "K"));
            assert!(matches!(&ctx.api.types[type_annotation.0 as usize], Type::Any));
        },
        other => panic!("unexpected {:?}", other),
    }
}

#[test]
fn docs_applied_twice_change_nothing_more() {
    let d = docs("* A secret.\n * @private ");
    let mut props = indexmap::IndexMap::new();
    props.insert(
        "a".to_string(),
        ts_doc::Property {
            name: "a".to_string(),
            index_type: None,
            value: TypeId(0),
            optional: false,
            is_method: false,
            is_static: false,
            is_abstract: false,
            description: None,
            access: None,
            selector: None,
            default: None,
        },
    );
    let mut t = Type::Interface {
        id: "x".to_string(),
        name: "X".to_string(),
        extends: vec![],
        properties: props,
        type_parameters: vec![],
        description: None,
        access: None,
    };
    t.add_docs(d.duplicate(), Some("Y".to_string()));
    let once = format!("{:?}", t);
    t.add_docs(d, Some("Y".to_string()));
    assert_eq!(format!("{:?}", t), once);
    match &t {
        Type::Interface { name, description, access, properties, .. } => {
            assert_eq!(name, "Y");
            assert_eq!(description.as_deref(), Some("A secret."));
            assert_eq!(access.as_deref(), Some("private"));
            assert_eq!(properties["a"].access.as_deref(), Some("private"));
        },
        other => panic!("unexpected {:?}", other),
    }
}

#[test]
fn getter_and_setter_members() {
    let body = vec![
        TsTypeElement::Getter { docs: JsDocs::new(), key: PropKey::Name("g".to_string()), type_ann: Some(number()) },
        TsTypeElement::Setter { docs: JsDocs::new(), key: PropKey::Unknown, param: param("v", Some(string())) },
        TsTypeElement::Index(ts_doc::ast::IndexSignature {
            docs: JsDocs::new(),
            param: param("key", Some(string())),
            type_ann: Some(number()),
        }),
    ];
    let api = read(vec![interface_item("I", body)]);
    let Type::Interface { properties, .. } = ty(&api, exported(&api, "I")) else { panic!("interface") };
    assert_eq!(properties.keys().cloned().collect::<Vec<_>>(), vec!["g", "unknown", "key"]);
    assert!(matches!(ty(&api, properties["unknown"].value), Type::String { value: None }));
    let idx = &properties["key"];
    assert!(matches!(ty(&api, idx.index_type.unwrap()), Type::String { value: None }));
    assert!(matches!(ty(&api, idx.value), Type::Number { value: None }));
}

#[test]
fn import_specifiers_declare_references_to_their_exports() {
    let mut ctx = Context::new(INDEX.to_string());
    ctx.visit_import_decl(
        &"./m".to_string(),
        &vec![
            ImportSpecifier::Default { local: b("D") },
            ImportSpecifier::Named { local: b("L"), imported: Some("Orig".to_string()) },
            ImportSpecifier::Namespace { local: b("NS") },
        ],
    );
    for (name, imported) in [("D", Some("default")), ("L", Some("Orig")), ("NS", None)] {
        let id = ctx.lookup(&b(name)).expect("declared");
        match &ctx.api.types[id.0 as usize] {
            Type::Reference { specifier, imported: i, local } => {
                assert_eq!(specifier, "./m");
                assert_eq!(i.as_deref(), imported);
                assert_eq!(local.as_deref(), Some(name));
            },
            other => panic!("unexpected {:?}", other),
        }
    }
}

#[test]
fn var_decl_declares_bindings_of_their_own_type() {
    let mut ctx = Context::new(INDEX.to_string());
    let none = parse_jsdoc(&vec![]);
    let declarator = |name: &str, init: Option<Expr>| VarDeclarator {
        docs: parse_jsdoc(&vec![]),
        name: BindPat::Ident { id: b(name), type_ann: None },
        init: init.map(Box::new),
    };
    let decl = VarDecl {
        docs: none,
        decls: vec![
            declarator("x", None),
            declarator("y", Some(Expr::Lit(Lit::Num(1)))),
            declarator("z", Some(Expr::Ident(b("w")))),
        ],
    };
    assert!(matches!(decl.to_type(&mut ctx), Type::Any));
    assert!(ctx.lookup(&b("x")).is_some());
    assert!(ctx.lookup(&b("y")).is_some());
    // `z` names `w`: it reads as a reference to `w`, which is declared as an
    // identifier, and `z` itself is not declared.
    assert!(ctx.lookup(&b("w")).is_some());
    assert!(ctx.lookup(&b("z")).is_none());
}

#[test]
fn class_method_value_carries_no_description() {
    let mut ctx = Context::new(INDEX.to_string());
    let mut f = function(vec![], None, vec![]);
    f.docs = docs("* Does z.");
    let member = ClassMember::Method {
        docs: docs("* Does z."),
        key: PropKey::Name("z".to_string()),
        kind: MethodKind::Method,
        function: f,
        is_optional: false,
        is_static: false,
        is_abstract: false,
        accessibility: None,
    };
    let p = member.to_property(&mut ctx).expect("a property");
    assert_eq!(p.description.as_deref(), Some("Does z."));
    assert!(p.is_method);
    match &ctx.api.types[p.value.0 as usize] {
        Type::Function { description, parameters, .. } => {
            assert!(description.is_none());
            assert!(parameters.is_empty());
        },
        other => panic!("unexpected {:?}", other),
    }
}
