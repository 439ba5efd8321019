use indexmap::IndexMap;
use ts_doc::mock::MockBundleGraph;
use ts_doc::{package, NodeKind, NodeRef, PackageOutput, Property, Type, TypeId, API};

fn prop(name: &str, value: TypeId) -> Property {
    Property {
        name: name.to_string(),
        index_type: None,
        value,
        optional: false,
        is_method: false,
        is_static: false,
        is_abstract: false,
        description: None,
        access: None,
        selector: None,
        default: None,
    }
}

fn interface(id: &str, name: &str, extends: Vec<TypeId>, props: Vec<(&str, TypeId)>) -> Type {
    let mut properties = IndexMap::new();
    for (n, t) in props {
        properties.insert(n.to_string(), prop(n, t));
    }
    Type::Interface {
        id: id.to_string(),
        name: name.to_string(),
        extends,
        properties,
        type_parameters: vec![],
        description: None,
        access: None,
    }
}

fn one(api: API) -> PackageOutput {
    let graph = MockBundleGraph::from_apis(vec![("/test/src/index.tsx".to_string(), api)], "/test/src/index.tsx");
    package(&graph)
}

fn kind(out: &PackageOutput, r: NodeRef) -> &NodeKind {
    &out.arena.nodes[r.0].kind
}

fn export(out: &PackageOutput, name: &str) -> NodeRef {
    *out.exports.get(name).expect("export")
}

fn prop_keys(out: &PackageOutput, r: NodeRef) -> Vec<String> {
    match kind(out, r) {
        NodeKind::Interface { properties, .. } => properties.keys().cloned().collect(),
        NodeKind::Object { properties: Some(p), .. } => p.keys().cloned().collect(),
        _ => panic!("no properties"),
    }
}

#[test]
fn number_export_from_an_api() {
    let mut api = API::new();
    let n = api.add_type(Type::Number { value: None });
    api.add_export("a".to_string(), n);
    let out = one(api);
    assert!(matches!(kind(&out, export(&out, "a")), NodeKind::Number { value: None }));
    assert_eq!(out.links.len(), 0);
}

#[test]
fn number_literal_keeps_its_bits() {
    let mut api = API::new();
    let n = api.add_type(Type::Number { value: Some(12f64.to_bits()) });
    api.add_export("a".to_string(), n);
    let out = one(api);
    match kind(&out, export(&out, "a")) {
        NodeKind::Number { value: Some(bits) } => assert_eq!(f64::from_bits(*bits), 12.0),
        _ => panic!("expected a number"),
    }
}

#[test]
fn exports_keep_declaration_order() {
    let mut api = API::new();
    let s = api.add_type(Type::String { value: None });
    let b = api.add_type(Type::Boolean { value: Some(true) });
    api.add_export("z".to_string(), s);
    api.add_export("a".to_string(), b);
    let out = one(api);
    let keys: Vec<String> = out.exports.keys().cloned().collect();
    assert_eq!(keys, vec!["z", "a"]);
}

#[test]
fn own_property_wins_over_inherited() {
    let mut api = API::new();
    let num = api.add_type(Type::Number { value: None });
    let st = api.add_type(Type::String { value: None });
    let base = api.add_type(interface("Base", "Base", vec![], vec![("a", num), ("b", num)]));
    let foo = api.add_type(interface("Foo", "Foo", vec![base], vec![("b", st), ("c", st)]));
    api.add_export("Foo".to_string(), foo);
    let out = one(api);
    let r = export(&out, "Foo");
    assert_eq!(prop_keys(&out, r), vec!["b", "c", "a"]);
    match kind(&out, r) {
        NodeKind::Interface { name, extends, properties, .. } => {
            assert_eq!(name, "Foo");
            assert!(extends.is_empty());
            // The own `b: string` wins over the inherited `b: number`.
            let b = properties.get("b").unwrap();
            match kind(&out, *b) {
                NodeKind::Property { value, .. } => assert!(matches!(kind(&out, *value), NodeKind::String { .. })),
                _ => panic!("expected a property"),
            }
        }
        _ => panic!("expected an interface"),
    }
    // Nothing links to `Foo` or `Base`: both are inlined.
    assert_eq!(out.links.len(), 0);
}

#[test]
fn exported_alias_is_a_link() {
    let mut api = API::new();
    let num = api.add_type(Type::Number { value: None });
    let alias = api.add_type(Type::Alias {
        id: "Foo".to_string(),
        name: "Foo".to_string(),
        value: num,
        type_parameters: vec![],
        description: Some("A number.".to_string()),
        access: None,
    });
    api.add_export("Foo".to_string(), alias);
    let out = one(api);
    assert!(matches!(kind(&out, export(&out, "Foo")), NodeKind::Link { id } if id == "Foo"));
    let target = *out.links.get("Foo").unwrap();
    match kind(&out, target) {
        NodeKind::Alias { name, value, .. } => {
            assert_eq!(name, "Foo");
            assert!(matches!(kind(&out, *value), NodeKind::Number { .. }));
        }
        _ => panic!("expected an alias"),
    }
    assert_eq!(out.arena.nodes[target.0].description.as_deref(), Some("A number."));
}

fn omit_pick(name: &str) -> PackageOutput {
    let mut api = API::new();
    let num = api.add_type(Type::Number { value: None });
    let a = api.add_type(interface("A", "A", vec![], vec![("a", num), ("b", num), ("c", num)]));
    let base = api.add_type(Type::Identifier { name: name.to_string() });
    let key_b = api.add_type(Type::String { value: Some("b".to_string()) });
    let key_c = api.add_type(Type::String { value: Some("c".to_string()) });
    let keys = api.add_type(Type::Union { elements: vec![key_b, key_c] });
    let app = api.add_type(Type::Application { base, type_parameters: vec![a, keys] });
    api.add_export("X".to_string(), app);
    one(api)
}

#[test]
fn omit_drops_named_keys() {
    let out = omit_pick("Omit");
    match kind(&out, export(&out, "X")) {
        NodeKind::Application { base, .. } => assert_eq!(prop_keys(&out, *base), vec!["a"]),
        _ => panic!("expected an application"),
    }
}

#[test]
fn pick_keeps_named_keys() {
    let out = omit_pick("Pick");
    match kind(&out, export(&out, "X")) {
        NodeKind::Application { base, .. } => assert_eq!(prop_keys(&out, *base), vec!["b", "c"]),
        _ => panic!("expected an application"),
    }
}

#[test]
fn circular_interface_becomes_link() {
    let mut api = API::new();
    // `interface A { self: A }`: the property refers back to the interface.
    let a = TypeId(0);
    api.add_type(interface("A", "A", vec![], vec![("self", a)]));
    api.add_export("A".to_string(), a);
    let out = one(api);
    let r = export(&out, "A");
    match kind(&out, r) {
        NodeKind::Interface { properties, .. } => match kind(&out, *properties.get("self").unwrap()) {
            NodeKind::Property { value, .. } => assert!(matches!(kind(&out, *value), NodeKind::Link { id } if id == "A")),
            _ => panic!("expected a property"),
        },
        _ => panic!("expected an interface"),
    }
    assert!(out.links.contains_key("A"));
}

fn reference(specifier: &str, imported: &str) -> Type {
    Type::Reference {
        specifier: specifier.to_string(),
        imported: Some(imported.to_string()),
        local: Some(imported.to_string()),
    }
}

#[test]
fn reference_to_imported_interface_is_inlined() {
    let mut index = API::new();
    let r = index.add_type(reference("./component", "Foo"));
    index.add_export("Foo".to_string(), r);
    let mut component = API::new();
    let num = component.add_type(Type::Number { value: None });
    let foo = component.add_type(interface("Foo", "Foo", vec![], vec![("a", num)]));
    component.add_export("Foo".to_string(), foo);
    let graph = MockBundleGraph::from_apis(
        vec![("/test/src/index.tsx".to_string(), index), ("/test/src/component.tsx".to_string(), component)],
        "/test/src/index.tsx",
    );
    let out = package(&graph);
    let e = export(&out, "Foo");
    assert_eq!(prop_keys(&out, e), vec!["a"]);
}

#[test]
fn external_reference_is_an_identifier() {
    let mut api = API::new();
    let r = api.add_type(Type::Reference {
        specifier: "react".to_string(),
        imported: Some("ReactNode".to_string()),
        local: Some("Node".to_string()),
    });
    api.add_export("N".to_string(), r);
    let out = one(api);
    assert!(matches!(kind(&out, export(&out, "N")), NodeKind::Identifier { name } if name == "Node"));
}

#[test]
fn export_all_adds_missing_names() {
    let mut index = API::new();
    let s = index.add_type(Type::String { value: None });
    index.add_export("x".to_string(), s);
    index.export_all.push("./other".to_string());
    let mut other = API::new();
    let n = other.add_type(Type::Number { value: None });
    other.add_export("x".to_string(), n);
    other.add_export("y".to_string(), n);
    let graph = MockBundleGraph::from_apis(
        vec![("/test/src/index.tsx".to_string(), index), ("/test/src/other.ts".to_string(), other)],
        "/test/src/index.tsx",
    );
    let out = package(&graph);
    let keys: Vec<String> = out.exports.keys().cloned().collect();
    assert_eq!(keys, vec!["x", "y"]);
    assert!(matches!(kind(&out, export(&out, "x")), NodeKind::String { .. }));
    assert!(matches!(kind(&out, export(&out, "y")), NodeKind::Number { .. }));
}

#[test]
fn reexport_renames_function() {
    let mut api = API::new();
    let ret = api.add_type(Type::Void);
    let f = api.add_type(Type::Function {
        id: Some("app".to_string()),
        name: Some("App".to_string()),
        parameters: vec![],
        return_type: ret,
        type_parameters: vec![],
        description: None,
        return_description: Some("Nothing.".to_string()),
        access: None,
        examples: vec![],
    });
    api.add_export("AppReal".to_string(), f);
    let out = one(api);
    match kind(&out, export(&out, "AppReal")) {
        NodeKind::Function { name, return_type, .. } => {
            assert_eq!(name.as_deref(), Some("AppReal"));
            assert_eq!(out.arena.nodes[return_type.0].description.as_deref(), Some("Nothing."));
        }
        _ => panic!("expected a function"),
    }
}

#[test]
fn root_type_parameter_is_replaced_by_its_constraint() {
    let mut api = API::new();
    let st = api.add_type(Type::String { value: None });
    let tp = api.add_type(Type::TypeParameter { name: "T".to_string(), constraint: Some(st), default: None });
    let usage = api.add_type(Type::TypeParameter { name: "T".to_string(), constraint: None, default: None });
    let mut i = interface("Box", "Box", vec![], vec![("value", usage)]);
    if let Type::Interface { type_parameters, .. } = &mut i {
        type_parameters.push(tp);
    }
    let b = api.add_type(i);
    api.add_export("Box".to_string(), b);
    let out = one(api);
    match kind(&out, export(&out, "Box")) {
        NodeKind::Interface { properties, .. } => match kind(&out, *properties.get("value").unwrap()) {
            NodeKind::Property { value, .. } => assert!(matches!(kind(&out, *value), NodeKind::String { .. })),
            _ => panic!("expected a property"),
        },
        _ => panic!("expected an interface"),
    }
}
