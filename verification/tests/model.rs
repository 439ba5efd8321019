use indexmap::IndexMap;
use ts_doc::jsdoc::JsDocs;
use ts_doc::parse::{BindingId, CalleeRef, Context, ReturnShape};
use ts_doc::ty::refs_within;
use ts_doc::{Parameter, Type, TypeId, API};

fn binding(sym: &str, ctxt: u32) -> BindingId {
    BindingId { sym: sym.to_string(), ctxt }
}

fn param(name: &str, value: TypeId) -> Parameter {
    Parameter { name: name.to_string(), value, optional: false, rest: false, description: None }
}

fn function(name: &str, parameters: Vec<Parameter>, return_type: TypeId) -> Type {
    Type::Function {
        id: Some(name.to_string()),
        name: Some(name.to_string()),
        parameters,
        return_type,
        type_parameters: vec![],
        description: None,
        return_description: None,
        access: None,
        examples: vec![],
    }
}

#[test]
fn add_type_stores_all_but_refs() {
    let mut api = API::new();
    assert_eq!(api.add_type(Type::Any), TypeId(0));
    assert_eq!(api.add_type(Type::Null), TypeId(1));
    assert_eq!(api.add_type(Type::Ref(TypeId(0))), TypeId(0));
    assert_eq!(api.types.len(), 2);
    assert!(api.is_wf());
}

#[test]
fn api_well_formedness_check() {
    let mut api = API::new();
    api.types.push(Type::Array { element_type: TypeId(3) });
    assert!(!api.is_wf());
    let mut api = API::new();
    api.types.push(Type::Ref(TypeId(0)));
    assert!(!api.is_wf());
    let mut api = API::new();
    let t = api.add_type(Type::Any);
    api.exports.insert("a".to_string(), TypeId(1));
    assert!(!api.is_wf());
    api.exports.insert("a".to_string(), t);
    assert!(api.is_wf());
    assert!(refs_within(&Type::Union { elements: vec![TypeId(0), TypeId(1)] }, 2));
    assert!(!refs_within(&Type::Union { elements: vec![TypeId(0), TypeId(2)] }, 2));
}

#[test]
fn define_keeps_first_id_and_description() {
    let mut ctx = Context::new("/a.ts".to_string());
    let ret = ctx.add_type(Type::Void);
    let mut first = function("f", vec![], ret);
    first.set_description(Some("Docs.".to_string()));
    let id = ctx.define(binding("f", 1), first);
    let again = ctx.define(binding("f", 1), function("f", vec![], ret));
    assert_eq!(id, again);
    assert_eq!(ctx.api.types[id.0 as usize].description().map(|s| s.as_str()), Some("Docs."));
    assert_eq!(ctx.lookup(&binding("f", 1)), Some(id));
    assert_eq!(ctx.lookup(&binding("f", 2)), None);
}

#[test]
fn function_becomes_component() {
    let props = TypeId(0);
    let r = TypeId(1);
    let c = function("App", vec![param("props", props), param("ref", r)], TypeId(2)).to_component();
    match c {
        Type::Component { name, props: p, ref_type, .. } => {
            assert_eq!(name.as_deref(), Some("App"));
            assert_eq!(p, Some(props));
            assert_eq!(ref_type, Some(r));
        }
        _ => panic!("expected a component"),
    }
    assert!(matches!(Type::Any.to_component(), Type::Any));
}

#[test]
fn docs_document_parameters_and_returns() {
    let mut t = function("f", vec![param("x", TypeId(0)), param("y", TypeId(0))], TypeId(0));
    let mut params = IndexMap::new();
    params.insert("y".to_string(), "The y.".to_string());
    let docs = JsDocs {
        description: Some("Does f.".to_string()),
        default: None,
        access: None,
        return_description: Some("Nothing.".to_string()),
        params,
        selector: None,
        examples: vec![],
    };
    t.add_docs(docs, Some("g".to_string()));
    match t {
        Type::Function { name, parameters, description, return_description, .. } => {
            assert_eq!(name.as_deref(), Some("g"));
            assert_eq!(description.as_deref(), Some("Does f."));
            assert_eq!(return_description.as_deref(), Some("Nothing."));
            assert_eq!(parameters[0].description, None);
            assert_eq!(parameters[1].description.as_deref(), Some("The y."));
        }
        _ => panic!("expected a function"),
    }
}

#[test]
fn names_and_ids_are_set_on_declarations() {
    let mut t = Type::Alias {
        id: "a".to_string(),
        name: "A".to_string(),
        value: TypeId(0),
        type_parameters: vec![],
        description: None,
        access: None,
    };
    t.set_name("B".to_string());
    t.set_id("b".to_string());
    match &t {
        Type::Alias { id, name, .. } => {
            assert_eq!(id, "b");
            assert_eq!(name, "B");
        }
        _ => panic!("expected an alias"),
    }
    let mut n = Type::Number { value: None };
    n.set_name("x".to_string());
    assert!(matches!(n, Type::Number { value: None }));
}

#[test]
fn react_imports_are_recognized() {
    let mut ctx = Context::new("/a.tsx".to_string());
    let _ = ctx.define(
        binding("forwardRef", 1),
        Type::Reference {
            specifier: "react".to_string(),
            imported: Some("forwardRef".to_string()),
            local: Some("forwardRef".to_string()),
        },
    );
    let callee = CalleeRef::Ident(binding("forwardRef", 1));
    assert!(ctx.references_import(&callee, "react", "forwardRef"));
    assert_eq!(ctx.call_component_arg(&callee), Some(0));
    assert!(!ctx.references_import(&callee, "react", "memo"));
    let other = CalleeRef::Ident(binding("memo", 1));
    assert_eq!(ctx.call_component_arg(&other), None);
    assert!(ctx.is_jsx_expr(&ReturnShape::Jsx));
    assert!(!ctx.is_jsx_expr(&ReturnShape::Other));
}
