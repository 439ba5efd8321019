use ts_doc::csf::{
    annotation_span, binding_source_span, collect_assigned_annotations, collect_stories, component_import_reference,
    docgen_enabled, export_var, find_function, find_var_init, find_var_statement_span, meta_filter, normalize_meta,
    object_property, read_csf, refresh_plan, render_action, resolve_bound_story, resolve_docgen_target, story_hash,
    story_target, find_var_init_at, find_function_at, string_array_property, unwrap_ts, RenderAction, StoryTarget,
    CsfDeclarator, CsfExportName, CsfExpr, CsfImportSpec, CsfItem, CsfKind,
    CsfMemberProp, CsfProp, MetaError, RefreshItem, RefreshSpec, RefreshState, RefreshStep,
};
use ts_doc::jsdoc::Comment;
use ts_doc::storybook::{docs_specifier, extract_description, filter_stories, md5_hex, slice_span, Story};

fn ex(lo: u32, hi: u32, kind: CsfKind) -> CsfExpr {
    CsfExpr { span: (lo, hi), kind }
}

fn ident(name: &str) -> CsfExpr {
    ex(0, 0, CsfKind::Ident(name.to_string()))
}

fn object(lo: u32, hi: u32, props: Vec<CsfProp>) -> CsfExpr {
    ex(lo, hi, CsfKind::Object(props))
}

fn kv(key: &str, value: CsfExpr) -> CsfProp {
    CsfProp::KeyValue { key: Some(key.to_string()), value }
}

fn decl(name: &str, init: Option<CsfExpr>) -> CsfDeclarator {
    CsfDeclarator { name: Some(name.to_string()), init }
}

fn var(span: (u32, u32), name: &str, init: CsfExpr) -> CsfItem {
    CsfItem::Var { span, decls: vec![decl(name, Some(init))] }
}

fn export_var_item(span: (u32, u32), name: &str, init: CsfExpr) -> CsfItem {
    CsfItem::ExportVar { span, decls: vec![decl(name, Some(init))] }
}

fn bind(template: &str, args: Vec<CsfExpr>) -> CsfExpr {
    let member = ex(
        0,
        0,
        CsfKind::Member {
            object: Box::new(ident(template)),
            property: CsfMemberProp::Ident("bind".to_string()),
        },
    );
    ex(0, 0, CsfKind::Call { callee: Some(Box::new(member)), args })
}

fn named_import(local: &str, imported: Option<&str>, src: &str) -> CsfItem {
    CsfItem::Import {
        type_only: false,
        src: Some(src.to_string()),
        specifiers: vec![CsfImportSpec::Named {
            local: local.to_string(),
            imported: imported.map(|n| CsfExportName::Ident(n.to_string())),
            type_only: false,
        }],
    }
}

fn span_of(source: &str, text: &str) -> (u32, u32) {
    let lo = source.find(text).unwrap() as u32;
    (lo, lo + text.len() as u32)
}

fn names(stories: &Vec<Story>) -> Vec<String> {
    stories.iter().map(|s| s.export_name.clone()).collect()
}

#[test]
fn supports_static_csf2_annotations_and_narrow_bind() {
    let source = "import {Button} from './Button';\n\
        const meta = {component: Button};\n\
        export default meta;\n\
        const Template = args => <Button {...args} />;\n\
        export const Primary = Template.bind({});\n\
        Primary.args = {label: 'Save'};\n\
        Primary.parameters = {layout: 'centered'};\n\
        Primary.story = {args: {ignored: true}};\n\
        export const Secondary = Template.bind();\n";
    let template = span_of(source, "args => <Button {...args} />");
    let meta_stmt = span_of(source, "const meta = {component: Button};");
    let meta_obj = span_of(source, "{component: Button}");
    let args = span_of(source, "{label: 'Save'}");
    let params = span_of(source, "{layout: 'centered'}");
    let primary_stmt = span_of(source, "export const Primary = Template.bind({});");
    let secondary_stmt = span_of(source, "export const Secondary = Template.bind();");
    let mut items = vec![
        named_import("Button", None, "./Button"),
        var(meta_stmt, "meta", object(meta_obj.0, meta_obj.1, vec![kv("component", ident("Button"))])),
        CsfItem::DefaultExpr { span: span_of(source, "export default meta;"), expr: ident("meta") },
        var((0, 0), "Template", ex(template.0, template.1, CsfKind::Arrow)),
        export_var_item(primary_stmt, "Primary", bind("Template", vec![object(0, 0, vec![])])),
        CsfItem::Assign { object: "Primary".to_string(), property: "args".to_string(), value_span: args },
        CsfItem::Assign { object: "Primary".to_string(), property: "parameters".to_string(), value_span: params },
        CsfItem::Assign { object: "Primary".to_string(), property: "story".to_string(), value_span: (1, 2) },
        export_var_item(secondary_stmt, "Secondary", bind("Template", vec![])),
    ];
    let (meta, stories) = match read_csf(&mut items) {
        Ok(p) => p,
        Err(_) => panic!("meta expected"),
    };
    assert_eq!(meta.name, "meta");
    assert_eq!(meta.statement_span, meta_stmt);
    assert_eq!(meta.object_span, meta_obj);
    assert_eq!(items.len(), 9);
    assert_eq!(names(&stories), vec!["Primary", "Secondary"]);
    assert_eq!(stories[0].target_name, "Template");
    assert_eq!(stories[0].source_span, template);
    assert_eq!(stories[0].statement_span, primary_stmt);
    assert_eq!(stories[0].args_span, Some(args));
    assert_eq!(stories[0].parameters_span, Some(params));
    assert_eq!(stories[1].target_name, "Template");
    assert_eq!(stories[1].args_span, None);
    let bytes = source.as_bytes().to_vec();
    assert_eq!(
        story_hash(&bytes, 0, &stories[0]),
        md5_hex("{label: 'Save'}{layout: 'centered'}".as_bytes())
    );
    assert_eq!(story_hash(&bytes, 0, &stories[1]), "d41d8cd98f00b204e9800998ecf8427e");
    // Both stories render the template, which moves into one component.
    let mut components = RefreshState::new();
    assert!(matches!(story_target(&items, &stories[0].target_name), Some(StoryTarget::Init { .. })));
    components.record(stories[0].target_name.clone(), components.next_component());
    assert_eq!(components.component_for(&stories[1].target_name), Some("Story0".to_string()));
    assert_eq!(components.count, 1);
}

#[test]
fn bind_with_arguments_is_not_a_template() {
    let items = vec![
        var((0, 0), "Template", ex(5, 9, CsfKind::Arrow)),
        export_var_item((10, 20), "A", bind("Template", vec![object(0, 0, vec![kv("x", ident("y"))])])),
        export_var_item((30, 40), "B", bind("Template", vec![object(0, 0, vec![]), object(0, 0, vec![])])),
        export_var_item((50, 60), "C", bind("Template", vec![])),
    ];
    assert_eq!(resolve_bound_story(&items, "A"), None);
    assert_eq!(resolve_bound_story(&items, "B"), None);
    assert_eq!(resolve_bound_story(&items, "C"), Some("Template".to_string()));
    assert_eq!(binding_source_span(&items, "Template"), Some((5, 9)));
}

#[test]
fn exported_functions_and_named_exports_order_are_handled() {
    let items = vec![
        CsfItem::ExportFn { span: (0, 30), name: "Story".to_string(), fn_span: (7, 30) },
        CsfItem::ExportVar {
            span: (31, 80),
            decls: vec![decl("__namedExportsOrder", Some(ident("x"))), decl("NoInit", None), decl(
                "Obj",
                Some(ex(
                    60,
                    80,
                    CsfKind::Wrapped(Box::new(object(61, 79, vec![
                        kv("args", ex(62, 64, CsfKind::Other)),
                        kv("args", ex(65, 67, CsfKind::Other)),
                    ]))),
                )),
            )],
        },
    ];
    let stories = collect_stories(&items);
    assert_eq!(names(&stories), vec!["Story", "Obj"]);
    assert_eq!(stories[0].source_span, (7, 30));
    assert_eq!(stories[1].source_span, (61, 79));
    assert_eq!(stories[1].args_span, Some((65, 67)));
    assert_eq!(stories[1].parameters_span, None);
    assert_eq!(find_function(&items, "Story"), Some((7, 30)));
    assert!(find_var_init(&items, "NoInit").is_none());
    assert_eq!(find_var_statement_span(&items, "NoInit"), Some((31, 80)));
}

#[test]
fn annotation_span_takes_the_last_matching_property() {
    let props = vec![
        kv("parameters", ex(1, 2, CsfKind::Other)),
        CsfProp::Spread,
        kv("parameters", ex(3, 4, CsfKind::Other)),
        CsfProp::Method { key: Some("args".to_string()) },
    ];
    assert_eq!(annotation_span(&props, "parameters"), Some((3, 4)));
    assert_eq!(annotation_span(&props, "args"), None);
    assert!(matches!(object_property(&props, "parameters"), Some(e) if e.span == (1, 2)));
}

#[test]
fn assigned_annotations_go_to_the_first_story_of_that_name() {
    let mut stories = vec![
        Story {
            export_name: "A".to_string(),
            target_name: "A".to_string(),
            statement_span: (0, 0),
            source_span: (0, 0),
            args_span: None,
            parameters_span: None,
        },
    ];
    let items = vec![
        CsfItem::Assign { object: "A".to_string(), property: "args".to_string(), value_span: (1, 2) },
        CsfItem::Assign { object: "A".to_string(), property: "args".to_string(), value_span: (3, 4) },
        CsfItem::Assign { object: "B".to_string(), property: "args".to_string(), value_span: (5, 6) },
        CsfItem::Assign { object: "A".to_string(), property: "render".to_string(), value_span: (7, 8) },
    ];
    collect_assigned_annotations(&items, &mut stories);
    assert_eq!(stories[0].args_span, Some((3, 4)));
    assert_eq!(stories[0].parameters_span, None);
}

#[test]
fn include_and_exclude_lists_filter_stories() {
    let array = |xs: &[&str]| {
        ex(
            0,
            0,
            CsfKind::Array(
                xs.iter()
                    .map(|x| ex(0, 0, CsfKind::Wrapped(Box::new(ex(0, 0, CsfKind::Str(x.to_string()))))))
                    .chain(std::iter::once(ident("notAString")))
                    .collect(),
            ),
        )
    };
    let items = vec![
        var(
            (0, 0),
            "meta",
            object(0, 0, vec![kv("includeStories", array(&["A", "B", "_C"])), kv("excludeStories", array(&["B"]))]),
        ),
        CsfItem::DefaultExpr { span: (0, 0), expr: ident("meta") },
    ];
    let filter = meta_filter(&items, "meta").unwrap();
    assert_eq!(filter.includes, Some(vec!["A".to_string(), "B".to_string(), "_C".to_string()]));
    assert_eq!(filter.excludes, Some(vec!["B".to_string()]));
    let mut stories: Vec<Story> = ["A", "B", "_C", "D"]
        .iter()
        .map(|n| Story {
            export_name: n.to_string(),
            target_name: n.to_string(),
            statement_span: (0, 0),
            source_span: (0, 0),
            args_span: None,
            parameters_span: None,
        })
        .collect();
    filter_stories(Some(&filter), &mut stories);
    assert_eq!(names(&stories), vec!["A"]);
    assert!(meta_filter(&items, "other").is_none());
    if let CsfItem::Var { decls, .. } = &items[0] {
        if let Some(CsfExpr { kind: CsfKind::Object(props), .. }) = &decls[0].init {
            assert_eq!(string_array_property(props, "missing"), None);
        }
    }
}

#[test]
fn inline_default_object_is_bound_to_a_fresh_meta_name() {
    let mut items = vec![
        var((0, 10), "$parcel$storybook$meta", ident("x")),
        CsfItem::Fn { name: "$parcel$storybook$meta1".to_string(), fn_span: (11, 20) },
        CsfItem::Var { span: (21, 30), decls: vec![decl("$parcel$storybook$meta2", None)] },
        CsfItem::DefaultExpr { span: (40, 70), expr: ex(55, 69, CsfKind::Wrapped(Box::new(object(56, 68, vec![])))) },
        CsfItem::Other,
    ];
    let meta = match normalize_meta(&mut items) {
        Ok(m) => m,
        Err(_) => panic!("meta expected"),
    };
    assert_eq!(meta.name, "$parcel$storybook$meta2");
    assert_eq!(meta.statement_span, (40, 70));
    assert_eq!(meta.object_span, (56, 68));
    assert_eq!(items.len(), 6);
    match &items[3] {
        CsfItem::Var { span, decls } => {
            assert_eq!(*span, (0, 0));
            assert_eq!(decls[0].name.as_deref(), Some("$parcel$storybook$meta2"));
            assert_eq!(decls[0].init.as_ref().map(|e| e.span), Some((55, 69)));
        },
        _ => panic!("declaration expected"),
    }
    match &items[4] {
        CsfItem::DefaultExpr { expr: CsfExpr { kind: CsfKind::Ident(n), .. }, .. } => {
            assert_eq!(n, "$parcel$storybook$meta2")
        },
        _ => panic!("default export expected"),
    }
    assert!(matches!(items[5], CsfItem::Other));
    // An earlier declarator of the new name without a value comes first.
    assert!(find_var_init(&items, &meta.name).is_none());
}

#[test]
fn inline_default_object_is_then_read_through_its_binding() {
    let mut items = vec![
        CsfItem::Fn { name: "$parcel$storybook$meta".to_string(), fn_span: (0, 5) },
        CsfItem::DefaultExpr { span: (10, 40), expr: object(25, 39, vec![kv("title", ident("t"))]) },
    ];
    let meta = match normalize_meta(&mut items) {
        Ok(m) => m,
        Err(_) => panic!("meta expected"),
    };
    assert_eq!(meta.name, "$parcel$storybook$meta1");
    assert_eq!(find_var_init(&items, &meta.name).map(|e| unwrap_ts(e).span), Some(meta.object_span));
    assert!(meta_filter(&items, &meta.name).is_some());
}

#[test]
fn default_export_errors() {
    let mut missing = vec![var((0, 0), "a", ident("b"))];
    let e = normalize_meta(&mut missing).err().unwrap();
    assert!(matches!(e, MetaError::MissingDefault));
    assert_eq!(e.message("/src/A.stories.tsx"), "CSF: missing default export in /src/A.stories.tsx");
    let mut not_object = vec![CsfItem::DefaultExpr { span: (0, 0), expr: ex(0, 0, CsfKind::Str("x".to_string())) }];
    let e = normalize_meta(&mut not_object).err().unwrap();
    assert!(matches!(e, MetaError::NotObject));
    assert_eq!(e.message("a.js"), "CSF: default export must be an object in a.js");
    let mut bound_to_call = vec![
        var((0, 0), "meta", ex(0, 0, CsfKind::Arrow)),
        CsfItem::DefaultExpr { span: (0, 0), expr: ident("meta") },
    ];
    assert!(matches!(normalize_meta(&mut bound_to_call), Err(MetaError::NotObject)));
    assert_eq!(bound_to_call.len(), 2);
}

#[test]
fn resolves_docgen_from_the_original_named_export() {
    let mut items = vec![
        named_import("StoryButton", Some("Button"), "./Button"),
        CsfItem::DefaultExpr { span: (0, 0), expr: object(0, 0, vec![kv("component", ident("StoryButton"))]) },
        export_var_item((1, 2), "Primary", object(3, 4, vec![])),
    ];
    let meta = match normalize_meta(&mut items) {
        Ok(m) => m,
        Err(_) => panic!("meta expected"),
    };
    let target = resolve_docgen_target(&items, meta.name.as_str()).unwrap();
    assert_eq!(target.source, "./Button");
    assert_eq!(docs_specifier(&target.source), "docs:./Button");
    assert_eq!(target.export_name, "Button");
    assert!(docgen_enabled(Some("tsx")));
    assert!(!docgen_enabled(Some("jsx")));
    assert!(!docgen_enabled(None));
}

#[test]
fn docgen_of_a_wrapped_default_import() {
    let component = ex(
        0,
        0,
        CsfKind::Wrapped(Box::new(ident("NewIcon"))),
    );
    let items = vec![
        CsfItem::Import {
            type_only: true,
            src: Some("@storybook/react".to_string()),
            specifiers: vec![CsfImportSpec::Named { local: "NewIcon".to_string(), imported: None, type_only: false }],
        },
        CsfItem::Import {
            type_only: false,
            src: Some("./New.svg".to_string()),
            specifiers: vec![CsfImportSpec::Default { local: "NewIcon".to_string() }],
        },
        var((0, 0), "meta", object(0, 0, vec![kv("component", component)])),
        CsfItem::DefaultExpr { span: (0, 0), expr: ident("meta") },
    ];
    let target = resolve_docgen_target(&items, "meta").unwrap();
    assert_eq!(target.source, "./New.svg");
    assert_eq!(target.export_name, "default");
    assert!(matches!(&target.component.kind, CsfKind::Ident(n) if n == "NewIcon"));
}

#[test]
fn docgen_of_a_namespace_member_and_of_a_local_component() {
    let member = ex(
        0,
        0,
        CsfKind::Member {
            object: Box::new(ident("ui")),
            property: CsfMemberProp::Computed(Box::new(ex(0, 0, CsfKind::Str("Button".to_string())))),
        },
    );
    assert_eq!(component_import_reference(&member), Some(("ui".to_string(), Some("Button".to_string()))));
    let items = vec![
        CsfItem::Import {
            type_only: false,
            src: Some("./ui".to_string()),
            specifiers: vec![CsfImportSpec::Namespace { local: "ui".to_string() }],
        },
        var((0, 0), "meta", object(0, 0, vec![kv("component", member)])),
    ];
    let target = resolve_docgen_target(&items, "meta").unwrap();
    assert_eq!((target.source.as_str(), target.export_name.as_str()), ("./ui", "Button"));

    let local = vec![
        var((0, 0), "Button", ex(0, 0, CsfKind::Arrow)),
        var((0, 0), "meta", object(0, 0, vec![kv("component", ident("Button"))])),
    ];
    assert!(resolve_docgen_target(&local, "meta").is_none());
    assert!(matches!(unwrap_ts(&ex(1, 2, CsfKind::Wrapped(Box::new(ident("a"))))).kind, CsfKind::Ident(_)));
}

#[test]
fn refresh_plan_moves_exports_into_variables() {
    let items = vec![
        RefreshItem::Hoisted,
        RefreshItem::DefaultExpr,
        RefreshItem::ExportDecl { names: vec!["Primary".to_string()] },
        RefreshItem::Stmt,
        RefreshItem::ExportNamed {
            type_only: false,
            from_source: false,
            specifiers: vec![
                RefreshSpec::Named { local: Some("typeOnly".to_string()), exported: None, type_only: true },
                RefreshSpec::Other,
                RefreshSpec::Named { local: Some("local".to_string()), exported: Some("Secondary".to_string()), type_only: false },
                RefreshSpec::Named { local: None, exported: Some("str".to_string()), type_only: false },
                RefreshSpec::Named { local: Some("Third".to_string()), exported: None, type_only: false },
            ],
        },
        RefreshItem::DefaultDecl { named: true },
        RefreshItem::DefaultInterface,
        RefreshItem::ExportNamed {
            type_only: false,
            from_source: true,
            specifiers: vec![RefreshSpec::Named { local: Some("x".to_string()), exported: None, type_only: false }],
        },
    ];
    let plan = refresh_plan(&items, "$parcel$ReactRefresh$abcd");
    assert_eq!(plan.hoisted, vec![0, 7]);
    assert_eq!(
        plan.exports,
        vec![
            ("$parcel$ReactRefresh$abcd$Export0".to_string(), "default".to_string()),
            ("$parcel$ReactRefresh$abcd$Export1".to_string(), "Primary".to_string()),
            ("$parcel$ReactRefresh$abcd$Export2".to_string(), "Secondary".to_string()),
            ("$parcel$ReactRefresh$abcd$Export3".to_string(), "Third".to_string()),
            ("$parcel$ReactRefresh$abcd$Export4".to_string(), "default".to_string()),
        ]
    );
    assert_eq!(plan.export_vars.len(), 5);
    assert_eq!(
        plan.steps,
        vec![
            RefreshStep::Assign { item: 1, part: 0, var: 0 },
            RefreshStep::Keep { item: 2 },
            RefreshStep::Assign { item: 2, part: 0, var: 1 },
            RefreshStep::Keep { item: 3 },
            RefreshStep::Assign { item: 4, part: 2, var: 2 },
            RefreshStep::Assign { item: 4, part: 4, var: 3 },
            RefreshStep::Keep { item: 5 },
            RefreshStep::Assign { item: 5, part: 0, var: 4 },
            RefreshStep::Keep { item: 6 },
        ]
    );
    assert_eq!(export_var("r", 12), "r$Export12");
}

#[test]
fn story_targets_are_functions_then_arrow_initializers() {
    let items = vec![
        CsfItem::Other,
        CsfItem::Var { span: (0, 0), decls: vec![decl("Obj", Some(object(0, 0, vec![]))), decl(
            "Arrow",
            Some(ex(0, 0, CsfKind::Wrapped(Box::new(ex(0, 0, CsfKind::Arrow))))),
        )] },
        CsfItem::Fn { name: "Func".to_string(), fn_span: (1, 2) },
        export_var_item((0, 0), "Func", ex(0, 0, CsfKind::Arrow)),
    ];
    assert!(matches!(story_target(&items, "Func"), Some(StoryTarget::Function { item: 2 })));
    assert!(matches!(story_target(&items, "Arrow"), Some(StoryTarget::Init { item: 1, decl: 1 })));
    assert!(story_target(&items, "Obj").is_none());
    assert!(story_target(&items, "Missing").is_none());
    assert_eq!(find_var_init_at(&items, "Func"), Some((3, 0)));
    assert_eq!(find_function_at(&items, "Func"), Some(2));
}

#[test]
fn render_property_is_wrapped_extracted_or_kept() {
    let wrap = vec![kv("args", ident("a")), kv("render", ex(0, 0, CsfKind::Wrapped(Box::new(ident("Button")))))];
    assert!(matches!(render_action(&wrap), Some((1, RenderAction::Wrap(n))) if n == "Button"));
    let arrow = vec![kv("render", ex(0, 0, CsfKind::Arrow)), kv("render", ident("Later"))];
    assert!(matches!(render_action(&arrow), Some((0, RenderAction::Extract))));
    let method = vec![CsfProp::Method { key: Some("render".to_string()) }];
    assert!(matches!(render_action(&method), Some((0, RenderAction::Extract))));
    let call = vec![kv("render", ex(0, 0, CsfKind::Other))];
    assert!(matches!(render_action(&call), Some((0, RenderAction::Keep))));
    assert!(render_action(&vec![CsfProp::Spread, CsfProp::Other]).is_none());
}

#[test]
fn a_template_is_extracted_once_and_shared() {
    let mut state = RefreshState::new();
    assert_eq!(state.component_for("Template"), None);
    assert_eq!(state.next_component(), "Story0");
    state.record("Template".to_string(), "Story0".to_string());
    state.count_component();
    assert_eq!(state.next_component(), "Story2");
    state.record("Other".to_string(), "Story2".to_string());
    assert_eq!(state.component_for("Template"), Some("Story0".to_string()));
    assert_eq!(state.component_for("Other"), Some("Story2".to_string()));
    assert_eq!(state.component_for("Missing"), None);
    assert_eq!(state.count, 3);
}

#[test]
fn export_variables_are_all_different() {
    let items: Vec<RefreshItem> = (0..12)
        .map(|i| RefreshItem::ExportDecl { names: vec![format!("S{i}")] })
        .collect();
    let plan = refresh_plan(&items, "$r");
    let mut vars = plan.export_vars.clone();
    vars.sort();
    vars.dedup();
    assert_eq!(vars.len(), 12);
    assert_eq!(plan.export_vars[11], "$r$Export11");
}

fn doc_comment(text: &str) -> Vec<Comment> {
    vec![Comment { is_block: true, text: text.to_string() }]
}

#[test]
fn adds_docgen_and_enriches_csf_without_refresh() {
    let source = "\n      import {Button} from './Button';\n      /** Button docs. */\n      export default {component: Button} satisfies Meta<typeof Button>;\n      /** Primary docs. */\n      export const Primary = {args: {label: 'Save'}};\n    ";
    let default_stmt = span_of(source, "export default {component: Button} satisfies Meta<typeof Button>;");
    let wrapped = span_of(source, "{component: Button} satisfies Meta<typeof Button>");
    let meta_object = span_of(source, "{component: Button}");
    let primary_stmt = span_of(source, "export const Primary = {args: {label: 'Save'}};");
    let primary = span_of(source, "{args: {label: 'Save'}}");
    let args = span_of(source, "{label: 'Save'}");
    let mut items = vec![
        named_import("Button", None, "./Button"),
        CsfItem::DefaultExpr {
            span: default_stmt,
            expr: ex(
                wrapped.0,
                wrapped.1,
                CsfKind::Wrapped(Box::new(object(meta_object.0, meta_object.1, vec![kv("component", ident("Button"))]))),
            ),
        },
        export_var_item(
            primary_stmt,
            "Primary",
            object(primary.0, primary.1, vec![kv("args", object(args.0, args.1, vec![kv("label", ex(0, 0, CsfKind::Str("Save".to_string())))]))]),
        ),
    ];
    let (meta, stories) = match read_csf(&mut items) {
        Ok(p) => p,
        Err(_) => panic!("meta expected"),
    };
    // The documentation of `Button` is imported and attached.
    assert!(docgen_enabled(Some("tsx")));
    let target = resolve_docgen_target(&items, &meta.name).unwrap();
    assert_eq!(docs_specifier(&target.source), "docs:./Button");
    assert_eq!(target.export_name, "Button");
    // The story's original source is recorded.
    assert_eq!(names(&stories), vec!["Primary"]);
    let bytes = source.as_bytes().to_vec();
    let s = &stories[0];
    assert_eq!(slice_span(&bytes, 0, s.source_span.0, s.source_span.1), b"{args: {label: 'Save'}}".to_vec());
    assert_eq!(s.statement_span, primary_stmt);
    // The JSDoc in front of the meta and of the story become their descriptions.
    assert_eq!(meta.statement_span, default_stmt);
    assert_eq!(meta.object_span, meta_object);
    assert_eq!(extract_description(&doc_comment("* Button docs. ")), Some("Button docs.".to_string()));
    assert_eq!(extract_description(&doc_comment("* Primary docs. ")), Some("Primary docs.".to_string()));
}

#[test]
fn extracts_function_and_object_renders_for_refresh() {
    let mut items = vec![
        named_import("Button", None, "./Button"),
        CsfItem::DefaultExpr { span: (1, 2), expr: object(3, 4, vec![kv("component", ident("Button"))]) },
        export_var_item((5, 6), "Primary", ex(7, 8, CsfKind::Arrow)),
        export_var_item(
            (9, 10),
            "Secondary",
            object(11, 12, vec![kv("render", ex(13, 14, CsfKind::Arrow)), kv("parameters", ex(15, 16, CsfKind::Other))]),
        ),
    ];
    let (meta, stories) = match read_csf(&mut items) {
        Ok(p) => p,
        Err(_) => panic!("meta expected"),
    };
    assert_eq!(names(&stories), vec!["Primary", "Secondary"]);
    assert_eq!(stories[1].parameters_span, Some((15, 16)));
    let mut components = RefreshState::new();
    // `Primary` is an arrow: its body moves into `Story0`.
    assert!(components.component_for("Primary").is_none());
    assert!(matches!(story_target(&items, "Primary"), Some(StoryTarget::Init { .. })));
    assert_eq!(components.next_component(), "Story0");
    components.record("Primary".to_string(), "Story0".to_string());
    // `Secondary` is an object whose `render` moves into `Story1`.
    assert!(story_target(&items, "Secondary").is_none());
    let props = match find_var_init(&items, "Secondary").map(|e| &unwrap_ts(e).kind) {
        Some(CsfKind::Object(props)) => props,
        _ => panic!("object expected"),
    };
    assert!(matches!(render_action(props), Some((0, RenderAction::Extract))));
    assert_eq!(components.next_component(), "Story1");
    // The wrapper exports the default export first.
    let kinds = vec![
        RefreshItem::Hoisted,
        RefreshItem::Stmt,
        RefreshItem::DefaultExpr,
        RefreshItem::ExportDecl { names: vec!["Primary".to_string()] },
        RefreshItem::ExportDecl { names: vec!["Secondary".to_string()] },
    ];
    let plan = refresh_plan(&kinds, "$parcel$ReactRefresh$abcd");
    assert_eq!(plan.exports[0], ("$parcel$ReactRefresh$abcd$Export0".to_string(), "default".to_string()));
    assert_eq!(meta.name, "$parcel$storybook$meta");
}

#[test]
fn wraps_identifier_render_without_extracting_it() {
    let mut items = vec![
        named_import("Button", None, "./Button"),
        CsfItem::DefaultExpr { span: (1, 2), expr: object(3, 4, vec![kv("component", ident("Button"))]) },
        export_var_item((5, 6), "Primary", object(7, 8, vec![kv("render", ident("Button"))])),
    ];
    assert!(read_csf(&mut items).is_ok());
    assert!(story_target(&items, "Primary").is_none());
    let props = match find_var_init(&items, "Primary").map(|e| &unwrap_ts(e).kind) {
        Some(CsfKind::Object(props)) => props,
        _ => panic!("object expected"),
    };
    assert!(matches!(render_action(props), Some((0, RenderAction::Wrap(n))) if n == "Button"));
}

#[test]
fn transforms_typed_csf3_with_import_attributes() {
    let default_import = |local: &str, src: &str| CsfItem::Import {
        type_only: false,
        src: Some(src.to_string()),
        specifiers: vec![CsfImportSpec::Default { local: local.to_string() }],
    };
    let component = ex(0, 0, CsfKind::Wrapped(Box::new(ident("NewIcon"))));
    let mut items = vec![
        default_import("AlertIcon", "./Alert.svg"),
        named_import("FunctionComponent", None, "react"),
        named_import("IconProps", None, "./Icon"),
        named_import("iconStyle", None, "./style"),
        CsfItem::Import {
            type_only: true,
            src: Some("@storybook/react".to_string()),
            specifiers: vec![
                CsfImportSpec::Named { local: "Meta".to_string(), imported: None, type_only: false },
                CsfImportSpec::Named { local: "StoryObj".to_string(), imported: None, type_only: false },
            ],
        },
        default_import("NewIcon", "./New.svg"),
        var((0, 0), "Alert", ex(0, 0, CsfKind::Wrapped(Box::new(ident("AlertIcon"))))),
        var(
            (20, 30),
            "meta",
            object(
                21,
                29,
                vec![
                    kv("component", component),
                    kv("parameters", object(0, 0, vec![kv("layout", ex(0, 0, CsfKind::Str("centered".to_string())))])),
                    kv("title", ex(0, 0, CsfKind::Str("Icon".to_string()))),
                ],
            ),
        ),
        CsfItem::DefaultExpr { span: (31, 32), expr: ident("meta") },
        CsfItem::Other,
        export_var_item((40, 41), "Example", object(42, 43, vec![])),
        export_var_item((50, 51), "ColorAndSize", object(52, 53, vec![kv("render", ex(54, 55, CsfKind::Arrow))])),
    ];
    let (meta, stories) = match read_csf(&mut items) {
        Ok(p) => p,
        Err(_) => panic!("meta expected"),
    };
    assert_eq!(meta.name, "meta");
    assert_eq!(meta.statement_span, (20, 30));
    assert_eq!(names(&stories), vec!["Example", "ColorAndSize"]);
    let target = resolve_docgen_target(&items, "meta").unwrap();
    assert_eq!(docs_specifier(&target.source), "docs:./New.svg");
    assert_eq!(target.export_name, "default");
    assert!(matches!(&target.component.kind, CsfKind::Ident(n) if n == "NewIcon"));
}

#[test]
fn omits_docgen_for_a_locally_declared_component() {
    let mut items = vec![
        var((0, 0), "Button", ex(0, 0, CsfKind::Arrow)),
        CsfItem::DefaultExpr { span: (1, 2), expr: object(3, 4, vec![kv("component", ident("Button"))]) },
        export_var_item((5, 6), "Primary", object(7, 8, vec![])),
    ];
    let (meta, _) = match read_csf(&mut items) {
        Ok(p) => p,
        Err(_) => panic!("meta expected"),
    };
    assert!(resolve_docgen_target(&items, &meta.name).is_none());
}
