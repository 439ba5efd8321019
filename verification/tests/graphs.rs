use ts_doc::fs_graph::{accepts_resolved, BuildRequest, FsBuilder};
use ts_doc::mock::MockBundleGraph;
use ts_doc::{BundleGraph, Type, API};

fn api_with_deps(deps: &[&str], export_all: &[&str]) -> API {
    let mut api = API::new();
    for d in deps {
        api.dependencies.insert(d.to_string());
    }
    for e in export_all {
        api.export_all.push(e.to_string());
    }
    let n = api.add_type(Type::Number { value: None });
    api.add_export("n".to_string(), n);
    api
}

fn mock(paths: &[&str]) -> MockBundleGraph {
    let sources = paths.iter().map(|p| (p.to_string(), api_with_deps(&[], &[]))).collect();
    MockBundleGraph::from_apis(sources, paths[0])
}

#[test]
fn mock_resolves_with_extension_probing() {
    let g = mock(&["/test/src/index.tsx", "/test/src/a.ts", "/test/src/b.d.ts", "/test/src/c/index.tsx", "/test/lib.js"]);
    assert_eq!(g.entry(), 0);
    assert_eq!(g.resolve(0, "./a"), Some(1));
    assert_eq!(g.resolve(0, "./a.ts"), Some(1));
    assert_eq!(g.resolve(0, "./b"), Some(2));
    assert_eq!(g.resolve(0, "./c"), Some(3));
    assert_eq!(g.resolve(0, "../lib"), Some(4));
    assert_eq!(g.resolve(1, "./index"), Some(0));
    assert_eq!(g.resolve(0, "./missing"), None);
}

#[test]
fn mock_bare_specifiers_need_an_override() {
    let g = mock(&["/test/src/index.tsx", "/node_modules/react/index.d.ts"]);
    assert_eq!(g.resolve(0, "react"), None);
    let g = g.with_override("react", "/node_modules/react/index.d.ts");
    assert_eq!(g.resolve(0, "react"), Some(1));
    let g = g.with_override("react", "/elsewhere.ts");
    assert_eq!(g.resolve(0, "react"), None);
}

#[test]
fn mock_entry_is_matched_by_components() {
    let sources = vec![
        ("/a/x.ts".to_string(), API::new()),
        ("/a/y.ts".to_string(), API::new()),
    ];
    let g = MockBundleGraph::from_apis(sources, "/a//y.ts");
    assert_eq!(g.entry(), 1);
}

#[test]
fn resolved_paths_outside_node_modules_only() {
    assert!(accepts_resolved("/repo/packages/ui/src/Button.tsx"));
    assert!(!accepts_resolved("/repo/node_modules/react/index.js"));
    assert!(!accepts_resolved("/repo/src/data.json"));
}

#[test]
fn builder_resolves_every_specifier_once() {
    let mut b = FsBuilder::new("/src/index.ts".to_string(), api_with_deps(&["./a", "react"], &["./a"]));
    let mut asked = Vec::new();
    loop {
        match b.request() {
            BuildRequest::Done => break,
            BuildRequest::Resolve { specifier, from } => {
                asked.push((from.clone(), specifier.clone()));
                let target = match specifier.as_str() {
                    "./a" => {
                        let path = "/src/a.ts";
                        Some(match b.lookup(path) {
                            Some(id) => id,
                            None => b.add_module(path.to_string(), api_with_deps(&["./index"], &[])),
                        })
                    }
                    "./index" => b.lookup("/src/index.ts"),
                    _ => None,
                };
                b.answer(target);
            }
        }
    }
    assert_eq!(
        asked,
        vec![
            ("/src/index.ts".to_string(), "./a".to_string()),
            ("/src/index.ts".to_string(), "react".to_string()),
            ("/src/a.ts".to_string(), "./index".to_string()),
        ]
    );
    let g = b.finish();
    assert_eq!(g.len(), 2);
    assert_eq!(g.entry(), 0);
    assert_eq!(g.resolve(0, "./a"), Some(1));
    assert_eq!(g.resolve(0, "react"), None);
    assert_eq!(g.resolve(1, "./index"), Some(0));
    assert_eq!(g.resolve(1, "./other"), None);
}

#[test]
fn answers_outside_the_workspace_sources_record_nothing() {
    let mut b = FsBuilder::new("/src/index.ts".to_string(), api_with_deps(&["react"], &[]));
    match b.request() {
        BuildRequest::Resolve { specifier, .. } => assert_eq!(specifier, "react"),
        BuildRequest::Done => panic!("a request"),
    }
    // A module under node_modules is never a resolution target.
    let id = b.add_module("/node_modules/react/index.ts".to_string(), api_with_deps(&[], &[]));
    b.answer(Some(id));
    assert!(matches!(b.request(), BuildRequest::Done));
    let g = b.finish();
    assert_eq!(g.resolve(0, "react"), None);
}
