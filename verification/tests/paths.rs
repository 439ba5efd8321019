use ts_doc::paths::{components, find_project_root, is_source_file, join_path, normalize, parent, project_root_candidates, same_path, short_path};

#[test]
fn short_path_keeps_from_packages() {
    assert_eq!(short_path("/home/me/work/packages/ui/src/Button.tsx"), "packages/ui/src/Button.tsx");
}

#[test]
fn short_path_uses_first_packages_component() {
    assert_eq!(short_path("/x/packages/a/packages/b.ts"), "packages/a/packages/b.ts");
}

#[test]
fn short_path_without_packages_is_unchanged() {
    assert_eq!(short_path("/home/me/src/a.ts"), "/home/me/src/a.ts");
    assert_eq!(short_path("a//b/"), "a//b/");
}

#[test]
fn short_path_of_packages_alone() {
    assert_eq!(short_path("/packages"), "packages");
}

#[test]
fn components_follow_std() {
    assert_eq!(components("/a//b/./c/"), vec!["/", "a", "b", "c"]);
    assert_eq!(components("./a/../b"), vec![".", "a", "..", "b"]);
    assert_eq!(components(""), Vec::<String>::new());
}

#[test]
fn source_files_by_extension() {
    for p in ["a.ts", "a.tsx", "a.mts", "a.cts", "a.js", "a.jsx", "a.mjs", "a.cjs", "dir/a.d.ts"] {
        assert!(is_source_file(p), "{}", p);
    }
    for p in ["a.json", ".ts", "a", "a.", "dir/..", "/", "a.TS"] {
        assert!(!is_source_file(p), "{}", p);
    }
}

#[test]
fn normalize_resolves_dots() {
    assert_eq!(normalize("/a/./b/../c"), "/a/c");
    assert_eq!(normalize("../a"), "a");
    assert_eq!(normalize("/.."), "/");
    assert_eq!(normalize("a/b/../../.."), "");
    assert_eq!(normalize("/test/src/./component"), "/test/src/component");
}

#[test]
fn project_root_is_nearest_with_node_modules() {
    assert_eq!(project_root_candidates("/a/b/c.ts"), vec!["/a/b", "/a", "/"]);
    assert_eq!(find_project_root("/a/b/c.ts", &vec![false, true, true]), "/a");
    assert_eq!(find_project_root("/a/b/c.ts", &vec![false, false, false]), "/a/b");
    assert_eq!(find_project_root("/a/b/c.ts", &vec![]), "/a/b");
}

#[test]
fn project_root_of_relative_and_root_paths() {
    assert_eq!(project_root_candidates("c.ts"), vec![""]);
    assert_eq!(find_project_root("c.ts", &vec![false]), "");
    assert_eq!(project_root_candidates("/"), Vec::<String>::new());
    assert_eq!(find_project_root("/", &vec![]), ".");
}

#[test]
fn path_equality_is_by_components() {
    assert!(same_path("/a//b/", "/a/b"));
    assert!(same_path("a/./b", "a/b"));
    assert!(!same_path("a/b", "/a/b"));
    assert!(!same_path("a/../b", "b"));
}

#[test]
fn parent_and_join() {
    assert_eq!(parent("/test/src/index.tsx"), Some("/test/src".to_string()));
    assert_eq!(parent("index.tsx"), Some("".to_string()));
    assert_eq!(parent("/"), None);
    assert_eq!(join_path("/test/src", "./component"), "/test/src/./component");
    assert_eq!(join_path("", "x"), "x");
    assert_eq!(join_path("/a/", "b"), "/a/b");
    assert_eq!(join_path("/a", "/b"), "/b");
}

#[test]
fn normalizing_twice_changes_nothing() {
    for p in ["/a/./b/../c/", "./x/../../y", "a//b/.", "..", "/", "", "/..", ".hidden/./f.ts"] {
        let once = normalize(p);
        assert_eq!(normalize(&once), once, "{p}");
    }
    assert_eq!(normalize("/a/./b/../c/"), "/a/c");
    assert_eq!(normalize("./x/../../y"), "y");
}

#[test]
fn short_path_does_not_depend_on_the_checkout() {
    assert_eq!(short_path("/home/a/repo/packages/ui/src/Button.tsx"), short_path("/ci/w/packages/ui/src/Button.tsx"));
    assert_eq!(short_path("/ci/w/packages/ui/src/Button.tsx"), "packages/ui/src/Button.tsx");
}

#[test]
fn short_path_of_joined_paths_ignores_the_base() {
    let a = join_path(&join_path("/home/a/repo", "packages"), "ui/./src/Button.tsx");
    let b = join_path(&join_path("ci/", "packages"), "ui/./src/Button.tsx");
    assert_eq!(short_path(&a), short_path(&b));
    assert_eq!(short_path(&a), "packages/ui/src/Button.tsx");
    assert_eq!(short_path("/home/a/repo"), "/home/a/repo");
}

#[test]
fn normalized_paths_have_no_dot_components() {
    let n = normalize("/a/./b/../c/./d/..");
    assert_eq!(n, "/a/c");
    assert!(n.split('/').all(|c| c != "." && c != ".."));
}
