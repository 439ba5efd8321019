use ts_doc::jsdoc::Comment;
use ts_doc::storybook::{
    decimal, docs_specifier, extract_description, filter_stories, jsdoc_description, md5_hex, meta_name, refresh_name,
    slice_span, story_component_name, syntax_for_extension, SourceSyntax, Story, StoryFilter,
};

fn story(name: &str) -> Story {
    Story {
        export_name: name.to_string(),
        target_name: name.to_string(),
        statement_span: (0, 0),
        source_span: (0, 0),
        args_span: None,
        parameters_span: None,
    }
}

fn names(stories: &Vec<Story>) -> Vec<String> {
    stories.iter().map(|s| s.export_name.clone()).collect()
}

#[test]
fn md5_hex_known_values() {
    assert_eq!(md5_hex(b""), "d41d8cd98f00b204e9800998ecf8427e");
    assert_eq!(md5_hex(b"abc"), "900150983cd24fb0d6963f7d28e17f72");
}

#[test]
fn refresh_name_uses_path_hash() {
    let path = b"/src/Button.stories.tsx";
    let hash = md5_hex(path);
    assert_eq!(refresh_name(path, false), Some(format!("$parcel$ReactRefresh${}", &hash[28..])));
    assert_eq!(refresh_name(path, true), None);
}

#[test]
fn jsdoc_description_cleans_stars() {
    let c = Comment { is_block: true, text: "*\n * Primary docs.\n * Second line.\n ".to_string() };
    assert_eq!(jsdoc_description(&c), Some("Primary docs.\nSecond line.".to_string()));
}

#[test]
fn jsdoc_description_ignores_other_comments() {
    assert_eq!(jsdoc_description(&Comment { is_block: false, text: "* line".to_string() }), None);
    assert_eq!(jsdoc_description(&Comment { is_block: true, text: " plain".to_string() }), None);
    assert_eq!(jsdoc_description(&Comment { is_block: true, text: "*\n *\n ".to_string() }), None);
}

#[test]
fn extract_description_joins_jsdoc_comments() {
    let cs = vec![
        Comment { is_block: true, text: "* First.".to_string() },
        Comment { is_block: false, text: " not docs".to_string() },
        Comment { is_block: true, text: "** Second.".to_string() },
    ];
    assert_eq!(extract_description(&cs), Some("First.\nSecond.".to_string()));
    assert_eq!(extract_description(&vec![]), None);
}

#[test]
fn filter_stories_by_lists() {
    let mut stories = vec![story("Primary"), story("_Hidden"), story("Secondary"), story("Other")];
    let filter = StoryFilter {
        includes: Some(vec!["Primary".to_string(), "Secondary".to_string(), "_Hidden".to_string()]),
        excludes: Some(vec!["Secondary".to_string()]),
    };
    filter_stories(Some(&filter), &mut stories);
    assert_eq!(names(&stories), vec!["Primary"]);
}

#[test]
fn filter_stories_without_lists_drops_underscored() {
    let mut stories = vec![story("A"), story("_b"), story("C")];
    filter_stories(Some(&StoryFilter { includes: None, excludes: None }), &mut stories);
    assert_eq!(names(&stories), vec!["A", "C"]);
    let mut all = vec![story("A"), story("_b")];
    filter_stories(None, &mut all);
    assert_eq!(names(&all), vec!["A", "_b"]);
}

#[test]
fn slice_span_in_bytes() {
    let src = b"hello world".to_vec();
    assert_eq!(slice_span(&src, 10, 16, 21), b"world".to_vec());
    assert_eq!(slice_span(&src, 10, 5, 15), b"hello".to_vec());
    assert_eq!(slice_span(&src, 0, 3, 40), Vec::<u8>::new());
    let utf = "aé".as_bytes().to_vec();
    assert_eq!(slice_span(&utf, 0, 0, 2), Vec::<u8>::new());
    assert_eq!(slice_span(&utf, 0, 1, 3), "é".as_bytes().to_vec());
}

#[test]
fn names_introduced_by_the_transform() {
    assert_eq!(decimal(0), "0");
    assert_eq!(decimal(1234), "1234");
    assert_eq!(meta_name(0), "$parcel$storybook$meta");
    assert_eq!(meta_name(2), "$parcel$storybook$meta2");
    assert_eq!(story_component_name(0), "Story0");
    assert_eq!(story_component_name(11), "Story11");
    assert_eq!(docs_specifier("./Button"), "docs:./Button");
}

#[test]
fn syntax_by_extension() {
    assert_eq!(syntax_for_extension(Some("ts")), SourceSyntax::Typescript { tsx: false });
    assert_eq!(syntax_for_extension(Some("tsx")), SourceSyntax::Typescript { tsx: true });
    assert_eq!(syntax_for_extension(Some("jsx")), SourceSyntax::Es { jsx: true });
    assert_eq!(syntax_for_extension(Some("js")), SourceSyntax::Es { jsx: false });
    assert_eq!(syntax_for_extension(None), SourceSyntax::Es { jsx: false });
}

#[test]
fn filtering_twice_keeps_what_filtering_once_kept() {
    let filter = StoryFilter {
        includes: Some(vec!["A".to_string(), "_B".to_string(), "C".to_string()]),
        excludes: Some(vec!["C".to_string()]),
    };
    let mut stories: Vec<Story> = ["A", "_B", "C", "D"].iter().map(|n| story(n)).collect();
    filter_stories(Some(&filter), &mut stories);
    let once = names(&stories);
    filter_stories(Some(&filter), &mut stories);
    assert_eq!(names(&stories), once);
    assert_eq!(once, vec!["A"]);
}
