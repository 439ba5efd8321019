use ts_doc::jsdoc::{
    parse_comment, parse_jsdoc, parse_param, skip_type, split_first_token, strip_comment_prefix,
    strip_separator, is_tag_line, normalize_example, Comment, JsDocs,
};

fn v(s: &str) -> Vec<char> {
    s.chars().collect()
}

fn s(v: &Vec<char>) -> String {
    v.iter().collect()
}

#[test]
fn strips_comment_prefix() {
    assert_eq!(s(&strip_comment_prefix(&v("   * Hello"))), "Hello");
    assert_eq!(s(&strip_comment_prefix(&v("*Hello"))), "Hello");
    assert_eq!(s(&strip_comment_prefix(&v("  plain"))), "plain");
    assert_eq!(s(&strip_comment_prefix(&v(" *  two"))), " two");
}

#[test]
fn tag_lines() {
    assert!(is_tag_line(&v("  @param x")));
    assert!(!is_tag_line(&v("text @param")));
    assert!(!is_tag_line(&v("")));
}

#[test]
fn strips_separator() {
    assert_eq!(s(&strip_separator(&v("  - the value "))), "the value");
    assert_eq!(s(&strip_separator(&v("plain "))), "plain");
    assert_eq!(s(&strip_separator(&v("-\tx"))), "x");
}

#[test]
fn splits_first_token() {
    let (a, b) = split_first_token(&v("  @param {x} y"));
    assert_eq!((s(&a), s(&b)), ("@param".to_string(), "{x} y".to_string()));
    let (a, b) = split_first_token(&v("alone"));
    assert_eq!((s(&a), s(&b)), ("alone".to_string(), "".to_string()));
}

#[test]
fn skips_type_annotation() {
    assert_eq!(s(&skip_type(&v(" {string} name"))), "name");
    assert_eq!(s(&skip_type(&v("{unclosed name"))), "{unclosed name");
    assert_eq!(s(&skip_type(&v("name"))), "name");
}

#[test]
fn parses_param_bodies() {
    let (n, d) = parse_param(&v("{number} [size=3] - The size.")).unwrap();
    assert_eq!((s(&n), s(&d)), ("size".to_string(), "- The size.".to_string()));
    let (n, d) = parse_param(&v("x")).unwrap();
    assert_eq!((s(&n), s(&d)), ("x".to_string(), "".to_string()));
    assert!(parse_param(&v("{number}")).is_none());
}

#[test]
fn normalizes_examples() {
    assert_eq!(s(&normalize_example(&v("\n  <Button />\n    nested\n"))), "<Button />\n  nested");
}

#[test]
fn parses_a_full_comment() {
    let mut docs = JsDocs::new();
    let text = "*\n * Renders a button.\n * More text.\n * @param label - The label.\n * @param {boolean} [disabled] Whether disabled.\n * @returns {JSX.Element} The element.\n * @default 3\n * @private\n * @selector .btn\n * @example\n *   <Button />\n ";
    parse_comment(text, &mut docs);
    assert_eq!(docs.description.as_deref(), Some("Renders a button.\nMore text."));
    assert_eq!(docs.params.get("label").map(|s| s.as_str()), Some("The label."));
    assert_eq!(docs.params.get("disabled").map(|s| s.as_str()), Some("Whether disabled."));
    assert_eq!(docs.return_description.as_deref(), Some("The element."));
    assert_eq!(docs.default.as_deref(), Some("3"));
    assert_eq!(docs.access.as_deref(), Some("private"));
    assert_eq!(docs.selector.as_deref(), Some(".btn"));
    assert_eq!(docs.examples, vec!["<Button />".to_string()]);
    assert!(!docs.is_empty());
}

#[test]
fn examples_are_not_repeated() {
    let mut docs = JsDocs::new();
    parse_comment("*\n * @example a\n * @example a\n * @example b", &mut docs);
    assert_eq!(docs.examples, vec!["a".to_string(), "b".to_string()]);
    assert!(docs.description.is_none());
}

#[test]
fn access_tags() {
    let mut docs = JsDocs::new();
    parse_comment("* @access protected extra", &mut docs);
    assert_eq!(docs.access.as_deref(), Some("protected"));
    parse_comment("* @public", &mut docs);
    assert_eq!(docs.access.as_deref(), Some("public"));
    parse_comment("* @deprecated", &mut docs);
    assert_eq!(docs.access.as_deref(), Some("private"));
}

#[test]
fn only_jsdoc_comments_are_parsed() {
    let comments = vec![
        Comment { is_block: false, text: "* line comment".to_string() },
        Comment { is_block: true, text: " block without star".to_string() },
        Comment { is_block: true, text: "* The docs.".to_string() },
    ];
    let docs = parse_jsdoc(&comments);
    assert_eq!(docs.description.as_deref(), Some("The docs."));
    assert!(parse_jsdoc(&vec![]).is_empty());
}

#[test]
fn splits_at_a_wide_whitespace_character() {
    let (a, b) = split_first_token(&v("  @param x y"));
    assert_eq!((s(&a), s(&b)), ("@param".to_string(), "x y".to_string()));
    let (a, b) = split_first_token(&v("@param\u{3000}x y"));
    assert_eq!((s(&a), s(&b)), ("@param".to_string(), "x y".to_string()));
    let mut docs = JsDocs::new();
    parse_comment("* @param\u{3000}x the x", &mut docs);
    assert_eq!(docs.params.get("x").map(|s| s.as_str()), Some("the x"));
}
