//! JSDoc comment parsing. The description is everything up to the first line
//! that starts with a block tag (`@x`); each tag then takes its own line plus
//! the continuation lines that follow it.
use vstd::prelude::*;
use indexmap::IndexMap;
use crate::indexed::{str_map_entries, entries_insert, str_map_new, str_map_len, str_map_insert, str_map_clone};
use crate::text::{trim_end_vec, trim_start_vec, strip_char_vec, starts_with, trim_vec, slice_of, trim_start_blank_vec, find_ws, find_char, find_other, back_char, lines_vec, join_vec, chars_of, chars_eq, string_of};
use crate::text::{trim, trim_start, trim_end, trim_start_blank, starts_with_char, strip_char, find_ws_from, find_char_from, find_other_from, back_char_from, lines, join};

verus! {

/// The documentation gathered from the JSDoc comments in front of a declaration.
pub struct JsDocs {
    pub description: Option<String>,
    pub default: Option<String>,
    pub access: Option<String>,
    pub return_description: Option<String>,
    /// Parameter descriptions keyed by parameter name (the JSDoc `@param`).
    pub params: IndexMap<String, String>,
    pub selector: Option<String>,
    pub examples: Vec<String>,
}

/// A comment as it stands in front of a declaration.
pub struct Comment {
    /// Whether this is a block comment (`/* ... */`) rather than a line comment.
    pub is_block: bool,
    /// The text between the comment delimiters.
    pub text: String,
}

/// The content of a [`JsDocs`], as character sequences.
pub struct DocsView {
    pub description: Option<Seq<char>>,
    pub default: Option<Seq<char>>,
    pub access: Option<Seq<char>>,
    pub return_description: Option<Seq<char>>,
    pub params: Seq<(Seq<char>, Seq<char>)>,
    pub selector: Option<Seq<char>>,
    pub examples: Seq<Seq<char>>,
}

pub open spec fn opt_view(o: Option<String>) -> Option<Seq<char>> {
    match o {
        Some(s) => Some(s@),
        None => None,
    }
}

impl View for JsDocs {
    type V = DocsView;

    open spec fn view(&self) -> DocsView {
        DocsView {
            description: opt_view(self.description),
            default: opt_view(self.default),
            access: opt_view(self.access),
            return_description: opt_view(self.return_description),
            params: str_map_entries(self.params),
            selector: opt_view(self.selector),
            examples: self.examples@.map_values(|s: String| s@),
        }
    }
}

/// A doc block with nothing in it.
pub open spec fn empty_docs() -> DocsView {
    DocsView {
        description: None,
        default: None,
        access: None,
        return_description: None,
        params: Seq::empty(),
        selector: None,
        examples: Seq::empty(),
    }
}

/// Whether a doc block carries no content.
pub open spec fn docs_empty(d: DocsView) -> bool {
    &&& d.description is None
    &&& d.default is None
    &&& d.access is None
    &&& d.return_description is None
    &&& d.params.len() == 0
    &&& d.selector is None
    &&& d.examples.len() == 0
}

// ---------------------------------------------------------------------------
// Specification of the parser.

/// A line of the comment with its leading ` * ` prefix removed.
pub open spec fn strip_comment_prefix_s(line: Seq<char>) -> Seq<char> {
    strip_char(strip_char(trim_start(line), '*'), ' ')
}

/// Whether a line starts (after indentation) with a block tag.
pub open spec fn is_tag_line_s(line: Seq<char>) -> bool {
    starts_with_char(trim_start(line), '@')
}

/// A description trimmed, with a leading `-` separator (`@param x - desc`) dropped.
pub open spec fn strip_separator_s(desc: Seq<char>) -> Seq<char> {
    let d = trim(desc);
    if starts_with_char(d, '-') {
        trim_start_blank(d.drop_first())
    } else {
        d
    }
}

/// The index of the first whitespace character of `s`, or its length.
pub open spec fn first_ws(s: Seq<char>) -> int {
    find_ws_from(s, 0)
}

/// `s` without leading whitespace, split at its first whitespace character
/// into the token before it and the text after it.
pub open spec fn split_first_token_s(s: Seq<char>) -> (Seq<char>, Seq<char>) {
    let t = trim_start(s);
    let i = first_ws(t);
    if i < t.len() {
        (t.take(i), t.skip(i + 1))
    } else {
        (t, Seq::empty())
    }
}

/// `s` without a leading `{type}` annotation.
pub open spec fn skip_type_s(s: Seq<char>) -> Seq<char> {
    let t = trim_start(s);
    let e = find_char_from(t, 0, '}');
    if starts_with_char(t, '{') && e < t.len() {
        trim_start(t.skip(e + 1))
    } else {
        t
    }
}

/// A name without leading `[`s and trailing `]`s, up to its first `=`.
pub open spec fn param_name_s(name: Seq<char>) -> Seq<char> {
    let a = name.skip(find_other_from(name, 0, '['));
    let b = a.take(back_char_from(a, a.len() as int, ']'));
    b.take(find_char_from(b, 0, '='))
}

/// The name and description of a `@param` body (with an optional `{type}`
/// and `[name]` / `[name=default]` syntax), if it names anything.
pub open spec fn parse_param_s(rest: Seq<char>) -> Option<(Seq<char>, Seq<char>)> {
    let (name, desc) = split_first_token_s(skip_type_s(rest));
    if name.len() == 0 {
        None
    } else {
        Some((param_name_s(name), desc))
    }
}

/// A line of an example with a two-space indent removed.
pub open spec fn unindent_s(line: Seq<char>) -> Seq<char> {
    if line.len() >= 2 && line[0] == ' ' && line[1] == ' ' {
        line.skip(2)
    } else {
        line
    }
}

/// An `@example` body: each line without its two-space indent, trimmed as a whole.
pub open spec fn normalize_example_s(text: Seq<char>) -> Seq<char> {
    trim(join(lines(text).map_values(|l: Seq<char>| unindent_s(l)), seq!['\n']))
}

pub open spec fn is_param_tag(tag: Seq<char>) -> bool {
    tag == "@param"@ || tag == "@arg"@ || tag == "@argument"@
}

/// `d` with the information of one tag block added.
pub open spec fn parse_tag_s(block: Seq<char>, d: DocsView) -> DocsView {
    let (tag, rest0) = split_first_token_s(trim_start(block));
    let rest = trim_start_blank(rest0);
    if is_param_tag(tag) {
        match parse_param_s(rest) {
            Some((name, desc)) => {
                let desc = strip_separator_s(desc);
                if desc.len() > 0 {
                    DocsView { params: entries_insert(d.params, name, desc), ..d }
                } else {
                    d
                }
            },
            None => d,
        }
    } else if tag == "@returns"@ || tag == "@return"@ {
        let desc = strip_separator_s(skip_type_s(rest));
        if desc.len() > 0 { DocsView { return_description: Some(desc), ..d } } else { d }
    } else if tag == "@default"@ {
        let v = trim(rest);
        if v.len() > 0 { DocsView { default: Some(v), ..d } } else { d }
    } else if tag == "@access"@ {
        let v = split_first_token_s(rest).0;
        if v.len() > 0 { DocsView { access: Some(v), ..d } } else { d }
    } else if tag == "@private"@ || tag == "@deprecated"@ {
        DocsView { access: Some("private"@), ..d }
    } else if tag == "@public"@ {
        DocsView { access: Some("public"@), ..d }
    } else if tag == "@protected"@ {
        DocsView { access: Some("protected"@), ..d }
    } else if tag == "@selector"@ {
        let v = trim(rest);
        if v.len() > 0 { DocsView { selector: Some(v), ..d } } else { d }
    } else if tag == "@example"@ {
        let ex = normalize_example_s(rest);
        if ex.len() > 0 && !d.examples.contains(ex) {
            DocsView { examples: d.examples.push(ex), ..d }
        } else {
            d
        }
    } else {
        d
    }
}

/// Splitting a block that starts with a word `t`, a space and `x` gives `t`
/// and `x`.
proof fn lemma_split_word(t: Seq<char>, x: Seq<char>)
    requires
        t.len() > 0,
        forall|i: int| 0 <= i < t.len() ==> !crate::text::is_ws(#[trigger] t[i]),
    ensures
        trim_start(t + seq![' '] + x) == t + seq![' '] + x,
        split_first_token_s(t + seq![' '] + x) == (t, x),
{
    let b = t + seq![' '] + x;
    assert(b[0] == t[0]);
    assert(crate::text::skip_ws_from(b, 0) == 0);
    assert(b.skip(0) =~= b);
    lemma_find_ws_word(t, x, 0);
    assert(b.take(t.len() as int) =~= t);
    assert(b.skip(t.len() as int + 1) =~= x);
}

proof fn lemma_find_ws_word(t: Seq<char>, x: Seq<char>, i: int)
    requires
        0 <= i <= t.len(),
        forall|k: int| 0 <= k < t.len() ==> !crate::text::is_ws(#[trigger] t[k]),
    ensures
        find_ws_from(t + seq![' '] + x, i) == t.len(),
    decreases t.len() - i,
{
    let b = t + seq![' '] + x;
    if i < t.len() {
        assert(b[i] == t[i]);
        lemma_find_ws_word(t, x, i + 1);
    } else {
        assert(b[i] == ' ');
    }
}

/// A word (no whitespace, not starting with `{` or `-`) is its own
/// description: no blanks, type or separator to drop.
proof fn lemma_plain_word(w: Seq<char>)
    requires
        w.len() > 0,
        forall|i: int| 0 <= i < w.len() ==> !crate::text::is_ws(#[trigger] w[i]),
        w[0] != '{',
        w[0] != '-',
    ensures
        trim_start_blank(w) == w,
        strip_separator_s(skip_type_s(w)) == w,
{
    assert(crate::text::skip_blank_from(w, 0) == 0);
    assert(crate::text::skip_ws_from(w, 0) == 0);
    assert(w.skip(0) =~= w);
    assert(trim_start(w) == w);
    assert(skip_type_s(w) == w);
    assert(crate::text::back_ws_from(w, w.len() as int) == w.len());
    assert(w.take(w.len() as int) =~= w);
    assert(trim(w) == w);
}

/// Law: `@return` is another spelling of `@returns`: a block with either tag
/// gives the same docs, and a `@returns` block with a plain word sets the
/// return description to that word and changes nothing else.
pub proof fn law_return_tags(x: Seq<char>, d: DocsView)
    ensures
        parse_tag_s("@return"@ + seq![' '] + x, d) == parse_tag_s("@returns"@ + seq![' '] + x, d),
        (x.len() > 0 && (forall|i: int| 0 <= i < x.len() ==> !crate::text::is_ws(#[trigger] x[i])) && x[0] != '{' && x[0]
            != '-') ==> parse_tag_s("@returns"@ + seq![' '] + x, d) == (DocsView { return_description: Some(x), ..d }),
{
    reveal_strlit("@return");
    reveal_strlit("@returns");
    reveal_strlit("@param");
    reveal_strlit("@arg");
    reveal_strlit("@argument");
    let r1 = "@return"@;
    let r2 = "@returns"@;
    assert forall|i: int| 0 <= i < r1.len() implies !crate::text::is_ws(#[trigger] r1[i]) by {}
    assert forall|i: int| 0 <= i < r2.len() implies !crate::text::is_ws(#[trigger] r2[i]) by {}
    lemma_split_word(r1, x);
    lemma_split_word(r2, x);
    assert(!is_param_tag(r1));
    assert(!is_param_tag(r2));
    if x.len() > 0 && (forall|i: int| 0 <= i < x.len() ==> !crate::text::is_ws(#[trigger] x[i])) && x[0] != '{' && x[0] != '-' {
        lemma_plain_word(x);
    }
}

/// The lines of a comment without their ` * ` prefixes.
pub open spec fn comment_lines(text: Seq<char>) -> Seq<Seq<char>> {
    lines(text).map_values(|l: Seq<char>| strip_comment_prefix_s(l))
}

/// The index of the first tag line at or after `i`, or the number of lines.
pub open spec fn next_tag(ls: Seq<Seq<char>>, i: int) -> int
    decreases ls.len() - i,
{
    if i < 0 || i >= ls.len() {
        ls.len() as int
    } else if is_tag_line_s(ls[i]) {
        i
    } else {
        next_tag(ls, i + 1)
    }
}

/// Lines `lo..hi`, each without trailing whitespace, joined by newlines.
pub open spec fn joined_lines(ls: Seq<Seq<char>>, lo: int, hi: int) -> Seq<char> {
    join(ls.subrange(lo, hi).map_values(|l: Seq<char>| trim_end(l)), seq!['\n'])
}

/// The tag block that starts at line `i`.
pub open spec fn block_at(ls: Seq<Seq<char>>, i: int) -> Seq<char> {
    joined_lines(ls, i, next_tag(ls, i + 1))
}

/// `d` with every tag block from line `i` on added in order.
pub open spec fn apply_blocks(ls: Seq<Seq<char>>, i: int, d: DocsView) -> DocsView
    decreases ls.len() - i,
    via apply_blocks_decreases
{
    if i < 0 || i >= ls.len() {
        d
    } else {
        apply_blocks(ls, next_tag(ls, i + 1), parse_tag_s(block_at(ls, i), d))
    }
}

pub proof fn lemma_next_tag_bounds(ls: Seq<Seq<char>>, i: int)
    requires
        0 <= i <= ls.len(),
    ensures
        i <= next_tag(ls, i) <= ls.len(),
        next_tag(ls, i) < ls.len() ==> is_tag_line_s(ls[next_tag(ls, i)]),
        forall|k: int| i <= k < next_tag(ls, i) ==> !is_tag_line_s(#[trigger] ls[k]),
    decreases ls.len() - i,
{
    if i < ls.len() && !is_tag_line_s(ls[i]) {
        lemma_next_tag_bounds(ls, i + 1);
    }
}

#[via_fn]
proof fn apply_blocks_decreases(ls: Seq<Seq<char>>, i: int, d: DocsView) {
    if 0 <= i < ls.len() {
        lemma_next_tag_bounds(ls, i + 1);
    }
}

/// `d` with the content of one JSDoc comment body added: its description (if
/// not blank) and then each of its tags.
pub open spec fn parse_comment_s(text: Seq<char>, d: DocsView) -> DocsView {
    let ls = comment_lines(text);
    let k = next_tag(ls, 0);
    let desc = trim(joined_lines(ls, 0, k));
    let d1 = if desc.len() > 0 { DocsView { description: Some(desc), ..d } } else { d };
    apply_blocks(ls, k, d1)
}

/// Whether a comment is a JSDoc comment: a block comment whose text starts with `*`.
pub open spec fn is_jsdoc(c: Comment) -> bool {
    c.is_block && starts_with_char(c.text@, '*')
}

/// `d` with every JSDoc comment among `cs` added in order.
pub open spec fn parse_comments_s(cs: Seq<Comment>, d: DocsView) -> DocsView
    decreases cs.len(),
{
    if cs.len() == 0 {
        d
    } else {
        let d1 = parse_comments_s(cs.drop_last(), d);
        if is_jsdoc(cs.last()) { parse_comment_s(cs.last().text@, d1) } else { d1 }
    }
}

// ---------------------------------------------------------------------------
// The parser.

/// Strips a leading JSDoc comment prefix (` * `) from a single line.
pub fn strip_comment_prefix(line: &Vec<char>) -> (r: Vec<char>)
    ensures
        r@ == strip_comment_prefix_s(line@),
{
    let a = trim_start_vec(line);
    let b = strip_char_vec(&a, '*');
    strip_char_vec(&b, ' ')
}

/// Whether a line starts (after indentation) with a block tag.
pub fn is_tag_line(line: &Vec<char>) -> (r: bool)
    ensures
        r == is_tag_line_s(line@),
{
    let t = trim_start_vec(line);
    starts_with(&t, '@')
}

/// Trims a description and drops a leading `-` separator (`@param x - desc`).
pub fn strip_separator(desc: &Vec<char>) -> (r: Vec<char>)
    ensures
        r@ == strip_separator_s(desc@),
{
    let d = trim_vec(desc);
    if starts_with(&d, '-') {
        let rest = slice_of(&d, 1, d.len());
        proof {
            assert(rest@ == d@.drop_first());
        }
        trim_start_blank_vec(&rest)
    } else {
        d
    }
}

/// Splits off the first whitespace-delimited token, returning `(token, rest)`.
pub fn split_first_token(s: &Vec<char>) -> (r: (Vec<char>, Vec<char>))
    ensures
        (r.0@, r.1@) == split_first_token_s(s@),
{
    let t = trim_start_vec(s);
    let i = find_ws(&t);
    if i < t.len() {
        (slice_of(&t, 0, i), slice_of(&t, i + 1, t.len()))
    } else {
        proof {
            assert(t@.take(t@.len() as int) == t@);
        }
        (t, Vec::new())
    }
}

/// Skips a leading `{type}` annotation, returning the remainder.
pub fn skip_type(s: &Vec<char>) -> (r: Vec<char>)
    ensures
        r@ == skip_type_s(s@),
{
    let t = trim_start_vec(s);
    let e = find_char(&t, '}');
    if starts_with(&t, '{') && e < t.len() {
        let rest = slice_of(&t, e + 1, t.len());
        trim_start_vec(&rest)
    } else {
        t
    }
}

/// A `@param` name without `[`/`]` brackets and without a `=default` part.
pub fn param_name(name: &Vec<char>) -> (r: Vec<char>)
    ensures
        r@ == param_name_s(name@),
{
    let i = find_other(name, '[');
    let a = slice_of(name, i, name.len());
    let j = back_char(&a, ']');
    let b = slice_of(&a, 0, j);
    let k = find_char(&b, '=');
    slice_of(&b, 0, k)
}

/// Parses a `@param` body into `(name, description)`, tolerating an optional
/// `{type}` and `[name]` / `[name=default]` bracket syntax.
pub fn parse_param(rest: &Vec<char>) -> (r: Option<(Vec<char>, Vec<char>)>)
    ensures
        match r {
            Some((n, d)) => parse_param_s(rest@) == Some((n@, d@)),
            None => parse_param_s(rest@) is None,
        },
{
    let r = skip_type(rest);
    let (name, desc) = split_first_token(&r);
    if name.len() == 0 {
        return None;
    }
    Some((param_name(&name), desc))
}

/// Normalizes an `@example` body: drops a leading two-space indent per line
/// and trims.
pub fn normalize_example(text: &Vec<char>) -> (r: Vec<char>)
    ensures
        r@ == normalize_example_s(text@),
{
    let ls = lines_vec(text);
    let mut out: Vec<Vec<char>> = Vec::new();
    let mut k: usize = 0;
    while k < ls.len()
        invariant
            k <= ls.len(),
            ls@.len() == lines(text@).len(),
            forall|m: int| 0 <= m < ls@.len() ==> #[trigger] ls@[m]@ == lines(text@)[m],
            out@.len() == k,
            forall|m: int| 0 <= m < k ==> #[trigger] out@[m]@ == unindent_s(lines(text@)[m]),
        decreases ls.len() - k,
    {
        let line = &ls[k];
        let u = if line.len() >= 2 && line[0] == ' ' && line[1] == ' ' {
            slice_of(line, 2, line.len())
        } else {
            slice_of(line, 0, line.len())
        };
        proof {
            assert(line@.subrange(0, line@.len() as int) == line@);
        }
        out.push(u);
        k = k + 1;
    }
    proof {
        assert(out@.map_values(|v: Vec<char>| v@) =~= lines(text@).map_values(|l: Seq<char>| unindent_s(l)));
    }
    let joined = join_vec(&out, '\n');
    trim_vec(&joined)
}

/// Whether `v` is one of `items`.
fn contains_chars(items: &Vec<String>, v: &Vec<char>) -> (r: bool)
    ensures
        r == items@.map_values(|s: String| s@).contains(v@),
{
    let ghost iv = items@.map_values(|s: String| s@);
    let mut k: usize = 0;
    while k < items.len()
        invariant
            k <= items.len(),
            iv == items@.map_values(|s: String| s@),
            forall|m: int| 0 <= m < k ==> iv[m] != v@,
        decreases items.len() - k,
    {
        let c = chars_of(items[k].as_str());
        if chars_eq(&c, v) {
            proof {
                assert(iv[k as int] == v@);
            }
            return true;
        }
        k = k + 1;
    }
    false
}

/// A string holding the characters of `v`.
fn owned(v: &Vec<char>) -> (r: String)
    ensures
        r@ == v@,
{
    string_of(v.as_slice())
}

/// Whether `v` holds exactly the characters of `lit`.
fn is(v: &Vec<char>, lit: &str) -> (r: bool)
    ensures
        r == (v@ == lit@),
{
    let l = chars_of(lit);
    chars_eq(v, &l)
}

/// Adds the information of one tag block to `docs`.
pub fn parse_tag(block: &Vec<char>, docs: &mut JsDocs)
    ensures
        final(docs)@ == parse_tag_s(block@, old(docs)@),
{
    proof {
        reveal_strlit("@param");
        reveal_strlit("@arg");
        reveal_strlit("@argument");
        reveal_strlit("@returns");
        reveal_strlit("@return");
        reveal_strlit("@default");
        reveal_strlit("@access");
        reveal_strlit("@private");
        reveal_strlit("@deprecated");
        reveal_strlit("@public");
        reveal_strlit("@protected");
        reveal_strlit("@selector");
        reveal_strlit("@example");
        reveal_strlit("private");
        reveal_strlit("public");
        reveal_strlit("protected");
    }
    let b = trim_start_vec(block);
    let (tag, rest0) = split_first_token(&b);
    let rest = trim_start_blank_vec(&rest0);
    if is(&tag, "@param") || is(&tag, "@arg") || is(&tag, "@argument") {
        if let Some((name, desc)) = parse_param(&rest) {
            let desc = strip_separator(&desc);
            if desc.len() > 0 {
                str_map_insert(&mut docs.params, owned(&name), owned(&desc));
            }
        }
    } else if is(&tag, "@returns") || is(&tag, "@return") {
        let t = skip_type(&rest);
        let desc = strip_separator(&t);
        if desc.len() > 0 {
            docs.return_description = Some(owned(&desc));
        }
    } else if is(&tag, "@default") {
        let v = trim_vec(&rest);
        if v.len() > 0 {
            docs.default = Some(owned(&v));
        }
    } else if is(&tag, "@access") {
        let (v, _) = split_first_token(&rest);
        if v.len() > 0 {
            docs.access = Some(owned(&v));
        }
    } else if is(&tag, "@private") || is(&tag, "@deprecated") {
        docs.access = Some(String::from_str("private"));
    } else if is(&tag, "@public") {
        docs.access = Some(String::from_str("public"));
    } else if is(&tag, "@protected") {
        docs.access = Some(String::from_str("protected"));
    } else if is(&tag, "@selector") {
        let v = trim_vec(&rest);
        if v.len() > 0 {
            docs.selector = Some(owned(&v));
        }
    } else if is(&tag, "@example") {
        let ex = normalize_example(&rest);
        if ex.len() > 0 && !contains_chars(&docs.examples, &ex) {
            let ghost before = docs.examples@;
            docs.examples.push(owned(&ex));
            proof {
                assert(docs.examples@.map_values(|s: String| s@) =~= before.map_values(|s: String| s@).push(ex@));
            }
        }
    }
}

/// The character sequences held by a vector of lines.
pub open spec fn lines_view(ls: Seq<Vec<char>>) -> Seq<Seq<char>> {
    ls.map_values(|v: Vec<char>| v@)
}

/// The index of the first tag line at or after `i`, or the number of lines.
fn next_tag_exec(ls: &Vec<Vec<char>>, i: usize) -> (r: usize)
    requires
        i <= ls.len(),
    ensures
        r == next_tag(lines_view(ls@), i as int),
        i <= r <= ls.len(),
{
    let ghost lv = lines_view(ls@);
    let mut k = i;
    while k < ls.len() && !is_tag_line(&ls[k])
        invariant
            i <= k <= ls.len(),
            lv == lines_view(ls@),
            next_tag(lv, i as int) == next_tag(lv, k as int),
        decreases ls.len() - k,
    {
        proof {
            assert(lv[k as int] == ls@[k as int]@);
        }
        k = k + 1;
    }
    proof {
        if k < ls.len() {
            assert(lv[k as int] == ls@[k as int]@);
        }
    }
    k
}

/// Lines `lo..hi`, each without trailing whitespace, joined by newlines.
fn joined_lines_exec(ls: &Vec<Vec<char>>, lo: usize, hi: usize) -> (r: Vec<char>)
    requires
        lo <= hi <= ls.len(),
    ensures
        r@ == joined_lines(lines_view(ls@), lo as int, hi as int),
{
    let ghost lv = lines_view(ls@);
    let mut parts: Vec<Vec<char>> = Vec::new();
    let mut k = lo;
    while k < hi
        invariant
            lo <= k <= hi <= ls.len(),
            lv == lines_view(ls@),
            parts@.len() == k - lo,
            forall|m: int| 0 <= m < k - lo ==> #[trigger] parts@[m]@ == trim_end(lv[lo + m]),
        decreases hi - k,
    {
        let t = trim_end_vec(&ls[k]);
        proof {
            assert(lv[k as int] == ls@[k as int]@);
        }
        parts.push(t);
        k = k + 1;
    }
    proof {
        assert(parts@.map_values(|v: Vec<char>| v@) =~= lv.subrange(lo as int, hi as int).map_values(|l: Seq<char>| trim_end(l)));
    }
    join_vec(&parts, '\n')
}

impl JsDocs {
    /// A doc block with nothing in it.
    pub fn new() -> (r: JsDocs)
        ensures
            r@ == empty_docs(),
    {
        let r = JsDocs {
            description: None,
            default: None,
            access: None,
            return_description: None,
            params: str_map_new(),
            selector: None,
            examples: Vec::new(),
        };
        proof {
            assert(r@.examples =~= Seq::<Seq<char>>::empty());
        }
        r
    }

    /// Whether this doc block carried any content (i.e. there was a JSDoc comment).
    pub fn is_empty(&self) -> (r: bool)
        ensures
            r == docs_empty(self@),
    {
        self.description.is_none() && self.default.is_none() && self.access.is_none()
            && self.return_description.is_none() && str_map_len(&self.params) == 0
            && self.selector.is_none() && self.examples.len() == 0
    }

    /// A copy of this doc block.
    pub fn duplicate(&self) -> (r: JsDocs)
        ensures
            r@ == self@,
    {
        let mut examples: Vec<String> = Vec::new();
        let mut k: usize = 0;
        while k < self.examples.len()
            invariant
                k <= self.examples.len(),
                examples@ == self.examples@.take(k as int),
            decreases self.examples.len() - k,
        {
            examples.push(self.examples[k].clone());
            proof {
                assert(self.examples@.take(k + 1) == self.examples@.take(k as int).push(self.examples@[k as int]));
            }
            k = k + 1;
        }
        proof {
            assert(self.examples@.take(self.examples.len() as int) == self.examples@);
        }
        JsDocs {
            description: crate::ty::copy_opt(&self.description),
            default: crate::ty::copy_opt(&self.default),
            access: crate::ty::copy_opt(&self.access),
            return_description: crate::ty::copy_opt(&self.return_description),
            params: str_map_clone(&self.params),
            selector: crate::ty::copy_opt(&self.selector),
            examples,
        }
    }
}

/// Adds the content of one JSDoc comment body to `docs`: its description (if
/// not blank) and then each of its tags.
pub fn parse_comment(text: &str, docs: &mut JsDocs)
    ensures
        final(docs)@ == parse_comment_s(text@, old(docs)@),
{
    let tv = chars_of(text);
    let raw = lines_vec(&tv);
    let mut ls: Vec<Vec<char>> = Vec::new();
    let mut k: usize = 0;
    while k < raw.len()
        invariant
            k <= raw.len(),
            raw@.len() == lines(tv@).len(),
            forall|m: int| 0 <= m < raw@.len() ==> #[trigger] raw@[m]@ == lines(tv@)[m],
            ls@.len() == k,
            forall|m: int| 0 <= m < k ==> #[trigger] ls@[m]@ == strip_comment_prefix_s(lines(tv@)[m]),
        decreases raw.len() - k,
    {
        ls.push(strip_comment_prefix(&raw[k]));
        k = k + 1;
    }
    let ghost lv = lines_view(ls@);
    proof {
        assert(lv =~= comment_lines(text@));
    }
    let start = next_tag_exec(&ls, 0);
    let desc = joined_lines_exec(&ls, 0, start);
    let desc = trim_vec(&desc);
    if desc.len() > 0 {
        docs.description = Some(owned(&desc));
    }
    let ghost d1 = docs@;
    let mut i = start;
    while i < ls.len()
        invariant
            i <= ls.len(),
            lv == lines_view(ls@),
            apply_blocks(lv, start as int, d1) == apply_blocks(lv, i as int, docs@),
        decreases ls.len() - i,
    {
        let j = next_tag_exec(&ls, i + 1);
        let block = joined_lines_exec(&ls, i, j);
        parse_tag(&block, docs);
        i = j;
    }
}

/// Parses the JSDoc comments among `comments` (block comments whose text starts
/// with `*`), in order, into one doc block.
pub fn parse_jsdoc(comments: &Vec<Comment>) -> (r: JsDocs)
    ensures
        r@ == parse_comments_s(comments@, empty_docs()),
{
    let mut docs = JsDocs::new();
    let mut k: usize = 0;
    while k < comments.len()
        invariant
            k <= comments.len(),
            docs@ == parse_comments_s(comments@.take(k as int), empty_docs()),
        decreases comments.len() - k,
    {
        let c = &comments[k];
        proof {
            assert(comments@.take(k + 1).drop_last() == comments@.take(k as int));
        }
        if c.is_block && starts_with(&chars_of(c.text.as_str()), '*') {
            parse_comment(c.text.as_str(), &mut docs);
        }
        k = k + 1;
    }
    proof {
        assert(comments@.take(comments.len() as int) == comments@);
    }
    docs
}

} // verus!
