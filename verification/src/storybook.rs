//! The decisions of the Storybook CSF transform that do not depend on the
//! shape of the JavaScript syntax tree: which stories are documented, the
//! descriptions taken from JSDoc comments, source slices, content hashes and
//! the names the transform introduces.
use vstd::prelude::*;
use crate::jsdoc::Comment;
use crate::text::{
    lines, join, trim, trim_start, find_other_from, strip_char, lines_vec, join_vec, trim_vec, trim_start_vec, find_other,
    slice_of, strip_char_vec, chars_of, string_of, push_all,
};

verus! {

/// A story export of a CSF file: its export name, the binding its source
/// comes from, and the byte spans (`lo`, `hi`) of its statement, its source
/// and its `args`/`parameters` annotations.
pub struct Story {
    pub export_name: String,
    pub target_name: String,
    pub statement_span: (u32, u32),
    pub source_span: (u32, u32),
    pub args_span: Option<(u32, u32)>,
    pub parameters_span: Option<(u32, u32)>,
}

/// A story as plain values.
pub struct StoryView {
    pub export_name: Seq<char>,
    pub target_name: Seq<char>,
    pub statement_span: (u32, u32),
    pub source_span: (u32, u32),
    pub args_span: Option<(u32, u32)>,
    pub parameters_span: Option<(u32, u32)>,
}

impl View for Story {
    type V = StoryView;

    open spec fn view(&self) -> StoryView {
        StoryView {
            export_name: self.export_name@,
            target_name: self.target_name@,
            statement_span: self.statement_span,
            source_span: self.source_span,
            args_span: self.args_span,
            parameters_span: self.parameters_span,
        }
    }
}

/// The `includeStories`/`excludeStories` lists of a CSF default export.
pub struct StoryFilter {
    pub includes: Option<Vec<String>>,
    pub excludes: Option<Vec<String>>,
}

/// The syntax a file is parsed with.
#[derive(Clone, Copy, Debug, PartialEq, Eq, Structural)]
pub enum SourceSyntax {
    Typescript { tsx: bool },
    Es { jsx: bool },
}

/// The text of each string.
pub open spec fn names_view(v: Vec<String>) -> Seq<Seq<char>> {
    v@.map_values(|s: String| s@)
}

/// Whether a story is documented: its name does not start with `_`, it is
/// included (when there is an include list) and not excluded (when there is
/// an exclude list).
pub open spec fn keeps_story(f: StoryFilter, s: Story) -> bool {
    &&& !(s.export_name@.len() > 0 && s.export_name@[0] == '_')
    &&& match f.includes {
        Some(names) => names_view(names).contains(s.export_name@),
        None => true,
    }
    &&& match f.excludes {
        Some(names) => !names_view(names).contains(s.export_name@),
        None => true,
    }
}

/// The stories of `s` that `f` keeps, in their order.
pub open spec fn kept_stories(f: StoryFilter, s: Seq<Story>) -> Seq<Story>
    decreases s.len(),
{
    if s.len() == 0 {
        s
    } else if keeps_story(f, s.last()) {
        kept_stories(f, s.drop_last()).push(s.last())
    } else {
        kept_stories(f, s.drop_last())
    }
}

/// The stories kept by a filter are all documented under it.
proof fn lemma_kept_are_kept(f: StoryFilter, s: Seq<Story>)
    ensures
        forall|k: int| 0 <= k < kept_stories(f, s).len() ==> keeps_story(f, #[trigger] kept_stories(f, s)[k]),
    decreases s.len(),
{
    if s.len() > 0 {
        lemma_kept_are_kept(f, s.drop_last());
        let ki = kept_stories(f, s.drop_last());
        let kp = kept_stories(f, s);
        if keeps_story(f, s.last()) {
            assert forall|k: int| 0 <= k < kp.len() implies keeps_story(f, #[trigger] kp[k]) by {
                if k < ki.len() {
                    assert(kp[k] == ki[k]);
                }
            }
        }
    }
}

/// A filter keeps every story of a list whose stories it all documents.
proof fn lemma_kept_all(f: StoryFilter, s: Seq<Story>)
    requires
        forall|k: int| 0 <= k < s.len() ==> keeps_story(f, #[trigger] s[k]),
    ensures
        kept_stories(f, s) == s,
    decreases s.len(),
{
    if s.len() > 0 {
        let init = s.drop_last();
        assert forall|k: int| 0 <= k < init.len() implies keeps_story(f, #[trigger] init[k]) by {
            assert(init[k] == s[k]);
        }
        lemma_kept_all(f, init);
        assert(keeps_story(f, s[s.len() - 1]));
        assert(s =~= init.push(s.last()));
    }
}

/// Law: filtering the stories a second time with the same lists keeps them
/// all.
pub proof fn law_filter_idempotent(f: StoryFilter, s: Seq<Story>)
    ensures
        kept_stories(f, kept_stories(f, s)) == kept_stories(f, s),
{
    lemma_kept_are_kept(f, s);
    lemma_kept_all(f, kept_stories(f, s));
}

/// One line of a JSDoc description: leading whitespace, then leading `*`s,
/// then one space are removed.
pub open spec fn description_line(l: Seq<char>) -> Seq<char> {
    let a = trim_start(l);
    strip_char(a.skip(find_other_from(a, 0, '*')), ' ')
}

/// The description of a comment: for a `/** ... */` block, its lines
/// cleaned of their `*` prefixes, joined and trimmed, when not empty.
pub open spec fn jsdoc_description_s(c: Comment) -> Option<Seq<char>> {
    if !c.is_block || !(c.text@.len() > 0 && c.text@[0] == '*') {
        None
    } else {
        let d = trim(join(lines(c.text@).map_values(|l: Seq<char>| description_line(l)), seq!['\n']));
        if d.len() == 0 {
            None
        } else {
            Some(d)
        }
    }
}

/// The descriptions of the JSDoc comments among `cs`, in order.
pub open spec fn descriptions(cs: Seq<Comment>) -> Seq<Seq<char>>
    decreases cs.len(),
{
    if cs.len() == 0 {
        Seq::empty()
    } else {
        match jsdoc_description_s(cs.last()) {
            Some(d) => descriptions(cs.drop_last()).push(d),
            None => descriptions(cs.drop_last()),
        }
    }
}

/// Whether byte position `i` of `s` starts a character (or is its end).
pub open spec fn is_char_boundary(s: Seq<u8>, i: int) -> bool {
    i == s.len() || (0 <= i < s.len() && (s[i] < 0x80 || s[i] >= 0xC0))
}

/// The bytes of `source` covered by the span `(lo, hi)` of a file that starts
/// at position `start`: empty when the span does not fall on characters of
/// the source.
pub open spec fn slice_span_s(source: Seq<u8>, start: u32, lo: u32, hi: u32) -> Seq<u8> {
    let a = if lo >= start { lo - start } else { 0 };
    let b = if hi >= start { hi - start } else { 0 };
    if a <= b && b <= source.len() && is_char_boundary(source, a) && is_char_boundary(source, b) {
        source.subrange(a, b)
    } else {
        Seq::empty()
    }
}

/// The MD5 digest of `data`.
pub uninterp spec fn md5_of(data: Seq<u8>) -> Seq<u8>;

/// The lowercase hexadecimal digit of a value below 16.
pub open spec fn hex_digit(v: u8) -> char {
    if v < 10 {
        (48 + v) as char
    } else {
        (87 + v) as char
    }
}

/// Two lowercase hexadecimal digits for each byte of `b`.
pub open spec fn hex_s(b: Seq<u8>) -> Seq<char>
    decreases b.len(),
{
    if b.len() == 0 {
        Seq::empty()
    } else {
        hex_s(b.drop_last()) + seq![hex_digit(b.last() / 16), hex_digit(b.last() % 16)]
    }
}

/// The decimal digits of `n`.
pub open spec fn decimal_s(n: nat) -> Seq<char>
    decreases n,
{
    if n < 10 {
        seq![(48 + n) as char]
    } else {
        decimal_s(n / 10) + seq![(48 + n % 10) as char]
    }
}

/// `$parcel$storybook$meta`, followed by `suffix` when it is not 0.
pub open spec fn meta_name_s(suffix: nat) -> Seq<char> {
    if suffix == 0 {
        "$parcel$storybook$meta"@
    } else {
        "$parcel$storybook$meta"@ + decimal_s(suffix)
    }
}

/// Decides which stories are documented; without a default-export object
/// every story is.
pub fn filter_stories(meta: Option<&StoryFilter>, stories: &mut Vec<Story>)
    ensures
        match meta {
            Some(f) => final(stories)@ == kept_stories(*f, old(stories)@),
            None => final(stories)@ == old(stories)@,
        },
{
    let f = match meta {
        Some(f) => f,
        None => {
            return;
        },
    };
    let ghost s0 = stories@;
    let mut taken: Vec<Story> = Vec::new();
    std::mem::swap(&mut taken, stories);
    // Collect the kept stories, taking them from the back, then restore
    // their order.
    let mut rev: Vec<Story> = Vec::new();
    let n = taken.len();
    while taken.len() > 0
        invariant
            taken@ == s0.take(taken@.len() as int),
            taken@.len() <= n,
            n == s0.len(),
            kept_stories(*f, s0) == kept_stories(*f, taken@) + rev@.reverse(),
        decreases taken.len(),
    {
        let ghost t = taken@;
        let s = taken.pop().unwrap();
        proof {
            assert(t.drop_last() == taken@);
            assert(s0.take(taken@.len() as int) =~= t.drop_last());
        }
        if keeps(f, &s) {
            let ghost r0 = rev@;
            rev.push(s);
            proof {
                assert(rev@.reverse() =~= seq![t.last()] + r0.reverse());
                assert(kept_stories(*f, t) == kept_stories(*f, taken@).push(t.last()));
            }
        }
    }
    while rev.len() > 0
        invariant
            kept_stories(*f, s0) == stories@ + rev@.reverse(),
        decreases rev.len(),
    {
        let ghost r0 = rev@;
        let s = rev.pop().unwrap();
        proof {
            assert(r0.reverse() =~= seq![s] + rev@.reverse());
        }
        stories.push(s);
    }
    proof {
        assert(rev@.reverse() =~= Seq::<Story>::empty());
        assert(stories@ =~= stories@ + rev@.reverse());
    }
}

/// Whether `name` is one of `names`.
fn contains_name(names: &Vec<String>, name: &String) -> (r: bool)
    ensures
        r == names_view(*names).contains(name@),
{
    let mut k: usize = 0;
    while k < names.len()
        invariant
            k <= names@.len(),
            forall|j: int| 0 <= j < k ==> names@[j]@ != name@,
        decreases names.len() - k,
    {
        if crate::ty::str_eq(names[k].as_str(), name.as_str()) {
            proof {
                assert(names_view(*names)[k as int] == name@);
            }
            return true;
        }
        k = k + 1;
    }
    proof {
        if names_view(*names).contains(name@) {
            let i = choose|i: int| 0 <= i < names_view(*names).len() && names_view(*names)[i] == name@;
            assert(names@[i]@ == name@);
        }
    }
    false
}

/// Whether a story is documented under the given lists.
fn keeps(f: &StoryFilter, s: &Story) -> (r: bool)
    ensures
        r == keeps_story(*f, *s),
{
    let name = chars_of(s.export_name.as_str());
    if name.len() > 0 && name[0] == '_' {
        return false;
    }
    let included = match &f.includes {
        Some(names) => contains_name(names, &s.export_name),
        None => true,
    };
    let excluded = match &f.excludes {
        Some(names) => contains_name(names, &s.export_name),
        None => false,
    };
    included && !excluded
}

/// The description of a JSDoc block comment, if it is one and has text.
pub fn jsdoc_description(comment: &Comment) -> (r: Option<String>)
    ensures
        r matches Some(d) ==> jsdoc_description_s(*comment) == Some(d@),
        r is None ==> jsdoc_description_s(*comment) is None,
{
    let text = chars_of(comment.text.as_str());
    if !comment.is_block || !(text.len() > 0 && text[0] == '*') {
        return None;
    }
    let ls = lines_vec(&text);
    let ghost lv = lines(text@);
    let mut out: Vec<Vec<char>> = Vec::new();
    let mut k: usize = 0;
    while k < ls.len()
        invariant
            k <= ls@.len(),
            ls@.len() == lv.len(),
            forall|j: int| 0 <= j < ls@.len() ==> #[trigger] ls@[j]@ == lv[j],
            out@.map_values(|v: Vec<char>| v@) == lv.take(k as int).map_values(|l: Seq<char>| description_line(l)),
        decreases ls.len() - k,
    {
        let a = trim_start_vec(&ls[k]);
        let i = find_other(&a, '*');
        let b = slice_of(&a, i, a.len());
        let c = strip_char_vec(&b, ' ');
        let ghost before = out@;
        out.push(c);
        proof {
            assert(b@ == a@.skip(i as int));
            assert(c@ == description_line(lv[k as int]));
            assert(out@.map_values(|v: Vec<char>| v@) =~= before.map_values(|v: Vec<char>| v@).push(c@));
            assert(lv.take(k + 1).map_values(|l: Seq<char>| description_line(l)) =~= lv.take(k as int).map_values(
                |l: Seq<char>| description_line(l),
            ).push(description_line(lv[k as int])));
        }
        k = k + 1;
    }
    proof {
        assert(lv.take(ls@.len() as int) =~= lv);
    }
    let joined = join_vec(&out, '\n');
    let d = trim_vec(&joined);
    if d.len() == 0 {
        None
    } else {
        Some(string_of(d.as_slice()))
    }
}

/// The descriptions of the JSDoc comments leading a statement, joined by
/// newlines, when there is one.
pub fn extract_description(comments: &Vec<Comment>) -> (r: Option<String>)
    ensures
        descriptions(comments@).len() == 0 ==> r is None,
        descriptions(comments@).len() > 0 ==> (r matches Some(d) && d@ == join(descriptions(comments@), seq!['\n'])),
{
    let mut found: Vec<Vec<char>> = Vec::new();
    let mut k: usize = 0;
    while k < comments.len()
        invariant
            k <= comments@.len(),
            found@.map_values(|v: Vec<char>| v@) == descriptions(comments@.take(k as int)),
        decreases comments.len() - k,
    {
        proof {
            assert(comments@.take(k + 1).drop_last() =~= comments@.take(k as int));
            assert(comments@.take(k + 1).last() == comments@[k as int]);
        }
        match jsdoc_description(&comments[k]) {
            Some(d) => {
                let ghost before = found@;
                let v = chars_of(d.as_str());
                found.push(v);
                proof {
                    assert(found@.map_values(|v: Vec<char>| v@) =~= before.map_values(|v: Vec<char>| v@).push(v@));
                }
            },
            None => {},
        }
        k = k + 1;
    }
    proof {
        assert(comments@.take(comments@.len() as int) =~= comments@);
    }
    if found.len() == 0 {
        None
    } else {
        let joined = join_vec(&found, '\n');
        Some(string_of(joined.as_slice()))
    }
}

/// Whether byte position `i` of `s` starts a character (or is its end).
fn char_boundary(s: &Vec<u8>, i: usize) -> (r: bool)
    ensures
        r == is_char_boundary(s@, i as int),
{
    i == s.len() || (i < s.len() && (s[i] < 0x80 || s[i] >= 0xC0))
}

/// The bytes of `source` covered by the span `(lo, hi)` of a file starting
/// at position `start` (empty when the span does not fall on characters).
pub fn slice_span(source: &Vec<u8>, start: u32, lo: u32, hi: u32) -> (r: Vec<u8>)
    ensures
        r@ == slice_span_s(source@, start, lo, hi),
{
    let a = lo.saturating_sub(start) as usize;
    let b = hi.saturating_sub(start) as usize;
    if a <= b && b <= source.len() && char_boundary(source, a) && char_boundary(source, b) {
        let mut out: Vec<u8> = Vec::new();
        let mut k = a;
        while k < b
            invariant
                a <= k <= b <= source@.len(),
                out@ == source@.subrange(a as int, k as int),
            decreases b - k,
        {
            out.push(source[k]);
            proof {
                assert(source@.subrange(a as int, k + 1) =~= source@.subrange(a as int, k as int).push(source@[k as int]));
            }
            k = k + 1;
        }
        out
    } else {
        Vec::new()
    }
}

/// `md5::compute`: the MD5 digest of `data`.
#[verifier::external_body]
fn md5_digest(data: &[u8]) -> (r: [u8; 16])
    ensures
        r@ == md5_of(data@),
{
    md5::compute(data).0
}

/// The lowercase hexadecimal digit of a value below 16.
fn hex_char(v: u8) -> (c: char)
    requires
        v < 16,
    ensures
        c == hex_digit(v),
{
    if v < 10 {
        (48u8 + v) as char
    } else {
        (87u8 + v) as char
    }
}

/// The MD5 digest of `value` in lowercase hexadecimal.
pub fn md5_hex(value: &[u8]) -> (r: String)
    ensures
        r@ == hex_s(md5_of(value@)),
        md5_of(value@).len() == 16,
        r@.len() == 32,
{
    let digest = md5_digest(value);
    let ghost d = digest@;
    let mut out: Vec<char> = Vec::new();
    let mut k: usize = 0;
    while k < 16
        invariant
            k <= 16,
            d == digest@,
            d.len() == 16,
            out@ == hex_s(d.take(k as int)),
            out@.len() == 2 * k,
        decreases 16 - k,
    {
        let v = digest[k];
        out.push(hex_char(v / 16));
        out.push(hex_char(v % 16));
        proof {
            assert(d.take(k + 1).drop_last() =~= d.take(k as int));
            assert(d.take(k + 1).last() == v);
        }
        k = k + 1;
    }
    proof {
        assert(d.take(16) =~= d);
    }
    string_of(out.as_slice())
}

/// The decimal digits of `n`.
pub fn decimal(n: usize) -> (r: String)
    ensures
        r@ == decimal_s(n as nat),
{
    let mut digits: Vec<char> = Vec::new();
    let mut m = n;
    // Collect the digits from the last one.
    while m >= 10
        invariant
            decimal_s(n as nat) == decimal_s(m as nat) + digits@.reverse(),
        decreases m,
    {
        let ghost d0 = digits@;
        let c = (48u8 + (m % 10) as u8) as char;
        digits.push(c);
        proof {
            assert(digits@.reverse() =~= seq![c] + d0.reverse());
            assert(decimal_s(m as nat) == decimal_s((m / 10) as nat) + seq![c]);
        }
        m = m / 10;
    }
    let mut out: Vec<char> = vec![(48u8 + m as u8) as char];
    let ghost first = out@;
    proof {
        assert(first =~= decimal_s(m as nat));
    }
    while digits.len() > 0
        invariant
            decimal_s(n as nat) == out@ + digits@.reverse(),
        decreases digits.len(),
    {
        let ghost d0 = digits@;
        let c = digits.pop().unwrap();
        proof {
            assert(d0.reverse() =~= seq![c] + digits@.reverse());
        }
        out.push(c);
    }
    proof {
        assert(digits@.reverse() =~= Seq::<char>::empty());
        assert(out@ =~= out@ + digits@.reverse());
    }
    string_of(out.as_slice())
}

/// The syntax a file is parsed with, by its extension: TypeScript for `.ts`
/// and `.tsx` (with JSX for the latter), JavaScript otherwise (with JSX for
/// `.jsx`).
pub fn syntax_for_extension(extension: Option<&str>) -> (r: SourceSyntax)
    ensures
        match extension {
            Some(e) => if e@ == "ts"@ || e@ == "tsx"@ {
                r == (SourceSyntax::Typescript { tsx: e@ == "tsx"@ })
            } else {
                r == (SourceSyntax::Es { jsx: e@ == "jsx"@ })
            },
            None => r == (SourceSyntax::Es { jsx: false }),
        },
{
    match extension {
        Some(e) => {
            let is_ts = crate::ty::str_eq(e, "ts");
            let is_tsx = crate::ty::str_eq(e, "tsx");
            if is_ts || is_tsx {
                SourceSyntax::Typescript { tsx: is_tsx }
            } else {
                SourceSyntax::Es { jsx: crate::ty::str_eq(e, "jsx") }
            }
        },
        None => SourceSyntax::Es { jsx: false },
    }
}

/// `prefix` followed by `rest`.
pub(crate) fn concat_str(prefix: &str, rest: &str) -> (r: String)
    ensures
        r@ == prefix@ + rest@,
{
    let mut v = chars_of(prefix);
    let w = chars_of(rest);
    push_all(&mut v, &w);
    string_of(v.as_slice())
}

/// The specifier under which the documentation of a module is imported.
pub fn docs_specifier(source: &str) -> (r: String)
    ensures
        r@ == "docs:"@ + source@,
{
    concat_str("docs:", source)
}

/// The name of the React Refresh registration of a file (outside production
/// builds): a fixed prefix and the last four hex digits of the MD5 of its
/// path.
pub fn refresh_name(file_path: &[u8], production: bool) -> (r: Option<String>)
    ensures
        production ==> r is None,
        !production ==> (r matches Some(n) && n@ == "$parcel$ReactRefresh$"@ + hex_s(md5_of(file_path@)).subrange(28, 32)),
{
    if production {
        return None;
    }
    let hex = md5_hex(file_path);
    let h = chars_of(hex.as_str());
    let tail = slice_of(&h, 28, 32);
    Some(concat_str("$parcel$ReactRefresh$", string_of(tail.as_slice()).as_str()))
}

/// The name the default-export object of a CSF file is bound to when it is
/// not a variable already: `$parcel$storybook$meta`, followed by `suffix`
/// when it is not 0.
pub fn meta_name(suffix: usize) -> (r: String)
    ensures
        r@ == meta_name_s(suffix as nat),
{
    if suffix == 0 {
        String::from_str("$parcel$storybook$meta")
    } else {
        concat_str("$parcel$storybook$meta", decimal(suffix).as_str())
    }
}

/// The name of the component a story's render function is moved into.
pub fn story_component_name(count: usize) -> (r: String)
    ensures
        r@ == "Story"@ + decimal_s(count as nat),
{
    concat_str("Story", decimal(count).as_str())
}

} // verus!
