//! Character-level text helpers: Unicode whitespace, trimming, line splitting
//! and joining, stated over `Seq<char>` and implemented over `Vec<char>`.
use vstd::prelude::*;

verus! {

/// The Unicode `White_Space` property, which is what `char::is_whitespace` tests.
pub open spec fn is_ws(c: char) -> bool {
    ||| ('\u{9}' <= c && c <= '\u{d}')
    ||| c == ' '
    ||| c == '\u{85}'
    ||| c == '\u{a0}'
    ||| c == '\u{1680}'
    ||| ('\u{2000}' <= c && c <= '\u{200a}')
    ||| c == '\u{2028}'
    ||| c == '\u{2029}'
    ||| c == '\u{202f}'
    ||| c == '\u{205f}'
    ||| c == '\u{3000}'
}

/// A space or a tab.
pub open spec fn is_blank(c: char) -> bool {
    c == ' ' || c == '\t'
}

pub fn is_whitespace(c: char) -> (b: bool)
    ensures
        b == is_ws(c),
{
    ('\u{9}' <= c && c <= '\u{d}') || c == ' ' || c == '\u{85}' || c == '\u{a0}' || c
        == '\u{1680}' || ('\u{2000}' <= c && c <= '\u{200a}') || c == '\u{2028}' || c
        == '\u{2029}' || c == '\u{202f}' || c == '\u{205f}' || c == '\u{3000}'
}

/// The index of the first character at or after `i` that is not whitespace.
pub open spec fn skip_ws_from(s: Seq<char>, i: int) -> int
    decreases s.len() - i,
{
    if 0 <= i < s.len() && is_ws(s[i]) {
        skip_ws_from(s, i + 1)
    } else {
        i
    }
}

/// The index of the first character at or after `i` that is neither a space nor a tab.
pub open spec fn skip_blank_from(s: Seq<char>, i: int) -> int
    decreases s.len() - i,
{
    if 0 <= i < s.len() && is_blank(s[i]) {
        skip_blank_from(s, i + 1)
    } else {
        i
    }
}

/// The end of `s.take(j)` once its trailing whitespace is removed.
pub open spec fn back_ws_from(s: Seq<char>, j: int) -> int
    decreases j,
{
    if 0 < j <= s.len() && is_ws(s[j - 1]) {
        back_ws_from(s, j - 1)
    } else {
        j
    }
}

/// `str::trim_start`.
pub open spec fn trim_start(s: Seq<char>) -> Seq<char> {
    s.skip(skip_ws_from(s, 0))
}

/// `str::trim_end`.
pub open spec fn trim_end(s: Seq<char>) -> Seq<char> {
    s.take(back_ws_from(s, s.len() as int))
}

/// `str::trim`.
pub open spec fn trim(s: Seq<char>) -> Seq<char> {
    trim_end(trim_start(s))
}

/// `trim_start_matches([' ', '\t'])`.
pub open spec fn trim_start_blank(s: Seq<char>) -> Seq<char> {
    s.skip(skip_blank_from(s, 0))
}

pub open spec fn starts_with_char(s: Seq<char>, c: char) -> bool {
    s.len() > 0 && s[0] == c
}

/// `str::strip_prefix(c).unwrap_or(s)`.
pub open spec fn strip_char(s: Seq<char>, c: char) -> Seq<char> {
    if starts_with_char(s, c) {
        s.drop_first()
    } else {
        s
    }
}

/// The index of the first `'\n'` at or after `i` (or the length when there is none).
pub open spec fn next_newline(s: Seq<char>, i: int) -> int
    decreases s.len() - i,
{
    if i < 0 || i >= s.len() {
        s.len() as int
    } else if s[i] == '\n' {
        i
    } else {
        next_newline(s, i + 1)
    }
}

/// One line of `str::lines`: the text from `i` up to the next `'\n'`, without
/// a `'\r'` that directly precedes that `'\n'`.
pub open spec fn line_at(s: Seq<char>, i: int) -> Seq<char> {
    let j = next_newline(s, i);
    if j < s.len() && j > i && s[j - 1] == '\r' {
        s.subrange(i, j - 1)
    } else {
        s.subrange(i, j)
    }
}

/// `str::lines` of `s.skip(i)`.
pub open spec fn lines_from(s: Seq<char>, i: int) -> Seq<Seq<char>>
    decreases s.len() + 1 - i,
    via lines_from_decreases
{
    if i < 0 || i >= s.len() {
        Seq::empty()
    } else {
        seq![line_at(s, i)] + lines_from(s, next_newline(s, i) + 1)
    }
}

#[via_fn]
proof fn lines_from_decreases(s: Seq<char>, i: int) {
    if 0 <= i < s.len() {
        lemma_next_newline_bounds(s, i);
    }
}

/// `str::lines`.
pub open spec fn lines(s: Seq<char>) -> Seq<Seq<char>> {
    lines_from(s, 0)
}

/// `parts.join(sep)`.
pub open spec fn join(parts: Seq<Seq<char>>, sep: Seq<char>) -> Seq<char>
    decreases parts.len(),
{
    if parts.len() == 0 {
        Seq::empty()
    } else if parts.len() == 1 {
        parts[0]
    } else {
        join(parts.drop_last(), sep) + sep + parts.last()
    }
}

/// The first index at or after `i` holding a whitespace character, or the length.
pub open spec fn find_ws_from(s: Seq<char>, i: int) -> int
    decreases s.len() - i,
{
    if i < 0 || i >= s.len() {
        s.len() as int
    } else if is_ws(s[i]) {
        i
    } else {
        find_ws_from(s, i + 1)
    }
}

/// The first index at or after `i` holding `c`, or the length.
pub open spec fn find_char_from(s: Seq<char>, i: int, c: char) -> int
    decreases s.len() - i,
{
    if i < 0 || i >= s.len() {
        s.len() as int
    } else if s[i] == c {
        i
    } else {
        find_char_from(s, i + 1, c)
    }
}

/// The first index at or after `i` not holding `c`, or the length.
pub open spec fn find_other_from(s: Seq<char>, i: int, c: char) -> int
    decreases s.len() - i,
{
    if i < 0 || i >= s.len() {
        s.len() as int
    } else if s[i] != c {
        i
    } else {
        find_other_from(s, i + 1, c)
    }
}

/// The end of `s.take(j)` once trailing `c`s are removed.
pub open spec fn back_char_from(s: Seq<char>, j: int, c: char) -> int
    decreases j,
{
    if 0 < j <= s.len() && s[j - 1] == c {
        back_char_from(s, j - 1, c)
    } else {
        j
    }
}

pub proof fn lemma_skip_ws_bounds(s: Seq<char>, i: int)
    requires
        0 <= i <= s.len(),
    ensures
        i <= skip_ws_from(s, i) <= s.len(),
        forall|k: int| i <= k < skip_ws_from(s, i) ==> is_ws(#[trigger] s[k]),
        skip_ws_from(s, i) < s.len() ==> !is_ws(s[skip_ws_from(s, i)]),
    decreases s.len() - i,
{
    if i < s.len() && is_ws(s[i]) {
        lemma_skip_ws_bounds(s, i + 1);
    }
}

pub proof fn lemma_skip_blank_bounds(s: Seq<char>, i: int)
    requires
        0 <= i <= s.len(),
    ensures
        i <= skip_blank_from(s, i) <= s.len(),
    decreases s.len() - i,
{
    if i < s.len() && is_blank(s[i]) {
        lemma_skip_blank_bounds(s, i + 1);
    }
}

pub proof fn lemma_back_ws_bounds(s: Seq<char>, j: int)
    requires
        0 <= j <= s.len(),
    ensures
        0 <= back_ws_from(s, j) <= j,
    decreases j,
{
    if 0 < j && is_ws(s[j - 1]) {
        lemma_back_ws_bounds(s, j - 1);
    }
}

pub proof fn lemma_next_newline_bounds(s: Seq<char>, i: int)
    requires
        0 <= i <= s.len(),
    ensures
        i <= next_newline(s, i) <= s.len(),
        next_newline(s, i) < s.len() ==> s[next_newline(s, i)] == '\n',
        forall|k: int| i <= k < next_newline(s, i) ==> s[k] != '\n',
    decreases s.len() - i,
{
    if i < s.len() && s[i] != '\n' {
        lemma_next_newline_bounds(s, i + 1);
    }
}

pub proof fn lemma_find_ws_bounds(s: Seq<char>, i: int)
    requires
        0 <= i <= s.len(),
    ensures
        i <= find_ws_from(s, i) <= s.len(),
        find_ws_from(s, i) < s.len() ==> is_ws(s[find_ws_from(s, i)]),
        forall|k: int| i <= k < find_ws_from(s, i) ==> !is_ws(#[trigger] s[k]),
    decreases s.len() - i,
{
    if i < s.len() && !is_ws(s[i]) {
        lemma_find_ws_bounds(s, i + 1);
    }
}

pub proof fn lemma_find_char_bounds(s: Seq<char>, i: int, c: char)
    requires
        0 <= i <= s.len(),
    ensures
        i <= find_char_from(s, i, c) <= s.len(),
    decreases s.len() - i,
{
    if i < s.len() && s[i] != c {
        lemma_find_char_bounds(s, i + 1, c);
    }
}

pub proof fn lemma_find_other_bounds(s: Seq<char>, i: int, c: char)
    requires
        0 <= i <= s.len(),
    ensures
        i <= find_other_from(s, i, c) <= s.len(),
    decreases s.len() - i,
{
    if i < s.len() && s[i] == c {
        lemma_find_other_bounds(s, i + 1, c);
    }
}

pub proof fn lemma_back_char_bounds(s: Seq<char>, j: int, c: char)
    requires
        0 <= j <= s.len(),
    ensures
        0 <= back_char_from(s, j, c) <= j,
    decreases j,
{
    if 0 < j && s[j - 1] == c {
        lemma_back_char_bounds(s, j - 1, c);
    }
}

pub fn find_ws(s: &Vec<char>) -> (r: usize)
    ensures
        r == find_ws_from(s@, 0),
        r <= s.len(),
{
    let mut k: usize = 0;
    while k < s.len() && !is_whitespace(s[k])
        invariant
            k <= s.len(),
            find_ws_from(s@, 0) == find_ws_from(s@, k as int),
        decreases s.len() - k,
    {
        k = k + 1;
    }
    k
}

pub fn find_char(s: &Vec<char>, c: char) -> (r: usize)
    ensures
        r == find_char_from(s@, 0, c),
        r <= s.len(),
{
    let mut k: usize = 0;
    while k < s.len() && s[k] != c
        invariant
            k <= s.len(),
            find_char_from(s@, 0, c) == find_char_from(s@, k as int, c),
        decreases s.len() - k,
    {
        k = k + 1;
    }
    k
}

pub fn find_other(s: &Vec<char>, c: char) -> (r: usize)
    ensures
        r == find_other_from(s@, 0, c),
        r <= s.len(),
{
    let mut k: usize = 0;
    while k < s.len() && s[k] == c
        invariant
            k <= s.len(),
            find_other_from(s@, 0, c) == find_other_from(s@, k as int, c),
        decreases s.len() - k,
    {
        k = k + 1;
    }
    k
}

pub fn back_char(s: &Vec<char>, c: char) -> (r: usize)
    ensures
        r == back_char_from(s@, s@.len() as int, c),
        r <= s.len(),
{
    let mut k: usize = s.len();
    while k > 0 && s[k - 1] == c
        invariant
            k <= s.len(),
            back_char_from(s@, s@.len() as int, c) == back_char_from(s@, k as int, c),
        decreases k,
    {
        k = k - 1;
    }
    k
}

/// `s.subrange(lo, hi)` as a new vector.
pub fn slice_of(s: &Vec<char>, lo: usize, hi: usize) -> (r: Vec<char>)
    requires
        lo <= hi <= s.len(),
    ensures
        r@ == s@.subrange(lo as int, hi as int),
{
    let mut r: Vec<char> = Vec::new();
    let mut k: usize = lo;
    while k < hi
        invariant
            lo <= k <= hi <= s.len(),
            r@ == s@.subrange(lo as int, k as int),
        decreases hi - k,
    {
        r.push(s[k]);
        k = k + 1;
    }
    r
}

/// Appends all of `b` to `a`.
pub fn push_all(a: &mut Vec<char>, b: &Vec<char>)
    ensures
        final(a)@ == old(a)@ + b@,
{
    let mut k: usize = 0;
    while k < b.len()
        invariant
            k <= b.len(),
            a@ == old(a)@ + b@.take(k as int),
        decreases b.len() - k,
    {
        a.push(b[k]);
        k = k + 1;
        proof {
            assert(b@.take(k as int) == b@.take((k - 1) as int).push(b@[k - 1]));
        }
    }
    proof {
        assert(b@.take(b.len() as int) == b@);
    }
}

pub fn skip_ws(s: &Vec<char>, i: usize) -> (r: usize)
    requires
        i <= s.len(),
    ensures
        r == skip_ws_from(s@, i as int),
        i <= r <= s.len(),
{
    let mut k = i;
    while k < s.len() && is_whitespace(s[k])
        invariant
            i <= k <= s.len(),
            skip_ws_from(s@, i as int) == skip_ws_from(s@, k as int),
        decreases s.len() - k,
    {
        k = k + 1;
    }
    k
}

pub fn skip_blank(s: &Vec<char>, i: usize) -> (r: usize)
    requires
        i <= s.len(),
    ensures
        r == skip_blank_from(s@, i as int),
        i <= r <= s.len(),
{
    let mut k = i;
    while k < s.len() && (s[k] == ' ' || s[k] == '\t')
        invariant
            i <= k <= s.len(),
            skip_blank_from(s@, i as int) == skip_blank_from(s@, k as int),
        decreases s.len() - k,
    {
        k = k + 1;
    }
    k
}

pub fn back_ws(s: &Vec<char>, j: usize) -> (r: usize)
    requires
        j <= s.len(),
    ensures
        r == back_ws_from(s@, j as int),
        r <= j,
{
    let mut k = j;
    while k > 0 && is_whitespace(s[k - 1])
        invariant
            k <= j <= s.len(),
            back_ws_from(s@, j as int) == back_ws_from(s@, k as int),
        decreases k,
    {
        k = k - 1;
    }
    k
}

pub fn trim_start_vec(s: &Vec<char>) -> (r: Vec<char>)
    ensures
        r@ == trim_start(s@),
{
    let i = skip_ws(s, 0);
    slice_of(s, i, s.len())
}

pub fn trim_end_vec(s: &Vec<char>) -> (r: Vec<char>)
    ensures
        r@ == trim_end(s@),
{
    let j = back_ws(s, s.len());
    slice_of(s, 0, j)
}

pub fn trim_vec(s: &Vec<char>) -> (r: Vec<char>)
    ensures
        r@ == trim(s@),
{
    let t = trim_start_vec(s);
    trim_end_vec(&t)
}

pub fn trim_start_blank_vec(s: &Vec<char>) -> (r: Vec<char>)
    ensures
        r@ == trim_start_blank(s@),
{
    let i = skip_blank(s, 0);
    slice_of(s, i, s.len())
}

pub fn starts_with(s: &Vec<char>, c: char) -> (b: bool)
    ensures
        b == starts_with_char(s@, c),
{
    s.len() > 0 && s[0] == c
}

pub fn strip_char_vec(s: &Vec<char>, c: char) -> (r: Vec<char>)
    ensures
        r@ == strip_char(s@, c),
{
    if starts_with(s, c) {
        slice_of(s, 1, s.len())
    } else {
        slice_of(s, 0, s.len())
    }
}

/// Whether two character sequences are equal.
pub fn chars_eq(a: &Vec<char>, b: &Vec<char>) -> (r: bool)
    ensures
        r == (a@ == b@),
{
    if a.len() != b.len() {
        return false;
    }
    let mut k: usize = 0;
    while k < a.len()
        invariant
            a.len() == b.len(),
            k <= a.len(),
            forall|m: int| 0 <= m < k ==> a@[m] == b@[m],
        decreases a.len() - k,
    {
        if a[k] != b[k] {
            return false;
        }
        k = k + 1;
    }
    proof {
        assert(a@ =~= b@);
    }
    true
}

pub fn next_newline_exec(s: &Vec<char>, i: usize) -> (r: usize)
    requires
        i <= s.len(),
    ensures
        r == next_newline(s@, i as int),
        i <= r <= s.len(),
{
    let mut k = i;
    while k < s.len() && s[k] != '\n'
        invariant
            i <= k <= s.len(),
            next_newline(s@, i as int) == next_newline(s@, k as int),
        decreases s.len() - k,
    {
        k = k + 1;
    }
    k
}

/// `str::lines`.
pub fn lines_vec(s: &Vec<char>) -> (r: Vec<Vec<char>>)
    ensures
        r@.len() == lines(s@).len(),
        forall|k: int| 0 <= k < r@.len() ==> #[trigger] r@[k]@ == lines(s@)[k],
{
    let mut out: Vec<Vec<char>> = Vec::new();
    let mut i: usize = 0;
    while i < s.len()
        invariant
            i <= s.len(),
            lines(s@) == out@.map_values(|v: Vec<char>| v@) + lines_from(s@, i as int),
        decreases s.len() - i,
    {
        let j = next_newline_exec(s, i);
        let line = if j < s.len() && j > i && s[j - 1] == '\r' {
            slice_of(s, i, j - 1)
        } else {
            slice_of(s, i, j)
        };
        proof {
            assert(line@ == line_at(s@, i as int));
            assert(lines_from(s@, i as int) == seq![line@] + lines_from(s@, j + 1));
        }
        let ghost before = out@;
        out.push(line);
        proof {
            assert(out@.map_values(|v: Vec<char>| v@) == before.map_values(|v: Vec<char>| v@).push(line@));
        }
        i = if j < s.len() { j + 1 } else { s.len() };
    }
    proof {
        assert(lines_from(s@, i as int) == Seq::<Seq<char>>::empty());
        assert(lines(s@) == out@.map_values(|v: Vec<char>| v@));
    }
    out
}

/// `parts.join(sep)` for a single-character separator.
pub fn join_vec(parts: &Vec<Vec<char>>, sep: char) -> (r: Vec<char>)
    ensures
        r@ == join(parts@.map_values(|v: Vec<char>| v@), seq![sep]),
{
    let ghost ps = parts@.map_values(|v: Vec<char>| v@);
    let mut out: Vec<char> = Vec::new();
    let mut k: usize = 0;
    while k < parts.len()
        invariant
            k <= parts.len(),
            ps == parts@.map_values(|v: Vec<char>| v@),
            out@ == join(ps.take(k as int), seq![sep]),
        decreases parts.len() - k,
    {
        if k > 0 {
            out.push(sep);
        }
        push_all(&mut out, &parts[k]);
        proof {
            let t = ps.take(k + 1);
            assert(t.drop_last() == ps.take(k as int));
            assert(t.last() == parts@[k as int]@);
            if k == 0 {
                assert(t.len() == 1);
            }
        }
        k = k + 1;
    }
    proof {
        assert(ps.take(parts.len() as int) == ps);
    }
    out
}

/// The characters of a string slice.
pub fn chars_of(s: &str) -> (r: Vec<char>)
    ensures
        r@ == s@,
{
    broadcast use vstd::string::group_string_axioms;
    let mut v: Vec<char> = Vec::new();
    let mut it = s.chars();
    let ghost total = s@;
    proof {
        assert(vstd::std_specs::iter::IteratorSpec::remaining(&it) == s@);
    }
    loop
        invariant
            total == s@,
            v@ + vstd::std_specs::iter::IteratorSpec::remaining(&it) == total,
            vstd::std_specs::iter::IteratorSpec::obeys_prophetic_iter_laws(&it),
            vstd::std_specs::iter::IteratorSpec::decrease(&it) is Some,
        decreases vstd::std_specs::iter::IteratorSpec::decrease(&it)->0,
    {
        let ghost before = vstd::std_specs::iter::IteratorSpec::remaining(&it);
        match it.next() {
            Some(c) => {
                proof {
                    assert(v@.push(c) + vstd::std_specs::iter::IteratorSpec::remaining(&it) =~= total);
                }
                v.push(c);
            },
            None => {
                proof {
                    assert(v@ =~= total);
                }
                return v;
            },
        }
    }
}

/// Collects characters into a `String` (`String::from_iter`).
#[verifier::external_body]
pub(crate) fn string_of(v: &[char]) -> (r: String)
    ensures
        r@ == v@,
{
    String::from_iter(v.iter())
}

} // verus!
