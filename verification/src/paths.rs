//! Unix paths as strings, read the way `std::path::Path::components` reads
//! them: a leading `/` is the root, separators are `/` (repeated ones count
//! as one), a `.` component is dropped except at the very start of a relative
//! path, and a trailing separator is ignored.
//!
//! A component is written as the text `Path::components` gives for it
//! (`as_os_str`): `/` for the root, `.` for the current directory, `..` for
//! the parent directory, and the name itself otherwise.
use vstd::prelude::*;
use crate::text::{find_char_from, lemma_find_char_bounds, find_char, slice_of, string_of, chars_of, chars_eq, join, join_vec, push_all};

verus! {

/// The pieces of `s` between separators, starting at `i`.
pub open spec fn pieces_from(s: Seq<char>, i: int) -> Seq<Seq<char>>
    decreases s.len() + 1 - i,
    via pieces_from_decreases
{
    if i < 0 || i > s.len() {
        Seq::empty()
    } else {
        let j = find_char_from(s, i, '/');
        seq![s.subrange(i, j)] + pieces_from(s, j + 1)
    }
}

#[via_fn]
proof fn pieces_from_decreases(s: Seq<char>, i: int) {
    if 0 <= i <= s.len() {
        lemma_find_char_bounds(s, i, '/');
    }
}

/// The pieces of `s` between separators (`s.split('/')`).
pub open spec fn pieces(s: Seq<char>) -> Seq<Seq<char>> {
    pieces_from(s, 0)
}

/// The pieces that name a component in the middle of a path: neither empty
/// nor `.`.
pub open spec fn kept_pieces(ps: Seq<Seq<char>>) -> Seq<Seq<char>>
    decreases ps.len(),
{
    if ps.len() == 0 {
        ps
    } else if ps.last().len() == 0 || ps.last() == seq!['.'] {
        kept_pieces(ps.drop_last())
    } else {
        kept_pieces(ps.drop_last()).push(ps.last())
    }
}

/// Whether `s` starts at the root.
pub open spec fn is_rooted(s: Seq<char>) -> bool {
    s.len() > 0 && s[0] == '/'
}

/// Whether `s` starts with a `.` component (`.` alone or followed by `/`).
pub open spec fn starts_with_cur(s: Seq<char>) -> bool {
    s.len() > 0 && s[0] == '.' && (s.len() == 1 || s[1] == '/')
}

/// The components of a path.
pub open spec fn components_s(s: Seq<char>) -> Seq<Seq<char>> {
    let head: Seq<Seq<char>> = if is_rooted(s) {
        seq![seq!['/']]
    } else if starts_with_cur(s) {
        seq![seq!['.']]
    } else {
        Seq::empty()
    };
    head + kept_pieces(pieces(s))
}

/// A string slice's characters, as a `Seq`.
pub open spec fn strs_view(v: Seq<String>) -> Seq<Seq<char>> {
    v.map_values(|s: String| s@)
}

/// The characters of `s` from `i` to `j`, as a `Vec`.
fn piece(s: &Vec<char>, i: usize, j: usize) -> (r: Vec<char>)
    requires
        i <= j <= s.len(),
    ensures
        r@ == s@.subrange(i as int, j as int),
{
    slice_of(s, i, j)
}

/// The first index at or after `i` holding `/`, or the length.
fn next_sep(s: &Vec<char>, i: usize) -> (r: usize)
    requires
        i <= s.len(),
    ensures
        r == find_char_from(s@, i as int, '/'),
        i <= r <= s.len(),
{
    proof {
        lemma_find_char_bounds(s@, i as int, '/');
    }
    let mut k = i;
    while k < s.len() && s[k] != '/'
        invariant
            i <= k <= s.len(),
            find_char_from(s@, i as int, '/') == find_char_from(s@, k as int, '/'),
        decreases s.len() - k,
    {
        k = k + 1;
    }
    k
}

/// Whether `v` is the single character `.`.
fn is_dot(v: &Vec<char>) -> (r: bool)
    ensures
        r == (v@ == seq!['.']),
{
    if v.len() == 1 && v[0] == '.' {
        assert(v@ =~= seq!['.']);
        true
    } else {
        false
    }
}

/// The components of a path, each as its text.
pub fn components(path: &str) -> (r: Vec<String>)
    ensures
        strs_view(r@) == components_s(path@),
{
    let s = chars_of(path);
    let mut out: Vec<String> = Vec::new();
    if s.len() > 0 && s[0] == '/' {
        let slash = vec!['/'];
        assert(slash@ =~= seq!['/']);
        out.push(string_of(slash.as_slice()));
        assert(strs_view(out@) =~= seq![seq!['/']]);
    } else if s.len() > 0 && s[0] == '.' && (s.len() == 1 || s[1] == '/') {
        let dot = vec!['.'];
        assert(dot@ =~= seq!['.']);
        out.push(string_of(dot.as_slice()));
        assert(strs_view(out@) =~= seq![seq!['.']]);
    } else {
        assert(strs_view(out@) =~= Seq::<Seq<char>>::empty());
    }
    let ghost head = strs_view(out@);
    let ghost done: Seq<Seq<char>> = Seq::empty();
    let mut i: usize = 0;
    proof {
        assert(pieces(s@) == done + pieces_from(s@, 0));
        assert(head + kept_pieces(done) == strs_view(out@));
    }
    loop
        invariant
            i <= s.len(),
            s@ == path@,
            head == (if is_rooted(s@) {
                seq![seq!['/']]
            } else if starts_with_cur(s@) {
                seq![seq!['.']]
            } else {
                Seq::<Seq<char>>::empty()
            }),
            pieces(s@) == done + pieces_from(s@, i as int),
            strs_view(out@) == head + kept_pieces(done),
        decreases s.len() + 1 - i,
    {
        let j = next_sep(&s, i);
        let p = piece(&s, i, j);
        proof {
            assert(pieces_from(s@, i as int) == seq![p@] + pieces_from(s@, j + 1));
            assert(done.push(p@).drop_last() == done);
        }
        let ghost before = out@;
        if p.len() > 0 && !is_dot(&p) {
            out.push(string_of(p.as_slice()));
            proof {
                assert(strs_view(out@) == strs_view(before).push(p@));
            }
        }
        proof {
            done = done.push(p@);
        }
        if j >= s.len() {
            proof {
                assert(pieces_from(s@, j + 1) == Seq::<Seq<char>>::empty());
                assert(pieces(s@) == done);
            }
            return out;
        }
        i = j + 1;
    }
}

/// Joins the components of a path back into its text: the root and the
/// components after it, separated by `/`.
pub open spec fn render(c: Seq<Seq<char>>) -> Seq<char> {
    if c.len() > 0 && c[0] == seq!['/'] {
        seq!['/'] + join(c.skip(1), seq!['/'])
    } else {
        join(c, seq!['/'])
    }
}

/// The first position of `name` among the components `c`, or -1.
pub open spec fn first_pos(c: Seq<Seq<char>>, name: Seq<char>) -> int
    decreases c.len(),
{
    if c.len() == 0 {
        -1
    } else if first_pos(c.drop_last(), name) >= 0 {
        first_pos(c.drop_last(), name)
    } else if c.last() == name {
        c.len() - 1
    } else {
        -1
    }
}

/// `short_path`: `packages` followed by the components after the first
/// `packages` component; the path itself when it has none.
pub open spec fn short_path_s(path: Seq<char>) -> Seq<char> {
    let c = components_s(path);
    let k = first_pos(c, seq!['p', 'a', 'c', 'k', 'a', 'g', 'e', 's']);
    if k >= 0 {
        join(seq![seq!['p', 'a', 'c', 'k', 'a', 'g', 'e', 's']] + c.skip(k + 1), seq!['/'])
    } else {
        path
    }
}

/// Law: the short form of a path inside a `packages` directory does not
/// depend on where that directory lives: two paths with the same components
/// after their first `packages` component have the same short form.
pub proof fn law_short_path_relocatable(p1: Seq<char>, p2: Seq<char>)
    requires
        first_pos(components_s(p1), seq!['p', 'a', 'c', 'k', 'a', 'g', 'e', 's']) >= 0,
        first_pos(components_s(p2), seq!['p', 'a', 'c', 'k', 'a', 'g', 'e', 's']) >= 0,
        components_s(p1).skip(first_pos(components_s(p1), seq!['p', 'a', 'c', 'k', 'a', 'g', 'e', 's']) + 1)
            == components_s(p2).skip(first_pos(components_s(p2), seq!['p', 'a', 'c', 'k', 'a', 'g', 'e', 's']) + 1),
    ensures
        short_path_s(p1) == short_path_s(p2),
{
}

proof fn lemma_find_moved(x: Seq<char>, b: Seq<char>, k: int, c: char)
    requires
        0 <= k <= b.len(),
    ensures
        find_char_from(x + b, x.len() + k, c) == x.len() + find_char_from(b, k, c),
    decreases b.len() - k,
{
    if k < b.len() {
        assert((x + b)[x.len() + k] == b[k]);
        if b[k] != c {
            lemma_find_moved(x, b, k + 1, c);
        }
    }
}

proof fn lemma_find_past(a: Seq<char>, t: Seq<char>, i: int, c: char)
    requires
        0 <= i <= a.len(),
    ensures
        find_char_from(a, i, c) < a.len() ==> find_char_from(a + t, i, c) == find_char_from(a, i, c),
        find_char_from(a, i, c) >= a.len() ==> find_char_from(a + t, i, c) == a.len() + find_char_from(t, 0, c),
    decreases a.len() - i,
{
    if i == a.len() {
        lemma_find_moved(a, t, 0, c);
    } else {
        assert((a + t)[i] == a[i]);
        if a[i] != c {
            lemma_find_past(a, t, i + 1, c);
        }
    }
}

proof fn lemma_pieces_moved(x: Seq<char>, b: Seq<char>, k: int)
    requires
        0 <= k <= b.len() + 1,
    ensures
        pieces_from(x + b, x.len() + k) == pieces_from(b, k),
    decreases b.len() + 1 - k,
{
    if k <= b.len() {
        lemma_find_moved(x, b, k, '/');
        lemma_find_char_bounds(b, k, '/');
        let j = find_char_from(b, k, '/');
        assert((x + b).subrange(x.len() + k, x.len() + j) =~= b.subrange(k, j));
        lemma_pieces_moved(x, b, j + 1);
    }
}

proof fn lemma_pieces_concat_from(a: Seq<char>, b: Seq<char>, i: int)
    requires
        0 <= i <= a.len(),
    ensures
        pieces_from(a + seq!['/'] + b, i) == pieces_from(a, i) + pieces(b),
    decreases a.len() - i,
{
    let s = a + seq!['/'] + b;
    let t = seq!['/'] + b;
    assert(s =~= a + t);
    lemma_find_char_bounds(a, i, '/');
    lemma_find_past(a, t, i, '/');
    let j = find_char_from(a, i, '/');
    if j < a.len() {
        assert(s.subrange(i, j) =~= a.subrange(i, j));
        lemma_pieces_concat_from(a, b, j + 1);
        assert(pieces_from(s, i) =~= seq![a.subrange(i, j)] + (pieces_from(a, j + 1) + pieces(b)));
    } else {
        assert(t[0] == '/');
        assert(find_char_from(t, 0, '/') == 0);
        assert(s.subrange(i, j) =~= a.subrange(i, j));
        lemma_pieces_moved(a + seq!['/'], b, 0);
        assert(pieces_from(a, j + 1) =~= Seq::<Seq<char>>::empty());
        assert(pieces_from(s, i) =~= seq![a.subrange(i, j)] + pieces(b));
    }
}

proof fn lemma_kept_concat(x: Seq<Seq<char>>, y: Seq<Seq<char>>)
    ensures
        kept_pieces(x + y) == kept_pieces(x) + kept_pieces(y),
    decreases y.len(),
{
    if y.len() == 0 {
        assert(x + y =~= x);
        assert(kept_pieces(y) =~= y);
        assert(kept_pieces(x) + kept_pieces(y) =~= kept_pieces(x));
    } else {
        lemma_kept_concat(x, y.drop_last());
        assert((x + y).drop_last() =~= x + y.drop_last());
        assert((x + y).last() == y.last());
        if !(y.last().len() == 0 || y.last() == seq!['.']) {
            assert(kept_pieces(x + y.drop_last()).push(y.last()) =~= kept_pieces(x) + kept_pieces(y.drop_last()).push(y.last()));
        }
    }
}

proof fn lemma_no_sep(s: Seq<char>, i: int)
    requires
        0 <= i <= s.len(),
        forall|k: int| 0 <= k < s.len() ==> s[k] != '/',
    ensures
        find_char_from(s, i, '/') == s.len(),
    decreases s.len() - i,
{
    if i < s.len() {
        lemma_no_sep(s, i + 1);
    }
}

/// The components of `a` joined with a relative path `b` are those of `a`,
/// then the names of `b`.
pub proof fn lemma_join_components(a: Seq<char>, b: Seq<char>)
    requires
        a.len() > 0,
        !is_rooted(b),
    ensures
        components_s(join_s(a, b)) == components_s(a) + kept_pieces(pieces(b)),
{
    let e: Seq<char> = Seq::empty();
    assert(pieces(e) =~= seq![e]) by {
        assert(find_char_from(e, 0, '/') == 0);
        assert(e.subrange(0, 0) =~= e);
        assert(pieces_from(e, 1) =~= Seq::<Seq<char>>::empty());
    }
    assert(kept_pieces(seq![e]) =~= Seq::<Seq<char>>::empty()) by {
        assert(seq![e].drop_last() =~= Seq::<Seq<char>>::empty());
        assert(kept_pieces(Seq::<Seq<char>>::empty()) =~= Seq::<Seq<char>>::empty());
    }
    if a.last() == '/' {
        let a1 = a.drop_last();
        assert(a =~= a1 + seq!['/'] + e);
        assert(a + b =~= a1 + seq!['/'] + b);
        lemma_pieces_concat_from(a1, e, 0);
        lemma_pieces_concat_from(a1, b, 0);
        lemma_kept_concat(pieces(a1), pieces(e));
        lemma_kept_concat(pieces(a1), pieces(b));
        assert(kept_pieces(pieces(a)) =~= kept_pieces(pieces(a1)));
        assert(join_s(a, b) == a + b);
        if a1.len() >= 2 {
            assert((a + b)[1] == a[1]);
        }
        assert(components_s(join_s(a, b)) =~= components_s(a) + kept_pieces(pieces(b)));
    } else {
        let s = a + seq!['/'] + b;
        lemma_pieces_concat_from(a, b, 0);
        lemma_kept_concat(pieces(a), pieces(b));
        assert(s[0] == a[0]);
        if a.len() >= 2 {
            assert(s[1] == a[1]);
        } else {
            assert(s[1] == '/');
        }
        assert(components_s(s) =~= components_s(a) + kept_pieces(pieces(b)));
    }
}

/// Law: the short form of a path inside a `packages` directory does not
/// depend on where that directory lives. For paths `p` and `q` without a
/// `packages` component and a relative path `rel`, `p/packages/rel` and
/// `q/packages/rel` have the same short form, `packages` followed by the
/// names of `rel`; and `p` itself is its own short form.
pub proof fn law_short_path_join(p: Seq<char>, q: Seq<char>, rel: Seq<char>)
    requires
        first_pos(components_s(p), seq!['p', 'a', 'c', 'k', 'a', 'g', 'e', 's']) < 0,
        first_pos(components_s(q), seq!['p', 'a', 'c', 'k', 'a', 'g', 'e', 's']) < 0,
        !is_rooted(rel),
    ensures
        short_path_s(join_s(join_s(p, seq!['p', 'a', 'c', 'k', 'a', 'g', 'e', 's']), rel)) == short_path_s(
            join_s(join_s(q, seq!['p', 'a', 'c', 'k', 'a', 'g', 'e', 's']), rel),
        ),
        short_path_s(join_s(join_s(p, seq!['p', 'a', 'c', 'k', 'a', 'g', 'e', 's']), rel)) == join(
            seq![seq!['p', 'a', 'c', 'k', 'a', 'g', 'e', 's']] + kept_pieces(pieces(rel)),
            seq!['/'],
        ),
        short_path_s(p) == p,
{
    lemma_short_path_under(p, rel);
    lemma_short_path_under(q, rel);
}

proof fn lemma_short_path_under(p: Seq<char>, rel: Seq<char>)
    requires
        first_pos(components_s(p), seq!['p', 'a', 'c', 'k', 'a', 'g', 'e', 's']) < 0,
        !is_rooted(rel),
    ensures
        short_path_s(join_s(join_s(p, seq!['p', 'a', 'c', 'k', 'a', 'g', 'e', 's']), rel)) == join(
            seq![seq!['p', 'a', 'c', 'k', 'a', 'g', 'e', 's']] + kept_pieces(pieces(rel)),
            seq!['/'],
        ),
{
    let pk = seq!['p', 'a', 'c', 'k', 'a', 'g', 'e', 's'];
    let e: Seq<char> = Seq::empty();
    lemma_no_sep(pk, 0);
    assert(pieces(pk) =~= seq![pk]) by {
        assert(pk.subrange(0, 8) =~= pk);
        assert(pieces_from(pk, 9) =~= Seq::<Seq<char>>::empty());
    }
    assert(kept_pieces(seq![pk]) =~= seq![pk]) by {
        assert(seq![pk].drop_last() =~= Seq::<Seq<char>>::empty());
        assert(kept_pieces(Seq::<Seq<char>>::empty()) =~= Seq::<Seq<char>>::empty());
        assert(pk != seq!['.']) by {
            assert(pk.len() != 1);
        }
    }
    let p1 = join_s(p, pk);
    let cp = components_s(p);
    if p.len() == 0 {
        assert(pieces(e) =~= seq![e]) by {
            assert(find_char_from(e, 0, '/') == 0);
            assert(e.subrange(0, 0) =~= e);
            assert(pieces_from(e, 1) =~= Seq::<Seq<char>>::empty());
        }
        assert(kept_pieces(seq![e]) =~= Seq::<Seq<char>>::empty()) by {
            assert(seq![e].drop_last() =~= Seq::<Seq<char>>::empty());
            assert(kept_pieces(Seq::<Seq<char>>::empty()) =~= Seq::<Seq<char>>::empty());
        assert(kept_pieces(Seq::<Seq<char>>::empty()) =~= Seq::<Seq<char>>::empty());
        }
        assert(p =~= e);
        assert(cp =~= Seq::<Seq<char>>::empty());
        assert(p1 == pk);
        assert(components_s(p1) =~= cp + seq![pk]);
    } else {
        lemma_join_components(p, pk);
        assert(components_s(p1) =~= cp + seq![pk]);
    }
    lemma_join_components(p1, rel);
    let c = components_s(join_s(p1, rel));
    assert(c =~= cp + seq![pk] + kept_pieces(pieces(rel)));
    lemma_first_pos(cp, pk);
    lemma_first_pos(c, pk);
    let k = first_pos(c, pk);
    assert(c[cp.len() as int] == pk);
    if k < 0 {
        assert(c[cp.len() as int] != pk);
    }
    if k < cp.len() {
        assert(c[k] == cp[k]);
    }
    if k > cp.len() {
        assert(c[cp.len() as int] != pk);
    }
    assert(k == cp.len());
    assert(c.skip(k + 1) =~= kept_pieces(pieces(rel)));
}

proof fn lemma_first_pos(c: Seq<Seq<char>>, name: Seq<char>)
    ensures
        -1 <= first_pos(c, name) < c.len(),
        first_pos(c, name) >= 0 ==> c[first_pos(c, name)] == name,
        first_pos(c, name) >= 0 ==> forall|j: int| 0 <= j < first_pos(c, name) ==> c[j] != name,
        first_pos(c, name) < 0 ==> forall|j: int| 0 <= j < c.len() ==> c[j] != name,
    decreases c.len(),
{
    if c.len() > 0 {
        let d = c.drop_last();
        lemma_first_pos(d, name);
        assert forall|j: int| 0 <= j < d.len() implies d[j] == c[j] by {}
    }
}

/// Whether a string holds exactly the characters `lit`.
fn str_is(s: &String, lit: &str) -> (r: bool)
    ensures
        r == (s@ == lit@),
{
    let a = chars_of(s.as_str());
    let b = chars_of(lit);
    chars_eq(&a, &b)
}

/// Strips everything up to and including `packages/` from a path, for
/// machine-independent id comparison against pre-built api.json files.
pub fn short_path(path: &str) -> (r: String)
    ensures
        r@ == short_path_s(path@),
{
    proof {
        reveal_strlit("packages");
    }
    let comps = components(path);
    let ghost c = components_s(path@);
    let ghost name = seq!['p', 'a', 'c', 'k', 'a', 'g', 'e', 's'];
    proof {
        lemma_first_pos(c, name);
    }
    let mut k: usize = 0;
    while k < comps.len()
        invariant
            k <= comps.len(),
            strs_view(comps@) == c,
            c == components_s(path@),
            name == seq!['p', 'a', 'c', 'k', 'a', 'g', 'e', 's'],
            forall|j: int| 0 <= j < k ==> c[j] != name,
        decreases comps.len() - k,
    {
        proof {
            reveal_strlit("packages");
            assert("packages"@ =~= name);
        }
        if str_is(&comps[k], "packages") {
            proof {
                reveal_strlit("packages");
                lemma_first_pos(c, name);
                assert(c[k as int] == name);
                assert(first_pos(c, name) == k);
            }
            let mut parts: Vec<Vec<char>> = Vec::new();
            let first = chars_of("packages");
            parts.push(first);
            proof {
                reveal_strlit("packages");
                assert(parts@.map_values(|v: Vec<char>| v@) =~= seq![name] + c.subrange(k + 1, k + 1));
            }
            let mut m = k + 1;
            while m < comps.len()
                invariant
                    k < m <= comps.len(),
                    strs_view(comps@) == c,
                    parts@.map_values(|v: Vec<char>| v@) == seq![name] + c.subrange(k + 1, m as int),
                decreases comps.len() - m,
            {
                let ghost before = parts@;
                let piece = chars_of(comps[m].as_str());
                parts.push(piece);
                proof {
                    assert(c.subrange(k + 1, m + 1) == c.subrange(k + 1, m as int).push(c[m as int]));
                    assert(piece@ == c[m as int]);
                    assert(parts@.map_values(|v: Vec<char>| v@) =~= before.map_values(|v: Vec<char>| v@).push(piece@));
                }
                m = m + 1;
            }
            let joined = join_vec(&parts, '/');
            proof {
                lemma_first_pos(c, name);
                assert(first_pos(c, name) == k as int);
                assert(c.subrange(k + 1, comps.len() as int) == c.skip(k + 1));
                assert(parts@.map_values(|v: Vec<char>| v@) == seq![name] + c.skip(k + 1));
                assert(joined@ == short_path_s(path@));
            }
            return string_of(joined.as_slice());
        }
        k = k + 1;
    }
    proof {
        lemma_first_pos(c, name);
        assert(first_pos(c, name) < 0);
    }
    let all = chars_of(path);
    string_of(all.as_slice())
}


/// The last component of a path when it names a file or directory
/// (`Path::file_name`).
pub open spec fn file_name_s(path: Seq<char>) -> Option<Seq<char>> {
    let c = components_s(path);
    if c.len() > 0 && c.last() != seq!['/'] && c.last() != seq!['.'] && c.last() != seq!['.', '.'] {
        Some(c.last())
    } else {
        None
    }
}

/// The position of the last `.` in `n`, or -1.
pub open spec fn last_dot(n: Seq<char>) -> int
    decreases n.len(),
{
    if n.len() == 0 {
        -1
    } else if n.last() == '.' {
        n.len() - 1
    } else {
        last_dot(n.drop_last())
    }
}

/// The extension of a file name (`Path::extension`): what follows its last
/// `.`, unless that `.` is its first character or it has none.
pub open spec fn extension_s(name: Seq<char>) -> Option<Seq<char>> {
    let d = last_dot(name);
    if d <= 0 {
        None
    } else {
        Some(name.skip(d + 1))
    }
}

/// The extensions of the source files the documentation is read from.
pub open spec fn is_source_ext(e: Seq<char>) -> bool {
    ||| e == seq!['t', 's']
    ||| e == seq!['t', 's', 'x']
    ||| e == seq!['m', 't', 's']
    ||| e == seq!['c', 't', 's']
    ||| e == seq!['j', 's']
    ||| e == seq!['j', 's', 'x']
    ||| e == seq!['m', 'j', 's']
    ||| e == seq!['c', 'j', 's']
}

/// Whether a path names a TypeScript or JavaScript source file.
pub open spec fn is_source_file_s(path: Seq<char>) -> bool {
    match file_name_s(path) {
        Some(n) => match extension_s(n) {
            Some(e) => is_source_ext(e),
            None => false,
        },
        None => false,
    }
}

proof fn lemma_last_dot(n: Seq<char>)
    ensures
        -1 <= last_dot(n) < n.len(),
        last_dot(n) >= 0 ==> n[last_dot(n)] == '.',
        forall|j: int| last_dot(n) < j < n.len() ==> n[j] != '.',
    decreases n.len(),
{
    if n.len() > 0 {
        let d = n.drop_last();
        lemma_last_dot(d);
        assert forall|j: int| last_dot(n) < j < n.len() implies n[j] != '.' by {
            if j < d.len() {
                assert(d[j] == n[j]);
            }
        }
    }
}

/// Whether `v` is the one character `a`.
fn eq1(v: &Vec<char>, a: char) -> (r: bool)
    ensures
        r == (v@ == seq![a]),
{
    if v.len() == 1 && v[0] == a {
        assert(v@ =~= seq![a]);
        true
    } else {
        false
    }
}

/// Whether `v` is the two characters `a`, `b`.
fn eq2(v: &Vec<char>, a: char, b: char) -> (r: bool)
    ensures
        r == (v@ == seq![a, b]),
{
    if v.len() == 2 && v[0] == a && v[1] == b {
        assert(v@ =~= seq![a, b]);
        true
    } else {
        false
    }
}

/// Whether `v` is the three characters `a`, `b`, `c`.
fn eq3(v: &Vec<char>, a: char, b: char, c: char) -> (r: bool)
    ensures
        r == (v@ == seq![a, b, c]),
{
    if v.len() == 3 && v[0] == a && v[1] == b && v[2] == c {
        assert(v@ =~= seq![a, b, c]);
        true
    } else {
        false
    }
}

/// Whether a path names a TypeScript or JavaScript source file.
pub fn is_source_file(path: &str) -> (r: bool)
    ensures
        r == is_source_file_s(path@),
{
    let comps = components(path);
    if comps.len() == 0 {
        return false;
    }
    let name = chars_of(comps[comps.len() - 1].as_str());
    proof {
        assert(name@ == components_s(path@).last());
    }
    if eq1(&name, '/') || eq1(&name, '.') || eq2(&name, '.', '.') {
        return false;
    }
    proof {
        lemma_last_dot(name@);
    }
    let mut d = name.len();
    while d > 0 && name[d - 1] != '.'
        invariant
            d <= name.len(),
            forall|j: int| d <= j < name.len() ==> name@[j] != '.',
            last_dot(name@) < d,
            -1 <= last_dot(name@) < name@.len(),
            last_dot(name@) >= 0 ==> name@[last_dot(name@)] == '.',
            forall|j: int| last_dot(name@) < j < name@.len() ==> name@[j] != '.',
        decreases d,
    {
        d = d - 1;
    }
    if d <= 1 {
        proof {
            if d == 1 {
                assert(last_dot(name@) == 0);
            } else {
                assert(last_dot(name@) == -1);
            }
        }
        return false;
    }
    proof {
        assert(last_dot(name@) == d - 1);
    }
    let ext = slice_of(&name, d, name.len());
    proof {
        assert(ext@ == name@.skip(d as int));
    }
    eq2(&ext, 't', 's') || eq3(&ext, 't', 's', 'x') || eq3(&ext, 'm', 't', 's') || eq3(&ext, 'c', 't', 's')
        || eq2(&ext, 'j', 's') || eq3(&ext, 'j', 's', 'x') || eq3(&ext, 'm', 'j', 's') || eq3(&ext, 'c', 'j', 's')
}

/// Whether the path is rooted, and the names left after resolving the first
/// `k` components: a root clears the names, `.` changes nothing, `..` drops
/// the last name (if any), and any other component is added.
pub open spec fn resolve_dots(c: Seq<Seq<char>>) -> (bool, Seq<Seq<char>>)
    decreases c.len(),
{
    if c.len() == 0 {
        (false, Seq::empty())
    } else {
        let (rooted, names) = resolve_dots(c.drop_last());
        let x = c.last();
        if x == seq!['/'] {
            (true, Seq::empty())
        } else if x == seq!['.'] {
            (rooted, names)
        } else if x == seq!['.', '.'] {
            (rooted, if names.len() > 0 { names.drop_last() } else { names })
        } else {
            (rooted, names.push(x))
        }
    }
}

/// A path with `.` and `..` resolved lexically.
pub open spec fn normalize_s(path: Seq<char>) -> Seq<char> {
    let (rooted, names) = resolve_dots(components_s(path));
    (if rooted { seq!['/'] } else { Seq::empty() }) + join(names, seq!['/'])
}

/// The characters of each string.
fn chars_list(v: &Vec<String>) -> (r: Vec<Vec<char>>)
    ensures
        r@.map_values(|x: Vec<char>| x@) == strs_view(v@),
{
    let mut out: Vec<Vec<char>> = Vec::new();
    let mut k: usize = 0;
    while k < v.len()
        invariant
            k <= v.len(),
            out@.map_values(|x: Vec<char>| x@) == strs_view(v@).take(k as int),
        decreases v.len() - k,
    {
        let ghost before = out@;
        let c = chars_of(v[k].as_str());
        out.push(c);
        proof {
            assert(out@.map_values(|x: Vec<char>| x@) =~= before.map_values(|x: Vec<char>| x@).push(c@));
            assert(strs_view(v@).take(k + 1) =~= strs_view(v@).take(k as int).push(v@[k as int]@));
        }
        k = k + 1;
    }
    proof {
        assert(strs_view(v@).take(v.len() as int) =~= strs_view(v@));
    }
    out
}

/// Resolves `.`/`..` components without touching the filesystem.
pub fn normalize(path: &str) -> (r: String)
    ensures
        r@ == normalize_s(path@),
{
    let comps = chars_list(&components(path));
    let ghost c = components_s(path@);
    let mut rooted = false;
    let mut names: Vec<Vec<char>> = Vec::new();
    let mut k: usize = 0;
    while k < comps.len()
        invariant
            k <= comps.len(),
            comps@.map_values(|x: Vec<char>| x@) == c,
            (rooted, names@.map_values(|x: Vec<char>| x@)) == resolve_dots(c.take(k as int)),
        decreases comps.len() - k,
    {
        let x = &comps[k];
        proof {
            assert(c.take(k + 1).drop_last() =~= c.take(k as int));
            assert(c.take(k + 1).last() == x@);
        }
        let ghost before = names@;
        if eq1(x, '/') {
            rooted = true;
            names = Vec::new();
            proof {
                assert(names@.map_values(|x: Vec<char>| x@) =~= Seq::<Seq<char>>::empty());
            }
        } else if eq1(x, '.') {
        } else if eq2(x, '.', '.') {
            if names.len() > 0 {
                names.pop();
                proof {
                    assert(names@.map_values(|x: Vec<char>| x@) =~= before.map_values(|x: Vec<char>| x@).drop_last());
                }
            }
        } else {
            names.push(slice_of(x, 0, x.len()));
            proof {
                assert(x@.subrange(0, x@.len() as int) == x@);
                assert(names@.map_values(|x: Vec<char>| x@) =~= before.map_values(|x: Vec<char>| x@).push(x@));
            }
        }
        k = k + 1;
    }
    proof {
        assert(c.take(comps.len() as int) =~= c);
    }
    let mut out: Vec<char> = Vec::new();
    if rooted {
        out.push('/');
    }
    let body = join_vec(&names, '/');
    push_all(&mut out, &body);
    proof {
        if rooted {
            assert(out@ =~= seq!['/'] + body@);
        } else {
            assert(out@ =~= Seq::<char>::empty() + body@);
        }
    }
    string_of(out.as_slice())
}


/// The fewest components an ancestor keeps: a root is never dropped.
pub open spec fn min_kept(c: Seq<Seq<char>>) -> int {
    if c.len() > 0 && c[0] == seq!['/'] {
        1
    } else {
        0
    }
}

/// How many ancestors a path with components `c` has (`Path::parent`
/// applied until it gives `None`).
pub open spec fn ancestor_count(c: Seq<Seq<char>>) -> int {
    if c.len() > min_kept(c) {
        c.len() - min_kept(c)
    } else {
        0
    }
}

/// The `i`-th ancestor of a path with components `c` (0: its parent).
pub open spec fn ancestor(c: Seq<Seq<char>>, i: int) -> Seq<char> {
    render(c.take(c.len() - 1 - i))
}

/// The first of the first `n` flags that is set, or -1.
pub open spec fn first_true(flags: Seq<bool>, n: int) -> int
    decreases n,
{
    if n <= 0 {
        -1
    } else if first_true(flags, n - 1) >= 0 {
        first_true(flags, n - 1)
    } else if flags[n - 1] {
        n - 1
    } else {
        -1
    }
}

/// The project root of `entry`, given for each of its ancestors (nearest
/// first) whether it holds a `node_modules` directory: the nearest ancestor
/// that does, else the entry's directory, else `.`.
pub open spec fn project_root_s(entry: Seq<char>, has_node_modules: Seq<bool>) -> Seq<char> {
    let c = components_s(entry);
    let n = ancestor_count(c);
    let m = if has_node_modules.len() < n { has_node_modules.len() as int } else { n };
    let i = first_true(has_node_modules, m);
    if i >= 0 {
        ancestor(c, i)
    } else if n > 0 {
        ancestor(c, 0)
    } else {
        seq!['.']
    }
}

/// The text of the first `k` of the components `comps`.
fn render_prefix(comps: &Vec<Vec<char>>, k: usize) -> (r: Vec<char>)
    requires
        k <= comps.len(),
    ensures
        r@ == render(comps@.map_values(|x: Vec<char>| x@).take(k as int)),
{
    let ghost cv = comps@.map_values(|x: Vec<char>| x@);
    let ghost t = cv.take(k as int);
    let rooted = k > 0 && eq1(&comps[0], '/');
    let start: usize = if rooted { 1 } else { 0 };
    let mut parts: Vec<Vec<char>> = Vec::new();
    let mut m = start;
    while m < k
        invariant
            start <= m <= k <= comps.len(),
            cv == comps@.map_values(|x: Vec<char>| x@),
            parts@.map_values(|x: Vec<char>| x@) == cv.subrange(start as int, m as int),
        decreases k - m,
    {
        let ghost before = parts@;
        let piece = slice_of(&comps[m], 0, comps[m].len());
        parts.push(piece);
        proof {
            assert(comps@[m as int]@.subrange(0, comps@[m as int]@.len() as int) == comps@[m as int]@);
            assert(parts@.map_values(|x: Vec<char>| x@) =~= before.map_values(|x: Vec<char>| x@).push(cv[m as int]));
            assert(cv.subrange(start as int, m + 1) =~= cv.subrange(start as int, m as int).push(cv[m as int]));
        }
        m = m + 1;
    }
    let body = join_vec(&parts, '/');
    let mut out: Vec<char> = Vec::new();
    if rooted {
        out.push('/');
    }
    push_all(&mut out, &body);
    proof {
        if rooted {
            assert(t[0] == cv[0]);
            assert(cv.subrange(1, k as int) =~= t.skip(1));
            assert(out@ =~= seq!['/'] + body@);
        } else {
            assert(cv.subrange(0, k as int) =~= t);
            assert(out@ =~= body@);
        }
    }
    out
}

/// The ancestors of `entry`, nearest first (`Path::parent` applied until it
/// gives `None`).
pub fn project_root_candidates(entry: &str) -> (r: Vec<String>)
    ensures
        r@.len() == ancestor_count(components_s(entry@)),
        forall|i: int| 0 <= i < r@.len() ==> #[trigger] r@[i]@ == ancestor(components_s(entry@), i),
{
    let comps = chars_list(&components(entry));
    let ghost c = components_s(entry@);
    let lo: usize = if comps.len() > 0 && eq1(&comps[0], '/') { 1 } else { 0 };
    let mut out: Vec<String> = Vec::new();
    let mut k = comps.len();
    while k > lo
        invariant
            lo <= k <= comps.len(),
            comps@.map_values(|x: Vec<char>| x@) == c,
            lo == min_kept(c),
            out@.len() == comps.len() - k,
            forall|i: int| 0 <= i < out@.len() ==> #[trigger] out@[i]@ == ancestor(c, i),
        decreases k,
    {
        let text = render_prefix(&comps, k - 1);
        let ghost before = out@;
        out.push(string_of(text.as_slice()));
        proof {
            assert forall|i: int| 0 <= i < out@.len() implies #[trigger] out@[i]@ == ancestor(c, i) by {
                if i < before.len() {
                    assert(out@[i] == before[i]);
                }
            }
        }
        k = k - 1;
    }
    out
}

/// The nearest ancestor of `entry` that holds a `node_modules` directory
/// (`has_node_modules[i]` tells whether the `i`-th ancestor does, nearest
/// first; an ancestor without a flag counts as not holding one), falling back
/// to the entry's directory, then to `.`.
pub fn find_project_root(entry: &str, has_node_modules: &Vec<bool>) -> (r: String)
    ensures
        r@ == project_root_s(entry@, has_node_modules@),
{
    let candidates = project_root_candidates(entry);
    let ghost c = components_s(entry@);
    let n = candidates.len();
    let m = if has_node_modules.len() < n { has_node_modules.len() } else { n };
    let mut i: usize = 0;
    while i < m
        invariant
            i <= m <= n,
            n == candidates@.len(),
            c == components_s(entry@),
            n == ancestor_count(c),
            forall|j: int| 0 <= j < candidates@.len() ==> #[trigger] candidates@[j]@ == ancestor(c, j),
            m == (if has_node_modules@.len() < n { has_node_modules@.len() as int } else { n as int }),
            m <= has_node_modules.len(),
            first_true(has_node_modules@, i as int) == -1,
        decreases m - i,
    {
        if has_node_modules[i] {
            proof {
                assert(first_true(has_node_modules@, i + 1) == i);
                lemma_first_true_stable(has_node_modules@, i + 1, m as int);
            }
            return candidates[i].clone();
        }
        i = i + 1;
    }
    if n > 0 {
        candidates[0].clone()
    } else {
        let dot = vec!['.'];
        proof {
            assert(dot@ =~= seq!['.']);
        }
        string_of(dot.as_slice())
    }
}

proof fn lemma_first_true_stable(flags: Seq<bool>, a: int, b: int)
    requires
        0 <= a <= b,
        first_true(flags, a) >= 0,
    ensures
        first_true(flags, b) == first_true(flags, a),
    decreases b - a,
{
    if b > a {
        lemma_first_true_stable(flags, a, b - 1);
    }
}

/// Whether two paths have the same components (`Path` equality).
pub fn same_path(a: &str, b: &str) -> (r: bool)
    ensures
        r == (components_s(a@) == components_s(b@)),
{
    let x = chars_list(&components(a));
    let y = chars_list(&components(b));
    let ghost xv = x@.map_values(|v: Vec<char>| v@);
    let ghost yv = y@.map_values(|v: Vec<char>| v@);
    if x.len() != y.len() {
        proof {
            assert(xv.len() != yv.len());
        }
        return false;
    }
    let mut k: usize = 0;
    while k < x.len()
        invariant
            k <= x.len() == y.len(),
            xv == x@.map_values(|v: Vec<char>| v@),
            yv == y@.map_values(|v: Vec<char>| v@),
            forall|i: int| 0 <= i < k ==> #[trigger] xv[i] == yv[i],
            xv == components_s(a@),
            yv == components_s(b@),
        decreases x.len() - k,
    {
        if !chars_eq(&x[k], &y[k]) {
            proof {
                assert(xv[k as int] != yv[k as int]);
            }
            return false;
        }
        k = k + 1;
    }
    proof {
        assert(xv =~= yv);
    }
    true
}

/// The directory part of a path (`Path::parent`): all components but the
/// last, unless the path is empty or only a root.
pub open spec fn parent_s(path: Seq<char>) -> Option<Seq<char>> {
    let c = components_s(path);
    if c.len() > 0 && c.last() != seq!['/'] {
        Some(render(c.drop_last()))
    } else {
        None
    }
}

/// `base` with the path `rel` appended (`Path::join`): an absolute `rel`
/// replaces `base`; otherwise a separator goes between them unless `base` is
/// empty or ends with one.
pub open spec fn join_s(base: Seq<char>, rel: Seq<char>) -> Seq<char> {
    if rel.len() > 0 && rel[0] == '/' {
        rel
    } else if base.len() == 0 {
        rel
    } else if base.last() == '/' {
        base + rel
    } else {
        base + seq!['/'] + rel
    }
}

/// The directory part of a path (`Path::parent`).
pub fn parent(path: &str) -> (r: Option<String>)
    ensures
        r matches Some(p) ==> parent_s(path@) == Some(p@),
        r is None ==> parent_s(path@) is None,
{
    let comps = chars_list(&components(path));
    let ghost c = components_s(path@);
    if comps.len() == 0 || eq1(&comps[comps.len() - 1], '/') {
        return None;
    }
    let text = render_prefix(&comps, comps.len() - 1);
    proof {
        assert(c.take(c.len() - 1) =~= c.drop_last());
    }
    Some(string_of(text.as_slice()))
}

/// `base` with the path `rel` appended (`Path::join`).
pub fn join_path(base: &str, rel: &str) -> (r: String)
    ensures
        r@ == join_s(base@, rel@),
{
    let b = chars_of(base);
    let q = chars_of(rel);
    if q.len() > 0 && q[0] == '/' {
        return string_of(q.as_slice());
    }
    let mut out = b.clone();
    proof {
        assert(out@ == b@);
    }
    if b.len() > 0 && b[b.len() - 1] != '/' {
        out.push('/');
    }
    push_all(&mut out, &q);
    proof {
        if b.len() == 0 {
            assert(out@ =~= q@);
        }
    }
    string_of(out.as_slice())
}

// ---------------------------------------------------------------------------
// Normalizing twice.

/// No `/` in `s` from `i` on.
pub open spec fn no_slash_from(s: Seq<char>, i: int) -> bool {
    forall|k: int| i <= k < s.len() ==> s[k] != '/'
}

/// A name a normalized path is made of: not empty, not `.` or `..`, and
/// without a separator.
pub open spec fn clean_name(n: Seq<char>) -> bool {
    n.len() > 0 && n != seq!['.'] && n != seq!['.', '.'] && no_slash_from(n, 0)
}

/// A component as `components_s` gives it: the root, `.`, or a non-empty
/// text without a separator.
pub open spec fn component_ok(x: Seq<char>) -> bool {
    x == seq!['/'] || x == seq!['.'] || (x.len() > 0 && no_slash_from(x, 0))
}

/// Before the first `/` from `i` there is none.
proof fn lemma_find_before(s: Seq<char>, i: int)
    requires
        0 <= i <= s.len(),
    ensures
        forall|k: int| i <= k < find_char_from(s, i, '/') ==> s[k] != '/',
    decreases s.len() - i,
{
    if i < s.len() && s[i] != '/' {
        lemma_find_before(s, i + 1);
    }
}

/// Without a `/` from `i` on, the search runs to the end.
proof fn lemma_find_none(s: Seq<char>, i: int)
    requires
        0 <= i <= s.len(),
        no_slash_from(s, i),
    ensures
        find_char_from(s, i, '/') == s.len(),
    decreases s.len() - i,
{
    if i < s.len() {
        lemma_find_none(s, i + 1);
    }
}

/// Searching in `p + t` past `p` is searching in `t`.
proof fn lemma_find_shift(p: Seq<char>, t: Seq<char>, i: int)
    requires
        0 <= i <= t.len(),
    ensures
        find_char_from(p + t, p.len() + i, '/') == p.len() + find_char_from(t, i, '/'),
    decreases t.len() - i,
{
    if i < t.len() {
        assert((p + t)[p.len() + i] == t[i]);
        if t[i] != '/' {
            lemma_find_shift(p, t, i + 1);
        }
    }
}

/// Searching in `s`, which is `a` followed by a `/`, finds what searching
/// `a` finds (its end, when `a` has no `/`).
proof fn lemma_find_prefix(a: Seq<char>, s: Seq<char>, i: int)
    requires
        0 <= i <= a.len(),
        a.len() < s.len(),
        forall|k: int| 0 <= k < a.len() ==> s[k] == a[k],
        s[a.len() as int] == '/',
    ensures
        find_char_from(s, i, '/') == find_char_from(a, i, '/'),
    decreases a.len() - i,
{
    if i < a.len() && a[i] != '/' {
        lemma_find_prefix(a, s, i + 1);
    }
}

/// The pieces of `p + t` past `p` are those of `t`.
proof fn lemma_pieces_shift(p: Seq<char>, t: Seq<char>, i: int)
    requires
        0 <= i <= t.len() + 1,
    ensures
        pieces_from(p + t, p.len() + i) == pieces_from(t, i),
    decreases t.len() + 1 - i,
{
    if i <= t.len() {
        lemma_find_shift(p, t, i);
        lemma_find_char_bounds(t, i, '/');
        let j = find_char_from(t, i, '/');
        assert((p + t).subrange(p.len() + i, p.len() + j) =~= t.subrange(i, j));
        lemma_pieces_shift(p, t, j + 1);
    }
}

/// The pieces of a text without `/`, from its start, are the text itself.
proof fn lemma_pieces_single(b: Seq<char>)
    requires
        no_slash_from(b, 0),
    ensures
        pieces_from(b, 0) == seq![b],
{
    lemma_find_none(b, 0);
    assert(b.subrange(0, b.len() as int) =~= b);
    assert(pieces_from(b, b.len() as int + 1) == Seq::<Seq<char>>::empty());
}

/// Appending `/` and a text without `/` appends that text as a piece.
proof fn lemma_pieces_append(a: Seq<char>, b: Seq<char>, i: int)
    requires
        0 <= i <= a.len(),
        no_slash_from(b, 0),
    ensures
        pieces_from(a + seq!['/'] + b, i) == pieces_from(a, i).push(b),
    decreases a.len() - i,
{
    let s = a + seq!['/'] + b;
    lemma_find_prefix(a, s, i);
    lemma_find_char_bounds(a, i, '/');
    let ja = find_char_from(a, i, '/');
    assert(s.subrange(i, ja) =~= a.subrange(i, ja));
    if ja < a.len() {
        lemma_pieces_append(a, b, ja + 1);
        assert(pieces_from(s, i) =~= seq![a.subrange(i, ja)] + pieces_from(a, ja + 1).push(b));
        assert(pieces_from(a, i) =~= seq![a.subrange(i, ja)] + pieces_from(a, ja + 1));
    } else {
        lemma_pieces_shift(a + seq!['/'], b, 0);
        lemma_pieces_single(b);
        assert(pieces_from(a, ja + 1) == Seq::<Seq<char>>::empty());
        assert(pieces_from(s, i) =~= seq![a.subrange(i, ja)] + seq![b]);
    }
}

/// Splitting names joined by `/` gives the names back.
proof fn lemma_pieces_join(names: Seq<Seq<char>>)
    requires
        names.len() > 0,
        forall|k: int| 0 <= k < names.len() ==> no_slash_from(#[trigger] names[k], 0),
    ensures
        pieces(join(names, seq!['/'])) == names,
    decreases names.len(),
{
    if names.len() == 1 {
        lemma_pieces_single(names[0]);
        assert(names =~= seq![names[0]]);
    } else {
        let init = names.drop_last();
        lemma_pieces_join(init);
        lemma_pieces_append(join(init, seq!['/']), names.last(), 0);
        assert(names =~= init.push(names.last()));
    }
}

/// Names joined by a separator start with the first name.
proof fn lemma_join_head(names: Seq<Seq<char>>, sep: Seq<char>)
    requires
        names.len() > 0,
    ensures
        join(names, sep).len() >= names[0].len(),
        forall|k: int| 0 <= k < names[0].len() ==> join(names, sep)[k] == names[0][k],
    decreases names.len(),
{
    if names.len() > 1 {
        lemma_join_head(names.drop_last(), sep);
        assert(names.drop_last()[0] == names[0]);
    }
}

/// The pieces of a text have no `/`.
proof fn lemma_pieces_no_slash(s: Seq<char>, i: int)
    ensures
        forall|k: int| 0 <= k < pieces_from(s, i).len() ==> no_slash_from(#[trigger] pieces_from(s, i)[k], 0),
    decreases s.len() + 1 - i,
{
    if 0 <= i <= s.len() {
        lemma_find_char_bounds(s, i, '/');
        lemma_find_before(s, i);
        let j = find_char_from(s, i, '/');
        lemma_pieces_no_slash(s, j + 1);
        let ps = pieces_from(s, i);
        assert forall|k: int| 0 <= k < ps.len() implies no_slash_from(#[trigger] ps[k], 0) by {
            if k == 0 {
                assert(ps[0] == s.subrange(i, j));
            } else {
                assert(ps[k] == pieces_from(s, j + 1)[k - 1]);
            }
        }
    }
}

/// The kept pieces are not empty, and have no `/` when the pieces have none.
proof fn lemma_kept_ok(ps: Seq<Seq<char>>)
    requires
        forall|k: int| 0 <= k < ps.len() ==> no_slash_from(#[trigger] ps[k], 0),
    ensures
        forall|k: int| 0 <= k < kept_pieces(ps).len() ==> component_ok(#[trigger] kept_pieces(ps)[k]),
    decreases ps.len(),
{
    if ps.len() > 0 {
        let init = ps.drop_last();
        assert forall|k: int| 0 <= k < init.len() implies no_slash_from(#[trigger] init[k], 0) by {
            assert(init[k] == ps[k]);
        }
        lemma_kept_ok(init);
        let x = ps.last();
        assert(no_slash_from(ps[ps.len() - 1], 0));
        let kp = kept_pieces(ps);
        let ki = kept_pieces(init);
        if !(x.len() == 0 || x == seq!['.']) {
            assert(kp == ki.push(x));
            assert forall|k: int| 0 <= k < kp.len() implies component_ok(#[trigger] kp[k]) by {
                if k < ki.len() {
                    assert(kp[k] == ki[k]);
                } else {
                    assert(kp[k] == x);
                }
            }
        }
    }
}

/// The components of a path are each the root, `.`, or a plain name.
proof fn lemma_components_ok(s: Seq<char>)
    ensures
        forall|k: int| 0 <= k < components_s(s).len() ==> component_ok(#[trigger] components_s(s)[k]),
{
    lemma_pieces_no_slash(s, 0);
    lemma_kept_ok(pieces(s));
    let c = components_s(s);
    let kept = kept_pieces(pieces(s));
    let head = c.len() - kept.len();
    assert forall|k: int| 0 <= k < c.len() implies component_ok(#[trigger] c[k]) by {
        if k >= head {
            assert(c[k] == kept[k - head]);
        }
    }
}

/// The names left after resolving the components are clean.
proof fn lemma_resolved_clean(c: Seq<Seq<char>>)
    requires
        forall|k: int| 0 <= k < c.len() ==> component_ok(#[trigger] c[k]),
    ensures
        forall|k: int| 0 <= k < resolve_dots(c).1.len() ==> clean_name(#[trigger] resolve_dots(c).1[k]),
    decreases c.len(),
{
    if c.len() > 0 {
        let init = c.drop_last();
        assert forall|k: int| 0 <= k < init.len() implies component_ok(#[trigger] init[k]) by {
            assert(init[k] == c[k]);
        }
        lemma_resolved_clean(init);
        let x = c.last();
        assert(component_ok(c[c.len() - 1]));
        let ni = resolve_dots(init).1;
        let n = resolve_dots(c).1;
        if x == seq!['/'] {
            assert(n.len() == 0);
        } else if x == seq!['.'] {
            assert(n == ni);
        } else if x == seq!['.', '.'] {
            if ni.len() > 0 {
                assert(n == ni.drop_last());
                assert forall|k: int| 0 <= k < n.len() implies clean_name(#[trigger] n[k]) by {
                    assert(n[k] == ni[k]);
                }
            } else {
                assert(n == ni);
            }
        } else {
            assert(clean_name(x));
            assert(n == ni.push(x));
            assert forall|k: int| 0 <= k < n.len() implies clean_name(#[trigger] n[k]) by {
                if k < ni.len() {
                    assert(n[k] == ni[k]);
                } else {
                    assert(n[k] == x);
                }
            }
        }
    }
}

/// Clean names are all kept, also after a leading empty piece.
proof fn lemma_kept_clean(ns: Seq<Seq<char>>)
    requires
        forall|k: int| 0 <= k < ns.len() ==> clean_name(#[trigger] ns[k]),
    ensures
        kept_pieces(ns) == ns,
        kept_pieces(seq![Seq::<char>::empty()] + ns) == ns,
    decreases ns.len(),
{
    let e = Seq::<char>::empty();
    if ns.len() == 0 {
        assert(seq![e] + ns =~= seq![e]);
        assert(seq![e].drop_last() =~= Seq::<Seq<char>>::empty());
        assert(kept_pieces(Seq::<Seq<char>>::empty()) =~= Seq::<Seq<char>>::empty());
        assert(kept_pieces(seq![e]) == kept_pieces(Seq::<Seq<char>>::empty()));
    } else {
        let init = ns.drop_last();
        assert forall|k: int| 0 <= k < init.len() implies clean_name(#[trigger] init[k]) by {
            assert(init[k] == ns[k]);
        }
        lemma_kept_clean(init);
        let x = ns.last();
        assert(clean_name(ns[ns.len() - 1]));
        assert(!(x.len() == 0 || x == seq!['.']));
        assert(ns =~= init.push(x));
        assert(kept_pieces(ns) == kept_pieces(init).push(x));
        let all = seq![e] + ns;
        assert(all.drop_last() =~= seq![e] + init);
        assert(all.last() == x);
        assert(kept_pieces(all) == kept_pieces(seq![e] + init).push(x));
    }
}

/// Resolving clean names (after the root, when rooted) changes nothing.
proof fn lemma_resolve_clean(rooted: bool, ns: Seq<Seq<char>>)
    requires
        forall|k: int| 0 <= k < ns.len() ==> clean_name(#[trigger] ns[k]),
    ensures
        resolve_dots(
            if rooted {
                seq![seq!['/']]
            } else {
                Seq::empty()
            } + ns,
        ) == (rooted, ns),
    decreases ns.len(),
{
    let head: Seq<Seq<char>> = if rooted {
        seq![seq!['/']]
    } else {
        Seq::empty()
    };
    if ns.len() == 0 {
        assert(head + ns =~= head);
        if rooted {
            assert(head.drop_last() =~= Seq::<Seq<char>>::empty());
        }
    } else {
        let init = ns.drop_last();
        assert((head + ns).drop_last() =~= head + init);
        assert((head + ns).last() == ns.last());
        assert forall|k: int| 0 <= k < init.len() implies clean_name(#[trigger] init[k]) by {
            assert(init[k] == ns[k]);
        }
        lemma_resolve_clean(rooted, init);
        let x = ns.last();
        assert(clean_name(ns[ns.len() - 1]));
        assert(x != seq!['/']) by {
            if x == seq!['/'] {
                assert(x[0] == '/');
            }
        }
        assert(ns =~= init.push(x));
    }
}

/// Law: normalizing a normalized path changes nothing.
pub proof fn law_normalize_idempotent(path: Seq<char>)
    ensures
        normalize_s(normalize_s(path)) == normalize_s(path),
{
    lemma_normalized_components(path);
    let c = components_s(path);
    lemma_components_ok(path);
    lemma_resolved_clean(c);
    lemma_resolve_clean(resolve_dots(c).0, resolve_dots(c).1);
}

/// Law: a normalized path has no `.` or `..` component.
pub proof fn law_normalize_no_dots(path: Seq<char>)
    ensures
        forall|k: int| 0 <= k < components_s(normalize_s(path)).len() ==> #[trigger] components_s(normalize_s(path))[k]
            != seq!['.'] && components_s(normalize_s(path))[k] != seq!['.', '.'],
{
    lemma_normalized_components(path);
    let c = components_s(path);
    lemma_components_ok(path);
    lemma_resolved_clean(c);
    let names = resolve_dots(c).1;
    let q = components_s(normalize_s(path));
    assert forall|k: int| 0 <= k < q.len() implies #[trigger] q[k] != seq!['.'] && q[k] != seq!['.', '.'] by {
        if resolve_dots(c).0 {
            if k == 0 {
                assert(q[0] == seq!['/']);
                assert(seq!['/'][0] != seq!['.'][0]);
            } else {
                assert(q[k] == names[k - 1]);
                assert(clean_name(names[k - 1]));
            }
        } else {
            assert(q[k] == names[k]);
            assert(clean_name(names[k]));
        }
    }
}

/// The components of a normalized path: the root when the path is rooted,
/// then the names left after resolving `.` and `..`.
proof fn lemma_normalized_components(path: Seq<char>)
    ensures
        components_s(normalize_s(path)) == (if resolve_dots(components_s(path)).0 {
            seq![seq!['/']]
        } else {
            Seq::<Seq<char>>::empty()
        }) + resolve_dots(components_s(path)).1,
{
    let c = components_s(path);
    let rooted = resolve_dots(c).0;
    let names = resolve_dots(c).1;
    lemma_components_ok(path);
    lemma_resolved_clean(c);
    let sep = seq!['/'];
    let j = join(names, sep);
    let q = normalize_s(path);
    let head: Seq<Seq<char>> = if rooted {
        seq![seq!['/']]
    } else {
        Seq::empty()
    };
    assert forall|k: int| 0 <= k < names.len() implies no_slash_from(#[trigger] names[k], 0) by {
        assert(clean_name(names[k]));
    }
    if rooted {
        assert(q =~= seq!['/'] + j);
        assert(is_rooted(q));
        assert(pieces_from(q, 0) =~= seq![Seq::<char>::empty()] + pieces_from(q, 1)) by {
            assert(q.subrange(0, 0) =~= Seq::<char>::empty());
        }
        if names.len() == 0 {
            let e = Seq::<char>::empty();
            assert(q =~= seq!['/']);
            assert(q.subrange(1, 1) =~= e);
            assert(pieces_from(q, 2) == Seq::<Seq<char>>::empty());
            assert(find_char_from(q, 1, '/') == 1);
            assert(pieces_from(q, 1) =~= seq![e]);
            assert(pieces(q) =~= seq![e, e]);
            assert(seq![e, e].drop_last() =~= seq![e]);
            assert(seq![e].drop_last() =~= Seq::<Seq<char>>::empty());
            assert(kept_pieces(Seq::<Seq<char>>::empty()) =~= Seq::<Seq<char>>::empty());
        assert(kept_pieces(Seq::<Seq<char>>::empty()) =~= Seq::<Seq<char>>::empty());
            assert(kept_pieces(seq![e]) == kept_pieces(Seq::<Seq<char>>::empty()));
            assert(kept_pieces(seq![e, e]) == kept_pieces(seq![e]));
            assert(kept_pieces(pieces(q)) =~= Seq::<Seq<char>>::empty());
        } else {
            lemma_pieces_shift(seq!['/'], j, 0);
            lemma_pieces_join(names);
            lemma_kept_clean(names);
            assert(pieces_from(q, 1) == names);
        }
        assert(components_s(q) =~= head + names);
    } else {
        assert(q =~= j);
        if names.len() == 0 {
            let e = Seq::<char>::empty();
            assert(q =~= e);
            assert(pieces_from(q, 1) == Seq::<Seq<char>>::empty());
            assert(find_char_from(q, 0, '/') == 0);
            assert(q.subrange(0, 0) =~= e);
            assert(pieces(q) =~= seq![e]);
            assert(seq![e].drop_last() =~= Seq::<Seq<char>>::empty());
            assert(kept_pieces(Seq::<Seq<char>>::empty()) =~= Seq::<Seq<char>>::empty());
        assert(kept_pieces(Seq::<Seq<char>>::empty()) =~= Seq::<Seq<char>>::empty());
            assert(kept_pieces(seq![e]) == kept_pieces(Seq::<Seq<char>>::empty()));
            assert(kept_pieces(pieces(q)) =~= Seq::<Seq<char>>::empty());
            assert(!is_rooted(q));
            assert(!starts_with_cur(q));
        } else {
            lemma_join_head(names, sep);
            assert(clean_name(names[0]));
            assert(q[0] == names[0][0]);
            if names[0].len() == 1 {
                assert(names[0] =~= seq![names[0][0]]);
            } else {
                assert(q[1] == names[0][1]);
            }
            assert(!is_rooted(q));
            assert(!starts_with_cur(q));
            lemma_pieces_join(names);
            lemma_kept_clean(names);
            assert(pieces(q) == names);
        }
        assert(components_s(q) =~= head + names);
    }
}

} // verus!
