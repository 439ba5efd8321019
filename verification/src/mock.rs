//! A [`BundleGraph`] over modules held in memory.
//!
//! Each module is given as its path and its parsed [`API`]. Dependency
//! specifiers are resolved by relative-path joining plus extension probing
//! (`.tsx`, `.ts`, `.d.ts`, `.js`, then an `index` file of a directory). Bare
//! specifiers (e.g. `react`) resolve to `None` unless an explicit override is
//! supplied, modelling external modules.
use vstd::prelude::*;
use crate::API;
use crate::ast::ModuleItem;
use crate::decls::parse_module;
use crate::packager::bundle::{AssetId, BundleGraph};
use crate::paths::{components_s, normalize_s, parent_s, join_s, same_path, parent, join_path, normalize};
use crate::text::{chars_of, string_of, push_all};

verus! {

/// The text of each path.
pub open spec fn paths_view(v: Seq<String>) -> Seq<Seq<char>> {
    v.map_values(|s: String| s@)
}

/// The first module whose path has the components of `p`.
pub open spec fn index_of_s(paths: Seq<Seq<char>>, p: Seq<char>) -> Option<AssetId>
    decreases paths.len(),
{
    if paths.len() == 0 {
        None
    } else {
        match index_of_s(paths.drop_last(), p) {
            Some(i) => Some(i),
            None => if components_s(paths.last()) == components_s(p) {
                Some((paths.len() - 1) as AssetId)
            } else {
                None
            },
        }
    }
}

/// The override for specifier `k`, if any.
pub open spec fn override_of(ov: Seq<(Seq<char>, Seq<char>)>, k: Seq<char>) -> Option<Seq<char>>
    decreases ov.len(),
{
    if ov.len() == 0 {
        None
    } else {
        match override_of(ov.drop_last(), k) {
            Some(p) => Some(p),
            None => if ov.last().0 == k {
                Some(ov.last().1)
            } else {
                None
            },
        }
    }
}

/// The paths a relative specifier may denote, in the order they are tried:
/// `base` as written, with each candidate extension, then each index file of
/// the directory `base`.
pub open spec fn candidates(base: Seq<char>) -> Seq<Seq<char>> {
    seq![
        base,
        base + ".tsx"@,
        base + ".ts"@,
        base + ".d.ts"@,
        base + ".js"@,
        join_s(base, "index.tsx"@),
        join_s(base, "index.ts"@),
        join_s(base, "index.d.ts"@),
        join_s(base, "index.js"@),
    ]
}

/// The first of the first `k` candidates that is one of the modules.
pub open spec fn first_found(paths: Seq<Seq<char>>, cands: Seq<Seq<char>>, k: int) -> Option<AssetId>
    decreases k,
{
    if k <= 0 || k > cands.len() {
        None
    } else {
        match first_found(paths, cands, k - 1) {
            Some(i) => Some(i),
            None => index_of_s(paths, cands[k - 1]),
        }
    }
}

/// How `MockBundleGraph::resolve` answers: an override names a module by
/// path; a bare specifier (not starting with `.`) is external; a relative one
/// is joined to the module's directory, normalized, and probed.
pub open spec fn mock_resolution(
    paths: Seq<Seq<char>>,
    ov: Seq<(Seq<char>, Seq<char>)>,
    asset: AssetId,
    specifier: Seq<char>,
) -> Option<AssetId> {
    match override_of(ov, specifier) {
        Some(p) => index_of_s(paths, p),
        None => if !(specifier.len() > 0 && specifier[0] == '.') {
            None
        } else {
            let dir = match parent_s(paths[asset as int]) {
                Some(d) => d,
                None => Seq::empty(),
            };
            let base = normalize_s(join_s(dir, specifier));
            first_found(paths, candidates(base), 9)
        },
    }
}

/// The first module with the given path, found in a prefix of the paths, is
/// the first one in all of them.
pub proof fn lemma_index_of_take(pv: Seq<Seq<char>>, m: int, p: Seq<char>)
    requires
        0 <= m <= pv.len(),
        index_of_s(pv.take(m), p) is Some,
    ensures
        index_of_s(pv, p) == index_of_s(pv.take(m), p),
    decreases pv.len() - m,
{
    if m < pv.len() {
        assert(pv.take(m + 1).drop_last() =~= pv.take(m));
        lemma_index_of_take(pv, m + 1, p);
    } else {
        assert(pv.take(m) =~= pv);
    }
}

/// A module found by path is one of the modules.
pub proof fn lemma_index_of_bound(pv: Seq<Seq<char>>, p: Seq<char>)
    ensures
        index_of_s(pv, p) matches Some(i) ==> i < pv.len(),
    decreases pv.len(),
{
    if pv.len() > 0 {
        lemma_index_of_bound(pv.drop_last(), p);
    }
}

pub proof fn lemma_first_found_bound(pv: Seq<Seq<char>>, cands: Seq<Seq<char>>, k: int)
    ensures
        first_found(pv, cands, k) matches Some(i) ==> i < pv.len(),
    decreases k,
{
    if 0 < k <= cands.len() {
        lemma_first_found_bound(pv, cands, k - 1);
        lemma_index_of_bound(pv, cands[k - 1]);
    }
}

pub proof fn lemma_first_found_stable(pv: Seq<Seq<char>>, cands: Seq<Seq<char>>, a: int, b: int)
    requires
        0 < a <= b <= cands.len(),
        first_found(pv, cands, a) is Some,
    ensures
        first_found(pv, cands, b) == first_found(pv, cands, a),
    decreases b - a,
{
    if b > a {
        lemma_first_found_stable(pv, cands, a, b - 1);
    }
}

/// When no override has key `k`, there is none for it.
pub proof fn lemma_override_none(ov: Seq<(Seq<char>, Seq<char>)>, k: Seq<char>)
    requires
        forall|j: int| 0 <= j < ov.len() ==> (#[trigger] ov[j]).0 != k,
    ensures
        override_of(ov, k) is None,
    decreases ov.len(),
{
    if ov.len() > 0 {
        let d = ov.drop_last();
        assert forall|j: int| 0 <= j < d.len() implies (#[trigger] d[j]).0 != k by {
            assert(d[j] == ov[j]);
        }
        lemma_override_none(d, k);
        assert(ov.last() == ov[ov.len() - 1]);
    }
}

/// The first override with key `k` is the one that counts.
pub proof fn lemma_override_first(ov: Seq<(Seq<char>, Seq<char>)>, i: int, k: Seq<char>)
    requires
        0 <= i < ov.len(),
        ov[i].0 == k,
        forall|j: int| 0 <= j < i ==> (#[trigger] ov[j]).0 != k,
    ensures
        override_of(ov, k) == Some(ov[i].1),
    decreases ov.len(),
{
    let d = ov.drop_last();
    if i < ov.len() - 1 {
        assert(d[i] == ov[i]);
        assert forall|j: int| 0 <= j < i implies (#[trigger] d[j]).0 != k by {
            assert(d[j] == ov[j]);
        }
        lemma_override_first(d, i, k);
    } else {
        assert forall|j: int| 0 <= j < d.len() implies (#[trigger] d[j]).0 != k by {
            assert(d[j] == ov[j]);
        }
        lemma_override_none(d, k);
    }
}

/// Changing the value of an override leaves the others as they were.
pub proof fn lemma_override_update(ov: Seq<(Seq<char>, Seq<char>)>, i: int, k: Seq<char>, v: Seq<char>, other: Seq<char>)
    requires
        0 <= i < ov.len(),
        ov[i].0 == k,
        other != k,
    ensures
        override_of(ov.update(i, (k, v)), other) == override_of(ov, other),
    decreases ov.len(),
{
    let nv = ov.update(i, (k, v));
    if i < ov.len() - 1 {
        assert(nv.drop_last() =~= ov.drop_last().update(i, (k, v)));
        lemma_override_update(ov.drop_last(), i, k, v, other);
        assert(nv.last() == ov.last());
    } else {
        assert(nv.drop_last() =~= ov.drop_last());
    }
}

/// Appending an override leaves the others as they were.
pub proof fn lemma_override_push(ov: Seq<(Seq<char>, Seq<char>)>, k: Seq<char>, v: Seq<char>, other: Seq<char>)
    requires
        other != k,
    ensures
        override_of(ov.push((k, v)), other) == override_of(ov, other),
{
    assert(ov.push((k, v)).drop_last() =~= ov);
}

/// A test bundle graph backed by in-memory modules.
pub struct MockBundleGraph {
    apis: Vec<API>,
    paths: Vec<String>,
    entry: AssetId,
    /// Explicit `specifier -> path` overrides (e.g. for bare specifiers).
    overrides: Vec<(String, String)>,
}

impl MockBundleGraph {
    /// Each module has a path and a well-formed API, and the entry is one of
    /// them.
    #[verifier::type_invariant]
    spec fn valid(&self) -> bool {
        &&& self.apis@.len() == self.paths@.len()
        &&& self.entry < self.apis@.len()
        &&& forall|i: int| 0 <= i < self.apis@.len() ==> (#[trigger] self.apis@[i]).wf()
    }

    /// A mock graph is one the packager can work on.
    proof fn lemma_graph_valid(&self)
        requires
            self.valid(),
        ensures
            crate::packager::bundle::graph_valid(self),
            self.asset_count() == self.module_paths().len(),
    {
        assert forall|a: AssetId, sp: Seq<char>| a < self.asset_count() implies (#[trigger] self.resolution(a, sp) matches Some(t)
            ==> t < self.asset_count()) by {
            lemma_index_of_bound(self.module_paths(), override_of(self.override_list(), sp).unwrap_or(Seq::empty()));
            match override_of(self.override_list(), sp) {
                Some(p) => {
                    lemma_index_of_bound(self.module_paths(), p);
                },
                None => {
                    let dir = match parent_s(self.module_paths()[a as int]) {
                        Some(d) => d,
                        None => Seq::empty(),
                    };
                    lemma_first_found_bound(self.module_paths(), candidates(normalize_s(join_s(dir, sp))), 9);
                },
            }
        }
    }

    /// The modules' paths.
    pub closed spec fn module_paths(&self) -> Seq<Seq<char>> {
        paths_view(self.paths@)
    }

    /// The overrides: specifier and path of each, in the order they were first
    /// given.
    pub closed spec fn override_list(&self) -> Seq<(Seq<char>, Seq<char>)> {
        self.overrides@.map_values(|e: (String, String)| (e.0@, e.1@))
    }

    /// What the graph resolves a specifier of a module to: its override's
    /// module when it has one, else the module its relative path names
    /// (see [`mock_resolution`]).
    pub proof fn lemma_resolution(&self, asset: AssetId, specifier: Seq<char>)
        ensures
            self.resolution(asset, specifier) == mock_resolution(self.module_paths(), self.override_list(), asset, specifier),
    {
    }

    /// Builds a bundle graph from `(path, API)` pairs. `entry` must match one
    /// of the provided paths; the first module with that path is the entry.
    pub fn from_apis(sources: Vec<(String, API)>, entry: &str) -> (r: MockBundleGraph)
        requires
            index_of_s(paths_view(sources@.map_values(|s: (String, API)| s.0)), entry@) is Some,
            forall|i: int| 0 <= i < sources@.len() ==> (#[trigger] sources@[i]).1.wf(),
        ensures
            r.module_paths() == paths_view(sources@.map_values(|s: (String, API)| s.0)),
            r.asset_count() == sources@.len(),
            forall|i: int| 0 <= i < sources@.len() ==> #[trigger] r.api_at(i as AssetId) == sources@[i].1,
            r.entry_asset() == index_of_s(r.module_paths(), entry@)->0,
            r.override_list().len() == 0,
            crate::packager::bundle::graph_valid(&r),
    {
        let ghost ps = paths_view(sources@.map_values(|s: (String, API)| s.0));
        let ghost srcs = sources@;
        let mut sources = sources;
        let n = sources.len();
        let mut rev_apis: Vec<API> = Vec::new();
        let mut rev_paths: Vec<String> = Vec::new();
        while sources.len() > 0
            invariant
                sources@.len() + rev_apis@.len() == n,
                rev_apis@.len() == rev_paths@.len(),
                n == srcs.len(),
                forall|i: int| 0 <= i < sources@.len() ==> #[trigger] sources@[i] == srcs[i],
                forall|j: int| 0 <= j < rev_apis@.len() ==> #[trigger] rev_apis@[j] == srcs[n - 1 - j].1,
                forall|j: int| 0 <= j < rev_paths@.len() ==> #[trigger] rev_paths@[j] == srcs[n - 1 - j].0,
            decreases sources.len(),
        {
            let (p, a) = sources.pop().unwrap();
            rev_apis.push(a);
            rev_paths.push(p);
        }
        let mut apis: Vec<API> = Vec::new();
        let mut paths: Vec<String> = Vec::new();
        while rev_apis.len() > 0
            invariant
                rev_apis@.len() == rev_paths@.len(),
                apis@.len() == paths@.len(),
                rev_apis@.len() + apis@.len() == n,
                n == srcs.len(),
                forall|j: int| 0 <= j < rev_apis@.len() ==> #[trigger] rev_apis@[j] == srcs[n - 1 - j].1,
                forall|j: int| 0 <= j < rev_paths@.len() ==> #[trigger] rev_paths@[j] == srcs[n - 1 - j].0,
                forall|i: int| 0 <= i < apis@.len() ==> #[trigger] apis@[i] == srcs[i].1,
                forall|i: int| 0 <= i < paths@.len() ==> #[trigger] paths@[i] == srcs[i].0,
            decreases rev_apis.len(),
        {
            let a = rev_apis.pop().unwrap();
            let p = rev_paths.pop().unwrap();
            apis.push(a);
            paths.push(p);
        }
        proof {
            assert(paths_view(paths@) =~= ps);
            lemma_index_of_bound(ps, entry@);
        }
        let entry = index_of_paths(&paths, entry).unwrap();
        let g = MockBundleGraph { apis, paths, entry, overrides: Vec::new() };
        proof {
            g.lemma_graph_valid();
        }
        g
    }

    /// Builds a bundle graph from `(path, items)` pairs, reading each module
    /// with [`parse_module`]. `entry` must match one of the provided paths; the
    /// first module with that path is the entry.
    pub fn from_sources(sources: Vec<(String, Vec<ModuleItem>)>, entry: &str) -> (r: MockBundleGraph)
        requires
            index_of_s(paths_view(sources@.map_values(|s: (String, Vec<ModuleItem>)| s.0)), entry@) is Some,
        ensures
            r.module_paths() == paths_view(sources@.map_values(|s: (String, Vec<ModuleItem>)| s.0)),
            r.asset_count() == sources@.len(),
            forall|i: int|
                0 <= i < sources@.len() ==> crate::decls::module_read(r.api_at(i as AssetId), #[trigger] sources@[i].1@),
            forall|i: int|
                0 <= i < sources@.len() ==> crate::decls::module_api(
                    (#[trigger] sources@[i]).0@,
                    sources@[i].1@,
                    r.api_at(i as AssetId),
                ),
            r.entry_asset() == index_of_s(r.module_paths(), entry@)->0,
            r.override_list().len() == 0,
            crate::packager::bundle::graph_valid(&r),
    {
        let mut apis: Vec<(String, API)> = Vec::new();
        let mut k: usize = 0;
        while k < sources.len()
            invariant
                k <= sources@.len(),
                apis@.len() == k,
                forall|i: int| 0 <= i < k ==> (#[trigger] apis@[i]).0 == sources@[i].0,
                forall|i: int| 0 <= i < k ==> (#[trigger] apis@[i]).1.wf(),
                forall|i: int| 0 <= i < k ==> crate::decls::module_read((#[trigger] apis@[i]).1, sources@[i].1@),
                forall|i: int| 0 <= i < k ==> crate::decls::module_api(sources@[i].0@, sources@[i].1@, (#[trigger] apis@[i]).1),
            decreases sources.len() - k,
        {
            let path = sources[k].0.clone();
            let api = parse_module(sources[k].0.clone(), &sources[k].1);
            apis.push((path, api));
            k = k + 1;
        }
        proof {
            assert(apis@.map_values(|s: (String, API)| s.0) =~= sources@.map_values(
                |s: (String, Vec<ModuleItem>)| s.0,
            ));
        }
        Self::from_apis(apis, entry)
    }

    /// Adds an explicit specifier override that resolves to the given path.
    pub fn with_override(self, specifier: &str, path: &str) -> (r: MockBundleGraph)
        ensures
            r.module_paths() == self.module_paths(),
            r.asset_count() == self.asset_count(),
            forall|a: AssetId| #[trigger] r.api_at(a) == self.api_at(a),
            r.entry_asset() == self.entry_asset(),
            override_of(r.override_list(), specifier@) == Some(path@),
            forall|k: Seq<char>| k != specifier@ ==> #[trigger] override_of(r.override_list(), k) == override_of(self.override_list(), k),
            crate::packager::bundle::graph_valid(&r),
    {
        proof {
            use_type_invariant(&self);
        }
        let mut overrides = self.overrides;
        let ghost ov = overrides@.map_values(|e: (String, String)| (e.0@, e.1@));
        let mut k: usize = 0;
        let mut pos: Option<usize> = None;
        while k < overrides.len()
            invariant
                k <= overrides@.len(),
                ov == overrides@.map_values(|e: (String, String)| (e.0@, e.1@)),
                pos matches Some(i) ==> i < overrides@.len() && ov[i as int].0 == specifier@
                    && forall|j: int| 0 <= j < i ==> (#[trigger] ov[j]).0 != specifier@,
                pos is None ==> forall|j: int| 0 <= j < k ==> (#[trigger] ov[j]).0 != specifier@,
            decreases overrides.len() - k,
        {
            if pos.is_none() && crate::ty::str_eq(overrides[k].0.as_str(), specifier) {
                pos = Some(k);
            }
            k = k + 1;
        }
        match pos {
            Some(k) => {
                let key = overrides[k].0.clone();
                overrides.set(k, (key, String::from_str(path)));
                proof {
                    let nv = overrides@.map_values(|e: (String, String)| (e.0@, e.1@));
                    assert(nv =~= ov.update(k as int, (specifier@, path@)));
                    assert forall|j: int| 0 <= j < k implies (#[trigger] nv[j]).0 != specifier@ by {
                        assert(nv[j] == ov[j]);
                    }
                    lemma_override_first(nv, k as int, specifier@);
                    assert forall|o: Seq<char>| o != specifier@ implies #[trigger] override_of(nv, o) == override_of(ov, o) by {
                        lemma_override_update(ov, k as int, specifier@, path@, o);
                    }
                }
            },
            None => {
                overrides.push((String::from_str(specifier), String::from_str(path)));
                proof {
                    let nv = overrides@.map_values(|e: (String, String)| (e.0@, e.1@));
                    assert(nv =~= ov.push((specifier@, path@)));
                    assert forall|j: int| 0 <= j < ov.len() implies (#[trigger] nv[j]).0 != specifier@ by {
                        assert(nv[j] == ov[j]);
                    }
                    lemma_override_first(nv, ov.len() as int, specifier@);
                    assert forall|o: Seq<char>| o != specifier@ implies #[trigger] override_of(nv, o) == override_of(ov, o) by {
                        lemma_override_push(ov, specifier@, path@, o);
                    }
                }
            },
        }
        let g = MockBundleGraph { apis: self.apis, paths: self.paths, entry: self.entry, overrides };
        proof {
            g.lemma_graph_valid();
        }
        g
    }
}

/// The first module whose path has the components of `path`.
fn index_of_paths(paths: &Vec<String>, path: &str) -> (r: Option<AssetId>)
    ensures
        r == index_of_s(paths_view(paths@), path@),
{
    let ghost pv = paths_view(paths@);
    let mut k: usize = 0;
    while k < paths.len()
        invariant
            k <= paths.len(),
            pv == paths_view(paths@),
            index_of_s(pv.take(k as int), path@) is None,
        decreases paths.len() - k,
    {
        proof {
            assert(pv.take(k + 1).drop_last() =~= pv.take(k as int));
        }
        if same_path(paths[k].as_str(), path) {
            proof {
                assert(pv.take(k + 1).last() == pv[k as int]);
                lemma_index_of_take(pv, k + 1, path@);
            }
            return Some(k);
        }
        k = k + 1;
    }
    proof {
        assert(pv.take(paths.len() as int) =~= pv);
    }
    None
}

/// `base` followed by `suffix`.
fn concat(base: &str, suffix: &str) -> (r: String)
    ensures
        r@ == base@ + suffix@,
{
    let mut v = chars_of(base);
    let w = chars_of(suffix);
    push_all(&mut v, &w);
    string_of(v.as_slice())
}

impl BundleGraph for MockBundleGraph {
    closed spec fn asset_count(&self) -> nat {
        self.apis@.len()
    }

    closed spec fn entry_asset(&self) -> AssetId {
        self.entry
    }

    closed spec fn api_at(&self, asset: AssetId) -> API {
        self.apis@[asset as int]
    }

    closed spec fn resolution(&self, asset: AssetId, specifier: Seq<char>) -> Option<AssetId> {
        mock_resolution(self.module_paths(), self.override_list(), asset, specifier)
    }

    fn entry(&self) -> (r: AssetId) {
        self.entry
    }

    fn api(&self, asset: AssetId) -> (r: &API) {
        &self.apis[asset]
    }

    fn resolve(&self, asset: AssetId, specifier: &str) -> (r: Option<AssetId>) {
        proof {
            use_type_invariant(self);
        }
        let ghost ov = self.override_list();
        let mut k: usize = 0;
        while k < self.overrides.len()
            invariant
                k <= self.overrides@.len(),
                ov == self.override_list(),
                ov == self.overrides@.map_values(|e: (String, String)| (e.0@, e.1@)),
                forall|j: int| 0 <= j < k ==> (#[trigger] ov[j]).0 != specifier@,
            decreases self.overrides.len() - k,
        {
            if crate::ty::str_eq(self.overrides[k].0.as_str(), specifier) {
                proof {
                    lemma_override_first(ov, k as int, specifier@);
                }
                return index_of_paths(&self.paths, self.overrides[k].1.as_str());
            }
            k = k + 1;
        }
        proof {
            lemma_override_none(ov, specifier@);
        }
        let sc = chars_of(specifier);
        if !(sc.len() > 0 && sc[0] == '.') {
            return None;
        }
        let dir = match parent(self.paths[asset].as_str()) {
            Some(d) => d,
            None => String::new(),
        };
        let base = normalize(join_path(dir.as_str(), specifier).as_str());
        let mut cands: Vec<String> = Vec::new();
        cands.push(base.clone());
        cands.push(concat(base.as_str(), ".tsx"));
        cands.push(concat(base.as_str(), ".ts"));
        cands.push(concat(base.as_str(), ".d.ts"));
        cands.push(concat(base.as_str(), ".js"));
        cands.push(join_path(base.as_str(), "index.tsx"));
        cands.push(join_path(base.as_str(), "index.ts"));
        cands.push(join_path(base.as_str(), "index.d.ts"));
        cands.push(join_path(base.as_str(), "index.js"));
        let ghost cs = candidates(base@);
        proof {
            assert(paths_view(cands@) =~= cs);
            assert(self.resolution(asset, specifier@) == first_found(self.module_paths(), cs, 9));
        }
        let mut i: usize = 0;
        while i < cands.len()
            invariant
                i <= cands.len() == 9,
                paths_view(cands@) == cs,
                cs.len() == 9,
                first_found(self.module_paths(), cs, i as int) is None,
                self.resolution(asset, specifier@) == first_found(self.module_paths(), cs, 9),
            decreases cands.len() - i,
        {
            if let Some(id) = index_of_paths(&self.paths, cands[i].as_str()) {
                proof {
                    assert(first_found(self.module_paths(), cs, i + 1) == Some(id));
                    lemma_first_found_stable(self.module_paths(), cs, i + 1, 9);
                }
                return Some(id);
            }
            i = i + 1;
        }
        None
    }
}

} // verus!
