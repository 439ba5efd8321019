//! A [`BundleGraph`] built from files, for local testing.
//!
//! Starting from an entry file, the graph is grown breadth first: each
//! dependency specifier of each module (its imports, then its `export *`
//! sources) is resolved once; a resolution to a source file not seen before
//! adds that file as a new module. Reading, parsing and resolving are done
//! by the caller; [`FsBuilder`] decides what to ask for next and records the
//! answers. Only workspace source files are processed; anything resolving
//! into `node_modules` (external packages like `react`) is treated as
//! external.
use vstd::prelude::*;
use crate::API;
use crate::indexed::{str_set_items, str_set_len, str_set_get_index};
use crate::packager::bundle::{AssetId, BundleGraph, graph_valid};
use crate::paths::{components, components_s, is_source_file, is_source_file_s, same_path};
use crate::mock::{paths_view, index_of_s, lemma_index_of_bound, lemma_index_of_take};

verus! {

/// The target recorded for `(asset, specifier)`, if any.
pub open spec fn recorded(res: Seq<(AssetId, Seq<char>, Option<AssetId>)>, asset: AssetId, specifier: Seq<char>) -> Option<Option<AssetId>>
    decreases res.len(),
{
    if res.len() == 0 {
        None
    } else {
        match recorded(res.drop_last(), asset, specifier) {
            Some(t) => Some(t),
            None => if res.last().0 == asset && res.last().1 == specifier {
                Some(res.last().2)
            } else {
                None
            },
        }
    }
}

/// The specifiers of a module, in the order they are resolved: its
/// dependencies, then its `export *` sources.
pub open spec fn specifiers_of(api: API) -> Seq<Seq<char>> {
    str_set_items(api.dependencies) + api.export_all@.map_values(|s: String| s@)
}

/// Whether a resolved path is a module of the graph: a source file outside
/// `node_modules`.
pub open spec fn accepts_s(path: Seq<char>) -> bool {
    !components_s(path).contains(seq!['n', 'o', 'd', 'e', '_', 'm', 'o', 'd', 'u', 'l', 'e', 's'])
        && is_source_file_s(path)
}

/// Whether a resolved path is a module of the graph: a source file outside
/// `node_modules` (external packages live there).
pub fn accepts_resolved(path: &str) -> (r: bool)
    ensures
        r == accepts_s(path@),
{
    let comps = components(path);
    let ghost c = components_s(path@);
    let ghost nm = seq!['n', 'o', 'd', 'e', '_', 'm', 'o', 'd', 'u', 'l', 'e', 's'];
    let mut k: usize = 0;
    while k < comps.len()
        invariant
            k <= comps@.len(),
            c == components_s(path@),
            comps@.map_values(|s: String| s@) == c,
            nm == seq!['n', 'o', 'd', 'e', '_', 'm', 'o', 'd', 'u', 'l', 'e', 's'],
            forall|j: int| 0 <= j < k ==> c[j] != nm,
        decreases comps.len() - k,
    {
        proof {
            reveal_strlit("node_modules");
            assert("node_modules"@ =~= nm);
        }
        if crate::ty::str_eq(comps[k].as_str(), "node_modules") {
            proof {
                assert(c[k as int] == nm);
            }
            return false;
        }
        k = k + 1;
    }
    proof {
        assert(!c.contains(nm));
    }
    is_source_file(path)
}

/// A bundle graph over files: each module's path and API, and the recorded
/// resolution of each specifier.
pub struct FsBundleGraph {
    /// Each module's path and API.
    modules: Vec<(String, API)>,
    resolutions: Vec<(AssetId, String, Option<AssetId>)>,
    entry: AssetId,
}

impl FsBundleGraph {
    /// The entry is a module, every module's API is well formed, and every
    /// recorded resolution names a module.
    pub closed spec fn valid(&self) -> bool {
        &&& self.entry < self.modules@.len()
        &&& forall|i: int| 0 <= i < self.modules@.len() ==> (#[trigger] self.modules@[i]).1.wf()
        &&& forall|i: int| 0 <= i < self.resolutions@.len() ==> ((#[trigger] self.resolutions@[i]).2 matches Some(t)
            ==> t < self.modules@.len())
    }

    /// The modules' paths.
    pub closed spec fn module_paths(&self) -> Seq<Seq<char>> {
        self.modules@.map_values(|m: (String, API)| m.0@)
    }

    /// The recorded resolutions, in the order they were made.
    pub closed spec fn resolution_list(&self) -> Seq<(AssetId, Seq<char>, Option<AssetId>)> {
        self.resolutions@.map_values(|e: (AssetId, String, Option<AssetId>)| (e.0, e.1@, e.2))
    }

    proof fn lemma_graph_valid(&self)
        requires
            self.valid(),
        ensures
            graph_valid(self),
            self.asset_count() == self.module_paths().len(),
    {
        assert forall|a: AssetId, sp: Seq<char>| a < self.asset_count() implies (#[trigger] self.resolution(a, sp) matches Some(
            t,
        ) ==> t < self.asset_count()) by {
            lemma_recorded_bound(self.resolution_list(), a, sp, self.modules@.len());
        }
    }

    /// A graph holding only the entry module.
    pub fn new(entry_path: String, entry_api: API) -> (r: FsBundleGraph)
        requires
            entry_api.wf(),
        ensures
            r.valid(),
            graph_valid(&r),
            r.module_paths() == seq![entry_path@],
            r.api_at(0) == entry_api,
            r.entry_asset() == 0,
            r.resolution_list().len() == 0,
    {
        let g = FsBundleGraph { modules: vec![(entry_path, entry_api)], resolutions: Vec::new(), entry: 0 };
        proof {
            assert(g.module_paths() =~= seq![entry_path@]);
            assert(g.resolution_list() =~= Seq::<(AssetId, Seq<char>, Option<AssetId>)>::empty());
            g.lemma_graph_valid();
        }
        g
    }

    /// The module at `path`, if it is loaded.
    pub fn lookup(&self, path: &str) -> (r: Option<AssetId>)
        ensures
            r == index_of_s(self.module_paths(), path@),
    {
        let ghost pv = self.module_paths();
        let mut k: usize = 0;
        while k < self.modules.len()
            invariant
                k <= self.modules@.len(),
                pv == self.module_paths(),
                pv.len() == self.modules@.len(),
                index_of_s(pv.take(k as int), path@) is None,
            decreases self.modules.len() - k,
        {
            proof {
                assert(pv.take(k + 1).drop_last() =~= pv.take(k as int));
            }
            if same_path(self.modules[k].0.as_str(), path) {
                proof {
                    assert(pv.take(k + 1).last() == pv[k as int]);
                    lemma_index_of_take(pv, k + 1, path@);
                }
                return Some(k);
            }
            k = k + 1;
        }
        proof {
            assert(pv.take(self.modules@.len() as int) =~= pv);
        }
        None
    }

    /// Loads a module: the module already at `path` if there is one (the
    /// given API is then dropped), else a new module with that API.
    pub fn load(&mut self, path: String, api: API) -> (r: AssetId)
        requires
            old(self).valid(),
            api.wf(),
        ensures
            final(self).valid(),
            graph_valid(final(self)),
            final(self).entry_asset() == old(self).entry_asset(),
            final(self).resolution_list() == old(self).resolution_list(),
            index_of_s(old(self).module_paths(), path@) matches Some(i) ==> r == i && final(self).module_paths()
                == old(self).module_paths() && forall|a: AssetId| #[trigger] final(self).api_at(a) == old(self).api_at(a),
            index_of_s(old(self).module_paths(), path@) is None ==> r == old(self).module_paths().len()
                && final(self).module_paths() == old(self).module_paths().push(path@) && final(self).api_at(r) == api
                && forall|a: AssetId| a < r ==> #[trigger] final(self).api_at(a) == old(self).api_at(a),
    {
        if let Some(id) = self.lookup(path.as_str()) {
            proof {
                self.lemma_graph_valid();
            }
            return id;
        }
        let id = self.modules.len();
        let ghost pv = self.module_paths();
        let ghost p = path@;
        let ghost old_modules = self.modules@;
        self.modules.push((path, api));
        proof {
            assert(self.module_paths() =~= pv.push(p));
            assert forall|i: int| 0 <= i < self.modules@.len() implies (#[trigger] self.modules@[i]).1.wf() by {
                if i < old_modules.len() {
                    assert(self.modules@[i] == old_modules[i]);
                }
            }
            self.lemma_graph_valid();
        }
        id
    }

    /// The specifiers of a module, in the order they are resolved.
    pub fn specifiers(&self, asset: AssetId) -> (r: Vec<String>)
        requires
            self.valid(),
            asset < self.asset_count(),
        ensures
            r@.map_values(|s: String| s@) == specifiers_of(self.api_at(asset)),
    {
        let api = &self.modules[asset].1;
        let mut out: Vec<String> = Vec::new();
        let n = str_set_len(&api.dependencies);
        let mut k: usize = 0;
        while k < n
            invariant
                k <= n,
                n == str_set_items(api.dependencies).len(),
                out@.map_values(|s: String| s@) == str_set_items(api.dependencies).take(k as int),
            decreases n - k,
        {
            let ghost before = out@;
            out.push(str_set_get_index(&api.dependencies, k).clone());
            proof {
                assert(out@.map_values(|s: String| s@) =~= before.map_values(|s: String| s@).push(out@[k as int]@));
                assert(str_set_items(api.dependencies).take(k + 1) =~= str_set_items(api.dependencies).take(k as int).push(
                    str_set_items(api.dependencies)[k as int],
                ));
            }
            k = k + 1;
        }
        let ghost deps = out@.map_values(|s: String| s@);
        proof {
            assert(str_set_items(api.dependencies).take(n as int) =~= str_set_items(api.dependencies));
        }
        let mut j: usize = 0;
        while j < api.export_all.len()
            invariant
                j <= api.export_all@.len(),
                out@.map_values(|s: String| s@) == deps + api.export_all@.map_values(|s: String| s@).take(j as int),
            decreases api.export_all.len() - j,
        {
            let ghost before = out@;
            out.push(api.export_all[j].clone());
            proof {
                assert(out@.map_values(|s: String| s@) =~= before.map_values(|s: String| s@).push(api.export_all@[j as int]@));
                assert(api.export_all@.map_values(|s: String| s@).take(j + 1) =~= api.export_all@.map_values(|s: String| s@).take(
                    j as int,
                ).push(api.export_all@[j as int]@));
            }
            j = j + 1;
        }
        proof {
            assert(api.export_all@.map_values(|s: String| s@).take(api.export_all@.len() as int) =~= api.export_all@.map_values(
                |s: String| s@,
            ));
        }
        out
    }

    /// The recorded target of `(asset, specifier)`, if it was resolved.
    pub fn recorded_target(&self, asset: AssetId, specifier: &str) -> (r: Option<Option<AssetId>>)
        ensures
            r == recorded(self.resolution_list(), asset, specifier@),
    {
        let ghost rl = self.resolution_list();
        let mut k: usize = 0;
        while k < self.resolutions.len()
            invariant
                k <= self.resolutions@.len(),
                rl == self.resolution_list(),
                rl.len() == self.resolutions@.len(),
                recorded(rl.take(k as int), asset, specifier@) is None,
            decreases self.resolutions.len() - k,
        {
            proof {
                assert(rl.take(k + 1).drop_last() =~= rl.take(k as int));
                assert(rl.take(k + 1).last() == rl[k as int]);
            }
            if self.resolutions[k].0 == asset && crate::ty::str_eq(self.resolutions[k].1.as_str(), specifier) {
                proof {
                    lemma_recorded_take(rl, k + 1, asset, specifier@);
                }
                return Some(self.resolutions[k].2);
            }
            k = k + 1;
        }
        proof {
            assert(rl.take(rl.len() as int) =~= rl);
        }
        None
    }

    /// Records the resolution of `(asset, specifier)`.
    pub fn record(&mut self, asset: AssetId, specifier: String, target: Option<AssetId>)
        requires
            old(self).valid(),
            target matches Some(t) ==> t < old(self).asset_count(),
        ensures
            final(self).valid(),
            graph_valid(final(self)),
            final(self).module_paths() == old(self).module_paths(),
            forall|a: AssetId| #[trigger] final(self).api_at(a) == old(self).api_at(a),
            final(self).entry_asset() == old(self).entry_asset(),
            final(self).resolution_list() == old(self).resolution_list().push((asset, specifier@, target)),
    {
        let ghost rl = self.resolution_list();
        let ghost sp = specifier@;
        let ghost old_res = self.resolutions@;
        self.resolutions.push((asset, specifier, target));
        proof {
            assert forall|i: int| 0 <= i < self.resolutions@.len() implies ((#[trigger] self.resolutions@[i]).2 matches Some(t)
                ==> t < self.modules@.len()) by {
                if i < old_res.len() {
                    assert(self.resolutions@[i] == old_res[i]);
                }
            }
            assert(self.resolution_list() =~= rl.push((asset, sp, target)));
            self.lemma_graph_valid();
        }
    }

    /// The number of modules.
    pub fn len(&self) -> (r: usize)
        ensures
            r == self.asset_count(),
    {
        self.modules.len()
    }

    /// The path of a module.
    pub fn path(&self, asset: AssetId) -> (r: &String)
        requires
            asset < self.asset_count(),
        ensures
            r@ == self.module_paths()[asset as int],
    {
        &self.modules[asset].0
    }
}

pub proof fn lemma_recorded_take(rl: Seq<(AssetId, Seq<char>, Option<AssetId>)>, m: int, asset: AssetId, sp: Seq<char>)
    requires
        0 < m <= rl.len(),
        recorded(rl.take(m - 1), asset, sp) is None,
        rl[m - 1].0 == asset && rl[m - 1].1 == sp,
    ensures
        recorded(rl, asset, sp) == Some(rl[m - 1].2),
    decreases rl.len() - m,
{
    assert(rl.take(m).drop_last() =~= rl.take(m - 1));
    if m < rl.len() {
        lemma_recorded_more(rl, m, asset, sp);
    } else {
        assert(rl.take(m) =~= rl);
    }
}

pub proof fn lemma_recorded_more(rl: Seq<(AssetId, Seq<char>, Option<AssetId>)>, m: int, asset: AssetId, sp: Seq<char>)
    requires
        0 < m <= rl.len(),
        recorded(rl.take(m), asset, sp) is Some,
    ensures
        recorded(rl, asset, sp) == recorded(rl.take(m), asset, sp),
    decreases rl.len() - m,
{
    if m < rl.len() {
        assert(rl.take(m + 1).drop_last() =~= rl.take(m));
        lemma_recorded_more(rl, m + 1, asset, sp);
    } else {
        assert(rl.take(m) =~= rl);
    }
}

pub proof fn lemma_recorded_bound(rl: Seq<(AssetId, Seq<char>, Option<AssetId>)>, asset: AssetId, sp: Seq<char>, n: nat)
    requires
        forall|i: int| 0 <= i < rl.len() ==> ((#[trigger] rl[i]).2 matches Some(t) ==> t < n),
    ensures
        recorded(rl, asset, sp) matches Some(Some(t)) ==> t < n,
    decreases rl.len(),
{
    if rl.len() > 0 {
        let d = rl.drop_last();
        assert forall|i: int| 0 <= i < d.len() implies ((#[trigger] d[i]).2 matches Some(t) ==> t < n) by {
            assert(d[i] == rl[i]);
        }
        lemma_recorded_bound(d, asset, sp, n);
        assert(rl.last() == rl[rl.len() - 1]);
    }
}

/// Every specifier of module `a` has a recorded resolution.
pub open spec fn all_recorded(rl: Seq<(AssetId, Seq<char>, Option<AssetId>)>, a: AssetId, specs: Seq<Seq<char>>, k: int) -> bool {
    forall|j: int| 0 <= j < k ==> #[trigger] recorded(rl, a, specs[j]) is Some
}

/// A recorded resolution stays recorded when more are added.
pub proof fn lemma_recorded_push(
    rl: Seq<(AssetId, Seq<char>, Option<AssetId>)>,
    x: (AssetId, Seq<char>, Option<AssetId>),
    a: AssetId,
    sp: Seq<char>,
)
    ensures
        recorded(rl, a, sp) is Some ==> recorded(rl.push(x), a, sp) == recorded(rl, a, sp),
        recorded(rl, a, sp) is None && x.0 == a && x.1 == sp ==> recorded(rl.push(x), a, sp) == Some(x.2),
{
    assert(rl.push(x).drop_last() =~= rl);
}

/// Every recorded resolution that names a module names one the graph
/// accepts: a source file outside `node_modules`.
pub open spec fn targets_accepted(rl: Seq<(AssetId, Seq<char>, Option<AssetId>)>, paths: Seq<Seq<char>>) -> bool {
    forall|i: int| 0 <= i < rl.len() ==> ((#[trigger] rl[i]).2 matches Some(t) ==> t < paths.len() && accepts_s(
        paths[t as int],
    ))
}

/// The target recorded for an answer: the module it names when the graph
/// accepts its path, else none.
pub open spec fn kept_target(paths: Seq<Seq<char>>, target: Option<AssetId>) -> Option<AssetId> {
    match target {
        Some(t) => if accepts_s(paths[t as int]) {
            Some(t)
        } else {
            None
        },
        None => None,
    }
}

/// What the builder asks for next.
pub enum BuildRequest {
    /// Resolve `specifier` as written in the module at path `from`.
    Resolve { specifier: String, from: String },
    /// Every specifier of every module has been resolved.
    Done,
}

/// Grows an [`FsBundleGraph`] breadth first from its entry module.
pub struct FsBuilder {
    graph: FsBundleGraph,
    /// The modules to visit, in the order they were added.
    queue: Vec<AssetId>,
    /// The next position of `queue` to visit.
    next: usize,
    /// The module being visited, its specifiers, and the position of the
    /// next one to resolve.
    current: Option<(AssetId, Vec<String>, usize)>,
}

impl FsBuilder {
    /// The graph built so far.
    pub closed spec fn graph_of(&self) -> FsBundleGraph {
        self.graph
    }

    /// The builder's state is consistent: modules are queued in the order
    /// they were added, those before `next` have all their specifiers
    /// resolved (but for the one being visited, whose specifiers before the
    /// pending one are).
    pub closed spec fn wf(&self) -> bool {
        let rl = self.graph.resolution_list();
        &&& self.graph.valid()
        &&& targets_accepted(rl, self.graph.module_paths())
        &&& self.graph.entry_asset() == 0
        &&& self.queue@.len() == self.graph.asset_count()
        &&& forall|i: int| 0 <= i < self.queue@.len() ==> #[trigger] self.queue@[i] == i
        &&& self.next <= self.queue@.len()
        &&& match self.current {
            None => forall|a: AssetId| a < self.next ==> #[trigger] all_recorded(
                rl,
                a,
                specifiers_of(self.graph.api_at(a)),
                specifiers_of(self.graph.api_at(a)).len() as int,
            ),
            Some((asset, specs, k)) => {
                &&& self.next >= 1
                &&& asset == self.next - 1
                &&& specs@.map_values(|s: String| s@) == specifiers_of(self.graph.api_at(asset))
                &&& k <= specs@.len()
                &&& all_recorded(rl, asset, specifiers_of(self.graph.api_at(asset)), k as int)
                &&& forall|a: AssetId| a < asset ==> #[trigger] all_recorded(
                    rl,
                    a,
                    specifiers_of(self.graph.api_at(a)),
                    specifiers_of(self.graph.api_at(a)).len() as int,
                )
            },
        }
    }

    /// Starts from a graph holding only the entry module.
    pub fn new(entry_path: String, entry_api: API) -> (r: FsBuilder)
        requires
            entry_api.wf(),
        ensures
            r.wf(),
            r.graph_of().module_paths() == seq![entry_path@],
            r.graph_of().api_at(0) == entry_api,
    {
        let graph = FsBundleGraph::new(entry_path, entry_api);
        let b = FsBuilder { graph, queue: vec![0], next: 0, current: None };
        proof {
            b.graph.lemma_graph_valid();
            assert(b.queue@[0] == 0);
        }
        b
    }

    /// The module at `path`, if it is loaded.
    pub fn lookup(&self, path: &str) -> (r: Option<AssetId>)
        ensures
            r == index_of_s(self.graph_of().module_paths(), path@),
    {
        self.graph.lookup(path)
    }

    /// The number of modules loaded.
    pub fn len(&self) -> (r: usize)
        ensures
            r == self.graph_of().asset_count(),
    {
        self.graph.len()
    }

    /// Adds the module at `path` (if it is not loaded yet) to the graph and
    /// to the modules to visit.
    pub fn add_module(&mut self, path: String, api: API) -> (r: AssetId)
        requires
            old(self).wf(),
            api.wf(),
        ensures
            final(self).wf(),
            r < final(self).graph_of().asset_count(),
            index_of_s(old(self).graph_of().module_paths(), path@) matches Some(i) ==> r == i,
            index_of_s(old(self).graph_of().module_paths(), path@) is None ==> r == old(self).graph_of().asset_count()
                && final(self).graph_of().module_paths() == old(self).graph_of().module_paths().push(path@),
    {
        proof {
            lemma_index_of_bound(self.graph.module_paths(), path@);
            self.graph.lemma_graph_valid();
        }
        let n = self.graph.len();
        let ghost g0 = self.graph;
        let ghost q0 = self.queue@;
        let id = self.graph.load(path, api);
        proof {
            self.graph.lemma_graph_valid();
        }
        if id == n {
            self.queue.push(id);
            proof {
                assert forall|i: int| 0 <= i < self.queue@.len() implies #[trigger] self.queue@[i] == i by {
                    if i < q0.len() {
                        assert(self.queue@[i] == q0[i]);
                    }
                }
            }
        }
        proof {
            let g = self.graph;
            assert forall|a: AssetId| a < g0.asset_count() implies #[trigger] g.api_at(a) == g0.api_at(a) by {}
        }
        id
    }

    /// The next specifier to resolve, or `Done` when every specifier of every
    /// module is resolved.
    pub fn request(&mut self) -> (r: BuildRequest)
        requires
            old(self).wf(),
        ensures
            final(self).wf(),
            final(self).graph_of() == old(self).graph_of(),
            match r {
                BuildRequest::Done => forall|a: AssetId| a < final(self).graph_of().asset_count() ==> #[trigger] all_recorded(
                    final(self).graph_of().resolution_list(),
                    a,
                    specifiers_of(final(self).graph_of().api_at(a)),
                    specifiers_of(final(self).graph_of().api_at(a)).len() as int,
                ),
                BuildRequest::Resolve { specifier, from } => final(self).pending() == Some((
                    from@,
                    specifier@,
                )),
            },
    {
        loop
            invariant
                self.wf(),
                self.graph == old(self).graph,
            decreases self.queue@.len() - self.next, match self.current {
                Some((_, specs, k)) => 1 + specs@.len() - k,
                None => 0,
            },
        {
            let cur = self.current.take();
            match cur {
                Some((asset, specs, k)) => {
                    if k < specs.len() {
                        if self.graph.recorded_target(asset, specs[k].as_str()).is_some() {
                            proof {
                                assert(specs@[k as int]@ == specifiers_of(self.graph.api_at(asset))[k as int]);
                                lemma_all_recorded_step(self.graph.resolution_list(), asset, specifiers_of(self.graph.api_at(asset)), k as int);
                            }
                            self.current = Some((asset, specs, k + 1));
                        } else {
                            let specifier = specs[k].clone();
                            let from = self.graph.path(asset).clone();
                            self.current = Some((asset, specs, k));
                            return BuildRequest::Resolve { specifier, from };
                        }
                    } else {
                        proof {
                            assert forall|a: AssetId| a < self.next implies #[trigger] all_recorded(
                                self.graph.resolution_list(),
                                a,
                                specifiers_of(self.graph.api_at(a)),
                                specifiers_of(self.graph.api_at(a)).len() as int,
                            ) by {
                                if a == asset {
                                    assert(specs@.len() == specifiers_of(self.graph.api_at(asset)).len());
                                }
                            }
                        }
                    }
                },
                None => {
                    if self.next < self.queue.len() {
                        let asset = self.queue[self.next];
                        let specs = self.graph.specifiers(asset);
                        self.next = self.next + 1;
                        self.current = Some((asset, specs, 0));
                    } else {
                        return BuildRequest::Done;
                    }
                },
            }
        }
    }

    /// The path and specifier of the resolution last asked for and not yet
    /// answered, if any.
    pub closed spec fn pending(&self) -> Option<(Seq<char>, Seq<char>)> {
        match self.current {
            Some((asset, specs, k)) => if k < specs@.len() {
                Some((self.graph.module_paths()[asset as int], specs@[k as int]@))
            } else {
                None
            },
            None => None,
        }
    }

    /// The module being visited and the position of its next specifier, if
    /// a module is being visited.
    pub closed spec fn cursor(&self) -> Option<(AssetId, nat)> {
        match self.current {
            Some((asset, specs, k)) => Some((asset, k as nat)),
            None => None,
        }
    }

    /// Records the answer to the pending request: the module the specifier
    /// resolves to (`None` for an external or unresolvable one).
    pub fn answer(&mut self, target: Option<AssetId>)
        requires
            old(self).wf(),
            target matches Some(t) ==> t < old(self).graph_of().asset_count(),
        ensures
            final(self).wf(),
            final(self).graph_of().module_paths() == old(self).graph_of().module_paths(),
            final(self).graph_of().asset_count() == old(self).graph_of().asset_count(),
            old(self).pending() is None ==> *final(self) == *old(self),
            old(self).pending() matches Some((from, sp)) ==> old(self).cursor() matches Some((a, k)) && {
                let rl = old(self).graph_of().resolution_list();
                &&& from == old(self).graph_of().module_paths()[a as int]
                &&& final(self).cursor() == Some((a, k + 1))
                &&& final(self).graph_of().entry_asset() == old(self).graph_of().entry_asset()
                &&& forall|b: AssetId| #[trigger] final(self).graph_of().api_at(b) == old(self).graph_of().api_at(b)
                &&& final(self).graph_of().resolution_list() == if recorded(rl, a, sp) is Some {
                    rl
                } else {
                    rl.push((a, sp, kept_target(old(self).graph_of().module_paths(), target)))
                }
            },
    {
        let cur = self.current.take();
        match cur {
            Some((asset, specs, k)) => {
                if k < specs.len() {
                    let ghost rl = self.graph.resolution_list();
                    let ghost g0 = self.graph;
                    proof {
                        self.graph.lemma_graph_valid();
                    }
                    let specifier = specs[k].clone();
                    let already = self.graph.recorded_target(asset, specifier.as_str()).is_some();
                    let kept = match target {
                        Some(t) => if accepts_resolved(self.graph.path(t).as_str()) {
                            Some(t)
                        } else {
                            None
                        },
                        None => None,
                    };
                    let ghost paths = self.graph.module_paths();
                    if !already {
                        self.graph.record(asset, specifier, kept);
                    }
                    proof {
                        let rl2 = self.graph.resolution_list();
                        assert forall|i: int| 0 <= i < rl2.len() implies ((#[trigger] rl2[i]).2 matches Some(t) ==> t
                            < paths.len() && accepts_s(paths[t as int])) by {
                            if i < rl.len() {
                                assert(rl2[i] == rl[i]);
                            }
                        }
                    }
                    proof {
                        self.graph.lemma_graph_valid();
                        let rl2 = self.graph.resolution_list();
                        assert forall|a: AssetId| a < self.graph.asset_count() implies #[trigger] self.graph.api_at(a) == g0.api_at(a) by {}
                        assert forall|a: AssetId, sp: Seq<char>| recorded(rl, a, sp) is Some implies #[trigger] recorded(rl2, a, sp) is Some by {
                            if !already {
                                lemma_recorded_push(rl, (asset, specs@[k as int]@, kept), a, sp);
                            }
                        }
                        if !already {
                            lemma_recorded_push(rl, (asset, specs@[k as int]@, kept), asset, specs@[k as int]@);
                        }
                        let sps = specifiers_of(self.graph.api_at(asset));
                        assert(sps[k as int] == specs@[k as int]@);
                        assert forall|j: int| 0 <= j < k + 1 implies #[trigger] recorded(rl2, asset, sps[j]) is Some by {
                            if j < k {
                                assert(recorded(rl, asset, sps[j]) is Some);
                            }
                        }
                        assert forall|a: AssetId| a < asset implies #[trigger] all_recorded(
                            rl2,
                            a,
                            specifiers_of(self.graph.api_at(a)),
                            specifiers_of(self.graph.api_at(a)).len() as int,
                        ) by {
                            let sa = specifiers_of(self.graph.api_at(a));
                            assert(all_recorded(rl, a, sa, sa.len() as int));
                            assert forall|j: int| 0 <= j < sa.len() implies #[trigger] recorded(rl2, a, sa[j]) is Some by {
                                assert(recorded(rl, a, sa[j]) is Some);
                            }
                        }
                    }
                    self.current = Some((asset, specs, k + 1));
                } else {
                    self.current = Some((asset, specs, k));
                }
            },
            None => {},
        }
    }

    /// The graph built.
    pub fn finish(self) -> (r: FsBundleGraph)
        requires
            self.wf(),
        ensures
            r == self.graph_of(),
            graph_valid(&r),
            targets_accepted(r.resolution_list(), r.module_paths()),
    {
        proof {
            self.graph.lemma_graph_valid();
        }
        self.graph
    }
}

proof fn lemma_all_recorded_step(rl: Seq<(AssetId, Seq<char>, Option<AssetId>)>, a: AssetId, specs: Seq<Seq<char>>, k: int)
    requires
        all_recorded(rl, a, specs, k),
        0 <= k < specs.len(),
        recorded(rl, a, specs[k]) is Some,
    ensures
        all_recorded(rl, a, specs, k + 1),
{
}

impl BundleGraph for FsBundleGraph {
    closed spec fn asset_count(&self) -> nat {
        self.modules@.len()
    }

    closed spec fn entry_asset(&self) -> AssetId {
        self.entry
    }

    closed spec fn api_at(&self, asset: AssetId) -> API {
        self.modules@[asset as int].1
    }

    closed spec fn resolution(&self, asset: AssetId, specifier: Seq<char>) -> Option<AssetId> {
        match recorded(self.resolution_list(), asset, specifier) {
            Some(t) => t,
            None => None,
        }
    }

    fn entry(&self) -> (r: AssetId) {
        self.entry
    }

    fn api(&self, asset: AssetId) -> (r: &API) {
        &self.modules[asset].1
    }

    fn resolve(&self, asset: AssetId, specifier: &str) -> (r: Option<AssetId>) {
        match self.recorded_target(asset, specifier) {
            Some(t) => t,
            None => None,
        }
    }
}

} // verus!
