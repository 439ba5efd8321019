//! The abstraction over the module graph that the packager operates on.
//!
//! The packager only needs to (a) find the entry module, (b) read each
//! module's parsed [`API`], and (c) resolve a dependency specifier from one
//! module to another. Following re-exports, aliases, and inline imported types
//! is done by the packager itself using the `Reference` types recorded during
//! transformation.
use vstd::prelude::*;
use crate::API;

verus! {

/// Identifies a module within the bundle. Opaque to the packager.
pub type AssetId = usize;

/// A bundle of modules: the entry, each module's API, and how a specifier
/// written in a module resolves to another module.
pub trait BundleGraph {
    /// The number of modules in the graph; modules are numbered from 0.
    spec fn asset_count(&self) -> nat;

    /// The entry module.
    spec fn entry_asset(&self) -> AssetId;

    /// The parsed transform output of a module.
    spec fn api_at(&self, asset: AssetId) -> API;

    /// The module a specifier written in `asset` resolves to, if any.
    spec fn resolution(&self, asset: AssetId, specifier: Seq<char>) -> Option<AssetId>;

    /// The entry module whose exports drive the output.
    fn entry(&self) -> (r: AssetId)
        ensures
            r == self.entry_asset(),
    ;

    /// The parsed transform output for a module.
    fn api(&self, asset: AssetId) -> (r: &API)
        requires
            asset < self.asset_count(),
        ensures
            *r == self.api_at(asset),
    ;

    /// Resolves a dependency `specifier` (as written in `asset`) to another
    /// module. Returns `None` for external or unresolvable modules (e.g.
    /// `react`), in which case references to them are left as identifiers.
    fn resolve(&self, asset: AssetId, specifier: &str) -> (r: Option<AssetId>)
        requires
            asset < self.asset_count(),
        ensures
            r == self.resolution(asset, specifier@),
    ;
}

/// A graph the packager can work on: its entry is one of its modules, every
/// module's API is well formed, and every resolution names one of its modules.
pub open spec fn graph_valid<G: BundleGraph>(g: &G) -> bool {
    &&& g.entry_asset() < g.asset_count()
    &&& forall|a: AssetId| a < g.asset_count() ==> (#[trigger] g.api_at(a)).wf()
    &&& forall|a: AssetId, s: Seq<char>|
        a < g.asset_count() ==> (#[trigger] g.resolution(a, s) matches Some(t) ==> t < g.asset_count())
}

} // verus!
