//! Documentation extraction for TypeScript modules: a model of each module's
//! declared types ([`API`]), JSDoc parsing, and the packager that links the
//! module APIs of a bundle into one documentation artifact.
use vstd::prelude::*;
use indexmap::{IndexMap, IndexSet};

pub mod text;
pub mod indexed;
pub mod jsdoc;
pub mod ty;
pub mod parse;
pub mod ast;
pub mod reader;
pub mod values;
pub mod decls;
pub mod packager;
pub mod paths;
pub mod mock;
pub mod fs_graph;
pub mod storybook;
pub mod csf;

pub use crate::packager::walk::package;
pub use crate::packager::PackageOutput;
pub use crate::packager::node::{Node, NodeKind, NodeRef, NodeArena};
pub use crate::packager::bundle::{AssetId, BundleGraph};
pub use crate::ty::{Type, TypeId, Parameter, Property};

use crate::indexed::{entries_insert, id_map_entries, id_map_new, id_map_len, id_map_get_index, id_map_insert, key_pos, keys_distinct, lemma_insert_distinct, lemma_key_pos, str_set_items, str_set_new};
use crate::ty::{arena_wf, id_below, refs_below, refs_within};

verus! {

/// Represents an individual module API.
pub struct API {
    /// Specifiers for imported types.
    pub dependencies: IndexSet<String>,
    /// Arena of types defined in this module.
    pub types: Vec<Type>,
    /// Map of exported names to types.
    pub exports: IndexMap<String, TypeId>,
    /// Re-exports.
    pub export_all: Vec<String>,
}

impl API {
    /// Every type id in the module (in its arena and its exports) refers to an
    /// arena entry, and the arena holds no bare `Ref`.
    pub open spec fn wf(&self) -> bool {
        &&& arena_wf(self.types@)
        &&& self.types@.len() <= u32::MAX
        &&& forall|i: int| 0 <= i < id_map_entries(self.exports).len()
            ==> id_below(#[trigger] id_map_entries(self.exports)[i].1, self.types@.len())
        &&& keys_distinct(id_map_entries(self.exports))
    }

    /// An API with no types, exports or dependencies.
    pub fn new() -> (r: API)
        ensures
            r.wf(),
            r.types@.len() == 0,
            str_set_items(r.dependencies).len() == 0,
            id_map_entries(r.exports).len() == 0,
            r.export_all@.len() == 0,
    {
        API { dependencies: str_set_new(), types: Vec::new(), exports: id_map_new(), export_all: Vec::new() }
    }

    /// Adds a type to the arena and returns its id; a `Ref` is not stored but
    /// stands for the id it holds.
    pub fn add_type(&mut self, ty: Type) -> (r: TypeId)
        requires
            old(self).types@.len() < u32::MAX,
        ensures
            final(self).dependencies == old(self).dependencies,
            final(self).exports == old(self).exports,
            final(self).export_all == old(self).export_all,
            match ty {
                Type::Ref(t) => r == t && final(self).types@ == old(self).types@,
                _ => r == TypeId(old(self).types@.len() as u32) && final(self).types@ == old(self).types@.push(ty),
            },
    {
        if let Type::Ref(t) = ty {
            return t;
        }
        let type_id = TypeId(self.types.len() as u32);
        self.types.push(ty);
        type_id
    }
}

impl API {
    /// Whether this API is well formed (see [`API::wf`]).
    pub fn is_wf(&self) -> (r: bool)
        ensures
            r == self.wf(),
    {
        let n = self.types.len();
        if n > 0xffff_ffff {
            return false;
        }
        let mut k: usize = 0;
        while k < n
            invariant
                k <= n,
                n == self.types@.len(),
                forall|i: int| 0 <= i < k ==> refs_below(#[trigger] self.types@[i], n as nat) && !(self.types@[i] is Ref),
            decreases n - k,
        {
            let is_ref = match &self.types[k] {
                Type::Ref(_) => true,
                _ => false,
            };
            if is_ref || !refs_within(&self.types[k], n) {
                return false;
            }
            k = k + 1;
        }
        let m = id_map_len(&self.exports);
        let ghost e = id_map_entries(self.exports);
        let mut j: usize = 0;
        while j < m
            invariant
                j <= m,
                m == e.len(),
                e == id_map_entries(self.exports),
                n == self.types@.len(),
                forall|i: int| 0 <= i < j ==> id_below(#[trigger] e[i].1, n as nat),
                forall|a: int, b: int| 0 <= a < b < j ==> #[trigger] e[a].0 != #[trigger] e[b].0,
            decreases m - j,
        {
            let (name, t) = id_map_get_index(&self.exports, j);
            if t.0 as usize >= n {
                return false;
            }
            let mut i: usize = 0;
            while i < j
                invariant
                    i <= j < m,
                    m == e.len(),
                    e == id_map_entries(self.exports),
                    name@ == e[j as int].0,
                    forall|a: int| 0 <= a < i ==> #[trigger] e[a].0 != e[j as int].0,
                decreases j - i,
            {
                let (other, _) = id_map_get_index(&self.exports, i);
                if crate::ty::str_eq(other.as_str(), name.as_str()) {
                    proof {
                        assert(!keys_distinct(e));
                    }
                    return false;
                }
                i = i + 1;
            }
            j = j + 1;
        }
        true
    }

    /// Exports the type `id` under `name` (replacing an earlier export of
    /// that name, which keeps its position).
    pub fn add_export(&mut self, name: String, id: TypeId)
        requires
            old(self).wf(),
            id_below(id, old(self).types@.len()),
        ensures
            final(self).wf(),
            final(self).types == old(self).types,
            final(self).dependencies == old(self).dependencies,
            final(self).export_all == old(self).export_all,
            id_map_entries(final(self).exports) == entries_insert(id_map_entries(old(self).exports), name@, id),
    {
        let ghost e = id_map_entries(self.exports);
        proof {
            lemma_insert_distinct(e, name@, id);
            lemma_key_pos(e, name@);
        }
        id_map_insert(&mut self.exports, name, id);
        proof {
            let e2 = id_map_entries(self.exports);
            assert forall|i: int| 0 <= i < e2.len() implies id_below(#[trigger] e2[i].1, self.types@.len()) by {
                if i < e.len() && i != key_pos(e, name@) {
                    assert(e2[i] == e[i]);
                }
            }
        }
    }
}

impl Default for API {
    fn default() -> (r: API)
        ensures
            r.wf(),
            r.types@.len() == 0,
            str_set_items(r.dependencies).len() == 0,
            id_map_entries(r.exports).len() == 0,
            r.export_all@.len() == 0,
    {
        API::new()
    }
}

} // verus!
