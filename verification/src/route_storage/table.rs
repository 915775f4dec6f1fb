//! A routing table: one stored path tree per destination key and bundle priority.

use core::marker::PhantomData;
use std::collections::BTreeMap;

use vstd::prelude::*;

use crate::contact_manager::ContactManager;
use crate::errors::ASABRError;
use crate::multigraph::Multigraph;
use crate::node_manager::NodeManager;
use crate::pathfinding::destination::FindableDest;
use crate::pathfinding::PathFindingOutput;
use crate::paths::PathFragment;
use crate::route_storage::{lemma_pair_keys_ordered, PathsStorage};
use crate::types::{Bundle, Date};

verus! {

/// A table of path trees, one per destination key and bundle priority. Destinations without a
/// key are never stored.
pub struct RoutingTable<D> {
    /// The stored trees.
    pub cache: BTreeMap<(usize, i8), PathFindingOutput>,
    /// The destinations served.
    pub _phantom: PhantomData<D>,
}

impl<D> RoutingTable<D> {
    /// The trees the table holds, by destination key and priority.
    pub open spec fn table_view(&self) -> Map<(usize, i8), Seq<Option<PathFragment>>> {
        self.cache@.map_values(|o: PathFindingOutput| o.path_tree@)
    }

    /// An empty table.
    pub fn new() -> (r: Self)
        ensures
            r.table_view() == Map::<(usize, i8), Seq<Option<PathFragment>>>::empty(),
    {
        let r = RoutingTable { cache: BTreeMap::new(), _phantom: PhantomData };
        assert(r.table_view() =~= Map::<(usize, i8), Seq<Option<PathFragment>>>::empty());
        r
    }
}

/// A tree stored under a key is what the table then holds there, and the other keys keep
/// theirs.
pub proof fn lemma_table_read_back(
    v: Map<(usize, i8), Seq<Option<PathFragment>>>,
    key: (usize, i8),
    tree: Seq<Option<PathFragment>>,
    other: (usize, i8),
)
    requires
        other != key,
    ensures
        v.insert(key, tree).contains_key(key),
        v.insert(key, tree)[key] == tree,
        v.insert(key, tree).contains_key(other) == v.contains_key(other),
        v.contains_key(other) ==> v.insert(key, tree)[other] == v[other],
{
}

impl<NM: NodeManager, CM: ContactManager, D: FindableDest<NM, CM>> PathsStorage<NM, CM, D> for RoutingTable<D> {
    type StorageView = Map<(usize, i8), Seq<Option<PathFragment>>>;

    open spec fn sview(&self) -> Map<(usize, i8), Seq<Option<PathFragment>>> {
        self.table_view()
    }

    /// The tree under the destination's key and the bundle's priority, checked again for the
    /// bundle; it is updated in the table, and selected if it still serves.
    open spec fn spec_select(
        v: Map<(usize, i8), Seq<Option<PathFragment>>>,
        dest: D,
        graph: Multigraph<NM, CM>,
        bundle: Bundle,
        time: Date,
    ) -> (Map<(usize, i8), Seq<Option<PathFragment>>>, Result<Option<Seq<Option<PathFragment>>>, ASABRError>) {
        match dest.spec_to_id(graph) {
            None => (v, Ok(None)),
            Some(id) => {
                let key = (id, bundle.priority);
                if !v.contains_key(key) {
                    (v, Ok(None))
                } else {
                    let res = dest.spec_validate(graph, v[key], time, bundle);
                    (v.insert(key, res.0), Ok(
                        if res.1 {
                            Some(res.0)
                        } else {
                            None
                        },
                    ))
                }
            },
        }
    }

    /// The tree is stored under the destination's key and the bundle's priority, in place of
    /// any tree stored there; a destination without a key is not stored.
    open spec fn spec_store(
        v: Map<(usize, i8), Seq<Option<PathFragment>>>,
        tree: Seq<Option<PathFragment>>,
        dest: D,
        graph: Multigraph<NM, CM>,
        bundle: Bundle,
    ) -> Map<(usize, i8), Seq<Option<PathFragment>>> {
        match dest.spec_to_id(graph) {
            None => v,
            Some(id) => v.insert((id, bundle.priority), tree),
        }
    }

    open spec fn storage_inv(&self) -> bool {
        true
    }

    fn select(
        &mut self,
        bundle: &Bundle,
        destination: &D,
        route_time: Date,
        curr_time: Option<Date>,
        multigraph: &Multigraph<NM, CM>,
    ) -> (r: Result<Option<PathFindingOutput>, ASABRError>)
    {
        proof {
            lemma_pair_keys_ordered();
        }
        let id = match destination.to_id(multigraph) {
            None => {
                return Ok(None);
            },
            Some(id) => id,
        };
        let key = (id, bundle.priority);
        let ghost m0 = self.cache@;
        match self.cache.remove(&key) {
            None => {
                assert(self.cache@ =~= m0);
                Ok(None)
            },
            Some(mut paths) => {
                let ok = destination.validate(&mut paths, route_time, bundle, multigraph);
                let out = if ok {
                    Some(paths.duplicate())
                } else {
                    None
                };
                let ghost t = paths.path_tree@;
                self.cache.insert(key, paths);
                proof {
                    assert(self.cache@ =~= m0.insert(key, self.cache@[key]));
                    assert(self.table_view() =~= m0.map_values(|o: PathFindingOutput| o.path_tree@).insert(key, t));
                }
                Ok(out)
            },
        }
    }

    fn store(
        &mut self,
        tree: PathFindingOutput,
        destination: &D,
        bundle: &Bundle,
        route_time: Date,
        curr_time: Option<Date>,
        multigraph: &Multigraph<NM, CM>,
    ) -> (r: PathFindingOutput)
    {
        proof {
            lemma_pair_keys_ordered();
        }
        match destination.to_id(multigraph) {
            None => tree,
            Some(id) => {
                let out = tree.duplicate();
                let ghost m0 = self.cache@;
                let ghost t = tree.path_tree@;
                self.cache.insert((id, bundle.priority), tree);
                proof {
                    assert(self.table_view() =~= m0.map_values(|o: PathFindingOutput| o.path_tree@).insert(
                        (id, bundle.priority),
                        t,
                    ));
                }
                out
            },
        }
    }
}

} // verus!
