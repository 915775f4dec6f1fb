//! Storing path trees for later bundles, and guarding against searches known to fail.

use core::marker::PhantomData;
use std::collections::BTreeMap;

use vstd::prelude::*;

use crate::contact_manager::ContactManager;
use crate::errors::ASABRError;
use crate::multigraph::{INodeRef, Multigraph};
use crate::node_manager::NodeManager;
use crate::pathfinding::destination::FindableDest;
use crate::pathfinding::dijkstra::{result_view, Pathfinding};
use crate::pathfinding::PathFindingOutput;
use crate::paths::PathFragment;
use crate::types::{Bundle, Date, Volume};

pub mod cache;
pub mod table;

verus! {

/// A store of path trees: it selects a stored tree that still serves a bundle, and keeps new
/// ones.
pub trait PathsStorage<NM: NodeManager, CM: ContactManager, D: FindableDest<NM, CM>> {
    /// What the storage holds, as contracts see it.
    type StorageView;

    /// The storage's contents.
    spec fn sview(&self) -> Self::StorageView;

    /// Selecting a tree for the bundle and destination from the contents `v`: the contents
    /// afterwards, and the tree selected, if any, or the storage's error.
    spec fn spec_select(
        v: Self::StorageView,
        dest: D,
        graph: Multigraph<NM, CM>,
        bundle: Bundle,
        time: Date,
    ) -> (Self::StorageView, Result<Option<Seq<Option<PathFragment>>>, ASABRError>);

    /// Storing `tree` for the bundle and destination in the contents `v`: the contents
    /// afterwards.
    spec fn spec_store(
        v: Self::StorageView,
        tree: Seq<Option<PathFragment>>,
        dest: D,
        graph: Multigraph<NM, CM>,
        bundle: Bundle,
    ) -> Self::StorageView;

    /// The storage's own invariant, which selecting and storing keep.
    spec fn storage_inv(&self) -> bool;

    /// A stored tree that still serves the bundle for this destination, if there is one.
    fn select(
        &mut self,
        bundle: &Bundle,
        destination: &D,
        route_time: Date,
        curr_time: Option<Date>,
        multigraph: &Multigraph<NM, CM>,
    ) -> (r: Result<Option<PathFindingOutput>, ASABRError>)
        requires
            old(self).storage_inv(),
            destination.fits_graph(*multigraph),
            multigraph.wf(),
            multigraph.ni() + multigraph.ne() + multigraph.nv() <= usize::MAX,
            bundle.wf(),
        ensures
            final(self).storage_inv(),
            (final(self).sview(), result_view(r)) == Self::spec_select(
                old(self).sview(),
                *destination,
                *multigraph,
                *bundle,
                route_time,
            ),
    ;

    /// Keeps the tree found for the bundle and destination, and gives it back.
    fn store(
        &mut self,
        tree: PathFindingOutput,
        destination: &D,
        bundle: &Bundle,
        route_time: Date,
        curr_time: Option<Date>,
        multigraph: &Multigraph<NM, CM>,
    ) -> (r: PathFindingOutput)
        requires
            old(self).storage_inv(),
            destination.fits_graph(*multigraph),
            multigraph.ni() + multigraph.ne() + multigraph.nv() <= usize::MAX,
        ensures
            final(self).storage_inv(),
            final(self).sview() == Self::spec_store(
                old(self).sview(),
                tree.path_tree@,
                *destination,
                *multigraph,
                *bundle,
            ),
            r.path_tree@ == tree.path_tree@,
    ;
}

/// The storage that keeps nothing.
pub struct NoStorage;

impl<NM: NodeManager, CM: ContactManager, D: FindableDest<NM, CM>> PathsStorage<NM, CM, D> for NoStorage {
    type StorageView = ();

    open spec fn sview(&self) -> () {
        ()
    }

    open spec fn spec_select(
        v: (),
        dest: D,
        graph: Multigraph<NM, CM>,
        bundle: Bundle,
        time: Date,
    ) -> ((), Result<Option<Seq<Option<PathFragment>>>, ASABRError>) {
        ((), Ok(None))
    }

    open spec fn spec_store(
        v: (),
        tree: Seq<Option<PathFragment>>,
        dest: D,
        graph: Multigraph<NM, CM>,
        bundle: Bundle,
    ) -> () {
        ()
    }

    open spec fn storage_inv(&self) -> bool {
        true
    }

    fn select(
        &mut self,
        bundle: &Bundle,
        destination: &D,
        route_time: Date,
        curr_time: Option<Date>,
        multigraph: &Multigraph<NM, CM>,
    ) -> (r: Result<Option<PathFindingOutput>, ASABRError>)
        ensures
            r matches Ok(None),
    {
        Ok(None)
    }

    fn store(
        &mut self,
        tree: PathFindingOutput,
        destination: &D,
        bundle: &Bundle,
        route_time: Date,
        curr_time: Option<Date>,
        multigraph: &Multigraph<NM, CM>,
    ) -> (r: PathFindingOutput) {
        tree.into_owned()
    }
}

/// A pathfinder behind a storage: a stored tree that still serves is used, else the pathfinder
/// searches and the tree it finds is stored.
pub struct Cached<S, P> {
    /// The storage.
    pub cache: S,
    /// The pathfinder.
    pub pathfinder: P,
}

impl<S, P> Cached<S, P> {
    /// Puts the pathfinder behind the storage.
    pub fn new(storage: S, pathfinder: P) -> (r: Self)
        ensures
            r.cache == storage,
            r.pathfinder == pathfinder,
    {
        Cached { cache: storage, pathfinder }
    }
}

impl<
    NM: NodeManager,
    CM: ContactManager,
    D: FindableDest<NM, CM>,
    S: PathsStorage<NM, CM, D>,
    P: Pathfinding<NM, CM, D>,
> Pathfinding<NM, CM, D> for Cached<S, P> {
    open spec fn finder_inv(&self) -> bool {
        self.cache.storage_inv() && self.pathfinder.finder_inv()
    }

    /// The tree or error the storage selects; on a miss, what the pathfinder finds.
    open spec fn spec_found(
        &self,
        graph: Multigraph<NM, CM>,
        time: Date,
        source: INodeRef,
        bundle: Bundle,
        dest: D,
        prune: Option<Date>,
        r: Result<Option<Seq<Option<PathFragment>>>, ASABRError>,
    ) -> bool {
        if dest.fits_graph(graph) {
            let sel = S::spec_select(self.cache.sview(), dest, graph, bundle, time);
            match sel.1 {
                Ok(None) => self.pathfinder.spec_found(graph, time, source, bundle, dest, prune, r),
                _ => r == sel.1,
            }
        } else {
            self.pathfinder.spec_found(graph, time, source, bundle, dest, prune, r)
        }
    }

    /// A tree selected from the storage is returned as it is; otherwise the pathfinder
    /// searches, and the tree it finds is stored and returned. An error of the storage or of
    /// the pathfinder is returned. A destination that names nodes the graph does not have is
    /// searched for without the storage, and a tree is stored only while the destination still
    /// names nodes of the graph.
    fn find_path(
        &mut self,
        multigraph: &mut Multigraph<NM, CM>,
        routing_time: Date,
        source: INodeRef,
        bundle: &Bundle,
        destination: &mut D,
        prune_time: Option<Date>,
    ) -> (r: Result<Option<PathFindingOutput>, ASABRError>)
        ensures
            old(destination).fits_graph(*old(multigraph)) ==> {
                let sel = S::spec_select(
                    old(self).cache.sview(),
                    *old(destination),
                    *old(multigraph),
                    *bundle,
                    routing_time,
                );
                &&& (sel.1 is Err || (sel.1 matches Ok(Some(_)))) ==> {
                    &&& result_view(r) == sel.1
                    &&& final(self).cache.sview() == sel.0
                    &&& *final(multigraph) == *old(multigraph)
                    &&& *final(destination) == *old(destination)
                    &&& final(self).pathfinder == old(self).pathfinder
                }
                &&& sel.1 matches Ok(None) ==> (r matches Ok(Some(o)) ==> (final(destination).fits_graph(
                    *final(multigraph),
                ) ==> final(self).cache.sview() == S::spec_store(
                    sel.0,
                    o.path_tree@,
                    *final(destination),
                    *final(multigraph),
                    *bundle,
                )))
                &&& sel.1 matches Ok(None) ==> (!(r matches Ok(Some(_))) ==> final(self).cache.sview() == sel.0)
            },
    {
        if !destination.fits(multigraph) {
            return self.pathfinder.find_path(multigraph, routing_time, source, bundle, destination, prune_time);
        }
        match self.cache.select(bundle, destination, routing_time, prune_time, multigraph) {
            Ok(Some(found)) => Ok(Some(found)),
            Err(e) => Err(e),
            Ok(None) => match self.pathfinder.find_path(
                multigraph,
                routing_time,
                source,
                bundle,
                destination,
                prune_time,
            ) {
                Ok(Some(path)) => {
                    if destination.fits(multigraph) {
                        Ok(Some(self.cache.store(path, destination, bundle, routing_time, prune_time, multigraph)))
                    } else {
                        Ok(Some(path))
                    }
                },
                other => other,
            },
        }
    }
}

/// The number of priority slots a bound set for priority `prio` covers: all slots up to the
/// priority's own, or all of them for a negative priority.
pub open spec fn prio_slots(prio: i8, n: usize) -> int {
    if prio < 0 {
        n as int
    } else if prio + 1 < n {
        prio + 1
    } else {
        n as int
    }
}

/// The priority slot a bundle of priority `prio` is checked against: its own, capped at the
/// last slot; a negative priority uses the last slot.
pub open spec fn prio_slot(prio: i8, n: usize) -> int {
    if prio < 0 {
        n - 1
    } else if prio < n - 1 {
        prio as int
    } else {
        n - 1
    }
}

/// Pairs of indices, and pairs of an index and a priority, are ordered as the standard library
/// documents, so ordered maps keyed by them behave as maps.
pub proof fn lemma_pair_keys_ordered()
    ensures
        vstd::laws_cmp::obeys_cmp::<(usize, usize)>(),
        vstd::laws_cmp::obeys_cmp::<(usize, i8)>(),
{
    broadcast use vstd::laws_cmp::group_laws_cmp;

}

/// The number of priority slots a bound set for priority `prio` covers.
fn slots_of(prio: i8, n: usize) -> (r: usize)
    ensures
        r == prio_slots(prio, n),
{
    if prio < 0 {
        n
    } else {
        let p = prio as usize + 1;
        if p < n {
            p
        } else {
            n
        }
    }
}

/// The priority slot a bundle of priority `prio` is checked against.
fn slot_of(prio: i8, n: usize) -> (r: usize)
    requires
        n > 0,
    ensures
        r == prio_slot(prio, n),
{
    if prio < 0 {
        n - 1
    } else {
        let p = prio as usize;
        if p < n - 1 {
            p
        } else {
            n - 1
        }
    }
}

/// The bounds after a bundle of `size` found no path to the node `id`: each of its first
/// `slots` priority slots is bounded by the smaller of its bound and `size`.
pub open spec fn limit_set(limits: Map<(usize, usize), Volume>, id: usize, slots: int, size: Volume) -> Map<
    (usize, usize),
    Volume,
> {
    Map::new(
        |k: (usize, usize)| limits.contains_key(k) || (k.0 == id && k.1 < slots),
        |k: (usize, usize)|
            if k.0 == id && k.1 < slots {
                if limits.contains_key(k) && limits[k] < size {
                    limits[k]
                } else {
                    size
                }
            } else {
                limits[k]
            },
    )
}

/// Whether a bundle of priority `prio` and `size` is known to find no path to the node `id`.
pub open spec fn limit_blocks(limits: Map<(usize, usize), Volume>, id: usize, prio: i8, size: Volume, n: usize) -> bool {
    let k = (id, prio_slot(prio, n) as usize);
    &&& n > 0
    &&& limits.contains_key(k)
    &&& limits[k] <= size
}

/// Bounds on the bundles worth searching for: for each destination node and priority slot,
/// the smallest size of a bundle that found no path. A bundle at least as large, of the same
/// priority slot, would find none either.
pub struct Guard<D, const PRIO_COUNT: usize> {
    /// The bound of each (destination key, priority slot).
    pub limits: BTreeMap<(usize, usize), Volume>,
    /// The destinations guarded.
    pub _phantom: PhantomData<D>,
}

impl<D, const PRIO_COUNT: usize> Guard<D, PRIO_COUNT> {
    /// A guard with no bound.
    pub fn new() -> (r: Self)
        ensures
            r.limits@ == Map::<(usize, usize), Volume>::empty(),
    {
        Guard { limits: BTreeMap::new(), _phantom: PhantomData }
    }

    /// Records that `bundle` found no path to `dest`: the bounds of the priority slots up to the
    /// bundle's own become at most its size. A destination without a key is not guarded.
    pub fn set_limit<NM: NodeManager, CM: ContactManager>(&mut self, bundle: &Bundle, dest: &D, graph: &Multigraph<NM, CM>)
        where
            D: FindableDest<NM, CM>,
        requires
            dest.fits_graph(*graph),
            graph.ni() + graph.ne() + graph.nv() <= usize::MAX,
        ensures
            final(self).limits@ == match dest.spec_to_id(*graph) {
                None => old(self).limits@,
                Some(id) => limit_set(old(self).limits@, id, prio_slots(bundle.priority, PRIO_COUNT), bundle.size),
            },
    {
        proof {
            lemma_pair_keys_ordered();
        }
        let id = match dest.to_id(graph) {
            None => {
                return ;
            },
            Some(id) => id,
        };
        let count = slots_of(bundle.priority, PRIO_COUNT);
        let ghost limits0 = self.limits@;
        let mut k: usize = 0;
        while k < count
            invariant
                k <= count,
                count == prio_slots(bundle.priority, PRIO_COUNT),
                self.limits@ == limit_set(limits0, id, k as int, bundle.size),
            decreases count - k,
        {
            let size = bundle.size;
            let bound = match self.limits.get(&(id, k)) {
                Some(old) => if *old < size {
                    *old
                } else {
                    size
                },
                None => size,
            };
            self.limits.insert((id, k), bound);
            proof {
                assert(self.limits@ =~= limit_set(limits0, id, k + 1, bundle.size));
            }
            k = k + 1;
        }
    }

    /// Whether `bundle` is known to find no path to `dest`. A destination without a key, and a
    /// guard without priority slots, never block a search.
    pub fn abort<NM: NodeManager, CM: ContactManager>(&self, bundle: &Bundle, dest: &D, graph: &Multigraph<NM, CM>) -> (r:
        bool)
        where
            D: FindableDest<NM, CM>,
        requires
            dest.fits_graph(*graph),
            graph.ni() + graph.ne() + graph.nv() <= usize::MAX,
        ensures
            r == match dest.spec_to_id(*graph) {
                None => false,
                Some(id) => limit_blocks(self.limits@, id, bundle.priority, bundle.size, PRIO_COUNT),
            },
    {
        proof {
            lemma_pair_keys_ordered();
        }
        if PRIO_COUNT == 0 {
            return false;
        }
        let id = match dest.to_id(graph) {
            None => {
                return false;
            },
            Some(id) => id,
        };
        let slot = slot_of(bundle.priority, PRIO_COUNT);
        match self.limits.get(&(id, slot)) {
            None => false,
            Some(limit) => *limit <= bundle.size,
        }
    }
}

/// Once a bundle found no path to a node, a bundle at least as large whose priority slot the
/// bound covers is blocked.
pub proof fn lemma_limit_blocks_larger(
    limits: Map<(usize, usize), Volume>,
    id: usize,
    prio: i8,
    size: Volume,
    later_prio: i8,
    later_size: Volume,
    n: usize,
)
    requires
        n > 0,
        prio_slot(later_prio, n) < prio_slots(prio, n),
        size <= later_size,
    ensures
        limit_blocks(limit_set(limits, id, prio_slots(prio, n), size), id, later_prio, later_size, n),
{
}

/// Recording a failed search only lowers bounds and adds new ones: a bundle blocked before
/// stays blocked.
pub proof fn lemma_limit_set_keeps_blocks(
    limits: Map<(usize, usize), Volume>,
    id: usize,
    slots: int,
    size: Volume,
    other: usize,
    prio: i8,
    later_size: Volume,
    n: usize,
)
    requires
        limit_blocks(limits, other, prio, later_size, n),
    ensures
        limit_blocks(limit_set(limits, id, slots, size), other, prio, later_size, n),
{
}

/// The guard's bounds `limits` block the search for the bundle towards `dest`.
pub open spec fn guard_blocks<NM: NodeManager, CM: ContactManager, D: FindableDest<NM, CM>>(
    limits: Map<(usize, usize), Volume>,
    dest: D,
    graph: Multigraph<NM, CM>,
    bundle: Bundle,
    n: usize,
) -> bool {
    match dest.spec_to_id(graph) {
        None => false,
        Some(id) => limit_blocks(limits, id, bundle.priority, bundle.size, n),
    }
}

/// The bounds `limits` once the search for the bundle towards `dest` found nothing; a
/// destination without a key is not recorded.
pub open spec fn recorded_failure<NM: NodeManager, CM: ContactManager, D: FindableDest<NM, CM>>(
    limits: Map<(usize, usize), Volume>,
    dest: D,
    graph: Multigraph<NM, CM>,
    bundle: Bundle,
    n: usize,
) -> Map<(usize, usize), Volume> {
    match dest.spec_to_id(graph) {
        None => limits,
        Some(id) => limit_set(limits, id, prio_slots(bundle.priority, n), bundle.size),
    }
}

/// A pathfinder behind a guard: a search known to fail is not made again, and a search that
/// finds nothing is recorded.
pub struct Guarded<P, D, const PRIO_COUNT: usize> {
    /// The pathfinder.
    pub finder: P,
    /// The guard.
    pub guard: Guard<D, PRIO_COUNT>,
}

impl<P, D, const PRIO_COUNT: usize> Guarded<P, D, PRIO_COUNT> {
    /// Puts the pathfinder behind a guard with no bound.
    pub fn new(finder: P) -> (r: Self)
        ensures
            r.finder == finder,
            r.guard.limits@ == Map::<(usize, usize), Volume>::empty(),
    {
        Guarded { finder, guard: Guard::new() }
    }
}

impl<
    NM: NodeManager,
    CM: ContactManager,
    D: FindableDest<NM, CM>,
    P: Pathfinding<NM, CM, D>,
    const PRIO_COUNT: usize,
> Pathfinding<NM, CM, D> for Guarded<P, D, PRIO_COUNT> {
    open spec fn finder_inv(&self) -> bool {
        self.finder.finder_inv()
    }

    /// Nothing when the guard blocks the search; otherwise what the pathfinder finds.
    open spec fn spec_found(
        &self,
        graph: Multigraph<NM, CM>,
        time: Date,
        source: INodeRef,
        bundle: Bundle,
        dest: D,
        prune: Option<Date>,
        r: Result<Option<Seq<Option<PathFragment>>>, ASABRError>,
    ) -> bool {
        if dest.fits_graph(graph) && guard_blocks(self.guard.limits@, dest, graph, bundle, PRIO_COUNT) {
            r == Ok::<Option<Seq<Option<PathFragment>>>, ASABRError>(None)
        } else {
            self.finder.spec_found(graph, time, source, bundle, dest, prune, r)
        }
    }

    /// A destination that names nodes the graph does not have is searched for without the
    /// guard; a failed search is recorded only while the destination still names nodes of the
    /// graph.
    fn find_path(
        &mut self,
        multigraph: &mut Multigraph<NM, CM>,
        routing_time: Date,
        source: INodeRef,
        bundle: &Bundle,
        destination: &mut D,
        prune_time: Option<Date>,
    ) -> (r: Result<Option<PathFindingOutput>, ASABRError>)
        ensures
            old(destination).fits_graph(*old(multigraph)) && guard_blocks(
                old(self).guard.limits@,
                *old(destination),
                *old(multigraph),
                *bundle,
                PRIO_COUNT,
            ) ==> {
                &&& r matches Ok(None)
                &&& *final(multigraph) == *old(multigraph)
                &&& final(self).guard.limits@ == old(self).guard.limits@
            },
            (r is Err || r matches Ok(Some(_))) ==> final(self).guard.limits@ == old(self).guard.limits@,
            old(destination).fits_graph(*old(multigraph)) && !guard_blocks(
                old(self).guard.limits@,
                *old(destination),
                *old(multigraph),
                *bundle,
                PRIO_COUNT,
            ) && (r matches Ok(None)) ==> final(self).guard.limits@ == (if final(destination).fits_graph(
                *final(multigraph),
            ) {
                recorded_failure(old(self).guard.limits@, *final(destination), *final(multigraph), *bundle, PRIO_COUNT)
            } else {
                old(self).guard.limits@
            }),
    {
        if !destination.fits(multigraph) {
            return self.finder.find_path(multigraph, routing_time, source, bundle, destination, prune_time);
        }
        if self.guard.abort(bundle, destination, multigraph) {
            return Ok(None);
        }
        match self.finder.find_path(multigraph, routing_time, source, bundle, destination, prune_time) {
            Ok(None) => {
                if destination.fits(multigraph) {
                    self.guard.set_limit(bundle, destination, multigraph);
                }
                Ok(None)
            },
            other => other,
        }
    }
}

/// Once a search towards a destination found nothing, a later bundle no smaller, whose priority
/// slot the recorded bound covers, is blocked.
pub proof fn lemma_guard_blocks_after_failure<NM: NodeManager, CM: ContactManager, D: FindableDest<NM, CM>>(
    limits: Map<(usize, usize), Volume>,
    dest: D,
    graph: Multigraph<NM, CM>,
    failed: Bundle,
    later: Bundle,
    n: usize,
)
    requires
        n > 0,
        dest.spec_to_id(graph) is Some,
        prio_slot(later.priority, n) < prio_slots(failed.priority, n),
        failed.size <= later.size,
    ensures
        guard_blocks(recorded_failure(limits, dest, graph, failed, n), dest, graph, later, n),
{
    let id = dest.spec_to_id(graph)->0;
    lemma_limit_blocks_larger(limits, id, failed.priority, failed.size, later.priority, later.size, n);
}

/// A guarded pathfinder that recorded a failed search towards a destination answers a later
/// bundle no smaller, whose priority slot the bound covers, with nothing and does not search.
pub proof fn lemma_guarded_answers_nothing_after_failure<
    NM: NodeManager,
    CM: ContactManager,
    D: FindableDest<NM, CM>,
    P: Pathfinding<NM, CM, D>,
    const PRIO_COUNT: usize,
>(
    gd: Guarded<P, D, PRIO_COUNT>,
    limits: Map<(usize, usize), Volume>,
    dest: D,
    graph: Multigraph<NM, CM>,
    failed: Bundle,
    later: Bundle,
    time: Date,
    source: INodeRef,
    prune: Option<Date>,
    r: Result<Option<Seq<Option<PathFragment>>>, ASABRError>,
)
    requires
        PRIO_COUNT > 0,
        dest.fits_graph(graph),
        dest.spec_to_id(graph) is Some,
        gd.guard.limits@ == recorded_failure(limits, dest, graph, failed, PRIO_COUNT),
        prio_slot(later.priority, PRIO_COUNT) < prio_slots(failed.priority, PRIO_COUNT),
        failed.size <= later.size,
        gd.spec_found(graph, time, source, later, dest, prune, r),
    ensures
        r == Ok::<Option<Seq<Option<PathFragment>>>, ASABRError>(None),
{
    lemma_guard_blocks_after_failure(limits, dest, graph, failed, later, PRIO_COUNT);
}

} // verus!
