//! Routers: a multigraph together with the pathfinder that searches it.

use core::marker::PhantomData;

use vstd::prelude::*;

use crate::contact_manager::ContactManager;
use crate::errors::ASABRError;
use crate::multigraph::{INodeRef, Multigraph};
use crate::node_manager::NodeManager;
use crate::pathfinding::destination::All;
use crate::pathfinding::dijkstra::{result_view, Destination, Pathfinding};
use crate::pathfinding::PathFindingOutput;
use crate::paths::PathFragment;
use crate::route_storage::{Cached, Guarded};
use crate::types::{Bundle, Date};

verus! {

/// A multigraph and the pathfinder that searches it for destinations of type `D`.
pub struct Router<NM: NodeManager, CM: ContactManager, P, D> {
    /// The multigraph.
    pub multigraph: Multigraph<NM, CM>,
    /// The pathfinder.
    pub pathfinder: P,
    /// The destinations searched for.
    pub _phantom: PhantomData<D>,
}

impl<NM: NodeManager, CM: ContactManager, D: Destination, P: Pathfinding<NM, CM, D>> Router<NM, CM, P, D> {
    /// A router over the multigraph with the pathfinder.
    pub fn new(multigraph: Multigraph<NM, CM>, pathfinder: P) -> (r: Self)
        ensures
            r.multigraph == multigraph,
            r.pathfinder == pathfinder,
    {
        Router { multigraph, pathfinder, _phantom: PhantomData }
    }

    /// Searches the multigraph for paths from `source` to `destination`, for a bundle leaving at
    /// `routing_time`.
    pub fn find_path(
        &mut self,
        destination: D,
        routing_time: Date,
        source: INodeRef,
        bundle: &Bundle,
        prune_time: Option<Date>,
    ) -> (r: Result<Option<PathFindingOutput>, ASABRError>)
        requires
            old(self).pathfinder.finder_inv(),
            old(self).multigraph.wf(),
            old(self).multigraph.ni() + old(self).multigraph.ne() + old(self).multigraph.nv() <= usize::MAX,
            source.index < old(self).multigraph.ni(),
            bundle.wf(),
        ensures
            final(self).pathfinder.finder_inv(),
            final(self).multigraph.wf(),
            final(self).multigraph.ni() == old(self).multigraph.ni(),
            final(self).multigraph.ne() == old(self).multigraph.ne(),
            final(self).multigraph.nv() == old(self).multigraph.nv(),
            old(self).pathfinder.spec_found(
                old(self).multigraph,
                routing_time,
                source,
                *bundle,
                destination,
                prune_time,
                result_view(r),
            ),
    {
        let mut destination = destination;
        self.pathfinder.find_path(&mut self.multigraph, routing_time, source, bundle, &mut destination, prune_time)
    }
}

/// A pathfinder that always searches every routable node, whatever the destination asked for;
/// with a storage in front of it, one search serves many destinations.
pub struct AlwaysAll<P, D> {
    /// The pathfinder, searching for all nodes.
    pub pathfinder: P,
    /// The destinations asked for.
    pub _phantom: PhantomData<D>,
}

impl<P, D> AlwaysAll<P, D> {
    /// Makes the pathfinder search every node.
    pub fn new(pathfinder: P) -> (r: Self)
        ensures
            r.pathfinder == pathfinder,
    {
        AlwaysAll { pathfinder, _phantom: PhantomData }
    }
}

impl<NM: NodeManager, CM: ContactManager, P: Pathfinding<NM, CM, All>, D: Destination> Pathfinding<NM, CM, D> for AlwaysAll<
    P,
    D,
> {
    open spec fn finder_inv(&self) -> bool {
        self.pathfinder.finder_inv()
    }

    /// What the pathfinder finds when it searches for every node.
    open spec fn spec_found(
        &self,
        graph: Multigraph<NM, CM>,
        time: Date,
        source: INodeRef,
        bundle: Bundle,
        dest: D,
        prune: Option<Date>,
        r: Result<Option<Seq<Option<PathFragment>>>, ASABRError>,
    ) -> bool {
        self.pathfinder.spec_found(graph, time, source, bundle, All, prune, r)
    }

    fn find_path(
        &mut self,
        multigraph: &mut Multigraph<NM, CM>,
        routing_time: Date,
        source: INodeRef,
        bundle: &Bundle,
        destination: &mut D,
        prune_time: Option<Date>,
    ) -> (r: Result<Option<PathFindingOutput>, ASABRError>)
        ensures
            *final(destination) == *old(destination),
    {
        let mut all = All;
        self.pathfinder.find_path(multigraph, routing_time, source, bundle, &mut all, prune_time)
    }
}

/// The shortest path with storage: a guard in front of a storage in front of a pathfinder that
/// always searches every node.
pub type Spsn<P, S, D, const PRIO_COUNT: usize> = Guarded<Cached<S, AlwaysAll<P, D>>, D, PRIO_COUNT>;

/// The options of a shortest-path-with-storage router: whether stored trees are checked for
/// the bundle's size and priority, and how many are kept.
#[derive(Clone)]
pub struct SpsnOptions {
    /// Whether a stored tree is checked against the bundle's size.
    pub check_size: bool,
    /// Whether a stored tree is checked against the bundle's priority.
    pub check_priority: bool,
    /// How many trees are kept.
    pub max_entries: usize,
}

} // verus!
