//! Node parenting: the Dijkstra workspace that keeps one path per routable node.

use core::marker::PhantomData;

use vstd::prelude::*;

use crate::contact_manager::ContactManager;
use crate::distance::{shorter_than, Distance};
use crate::multigraph::{INodeRef, Multigraph, RealNodeRef, RoutableNodeRef};
use crate::node_manager::NodeManager;
use crate::pathfinding::dijkstra::{same_but_parent, DijkstraWorkspace, Disktra};
use crate::pathfinding::{count_of, lemma_count_update, parents_linked, PathFindingOutput};
use crate::paths::PathFragment;
use crate::types::Bundle;

verus! {

/// Dijkstra's search with node parenting: one path kept per node.
pub type NodeParenting<D> = Disktra<NodeParentingWorkArea<D>, D>;

/// The workspace of node parenting: the best path found to each routable node (internal nodes
/// first, then virtual ones), and which nodes were already expanded.
pub struct NodeParentingWorkArea<D> {
    paths: Vec<Option<PathFragment>>,
    visited: Vec<bool>,
    internal: Ghost<nat>,
    _phantom: PhantomData<D>,
}

impl<D> NodeParentingWorkArea<D> {
    /// The node kept at position `i` was already expanded.
    pub closed spec fn expanded(&self, i: usize) -> bool {
        self.visited@[i as int]
    }
}

impl<NM: NodeManager, CM: ContactManager, D: Distance<NM, CM>> DijkstraWorkspace<NM, CM> for NodeParentingWorkArea<D> {
    closed spec fn tree(&self) -> Seq<Option<PathFragment>> {
        self.paths@
    }

    closed spec fn inv(&self) -> bool {
        &&& self.paths@.len() == self.visited@.len()
        &&& self.internal@ <= self.paths@.len()
        &&& forall|i: int|
            0 <= i < self.internal@ ==> (#[trigger] self.paths@[i] matches Some(f) ==> f.rx_node
                == RealNodeRef::I(INodeRef { index: i as usize }))
        &&& parents_linked(self.paths@)
        &&& forall|i: int| 0 <= i < self.visited@.len() && #[trigger] self.visited@[i] ==> self.paths@[i] is Some
    }

    closed spec fn fits(&self, graph: Multigraph<NM, CM>) -> bool {
        &&& self.internal@ == graph.ni()
        &&& self.paths@.len() == graph.ni() + graph.nv()
    }

    closed spec fn valid_ref(&self, i: usize) -> bool {
        i < self.paths@.len()
    }

    closed spec fn parent_present(&self, i: usize) -> bool {
        &&& i < self.internal@
        &&& self.paths@[i as int] is Some
    }

    closed spec fn budget(&self) -> nat {
        count_of(self.visited@, false)
    }

    closed spec fn fresh(&self) -> bool {
        &&& forall|i: int| 0 <= i < self.paths@.len() ==> #[trigger] self.paths@[i] is None
        &&& forall|i: int| 0 <= i < self.visited@.len() ==> !#[trigger] self.visited@[i]
    }

    closed spec fn no_hop_towards(&self, node: INodeRef, graph: Multigraph<NM, CM>) -> bool {
        node.index < self.paths@.len() && self.paths@[node.index as int] is None
    }

    closed spec fn pops_fresh(&self, frag: PathFragment, node: RoutableNodeRef, viaref: usize) -> bool {
        &&& node matches RoutableNodeRef::I(x) && viaref == x.index
        &&& viaref < self.visited@.len()
        &&& !self.visited@[viaref as int]
    }

    closed spec fn open_for(&self, node: RoutableNodeRef, graph: Multigraph<NM, CM>) -> bool {
        let i = graph.spec_routable_index(node);
        !(0 <= i < self.visited@.len() && self.visited@[i])
    }

    closed spec fn reached(&self, node: RoutableNodeRef, graph: Multigraph<NM, CM>) -> bool {
        let i = graph.spec_routable_index(node);
        0 <= i < self.paths@.len() && self.paths@[i] is Some
    }

    open spec fn settles() -> bool {
        true
    }

    closed spec fn expanded_node(&self, node: RoutableNodeRef, graph: Multigraph<NM, CM>) -> bool {
        let i = graph.spec_routable_index(node);
        0 <= i < self.visited@.len() && self.visited@[i]
    }

    closed spec fn keeps(
        &self,
        proposition: PathFragment,
        node: RoutableNodeRef,
        graph: Multigraph<NM, CM>,
        bundle: Bundle,
    ) -> bool {
        match self.paths@[graph.spec_routable_index(node)] {
            None => true,
            Some(f) => D::shorter(proposition, f, graph, bundle),
        }
    }

    fn new(graph: &Multigraph<NM, CM>) -> (r: Self) {
        let n = graph.get_routable_count();
        let mut paths: Vec<Option<PathFragment>> = Vec::new();
        let mut visited: Vec<bool> = Vec::new();
        let mut i: usize = 0;
        while i < n
            invariant
                i <= n,
                paths@.len() == i,
                visited@.len() == i,
                forall|j: int| 0 <= j < i ==> #[trigger] paths@[j] is None,
                forall|j: int| 0 <= j < i ==> !#[trigger] visited@[j],
            decreases n - i,
        {
            paths.push(None);
            visited.push(false);
            i = i + 1;
        }
        NodeParentingWorkArea { paths, visited, internal: Ghost(graph.ni() as nat), _phantom: PhantomData }
    }

    fn into_pathfinding_output(self) -> (r: PathFindingOutput)
        ensures
            r.path_tree@ == self.tree(),
    {
        let r = PathFindingOutput { path_tree: self.paths };
        assert forall|i: int| 0 <= i < r.path_tree@.len() implies (#[trigger] r.path_tree@[i] matches Some(f) ==> exists|j: int|
            0 <= j < self.tree().len() && (#[trigger] self.tree()[j] matches Some(g) && same_but_parent(f, g))) by {
            if let Some(f) = r.path_tree@[i] {
                assert(self.tree()[i] matches Some(g) && same_but_parent(f, g));
            }
        }
        r
    }

    fn try_insert(
        &mut self,
        proposition: PathFragment,
        node: RoutableNodeRef,
        graph: &Multigraph<NM, CM>,
        bundle: &Bundle,
    ) -> (r: Option<usize>)
        ensures
            ({
                let idx = graph.spec_routable_index(node);
                let kept = match old(self).tree()[idx] {
                    None => true,
                    Some(f) => D::shorter(proposition, f, *graph, *bundle),
                };
                &&& kept ==> r == Some(idx as usize) && final(self).tree() == old(self).tree().update(
                    idx,
                    Some(proposition),
                )
                &&& !kept ==> r is None && final(self).tree() == old(self).tree()
            }),
    {
        let idx = graph.routable_to_usize(node);
        let ghost w0 = *self;
        let better = match &self.paths[idx] {
            None => true,
            Some(old) => shorter_than::<NM, CM, D>(&proposition, old, graph, bundle),
        };
        if better {
            self.paths.set(idx, Some(proposition));
            proof {
                assert(self.visited@ == w0.visited@);
                if w0.fresh() {
                    assert(!w0.visited@[idx as int]);
                }
            }
            Some(idx)
        } else {
            None
        }
    }

    fn node_check(&mut self, node: RoutableNodeRef, graph: &Multigraph<NM, CM>) -> (r: bool)
        ensures
            r == !old(self).expanded(graph.spec_routable_index(node) as usize),
    {
        !self.visited[graph.routable_to_usize(node)]
    }

    fn poped_relevant_new(
        &mut self,
        frag: PathFragment,
        node: RoutableNodeRef,
        viaref: usize,
    ) -> (r: (bool, bool, Option<INodeRef>))
        ensures
            r.0 == r.1,
            r.0 == !old(self).expanded(viaref),
            final(self).expanded(viaref),
            !r.0 ==> *final(self) == *old(self),
            r.0 ==> r.2 == match frag.via {
                None => None::<INodeRef>,
                Some(v) => Some(INodeRef { index: v.parent_frag }),
            },
    {
        if self.visited[viaref] {
            (false, false, None)
        } else {
            proof {
                lemma_count_update(self.visited@, viaref as int, true);
            }
            let ghost v0 = self.visited@;
            self.visited.set(viaref, true);
            proof {
                assert forall|n: RoutableNodeRef, g: Multigraph<NM, CM>|
                    g.valid_routable(n) && g.valid_routable(node) && n != node && old(self).pops_fresh(frag, node, viaref)
                        implies #[trigger] self.open_for(n, g) == old(self).open_for(n, g) by {
                    let i = g.spec_routable_index(n);
                    assert(i != viaref as int);
                    if 0 <= i < v0.len() {
                        assert(self.visited@[i] == v0[i]);
                    }
                }
            }
            proof {
                assert forall|g: Multigraph<NM, CM>|
                    #[trigger] old(self).fits(g) && g.valid_routable(node) && viaref == g.spec_routable_index(node) implies
                    forall|n: RoutableNodeRef| g.valid_routable(n) && n != node ==> #[trigger] self.expanded_node(n, g)
                        == old(self).expanded_node(n, g) by {
                    assert forall|n: RoutableNodeRef| g.valid_routable(n) && n != node implies #[trigger] self.expanded_node(n, g)
                        == old(self).expanded_node(n, g) by {
                        assert(g.spec_routable_index(n) != viaref as int);
                    }
                }
            }
            let previous = match frag.via {
                None => None,
                Some(v) => match self.paths[v.parent_frag] {
                    Some(p) => match p.rx_node {
                        RealNodeRef::I(i) => Some(i),
                        RealNodeRef::E(_) => None,
                    },
                    None => None,
                },
            };
            (true, true, previous)
        }
    }
}

} // verus!
