//! Dijkstra's search over a multigraph, generic in the bookkeeping of the paths it finds.

use core::marker::PhantomData;

use vstd::prelude::*;

use crate::contact_manager::ContactManager;
use crate::distance::prio_queue::PrioQueue;
use crate::distance::Distance;
use crate::multigraph::{real_index, INodeRef, Multigraph, RealNodeRef, RoutableNodeRef, VNodeRef};
use crate::node_manager::NodeManager;
use crate::pathfinding::{
    all_to, candidates_ok, count_of, fragment_sound, lemma_count_bound, lemma_count_update, made_hop, lemma_made_hop_usable, parents_linked,
    try_make_hop, PathFindingOutput,
};
use crate::paths::PathFragment;
use crate::errors::ASABRError;
use crate::types::{Bundle, Date, NodeID, TimeInterval};

verus! {

/// Decides when a search has reached its destination.
pub trait Destination {
    /// A new search begins: no node is reached yet.
    fn reinit(&mut self);

    /// `node` was just reached for the first time; whether the search can stop.
    fn now_reached(&mut self, node: RoutableNodeRef) -> (r: bool)
        ensures
            forall|v: VNodeRef| #[trigger] final(self).spec_is_useful(v) == old(self).spec_is_useful(v),
            forall|n: RoutableNodeRef| #[trigger] final(self).spec_never_stops_at(n) == old(self).spec_never_stops_at(n),
            old(self).spec_never_stops_at(node) ==> !r,
    ;

    /// Reaching `node` never ends the search.
    spec fn spec_never_stops_at(&self, node: RoutableNodeRef) -> bool;

    /// Whether paths to the virtual node `node` are worth considering.
    spec fn spec_is_useful(&self, node: VNodeRef) -> bool;

    /// Whether paths to this virtual node are worth considering.
    fn is_useful(&self, node: VNodeRef) -> (r: bool)
        ensures
            r == self.spec_is_useful(node),
    ;
}

/// The bookkeeping of a Dijkstra search: which paths are kept, and where.
pub trait DijkstraWorkspace<NM: NodeManager, CM: ContactManager>: Sized {
    /// The path tree built so far.
    spec fn tree(&self) -> Seq<Option<PathFragment>>;

    /// The workspace's own invariant.
    spec fn inv(&self) -> bool;

    /// The workspace was made for this graph.
    spec fn fits(&self, graph: Multigraph<NM, CM>) -> bool;

    /// Position `i` is a reference the workspace handed out.
    spec fn valid_ref(&self, i: usize) -> bool;

    /// Position `i` holds a path to an internal node, which new paths may extend.
    spec fn parent_present(&self, i: usize) -> bool;

    /// How many more popped paths may still be relevant.
    spec fn budget(&self) -> nat;

    /// No path was offered yet: the start of a search may be offered.
    spec fn fresh(&self) -> bool;

    /// Whether new paths to `node` are still worth considering.
    spec fn open_for(&self, node: RoutableNodeRef, graph: Multigraph<NM, CM>) -> bool;

    /// Whether the workspace holds a path to `node`.
    spec fn reached(&self, node: RoutableNodeRef, graph: Multigraph<NM, CM>) -> bool;

    /// The workspace keeps no path over a contact towards the internal node `node`.
    spec fn no_hop_towards(&self, node: INodeRef, graph: Multigraph<NM, CM>) -> bool;

    /// The path `frag`, kept under `viaref` for `node`, would be popped as relevant and new.
    spec fn pops_fresh(&self, frag: PathFragment, node: RoutableNodeRef, viaref: usize) -> bool;

    /// The workspace settles nodes: it keeps a path for each node it was offered one for, it
    /// keeps a path under the position of its node, and a node is expanded at most once.
    spec fn settles() -> bool;

    /// A path to `node` was popped and expanded.
    spec fn expanded_node(&self, node: RoutableNodeRef, graph: Multigraph<NM, CM>) -> bool;

    /// Whether the workspace keeps the path `proposition` to `node` when it is offered.
    spec fn keeps(&self, proposition: PathFragment, node: RoutableNodeRef, graph: Multigraph<NM, CM>, bundle: Bundle) -> bool;

    /// A workspace for a new search in `graph`, with no path.
    fn new(graph: &Multigraph<NM, CM>) -> (r: Self)
        requires
            graph.wf(),
            graph.ni() + graph.ne() + graph.nv() <= usize::MAX,
        ensures
            r.inv(),
            r.fits(*graph),
            r.fresh(),
            forall|i: int| 0 <= i < r.tree().len() ==> #[trigger] r.tree()[i] is None,
            forall|n: RoutableNodeRef| graph.valid_routable(n) ==> !#[trigger] r.reached(n, *graph),
            forall|n: INodeRef| n.index < graph.ni() ==> #[trigger] r.no_hop_towards(n, *graph),
            forall|n: RoutableNodeRef| graph.valid_routable(n) ==> #[trigger] r.open_for(n, *graph),
            Self::settles() ==> forall|n: RoutableNodeRef| #[trigger] r.expanded_node(n, *graph) ==> !graph.valid_routable(n),
    ;

    /// The path tree, as a pathfinding output, with a position for each routable node of the
    /// graph: every path it holds is one of the kept paths, but for the position of its parent.
    fn into_pathfinding_output(self) -> (r: PathFindingOutput)
        requires
            self.inv(),
        ensures
            parents_linked(r.path_tree@),
            forall|g: Multigraph<NM, CM>, i: int|
                #![trigger self.fits(g), r.path_tree@[i]]
                self.fits(g) && 0 <= i < g.ni() ==> (r.path_tree@[i] matches Some(f) ==> f.rx_node
                    == RealNodeRef::I(INodeRef { index: i as usize })),
            forall|g: Multigraph<NM, CM>| #[trigger] self.fits(g) ==> r.path_tree@.len() >= g.ni() + g.nv(),
            forall|g: Multigraph<NM, CM>, n: RoutableNodeRef|
                self.fits(g) && g.valid_routable(n) ==> (#[trigger] self.reached(n, g) <==> r.path_tree@[g.spec_routable_index(
                    n,
                )] is Some),
            forall|i: int|
                0 <= i < r.path_tree@.len() ==> (#[trigger] r.path_tree@[i] matches Some(f) ==> exists|j: int|
                    0 <= j < self.tree().len() && (#[trigger] self.tree()[j] matches Some(g) && same_but_parent(f, g))),
    ;

    /// Offers a path to `node`; returns the reference under which it is kept, if it is kept.
    fn try_insert(
        &mut self,
        proposition: PathFragment,
        node: RoutableNodeRef,
        graph: &Multigraph<NM, CM>,
        bundle: &Bundle,
    ) -> (r: Option<usize>)
        requires
            old(self).inv(),
            old(self).fits(*graph),
            graph.valid_routable(node),
            graph.ni() + graph.ne() + graph.nv() <= usize::MAX,
            node matches RoutableNodeRef::I(n) ==> proposition.rx_node == RealNodeRef::I(n),
            proposition.via matches Some(v) ==> old(self).parent_present(v.parent_frag),
            proposition.via matches Some(v) ==> v.contact.index < graph.nc(),
            proposition.via matches Some(v) ==> graph.valid_real(proposition.rx_node)
                && graph.contact_ends@[v.contact.index as int].1 == real_index(proposition.rx_node, graph.ni()),
            proposition.via is None ==> old(self).fresh(),
        ensures
            final(self).inv(),
            final(self).fits(*graph),
            final(self).budget() <= old(self).budget(),
            final(self).tree().len() >= old(self).tree().len(),
            forall|i: int|
                0 <= i < final(self).tree().len() ==> #[trigger] final(self).tree()[i] == Some(proposition) || (i
                    < old(self).tree().len() && final(self).tree()[i] == old(self).tree()[i]),
            forall|i: usize| old(self).parent_present(i) ==> #[trigger] final(self).parent_present(i),
            forall|i: usize| old(self).valid_ref(i) ==> #[trigger] final(self).valid_ref(i),
            r matches Some(i) ==> final(self).valid_ref(i),
            r matches Some(i) ==> (node is I ==> final(self).parent_present(i)),
            r is Some <==> old(self).keeps(proposition, node, *graph, *bundle),
            proposition.via is None && old(self).fresh() ==> r is Some,
            forall|n: RoutableNodeRef| #[trigger] final(self).open_for(n, *graph) == old(self).open_for(n, *graph),
            r is Some ==> final(self).reached(node, *graph),
            forall|n: RoutableNodeRef|
                graph.valid_routable(n) && n != node ==> #[trigger] final(self).reached(n, *graph) == old(self).reached(
                    n,
                    *graph,
                ),
            forall|n: RoutableNodeRef, g: Multigraph<NM, CM>|
                #[trigger] old(self).reached(n, g) ==> final(self).reached(n, g),
            node matches RoutableNodeRef::I(x) ==> (old(self).no_hop_towards(x, *graph) ==> r is Some),
            node is I ==> forall|n: INodeRef|
                n.index < graph.ni() && RoutableNodeRef::I(n) != node && old(self).no_hop_towards(n, *graph)
                    ==> #[trigger] final(self).no_hop_towards(n, *graph),
            proposition.via is None && old(self).fresh() && node is I ==> (r matches Some(i) && final(self).pops_fresh(
                proposition,
                node,
                i,
            )),
            Self::settles() ==> (r matches Some(i) ==> i == graph.spec_routable_index(node) && i < final(self).tree().len()
                && final(self).tree()[i as int] is Some),
            Self::settles() ==> (r is None ==> old(self).reached(node, *graph)),
            Self::settles() ==> forall|n: RoutableNodeRef| #[trigger] final(self).expanded_node(n, *graph) == old(self).expanded_node(n, *graph),
    ;

    /// Whether new paths to `node` are still worth considering.
    fn node_check(&mut self, node: RoutableNodeRef, graph: &Multigraph<NM, CM>) -> (r: bool)
        requires
            old(self).inv(),
            old(self).fits(*graph),
            graph.valid_routable(node),
            graph.ni() + graph.ne() + graph.nv() <= usize::MAX,
        ensures
            r == old(self).open_for(node, *graph),
            forall|n: RoutableNodeRef| #[trigger] final(self).open_for(n, *graph) == old(self).open_for(n, *graph),
            forall|n: RoutableNodeRef, g: Multigraph<NM, CM>|
                #[trigger] old(self).reached(n, g) ==> final(self).reached(n, g),
            forall|n: RoutableNodeRef| #[trigger] final(self).reached(n, *graph) == old(self).reached(n, *graph),
            forall|n: INodeRef| #[trigger] final(self).no_hop_towards(n, *graph) == old(self).no_hop_towards(n, *graph),
            final(self).inv(),
            final(self).fits(*graph),
            final(self).budget() == old(self).budget(),
            final(self).tree() == old(self).tree(),
            forall|i: usize| old(self).parent_present(i) ==> #[trigger] final(self).parent_present(i),
            forall|i: usize| old(self).valid_ref(i) ==> #[trigger] final(self).valid_ref(i),
            Self::settles() ==> (!r ==> old(self).reached(node, *graph)),
            Self::settles() ==> forall|n: RoutableNodeRef| #[trigger] final(self).expanded_node(n, *graph) == old(self).expanded_node(n, *graph),
    ;

    /// A path was popped from the queue: whether it is still relevant, whether it reaches its
    /// node for the first time, and the node before it on the path, if any.
    fn poped_relevant_new(
        &mut self,
        frag: PathFragment,
        node: RoutableNodeRef,
        viaref: usize,
    ) -> (r: (bool, bool, Option<INodeRef>))
        requires
            old(self).inv(),
            old(self).valid_ref(viaref),
            frag.via matches Some(v) ==> old(self).parent_present(v.parent_frag),
            Self::settles() ==> old(self).tree()[viaref as int] is Some,
        ensures
            final(self).inv(),
            forall|g: Multigraph<NM, CM>| old(self).fits(g) ==> #[trigger] final(self).fits(g),
            r.0 ==> final(self).budget() < old(self).budget(),
            final(self).budget() <= old(self).budget(),
            final(self).tree() == old(self).tree(),
            forall|i: usize| old(self).parent_present(i) ==> #[trigger] final(self).parent_present(i),
            forall|i: usize| old(self).valid_ref(i) ==> #[trigger] final(self).valid_ref(i),
            forall|n: RoutableNodeRef, g: Multigraph<NM, CM>|
                #[trigger] old(self).reached(n, g) ==> final(self).reached(n, g),
            forall|n: RoutableNodeRef, g: Multigraph<NM, CM>| #[trigger] final(self).reached(n, g) == old(self).reached(n, g),
            forall|n: INodeRef, g: Multigraph<NM, CM>| #[trigger] final(self).no_hop_towards(n, g) == old(self).no_hop_towards(
                n,
                g,
            ),
            frag.via is None ==> r.2 is None,
            old(self).pops_fresh(frag, node, viaref) ==> r.0 && r.1,
            old(self).pops_fresh(frag, node, viaref) ==> forall|n: RoutableNodeRef, g: Multigraph<NM, CM>|
                g.valid_routable(n) && g.valid_routable(node) && n != node ==> #[trigger] final(self).open_for(n, g)
                    == old(self).open_for(n, g),
            Self::settles() ==> forall|g: Multigraph<NM, CM>|
                #[trigger] old(self).fits(g) && g.valid_routable(node) && viaref == g.spec_routable_index(node) ==> {
                    &&& r.0 == r.1
                    &&& r.1 == !old(self).expanded_node(node, g)
                    &&& final(self).expanded_node(node, g)
                    &&& forall|n: RoutableNodeRef| g.valid_routable(n) && n != node ==> #[trigger] final(self).expanded_node(n, g) == old(self).expanded_node(n, g)
                },
            Self::settles() && r.0 ==> r.2 == match frag.via {
                None => None::<INodeRef>,
                Some(v) => Some(INodeRef { index: v.parent_frag }),
            },
    ;
}

/// The fragments `f` and `g` are the same but for the position of their parent.
pub open spec fn same_but_parent(f: PathFragment, g: PathFragment) -> bool {
    &&& f.hop_count == g.hop_count
    &&& f.recv == g.recv
    &&& f.rx_node == g.rx_node
    &&& f.expiration == g.expiration
    &&& match (f.via, g.via) {
        (None, None) => true,
        (Some(a), Some(b)) => a.contact == b.contact && a.send == b.send,
        _ => false,
    }
}

/// Soundness does not depend on the position of the parent.
pub proof fn lemma_same_but_parent_sound<NM: NodeManager, CM: ContactManager>(
    graph: Multigraph<NM, CM>,
    bundle: Bundle,
    time: Date,
    source: usize,
    f: PathFragment,
    g: PathFragment,
)
    requires
        same_but_parent(f, g),
        fragment_sound(graph, bundle, time, source, g),
    ensures
        fragment_sound(graph, bundle, time, source, f),
{
    if f.via is None {
        assert(f == g);
    }
}

/// A queued path: its end, the reference under which the workspace keeps it, and the virtual
/// node it reaches, if it reaches one.
pub type QueueItem = (PathFragment, (usize, Option<VNodeRef>));

/// The node a queued path reaches.
pub open spec fn item_node(x: QueueItem) -> RoutableNodeRef {
    match x.1.1 {
        Some(v) => RoutableNodeRef::V(v),
        None => match x.0.rx_node {
            RealNodeRef::I(i) => RoutableNodeRef::I(i),
            RealNodeRef::E(e) => RoutableNodeRef::I(INodeRef { index: e.index }),
        },
    }
}

/// A queued path is sound, refers to a kept position, extends a present path, and reaches an
/// internal node of the graph unless it reaches a virtual node of the graph.
pub open spec fn item_ok<NM: NodeManager, CM: ContactManager, W: DijkstraWorkspace<NM, CM>>(
    graph: Multigraph<NM, CM>,
    bundle: Bundle,
    time: Date,
    source: usize,
    work: W,
    x: QueueItem,
) -> bool {
    &&& fragment_sound(graph, bundle, time, source, x.0)
    &&& work.valid_ref(x.1.0)
    &&& x.0.via matches Some(v) ==> work.parent_present(v.parent_frag)
    &&& match x.1.1 {
        None => {
            &&& x.0.rx_node is I
            &&& x.0.rx_node->I_0.index < graph.ni()
            &&& work.parent_present(x.1.0)
        },
        Some(v) => v.index < graph.nv(),
    }
    &&& W::settles() ==> {
        &&& x.1.0 < work.tree().len()
        &&& work.tree()[x.1.0 as int] is Some
        &&& x.1.0 == graph.spec_routable_index(item_node(x))
    }
}

/// The state of a search: the workspace fits the graph, every kept path is sound, and every
/// queued path is in order.
pub open spec fn search_ok<NM: NodeManager, CM: ContactManager, W: DijkstraWorkspace<NM, CM>, D: Distance<NM, CM>>(
    graph: Multigraph<NM, CM>,
    bundle: Bundle,
    time: Date,
    source: usize,
    work: W,
    queue: PrioQueue<D, NM, CM, (usize, Option<VNodeRef>)>,
) -> bool {
    &&& work.inv()
    &&& work.fits(graph)
    &&& forall|i: int|
        0 <= i < work.tree().len() ==> (#[trigger] work.tree()[i] matches Some(f) ==> fragment_sound(
            graph,
            bundle,
            time,
            source,
            f,
        ))
    &&& queue.heap_ok(graph, bundle)
    &&& forall|x: QueueItem| #[trigger] queue@.count(x) > 0 ==> item_ok(graph, bundle, time, source, work, x)
}


/// What a workspace keeps and hands out only grows.
pub open spec fn grows<NM: NodeManager, CM: ContactManager, W: DijkstraWorkspace<NM, CM>>(w0: W, w1: W) -> bool {
    &&& forall|i: usize| w0.parent_present(i) ==> #[trigger] w1.parent_present(i)
    &&& forall|i: usize| w0.valid_ref(i) ==> #[trigger] w1.valid_ref(i)
    &&& W::settles() ==> w0.tree().len() <= w1.tree().len()
    &&& W::settles() ==> forall|i: int|
        #![trigger w0.tree()[i]]
        0 <= i < w0.tree().len() && w0.tree()[i] is Some ==> w1.tree()[i] is Some
}

proof fn lemma_items_grow<NM: NodeManager, CM: ContactManager, W: DijkstraWorkspace<NM, CM>, D: Distance<NM, CM>>(
    graph: Multigraph<NM, CM>,
    bundle: Bundle,
    time: Date,
    source: usize,
    w0: W,
    w1: W,
    queue: PrioQueue<D, NM, CM, (usize, Option<VNodeRef>)>,
)
    requires
        forall|x: QueueItem| #[trigger] queue@.count(x) > 0 ==> item_ok(graph, bundle, time, source, w0, x),
        grows(w0, w1),
    ensures
        forall|x: QueueItem| #[trigger] queue@.count(x) > 0 ==> item_ok(graph, bundle, time, source, w1, x),
{
    assert forall|x: QueueItem| #[trigger] queue@.count(x) > 0 implies item_ok(graph, bundle, time, source, w1, x) by {
        assert(item_ok(graph, bundle, time, source, w0, x));
        assert(w0.valid_ref(x.1.0));
        if let Some(v) = x.0.via {
            assert(w0.parent_present(v.parent_frag));
        }
        if x.1.1 is None {
            assert(w0.parent_present(x.1.0));
        }
    }
}

/// Offers a sound path to `node`, and queues it if the workspace keeps it.
fn offer<NM: NodeManager, CM: ContactManager, W: DijkstraWorkspace<NM, CM>, D: Distance<NM, CM>>(
    graph: &Multigraph<NM, CM>,
    bundle: &Bundle,
    time: Date,
    source: usize,
    work: &mut W,
    queue: &mut PrioQueue<D, NM, CM, (usize, Option<VNodeRef>)>,
    p: PathFragment,
    node: RoutableNodeRef,
    vnode: Option<VNodeRef>,
)
    requires
        graph.wf(),
        graph.ni() + graph.ne() + graph.nv() <= usize::MAX,
        search_ok(*graph, *bundle, time, source, *old(work), *old(queue)),
        graph.valid_routable(node),
        fragment_sound(*graph, *bundle, time, source, p),
        p.via is Some,
        p.via matches Some(v) ==> old(work).parent_present(v.parent_frag),
        match node {
            RoutableNodeRef::I(n) => p.rx_node == RealNodeRef::I(n) && vnode is None,
            RoutableNodeRef::V(v) => vnode == Some(v),
        },
    ensures
        search_ok(*graph, *bundle, time, source, *final(work), *final(queue)),
        grows(*old(work), *final(work)),
        final(work).budget() <= old(work).budget(),
        old(work).keeps(p, node, *graph, *bundle) ==> exists|i: usize|
            final(queue)@ == old(queue)@.insert((p, (i, vnode))),
        !old(work).keeps(p, node, *graph, *bundle) ==> final(queue)@ == old(queue)@,
        forall|n: RoutableNodeRef| #[trigger] final(work).open_for(n, *graph) == old(work).open_for(n, *graph),
        forall|n: RoutableNodeRef, g: Multigraph<NM, CM>| #[trigger] old(work).reached(n, g) ==> final(work).reached(n, g),
        forall|n: RoutableNodeRef|
            graph.valid_routable(n) && n != node ==> #[trigger] final(work).reached(n, *graph) == old(work).reached(n, *graph),
        node matches RoutableNodeRef::I(x) ==> (old(work).no_hop_towards(x, *graph) ==> final(work).reached(node, *graph)),
        node is I ==> forall|n: INodeRef|
            n.index < graph.ni() && RoutableNodeRef::I(n) != node && old(work).no_hop_towards(n, *graph)
                ==> #[trigger] final(work).no_hop_towards(n, *graph),
        W::settles() ==> final(work).reached(node, *graph),
        W::settles() ==> (!old(work).keeps(p, node, *graph, *bundle) ==> old(work).reached(node, *graph)),
        W::settles() ==> forall|n: RoutableNodeRef| #[trigger] final(work).expanded_node(n, *graph) == old(work).expanded_node(
            n,
            *graph,
        ),
{
    let ghost w0 = *work;
    let r = work.try_insert(p, node, graph, bundle);
    proof {
        let w1 = *work;
        assert forall|i: int| 0 <= i < w1.tree().len() implies (#[trigger] w1.tree()[i] matches Some(f)
            ==> fragment_sound(*graph, *bundle, time, source, f)) by {
            if w1.tree()[i] != Some(p) {
                assert(w1.tree()[i] == w0.tree()[i]);
                assert(w0.tree()[i] matches Some(f) ==> fragment_sound(*graph, *bundle, time, source, f));
            }
        }
        lemma_items_grow::<NM, CM, W, D>(*graph, *bundle, time, source, w0, w1, *queue);
    }
    match r {
        None => {},
        Some(i) => {
            let ghost q0 = *queue;
            let item: QueueItem = (p, (i, vnode));
            proof {
                assert(item_ok(*graph, *bundle, time, source, *work, item));
            }
            queue.insert(item, graph, bundle);
            proof {
                assert forall|x: QueueItem| #[trigger] queue@.count(x) > 0 implies item_ok(
                    *graph,
                    *bundle,
                    time,
                    source,
                    *work,
                    x,
                ) by {
                    if x != item {
                        assert(q0@.count(x) > 0);
                    }
                }
            }
        },
    }
}


/// Marks `i` reached, counting it if it was not yet.
fn mark_reachable(flags: &mut Vec<bool>, i: usize, reachable: &mut usize, others: Ghost<nat>, bound: Ghost<nat>)
    requires
        i < old(flags)@.len(),
        *old(reachable) == count_of(old(flags)@, true) + others@,
        old(flags)@.len() + others@ <= bound@,
        bound@ <= usize::MAX,
    ensures
        final(flags)@ == old(flags)@.update(i as int, true),
        *final(reachable) == count_of(final(flags)@, true) + others@,
        *final(reachable) >= *old(reachable),
        !old(flags)@[i as int] ==> *final(reachable) == *old(reachable) + 1,
{
    if !flags[i] {
        proof {
            lemma_count_update(flags@, i as int, true);
            lemma_count_bound(flags@.update(i as int, true), true);
        }
        *reachable = *reachable + 1;
        flags.set(i, true);
    }
}

/// The candidate contacts towards the internal neighbour `nb`: each of `contacts`, towards it.
pub open spec fn real_cands(nb: INodeRef, contacts: Seq<usize>) -> Seq<(RealNodeRef, usize)> {
    Seq::new(contacts.len(), |x: int| (RealNodeRef::I(nb), contacts[x]))
}

/// The `k`-th internal neighbour of `node` is reached by a hop extending `path` (kept under
/// `viaref`): it is not excluded, the workspace still considers it, and one of the contacts
/// towards it carries the bundle.
pub open spec fn real_reached<NM: NodeManager, CM: ContactManager, W: DijkstraWorkspace<NM, CM>>(
    graph: Multigraph<NM, CM>,
    bundle: Bundle,
    work: W,
    path: PathFragment,
    viaref: usize,
    node: int,
    previous: Option<usize>,
    k: int,
) -> bool {
    let nbr = graph.neighbours@[node].reals@[k];
    &&& !graph.internal_nodes@[nbr.node.index as int].info.excluded
    &&& work.open_for(RoutableNodeRef::I(nbr.node), graph)
    &&& made_hop(graph, bundle, path, viaref, node, real_cands(nbr.node, nbr.contacts@), previous, NodeID(nbr.node.index))
        is Some
}

/// One more hop extending `p` (kept under `viaref`) at the internal node `u`, which was entered
/// from `previous`, reaches its `k`-th internal neighbour, and that neighbour is not excluded.
pub open spec fn hop_from<NM: NodeManager, CM: ContactManager>(
    graph: Multigraph<NM, CM>,
    bundle: Bundle,
    p: PathFragment,
    viaref: usize,
    u: int,
    previous: Option<usize>,
    k: int,
) -> bool {
    let nbr = graph.neighbours@[u].reals@[k];
    &&& !graph.internal_nodes@[nbr.node.index as int].info.excluded
    &&& made_hop(graph, bundle, p, viaref, u, real_cands(nbr.node, nbr.contacts@), previous, NodeID(nbr.node.index)) is Some
}

/// Offers a path to every internal neighbour of `node`, reached from the path `path` kept under
/// `viaref`; every neighbour that such a path reaches is marked reachable.
fn expand_reals<NM: NodeManager, CM: ContactManager, W: DijkstraWorkspace<NM, CM>, D: Distance<NM, CM>>(
    graph: &Multigraph<NM, CM>,
    bundle: &Bundle,
    time: Date,
    source: usize,
    work: &mut W,
    queue: &mut PrioQueue<D, NM, CM, (usize, Option<VNodeRef>)>,
    reachables: &mut Vec<bool>,
    reachable: &mut usize,
    others: Ghost<nat>,
    path: &PathFragment,
    viaref: usize,
    node: usize,
    previous: Option<usize>,
)
    requires
        graph.wf(),
        bundle.wf(),
        graph.ni() + graph.ne() + graph.nv() <= usize::MAX,
        node < graph.ni(),
        search_ok(*graph, *bundle, time, source, *old(work), *old(queue)),
        old(work).parent_present(viaref),
        old(reachables)@.len() == graph.ni(),
        others@ <= graph.nv(),
        *old(reachable) == count_of(old(reachables)@, true) + others@,
    ensures
        search_ok(*graph, *bundle, time, source, *final(work), *final(queue)),
        grows(*old(work), *final(work)),
        final(work).budget() <= old(work).budget(),
        final(reachables)@.len() == graph.ni(),
        *final(reachable) == count_of(final(reachables)@, true) + others@,
        forall|i: int| 0 <= i < graph.ni() && old(reachables)@[i] ==> #[trigger] final(reachables)@[i],
        forall|k: int|
            0 <= k < graph.neighbours@[node as int].reals@.len() && #[trigger] real_reached(
                *graph,
                *bundle,
                *old(work),
                *path,
                viaref,
                node as int,
                previous,
                k,
            ) ==> final(reachables)@[graph.neighbours@[node as int].reals@[k].node.index as int],
        forall|k: int|
            0 <= k < graph.neighbours@[node as int].reals@.len() && #[trigger] real_reached(
                *graph,
                *bundle,
                *old(work),
                *path,
                viaref,
                node as int,
                previous,
                k,
            ) && old(work).no_hop_towards(graph.neighbours@[node as int].reals@[k].node, *graph) ==> final(work).reached(
                RoutableNodeRef::I(graph.neighbours@[node as int].reals@[k].node),
                *graph,
            ),
        forall|n: RoutableNodeRef| #[trigger] final(work).open_for(n, *graph) == old(work).open_for(n, *graph),
        forall|n: RoutableNodeRef, g: Multigraph<NM, CM>| #[trigger] old(work).reached(n, g) ==> final(work).reached(n, g),
        forall|v: VNodeRef|
            v.index < graph.nv() ==> #[trigger] final(work).reached(RoutableNodeRef::V(v), *graph) == old(work).reached(
                RoutableNodeRef::V(v),
                *graph,
            ),
        forall|x: QueueItem| #[trigger] old(queue)@.count(x) > 0 ==> final(queue)@.count(x) > 0,
        forall|y: QueueItem|
            #[trigger] final(queue)@.count(y) > 0 ==> old(queue)@.count(y) > 0 || (y.1.1 is None
                && final(reachables)@[item_node(y)->I_0.index as int]),
        W::settles() ==> forall|n: RoutableNodeRef| #[trigger] final(work).expanded_node(n, *graph) == old(work).expanded_node(
            n,
            *graph,
        ),
        W::settles() ==> forall|u: INodeRef|
            u.index < graph.ni() && #[trigger] final(work).reached(RoutableNodeRef::I(u), *graph) ==> old(work).reached(
                RoutableNodeRef::I(u),
                *graph,
            ) || exists|y: QueueItem| #![trigger final(queue)@.count(y)] final(queue)@.count(y) > 0 && item_node(y) == RoutableNodeRef::I(u),
        W::settles() ==> forall|k: int|
            0 <= k < graph.neighbours@[node as int].reals@.len() && #[trigger] hop_from(
                *graph,
                *bundle,
                *path,
                viaref,
                node as int,
                previous,
                k,
            ) ==> final(work).reached(RoutableNodeRef::I(graph.neighbours@[node as int].reals@[k].node), *graph),
{
    let reals = &graph.neighbours[node].reals;
    let ghost w_start = *work;
    let ghost q_start = *queue;
    let ghost r_start = reachables@;
    let mut k: usize = 0;
    while k < reals.len()
        invariant
            graph.wf(),
            bundle.wf(),
            graph.ni() + graph.ne() + graph.nv() <= usize::MAX,
            node < graph.ni(),
            reals@ == graph.neighbours@[node as int].reals@,
            k <= reals@.len(),
            search_ok(*graph, *bundle, time, source, *work, *queue),
            grows(w_start, *work),
            work.parent_present(viaref),
            work.budget() <= w_start.budget(),
            reachables@.len() == graph.ni(),
            others@ <= graph.nv(),
            *reachable == count_of(reachables@, true) + others@,
            r_start.len() == graph.ni(),
            forall|i: int| 0 <= i < graph.ni() && r_start[i] ==> #[trigger] reachables@[i],
            forall|j: int|
                0 <= j < k && #[trigger] real_reached(*graph, *bundle, w_start, *path, viaref, node as int, previous, j)
                    ==> reachables@[reals@[j].node.index as int],
            forall|j: int|
                0 <= j < k && #[trigger] real_reached(*graph, *bundle, w_start, *path, viaref, node as int, previous, j)
                    && w_start.no_hop_towards(reals@[j].node, *graph) ==> work.reached(
                    RoutableNodeRef::I(reals@[j].node),
                    *graph,
                ),
            forall|n: INodeRef|
                n.index < graph.ni() && w_start.no_hop_towards(n, *graph) ==> (#[trigger] work.no_hop_towards(n, *graph)
                    || work.reached(RoutableNodeRef::I(n), *graph)),
            forall|n: RoutableNodeRef| #[trigger] work.open_for(n, *graph) == w_start.open_for(n, *graph),
            forall|n: RoutableNodeRef, g: Multigraph<NM, CM>| #[trigger] w_start.reached(n, g) ==> work.reached(n, g),
            forall|v: VNodeRef|
                v.index < graph.nv() ==> #[trigger] work.reached(RoutableNodeRef::V(v), *graph) == w_start.reached(
                    RoutableNodeRef::V(v),
                    *graph,
                ),
            forall|x: QueueItem| #[trigger] q_start@.count(x) > 0 ==> queue@.count(x) > 0,
            forall|y: QueueItem|
                #[trigger] queue@.count(y) > 0 ==> q_start@.count(y) > 0 || (y.1.1 is None
                    && reachables@[item_node(y)->I_0.index as int]),
            W::settles() ==> forall|n: RoutableNodeRef| #[trigger] work.expanded_node(n, *graph) == w_start.expanded_node(
                n,
                *graph,
            ),
            W::settles() ==> forall|u: INodeRef|
                u.index < graph.ni() && #[trigger] work.reached(RoutableNodeRef::I(u), *graph) ==> w_start.reached(
                    RoutableNodeRef::I(u),
                    *graph,
                ) || exists|y: QueueItem| #![trigger queue@.count(y)] queue@.count(y) > 0 && item_node(y) == RoutableNodeRef::I(u),
            W::settles() ==> forall|j: int|
                0 <= j < k && #[trigger] hop_from(*graph, *bundle, *path, viaref, node as int, previous, j)
                    ==> work.reached(RoutableNodeRef::I(reals@[j].node), *graph),
        decreases reals@.len() - k,
    {
        let neighbor = reals[k].node;
        let ghost flags_k = reachables@;
        let ghost work_k = *work;
        assert(neighbor.index < graph.ni());
        if !graph.internal_nodes[neighbor.index].info.excluded {
            let ghost w0 = *work;
            let useful = work.node_check(RoutableNodeRef::I(neighbor), graph);
            proof {
                lemma_items_grow::<NM, CM, W, D>(*graph, *bundle, time, source, w0, *work, *queue);
            }
            if useful {
                let contacts = &reals[k].contacts;
                let mut cands: Vec<(RealNodeRef, usize)> = Vec::new();
                let mut j: usize = 0;
                while j < contacts.len()
                    invariant
                        graph.wf(),
                        node < graph.ni(),
                        k < reals@.len(),
                        reals@ == graph.neighbours@[node as int].reals@,
                        contacts@ == reals@[k as int].contacts@,
                        neighbor == reals@[k as int].node,
                        j <= contacts@.len(),
                        cands@.len() == j,
                        forall|x: int| 0 <= x < j ==> #[trigger] cands@[x] == (RealNodeRef::I(neighbor), contacts@[x]),
                    decreases contacts@.len() - j,
                {
                    cands.push((RealNodeRef::I(neighbor), contacts[j]));
                    j = j + 1;
                }
                proof {
                    assert forall|x: int| 0 <= x < cands@.len() implies {
                        &&& (#[trigger] cands@[x]).1 < graph.nc()
                        &&& graph.valid_real(cands@[x].0)
                        &&& graph.contact_ends@[cands@[x].1 as int].0 == node
                        &&& graph.contact_ends@[cands@[x].1 as int].1 == crate::multigraph::real_index(cands@[x].0, graph.ni())
                    } by {
                        assert(graph.contact_between(contacts@[x] as int, node as int, neighbor.index as int));
                    }
                    assert(all_to(cands@, RealNodeRef::I(neighbor)));
                }
                let hop = try_make_hop(graph, path, viaref, bundle, node, &cands, previous, NodeID(neighbor.index));
                proof {
                    assert(cands@ =~= real_cands(neighbor, contacts@));
                }
                match hop {
                    None => {},
                    Some(p2) => {
                        proof {
                            lemma_made_hop_usable(*graph, *bundle, *path, viaref, node as int, cands@, previous, NodeID(neighbor.index));
                            let j = choose|j: int| 0 <= j < cands@.len() && #[trigger] cands@[j].0 == p2.rx_node;
                            assert(cands@[j].0 == RealNodeRef::I(neighbor));
                        }
                        mark_reachable(reachables, neighbor.index, reachable, others, Ghost((graph.ni() + graph.nv()) as nat));
                        let ghost w1 = *work;
                        let ghost q1 = *queue;
                        offer(graph, bundle, time, source, work, queue, p2, RoutableNodeRef::I(neighbor), None);
                        proof {
                            if W::settles() {
                                assert forall|u: INodeRef|
                                    u.index < graph.ni() && #[trigger] work.reached(RoutableNodeRef::I(u), *graph) implies w_start.reached(
                                        RoutableNodeRef::I(u),
                                        *graph,
                                    ) || exists|y: QueueItem| #![trigger queue@.count(y)] queue@.count(y) > 0 && item_node(y) == RoutableNodeRef::I(u) by {
                                    if !w1.reached(RoutableNodeRef::I(u), *graph) {
                                        assert(u == neighbor);
                                        assert(w1.keeps(p2, RoutableNodeRef::I(neighbor), *graph, *bundle));
                                        let i = choose|i: usize| queue@ == q1@.insert((p2, (i, None::<VNodeRef>)));
                                        assert(queue@.count((p2, (i, None::<VNodeRef>))) > 0);
                                        assert(item_node((p2, (i, None::<VNodeRef>))) == RoutableNodeRef::I(u));
                                    } else if !w_start.reached(RoutableNodeRef::I(u), *graph) {
                                        let y = choose|y: QueueItem| #![trigger q1@.count(y)] q1@.count(y) > 0 && item_node(y) == RoutableNodeRef::I(u);
                                        assert(queue@.count(y) > 0);
                                    }
                                }
                            }
                        }
                    },
                }
            }
        }
        proof {
            assert forall|j: int|
                0 <= j < k + 1 && #[trigger] real_reached(*graph, *bundle, w_start, *path, viaref, node as int, previous, j)
                    implies reachables@[reals@[j].node.index as int] by {
                if j < k {
                    assert(flags_k[reals@[j].node.index as int]);
                }
            }
            assert forall|j: int|
                0 <= j < k + 1 && #[trigger] real_reached(*graph, *bundle, w_start, *path, viaref, node as int, previous, j)
                    && w_start.no_hop_towards(reals@[j].node, *graph) implies work.reached(
                    RoutableNodeRef::I(reals@[j].node),
                    *graph,
                ) by {
                if j < k {
                    assert(work_k.reached(RoutableNodeRef::I(reals@[j].node), *graph));
                } else {
                    assert(reals@[j].node.index < graph.ni());
                    assert(work_k.no_hop_towards(reals@[j].node, *graph) || work_k.reached(
                        RoutableNodeRef::I(reals@[j].node),
                        *graph,
                    ));
                }
            }
        }
        k = k + 1;
    }
}

/// A member of a virtual node, with a contact towards it, may carry paths: it is not excluded.
pub open spec fn member_kept<NM: NodeManager, CM: ContactManager>(graph: Multigraph<NM, CM>) -> spec_fn(
    (RealNodeRef, usize),
) -> bool {
    |x: (RealNodeRef, usize)| !graph.spec_node(x.0).info.excluded
}

/// The `k`-th virtual neighbour of `node` is reached by a hop extending `path` (kept under
/// `viaref`): the destination finds it useful, and one of the contacts towards its members
/// that are not excluded carries the bundle.
pub open spec fn virtual_reached<NM: NodeManager, CM: ContactManager, De: Destination>(
    graph: Multigraph<NM, CM>,
    bundle: Bundle,
    dest: De,
    path: PathFragment,
    viaref: usize,
    node: int,
    previous: Option<usize>,
    k: int,
) -> bool {
    let nbr = graph.neighbours@[node].virtuals@[k];
    &&& dest.spec_is_useful(nbr.vnode)
    &&& made_hop(
        graph,
        bundle,
        path,
        viaref,
        node,
        nbr.contacts@.filter(member_kept(graph)),
        previous,
        NodeID((nbr.vnode.index + graph.ni() + graph.ne()) as usize),
    ) is Some
}

/// Offers a path to every virtual neighbour of `node` that the destination finds useful,
/// through the contacts towards members that are not excluded; every virtual neighbour that
/// such a path reaches is marked reachable.
fn expand_virtuals<NM: NodeManager, CM: ContactManager, W: DijkstraWorkspace<NM, CM>, D: Distance<NM, CM>, De: Destination>(
    graph: &Multigraph<NM, CM>,
    bundle: &Bundle,
    time: Date,
    source: usize,
    work: &mut W,
    queue: &mut PrioQueue<D, NM, CM, (usize, Option<VNodeRef>)>,
    reachables_v: &mut Vec<bool>,
    reachable: &mut usize,
    others: Ghost<nat>,
    dest: &De,
    path: &PathFragment,
    viaref: usize,
    node: usize,
    previous: Option<usize>,
)
    requires
        graph.wf(),
        bundle.wf(),
        graph.ni() + graph.ne() + graph.nv() <= usize::MAX,
        node < graph.ni(),
        search_ok(*graph, *bundle, time, source, *old(work), *old(queue)),
        old(work).parent_present(viaref),
        old(reachables_v)@.len() == graph.nv(),
        others@ <= graph.ni(),
        *old(reachable) == count_of(old(reachables_v)@, true) + others@,
    ensures
        search_ok(*graph, *bundle, time, source, *final(work), *final(queue)),
        grows(*old(work), *final(work)),
        final(work).budget() <= old(work).budget(),
        final(reachables_v)@.len() == graph.nv(),
        *final(reachable) == count_of(final(reachables_v)@, true) + others@,
        forall|i: int| 0 <= i < graph.nv() && old(reachables_v)@[i] ==> #[trigger] final(reachables_v)@[i],
        forall|k: int|
            0 <= k < graph.neighbours@[node as int].virtuals@.len() && #[trigger] virtual_reached(
                *graph,
                *bundle,
                *dest,
                *path,
                viaref,
                node as int,
                previous,
                k,
            ) ==> final(reachables_v)@[graph.neighbours@[node as int].virtuals@[k].vnode.index as int],
        forall|n: RoutableNodeRef| #[trigger] final(work).open_for(n, *graph) == old(work).open_for(n, *graph),
        forall|n: RoutableNodeRef, g: Multigraph<NM, CM>| #[trigger] old(work).reached(n, g) ==> final(work).reached(n, g),
        forall|v: VNodeRef|
            v.index < graph.nv() && !dest.spec_is_useful(v) ==> #[trigger] final(work).reached(RoutableNodeRef::V(v), *graph)
                == old(work).reached(RoutableNodeRef::V(v), *graph),
        forall|x: QueueItem| #[trigger] old(queue)@.count(x) > 0 ==> final(queue)@.count(x) > 0,
        forall|y: QueueItem|
            #[trigger] final(queue)@.count(y) > 0 ==> old(queue)@.count(y) > 0 || (y.1.1 matches Some(v)
                && final(reachables_v)@[v.index as int]),
        W::settles() ==> forall|n: RoutableNodeRef| #[trigger] final(work).expanded_node(n, *graph) == old(work).expanded_node(
            n,
            *graph,
        ),
        forall|u: INodeRef|
            u.index < graph.ni() ==> #[trigger] final(work).reached(RoutableNodeRef::I(u), *graph) == old(work).reached(
                RoutableNodeRef::I(u),
                *graph,
            ),
{
    let virtuals = &graph.neighbours[node].virtuals;
    let ghost w_start = *work;
    let ghost q_start = *queue;
    let ghost r_start = reachables_v@;
    let mut k: usize = 0;
    while k < virtuals.len()
        invariant
            graph.wf(),
            bundle.wf(),
            graph.ni() + graph.ne() + graph.nv() <= usize::MAX,
            node < graph.ni(),
            virtuals@ == graph.neighbours@[node as int].virtuals@,
            k <= virtuals@.len(),
            search_ok(*graph, *bundle, time, source, *work, *queue),
            grows(w_start, *work),
            work.parent_present(viaref),
            work.budget() <= w_start.budget(),
            reachables_v@.len() == graph.nv(),
            others@ <= graph.ni(),
            *reachable == count_of(reachables_v@, true) + others@,
            r_start.len() == graph.nv(),
            forall|i: int| 0 <= i < graph.nv() && r_start[i] ==> #[trigger] reachables_v@[i],
            forall|j: int|
                0 <= j < k && #[trigger] virtual_reached(*graph, *bundle, *dest, *path, viaref, node as int, previous, j)
                    ==> reachables_v@[virtuals@[j].vnode.index as int],
            forall|n: RoutableNodeRef| #[trigger] work.open_for(n, *graph) == w_start.open_for(n, *graph),
            forall|n: RoutableNodeRef, g: Multigraph<NM, CM>| #[trigger] w_start.reached(n, g) ==> work.reached(n, g),
            forall|v: VNodeRef|
                v.index < graph.nv() && !dest.spec_is_useful(v) ==> #[trigger] work.reached(RoutableNodeRef::V(v), *graph)
                    == w_start.reached(RoutableNodeRef::V(v), *graph),
            forall|x: QueueItem| #[trigger] q_start@.count(x) > 0 ==> queue@.count(x) > 0,
            forall|y: QueueItem|
                #[trigger] queue@.count(y) > 0 ==> q_start@.count(y) > 0 || (y.1.1 matches Some(v)
                    && reachables_v@[v.index as int]),
            W::settles() ==> forall|n: RoutableNodeRef| #[trigger] work.expanded_node(n, *graph) == w_start.expanded_node(
                n,
                *graph,
            ),
            forall|u: INodeRef|
                u.index < graph.ni() ==> #[trigger] work.reached(RoutableNodeRef::I(u), *graph) == w_start.reached(
                    RoutableNodeRef::I(u),
                    *graph,
                ),
        decreases virtuals@.len() - k,
    {
        let vnode = virtuals[k].vnode;
        let ghost flags_k = reachables_v@;
        assert(vnode.index < graph.nv());
        if dest.is_useful(vnode) {
            let contacts = &virtuals[k].contacts;
            let mut cands: Vec<(RealNodeRef, usize)> = Vec::new();
            let mut j: usize = 0;
            while j < contacts.len()
                invariant
                    graph.wf(),
                    node < graph.ni(),
                    k < virtuals@.len(),
                    virtuals@ == graph.neighbours@[node as int].virtuals@,
                    contacts@ == virtuals@[k as int].contacts@,
                    j <= contacts@.len(),
                    cands@ == contacts@.take(j as int).filter(member_kept(*graph)),
                    forall|x: int|
                        0 <= x < cands@.len() ==> {
                            &&& (#[trigger] cands@[x]).1 < graph.nc()
                            &&& graph.valid_real(cands@[x].0)
                            &&& graph.contact_ends@[cands@[x].1 as int].0 == node
                            &&& graph.contact_ends@[cands@[x].1 as int].1 == crate::multigraph::real_index(
                                cands@[x].0,
                                graph.ni(),
                            )
                        },
                decreases contacts@.len() - j,
            {
                let (rre, c) = contacts[j];
                assert(graph.valid_real(contacts@[j as int].0));
                assert(graph.contact_between(contacts@[j as int].1 as int, node as int, crate::multigraph::real_index(contacts@[j as int].0, graph.ni())));
                proof {
                    reveal(Seq::filter);
                    assert(contacts@.take(j + 1).drop_last() =~= contacts@.take(j as int));
                    assert(contacts@.take(j + 1).last() == (rre, c));
                }
                if !graph.node(rre).info.excluded {
                    cands.push((rre, c));
                }
                j = j + 1;
            }
            proof {
                assert(contacts@.take(contacts@.len() as int) =~= contacts@);
            }
            let vid = graph.vnode_id(vnode);
            proof {
                assert(vid == NodeID((vnode.index + graph.ni() + graph.ne()) as usize));
            }
            let hop = try_make_hop(graph, path, viaref, bundle, node, &cands, previous, vid);
            match hop {
                None => {},
                Some(p2) => {
                    proof {
                        lemma_made_hop_usable(*graph, *bundle, *path, viaref, node as int, cands@, previous, vid);
                        let j = choose|j: int| 0 <= j < cands@.len() && #[trigger] cands@[j].0 == p2.rx_node;
                        contacts@.lemma_filter_pred(member_kept(*graph), j);
                    }
                    mark_reachable(reachables_v, vnode.index, reachable, others, Ghost((graph.ni() + graph.nv()) as nat));
                    offer(graph, bundle, time, source, work, queue, p2, RoutableNodeRef::V(vnode), Some(vnode));
                },
            }
        }
        proof {
            assert forall|j: int|
                0 <= j < k + 1 && #[trigger] virtual_reached(*graph, *bundle, *dest, *path, viaref, node as int, previous, j)
                    implies reachables_v@[virtuals@[j].vnode.index as int] by {
                if j < k {
                    assert(flags_k[virtuals@[j].vnode.index as int]);
                }
            }
        }
        k = k + 1;
    }
}


fn false_flags(n: usize) -> (r: Vec<bool>)
    ensures
        r@.len() == n,
        count_of(r@, true) == 0,
        forall|i: int| 0 <= i < n ==> !#[trigger] r@[i],
{
    let mut r: Vec<bool> = Vec::new();
    let mut i: usize = 0;
    while i < n
        invariant
            i <= n,
            r@.len() == i,
            count_of(r@, true) == 0,
            forall|j: int| 0 <= j < i ==> !#[trigger] r@[j],
        decreases n - i,
    {
        let ghost old_r = r@;
        r.push(false);
        proof {
            assert(r@.drop_last() == old_r);
        }
        i = i + 1;
    }
    r
}

/// The start of a search from `source` at `time`.
pub open spec fn start_fragment(time: Date, source: INodeRef) -> PathFragment {
    PathFragment {
        via: None,
        hop_count: 0,
        recv: TimeInterval { start: time, end: time },
        rx_node: RealNodeRef::I(source),
        expiration: i64::MAX,
    }
}

/// The `k`-th internal neighbour of the source is another node, not excluded, that a hop from
/// the start of the search reaches over one of the contacts towards it.
pub open spec fn source_hop<NM: NodeManager, CM: ContactManager>(
    graph: Multigraph<NM, CM>,
    bundle: Bundle,
    time: Date,
    source: INodeRef,
    k: int,
) -> bool {
    let nbr = graph.neighbours@[source.index as int].reals@[k];
    &&& nbr.node != source
    &&& !graph.internal_nodes@[nbr.node.index as int].info.excluded
    &&& made_hop(
        graph,
        bundle,
        start_fragment(time, source),
        0,
        source.index as int,
        real_cands(nbr.node, nbr.contacts@),
        None,
        NodeID(nbr.node.index),
    ) is Some
}

/// Every neighbour of the source that a hop from the start reaches holds a path in `work`.
pub open spec fn source_neighbours_reached<NM: NodeManager, CM: ContactManager, W: DijkstraWorkspace<NM, CM>>(
    work: W,
    graph: Multigraph<NM, CM>,
    bundle: Bundle,
    time: Date,
    source: INodeRef,
) -> bool {
    forall|k: int|
        0 <= k < graph.neighbours@[source.index as int].reals@.len() && #[trigger] source_hop(
            graph,
            bundle,
            time,
            source,
            k,
        ) ==> work.reached(RoutableNodeRef::I(graph.neighbours@[source.index as int].reals@[k].node), graph)
}

/// The position of the node a fragment was extended from: none for the start of a search.
pub open spec fn parent_node(p: PathFragment) -> Option<usize> {
    match p.via {
        None => None,
        Some(v) => Some(v.parent_frag),
    }
}

/// One more hop extending `p`, a path to the internal node `u`, reaches the `k`-th internal
/// neighbour of `u`, which is not excluded.
pub open spec fn hop_beyond<NM: NodeManager, CM: ContactManager>(
    graph: Multigraph<NM, CM>,
    bundle: Bundle,
    p: PathFragment,
    u: int,
    k: int,
) -> bool {
    hop_from(graph, bundle, p, u as usize, u, parent_node(p), k)
}

/// Every internal neighbour of `u` that one more hop extending `p` reaches is reached in `work`.
pub open spec fn closed_at<NM: NodeManager, CM: ContactManager, W: DijkstraWorkspace<NM, CM>>(
    graph: Multigraph<NM, CM>,
    bundle: Bundle,
    work: W,
    u: int,
    p: PathFragment,
) -> bool {
    forall|k: int|
        0 <= k < graph.neighbours@[u].reals@.len() && #[trigger] hop_beyond(graph, bundle, p, u, k) ==> work.reached(
            RoutableNodeRef::I(graph.neighbours@[u].reals@[k].node),
            graph,
        )
}

/// The tree `t` is closed under one more hop: each internal node it holds a path to is reached
/// by a sound path `p` such that every internal neighbour, not excluded, that one more hop
/// extending `p` reaches also holds a path in `t`.
pub open spec fn tree_closed<NM: NodeManager, CM: ContactManager>(
    graph: Multigraph<NM, CM>,
    bundle: Bundle,
    time: Date,
    source: usize,
    t: Seq<Option<PathFragment>>,
) -> bool {
    forall|u: int|
        0 <= u < graph.ni() && #[trigger] t[u] is Some ==> exists|p: PathFragment|
            #![trigger fragment_sound(graph, bundle, time, source, p)]
            fragment_sound(graph, bundle, time, source, p) && p.rx_node == RealNodeRef::I(INodeRef { index: u as usize })
                && forall|k: int|
                0 <= k < graph.neighbours@[u].reals@.len() && #[trigger] hop_beyond(graph, bundle, p, u, k)
                    ==> t[graph.neighbours@[u].reals@[k].node.index as int] is Some
}

proof fn lemma_closed_grows<NM: NodeManager, CM: ContactManager, W: DijkstraWorkspace<NM, CM>>(
    graph: Multigraph<NM, CM>,
    bundle: Bundle,
    w0: W,
    w1: W,
    u: int,
    p: PathFragment,
)
    requires
        closed_at(graph, bundle, w0, u, p),
        forall|n: RoutableNodeRef| #[trigger] w0.reached(n, graph) ==> w1.reached(n, graph),
    ensures
        closed_at(graph, bundle, w1, u, p),
{
    assert forall|k: int|
        0 <= k < graph.neighbours@[u].reals@.len() && #[trigger] hop_beyond(graph, bundle, p, u, k) implies w1.reached(
        RoutableNodeRef::I(graph.neighbours@[u].reals@[k].node),
        graph,
    ) by {
        assert(w0.reached(RoutableNodeRef::I(graph.neighbours@[u].reals@[k].node), graph));
    }
}

/// The queued path `x` goes to a node marked reachable in `ri` (internal nodes) or `rv`
/// (virtual nodes).
pub open spec fn item_marked(x: QueueItem, ri: Seq<bool>, rv: Seq<bool>) -> bool {
    match x.1.1 {
        Some(v) => rv[v.index as int],
        None => ri[item_node(x)->I_0.index as int],
    }
}

/// A set of flags that `b` holds wherever `a` does counts at least as many; strictly more where
/// `b` holds one more.
proof fn lemma_count_sub(a: Seq<bool>, b: Seq<bool>, i: int)
    requires
        a.len() == b.len(),
        forall|j: int| 0 <= j < a.len() && #[trigger] a[j] ==> b[j],
    ensures
        count_of(a, true) <= count_of(b, true),
        0 <= i < a.len() && b[i] && !a[i] ==> count_of(a, true) < count_of(b, true),
    decreases a.len(),
{
    if a.len() > 0 {
        let n = a.len() - 1;
        assert forall|j: int| 0 <= j < a.drop_last().len() && #[trigger] a.drop_last()[j] implies b.drop_last()[j] by {
            assert(a[j]);
        }
        lemma_count_sub(a.drop_last(), b.drop_last(), i);
        if a[n] {
            assert(b[n]);
        }
    }
}

/// Runs Dijkstra's search from the internal node `source`, for a bundle leaving at
/// `current_time`, until the destination says to stop or no reachable node is left.
///
/// Paths go through internal nodes that are not excluded, and reach virtual nodes that the
/// destination finds useful through members that are not excluded. Every path the output keeps
/// is sound: it is the start at the source, or it ends with a contact that can carry the bundle
/// with the recorded windows and whose receiver accepts it. The output has a position for each
/// routable node. Unless the destination stops at the source, every neighbour that one hop from
/// the start reaches holds a path. With a workspace that settles nodes (node parenting) and a
/// destination that never stops the search, the tree is closed under one more hop: each internal
/// node it reaches is reached by a sound path whose one-hop extensions all reach nodes of the tree.
pub fn dijkstra<NM: NodeManager, CM: ContactManager, W: DijkstraWorkspace<NM, CM>, D: Distance<NM, CM>, De: Destination>(
    multigraph: &mut Multigraph<NM, CM>,
    current_time: Date,
    source: INodeRef,
    bundle: &Bundle,
    dest: &mut De,
    prune_time: Option<Date>,
) -> (r: Option<PathFindingOutput>)
    requires
        old(multigraph).wf(),
        old(multigraph).ni() + old(multigraph).ne() + old(multigraph).nv() <= usize::MAX,
        source.index < old(multigraph).ni(),
        bundle.wf(),
    ensures
        *final(multigraph) == *old(multigraph),
        r matches Some(out) && out.path_tree@.len() >= old(multigraph).ni() + old(multigraph).nv(),
        r matches Some(out) && out.path_tree@[source.index as int] is Some,
        r matches Some(out) ==> parents_linked(out.path_tree@),
        r matches Some(out) ==> (old(dest).spec_never_stops_at(RoutableNodeRef::I(source)) ==> forall|k: int|
            0 <= k < old(multigraph).neighbours@[source.index as int].reals@.len() && #[trigger] source_hop(
                *old(multigraph),
                *bundle,
                current_time,
                source,
                k,
            ) ==> out.path_tree@[old(multigraph).neighbours@[source.index as int].reals@[k].node.index as int] is Some),
        r matches Some(out) ==> forall|v: VNodeRef|
            v.index < old(multigraph).nv() && !old(dest).spec_is_useful(v) ==> #[trigger] out.path_tree@[old(
                multigraph,
            ).ni() + v.index] is None,
        r matches Some(out) ==> forall|i: int|
            0 <= i < old(multigraph).ni() ==> (#[trigger] out.path_tree@[i] matches Some(f) ==> f.rx_node
                == RealNodeRef::I(INodeRef { index: i as usize })),
        r matches Some(out) ==> forall|i: int|
            0 <= i < out.path_tree@.len() ==> (#[trigger] out.path_tree@[i] matches Some(f) ==> fragment_sound(
                *old(multigraph),
                *bundle,
                current_time,
                source.index,
                f,
            )),
        r matches Some(out) ==> (W::settles() && (forall|n: RoutableNodeRef| #[trigger] old(dest).spec_never_stops_at(n))
            ==> tree_closed(*old(multigraph), *bundle, current_time, source.index, out.path_tree@)),
{
    let graph: &Multigraph<NM, CM> = multigraph;
    let mut work_area = W::new(graph);
    let mut prioqueue = PrioQueue::<D, NM, CM, (usize, Option<VNodeRef>)>::with_capacity(graph.get_vertex_count());
    let mut reached: usize = 0;
    let mut reachables = false_flags(graph.get_internal_count());
    let mut reachables_v = false_flags(graph.get_vnode_count());
    let ghost mut popped_i: Seq<bool> = reachables@;
    let ghost mut popped_v: Seq<bool> = reachables_v@;
    let ghost mut done: Map<int, PathFragment> = Map::empty();
    let ghost never_all: bool = forall|n: RoutableNodeRef| old(dest).spec_never_stops_at(n);
    let mut reachable: usize = 0;
    mark_reachable(&mut reachables, source.index, &mut reachable, Ghost(0nat), Ghost((graph.ni() + graph.nv()) as nat));
    let init_path = PathFragment::new_start(current_time, RealNodeRef::I(source));
    proof {
        assert(search_ok(*graph, *bundle, current_time, source.index, work_area, prioqueue)) by {
            assert forall|x: QueueItem| #[trigger] prioqueue@.count(x) > 0 implies item_ok(
                *graph,
                *bundle,
                current_time,
                source.index,
                work_area,
                x,
            ) by {}
        }
    }
    let ghost w_init = work_area;
    let viaref = match work_area.try_insert(init_path, RoutableNodeRef::I(source), graph, bundle) {
        None => {
            proof {
                assert(false);
            }
            return None;
        },
        Some(v) => v,
    };
    proof {
        let w1 = work_area;
        assert forall|i: int| 0 <= i < w1.tree().len() implies (#[trigger] w1.tree()[i] matches Some(f)
            ==> fragment_sound(*graph, *bundle, current_time, source.index, f)) by {
            if w1.tree()[i] != Some(init_path) {
                assert(w1.tree()[i] == w_init.tree()[i]);
            }
        }
        lemma_items_grow::<NM, CM, W, D>(*graph, *bundle, current_time, source.index, w_init, w1, prioqueue);
        assert(item_ok(*graph, *bundle, current_time, source.index, work_area, (init_path, (viaref, None))));
    }
    let ghost q0 = prioqueue;
    prioqueue.insert((init_path, (viaref, None)), graph, bundle);
    proof {
        assert forall|x: QueueItem| #[trigger] prioqueue@.count(x) > 0 implies item_ok(
            *graph,
            *bundle,
            current_time,
            source.index,
            work_area,
            x,
        ) by {
            if x != (init_path, (viaref, None::<VNodeRef>)) {
                assert(q0@.count(x) > 0);
            }
        }
        lemma_count_bound(reachables@, true);
        lemma_count_bound(reachables_v@, true);
    }
    let ghost w_s = work_area;
    let ghost viaref0 = viaref;
    let ghost item0: QueueItem = (init_path, (viaref, None::<VNodeRef>));
    let ghost mut first: bool = true;
    proof {
        assert(prioqueue@ =~= vstd::multiset::Multiset::<QueueItem>::empty().insert(item0));
        assert(init_path == start_fragment(current_time, source));
        if W::settles() {
            assert forall|u: int| 0 <= u < graph.ni() implies #[trigger] popped_i[u] == work_area.expanded_node(
                RoutableNodeRef::I(INodeRef { index: u as usize }),
                *graph,
            ) by {
                assert(graph.valid_routable(RoutableNodeRef::I(INodeRef { index: u as usize })));
                assert(!w_init.expanded_node(RoutableNodeRef::I(INodeRef { index: u as usize }), *graph));
            }
            assert forall|v: int| 0 <= v < graph.nv() implies #[trigger] popped_v[v] == work_area.expanded_node(
                RoutableNodeRef::V(VNodeRef { index: v as usize }),
                *graph,
            ) by {
                assert(graph.valid_routable(RoutableNodeRef::V(VNodeRef { index: v as usize })));
                assert(!w_init.expanded_node(RoutableNodeRef::V(VNodeRef { index: v as usize }), *graph));
            }
            assert forall|x: QueueItem| #[trigger] prioqueue@.count(x) > 0 implies item_marked(x, reachables@, reachables_v@) by {
                assert(x == item0);
            }
            assert forall|u: INodeRef|
                u.index < graph.ni() && #[trigger] work_area.reached(RoutableNodeRef::I(u), *graph) implies popped_i[u.index as int]
                    || exists|y: QueueItem| #![trigger prioqueue@.count(y)] prioqueue@.count(y) > 0 && item_node(y) == RoutableNodeRef::I(u) by {
                if u != source {
                    assert(graph.valid_routable(RoutableNodeRef::I(u)));
                    assert(!w_init.reached(RoutableNodeRef::I(u), *graph));
                    assert(false);
                }
                assert(prioqueue@.count(item0) > 0);
                assert(item_node(item0) == RoutableNodeRef::I(u));
            }
        }
    }
    loop
        invariant_except_break
            first ==> {
                &&& reached == 0
                &&& reachable > 0
                &&& prioqueue@ == vstd::multiset::Multiset::<QueueItem>::empty().insert(item0)
                &&& *dest == *old(dest)
                &&& work_area == w_s
            },
        invariant
            item0 == (start_fragment(current_time, source), (viaref0, None::<VNodeRef>)),
            w_s.pops_fresh(start_fragment(current_time, source), RoutableNodeRef::I(source), viaref0),
            forall|n: RoutableNodeRef|
                graph.valid_routable(n) && n != RoutableNodeRef::I(source) ==> #[trigger] w_s.open_for(n, *graph),
            forall|n: INodeRef|
                n.index < graph.ni() && n != source ==> #[trigger] w_s.no_hop_towards(n, *graph),
            !first ==> (old(dest).spec_never_stops_at(RoutableNodeRef::I(source)) ==> source_neighbours_reached::<
                NM,
                CM,
                W,
            >(work_area, *graph, *bundle, current_time, source)),
            graph.wf(),
            *graph == *old(multigraph),
            graph.ni() + graph.ne() + graph.nv() <= usize::MAX,
            source.index < graph.ni(),
            bundle.wf(),
            search_ok(*graph, *bundle, current_time, source.index, work_area, prioqueue),
            reachables@.len() == graph.ni(),
            reachables_v@.len() == graph.nv(),
            reachable == count_of(reachables@, true) + count_of(reachables_v@, true),
            work_area.reached(RoutableNodeRef::I(source), *graph),
            forall|v: VNodeRef| #[trigger] dest.spec_is_useful(v) == old(dest).spec_is_useful(v),
            forall|v: VNodeRef|
                v.index < graph.nv() && !old(dest).spec_is_useful(v) ==> !#[trigger] work_area.reached(
                    RoutableNodeRef::V(v),
                    *graph,
                ),
            never_all == forall|n: RoutableNodeRef| old(dest).spec_never_stops_at(n),
            never_all ==> forall|n: RoutableNodeRef| #[trigger] dest.spec_never_stops_at(n),
            popped_i.len() == graph.ni(),
            popped_v.len() == graph.nv(),
            W::settles() ==> {
                &&& forall|u: int| 0 <= u < graph.ni() ==> #[trigger] popped_i[u] == work_area.expanded_node(
                    RoutableNodeRef::I(INodeRef { index: u as usize }),
                    *graph,
                )
                &&& forall|v: int| 0 <= v < graph.nv() ==> #[trigger] popped_v[v] == work_area.expanded_node(
                    RoutableNodeRef::V(VNodeRef { index: v as usize }),
                    *graph,
                )
                &&& reached == count_of(popped_i, true) + count_of(popped_v, true)
                &&& forall|u: int| 0 <= u < graph.ni() && #[trigger] popped_i[u] ==> reachables@[u]
                &&& forall|v: int| 0 <= v < graph.nv() && #[trigger] popped_v[v] ==> reachables_v@[v]
                &&& forall|x: QueueItem| #[trigger] prioqueue@.count(x) > 0 ==> item_marked(x, reachables@, reachables_v@)
                &&& forall|u: INodeRef|
                    u.index < graph.ni() && #[trigger] work_area.reached(RoutableNodeRef::I(u), *graph) ==> popped_i[u.index as int]
                        || exists|y: QueueItem| #![trigger prioqueue@.count(y)] prioqueue@.count(y) > 0 && item_node(y) == RoutableNodeRef::I(u)
                &&& never_all ==> forall|u: int|
                    0 <= u < graph.ni() && #[trigger] popped_i[u] ==> done.dom().contains(u) && fragment_sound(
                        *graph,
                        *bundle,
                        current_time,
                        source.index,
                        done[u],
                    ) && done[u].rx_node == RealNodeRef::I(INodeRef { index: u as usize }) && closed_at(
                        *graph,
                        *bundle,
                        work_area,
                        u,
                        done[u],
                    )
            },
        ensures
            old(dest).spec_never_stops_at(RoutableNodeRef::I(source)) ==> !first,
            W::settles() && never_all ==> forall|u: int|
                0 <= u < graph.ni() && #[trigger] work_area.reached(RoutableNodeRef::I(INodeRef { index: u as usize }), *graph)
                    ==> done.dom().contains(u) && fragment_sound(*graph, *bundle, current_time, source.index, done[u])
                    && done[u].rx_node == RealNodeRef::I(INodeRef { index: u as usize }) && closed_at(
                    *graph,
                    *bundle,
                    work_area,
                    u,
                    done[u],
                ),
        decreases work_area.budget(), prioqueue@.len(),
    {
        let ghost was_first = first;
        if reachable <= reached {
            proof {
                if W::settles() && never_all {
                    lemma_count_sub(popped_v, reachables_v@, 0);
                    assert forall|u: int|
                        0 <= u < graph.ni() && #[trigger] work_area.reached(RoutableNodeRef::I(INodeRef { index: u as usize }), *graph)
                            implies popped_i[u] by {
                        lemma_count_sub(popped_i, reachables@, u);
                        if !popped_i[u] {
                            let un = INodeRef { index: u as usize };
                            let y = choose|y: QueueItem|
                                #![trigger prioqueue@.count(y)]
                                prioqueue@.count(y) > 0 && item_node(y) == RoutableNodeRef::I(un);
                            assert(item_marked(y, reachables@, reachables_v@));
                            assert(y.1.1 is None);
                        }
                    }
                }
            }
            break;
        }
        let ghost w_top = work_area;
        let ghost q1 = prioqueue;
        let ghost done_top = done;
        let ghost pi_top = popped_i;
        let ghost pv_top = popped_v;
        let ghost ri_top = reachables@;
        let ghost rv_top = reachables_v@;
        let popped = prioqueue.pop_min(graph, bundle);
        let (path, (viaref, isvnode)) = match popped {
            None => {
                proof {
                    if W::settles() && never_all {
                        assert forall|u: int|
                            0 <= u < graph.ni() && #[trigger] work_area.reached(RoutableNodeRef::I(INodeRef { index: u as usize }), *graph)
                                implies popped_i[u] by {
                            if !popped_i[u] {
                                let un = INodeRef { index: u as usize };
                                let y = choose|y: QueueItem|
                                    #![trigger prioqueue@.count(y)]
                                    prioqueue@.count(y) > 0 && item_node(y) == RoutableNodeRef::I(un);
                                vstd::multiset::axiom_count_le_len(q1@, y);
                            }
                        }
                    }
                }
                break;
            },
            Some(x) => x,
        };
        let ghost q_pop = prioqueue;
        proof {
            assert(q1@.count((path, (viaref, isvnode))) > 0);
            assert(item_ok(*graph, *bundle, current_time, source.index, work_area, (path, (viaref, isvnode))));
            assert forall|x: QueueItem| #[trigger] prioqueue@.count(x) > 0 implies item_ok(
                *graph,
                *bundle,
                current_time,
                source.index,
                work_area,
                x,
            ) by {
                assert(q1@.count(x) > 0);
            }
        }
        let node = match isvnode {
            Some(vnoderef) => RoutableNodeRef::V(vnoderef),
            None => match path.rx_node {
                RealNodeRef::I(i) => RoutableNodeRef::I(i),
                RealNodeRef::E(_) => {
                    proof {
                        assert(false);
                    }
                    break;
                },
            },
        };
        let ghost w0 = work_area;
        proof {
            if was_first {
                assert(q1@.count((path, (viaref, isvnode))) > 0);
                assert((path, (viaref, isvnode)) == item0);
                assert(node == RoutableNodeRef::I(source));
            }
        }
        let (relevant, new, previous_node) = work_area.poped_relevant_new(path, node, viaref);
        let ghost w1 = work_area;
        proof {
            lemma_items_grow::<NM, CM, W, D>(*graph, *bundle, current_time, source.index, w0, work_area, prioqueue);
            if W::settles() {
                let x: QueueItem = (path, (viaref, isvnode));
                assert(item_node(x) == node);
                assert(w0.fits(*graph));
                assert(graph.valid_routable(node));
                assert(viaref == graph.spec_routable_index(node));
                assert(item_marked(x, reachables@, reachables_v@));
                if new {
                    match node {
                        RoutableNodeRef::I(i) => {
                            lemma_count_update(popped_i, i.index as int, true);
                            popped_i = popped_i.update(i.index as int, true);
                        },
                        RoutableNodeRef::V(v) => {
                            lemma_count_update(popped_v, v.index as int, true);
                            popped_v = popped_v.update(v.index as int, true);
                        },
                    }
                }
                assert forall|u: int| 0 <= u < graph.ni() implies #[trigger] popped_i[u] == work_area.expanded_node(
                    RoutableNodeRef::I(INodeRef { index: u as usize }),
                    *graph,
                ) by {
                    let m = RoutableNodeRef::I(INodeRef { index: u as usize });
                    assert(graph.valid_routable(m));
                    if m != node {
                        assert(work_area.expanded_node(m, *graph) == w0.expanded_node(m, *graph));
                    }
                }
                assert forall|v: int| 0 <= v < graph.nv() implies #[trigger] popped_v[v] == work_area.expanded_node(
                    RoutableNodeRef::V(VNodeRef { index: v as usize }),
                    *graph,
                ) by {
                    let m = RoutableNodeRef::V(VNodeRef { index: v as usize });
                    assert(graph.valid_routable(m));
                    if m != node {
                        assert(work_area.expanded_node(m, *graph) == w0.expanded_node(m, *graph));
                    }
                }
                assert forall|u: int| 0 <= u < graph.ni() && #[trigger] popped_i[u] implies reachables@[u] by {
                    if !pi_top[u] {
                        assert(node == RoutableNodeRef::I(INodeRef { index: u as usize }));
                    }
                }
                assert forall|v: int| 0 <= v < graph.nv() && #[trigger] popped_v[v] implies reachables_v@[v] by {
                    if !pv_top[v] {
                        assert(node == RoutableNodeRef::V(VNodeRef { index: v as usize }));
                    }
                }
                assert forall|y: QueueItem| #[trigger] prioqueue@.count(y) > 0 implies item_marked(y, reachables@, reachables_v@) by {
                    assert(q1@.count(y) > 0);
                }
                assert forall|u: INodeRef|
                    u.index < graph.ni() && #[trigger] work_area.reached(RoutableNodeRef::I(u), *graph) implies popped_i[u.index as int]
                        || exists|y: QueueItem| #![trigger prioqueue@.count(y)] prioqueue@.count(y) > 0 && item_node(y) == RoutableNodeRef::I(u) by {
                    assert(w_top.reached(RoutableNodeRef::I(u), *graph));
                    if !pi_top[u.index as int] {
                        let y = choose|y: QueueItem| #![trigger q1@.count(y)] q1@.count(y) > 0 && item_node(y) == RoutableNodeRef::I(u);
                        if y == x {
                            assert(node == RoutableNodeRef::I(u));
                            assert(popped_i[u.index as int]);
                        } else {
                            assert(prioqueue@.count(y) > 0);
                        }
                    }
                }
            }
        }
        let ghost mut w_r = work_area;
        if new {
            reached = reached + 1;
            if dest.now_reached(node) {
                proof {
                    if never_all {
                        assert(old(dest).spec_never_stops_at(node));
                        assert(false);
                    }
                }
                break;
            }
        }
        if isvnode.is_none() && relevant {
            let n = match path.rx_node {
                RealNodeRef::I(i) => i.index,
                RealNodeRef::E(_) => {
                    proof {
                        assert(false);
                    }
                    break;
                },
            };
            let previous = match previous_node {
                Some(p) => Some(p.index),
                None => None,
            };
            proof {
                lemma_count_bound(reachables@, true);
                lemma_count_bound(reachables_v@, true);
            }
            expand_reals(
                graph,
                bundle,
                current_time,
                source.index,
                &mut work_area,
                &mut prioqueue,
                &mut reachables,
                &mut reachable,
                Ghost(count_of(reachables_v@, true)),
                &path,
                viaref,
                n,
                previous,
            );
            proof {
                w_r = work_area;
                if W::settles() {
                    assert(viaref == n);
                    assert(previous == parent_node(path));
                    done = done.insert(n as int, path);
                }
                if was_first {
                    assert forall|k: int|
                        0 <= k < graph.neighbours@[source.index as int].reals@.len() && #[trigger] source_hop(
                            *graph,
                            *bundle,
                            current_time,
                            source,
                            k,
                        ) implies work_area.reached(
                        RoutableNodeRef::I(graph.neighbours@[source.index as int].reals@[k].node),
                        *graph,
                    ) by {
                        let nb = graph.neighbours@[source.index as int].reals@[k].node;
                        assert(nb.index < graph.ni());
                        assert(graph.valid_routable(RoutableNodeRef::I(nb)));
                        assert(w_s.open_for(RoutableNodeRef::I(nb), *graph));
                        assert(w1.open_for(RoutableNodeRef::I(nb), *graph));
                        assert(w_s.no_hop_towards(nb, *graph));
                        assert(w1.no_hop_towards(nb, *graph));
                        assert(real_reached(*graph, *bundle, w1, path, viaref, n as int, previous, k));
                    }
                }
            }
            proof {
                lemma_count_bound(reachables@, true);
                lemma_count_bound(reachables_v@, true);
            }
            expand_virtuals(
                graph,
                bundle,
                current_time,
                source.index,
                &mut work_area,
                &mut prioqueue,
                &mut reachables_v,
                &mut reachable,
                Ghost(count_of(reachables@, true)),
                dest,
                &path,
                viaref,
                n,
                previous,
            );
        }
        proof {
            if was_first {
                assert(relevant && isvnode is None);
            }
            first = false;
        }
    }
    let ghost wf = work_area;
    let out = work_area.into_pathfinding_output();
    proof {
        if W::settles() && never_all {
            assert forall|u: int| 0 <= u < graph.ni() && #[trigger] out.path_tree@[u] is Some implies exists|p: PathFragment|
                #![trigger fragment_sound(*graph, *bundle, current_time, source.index, p)]
                fragment_sound(*graph, *bundle, current_time, source.index, p) && p.rx_node == RealNodeRef::I(
                    INodeRef { index: u as usize },
                ) && forall|k: int|
                    0 <= k < graph.neighbours@[u].reals@.len() && #[trigger] hop_beyond(*graph, *bundle, p, u, k)
                        ==> out.path_tree@[graph.neighbours@[u].reals@[k].node.index as int] is Some by {
                let un = RoutableNodeRef::I(INodeRef { index: u as usize });
                assert(graph.valid_routable(un));
                assert(graph.spec_routable_index(un) == u);
                assert(wf.reached(un, *graph));
                let p = done[u];
                assert(closed_at(*graph, *bundle, wf, u, p));
                assert forall|k: int|
                    0 <= k < graph.neighbours@[u].reals@.len() && #[trigger] hop_beyond(*graph, *bundle, p, u, k)
                        implies out.path_tree@[graph.neighbours@[u].reals@[k].node.index as int] is Some by {
                    let nb = graph.neighbours@[u].reals@[k].node;
                    assert(nb.index < graph.ni());
                    assert(graph.valid_routable(RoutableNodeRef::I(nb)));
                    assert(wf.reached(RoutableNodeRef::I(nb), *graph));
                    assert(graph.spec_routable_index(RoutableNodeRef::I(nb)) == nb.index);
                }
            }
        }
        assert(wf.fits(*graph));
        assert(graph.valid_routable(RoutableNodeRef::I(source)));
        assert(wf.reached(RoutableNodeRef::I(source), *graph));
        if old(dest).spec_never_stops_at(RoutableNodeRef::I(source)) {
            assert forall|k: int|
                0 <= k < graph.neighbours@[source.index as int].reals@.len() && #[trigger] source_hop(
                    *graph,
                    *bundle,
                    current_time,
                    source,
                    k,
                ) implies out.path_tree@[graph.neighbours@[source.index as int].reals@[k].node.index as int] is Some by {
                let nb = graph.neighbours@[source.index as int].reals@[k].node;
                assert(nb.index < graph.ni());
                assert(graph.valid_routable(RoutableNodeRef::I(nb)));
                assert(wf.reached(RoutableNodeRef::I(nb), *graph));
                assert(graph.spec_routable_index(RoutableNodeRef::I(nb)) == nb.index);
            }
        }
        assert forall|v: VNodeRef| v.index < graph.nv() && !old(dest).spec_is_useful(v) implies #[trigger] out.path_tree@[graph.ni()
            + v.index] is None by {
            assert(graph.valid_routable(RoutableNodeRef::V(v)));
            assert(graph.spec_routable_index(RoutableNodeRef::V(v)) == graph.ni() + v.index);
            assert(!wf.reached(RoutableNodeRef::V(v), *graph));
        }
        assert forall|i: int| 0 <= i < out.path_tree@.len() implies (#[trigger] out.path_tree@[i] matches Some(f)
            ==> fragment_sound(*graph, *bundle, current_time, source.index, f)) by {
            if let Some(f) = out.path_tree@[i] {
                let j = choose|j: int|
                    0 <= j < wf.tree().len() && (#[trigger] wf.tree()[j] matches Some(g) && same_but_parent(f, g));
                let g = wf.tree()[j]->0;
                assert(fragment_sound(*graph, *bundle, current_time, source.index, g));
                lemma_same_but_parent_sound(*graph, *bundle, current_time, source.index, f, g);
            }
        }
    }
    Some(out)
}


/// What a search hands out, with each tree taken by its view.
pub open spec fn result_view(r: Result<Option<PathFindingOutput>, ASABRError>) -> Result<
    Option<Seq<Option<PathFragment>>>,
    ASABRError,
> {
    match r {
        Ok(Some(o)) => Ok(Some(o.path_tree@)),
        Ok(None) => Ok(None),
        Err(e) => Err(e),
    }
}

/// The tree `t` is one that Dijkstra's search from `source` may give: it has a position for
/// each routable node, the source is reached, the position of each internal node holds a path
/// to that node, every hop's parent position holds a path, and every path it holds is sound (the start at the source, or a hop over
/// a contact that is not suppressed, towards a node that is not excluded, that can carry the
/// bundle with the recorded windows and whose receiver accepts it).
pub open spec fn search_result<NM: NodeManager, CM: ContactManager>(
    graph: Multigraph<NM, CM>,
    bundle: Bundle,
    time: Date,
    source: usize,
    t: Seq<Option<PathFragment>>,
) -> bool {
    &&& t.len() >= graph.ni() + graph.nv()
    &&& t[source as int] is Some
    &&& parents_linked(t)
    &&& forall|i: int|
        0 <= i < graph.ni() ==> (#[trigger] t[i] matches Some(f) ==> f.rx_node == RealNodeRef::I(
            INodeRef { index: i as usize },
        ))
    &&& forall|i: int| 0 <= i < t.len() ==> (#[trigger] t[i] matches Some(f) ==> fragment_sound(graph, bundle, time, source, f))
}

/// A pathfinding algorithm: builds the tree of paths from a source towards a destination.
pub trait Pathfinding<NM: NodeManager, CM: ContactManager, De: Destination> {
    /// The pathfinder's own invariant, which every search keeps.
    spec fn finder_inv(&self) -> bool;

    /// Whether `r` is a result this pathfinder may give for a search in `graph` for the bundle
    /// leaving `source` at `time` towards `dest`.
    spec fn spec_found(
        &self,
        graph: Multigraph<NM, CM>,
        time: Date,
        source: INodeRef,
        bundle: Bundle,
        dest: De,
        prune: Option<Date>,
        r: Result<Option<Seq<Option<PathFragment>>>, ASABRError>,
    ) -> bool;

    /// Builds the path tree for a bundle leaving `source` at `routing_time`; contacts and nodes
    /// marked excluded are avoided.
    fn find_path(
        &mut self,
        multigraph: &mut Multigraph<NM, CM>,
        routing_time: Date,
        source: INodeRef,
        bundle: &Bundle,
        destination: &mut De,
        prune_time: Option<Date>,
    ) -> (r: Result<Option<PathFindingOutput>, ASABRError>)
        requires
            old(self).finder_inv(),
            old(multigraph).wf(),
            old(multigraph).ni() + old(multigraph).ne() + old(multigraph).nv() <= usize::MAX,
            source.index < old(multigraph).ni(),
            bundle.wf(),
        ensures
            final(self).finder_inv(),
            final(multigraph).wf(),
            final(multigraph).ni() == old(multigraph).ni(),
            final(multigraph).ne() == old(multigraph).ne(),
            final(multigraph).nv() == old(multigraph).nv(),
            old(self).spec_found(
                *old(multigraph),
                routing_time,
                source,
                *bundle,
                *old(destination),
                prune_time,
                result_view(r),
            ),
    ;
}

/// The Dijkstra pathfinder, with the workspace `W` and the distance `D`.
pub struct Disktra<W, D> {
    _phantom: PhantomData<(W, D)>,
}

impl<W, D> Disktra<W, D> {
    /// Creates the pathfinder.
    pub fn new() -> (r: Self) {
        Disktra { _phantom: PhantomData }
    }
}

impl<NM: NodeManager, CM: ContactManager, W: DijkstraWorkspace<NM, CM>, D: Distance<NM, CM>, De: Destination> Pathfinding<
    NM,
    CM,
    De,
> for Disktra<W, D> {
    open spec fn finder_inv(&self) -> bool {
        true
    }

    open spec fn spec_found(
        &self,
        graph: Multigraph<NM, CM>,
        time: Date,
        source: INodeRef,
        bundle: Bundle,
        dest: De,
        prune: Option<Date>,
        r: Result<Option<Seq<Option<PathFragment>>>, ASABRError>,
    ) -> bool {
        &&& r matches Ok(Some(t)) && search_result(graph, bundle, time, source.index, t)
        &&& r matches Ok(Some(t)) ==> (dest.spec_never_stops_at(RoutableNodeRef::I(source)) ==> forall|k: int|
            0 <= k < graph.neighbours@[source.index as int].reals@.len() && #[trigger] source_hop(graph, bundle, time, source, k)
                ==> t[graph.neighbours@[source.index as int].reals@[k].node.index as int] is Some)
        &&& r matches Ok(Some(t)) ==> (W::settles() && (forall|n: RoutableNodeRef| #[trigger] dest.spec_never_stops_at(n))
            ==> tree_closed(graph, bundle, time, source.index, t))
    }

    fn find_path(
        &mut self,
        multigraph: &mut Multigraph<NM, CM>,
        routing_time: Date,
        source: INodeRef,
        bundle: &Bundle,
        destination: &mut De,
        prune_time: Option<Date>,
    ) -> (r: Result<Option<PathFindingOutput>, ASABRError>)
        ensures
            *final(multigraph) == *old(multigraph),
            r matches Ok(Some(out)) && out.path_tree@.len() >= old(multigraph).ni() + old(multigraph).nv(),
            r matches Ok(Some(out)) ==> forall|i: int|
                0 <= i < out.path_tree@.len() ==> (#[trigger] out.path_tree@[i] matches Some(f) ==> fragment_sound(
                    *old(multigraph),
                    *bundle,
                    routing_time,
                    source.index,
                    f,
                )),
    {
        Ok(dijkstra::<NM, CM, W, D, De>(multigraph, routing_time, source, bundle, destination, prune_time))
    }
}

} // verus!
