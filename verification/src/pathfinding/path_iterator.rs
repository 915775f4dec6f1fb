//! Committing a path: booking, along a path found by pathfinding, the transmissions of the
//! bundle over each contact and its reception and retransmission at each node.

use vstd::prelude::*;

use crate::contact_manager::{ContactManager, ContactManagerTxData};
use crate::errors::ASABRError;
use crate::multigraph::{real_index, Multigraph, RealNodeRef};
use crate::node_manager::NodeManager;
use crate::paths::PathFragment;
use crate::types::{Bundle, NodeID, TimeInterval};

verus! {

/// A path, from its end (the destination) back to its start (the source).
pub struct PathIterator {
    /// The fragments of the path, the destination's first.
    pub path: Vec<PathFragment>,
}

/// The contact of the hop that ends with `f`.
pub open spec fn hop_contact(f: PathFragment) -> int {
    f.via->0.contact.index as int
}

/// The transmission of the hop that ends with `f`.
pub open spec fn hop_tx(f: PathFragment) -> ContactManagerTxData {
    ContactManagerTxData { tx_window: f.via->0.send, rx_window: f.recv }
}

/// The path `p` (destination first) can be committed in `graph`: its nodes are nodes of the
/// graph, all internal but the destination; every fragment but the source's ends with a hop
/// over a contact of the graph, no contact is used twice, and each hop's transmission is one
/// that a dry run of its contact gives, and that its manager can book.
pub open spec fn committable<NM: NodeManager, CM: ContactManager>(
    graph: Multigraph<NM, CM>,
    bundle: Bundle,
    p: Seq<PathFragment>,
) -> bool {
    &&& forall|k: int| 0 <= k < p.len() ==> graph.valid_real(#[trigger] p[k].rx_node)
    &&& forall|k: int| 1 <= k < p.len() ==> (#[trigger] p[k].rx_node) is I
    &&& forall|k: int| 0 <= k < p.len() - 1 ==> (#[trigger] p[k].via) is Some && hop_contact(p[k]) < graph.nc()
    &&& forall|j: int, k: int|
        0 <= j < p.len() - 1 && 0 <= k < p.len() - 1 && j != k ==> hop_contact(#[trigger] p[j]) != hop_contact(
            #[trigger] p[k],
        )
    &&& forall|k: int|
        0 <= k < p.len() - 1 ==> {
            let c = graph.contacts@[hop_contact(#[trigger] p[k])];
            &&& c.manager.spec_schedule_fits(bundle)
            &&& exists|t: i64| c.manager.spec_dry_run_tx(c.lifespan, t, bundle) == Some(hop_tx(p[k]))
        }
}

/// The transmissions announced when the node of `p[k]` commits: none at the destination, the
/// next hop elsewhere.
pub open spec fn commit_transmissions<NM: NodeManager, CM: ContactManager>(
    graph: Multigraph<NM, CM>,
    p: Seq<PathFragment>,
    k: int,
) -> Seq<(TimeInterval, NodeID)> {
    if k == 0 {
        seq![]
    } else {
        seq![(p[k - 1].via->0.send, NodeID(real_index(p[k - 1].rx_node, graph.ni()) as usize))]
    }
}

/// The node `r` is the node of one of the fragments `p[0..m]`.
pub open spec fn committed_node(p: Seq<PathFragment>, m: int, r: RealNodeRef) -> bool {
    exists|k: int| 0 <= k < m && #[trigger] p[k].rx_node == r
}

/// The contact `c` is used by one of the hops ending with `p[0..m]`.
pub open spec fn used_contact(p: Seq<PathFragment>, m: int, c: int) -> bool {
    exists|k: int| 0 <= k < m && hop_contact(#[trigger] p[k]) == c
}

/// The graph `g1` is `g0` but for the managers of its nodes and contacts.
pub open spec fn same_structure<NM: NodeManager, CM: ContactManager>(g0: Multigraph<NM, CM>, g1: Multigraph<NM, CM>) -> bool {
    &&& g1.ni() == g0.ni()
    &&& g1.ne() == g0.ne()
    &&& g1.nc() == g0.nc()
    &&& g1.neighbours == g0.neighbours
    &&& g1.virtual_nodes == g0.virtual_nodes
    &&& g1.contact_ends == g0.contact_ends
    &&& forall|i: int| 0 <= i < g0.ni() ==> (#[trigger] g1.internal_nodes@[i]).info == g0.internal_nodes@[i].info
    &&& forall|i: int| 0 <= i < g0.ne() ==> (#[trigger] g1.external_nodes@[i]).info == g0.external_nodes@[i].info
    &&& forall|c: int|
        0 <= c < g0.nc() ==> (#[trigger] g1.contacts@[c]).lifespan == g0.contacts@[c].lifespan
            && g1.contacts@[c].suppressed == g0.contacts@[c].suppressed
}

/// Commits the bundle's reception (and, but at the destination, its retransmission) at the
/// node `r`.
fn commit_node<NM: NodeManager, CM: ContactManager>(
    graph: &mut Multigraph<NM, CM>,
    r: RealNodeRef,
    bundle: &Bundle,
    reception: TimeInterval,
    sender: NodeID,
    transmissions: &[(TimeInterval, NodeID)],
) -> (res: Result<(), ASABRError>)
    requires
        old(graph).wf(),
        old(graph).valid_real(r),
    ensures
        final(graph).wf(),
        same_structure(*old(graph), *final(graph)),
        final(graph).contacts == old(graph).contacts,
        forall|x: RealNodeRef|
            old(graph).valid_real(x) && x != r ==> #[trigger] final(graph).spec_node(x).manager == old(graph).spec_node(
                x,
            ).manager,
        res is Ok <==> old(graph).spec_node(r).manager.spec_commit_ok(*bundle, reception, sender, transmissions@),
        res is Ok ==> old(graph).spec_node(r).manager.spec_commit(
            *bundle,
            reception,
            sender,
            transmissions@,
            final(graph).spec_node(r).manager,
        ),
{
    let ghost g0 = *graph;
    let res = match r {
        RealNodeRef::I(i) => graph.internal_nodes[i.index].manager.commit(bundle, reception, sender, transmissions),
        RealNodeRef::E(e) => graph.external_nodes[e.index].manager.commit(bundle, reception, sender, transmissions),
    };
    proof {
        assert(graph.internal_nodes@.len() == g0.internal_nodes@.len());
        assert(graph.external_nodes@.len() == g0.external_nodes@.len());
        assert(graph.contacts == g0.contacts);
        assert(graph.neighbours == g0.neighbours);
        assert(graph.virtual_nodes == g0.virtual_nodes);
        assert(graph.contact_ends == g0.contact_ends);
    }
    res
}

/// The nodes of the fragments `p[0..m]` are pairwise distinct.
pub open spec fn distinct_nodes(p: Seq<PathFragment>, m: int) -> bool {
    forall|j: int, k: int| 0 <= j < m && 0 <= k < m && j != k ==> (#[trigger] p[j]).rx_node != (#[trigger] p[k]).rx_node
}

/// The node of `p[k]` committed the bundle as the path asks, from its manager in `g0` to its
/// manager in `g1`.
pub open spec fn node_committed<NM: NodeManager, CM: ContactManager>(
    g0: Multigraph<NM, CM>,
    g1: Multigraph<NM, CM>,
    bundle: Bundle,
    p: Seq<PathFragment>,
    k: int,
) -> bool {
    g0.spec_node(p[k].rx_node).manager.spec_commit(
        bundle,
        p[k].recv,
        NodeID(p[k + 1].rx_node->I_0.index),
        commit_transmissions(g0, p, k),
        g1.spec_node(p[k].rx_node).manager,
    )
}

/// The manager of the node of `p[k]` in `g0` accepts to commit the bundle as the path asks.
pub open spec fn node_commit_ok<NM: NodeManager, CM: ContactManager>(
    g0: Multigraph<NM, CM>,
    bundle: Bundle,
    p: Seq<PathFragment>,
    k: int,
) -> bool {
    g0.spec_node(p[k].rx_node).manager.spec_commit_ok(
        bundle,
        p[k].recv,
        NodeID(p[k + 1].rx_node->I_0.index),
        commit_transmissions(g0, p, k),
    )
}

/// The hop ending with `p[k]` was booked, from its contact's manager in `g0` to its manager in
/// `g1`.
pub open spec fn hop_booked<NM: NodeManager, CM: ContactManager>(
    g0: Multigraph<NM, CM>,
    g1: Multigraph<NM, CM>,
    bundle: Bundle,
    p: Seq<PathFragment>,
    k: int,
) -> bool {
    g0.contacts@[hop_contact(p[k])].manager.spec_schedule_tx(
        g0.contacts@[hop_contact(p[k])].lifespan,
        hop_tx(p[k]),
        bundle,
        g1.contacts@[hop_contact(p[k])].manager,
    )
}

proof fn lemma_committed_grows(p: Seq<PathFragment>, a: int, b: int, x: RealNodeRef)
    requires
        a <= b,
        committed_node(p, a, x),
    ensures
        committed_node(p, b, x),
{
    let k = choose|k: int| 0 <= k < a && #[trigger] p[k].rx_node == x;
    assert(0 <= k < b && p[k].rx_node == x);
}

proof fn lemma_used_grows(p: Seq<PathFragment>, a: int, b: int, c: int)
    requires
        a <= b,
        used_contact(p, a, c),
    ensures
        used_contact(p, b, c),
{
    let k = choose|k: int| 0 <= k < a && hop_contact(#[trigger] p[k]) == c;
    assert(0 <= k < b && hop_contact(p[k]) == c);
}

proof fn lemma_same_structure_trans<NM: NodeManager, CM: ContactManager>(
    g0: Multigraph<NM, CM>,
    g1: Multigraph<NM, CM>,
    g2: Multigraph<NM, CM>,
)
    requires
        same_structure(g0, g1),
        same_structure(g1, g2),
    ensures
        same_structure(g0, g2),
{
    assert forall|i: int| 0 <= i < g0.ni() implies (#[trigger] g2.internal_nodes@[i]).info == g0.internal_nodes@[i].info by {
        assert(g2.internal_nodes@[i].info == g1.internal_nodes@[i].info);
    }
    assert forall|i: int| 0 <= i < g0.ne() implies (#[trigger] g2.external_nodes@[i]).info == g0.external_nodes@[i].info by {
        assert(g2.external_nodes@[i].info == g1.external_nodes@[i].info);
    }
    assert forall|c: int| 0 <= c < g0.nc() implies (#[trigger] g2.contacts@[c]).lifespan == g0.contacts@[c].lifespan
        && g2.contacts@[c].suppressed == g0.contacts@[c].suppressed by {
        assert(g2.contacts@[c].lifespan == g1.contacts@[c].lifespan);
    }
}

/// Books the hop ending with `p[k]` over its contact.
#[verifier::spinoff_prover]
fn book_hop<NM: NodeManager, CM: ContactManager>(
    graph: &mut Multigraph<NM, CM>,
    f: &PathFragment,
    bundle: &Bundle,
    g0: Ghost<Multigraph<NM, CM>>,
)
    requires
        old(graph).wf(),
        bundle.wf(),
        f.via is Some,
        0 <= hop_contact(*f) < old(graph).nc(),
        old(graph).contacts@[hop_contact(*f)].manager == g0@.contacts@[hop_contact(*f)].manager,
        old(graph).contacts@[hop_contact(*f)].lifespan == g0@.contacts@[hop_contact(*f)].lifespan,
        g0@.contacts@[hop_contact(*f)].manager.spec_schedule_fits(*bundle),
        exists|t: i64|
            g0@.contacts@[hop_contact(*f)].manager.spec_dry_run_tx(g0@.contacts@[hop_contact(*f)].lifespan, t, *bundle)
                == Some(hop_tx(*f)),
    ensures
        final(graph).wf(),
        same_structure(*old(graph), *final(graph)),
        final(graph).internal_nodes == old(graph).internal_nodes,
        final(graph).external_nodes == old(graph).external_nodes,
        forall|c: int|
            0 <= c < old(graph).nc() && c != hop_contact(*f) ==> #[trigger] final(graph).contacts@[c]
                == old(graph).contacts@[c],
        g0@.contacts@[hop_contact(*f)].manager.spec_schedule_tx(
            g0@.contacts@[hop_contact(*f)].lifespan,
            hop_tx(*f),
            *bundle,
            final(graph).contacts@[hop_contact(*f)].manager,
        ),
{
    let v = f.via.unwrap();
    let c = v.contact.index;
    let tx = ContactManagerTxData { tx_window: v.send, rx_window: f.recv };
    let ghost gb = *graph;
    let _ = graph.contacts[c].schedule_tx(tx, bundle);
    proof {
        assert(graph.contacts@.len() == gb.contacts@.len());
        assert(graph.internal_nodes == gb.internal_nodes);
        assert(graph.external_nodes == gb.external_nodes);
        assert(graph.neighbours == gb.neighbours);
        assert(graph.virtual_nodes == gb.virtual_nodes);
        assert(graph.contact_ends == gb.contact_ends);
        assert forall|x: int| 0 <= x < graph.nc() implies (#[trigger] graph.contacts@[x]).wf() by {
            if x != c {
                assert(graph.contacts@[x] == gb.contacts@[x]);
            }
        }
    }
}

impl PathIterator {
    /// Commits the path: the destination commits the bundle's reception, then, hop after hop
    /// back to the source, the hop's contact books the transmission and the node that sends
    /// over it (but the source) commits its reception and retransmission. Returns the fragment
    /// of the first hop (`None` when the path has no hop), or the first error of a node.
    ///
    /// Nodes and contacts off the path keep their managers; when it succeeds, every hop is
    /// booked, and, on a path through distinct nodes, every node of the path but the source
    /// committed the bundle. On a path through distinct nodes, it succeeds exactly when the
    /// manager of each of these nodes accepts its commit.
    pub fn commit<NM: NodeManager, CM: ContactManager>(self, bundle: &Bundle, multigraph: &mut Multigraph<NM, CM>) -> (r:
        Result<Option<PathFragment>, ASABRError>)
        requires
            old(multigraph).wf(),
            old(multigraph).ni() + old(multigraph).ne() <= usize::MAX,
            bundle.wf(),
            committable(*old(multigraph), *bundle, self.path@),
        ensures
            final(multigraph).wf(),
            same_structure(*old(multigraph), *final(multigraph)),
            ({
                let p = self.path@;
                let n = p.len() as int;
                &&& r matches Ok(x) ==> x == (if n >= 2 {
                    Some(p[n - 2])
                } else {
                    None::<PathFragment>
                })
                &&& forall|x: RealNodeRef|
                    old(multigraph).valid_real(x) && !committed_node(p, n - 1, x)
                        ==> #[trigger] final(multigraph).spec_node(x).manager == old(multigraph).spec_node(x).manager
                &&& forall|c: int|
                    0 <= c < old(multigraph).nc() && !used_contact(p, n - 1, c)
                        ==> #[trigger] final(multigraph).contacts@[c].manager == old(multigraph).contacts@[c].manager
                &&& r is Ok ==> forall|k: int|
                    0 <= k < n - 1 ==> #[trigger] hop_booked(*old(multigraph), *final(multigraph), *bundle, p, k)
                &&& r is Ok && distinct_nodes(p, n - 1) ==> forall|k: int|
                    0 <= k < n - 1 ==> #[trigger] node_committed(*old(multigraph), *final(multigraph), *bundle, p, k)
                &&& distinct_nodes(p, n - 1) ==> (r is Ok <==> forall|k: int|
                    0 <= k < n - 1 ==> #[trigger] node_commit_ok(*old(multigraph), *bundle, p, k))
            }),
    {
        let path = self.path;
        let n = path.len();
        if n < 2 {
            return Ok(None);
        }
        let ghost g0 = *multigraph;
        let ghost p = path@;
        let empty: [(TimeInterval, NodeID); 0] = [];
        assert(empty@ =~= seq![]);
        let sender0 = match path[1].rx_node {
            RealNodeRef::I(i) => NodeID(i.index),
            RealNodeRef::E(_) => NodeID(0),
        };
        let first = commit_node(multigraph, path[0].rx_node, bundle, path[0].recv, sender0, &empty);
        proof {
            assert forall|x: RealNodeRef| g0.valid_real(x) && !committed_node(p, n - 1, x) implies #[trigger] multigraph.spec_node(
                x,
            ).manager == g0.spec_node(x).manager by {
                if x == p[0].rx_node {
                    assert(committed_node(p, n - 1, x));
                }
            }
        }
        proof {
            assert(p[1].rx_node is I);
            assert(sender0 == NodeID(p[1].rx_node->I_0.index));
            assert(empty@ == commit_transmissions(g0, p, 0));
        }
        if first.is_err() {
            proof {
                assert(!node_commit_ok(g0, *bundle, p, 0));
            }
            return Err(first.unwrap_err());
        }
        let mut k: usize = 1;
        while k < n
            invariant
                n == path@.len(),
                p == path@,
                p == self.path@,
                g0 == *old(multigraph),
                2 <= n,
                1 <= k <= n,
                committable(g0, *bundle, p),
                bundle.wf(),
                g0.ni() + g0.ne() <= usize::MAX,
                g0.wf(),
                multigraph.wf(),
                same_structure(g0, *multigraph),
                forall|x: RealNodeRef|
                    g0.valid_real(x) && !committed_node(p, if k < n { k as int } else { n - 1 }, x)
                        ==> #[trigger] multigraph.spec_node(x).manager == g0.spec_node(x).manager,
                forall|c: int|
                    0 <= c < g0.nc() && !used_contact(p, k - 1, c) ==> #[trigger] multigraph.contacts@[c].manager
                        == g0.contacts@[c].manager,
                forall|j: int| 0 <= j < k - 1 ==> #[trigger] hop_booked(g0, *multigraph, *bundle, p, j),
                distinct_nodes(p, n - 1) ==> forall|j: int|
                    0 <= j < (if k < n { k as int } else { n - 1 }) ==> #[trigger] node_committed(
                        g0,
                        *multigraph,
                        *bundle,
                        p,
                        j,
                    ),
                distinct_nodes(p, n - 1) ==> forall|j: int|
                    0 <= j < (if k < n { k as int } else { n - 1 }) ==> #[trigger] node_commit_ok(g0, *bundle, p, j),
            decreases n - k,
        {
            let last = path[k - 1];
            let ghost gk = *multigraph;
            proof {
                assert(p[k - 1].via is Some && hop_contact(p[k - 1]) < g0.nc());
                assert(!used_contact(p, k - 1, hop_contact(p[k - 1]))) by {
                    if used_contact(p, k - 1, hop_contact(p[k - 1])) {
                        let j = choose|j: int| 0 <= j < k - 1 && hop_contact(#[trigger] p[j]) == hop_contact(p[k - 1]);
                        assert(hop_contact(p[j]) != hop_contact(p[k - 1]));
                    }
                }
                let ct = g0.contacts@[hop_contact(p[k - 1])];
                assert(ct.manager.spec_schedule_fits(*bundle));
                assert(multigraph.contacts@[hop_contact(p[k - 1])].manager == g0.contacts@[hop_contact(p[k - 1])].manager);
            }
            book_hop(multigraph, &last, bundle, Ghost(g0));
            let ghost gb = *multigraph;
            proof {
                lemma_same_structure_trans(g0, gk, gb);
                let ck = hop_contact(p[k - 1]);
                assert forall|c: int| 0 <= c < g0.nc() && !used_contact(p, k as int, c) implies #[trigger] gb.contacts@[c].manager
                    == g0.contacts@[c].manager by {
                    if used_contact(p, k - 1, c) {
                        lemma_used_grows(p, k - 1, k as int, c);
                    }
                    if c == ck {
                        assert(0 <= k - 1 < k && hop_contact(p[k - 1]) == c);
                        assert(used_contact(p, k as int, c));
                    }
                }
                assert forall|j: int| 0 <= j < k implies #[trigger] hop_booked(g0, gb, *bundle, p, j) by {
                    if j < k - 1 {
                        assert(hop_booked(g0, gk, *bundle, p, j));
                        assert(hop_contact(p[j]) != ck);
                        assert(gb.contacts@[hop_contact(p[j])] == gk.contacts@[hop_contact(p[j])]);
                    }
                }
                assert forall|x: RealNodeRef| #[trigger] gb.spec_node(x) == gk.spec_node(x) by {}
                if distinct_nodes(p, n - 1) {
                    assert forall|j: int| 0 <= j < (if k < n { k as int } else { n - 1 }) implies #[trigger] node_committed(
                        g0,
                        gb,
                        *bundle,
                        p,
                        j,
                    ) by {
                        assert(node_committed(g0, gk, *bundle, p, j));
                        assert(gb.spec_node(p[j].rx_node) == gk.spec_node(p[j].rx_node));
                    }
                }
            }
            if k + 1 < n {
                let curr = path[k];
                let sender = match path[k + 1].rx_node {
                    RealNodeRef::I(i) => NodeID(i.index),
                    RealNodeRef::E(_) => NodeID(0),
                };
                let id = match last.rx_node {
                    RealNodeRef::I(i) => NodeID(i.index),
                    RealNodeRef::E(e) => NodeID(multigraph.internal_nodes.len() + e.index),
                };
                let send = match last.via {
                    Some(v) => v.send,
                    None => last.recv,
                };
                let trans: [(TimeInterval, NodeID); 1] = [(send, id)];
                proof {
                    assert(trans@ =~= commit_transmissions(g0, p, k as int));
                    assert(g0.valid_real(p[k as int].rx_node));
                }
                let res = commit_node(multigraph, curr.rx_node, bundle, curr.recv, sender, &trans);
                let ghost gc = *multigraph;
                proof {
                    lemma_same_structure_trans(g0, gb, gc);
                    let xk = p[k as int].rx_node;
                    assert forall|x: RealNodeRef| g0.valid_real(x) && !committed_node(p, k + 1, x) implies #[trigger] gc.spec_node(
                        x,
                    ).manager == g0.spec_node(x).manager by {
                        if committed_node(p, k as int, x) {
                            lemma_committed_grows(p, k as int, k + 1, x);
                        }
                        if x == xk {
                            assert(0 <= k < k + 1 && p[k as int].rx_node == x);
                        }
                    }
                    assert forall|c: int| 0 <= c < g0.nc() && !used_contact(p, k as int, c) implies #[trigger] gc.contacts@[c].manager
                        == g0.contacts@[c].manager by {
                        assert(gc.contacts@[c] == gb.contacts@[c]);
                    }
                    assert forall|j: int| 0 <= j < k implies #[trigger] hop_booked(g0, gc, *bundle, p, j) by {
                        assert(hop_booked(g0, gb, *bundle, p, j));
                        assert(gc.contacts@[hop_contact(p[j])] == gb.contacts@[hop_contact(p[j])]);
                    }
                    assert(p[k + 1].rx_node is I);
                    assert(sender == NodeID(p[k + 1].rx_node->I_0.index));
                    if distinct_nodes(p, n - 1) {
                        assert(!committed_node(p, k as int, xk)) by {
                            if committed_node(p, k as int, xk) {
                                let j = choose|j: int| 0 <= j < k && #[trigger] p[j].rx_node == xk;
                                assert(p[j].rx_node != p[k as int].rx_node);
                            }
                        }
                        assert(gb.spec_node(xk).manager == g0.spec_node(xk).manager);
                        assert(res is Ok <==> node_commit_ok(g0, *bundle, p, k as int));
                    }
                    if res is Ok && distinct_nodes(p, n - 1) {
                        assert(!committed_node(p, k as int, xk)) by {
                            if committed_node(p, k as int, xk) {
                                let j = choose|j: int| 0 <= j < k && #[trigger] p[j].rx_node == xk;
                                assert(p[j].rx_node != p[k as int].rx_node);
                            }
                        }
                        assert(gb.spec_node(xk).manager == g0.spec_node(xk).manager);
                        assert forall|j: int| 0 <= j < k + 1 implies #[trigger] node_committed(g0, gc, *bundle, p, j) by {
                            if j < k {
                                assert(node_committed(g0, gb, *bundle, p, j));
                                assert(p[j].rx_node != xk);
                                assert(gc.spec_node(p[j].rx_node).manager == gb.spec_node(p[j].rx_node).manager);
                            }
                        }
                    }
                }
                if res.is_err() {
                    proof {
                        assert forall|x: RealNodeRef| g0.valid_real(x) && !committed_node(p, n - 1, x) implies #[trigger] gc.spec_node(
                            x,
                        ).manager == g0.spec_node(x).manager by {
                            if committed_node(p, k + 1, x) {
                                lemma_committed_grows(p, k + 1, n - 1, x);
                            }
                        }
                        assert forall|c: int| 0 <= c < g0.nc() && !used_contact(p, n - 1, c) implies #[trigger] gc.contacts@[c].manager
                            == g0.contacts@[c].manager by {
                            if used_contact(p, k as int, c) {
                                lemma_used_grows(p, k as int, n - 1, c);
                            }
                        }
                        if distinct_nodes(p, n - 1) {
                            assert(!node_commit_ok(g0, *bundle, p, k as int));
                        }
                    }
                    return Err(res.unwrap_err());
                }
            }
            k = k + 1;
        }
        Ok(Some(path[n - 2]))
    }
}

} // verus!
