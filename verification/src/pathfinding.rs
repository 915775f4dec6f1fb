//! Pathfinding: building the tree of best paths from a source node through the multigraph.

use vstd::prelude::*;

use crate::contact_manager::{ContactManager, ContactManagerTxData};
use crate::multigraph::{real_index, ContactRef, Multigraph, RealNodeRef, RoutableNodeRef};
use crate::node_manager::NodeManager;
use crate::paths::{PathFragment, ViaHop};
use crate::types::{Bundle, Date, HopCount, NodeID, TimeInterval};

pub mod destination;
pub mod dijkstra;
pub mod limiting_contact;
pub mod contact_parenting;
pub mod hybrid_parenting;
pub mod node_parenting;
pub mod path_iterator;
pub mod validation;

verus! {

/// The hop chosen so far among the candidate contacts: the contact, when the bundle is received,
/// the receiving node, and when it is sent.
#[derive(Clone, Copy, Debug, PartialEq, Eq, Structural)]
pub struct HopChoice {
    /// The index of the contact used.
    pub contact: usize,
    /// When the bundle is received.
    pub recv: TimeInterval,
    /// The receiving node.
    pub receiver: RealNodeRef,
    /// When the bundle is sent.
    pub send: TimeInterval,
}

/// When the bundle can leave the current node: at once at the source, or after the delay the
/// current node's manager imposes.
pub open spec fn spec_send_time<NM: NodeManager, CM: ContactManager>(
    graph: Multigraph<NM, CM>,
    last: PathFragment,
    bundle: Bundle,
    current: int,
    previous: Option<usize>,
    neighbour: NodeID,
) -> Date {
    match previous {
        None => last.recv.end,
        Some(p) => graph.internal_nodes@[current].manager.spec_process_delay(
            bundle,
            last.recv,
            NodeID(p),
            neighbour,
        ),
    }
}

/// The scan of the candidate contacts from position `i`, with `best` chosen so far.
///
/// Suppressed contacts are ignored. The scan stops at the first contact that starts once the
/// best reception has ended, and at
/// the first contact whose transmission the current node refuses to wait for. A contact whose
/// dry run fails, that would deliver later than the best so far, or whose receiver refuses the
/// bundle is skipped; any other becomes the best.
pub open spec fn hop_scan<NM: NodeManager, CM: ContactManager>(
    graph: Multigraph<NM, CM>,
    cands: Seq<(RealNodeRef, usize)>,
    i: int,
    best: Option<HopChoice>,
    send_time: Date,
    bundle: Bundle,
    current: int,
    previous: Option<usize>,
    last: PathFragment,
    neighbour: NodeID,
) -> Option<HopChoice>
    decreases cands.len() - i,
{
    if i < 0 || i >= cands.len() {
        best
    } else {
        let rx = cands[i].0;
        let c = cands[i].1 as int;
        let ct = graph.contacts@[c];
        if ct.suppressed {
            hop_scan(graph, cands, i + 1, best, send_time, bundle, current, previous, last, neighbour)
        } else if best is Some && best->0.recv.end <= ct.lifespan.start {
            best
        } else {
            match ct.manager.spec_dry_run_tx(ct.lifespan, send_time, bundle) {
                None => hop_scan(graph, cands, i + 1, best, send_time, bundle, current, previous, last, neighbour),
                Some(tx) => {
                    if best is Some && best->0.recv.end < tx.rx_window.end {
                        hop_scan(graph, cands, i + 1, best, send_time, bundle, current, previous, last, neighbour)
                    } else if !graph.spec_node(rx).manager.spec_accept(
                        bundle,
                        tx.rx_window,
                        NodeID(current as usize),
                    ) {
                        hop_scan(graph, cands, i + 1, best, send_time, bundle, current, previous, last, neighbour)
                    } else if previous is Some && !graph.internal_nodes@[current].manager.spec_dry_run_retention(
                        bundle,
                        last.recv,
                        NodeID(previous->0),
                        tx.tx_window,
                        neighbour,
                    ) {
                        best
                    } else {
                        hop_scan(
                            graph,
                            cands,
                            i + 1,
                            Some(HopChoice { contact: c as usize, recv: tx.rx_window, receiver: rx, send: tx.tx_window }),
                            send_time,
                            bundle,
                            current,
                            previous,
                            last,
                            neighbour,
                        )
                    }
                },
            }
        }
    }
}

/// The `j`-th candidate can carry the bundle sent at `send_time`: its contact is not suppressed,
/// a dry run succeeds, its receiver accepts the bundle, and the current node agrees to hold the
/// bundle until the transmission.
pub open spec fn usable_candidate<NM: NodeManager, CM: ContactManager>(
    graph: Multigraph<NM, CM>,
    cands: Seq<(RealNodeRef, usize)>,
    j: int,
    send_time: Date,
    bundle: Bundle,
    current: int,
    previous: Option<usize>,
    last: PathFragment,
    neighbour: NodeID,
) -> bool {
    let ct = graph.contacts@[cands[j].1 as int];
    match ct.manager.spec_dry_run_tx(ct.lifespan, send_time, bundle) {
        None => false,
        Some(tx) => {
            &&& !ct.suppressed
            &&& graph.spec_node(cands[j].0).manager.spec_accept(bundle, tx.rx_window, NodeID(current as usize))
            &&& previous matches Some(p) ==> graph.internal_nodes@[current].manager.spec_dry_run_retention(
                bundle,
                last.recv,
                NodeID(p),
                tx.tx_window,
                neighbour,
            )
        },
    }
}

/// The `j`-th candidate would carry the bundle, but the current node refuses to hold the bundle
/// until its transmission.
pub open spec fn wait_refused<NM: NodeManager, CM: ContactManager>(
    graph: Multigraph<NM, CM>,
    cands: Seq<(RealNodeRef, usize)>,
    j: int,
    send_time: Date,
    bundle: Bundle,
    current: int,
    previous: Option<usize>,
    last: PathFragment,
    neighbour: NodeID,
) -> bool {
    let ct = graph.contacts@[cands[j].1 as int];
    match ct.manager.spec_dry_run_tx(ct.lifespan, send_time, bundle) {
        None => false,
        Some(tx) => {
            &&& !ct.suppressed
            &&& graph.spec_node(cands[j].0).manager.spec_accept(bundle, tx.rx_window, NodeID(current as usize))
            &&& previous matches Some(p) && !graph.internal_nodes@[current].manager.spec_dry_run_retention(
                bundle,
                last.recv,
                NodeID(p),
                tx.tx_window,
                neighbour,
            )
        },
    }
}

/// The hop over the `j`-th candidate, with the windows of its dry run at `send_time`.
pub open spec fn candidate_choice<NM: NodeManager, CM: ContactManager>(
    graph: Multigraph<NM, CM>,
    cands: Seq<(RealNodeRef, usize)>,
    j: int,
    send_time: Date,
    bundle: Bundle,
) -> HopChoice {
    let ct = graph.contacts@[cands[j].1 as int];
    let tx = match ct.manager.spec_dry_run_tx(ct.lifespan, send_time, bundle) {
        Some(tx) => tx,
        None => ContactManagerTxData {
            tx_window: TimeInterval { start: 0, end: 0 },
            rx_window: TimeInterval { start: 0, end: 0 },
        },
    };
    HopChoice { contact: cands[j].1, recv: tx.rx_window, receiver: cands[j].0, send: tx.tx_window }
}

proof fn lemma_hop_scan_from<NM: NodeManager, CM: ContactManager>(
    graph: Multigraph<NM, CM>,
    cands: Seq<(RealNodeRef, usize)>,
    i: int,
    best: Option<HopChoice>,
    send_time: Date,
    bundle: Bundle,
    current: int,
    previous: Option<usize>,
    last: PathFragment,
    neighbour: NodeID,
)
    requires
        0 <= i,
    ensures
        ({
            let r = hop_scan(graph, cands, i, best, send_time, bundle, current, previous, last, neighbour);
            ||| r == best
            ||| exists|j: int|
                #![trigger usable_candidate(graph, cands, j, send_time, bundle, current, previous, last, neighbour)]
                i <= j < cands.len() && usable_candidate(graph, cands, j, send_time, bundle, current, previous, last, neighbour)
                    && r == Some(candidate_choice(graph, cands, j, send_time, bundle)) && (best matches Some(b)
                    ==> candidate_choice(graph, cands, j, send_time, bundle).recv.end <= b.recv.end) && forall|k: int|
                    i <= k < j && #[trigger] usable_candidate(graph, cands, k, send_time, bundle, current, previous, last, neighbour)
                        ==> candidate_choice(graph, cands, k, send_time, bundle).recv.end >= candidate_choice(
                        graph,
                        cands,
                        j,
                        send_time,
                        bundle,
                    ).recv.end
        }),
    decreases cands.len() - i,
{
    if i < cands.len() {
        let ct = graph.contacts@[cands[i].1 as int];
        let ci = candidate_choice(graph, cands, i, send_time, bundle);
        let r = hop_scan(graph, cands, i, best, send_time, bundle, current, previous, last, neighbour);
        if ct.suppressed || !(best is Some && best->0.recv.end <= ct.lifespan.start) {
            let usable_i = usable_candidate(graph, cands, i, send_time, bundle, current, previous, last, neighbour);
            let takes_i = !ct.suppressed && match ct.manager.spec_dry_run_tx(ct.lifespan, send_time, bundle) {
                None => false,
                Some(tx) => !(best is Some && best->0.recv.end < tx.rx_window.end) && graph.spec_node(
                    cands[i].0,
                ).manager.spec_accept(bundle, tx.rx_window, NodeID(current as usize)),
            };
            if takes_i {
                if usable_i {
                    let nb = Some(ci);
                    lemma_hop_scan_from(graph, cands, i + 1, nb, send_time, bundle, current, previous, last, neighbour);
                    assert(r == hop_scan(graph, cands, i + 1, nb, send_time, bundle, current, previous, last, neighbour));
                    if r == nb {
                        assert(usable_candidate(graph, cands, i, send_time, bundle, current, previous, last, neighbour));
                    } else {
                        let j = choose|j: int|
                            #![trigger usable_candidate(graph, cands, j, send_time, bundle, current, previous, last, neighbour)]
                            i + 1 <= j < cands.len() && usable_candidate(graph, cands, j, send_time, bundle, current, previous, last, neighbour)
                                && r == Some(candidate_choice(graph, cands, j, send_time, bundle)) && (nb matches Some(b)
                                ==> candidate_choice(graph, cands, j, send_time, bundle).recv.end <= b.recv.end) && forall|k: int|
                                i + 1 <= k < j && #[trigger] usable_candidate(graph, cands, k, send_time, bundle, current, previous, last, neighbour)
                                    ==> candidate_choice(graph, cands, k, send_time, bundle).recv.end >= candidate_choice(
                                    graph,
                                    cands,
                                    j,
                                    send_time,
                                    bundle,
                                ).recv.end;
                        assert(usable_candidate(graph, cands, j, send_time, bundle, current, previous, last, neighbour));
                    }
                } else {
                    assert(r == best);
                }
            } else {
                lemma_hop_scan_from(graph, cands, i + 1, best, send_time, bundle, current, previous, last, neighbour);
                assert(r == hop_scan(graph, cands, i + 1, best, send_time, bundle, current, previous, last, neighbour));
                if r != best {
                    let j = choose|j: int|
                        #![trigger usable_candidate(graph, cands, j, send_time, bundle, current, previous, last, neighbour)]
                        i + 1 <= j < cands.len() && usable_candidate(graph, cands, j, send_time, bundle, current, previous, last, neighbour)
                            && r == Some(candidate_choice(graph, cands, j, send_time, bundle)) && (best matches Some(b)
                            ==> candidate_choice(graph, cands, j, send_time, bundle).recv.end <= b.recv.end) && forall|k: int|
                            i + 1 <= k < j && #[trigger] usable_candidate(graph, cands, k, send_time, bundle, current, previous, last, neighbour)
                                ==> candidate_choice(graph, cands, k, send_time, bundle).recv.end >= candidate_choice(
                                graph,
                                cands,
                                j,
                                send_time,
                                bundle,
                            ).recv.end;
                    assert(usable_candidate(graph, cands, j, send_time, bundle, current, previous, last, neighbour));
                }
            }
        }
    }
}

proof fn lemma_hop_scan_none<NM: NodeManager, CM: ContactManager>(
    graph: Multigraph<NM, CM>,
    cands: Seq<(RealNodeRef, usize)>,
    i: int,
    send_time: Date,
    bundle: Bundle,
    current: int,
    previous: Option<usize>,
    last: PathFragment,
    neighbour: NodeID,
)
    requires
        0 <= i,
        hop_scan(graph, cands, i, None, send_time, bundle, current, previous, last, neighbour) is None,
    ensures
        forall|j: int|
            i <= j < cands.len() && #[trigger] usable_candidate(graph, cands, j, send_time, bundle, current, previous, last, neighbour)
                ==> exists|k: int|
                i <= k < j && #[trigger] wait_refused(graph, cands, k, send_time, bundle, current, previous, last, neighbour),
    decreases cands.len() - i,
{
    if i < cands.len() {
        lemma_hop_scan_from(
            graph,
            cands,
            i + 1,
            Some(candidate_choice(graph, cands, i, send_time, bundle)),
            send_time,
            bundle,
            current,
            previous,
            last,
            neighbour,
        );
        let ct = graph.contacts@[cands[i].1 as int];
        if hop_scan(graph, cands, i + 1, None, send_time, bundle, current, previous, last, neighbour) is None {
            lemma_hop_scan_none(graph, cands, i + 1, send_time, bundle, current, previous, last, neighbour);
        }
        assert forall|j: int|
            i <= j < cands.len() && #[trigger] usable_candidate(graph, cands, j, send_time, bundle, current, previous, last, neighbour)
                implies exists|k: int|
                i <= k < j && #[trigger] wait_refused(graph, cands, k, send_time, bundle, current, previous, last, neighbour) by {
            if wait_refused(graph, cands, i, send_time, bundle, current, previous, last, neighbour) {
                if j == i {
                    assert(false);
                }
            } else {
                assert(!usable_candidate(graph, cands, i, send_time, bundle, current, previous, last, neighbour));
                assert(j != i);
            }
        }
    }
}

/// The hop that a scan of the candidates chooses is over a candidate that can carry the bundle,
/// and no such candidate listed before it delivers the bundle earlier. No hop is chosen only if
/// every candidate that can carry the bundle comes after one that would carry it but whose
/// transmission the current node refuses to wait for.
pub proof fn lemma_hop_scan_earliest<NM: NodeManager, CM: ContactManager>(
    graph: Multigraph<NM, CM>,
    cands: Seq<(RealNodeRef, usize)>,
    send_time: Date,
    bundle: Bundle,
    current: int,
    previous: Option<usize>,
    last: PathFragment,
    neighbour: NodeID,
)
    ensures
        hop_scan(graph, cands, 0, None, send_time, bundle, current, previous, last, neighbour) matches Some(h) ==> exists|j: int|
            #![trigger usable_candidate(graph, cands, j, send_time, bundle, current, previous, last, neighbour)]
            0 <= j < cands.len() && usable_candidate(graph, cands, j, send_time, bundle, current, previous, last, neighbour)
                && h == candidate_choice(graph, cands, j, send_time, bundle) && forall|k: int|
                0 <= k < j && #[trigger] usable_candidate(graph, cands, k, send_time, bundle, current, previous, last, neighbour)
                    ==> candidate_choice(graph, cands, k, send_time, bundle).recv.end >= h.recv.end,
        hop_scan(graph, cands, 0, None, send_time, bundle, current, previous, last, neighbour) is None ==> forall|j: int|
            0 <= j < cands.len() && #[trigger] usable_candidate(graph, cands, j, send_time, bundle, current, previous, last, neighbour)
                ==> exists|k: int|
                0 <= k < j && #[trigger] wait_refused(graph, cands, k, send_time, bundle, current, previous, last, neighbour),
{
    lemma_hop_scan_from(graph, cands, 0, None, send_time, bundle, current, previous, last, neighbour);
    if hop_scan(graph, cands, 0, None, send_time, bundle, current, previous, last, neighbour) is None {
        lemma_hop_scan_none(graph, cands, 0, send_time, bundle, current, previous, last, neighbour);
    }
}

/// The hop count after one more hop; it wraps around at the largest count.
pub open spec fn next_hop_count(h: HopCount) -> HopCount {
    if h == u16::MAX {
        0
    } else {
        (h + 1) as u16
    }
}

/// The fragment that extends `last` (at position `last_ref` of the path tree) by the hop `h`.
pub open spec fn extend_fragment<NM: NodeManager, CM: ContactManager>(
    graph: Multigraph<NM, CM>,
    last: PathFragment,
    last_ref: usize,
    h: HopChoice,
) -> PathFragment {
    let end = graph.contacts@[h.contact as int].lifespan.end;
    PathFragment {
        via: Some(ViaHop { contact: ContactRef { index: h.contact }, parent_frag: last_ref, send: h.send }),
        hop_count: next_hop_count(last.hop_count),
        recv: h.recv,
        rx_node: h.receiver,
        expiration: if last.expiration <= end { last.expiration } else { end },
    }
}

/// The candidates are contacts of the graph from the internal node `current` towards the real
/// nodes named with them.
pub open spec fn candidates_ok<NM: NodeManager, CM: ContactManager>(
    graph: Multigraph<NM, CM>,
    cands: Seq<(RealNodeRef, usize)>,
    current: int,
) -> bool {
    forall|i: int|
        0 <= i < cands.len() ==> {
            &&& (#[trigger] cands[i]).1 < graph.nc()
            &&& graph.valid_real(cands[i].0)
            &&& graph.contact_ends@[cands[i].1 as int].0 == current
            &&& graph.contact_ends@[cands[i].1 as int].1 == real_index(cands[i].0, graph.ni())
        }
}

/// A hop over contact `c`, from the internal node `sender`, that a dry run at `send_time`
/// allows and that its receiver accepts.
pub open spec fn choice_sound<NM: NodeManager, CM: ContactManager>(
    graph: Multigraph<NM, CM>,
    bundle: Bundle,
    h: HopChoice,
    send_time: Date,
    sender: int,
) -> bool {
    let c = h.contact as int;
    &&& 0 <= c < graph.nc()
    &&& graph.valid_real(h.receiver)
    &&& graph.contact_ends@[c].0 == sender
    &&& graph.contact_ends@[c].1 == real_index(h.receiver, graph.ni())
    &&& graph.contacts@[c].manager.spec_dry_run_tx(graph.contacts@[c].lifespan, send_time, bundle) == Some(
        ContactManagerTxData { tx_window: h.send, rx_window: h.recv },
    )
    &&& graph.spec_node(h.receiver).manager.spec_accept(bundle, h.recv, NodeID(sender as usize))
}

/// A fragment that ends with a hop: the hop's contact exists, goes to the fragment's node, can
/// carry the bundle with the fragment's windows, and its receiver accepts the bundle.
pub open spec fn hop_sound<NM: NodeManager, CM: ContactManager>(
    graph: Multigraph<NM, CM>,
    bundle: Bundle,
    f: PathFragment,
) -> bool {
    match f.via {
        None => false,
        Some(v) => {
            let c = v.contact.index as int;
            &&& 0 <= c < graph.nc()
            &&& graph.valid_real(f.rx_node)
            &&& graph.contact_ends@[c].1 == real_index(f.rx_node, graph.ni())
            &&& exists|t: Date|
                graph.contacts@[c].manager.spec_dry_run_tx(graph.contacts@[c].lifespan, t, bundle) == Some(
                    ContactManagerTxData { tx_window: v.send, rx_window: f.recv },
                )
            &&& graph.spec_node(f.rx_node).manager.spec_accept(
                bundle,
                f.recv,
                NodeID(graph.contact_ends@[c].0),
            )
        },
    }
}

/// Every choice the scan makes is sound.
pub proof fn lemma_hop_scan_sound<NM: NodeManager, CM: ContactManager>(
    graph: Multigraph<NM, CM>,
    cands: Seq<(RealNodeRef, usize)>,
    i: int,
    best: Option<HopChoice>,
    send_time: Date,
    bundle: Bundle,
    current: int,
    previous: Option<usize>,
    last: PathFragment,
    neighbour: NodeID,
)
    requires
        0 <= i,
        candidates_ok(graph, cands, current),
        best matches Some(b) ==> choice_sound(graph, bundle, b, send_time, current),
    ensures
        hop_scan(graph, cands, i, best, send_time, bundle, current, previous, last, neighbour) matches Some(h)
            ==> choice_sound(graph, bundle, h, send_time, current),
    decreases cands.len() - i,
{
    if i < cands.len() {
        let rx = cands[i].0;
        let c = cands[i].1 as int;
        let ct = graph.contacts@[c];
        match ct.manager.spec_dry_run_tx(ct.lifespan, send_time, bundle) {
            None => {
                lemma_hop_scan_sound(graph, cands, i + 1, best, send_time, bundle, current, previous, last, neighbour);
            },
            Some(tx) => {
                let h = HopChoice { contact: c as usize, recv: tx.rx_window, receiver: rx, send: tx.tx_window };
                lemma_hop_scan_sound(graph, cands, i + 1, best, send_time, bundle, current, previous, last, neighbour);
                if graph.spec_node(rx).manager.spec_accept(bundle, tx.rx_window, NodeID(current as usize)) {
                    assert(candidates_ok(graph, cands, current) ==> cands[i].1 < graph.nc());
                    assert(graph.valid_real(cands[i].0));
                    lemma_hop_scan_sound(graph, cands, i + 1, Some(h), send_time, bundle, current, previous, last, neighbour);
                }
            },
        }
    }
}

/// The choice `h` uses a contact that is not suppressed, towards one of the candidates.
pub open spec fn usable_choice<NM: NodeManager, CM: ContactManager>(
    graph: Multigraph<NM, CM>,
    cands: Seq<(RealNodeRef, usize)>,
    h: HopChoice,
) -> bool {
    &&& !graph.contacts@[h.contact as int].suppressed
    &&& exists|j: int| 0 <= j < cands.len() && #[trigger] cands[j].0 == h.receiver
}

/// The scan only chooses contacts that are not suppressed, towards one of the candidates.
pub proof fn lemma_hop_scan_usable<NM: NodeManager, CM: ContactManager>(
    graph: Multigraph<NM, CM>,
    cands: Seq<(RealNodeRef, usize)>,
    i: int,
    best: Option<HopChoice>,
    send_time: Date,
    bundle: Bundle,
    current: int,
    previous: Option<usize>,
    last: PathFragment,
    neighbour: NodeID,
)
    requires
        0 <= i,
        best matches Some(b) ==> usable_choice(graph, cands, b),
    ensures
        hop_scan(graph, cands, i, best, send_time, bundle, current, previous, last, neighbour) matches Some(h)
            ==> usable_choice(graph, cands, h),
    decreases cands.len() - i,
{
    if i < cands.len() {
        let c = cands[i].1 as int;
        let ct = graph.contacts@[c];
        match ct.manager.spec_dry_run_tx(ct.lifespan, send_time, bundle) {
            None => {
                lemma_hop_scan_usable(graph, cands, i + 1, best, send_time, bundle, current, previous, last, neighbour);
            },
            Some(tx) => {
                let h = HopChoice { contact: c as usize, recv: tx.rx_window, receiver: cands[i].0, send: tx.tx_window };
                lemma_hop_scan_usable(graph, cands, i + 1, best, send_time, bundle, current, previous, last, neighbour);
                if !ct.suppressed {
                    assert(cands[i].0 == h.receiver);
                    lemma_hop_scan_usable(graph, cands, i + 1, Some(h), send_time, bundle, current, previous, last, neighbour);
                }
            },
        }
    }
}

/// A hop that `made_hop` gives uses a contact that is not suppressed, towards one of the
/// candidates.
pub proof fn lemma_made_hop_usable<NM: NodeManager, CM: ContactManager>(
    graph: Multigraph<NM, CM>,
    bundle: Bundle,
    last: PathFragment,
    last_ref: usize,
    current: int,
    cands: Seq<(RealNodeRef, usize)>,
    previous: Option<usize>,
    neighbour: NodeID,
)
    ensures
        made_hop(graph, bundle, last, last_ref, current, cands, previous, neighbour) matches Some(f) ==> {
            &&& f.via matches Some(v) && !graph.contacts@[v.contact.index as int].suppressed
            &&& exists|j: int| 0 <= j < cands.len() && #[trigger] cands[j].0 == f.rx_node
        },
{
    let send_time = spec_send_time(graph, last, bundle, current, previous, neighbour);
    lemma_hop_scan_usable(graph, cands, 0, None, send_time, bundle, current, previous, last, neighbour);
}

/// Every candidate goes to `rx`.
pub open spec fn all_to(cands: Seq<(RealNodeRef, usize)>, rx: RealNodeRef) -> bool {
    forall|j: int| 0 <= j < cands.len() ==> (#[trigger] cands[j]).0 == rx
}

/// When every candidate goes to `rx`, so does the choice of the scan.
pub proof fn lemma_hop_scan_receiver<NM: NodeManager, CM: ContactManager>(
    graph: Multigraph<NM, CM>,
    cands: Seq<(RealNodeRef, usize)>,
    i: int,
    best: Option<HopChoice>,
    send_time: Date,
    bundle: Bundle,
    current: int,
    previous: Option<usize>,
    last: PathFragment,
    neighbour: NodeID,
    rx: RealNodeRef,
)
    requires
        0 <= i,
        forall|j: int| 0 <= j < cands.len() ==> (#[trigger] cands[j]).0 == rx,
        best matches Some(b) ==> b.receiver == rx,
    ensures
        hop_scan(graph, cands, i, best, send_time, bundle, current, previous, last, neighbour) matches Some(h)
            ==> h.receiver == rx,
    decreases cands.len() - i,
{
    if i < cands.len() {
        let c = cands[i].1 as int;
        let ct = graph.contacts@[c];
        assert(cands[i].0 == rx);
        match ct.manager.spec_dry_run_tx(ct.lifespan, send_time, bundle) {
            None => {
                lemma_hop_scan_receiver(graph, cands, i + 1, best, send_time, bundle, current, previous, last, neighbour, rx);
            },
            Some(tx) => {
                let h = HopChoice { contact: c as usize, recv: tx.rx_window, receiver: cands[i].0, send: tx.tx_window };
                lemma_hop_scan_receiver(graph, cands, i + 1, best, send_time, bundle, current, previous, last, neighbour, rx);
                lemma_hop_scan_receiver(graph, cands, i + 1, Some(h), send_time, bundle, current, previous, last, neighbour, rx);
            },
        }
    }
}

/// The fragment that extends the path `last` (at position `last_ref` of the path tree), which
/// ends at the internal node `current`, by the first contact that the scan of the candidates
/// towards `neighbour` chooses, if it chooses one.
pub open spec fn made_hop<NM: NodeManager, CM: ContactManager>(
    graph: Multigraph<NM, CM>,
    bundle: Bundle,
    last: PathFragment,
    last_ref: usize,
    current: int,
    cands: Seq<(RealNodeRef, usize)>,
    previous: Option<usize>,
    neighbour: NodeID,
) -> Option<PathFragment> {
    let send_time = spec_send_time(graph, last, bundle, current, previous, neighbour);
    match hop_scan(graph, cands, 0, None, send_time, bundle, current, previous, last, neighbour) {
        None => None,
        Some(h) => Some(extend_fragment(graph, last, last_ref, h)),
    }
}

/// Tries to extend the path `last` (at position `last_ref` of the path tree), which ends at the
/// internal node `current`, by one of the candidate contacts towards `neighbour`.
///
/// The candidates are scanned in order, as `hop_scan` states; the chosen contact, if any, gives
/// the new fragment, whose expiration is the earlier of the path's and the contact's end.
pub fn try_make_hop<NM: NodeManager, CM: ContactManager>(
    graph: &Multigraph<NM, CM>,
    last: &PathFragment,
    last_ref: usize,
    bundle: &Bundle,
    current: usize,
    cands: &Vec<(RealNodeRef, usize)>,
    previous: Option<usize>,
    neighbour: NodeID,
) -> (r: Option<PathFragment>)
    requires
        graph.wf(),
        bundle.wf(),
        current < graph.ni(),
        candidates_ok(*graph, cands@, current as int),
    ensures
        r matches Some(f) ==> hop_sound(*graph, *bundle, f),
        forall|rx: RealNodeRef| #[trigger] all_to(cands@, rx) ==> (r matches Some(f) ==> f.rx_node == rx),
        r == made_hop(*graph, *bundle, *last, last_ref, current as int, cands@, previous, neighbour),
{
    let send_time = match previous {
        None => last.recv.end,
        Some(p) => graph.internal_nodes[current].manager.process_delay(bundle, last.recv, NodeID(p), neighbour),
    };
    let ghost scan = hop_scan(*graph, cands@, 0, None, send_time, *bundle, current as int, previous, *last, neighbour);
    let mut best: Option<HopChoice> = None;
    let mut i: usize = 0;
    while i < cands.len()
        invariant
            graph.wf(),
            bundle.wf(),
            current < graph.ni(),
            candidates_ok(*graph, cands@, current as int),
            i <= cands@.len(),
            hop_scan(*graph, cands@, i as int, best, send_time, *bundle, current as int, previous, *last, neighbour)
                == scan,
            best matches Some(b) ==> b.contact < graph.nc(),
        ensures
            best == scan,
            best matches Some(b) ==> b.contact < graph.nc(),
        decreases cands@.len() - i,
    {
        let (rx, c) = cands[i];
        assert(cands@[i as int].1 < graph.nc() && graph.valid_real(cands@[i as int].0));
        let ct = &graph.contacts[c];
        if ct.suppressed {
            i = i + 1;
            continue;
        }
        if let Some(b) = best {
            if b.recv.end <= ct.lifespan.start {
                break;
            }
        }
        match ct.dry_run_tx(send_time, bundle) {
            None => {},
            Some(tx) => {
                let later = match best {
                    Some(b) => b.recv.end < tx.rx_window.end,
                    None => false,
                };
                if !later {
                    let receiver = graph.node(rx);
                    if receiver.manager.accept(bundle, tx.rx_window, NodeID(current)) {
                        let refused = match previous {
                            Some(p) => !graph.internal_nodes[current].manager.dry_run_retention(
                                bundle,
                                last.recv,
                                NodeID(p),
                                tx.tx_window,
                                neighbour,
                            ),
                            None => false,
                        };
                        if refused {
                            break;
                        }
                        best = Some(HopChoice { contact: c, recv: tx.rx_window, receiver: rx, send: tx.tx_window });
                    }
                }
            },
        }
        i = i + 1;
    }
    proof {
        lemma_hop_scan_sound(*graph, cands@, 0, None, send_time, *bundle, current as int, previous, *last, neighbour);
        assert forall|rx: RealNodeRef| #[trigger] all_to(cands@, rx) implies (scan matches Some(h) ==> h.receiver
            == rx) by {
            lemma_hop_scan_receiver(*graph, cands@, 0, None, send_time, *bundle, current as int, previous, *last, neighbour, rx);
        }
    }
    match best {
        None => None,
        Some(h) => {
            let end = graph.contacts[h.contact].lifespan.end;
            proof {
                let c = h.contact as int;
                assert(graph.contacts@[c].manager.spec_dry_run_tx(graph.contacts@[c].lifespan, send_time, *bundle)
                    == Some(ContactManagerTxData { tx_window: h.send, rx_window: h.recv }));
            }
            let expiration = if last.expiration <= end {
                last.expiration
            } else {
                end
            };
            Some(
                PathFragment {
                    via: Some(ViaHop { contact: ContactRef { index: h.contact }, parent_frag: last_ref, send: h.send }),
                    hop_count: last.hop_count.wrapping_add(1),
                    recv: h.recv,
                    rx_node: h.receiver,
                    expiration,
                },
            )
        },
    }
}


/// The result of a pathfinding: a tree of paths, where position `i` holds the end of the path to
/// the node the pathfinder stores at `i`, or `None` when it found no path there. Each fragment's
/// hop names the position of the fragment it extends.
#[derive(Debug)]
pub struct PathFindingOutput {
    /// The path tree.
    pub path_tree: Vec<Option<PathFragment>>,
}

/// How many entries of `s` equal `v`.
pub open spec fn count_of(s: Seq<bool>, v: bool) -> nat
    decreases s.len(),
{
    if s.len() == 0 {
        0
    } else {
        count_of(s.drop_last(), v) + if s.last() == v {
            1nat
        } else {
            0nat
        }
    }
}

/// No more entries than the sequence has equal `v`.
pub proof fn lemma_count_bound(s: Seq<bool>, v: bool)
    ensures
        count_of(s, v) <= s.len(),
    decreases s.len(),
{
    if s.len() > 0 {
        lemma_count_bound(s.drop_last(), v);
    }
}

/// Setting an entry that differs from `v` to `v` adds one to the count of `v` and removes one
/// from the count of the other value.
pub proof fn lemma_count_update(s: Seq<bool>, i: int, v: bool)
    requires
        0 <= i < s.len(),
        s[i] != v,
    ensures
        count_of(s.update(i, v), v) == count_of(s, v) + 1,
        count_of(s.update(i, v), !v) + 1 == count_of(s, !v),
    decreases s.len(),
{
    let t = s.update(i, v);
    if i == s.len() - 1 {
        assert(t.drop_last() == s.drop_last());
    } else {
        assert(t.drop_last() == s.drop_last().update(i, v));
        lemma_count_update(s.drop_last(), i, v);
    }
}

/// The fragment is the start of the search at `source` and `time`, or ends with a sound hop.
pub open spec fn fragment_sound<NM: NodeManager, CM: ContactManager>(
    graph: Multigraph<NM, CM>,
    bundle: Bundle,
    time: Date,
    source: usize,
    f: PathFragment,
) -> bool {
    match f.via {
        None => f == PathFragment {
            via: None,
            hop_count: 0,
            recv: TimeInterval { start: time, end: time },
            rx_node: RealNodeRef::I(crate::multigraph::INodeRef { index: source }),
            expiration: i64::MAX,
        },
        Some(_) => hop_sound(graph, bundle, f) && hop_usable(graph, f),
    }
}

/// A fragment that ends with a hop uses a contact that is not suppressed, and reaches a node
/// that is not excluded.
pub open spec fn hop_usable<NM: NodeManager, CM: ContactManager>(graph: Multigraph<NM, CM>, f: PathFragment) -> bool {
    &&& f.via matches Some(v) && !graph.contacts@[v.contact.index as int].suppressed
    &&& !graph.spec_node(f.rx_node).info.excluded
}


/// Every hop of the tree names a position of the tree that holds a path.
pub open spec fn parents_linked(tree: Seq<Option<PathFragment>>) -> bool {
    forall|i: int|
        0 <= i < tree.len() ==> (#[trigger] tree[i] matches Some(f) ==> (f.via matches Some(v) ==> v.parent_frag
            < tree.len() && tree[v.parent_frag as int] is Some))
}

/// Every hop of the tree names a position of the tree.
pub open spec fn parents_in_range(tree: Seq<Option<PathFragment>>) -> bool {
    forall|i: int|
        0 <= i < tree.len() ==> (#[trigger] tree[i] matches Some(f) ==> (f.via matches Some(v)
            ==> v.parent_frag < tree.len()))
}

/// The path ending at position `i`, from its end back to its start, following at most `fuel`
/// fragments; `None` when a fragment is missing or the fuel runs out.
pub open spec fn path_back(tree: Seq<Option<PathFragment>>, i: int, fuel: nat) -> Option<Seq<PathFragment>>
    decreases fuel,
{
    if fuel == 0 {
        None
    } else {
        match tree[i] {
            None => None,
            Some(f) => match f.via {
                None => Some(seq![f]),
                Some(v) => match path_back(tree, v.parent_frag as int, (fuel - 1) as nat) {
                    None => None,
                    Some(rest) => Some(seq![f] + rest),
                },
            },
        }
    }
}

impl PathFindingOutput {
    /// The path to `destination`, from its end back to its start. A path longer than the tree,
    /// which only a cycle of hops can give, is not followed to its end and gives `None`.
    pub fn full_path_rev<NM: NodeManager, CM: ContactManager>(
        &self,
        destination: RoutableNodeRef,
        graph: &Multigraph<NM, CM>,
    ) -> (r: Option<Vec<PathFragment>>)
        requires
            graph.valid_routable(destination),
            graph.ni() + graph.nv() <= usize::MAX,
            graph.spec_routable_index(destination) < self.path_tree@.len(),
            parents_in_range(self.path_tree@),
        ensures
            r matches Some(v) ==> path_back(self.path_tree@, graph.spec_routable_index(destination), (self.path_tree@.len() + 1) as nat) == Some(v@),
            r is None ==> path_back(self.path_tree@, graph.spec_routable_index(destination), (self.path_tree@.len() + 1) as nat) is None,
    {
        let tree = &self.path_tree;
        let ghost idx = graph.spec_routable_index(destination);
        let ghost fuel0 = (tree@.len() + 1) as nat;
        let mut cur = graph.routable_to_usize(destination);
        let mut acc: Vec<PathFragment> = Vec::new();
        let mut left: usize = tree.len();
        loop
            invariant
                parents_in_range(tree@),
                cur < tree@.len(),
                left <= tree@.len(),
                fuel0 == tree@.len() + 1,
                idx == graph.spec_routable_index(destination),
                tree@ == self.path_tree@,
                ({
                    let whole = path_back(tree@, idx, fuel0);
                    let rest = path_back(tree@, cur as int, (left + 1) as nat);
                    whole == match rest {
                        None => None::<Seq<PathFragment>>,
                        Some(s) => Some(acc@ + s),
                    }
                }),
            decreases left,
        {
            let ghost fu = (left + 1) as nat;
            let f = match tree[cur] {
                None => {
                    proof {
                        assert(path_back(tree@, cur as int, fu) is None);
                    }
                    return None;
                },
                Some(f) => f,
            };
            let ghost old_acc = acc@;
            acc.push(f);
            match f.via {
                None => {
                    proof {
                        assert(path_back(tree@, cur as int, fu) == Some(seq![f]));
                        assert(acc@ =~= old_acc + seq![f]);
                    }
                    return Some(acc);
                },
                Some(v) => {
                    proof {
                        assert(tree@[cur as int] matches Some(g) ==> (g.via matches Some(w) ==> w.parent_frag < tree@.len()));
                        assert forall|t: Seq<PathFragment>| #[trigger] (old_acc + (seq![f] + t)) == acc@ + t by {
                            assert((old_acc + (seq![f] + t)) =~= acc@ + t);
                        }
                    }
                    if left == 0 {
                        proof {
                            assert(path_back(tree@, v.parent_frag as int, 0) is None);
                        }
                        return None;
                    }
                    left = left - 1;
                    cur = v.parent_frag;
                },
            }
        }
    }

    /// The output as an owned tree.
    pub fn into_owned(self) -> (r: Self)
        ensures
            r.path_tree@ == self.path_tree@,
    {
        self
    }

    /// The path tree itself.
    pub fn as_vec(self) -> (r: Vec<Option<PathFragment>>)
        ensures
            r@ == self.path_tree@,
    {
        self.path_tree
    }

    /// A copy of the output.
    pub fn duplicate(&self) -> (r: Self)
        ensures
            r.path_tree@ == self.path_tree@,
    {
        let mut tree: Vec<Option<PathFragment>> = Vec::new();
        let mut i: usize = 0;
        while i < self.path_tree.len()
            invariant
                i <= self.path_tree@.len(),
                tree@ == self.path_tree@.take(i as int),
            decreases self.path_tree@.len() - i,
        {
            tree.push(self.path_tree[i]);
            assert(self.path_tree@.take(i + 1) == self.path_tree@.take(i as int).push(self.path_tree@[i as int]));
            i = i + 1;
        }
        assert(self.path_tree@.take(self.path_tree@.len() as int) == self.path_tree@);
        PathFindingOutput { path_tree: tree }
    }

    /// The path to `destination`, from its start to its end, if the output holds one.
    pub fn get_full_path<NM: NodeManager, CM: ContactManager>(
        &self,
        destination: RoutableNodeRef,
        graph: &Multigraph<NM, CM>,
    ) -> (r: Option<Vec<PathFragment>>)
        requires
            graph.valid_routable(destination),
            graph.ni() + graph.nv() <= usize::MAX,
            graph.spec_routable_index(destination) < self.path_tree@.len(),
            parents_in_range(self.path_tree@),
        ensures
            r matches Some(v) ==> path_back(self.path_tree@, graph.spec_routable_index(destination), (self.path_tree@.len() + 1) as nat) == Some(v@.reverse()),
            r is None ==> path_back(self.path_tree@, graph.spec_routable_index(destination), (self.path_tree@.len() + 1) as nat) is None,
    {
        match self.full_path_rev(destination, graph) {
            None => None,
            Some(back) => {
                let fwd = crate::multigraph::construct::reverse_vec(back);
                proof {
                    assert(fwd@.reverse() =~= back@);
                }
                Some(fwd)
            },
        }
    }
}

} // verus!
