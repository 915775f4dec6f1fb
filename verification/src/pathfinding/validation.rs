//! Checking a stored path again for a new bundle, and timing its hops again on the way.

use vstd::prelude::*;

use crate::contact_manager::ContactManager;
use crate::multigraph::{real_index, Multigraph, NodeRef, RealNodeRef, RoutableNodeRef};
use crate::node_manager::NodeManager;
use crate::pathfinding::PathFindingOutput;
use crate::paths::{PathFragment, ViaHop};
use crate::types::{Bundle, Date, NodeID, TimeInterval};

verus! {

/// The positions of the path ending at position `i`, from its end back to its start, following
/// at most `fuel` fragments; `None` when a position is outside the tree or empty, or when the
/// fuel runs out.
pub open spec fn chain_back(tree: Seq<Option<PathFragment>>, i: int, fuel: nat) -> Option<Seq<usize>>
    decreases fuel,
{
    if fuel == 0 || i < 0 || i >= tree.len() {
        None
    } else {
        match tree[i] {
            None => None,
            Some(f) => match f.via {
                None => Some(seq![i as usize]),
                Some(v) => match chain_back(tree, v.parent_frag as int, (fuel - 1) as nat) {
                    None => None,
                    Some(rest) => Some(seq![i as usize] + rest),
                },
            },
        }
    }
}

/// The fragments held at the given positions.
pub open spec fn chain_frags(tree: Seq<Option<PathFragment>>, idx: Seq<usize>) -> Seq<PathFragment> {
    Seq::new(idx.len(), |k: int| tree[idx[k] as int]->0)
}

/// The fragment names a real node of the graph, and its hop, if any, a contact of it.
pub open spec fn frag_fits<NM: NodeManager, CM: ContactManager>(graph: Multigraph<NM, CM>, f: PathFragment) -> bool {
    &&& graph.valid_real(f.rx_node)
    &&& (f.via matches Some(v) ==> v.contact.index < graph.nc())
}

/// When the bundle leaves the node of position `j - 1` of the path (start first) for the hop
/// of position `j`: at `time` from the start of the path, else after the delay that the
/// node's manager imposes.
pub open spec fn leave_time<NM: NodeManager, CM: ContactManager>(
    graph: Multigraph<NM, CM>,
    bundle: Bundle,
    time: Date,
    acc: Seq<PathFragment>,
    j: int,
) -> Date {
    if j == 1 {
        time
    } else {
        let fst = acc[j - 1];
        graph.spec_node(fst.rx_node).manager.spec_process_delay(
            bundle,
            fst.recv,
            NodeID(real_index(acc[j - 2].rx_node, graph.ni()) as usize),
            NodeID(real_index(acc[j].rx_node, graph.ni()) as usize),
        )
    }
}

/// The hop of position `j` timed again after the ones before it, and whether its contact can
/// still carry the bundle.
pub open spec fn retime_step<NM: NodeManager, CM: ContactManager>(
    graph: Multigraph<NM, CM>,
    bundle: Bundle,
    time: Date,
    acc: Seq<PathFragment>,
    j: int,
) -> (Seq<PathFragment>, bool) {
    let snd = acc[j];
    if !frag_fits(graph, snd) {
        (acc, false)
    } else {
        match snd.via {
            None => (acc, false),
            Some(v) => {
                let c = graph.contacts@[v.contact.index as int];
                match c.manager.spec_dry_run_tx(c.lifespan, leave_time(graph, bundle, time, acc, j), bundle) {
                    None => (acc, false),
                    Some(tx) => (
                        acc.update(
                            j,
                            PathFragment {
                                via: Some(ViaHop { contact: v.contact, parent_frag: v.parent_frag, send: tx.tx_window }),
                                hop_count: snd.hop_count,
                                recv: tx.rx_window,
                                rx_node: snd.rx_node,
                                expiration: snd.expiration,
                            },
                        ),
                        true,
                    ),
                }
            },
        }
    }
}

/// The fragments of a path (start first) timed again up to position `j`, and whether every
/// hop up to there can still carry the bundle; the first hop that cannot stops the timing.
/// The start is received at `time`.
pub open spec fn retime<NM: NodeManager, CM: ContactManager>(
    graph: Multigraph<NM, CM>,
    bundle: Bundle,
    time: Date,
    frags: Seq<PathFragment>,
    j: nat,
) -> (Seq<PathFragment>, bool)
    decreases j,
{
    if j == 0 {
        let f = frags[0];
        if !frag_fits(graph, f) {
            (frags, false)
        } else {
            (
                frags.update(
                    0,
                    PathFragment {
                        via: f.via,
                        hop_count: f.hop_count,
                        recv: TimeInterval { start: time, end: time },
                        rx_node: f.rx_node,
                        expiration: f.expiration,
                    },
                ),
                true,
            )
        }
    } else {
        let prev = retime(graph, bundle, time, frags, (j - 1) as nat);
        if !prev.1 {
            prev
        } else {
            retime_step(graph, bundle, time, prev.0, j as int)
        }
    }
}

/// The tree with its positions `idx[0]`, ..., `idx[n - 1]` set, in this order, to the
/// fragments `fr[0]`, ..., `fr[n - 1]`.
pub open spec fn write_back(
    tree: Seq<Option<PathFragment>>,
    idx: Seq<usize>,
    fr: Seq<PathFragment>,
    n: nat,
) -> Seq<Option<PathFragment>>
    decreases n,
{
    if n == 0 {
        tree
    } else {
        write_back(tree, idx, fr, (n - 1) as nat).update(idx[n - 1] as int, Some(fr[n - 1]))
    }
}

/// Checking the path to `dest` again for `bundle` at `time`: the tree afterwards, and whether
/// the path can still carry the bundle. The fragments of the path are timed again from its
/// start until a hop fails; a tree without a finite path to `dest` is left as it is.
pub open spec fn validated<NM: NodeManager, CM: ContactManager>(
    graph: Multigraph<NM, CM>,
    tree: Seq<Option<PathFragment>>,
    dest: RoutableNodeRef,
    time: Date,
    bundle: Bundle,
) -> (Seq<Option<PathFragment>>, bool) {
    match chain_back(tree, graph.spec_routable_index(dest), (tree.len() + 1) as nat) {
        None => (tree, false),
        Some(c) => {
            let idx = c.reverse();
            let res = retime(graph, bundle, time, chain_frags(tree, idx), (idx.len() - 1) as nat);
            (write_back(tree, idx, res.0, idx.len()), res.1)
        },
    }
}

/// A chain is not empty, and names present positions of the tree.
pub proof fn lemma_chain_back(tree: Seq<Option<PathFragment>>, i: int, fuel: nat)
    requires
        tree.len() <= usize::MAX,
    ensures
        chain_back(tree, i, fuel) matches Some(c) ==> {
            &&& c.len() >= 1
            &&& c[0] == i
            &&& forall|k: int| 0 <= k < c.len() ==> (#[trigger] c[k]) < tree.len() && tree[c[k] as int] is Some
        },
    decreases fuel,
{
    if fuel > 0 && 0 <= i < tree.len() {
        if let Some(f) = tree[i] {
            if let Some(v) = f.via {
                lemma_chain_back(tree, v.parent_frag as int, (fuel - 1) as nat);
                if let Some(rest) = chain_back(tree, v.parent_frag as int, (fuel - 1) as nat) {
                    let c = seq![i as usize] + rest;
                    assert forall|k: int| 0 <= k < c.len() implies (#[trigger] c[k]) < tree.len() && tree[c[k] as int] is Some by {
                        if k > 0 {
                            assert(c[k] == rest[k - 1]);
                        }
                    }
                }
            }
        }
    }
}

/// Timing keeps the length, leaves the later positions alone, and, where it succeeds, every
/// position up to `j` fits the graph.
pub proof fn lemma_retime<NM: NodeManager, CM: ContactManager>(
    graph: Multigraph<NM, CM>,
    bundle: Bundle,
    time: Date,
    frags: Seq<PathFragment>,
    j: nat,
)
    requires
        j < frags.len(),
    ensures
        retime(graph, bundle, time, frags, j).0.len() == frags.len(),
        forall|k: int| j < k < frags.len() ==> #[trigger] retime(graph, bundle, time, frags, j).0[k] == frags[k],
        retime(graph, bundle, time, frags, j).1 ==> forall|k: int|
            0 <= k <= j ==> #[trigger] frag_fits(graph, retime(graph, bundle, time, frags, j).0[k]),
    decreases j,
{
    if j > 0 {
        lemma_retime(graph, bundle, time, frags, (j - 1) as nat);
    }
}

/// Once a hop fails, timing further changes nothing.
pub proof fn lemma_retime_stuck<NM: NodeManager, CM: ContactManager>(
    graph: Multigraph<NM, CM>,
    bundle: Bundle,
    time: Date,
    frags: Seq<PathFragment>,
    j: nat,
    n: nat,
)
    requires
        j <= n,
        !retime(graph, bundle, time, frags, j).1,
    ensures
        retime(graph, bundle, time, frags, n) == retime(graph, bundle, time, frags, j),
    decreases n,
{
    if n > j {
        lemma_retime_stuck(graph, bundle, time, frags, j, (n - 1) as nat);
    }
}

/// Writing back keeps the length of the tree, where every position written is in it.
pub proof fn lemma_write_back_len(tree: Seq<Option<PathFragment>>, idx: Seq<usize>, fr: Seq<PathFragment>, n: nat)
    requires
        n <= idx.len(),
        forall|k: int| 0 <= k < idx.len() ==> #[trigger] idx[k] < tree.len(),
    ensures
        write_back(tree, idx, fr, n).len() == tree.len(),
    decreases n,
{
    if n > 0 {
        lemma_write_back_len(tree, idx, fr, (n - 1) as nat);
    }
}

/// Writing back leaves alone every position not written.
pub proof fn lemma_write_back_outside(
    tree: Seq<Option<PathFragment>>,
    idx: Seq<usize>,
    fr: Seq<PathFragment>,
    n: nat,
    i: int,
)
    requires
        n <= idx.len(),
        0 <= i < tree.len(),
        forall|k: int| 0 <= k < idx.len() ==> #[trigger] idx[k] < tree.len(),
        forall|k: int| 0 <= k < n ==> #[trigger] idx[k] != i,
    ensures
        write_back(tree, idx, fr, n)[i] == tree[i],
    decreases n,
{
    if n > 0 {
        lemma_write_back_outside(tree, idx, fr, (n - 1) as nat, i);
        lemma_write_back_len(tree, idx, fr, (n - 1) as nat);
    }
}

/// Checking the path to a node again changes only the fragments of that path: the tree keeps
/// its length, and every other position is left as it was.
pub proof fn lemma_validate_touches_only_the_path<NM: NodeManager, CM: ContactManager>(
    graph: Multigraph<NM, CM>,
    tree: Seq<Option<PathFragment>>,
    dest: RoutableNodeRef,
    time: Date,
    bundle: Bundle,
    i: int,
)
    requires
        tree.len() <= usize::MAX,
        0 <= i < tree.len(),
        chain_back(tree, graph.spec_routable_index(dest), (tree.len() + 1) as nat) matches Some(c) ==> !c.contains(
            i as usize,
        ),
    ensures
        validated(graph, tree, dest, time, bundle).0.len() == tree.len(),
        validated(graph, tree, dest, time, bundle).0[i] == tree[i],
{
    let start = graph.spec_routable_index(dest);
    let fuel = (tree.len() + 1) as nat;
    lemma_chain_back(tree, start, fuel);
    if let Some(c) = chain_back(tree, start, fuel) {
        let idx = c.reverse();
        let res = retime(graph, bundle, time, chain_frags(tree, idx), (idx.len() - 1) as nat);
        assert forall|k: int| 0 <= k < idx.len() implies #[trigger] idx[k] < tree.len() && idx[k] != i by {
            assert(idx[k] == c[c.len() - 1 - k]);
            if idx[k] == i {
                assert(c.contains(i as usize));
            }
        }
        lemma_write_back_len(tree, idx, res.0, idx.len());
        lemma_write_back_outside(tree, idx, res.0, idx.len(), i);
    }
}

/// Whether the fragment names a real node of the graph and, if it has a hop, a contact of it.
fn frag_fits_exec<NM: NodeManager, CM: ContactManager>(graph: &Multigraph<NM, CM>, f: &PathFragment) -> (b: bool)
    ensures
        b == frag_fits(*graph, *f),
{
    let node_ok = match f.rx_node {
        RealNodeRef::I(i) => i.index < graph.internal_nodes.len(),
        RealNodeRef::E(e) => e.index < graph.external_nodes.len(),
    };
    let hop_ok = match f.via {
        None => true,
        Some(v) => v.contact.index < graph.contacts.len(),
    };
    node_ok && hop_ok
}

/// The identifier of a real node.
fn real_id<NM: NodeManager, CM: ContactManager>(graph: &Multigraph<NM, CM>, r: RealNodeRef) -> (id: NodeID)
    requires
        graph.valid_real(r),
        graph.ni() + graph.ne() + graph.nv() <= usize::MAX,
    ensures
        id == NodeID(real_index(r, graph.ni()) as usize),
{
    match r {
        RealNodeRef::I(i) => graph.node_id_of(NodeRef::I(i)),
        RealNodeRef::E(e) => graph.node_id_of(NodeRef::E(e)),
    }
}

/// The positions of the path ending at `start`, from its end back to its start.
fn chain_positions(tree: &Vec<Option<PathFragment>>, start: usize) -> (r: Option<Vec<usize>>)
    ensures
        r matches Some(v) ==> chain_back(tree@, start as int, (tree@.len() + 1) as nat) == Some(v@),
        r is None ==> chain_back(tree@, start as int, (tree@.len() + 1) as nat) is None,
{
    let ghost fuel0 = (tree@.len() + 1) as nat;
    if start >= tree.len() {
        return None;
    }
    let mut cur = start;
    let mut acc: Vec<usize> = Vec::new();
    let mut left: usize = tree.len();
    loop
        invariant
            cur < tree@.len(),
            left <= tree@.len(),
            fuel0 == tree@.len() + 1,
            ({
                let whole = chain_back(tree@, start as int, fuel0);
                let rest = chain_back(tree@, cur as int, (left + 1) as nat);
                whole == match rest {
                    None => None::<Seq<usize>>,
                    Some(s) => Some(acc@ + s),
                }
            }),
        decreases left,
    {
        let ghost fu = (left + 1) as nat;
        let f = match tree[cur] {
            None => {
                return None;
            },
            Some(f) => f,
        };
        let ghost old_acc = acc@;
        acc.push(cur);
        match f.via {
            None => {
                proof {
                    assert(chain_back(tree@, cur as int, fu) == Some(seq![cur]));
                    assert(acc@ =~= old_acc + seq![cur]);
                }
                return Some(acc);
            },
            Some(v) => {
                proof {
                    assert forall|t: Seq<usize>| #[trigger] (old_acc + (seq![cur] + t)) == acc@ + t by {
                        assert((old_acc + (seq![cur] + t)) =~= acc@ + t);
                    }
                }
                if left == 0 || v.parent_frag >= tree.len() {
                    proof {
                        assert(chain_back(tree@, v.parent_frag as int, left as nat) is None);
                        assert(chain_back(tree@, cur as int, fu) is None);
                    }
                    return None;
                }
                left = left - 1;
                cur = v.parent_frag;
            },
        }
    }
}

impl PathFindingOutput {
    /// Checks whether the path to `dest` can still carry `bundle` when it starts at `time`,
    /// and times its hops again on the way: the start is received at `time`, and each hop
    /// gets the windows of a dry run of its contact. A hop that fails stops the check, with
    /// the hops before it already updated. A tree without a finite path to `dest`, or whose
    /// path names nodes or contacts the graph does not have, is not valid for it.
    pub fn validate<NM: NodeManager, CM: ContactManager>(
        &mut self,
        dest: RoutableNodeRef,
        time: Date,
        bundle: &Bundle,
        graph: &Multigraph<NM, CM>,
    ) -> (ok: bool)
        requires
            graph.wf(),
            graph.valid_routable(dest),
            graph.ni() + graph.ne() + graph.nv() <= usize::MAX,
            bundle.wf(),
        ensures
            (final(self).path_tree@, ok) == validated(*graph, old(self).path_tree@, dest, time, *bundle),
    {
        let ghost tree0 = self.path_tree@;
        let start = graph.routable_to_usize(dest);
        let tree_len = self.path_tree.len();
        let back = match chain_positions(&self.path_tree, start) {
            None => {
                return false;
            },
            Some(b) => b,
        };
        proof {
            assert(tree0.len() == tree_len);
            lemma_chain_back(tree0, start as int, (tree0.len() + 1) as nat);
        }
        let n = back.len();
        let mut idx: Vec<usize> = Vec::new();
        let mut fr: Vec<PathFragment> = Vec::new();
        let mut k = n;
        while k > 0
            invariant
                k <= n,
                n == back@.len(),
                n >= 1,
                self.path_tree@ == tree0,
                forall|t: int| 0 <= t < n ==> (#[trigger] back@[t]) < tree0.len() && tree0[back@[t] as int] is Some,
                idx@.len() == n - k,
                fr@.len() == n - k,
                forall|t: int| 0 <= t < n - k ==> #[trigger] idx@[t] == back@[n - 1 - t],
                forall|t: int| 0 <= t < n - k ==> #[trigger] fr@[t] == tree0[idx@[t] as int]->0,
            decreases k,
        {
            k = k - 1;
            let p = back[k];
            idx.push(p);
            let f = match self.path_tree[p] {
                Some(f) => f,
                None => {
                    return false;
                },
            };
            fr.push(f);
        }
        let ghost frags = fr@;
        proof {
            assert forall|t: int| 0 <= t < n implies #[trigger] idx@[t] < tree0.len() by {
                assert(idx@[t] == back@[n - 1 - t]);
            }
            assert(idx@ =~= back@.reverse());
            assert(frags =~= chain_frags(tree0, idx@));
        }
        let f0 = fr[0];
        let mut ok: bool = false;
        if frag_fits_exec(graph, &f0) {
            fr.set(
                0,
                PathFragment {
                    via: f0.via,
                    hop_count: f0.hop_count,
                    recv: TimeInterval { start: time, end: time },
                    rx_node: f0.rx_node,
                    expiration: f0.expiration,
                },
            );
            ok = true;
        }
        let mut j: usize = 1;
        while j < n && ok
            invariant
                1 <= j <= n,
                n == frags.len(),
                fr@.len() == n,
                (fr@, ok) == retime(*graph, *bundle, time, frags, (j - 1) as nat),
                graph.wf(),
                graph.ni() + graph.ne() + graph.nv() <= usize::MAX,
                bundle.wf(),
            decreases n - j,
        {
            proof {
                lemma_retime(*graph, *bundle, time, frags, (j - 1) as nat);
            }
            let snd = fr[j];
            if !frag_fits_exec(graph, &snd) {
                ok = false;
            } else {
                match snd.via {
                    None => {
                        ok = false;
                    },
                    Some(v) => {
                        let send = if j == 1 {
                            time
                        } else {
                            let fst = fr[j - 1];
                            let before = fr[j - 2];
                            assert(frag_fits(*graph, fr@[j - 1]));
                            assert(frag_fits(*graph, fr@[j - 2]));
                            let node = graph.node(fst.rx_node);
                            node.manager.process_delay(
                                bundle,
                                fst.recv,
                                real_id(graph, before.rx_node),
                                real_id(graph, snd.rx_node),
                            )
                        };
                        let c = graph.contact(v.contact);
                        assert(c.wf());
                        match c.manager.dry_run_tx(c.lifespan, send, bundle) {
                            None => {
                                ok = false;
                            },
                            Some(tx) => {
                                fr.set(
                                    j,
                                    PathFragment {
                                        via: Some(ViaHop { contact: v.contact, parent_frag: v.parent_frag, send: tx.tx_window }),
                                        hop_count: snd.hop_count,
                                        recv: tx.rx_window,
                                        rx_node: snd.rx_node,
                                        expiration: snd.expiration,
                                    },
                                );
                            },
                        }
                    },
                }
            }
            j = j + 1;
        }
        proof {
            if !ok {
                lemma_retime_stuck(*graph, *bundle, time, frags, (j - 1) as nat, (n - 1) as nat);
            }
        }
        let mut w: usize = 0;
        while w < n
            invariant
                w <= n,
                idx@.len() == n,
                fr@.len() == n,
                forall|t: int| 0 <= t < n ==> #[trigger] idx@[t] < tree0.len(),
                self.path_tree@ == write_back(tree0, idx@, fr@, w as nat),
            decreases n - w,
        {
            proof {
                lemma_write_back_len(tree0, idx@, fr@, w as nat);
            }
            self.path_tree.set(idx[w], Some(fr[w]));
            w = w + 1;
        }
        ok
    }
}

} // verus!
