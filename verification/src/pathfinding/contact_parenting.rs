//! Contact parenting: the Dijkstra workspace that keeps one path per contact (a search in the
//! contact graph), and the flattening of a pool of paths into a path tree.

use core::marker::PhantomData;

use vstd::prelude::*;

use crate::contact_manager::ContactManager;
use crate::distance::{rank_bound, shorter_than, Distance};
use crate::multigraph::{real_index, INodeRef, Multigraph, RealNodeRef, RoutableNodeRef};
use crate::node_manager::NodeManager;
use crate::pathfinding::dijkstra::{same_but_parent, DijkstraWorkspace, Disktra};
use crate::pathfinding::PathFindingOutput;
use crate::paths::PathFragment;
use crate::types::Bundle;

verus! {

/// The output `tree` holds the pool `paths` re-indexed: `orig` names, for each position of the
/// tree, the path of the pool it copies; the copy differs only by the position of its parent,
/// which holds the copy of the pool path's parent.
pub open spec fn reindexed(paths: Seq<PathFragment>, tree: Seq<Option<PathFragment>>, orig: Seq<int>) -> bool {
    &&& orig.len() == tree.len()
    &&& forall|t: int|
        0 <= t < tree.len() ==> (#[trigger] tree[t] matches Some(f) ==> {
            &&& 0 <= orig[t] < paths.len()
            &&& same_but_parent(f, paths[orig[t]])
            &&& f.via matches Some(v) ==> {
                &&& v.parent_frag < tree.len()
                &&& tree[v.parent_frag as int] is Some
                &&& orig[v.parent_frag as int] == paths[orig[t]].via->0.parent_frag
            }
        })
}

/// A path of the pool whose parent is still named in the pool's numbering.
pub open spec fn pending_ok(paths: Seq<PathFragment>, tree: Seq<Option<PathFragment>>, orig: Seq<int>, t: int) -> bool {
    tree[t] matches Some(f) ==> 0 <= orig[t] < paths.len() && f == paths[orig[t]]
}

/// A copied path whose parent is named in the tree's numbering.
pub open spec fn done_ok(
    paths: Seq<PathFragment>,
    tree: Seq<Option<PathFragment>>,
    orig: Seq<int>,
    newidx: Seq<Option<usize>>,
    t: int,
) -> bool {
    tree[t] matches Some(f) ==> {
        &&& 0 <= orig[t] < paths.len()
        &&& same_but_parent(f, paths[orig[t]])
        &&& f.via matches Some(v) ==> {
            &&& v.parent_frag < tree.len()
            &&& orig[v.parent_frag as int] == paths[orig[t]].via->0.parent_frag
            &&& newidx[paths[orig[t]].via->0.parent_frag as int] == Some(v.parent_frag)
        }
    }
}

/// Every position the re-indexing names holds a copy of the path it names, but perhaps the one
/// being filled.
pub open spec fn newidx_ok(
    paths: Seq<PathFragment>,
    tree: Seq<Option<PathFragment>>,
    orig: Seq<int>,
    newidx: Seq<Option<usize>>,
    hole: int,
) -> bool {
    &&& newidx.len() == paths.len()
    &&& forall|k: int|
        0 <= k < newidx.len() ==> (#[trigger] newidx[k] matches Some(t) ==> {
            &&& t < tree.len()
            &&& orig[t as int] == k
            &&& (t != hole ==> tree[t as int] is Some)
        })
}

/// How many paths of the pool have no position in the tree yet.
pub open spec fn unplaced(newidx: Seq<Option<usize>>) -> nat
    decreases newidx.len(),
{
    if newidx.len() == 0 {
        0
    } else {
        unplaced(newidx.drop_last()) + if newidx.last() is None {
            1nat
        } else {
            0nat
        }
    }
}

proof fn lemma_unplaced_update(s: Seq<Option<usize>>, i: int, v: usize)
    requires
        0 <= i < s.len(),
        s[i] is None,
    ensures
        unplaced(s.update(i, Some(v))) + 1 == unplaced(s),
    decreases s.len(),
{
    let t = s.update(i, Some(v));
    if i == s.len() - 1 {
        assert(t.drop_last() == s.drop_last());
    } else {
        assert(t.drop_last() == s.drop_last().update(i, Some(v)));
        lemma_unplaced_update(s.drop_last(), i, v);
    }
}

proof fn lemma_unplaced_some(s: Seq<Option<usize>>, i: int, v: usize)
    requires
        0 <= i < s.len(),
        s[i] is Some,
    ensures
        unplaced(s.update(i, Some(v))) == unplaced(s),
    decreases s.len(),
{
    let t = s.update(i, Some(v));
    if i == s.len() - 1 {
        assert(t.drop_last() == s.drop_last());
    } else {
        assert(t.drop_last() == s.drop_last().update(i, Some(v)));
        lemma_unplaced_some(s.drop_last(), i, v);
    }
}

/// Writing the copy at `index` keeps the other positions as they were.
proof fn lemma_others_kept(
    paths: Seq<PathFragment>,
    told: Seq<Option<PathFragment>>,
    tnew: Seq<Option<PathFragment>>,
    orig: Seq<int>,
    newidx: Seq<Option<usize>>,
    index: int,
    i: int,
    nd: int,
)
    requires
        0 <= index < told.len(),
        tnew.len() == told.len(),
        tnew[index] is Some,
        forall|t: int| 0 <= t < told.len() && t != index ==> tnew[t] == told[t],
        forall|t: int|
            0 <= t < told.len() && t != index && (t <= i || t >= nd) ==> #[trigger] done_ok(paths, told, orig, newidx, t),
        forall|t: int| i < t < nd ==> #[trigger] pending_ok(paths, told, orig, t),
        index == i || index >= nd,
        0 <= i < nd <= told.len(),
        newidx_ok(paths, told, orig, newidx, index),
    ensures
        forall|t: int|
            0 <= t < tnew.len() && t != index && (t <= i || t >= nd) ==> #[trigger] done_ok(paths, tnew, orig, newidx, t),
        forall|t: int| i < t < nd ==> #[trigger] pending_ok(paths, tnew, orig, t),
        newidx_ok(paths, tnew, orig, newidx, -1),
{
    assert forall|t: int| 0 <= t < tnew.len() && t != index && (t <= i || t >= nd) implies #[trigger] done_ok(
        paths,
        tnew,
        orig,
        newidx,
        t,
    ) by {
        assert(done_ok(paths, told, orig, newidx, t));
        assert(tnew[t] == told[t]);
    }
    assert forall|t: int| i < t < nd implies #[trigger] pending_ok(paths, tnew, orig, t) by {
        assert(pending_ok(paths, told, orig, t));
        assert(tnew[t] == told[t]);
    }
    assert forall|k: int| 0 <= k < newidx.len() implies (#[trigger] newidx[k] matches Some(t) ==> {
        &&& t < tnew.len()
        &&& orig[t as int] == k
        &&& (t != -1 ==> tnew[t as int] is Some)
    }) by {
        if let Some(t) = newidx[k] {
            if t != index {
                assert(tnew[t as int] == told[t as int]);
            }
        }
    }
}

/// Builds a path tree from a pool of paths and, for each destination, the position in the pool
/// of its path: the tree holds each destination's path at the destination's position, followed
/// by the ancestors of those paths that no destination holds.
pub fn flatten(paths: &Vec<PathFragment>, by_dest: &Vec<Option<usize>>) -> (r: PathFindingOutput)
    requires
        forall|i: int| 0 <= i < by_dest@.len() ==> (#[trigger] by_dest@[i] matches Some(k) ==> k < paths@.len()),
        forall|k: int|
            0 <= k < paths@.len() ==> ((#[trigger] paths@[k]).via matches Some(v) ==> v.parent_frag < paths@.len()),
    ensures
        r.path_tree@.len() >= by_dest@.len(),
        exists|orig: Seq<int>|
            {
                &&& reindexed(paths@, r.path_tree@, orig)
                &&& forall|i: int|
                    0 <= i < by_dest@.len() ==> match #[trigger] by_dest@[i] {
                        None => r.path_tree@[i] is None,
                        Some(k) => r.path_tree@[i] is Some && orig[i] == k,
                    }
            },
{
    let np = paths.len();
    let nd = by_dest.len();
    let mut newidx: Vec<Option<usize>> = Vec::new();
    let mut q: usize = 0;
    while q < np
        invariant
            q <= np,
            newidx@.len() == q,
            forall|k: int| 0 <= k < q ==> #[trigger] newidx@[k] is None,
        decreases np - q,
    {
        newidx.push(None);
        q = q + 1;
    }
    let mut tree: Vec<Option<PathFragment>> = Vec::new();
    let ghost mut orig: Seq<int> = seq![];
    let mut i: usize = 0;
    while i < nd
        invariant
            np == paths@.len(),
            nd == by_dest@.len(),
            i <= nd,
            tree@.len() == i,
            orig.len() == i,
            forall|x: int| 0 <= x < nd ==> (#[trigger] by_dest@[x] matches Some(k) ==> k < np),
            forall|t: int|
                0 <= t < i ==> match #[trigger] by_dest@[t] {
                    None => tree@[t] is None,
                    Some(k) => tree@[t] == Some(paths@[k as int]) && orig[t] == k,
                },
            newidx_ok(paths@, tree@, orig, newidx@, -1),
        decreases nd - i,
    {
        match by_dest[i] {
            None => {
                tree.push(None);
                proof {
                    orig = orig.push(0);
                }
            },
            Some(k) => {
                newidx.set(k, Some(i));
                tree.push(Some(paths[k]));
                proof {
                    orig = orig.push(k as int);
                }
            },
        }
        i = i + 1;
    }
    proof {
        assert forall|t: int| 0 <= t < nd implies #[trigger] pending_ok(paths@, tree@, orig, t) by {
            if let Some(k) = by_dest@[t] {
                assert(tree@[t] == Some(paths@[k as int]) && orig[t] == k);
            }
        }
    }
    let mut i: usize = 0;
    while i < nd
        invariant
            np == paths@.len(),
            nd == by_dest@.len(),
            i <= nd,
            nd <= tree@.len(),
            orig.len() == tree@.len(),
            forall|k: int|
                0 <= k < np ==> ((#[trigger] paths@[k]).via matches Some(v) ==> v.parent_frag < np),
            forall|t: int|
                0 <= t < nd ==> match #[trigger] by_dest@[t] {
                    None => tree@[t] is None,
                    Some(k) => tree@[t] is Some && orig[t] == k,
                },
            forall|t: int| 0 <= t < tree@.len() && (t < i || t >= nd) ==> #[trigger] done_ok(paths@, tree@, orig, newidx@, t),
            forall|t: int| i <= t < nd ==> #[trigger] pending_ok(paths@, tree@, orig, t),
            newidx_ok(paths@, tree@, orig, newidx@, -1),
        decreases nd - i,
    {
        if let Some(f0) = tree[i] {
            let mut frag = f0;
            let mut index = i;
            proof {
                assert(pending_ok(paths@, tree@, orig, i as int));
            }
            loop
                invariant_except_break
                    np == paths@.len(),
                    nd == by_dest@.len(),
                    i < nd,
                    nd <= tree@.len(),
                    orig.len() == tree@.len(),
                    index < tree@.len(),
                    index == i || index >= nd,
                    0 <= orig[index as int] < np,
                    frag == paths@[orig[index as int]],
                    tree@[index as int] is None || tree@[index as int] == Some(frag),
                    index == i ==> tree@[index as int] is Some,
                    forall|k: int|
                        0 <= k < np ==> ((#[trigger] paths@[k]).via matches Some(v) ==> v.parent_frag < np),
                    forall|t: int|
                        0 <= t < nd ==> match #[trigger] by_dest@[t] {
                            None => tree@[t] is None,
                            Some(k) => tree@[t] is Some && orig[t] == k,
                        },
                    forall|t: int|
                        0 <= t < tree@.len() && t != index && (t <= i || t >= nd) ==> #[trigger] done_ok(
                            paths@,
                            tree@,
                            orig,
                            newidx@,
                            t,
                        ),
                    forall|t: int| i < t < nd ==> #[trigger] pending_ok(paths@, tree@, orig, t),
                    newidx_ok(paths@, tree@, orig, newidx@, index as int),
                ensures
                    np == paths@.len(),
                    nd == by_dest@.len(),
                    nd <= tree@.len(),
                    orig.len() == tree@.len(),
                    forall|k: int|
                        0 <= k < np ==> ((#[trigger] paths@[k]).via matches Some(v) ==> v.parent_frag < np),
                    forall|t: int|
                        0 <= t < nd ==> match #[trigger] by_dest@[t] {
                            None => tree@[t] is None,
                            Some(k) => tree@[t] is Some && orig[t] == k,
                        },
                    forall|t: int|
                        0 <= t < tree@.len() && (t <= i || t >= nd) ==> #[trigger] done_ok(paths@, tree@, orig, newidx@, t),
                    forall|t: int| i < t < nd ==> #[trigger] pending_ok(paths@, tree@, orig, t),
                    newidx_ok(paths@, tree@, orig, newidx@, -1),
                decreases unplaced(newidx@),
            {
                let ghost told = tree@;
                match frag.via {
                    None => {
                        tree.set(index, Some(frag));
                        proof {
                            assert(done_ok(paths@, tree@, orig, newidx@, index as int));
                            lemma_others_kept(paths@, told, tree@, orig, newidx@, index as int, i as int, nd as int);
                        }
                        break;
                    },
                    Some(v) => {
                        match newidx[v.parent_frag] {
                            Some(t) => {
                                let mut via = v;
                                via.parent_frag = t;
                                let mut f = frag;
                                f.via = Some(via);
                                tree.set(index, Some(f));
                                proof {
                                    assert(done_ok(paths@, tree@, orig, newidx@, index as int));
                                    lemma_others_kept(paths@, told, tree@, orig, newidx@, index as int, i as int, nd as int);
                                }
                                break;
                            },
                            None => {
                                let old_idx = v.parent_frag;
                                let new_idx = tree.len();
                                let ghost nold = newidx@;
                                let ghost oold = orig;
                                proof {
                                    lemma_unplaced_update(newidx@, old_idx as int, new_idx);
                                }
                                newidx.set(old_idx, Some(new_idx));
                                let mut via = v;
                                via.parent_frag = new_idx;
                                let mut f = frag;
                                f.via = Some(via);
                                tree.set(index, Some(f));
                                tree.push(None);
                                proof {
                                    orig = orig.push(old_idx as int);
                                    assert(done_ok(paths@, tree@, orig, newidx@, index as int));
                                    assert forall|t: int|
                                        0 <= t < tree@.len() && t != new_idx && (t <= i || t >= nd) implies #[trigger] done_ok(
                                        paths@,
                                        tree@,
                                        orig,
                                        newidx@,
                                        t,
                                    ) by {
                                        if t != index {
                                            assert(done_ok(paths@, told, oold, nold, t));
                                            assert(tree@[t] == told[t]);
                                            assert(orig[t] == oold[t]);
                                            if let Some(g) = told[t] {
                                                if let Some(w) = g.via {
                                                    let pk = paths@[oold[t]].via->0.parent_frag as int;
                                                    assert(nold[pk] == Some(w.parent_frag));
                                                    assert(pk != old_idx);
                                                    assert(orig[w.parent_frag as int] == oold[w.parent_frag as int]);
                                                }
                                            }
                                        }
                                    }
                                    assert forall|t: int| i < t < nd implies #[trigger] pending_ok(paths@, tree@, orig, t) by {
                                        assert(pending_ok(paths@, told, oold, t));
                                        assert(tree@[t] == told[t]);
                                        assert(orig[t] == oold[t]);
                                    }
                                    assert(newidx_ok(paths@, tree@, orig, newidx@, new_idx as int)) by {
                                        assert forall|k: int| 0 <= k < newidx@.len() implies (#[trigger] newidx@[k] matches Some(t) ==> {
                                            &&& t < tree@.len()
                                            &&& orig[t as int] == k
                                            &&& (t != new_idx ==> tree@[t as int] is Some)
                                        }) by {
                                            if k != old_idx {
                                                assert(newidx@[k] == nold[k]);
                                                if let Some(t) = nold[k] {
                                                    assert(t < told.len());
                                                    assert(orig[t as int] == oold[t as int]);
                                                }
                                            }
                                        }
                                    }
                                    assert forall|t: int| 0 <= t < nd implies match #[trigger] by_dest@[t] {
                                        None => tree@[t] is None,
                                        Some(k) => tree@[t] is Some && orig[t] == k,
                                    } by {
                                        assert(orig[t] == oold[t]);
                                        if t != index {
                                            assert(tree@[t] == told[t]);
                                        }
                                    }
                                }
                                frag = paths[old_idx];
                                index = new_idx;
                            },
                        }
                    },
                }
            }
        }
        i = i + 1;
    }
    proof {
        assert(reindexed(paths@, tree@, orig)) by {
            assert forall|t: int| 0 <= t < tree@.len() implies (#[trigger] tree@[t] matches Some(f) ==> {
                &&& 0 <= orig[t] < paths@.len()
                &&& same_but_parent(f, paths@[orig[t]])
                &&& f.via matches Some(v) ==> {
                    &&& v.parent_frag < tree@.len()
                    &&& tree@[v.parent_frag as int] is Some
                    &&& orig[v.parent_frag as int] == paths@[orig[t]].via->0.parent_frag
                }
            }) by {
                assert(done_ok(paths@, tree@, orig, newidx@, t));
                if let Some(f) = tree@[t] {
                    if let Some(v) = f.via {
                        let k = paths@[orig[t]].via->0.parent_frag as int;
                        assert(newidx@[k] == Some(v.parent_frag));
                    }
                }
            }
        }
    }
    PathFindingOutput { path_tree: tree }
}


/// The sum of a sequence of naturals.
pub open spec fn sum_of(s: Seq<nat>) -> nat
    decreases s.len(),
{
    if s.len() == 0 {
        0
    } else {
        sum_of(s.drop_last()) + s.last()
    }
}

proof fn lemma_sum_update(s: Seq<nat>, i: int, x: nat)
    requires
        0 <= i < s.len(),
    ensures
        sum_of(s.update(i, x)) + s[i] == sum_of(s) + x,
    decreases s.len(),
{
    let t = s.update(i, x);
    if i == s.len() - 1 {
        assert(t.drop_last() == s.drop_last());
    } else {
        assert(t.drop_last() == s.drop_last().update(i, x));
        lemma_sum_update(s.drop_last(), i, x);
    }
}

/// Dijkstra's search with contact parenting: one path kept per contact.
pub type ContactParenting<D> = Disktra<ContactParentingWorkArea<D>, D>;

/// The workspace of contact parenting: a pool of paths, the best of them for each routable node
/// (internal nodes first, then virtual ones), the path kept for each contact, and which kept
/// paths were already expanded.
pub struct ContactParentingWorkArea<D> {
    possible_paths: Vec<PathFragment>,
    by_destination: Vec<Option<usize>>,
    by_dest_vnode: Vec<Option<usize>>,
    visited: Vec<Option<usize>>,
    expanded: Vec<bool>,
    _phantom: PhantomData<D>,
}

impl<D> ContactParentingWorkArea<D> {
    /// The pool of paths found so far.
    pub closed spec fn pool(&self) -> Seq<PathFragment> {
        self.possible_paths@
    }

    /// The path at position `k` of the pool was already expanded.
    pub closed spec fn expanded_at(&self, k: int) -> bool {
        self.expanded@[k]
    }

    /// For each routable node (internal nodes first, then virtual ones), the position in the
    /// pool of the best path found to it, if any.
    pub closed spec fn dest_slots(&self) -> Seq<Option<usize>> {
        self.by_destination@ + self.by_dest_vnode@
    }

    /// The position in the pool of the best path found to `node`, if any.
    pub closed spec fn best_for(&self, node: RoutableNodeRef) -> Option<usize> {
        match node {
            RoutableNodeRef::I(i) => if i.index < self.by_destination@.len() {
                self.by_destination@[i.index as int]
            } else {
                None
            },
            RoutableNodeRef::V(v) => if v.index < self.by_dest_vnode@.len() {
                self.by_dest_vnode@[v.index as int]
            } else {
                None
            },
        }
    }

    /// The path kept for contact `c`, if any.
    pub closed spec fn kept_at(&self, c: int) -> Option<PathFragment> {
        match self.visited@[c] {
            Some(k) => Some(self.possible_paths@[k as int]),
            None => None,
        }
    }

    /// The potential of the slot of contact `c`: high while the contact has no path, then
    /// twice the rank of its path, plus one until that path is expanded.
    pub closed spec fn slot_pot<NM: NodeManager, CM: ContactManager>(&self, c: int) -> nat
        where D: Distance<NM, CM>,
    {
        match self.visited@[c] {
            None => 2 * rank_bound() + 2,
            Some(k) => 2 * D::rank(self.possible_paths@[k as int]) + if self.expanded@[k as int] {
                0nat
            } else {
                1nat
            },
        }
    }

    /// The potential of the start of the search.
    pub closed spec fn root_pot(&self) -> nat {
        if self.possible_paths@.len() == 0 {
            2
        } else if self.possible_paths@[0].via is None && !self.expanded@[0] {
            1
        } else {
            0
        }
    }

    /// The potentials of all the contact slots.
    pub closed spec fn pots<NM: NodeManager, CM: ContactManager>(&self) -> Seq<nat>
        where D: Distance<NM, CM>,
    {
        Seq::new(self.visited@.len(), |c: int| self.slot_pot::<NM, CM>(c))
    }
}

impl<NM: NodeManager, CM: ContactManager, D: Distance<NM, CM>> DijkstraWorkspace<NM, CM> for ContactParentingWorkArea<D> {
    closed spec fn tree(&self) -> Seq<Option<PathFragment>> {
        self.possible_paths@.map_values(|f: PathFragment| Some(f))
    }

    closed spec fn inv(&self) -> bool {
        let paths = self.possible_paths@;
        &&& self.expanded@.len() == paths.len()
        &&& forall|i: int|
            0 <= i < self.by_destination@.len() ==> (#[trigger] self.by_destination@[i] matches Some(k) ==> k
                < paths.len() && paths[k as int].rx_node == RealNodeRef::I(INodeRef { index: i as usize }))
        &&& forall|i: int|
            0 <= i < self.by_dest_vnode@.len() ==> (#[trigger] self.by_dest_vnode@[i] matches Some(k) ==> k
                < paths.len())
        &&& forall|c: int|
            0 <= c < self.visited@.len() ==> (#[trigger] self.visited@[c] matches Some(k) ==> {
                &&& k < paths.len()
                &&& paths[k as int].via matches Some(v) && v.contact.index == c
            })
        &&& forall|k: int|
            0 <= k < paths.len() ==> match (#[trigger] paths[k]).via {
                None => k == 0,
                Some(v) => {
                    &&& v.contact.index < self.visited@.len()
                    &&& self.visited@[v.contact.index as int] == Some(k as usize)
                    &&& v.parent_frag < paths.len()
                },
            }
    }

    closed spec fn fits(&self, graph: Multigraph<NM, CM>) -> bool {
        &&& self.by_destination@.len() == graph.ni()
        &&& self.by_dest_vnode@.len() == graph.nv()
        &&& self.visited@.len() == graph.nc()
        &&& forall|k: int|
            0 <= k < self.possible_paths@.len() ==> ((#[trigger] self.possible_paths@[k]).via matches Some(v) ==> {
                &&& graph.valid_real(self.possible_paths@[k].rx_node)
                &&& graph.contact_ends@[v.contact.index as int].1 == real_index(
                    self.possible_paths@[k].rx_node,
                    graph.ni(),
                )
            })
    }

    closed spec fn valid_ref(&self, i: usize) -> bool {
        i < self.possible_paths@.len()
    }

    closed spec fn parent_present(&self, i: usize) -> bool {
        i < self.possible_paths@.len()
    }

    closed spec fn budget(&self) -> nat {
        self.root_pot() + sum_of(self.pots::<NM, CM>())
    }

    closed spec fn fresh(&self) -> bool {
        self.possible_paths@.len() == 0
    }

    closed spec fn no_hop_towards(&self, node: INodeRef, graph: Multigraph<NM, CM>) -> bool {
        forall|c: int|
            0 <= c < self.visited@.len() && (#[trigger] self.visited@[c]) is Some ==> graph.contact_ends@[c].1
                != node.index
    }

    closed spec fn pops_fresh(&self, frag: PathFragment, node: RoutableNodeRef, viaref: usize) -> bool {
        &&& viaref < self.possible_paths@.len()
        &&& self.possible_paths@[viaref as int] == frag
        &&& !self.expanded@[viaref as int]
        &&& self.best_for(node) == Some(viaref)
    }

    closed spec fn open_for(&self, node: RoutableNodeRef, graph: Multigraph<NM, CM>) -> bool {
        true
    }

    closed spec fn reached(&self, node: RoutableNodeRef, graph: Multigraph<NM, CM>) -> bool {
        self.best_for(node) is Some
    }

    open spec fn settles() -> bool {
        false
    }

    closed spec fn expanded_node(&self, node: RoutableNodeRef, graph: Multigraph<NM, CM>) -> bool {
        false
    }

    closed spec fn keeps(
        &self,
        proposition: PathFragment,
        node: RoutableNodeRef,
        graph: Multigraph<NM, CM>,
        bundle: Bundle,
    ) -> bool {
        match proposition.via {
            None => true,
            Some(v) => match self.kept_at(v.contact.index as int) {
                None => true,
                Some(f) => D::shorter(proposition, f, graph, bundle),
            },
        }
    }

    fn new(graph: &Multigraph<NM, CM>) -> (r: Self) {
        let r = ContactParentingWorkArea {
            possible_paths: Vec::new(),
            by_destination: none_slots(graph.get_internal_count()),
            by_dest_vnode: none_slots(graph.get_vnode_count()),
            visited: none_slots(graph.contacts.len()),
            expanded: Vec::new(),
            _phantom: PhantomData,
        };
        r
    }

    fn into_pathfinding_output(self) -> (r: PathFindingOutput)
        ensures
            r.path_tree@.len() >= self.dest_slots().len(),
            exists|orig: Seq<int>|
                {
                    &&& reindexed(self.pool(), r.path_tree@, orig)
                    &&& forall|i: int|
                        0 <= i < self.dest_slots().len() ==> match #[trigger] self.dest_slots()[i] {
                            None => r.path_tree@[i] is None,
                            Some(k) => r.path_tree@[i] is Some && orig[i] == k,
                        }
                },
    {
        let mut by_dest: Vec<Option<usize>> = Vec::new();
        let mut i: usize = 0;
        while i < self.by_destination.len()
            invariant
                i <= self.by_destination@.len(),
                by_dest@ == self.by_destination@.take(i as int),
            decreases self.by_destination@.len() - i,
        {
            by_dest.push(self.by_destination[i]);
            i = i + 1;
            assert(by_dest@ =~= self.by_destination@.take(i as int));
        }
        let mut j: usize = 0;
        while j < self.by_dest_vnode.len()
            invariant
                j <= self.by_dest_vnode@.len(),
                by_dest@ == self.by_destination@ + self.by_dest_vnode@.take(j as int),
            decreases self.by_dest_vnode@.len() - j,
        {
            by_dest.push(self.by_dest_vnode[j]);
            j = j + 1;
            assert(by_dest@ =~= self.by_destination@ + self.by_dest_vnode@.take(j as int));
        }
        proof {
            assert(self.by_destination@.take(self.by_destination@.len() as int) =~= self.by_destination@);
            assert(self.by_dest_vnode@.take(self.by_dest_vnode@.len() as int) =~= self.by_dest_vnode@);
            assert forall|i: int| 0 <= i < by_dest@.len() implies (#[trigger] by_dest@[i] matches Some(k) ==> k
                < self.possible_paths@.len()) by {
                if i < self.by_destination@.len() {
                    assert(by_dest@[i] == self.by_destination@[i]);
                } else {
                    assert(by_dest@[i] == self.by_dest_vnode@[i - self.by_destination@.len()]);
                }
            }
            assert forall|k: int| 0 <= k < self.possible_paths@.len() implies ((#[trigger] self.possible_paths@[k]).via matches Some(
                v,
            ) ==> v.parent_frag < self.possible_paths@.len()) by {}
        }
        let r = flatten(&self.possible_paths, &by_dest);
        proof {
            assert(by_dest@ == self.dest_slots());
            let orig = choose|orig: Seq<int>|
                {
                    &&& reindexed(self.possible_paths@, r.path_tree@, orig)
                    &&& forall|i: int|
                        0 <= i < by_dest@.len() ==> match #[trigger] by_dest@[i] {
                            None => r.path_tree@[i] is None,
                            Some(k) => r.path_tree@[i] is Some && orig[i] == k,
                        }
                };
            assert forall|t: int| 0 <= t < r.path_tree@.len() implies (#[trigger] r.path_tree@[t] matches Some(f) ==> exists|j: int|
                0 <= j < self.tree().len() && (#[trigger] self.tree()[j] matches Some(g) && same_but_parent(f, g))) by {
                if let Some(f) = r.path_tree@[t] {
                    let j = orig[t];
                    assert(self.tree()[j] == Some(self.possible_paths@[j]));
                }
            }
            assert(reindexed(self.pool(), r.path_tree@, orig));
            assert forall|g: Multigraph<NM, CM>, i: int|
                #![trigger self.fits(g), r.path_tree@[i]]
                self.fits(g) && 0 <= i < g.ni() implies (r.path_tree@[i] matches Some(f) ==> f.rx_node
                    == RealNodeRef::I(INodeRef { index: i as usize })) by {
                if let Some(f) = r.path_tree@[i] {
                    assert(by_dest@[i] == self.by_destination@[i]);
                    let k = self.by_destination@[i]->0;
                    assert(orig[i] == k);
                    assert(same_but_parent(f, self.possible_paths@[k as int]));
                }
            }
            assert forall|g: Multigraph<NM, CM>, n: RoutableNodeRef|
                self.fits(g) && g.valid_routable(n) implies (#[trigger] self.reached(n, g) <==> r.path_tree@[g.spec_routable_index(
                    n,
                )] is Some) by {
                let i = g.spec_routable_index(n);
                assert(by_dest@[i] == self.dest_slots()[i]);
                assert(self.reached(n, g) <==> by_dest@[i] is Some);
            }
            assert forall|i: int| 0 <= i < self.dest_slots().len() implies match #[trigger] self.dest_slots()[i] {
                None => r.path_tree@[i] is None,
                Some(k) => r.path_tree@[i] is Some && orig[i] == k,
            } by {
                assert(by_dest@[i] == self.dest_slots()[i]);
            }
        }
        r
    }

    fn try_insert(
        &mut self,
        proposition: PathFragment,
        node: RoutableNodeRef,
        graph: &Multigraph<NM, CM>,
        bundle: &Bundle,
    ) -> (r: Option<usize>)
        ensures
            proposition.via is None ==> r is Some,
            proposition.via matches Some(v) ==> match old(self).kept_at(v.contact.index as int) {
                None => r is Some,
                Some(f) => (r is Some <==> D::shorter(proposition, f, *graph, *bundle)),
            },
            r matches Some(i) ==> final(self).tree()[i as int] == Some(proposition),
    {
        let ghost w0 = *self;
        let ghost pots0 = w0.pots::<NM, CM>();
        let new_idx = self.possible_paths.len();
        let result: usize;
        proof {
            assert(pots0.len() == graph.nc());
        }
        match proposition.via {
            None => {
                proof {
                    assert forall|c: int| 0 <= c < w0.visited@.len() implies #[trigger] w0.visited@[c] is None by {
                        if let Some(k) = w0.visited@[c] {
                            assert(k < w0.possible_paths@.len());
                        }
                    }
                }
                self.possible_paths.push(proposition);
                self.expanded.push(false);
                result = new_idx;
                proof {
                    assert(self.pots::<NM, CM>() =~= pots0);
                    assert(self.root_pot() == 1 && w0.root_pot() == 2);
                }
            },
            Some(v) => {
                let c = v.contact.index;
                match self.visited[c] {
                    None => {
                        self.visited.set(c, Some(new_idx));
                        self.possible_paths.push(proposition);
                        self.expanded.push(false);
                        result = new_idx;
                        proof {
                            D::lemma_rank(proposition, proposition, *graph, *bundle);
                            assert forall|x: int| 0 <= x < w0.visited@.len() && x != c implies #[trigger] self.slot_pot::<NM, CM>(x)
                                == w0.slot_pot::<NM, CM>(x) by {
                                if let Some(k) = w0.visited@[x] {
                                    assert(k < new_idx);
                                }
                            }
                            assert(self.pots::<NM, CM>() =~= pots0.update(c as int, 2 * D::rank(proposition) + 1));
                            lemma_sum_update(pots0, c as int, 2 * D::rank(proposition) + 1);
                            assert(pots0[c as int] == 2 * rank_bound() + 2);
                            if new_idx == 0 {
                                assert(self.root_pot() == 0 && w0.root_pot() == 2);
                            } else {
                                assert(self.possible_paths@[0] == w0.possible_paths@[0]);
                                assert(self.expanded@[0] == w0.expanded@[0]);
                                assert(self.root_pot() == w0.root_pot());
                            }
                        }
                    },
                    Some(old) => {
                        if shorter_than::<NM, CM, D>(&proposition, &self.possible_paths[old], graph, bundle) {
                            proof {
                                D::lemma_rank(proposition, w0.possible_paths@[old as int], *graph, *bundle);
                            }
                            self.possible_paths.set(old, proposition);
                            self.expanded.set(old, false);
                            result = old;
                            proof {
                                assert forall|x: int| 0 <= x < w0.visited@.len() && x != c implies #[trigger] self.slot_pot::<NM, CM>(x)
                                    == w0.slot_pot::<NM, CM>(x) by {
                                    if let Some(k) = w0.visited@[x] {
                                        assert(w0.possible_paths@[k as int].via matches Some(vv) && vv.contact.index == x);
                                        assert(k != old);
                                    }
                                }
                                assert(self.pots::<NM, CM>() =~= pots0.update(c as int, 2 * D::rank(proposition) + 1));
                                lemma_sum_update(pots0, c as int, 2 * D::rank(proposition) + 1);
                                assert(pots0[c as int] >= 2 * D::rank(w0.possible_paths@[old as int]));
                                if old == 0 {
                                    assert(self.root_pot() == 0 && w0.root_pot() == 0);
                                } else {
                                    assert(self.possible_paths@[0] == w0.possible_paths@[0]);
                                    assert(self.expanded@[0] == w0.expanded@[0]);
                                    assert(self.root_pot() == w0.root_pot());
                                }
                            }
                        } else {
                            return None;
                        }
                    },
                }
            },
        }
        let ghost w1 = *self;
        match node {
            RoutableNodeRef::I(i) => {
                let better = match self.by_destination[i.index] {
                    None => true,
                    Some(k) => shorter_than::<NM, CM, D>(&proposition, &self.possible_paths[k], graph, bundle),
                };
                if better {
                    self.by_destination.set(i.index, Some(result));
                }
            },
            RoutableNodeRef::V(vn) => {
                let better = match self.by_dest_vnode[vn.index] {
                    None => true,
                    Some(k) => shorter_than::<NM, CM, D>(&proposition, &self.possible_paths[k], graph, bundle),
                };
                if better {
                    self.by_dest_vnode.set(vn.index, Some(result));
                }
            },
        }
        proof {
            assert(self.pots::<NM, CM>() =~= w1.pots::<NM, CM>());
            assert(self.root_pot() == w1.root_pot());
        }
        Some(result)
    }

    fn node_check(&mut self, node: RoutableNodeRef, graph: &Multigraph<NM, CM>) -> (r: bool)
        ensures
            r,
    {
        true
    }

    fn poped_relevant_new(
        &mut self,
        frag: PathFragment,
        node: RoutableNodeRef,
        viaref: usize,
    ) -> (r: (bool, bool, Option<INodeRef>))
        ensures
            r.0 == (old(self).pool()[viaref as int] == frag && !old(self).expanded_at(viaref as int)),
            r.1 == (r.0 && old(self).best_for(node) == Some(viaref)),
            r.0 ==> r.2 == match frag.via {
                None => None::<INodeRef>,
                Some(v) => match old(self).pool()[v.parent_frag as int].rx_node {
                    RealNodeRef::I(i) => Some(i),
                    RealNodeRef::E(_) => None::<INodeRef>,
                },
            },
            r.0 ==> final(self).expanded_at(viaref as int) && final(self).pool() == old(self).pool(),
            !r.0 ==> r.2 is None && *final(self) == *old(self),
    {
        let ghost w0 = *self;
        let ghost pots0 = w0.pots::<NM, CM>();
        if self.possible_paths[viaref] == frag && !self.expanded[viaref] {
            self.expanded.set(viaref, true);
            proof {
                match frag.via {
                    None => {
                        assert(viaref == 0);
                        assert forall|x: int| 0 <= x < w0.visited@.len() implies #[trigger] self.slot_pot::<NM, CM>(x)
                            == w0.slot_pot::<NM, CM>(x) by {
                            if let Some(k) = w0.visited@[x] {
                                assert(w0.possible_paths@[k as int].via is Some);
                                assert(k != viaref);
                            }
                        }
                        assert(self.pots::<NM, CM>() =~= pots0);
                    },
                    Some(v) => {
                        let c = v.contact.index as int;
                        assert(w0.visited@[c] == Some(viaref));
                        assert forall|x: int| 0 <= x < w0.visited@.len() && x != c implies #[trigger] self.slot_pot::<NM, CM>(x)
                            == w0.slot_pot::<NM, CM>(x) by {
                            if let Some(k) = w0.visited@[x] {
                                assert(w0.possible_paths@[k as int].via matches Some(vv) && vv.contact.index == x);
                                assert(k != viaref);
                            }
                        }
                        let np = 2 * D::rank(frag);
                        assert(self.pots::<NM, CM>() =~= pots0.update(c, np));
                        lemma_sum_update(pots0, c, np);
                    },
                }
            }
            let prev = match frag.via {
                None => None,
                Some(v) => match self.possible_paths[v.parent_frag].rx_node {
                    RealNodeRef::I(i) => Some(i),
                    RealNodeRef::E(_) => None,
                },
            };
            let new = match node {
                RoutableNodeRef::I(i) => i.index < self.by_destination.len() && self.by_destination[i.index] == Some(viaref),
                RoutableNodeRef::V(vn) => vn.index < self.by_dest_vnode.len() && self.by_dest_vnode[vn.index] == Some(viaref),
            };
            (true, new, prev)
        } else {
            (false, false, None)
        }
    }
}

/// A list of `n` empty slots.
fn none_slots(n: usize) -> (r: Vec<Option<usize>>)
    ensures
        r@.len() == n,
        forall|i: int| 0 <= i < n ==> #[trigger] r@[i] is None,
{
    let mut r: Vec<Option<usize>> = Vec::new();
    let mut i: usize = 0;
    while i < n
        invariant
            i <= n,
            r@.len() == i,
            forall|k: int| 0 <= k < i ==> #[trigger] r@[k] is None,
        decreases n - i,
    {
        r.push(None);
        i = i + 1;
    }
    r
}

} // verus!
