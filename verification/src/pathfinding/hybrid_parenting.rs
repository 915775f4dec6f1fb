//! Hybrid parenting: a workspace that keeps, for each internal node, several paths when none of
//! them is better in both hop count and arrival time, and one path per virtual node.

use core::marker::PhantomData;

use vstd::prelude::*;

use crate::contact_manager::ContactManager;
use crate::distance::{shorter_than, Distance, Hop, SABR};
use crate::multigraph::{INodeRef, Multigraph, RealNodeRef, RoutableNodeRef};
use crate::node_manager::NodeManager;
use crate::pathfinding::contact_parenting::{flatten, reindexed};
use crate::pathfinding::{parents_linked, PathFindingOutput};
use crate::paths::PathFragment;
use crate::types::Bundle;

verus! {

/// Distances under which hybrid parenting may keep two paths to the same node.
pub trait HybridParentingOrd<NM: NodeManager, CM: ContactManager>: Distance<NM, CM> {
    /// Whether both paths are worth keeping as candidates.
    spec fn spec_keep_both(f: PathFragment, s: PathFragment, g: Multigraph<NM, CM>, b: Bundle) -> bool;

    /// Whether both paths are worth keeping as candidates.
    fn keep_both(first: &PathFragment, second: &PathFragment, graph: &Multigraph<NM, CM>, bundle: &Bundle) -> (r: bool)
        ensures
            r == Self::spec_keep_both(*first, *second, *graph, *bundle),
    ;
}

/// Neither path is better in both hop count and arrival time: one has fewer hops and arrives
/// later, or more hops and arrives earlier.
pub open spec fn pareto_apart(f: PathFragment, s: PathFragment) -> bool {
    ||| f.hop_count < s.hop_count && f.recv.end > s.recv.end
    ||| f.hop_count > s.hop_count && f.recv.end < s.recv.end
}

fn pareto_apart_exec(f: &PathFragment, s: &PathFragment) -> (r: bool)
    ensures
        r == pareto_apart(*f, *s),
{
    (f.hop_count < s.hop_count && f.recv.end > s.recv.end) || (f.hop_count > s.hop_count && f.recv.end < s.recv.end)
}

impl<NM: NodeManager, CM: ContactManager> HybridParentingOrd<NM, CM> for Hop {
    open spec fn spec_keep_both(f: PathFragment, s: PathFragment, g: Multigraph<NM, CM>, b: Bundle) -> bool {
        pareto_apart(f, s)
    }

    fn keep_both(first: &PathFragment, second: &PathFragment, graph: &Multigraph<NM, CM>, bundle: &Bundle) -> (r: bool) {
        pareto_apart_exec(first, second)
    }
}

impl<NM: NodeManager, CM: ContactManager> HybridParentingOrd<NM, CM> for SABR {
    open spec fn spec_keep_both(f: PathFragment, s: PathFragment, g: Multigraph<NM, CM>, b: Bundle) -> bool {
        pareto_apart(f, s)
    }

    fn keep_both(first: &PathFragment, second: &PathFragment, graph: &Multigraph<NM, CM>, bundle: &Bundle) -> (r: bool) {
        pareto_apart_exec(first, second)
    }
}

/// Where the scan of the paths kept for a node, from position `k`, stops for the new path `p`:
/// at the first kept path that `p` beats, or at the first one that is not worth keeping
/// beside `p`; at the end of the list when `p` is worth keeping beside all of them.
pub open spec fn hybrid_stop<NM: NodeManager, CM: ContactManager, D: HybridParentingOrd<NM, CM>>(
    p: PathFragment,
    pool: Seq<PathFragment>,
    list: Seq<usize>,
    k: int,
    g: Multigraph<NM, CM>,
    b: Bundle,
) -> int
    decreases list.len() - k,
{
    if k < 0 || k >= list.len() {
        list.len() as int
    } else if D::shorter(p, pool[list[k] as int], g, b) {
        k
    } else if !D::spec_keep_both(p, pool[list[k] as int], g, b) {
        k
    } else {
        hybrid_stop::<NM, CM, D>(p, pool, list, k + 1, g, b)
    }
}

/// Hybrid parenting: Dijkstra's bookkeeping that keeps several paths per internal node.
///
/// It offers the operations of a search workspace, but is not a `DijkstraWorkspace`: the number
/// of paths it keeps for a node has no bound that its updates maintain, so a search over it has
/// no measure that every relevant pop lowers.
pub struct HybridParentingWorkArea<D> {
    possible_paths: Vec<PathFragment>,
    by_destination: Vec<Vec<usize>>,
    by_dest_vnode: Vec<Option<usize>>,
    owner: Ghost<Seq<int>>,
    _phantom: PhantomData<D>,
}

impl<D> HybridParentingWorkArea<D> {
    /// All the paths kept so far.
    pub closed spec fn pool(&self) -> Seq<PathFragment> {
        self.possible_paths@
    }

    /// For each internal node, the positions in the pool of the paths kept for it, the best
    /// first.
    pub closed spec fn lists(&self) -> Seq<Seq<usize>> {
        self.by_destination@.map_values(|l: Vec<usize>| l@)
    }

    /// For each virtual node, the position in the pool of the path kept for it.
    pub closed spec fn vslots(&self) -> Seq<Option<usize>> {
        self.by_dest_vnode@
    }

    /// Every position named is one of the pool, and every path of the pool names a parent in
    /// it.
    pub closed spec fn inv(&self) -> bool {
        let n = self.possible_paths@.len();
        &&& forall|i: int, j: int|
            0 <= i < self.by_destination@.len() && 0 <= j < self.by_destination@[i]@.len()
                ==> #[trigger] self.by_destination@[i]@[j] < n
        &&& forall|i: int| 0 <= i < self.by_dest_vnode@.len() ==> (#[trigger] self.by_dest_vnode@[i] matches Some(k) ==> k < n)
        &&& forall|k: int|
            0 <= k < n ==> ((#[trigger] self.possible_paths@[k]).via matches Some(v) ==> v.parent_frag < n)
        &&& self.owner@.len() == n
        &&& forall|i: int, j: int|
            0 <= i < self.by_destination@.len() && 0 <= j < self.by_destination@[i]@.len() ==> self.owner@[
                #[trigger] self.by_destination@[i]@[j] as int] == i
        &&& forall|i: int, j1: int, j2: int|
            0 <= i < self.by_destination@.len() && 0 <= j1 < j2 < self.by_destination@[i]@.len()
                ==> #[trigger] self.by_destination@[i]@[j1] != #[trigger] self.by_destination@[i]@[j2]
        &&& forall|v: int|
            0 <= v < self.by_dest_vnode@.len() ==> (#[trigger] self.by_dest_vnode@[v] matches Some(k) ==> self.owner@[
                k as int] == -1 - v)
    }

    /// The best path kept for the internal node `x`, if any.
    pub closed spec fn best_kept(&self, x: int) -> Option<PathFragment> {
        let l = self.by_destination@[x]@;
        if l.len() > 0 {
            Some(self.possible_paths@[l[0] as int])
        } else {
            None
        }
    }

    /// The workspace was made for this graph: one list per internal node, one slot per virtual
    /// node.
    pub closed spec fn fits<NM: NodeManager, CM: ContactManager>(&self, graph: Multigraph<NM, CM>) -> bool {
        &&& self.by_destination@.len() == graph.ni()
        &&& self.by_dest_vnode@.len() == graph.nv()
    }

    /// Whether the workspace keeps the path `p` to `node` when it is offered: the first path to
    /// an internal node, or one that the scan of its list keeps; the first path to a virtual
    /// node, or one better than the path it holds.
    pub closed spec fn keeps<NM: NodeManager, CM: ContactManager>(
        &self,
        p: PathFragment,
        node: RoutableNodeRef,
        graph: Multigraph<NM, CM>,
        bundle: Bundle,
    ) -> bool
        where D: HybridParentingOrd<NM, CM>,
    {
        match node {
            RoutableNodeRef::I(i) => {
                let list = self.lists()[i.index as int];
                let k = hybrid_stop::<NM, CM, D>(p, self.pool(), list, 0, graph, bundle);
                ||| list.len() == 0
                ||| D::shorter(p, self.pool()[list[0] as int], graph, bundle)
                ||| k == list.len()
                ||| D::shorter(p, self.pool()[list[k] as int], graph, bundle)
            },
            RoutableNodeRef::V(v) => match self.vslots()[v.index as int] {
                None => true,
                Some(o) => D::shorter(p, self.pool()[o as int], graph, bundle),
            },
        }
    }

    /// A workspace for a new search in `graph`, with no path.
    pub fn new<NM: NodeManager, CM: ContactManager>(graph: &Multigraph<NM, CM>) -> (r: Self)
        ensures
            r.inv(),
            r.fits(*graph),
            r.pool().len() == 0,
            forall|i: int| 0 <= i < graph.ni() ==> (#[trigger] r.lists()[i]).len() == 0,
            forall|i: int| 0 <= i < graph.nv() ==> #[trigger] r.vslots()[i] is None,
    {
        let n = graph.get_internal_count();
        let mut lists: Vec<Vec<usize>> = Vec::new();
        let mut i: usize = 0;
        while i < n
            invariant
                i <= n,
                lists@.len() == i,
                forall|k: int| 0 <= k < i ==> (#[trigger] lists@[k])@.len() == 0,
            decreases n - i,
        {
            lists.push(Vec::new());
            i = i + 1;
        }
        let m = graph.get_vnode_count();
        let mut slots: Vec<Option<usize>> = Vec::new();
        let mut j: usize = 0;
        while j < m
            invariant
                j <= m,
                slots@.len() == j,
                forall|k: int| 0 <= k < j ==> #[trigger] slots@[k] is None,
            decreases m - j,
        {
            slots.push(None);
            j = j + 1;
        }
        let r = HybridParentingWorkArea {
            possible_paths: Vec::new(),
            by_destination: lists,
            by_dest_vnode: slots,
            owner: Ghost(Seq::empty()),
            _phantom: PhantomData,
        };
        proof {
            assert forall|i: int| 0 <= i < graph.ni() implies (#[trigger] r.lists()[i]).len() == 0 by {
                assert(r.lists()[i] == r.by_destination@[i]@);
            }
        }
        r
    }

    /// When a step changes only the list of the internal node `x` (or none, for `x` negative),
    /// appends to the pool, and overwrites only positions that the pool had not named or that
    /// `x` (or a virtual node, for `x` negative) owns, the best path of every other internal
    /// node stays.
    proof fn hybrid_frame(w0: Self, w1: Self, x: int)
        requires
            w0.inv(),
            w1.by_destination@.len() == w0.by_destination@.len(),
            forall|y: int| 0 <= y < w0.by_destination@.len() && y != x ==> (#[trigger] w1.by_destination@[y])@
                == w0.by_destination@[y]@,
            w1.possible_paths@.len() >= w0.possible_paths@.len(),
            forall|k: int|
                0 <= k < w0.possible_paths@.len() && #[trigger] w1.possible_paths@[k] != w0.possible_paths@[k]
                    ==> (w0.owner@[k] == x || w0.owner@[k] < 0),
        ensures
            forall|y: int| 0 <= y < w0.by_destination@.len() && y != x ==> #[trigger] w1.best_kept(y) == w0.best_kept(y),
    {
        assert forall|y: int| 0 <= y < w0.by_destination@.len() && y != x implies #[trigger] w1.best_kept(y)
            == w0.best_kept(y) by {
            let l = w0.by_destination@[y]@;
            if l.len() > 0 {
                let k = l[0] as int;
                assert(w0.owner@[w0.by_destination@[y]@[0] as int] == y);
                assert(k < w0.possible_paths@.len());
            }
        }
    }

    /// Offers the path `proposition` to `node`; returns the position in the pool under which it
    /// is kept, if it is kept.
    ///
    /// For an internal node: the first path is kept; a path better than the best one takes its
    /// place, and the best one stays beside it when both are worth keeping; otherwise the list
    /// is scanned, the first path the new one beats is replaced by it, a path not worth keeping
    /// beside it refuses it, and when all are worth keeping beside it, it joins the list. For a
    /// virtual node: the first path is kept, and a better path replaces it.
    pub fn try_insert<NM: NodeManager, CM: ContactManager>(
        &mut self,
        proposition: PathFragment,
        node: RoutableNodeRef,
        graph: &Multigraph<NM, CM>,
        bundle: &Bundle,
    ) -> (r: Option<usize>)
        where D: HybridParentingOrd<NM, CM>,
        requires
            old(self).inv(),
            old(self).fits(*graph),
            graph.valid_routable(node),
            proposition.via matches Some(v) ==> v.parent_frag < old(self).pool().len(),
        ensures
            final(self).inv(),
            final(self).fits(*graph),
            r is Some <==> old(self).keeps(proposition, node, *graph, *bundle),
            r is None ==> *final(self) == *old(self),
            r matches Some(i) ==> final(self).pool()[i as int] == proposition,
            forall|y: int|
                0 <= y < old(self).lists().len() && node != RoutableNodeRef::I(INodeRef { index: y as usize })
                    ==> #[trigger] final(self).best_kept(y) == old(self).best_kept(y),
            node matches RoutableNodeRef::I(x) ==> (final(self).best_kept(x.index as int) matches Some(q)
                && !D::shorter(proposition, q, *graph, *bundle)),
            node matches RoutableNodeRef::I(x) ==> (old(self).best_kept(x.index as int) matches Some(q0) ==> (
            final(self).best_kept(x.index as int) == Some(q0) || (final(self).best_kept(x.index as int) == Some(
                proposition,
            ) && D::shorter(proposition, q0, *graph, *bundle)))),
            r matches Some(i) ==> (final(self).pool() == old(self).pool().push(proposition) && i == old(self).pool().len())
                || (final(self).pool() == old(self).pool().update(i as int, proposition) && i < old(self).pool().len()),
            ({
                let n = old(self).pool().len();
                match node {
                    RoutableNodeRef::I(x) => {
                        let list = old(self).lists()[x.index as int];
                        let k = hybrid_stop::<NM, CM, D>(proposition, old(self).pool(), list, 0, *graph, *bundle);
                        &&& final(self).vslots() == old(self).vslots()
                        &&& list.len() == 0 ==> r == Some(n as usize) && final(self).lists() == old(self).lists().update(
                            x.index as int,
                            seq![n as usize],
                        )
                        &&& list.len() > 0 && D::shorter(proposition, old(self).pool()[list[0] as int], *graph, *bundle)
                            ==> if D::spec_keep_both(proposition, old(self).pool()[list[0] as int], *graph, *bundle) {
                            r == Some(n as usize) && final(self).lists() == old(self).lists().update(
                                x.index as int,
                                list.update(0, n as usize).push(list[0]),
                            )
                        } else {
                            r == Some(list[0]) && final(self).lists() == old(self).lists()
                        }
                        &&& list.len() > 0 && !D::shorter(proposition, old(self).pool()[list[0] as int], *graph, *bundle)
                            ==> if k == list.len() {
                            r == Some(n as usize) && final(self).lists() == old(self).lists().update(
                                x.index as int,
                                list.push(n as usize),
                            )
                        } else if D::shorter(proposition, old(self).pool()[list[k] as int], *graph, *bundle) {
                            r == Some(list[k]) && final(self).lists() == old(self).lists()
                        } else {
                            r is None
                        }
                    },
                    RoutableNodeRef::V(v) => {
                        &&& final(self).lists() == old(self).lists()
                        &&& old(self).vslots()[v.index as int] is None ==> r == Some(n as usize)
                            && final(self).vslots() == old(self).vslots().update(v.index as int, Some(n as usize))
                        &&& old(self).vslots()[v.index as int] matches Some(o) ==> (r is Some ==> r == Some(o)
                            && final(self).vslots() == old(self).vslots())
                    },
                }
            }),
    {
        let ghost w0 = *self;
        let new_idx = self.possible_paths.len();
        match node {
            RoutableNodeRef::I(x) => {
                let ghost list = w0.lists()[x.index as int];
                proof {
                    assert(list == w0.by_destination@[x.index as int]@);
                }
                let len = self.by_destination[x.index].len();
                if len == 0 {
                    let mut l = Vec::new();
                    l.push(new_idx);
                    self.by_destination.set(x.index, l);
                    self.possible_paths.push(proposition);
                    self.owner = Ghost(w0.owner@.push(x.index as int));
                    proof {
                        assert(self.lists() =~= w0.lists().update(x.index as int, seq![new_idx]));
                        D::lemma_strict_weak_order(proposition, proposition, proposition, *graph, *bundle);
                        Self::hybrid_frame(w0, *self, x.index as int);
                    }
                    return Some(new_idx);
                }
                let fst = self.by_destination[x.index][0];
                if shorter_than::<NM, CM, D>(&proposition, &self.possible_paths[fst], graph, bundle) {
                    if D::keep_both(&proposition, &self.possible_paths[fst], graph, bundle) {
                        let mut l = self.by_destination[x.index].clone();
                        assert(l@ == list);
                        l.set(0, new_idx);
                        l.push(fst);
                        self.by_destination.set(x.index, l);
                        self.possible_paths.push(proposition);
                        self.owner = Ghost(w0.owner@.push(x.index as int));
                        proof {
                            assert(self.lists() =~= w0.lists().update(x.index as int, list.update(0, new_idx).push(list[0])));
                            D::lemma_strict_weak_order(proposition, proposition, proposition, *graph, *bundle);
                            Self::hybrid_frame(w0, *self, x.index as int);
                        }
                        return Some(new_idx);
                    } else {
                        self.possible_paths.set(fst, proposition);
                        proof {
                            assert(self.lists() =~= w0.lists());
                            D::lemma_strict_weak_order(proposition, proposition, proposition, *graph, *bundle);
                            Self::hybrid_frame(w0, *self, x.index as int);
                        }
                        return Some(fst);
                    }
                }
                let mut k: usize = 0;
                while k < len
                    invariant
                        *self == w0,
                        w0 == *old(self),
                        w0.inv(),
                        w0.fits(*graph),
                        proposition.via matches Some(v) ==> v.parent_frag < w0.pool().len(),
                        w0.lists()[x.index as int] == list,
                        node == RoutableNodeRef::I(x),
                        list.len() > 0,
                        !D::shorter(proposition, w0.pool()[list[0] as int], *graph, *bundle),
                        x.index < w0.by_destination@.len(),
                        list == w0.by_destination@[x.index as int]@,
                        len == list.len(),
                        k <= len,
                        hybrid_stop::<NM, CM, D>(proposition, w0.pool(), list, 0, *graph, *bundle) == hybrid_stop::<
                            NM,
                            CM,
                            D,
                        >(proposition, w0.pool(), list, k as int, *graph, *bundle),
                    decreases len - k,
                {
                    let prop = self.by_destination[x.index][k];
                    assert(prop == list[k as int]);
                    if shorter_than::<NM, CM, D>(&proposition, &self.possible_paths[prop], graph, bundle) {
                        proof {
                            assert(D::shorter(proposition, w0.pool()[list[k as int] as int], *graph, *bundle));
                            assert(hybrid_stop::<NM, CM, D>(proposition, w0.pool(), list, k as int, *graph, *bundle)
                                == k as int);
                        }
                        self.possible_paths.set(prop, proposition);
                        proof {
                            assert(self.lists() =~= w0.lists());
                            assert(k > 0);
                            assert(list[0] != list[k as int]);
                            Self::hybrid_frame(w0, *self, x.index as int);
                        }
                        return Some(prop);
                    }
                    if !D::keep_both(&proposition, &self.possible_paths[prop], graph, bundle) {
                        return None;
                    }
                    k = k + 1;
                }
                let mut l = self.by_destination[x.index].clone();
                assert(l@ == list);
                l.push(new_idx);
                self.by_destination.set(x.index, l);
                self.possible_paths.push(proposition);
                self.owner = Ghost(w0.owner@.push(x.index as int));
                proof {
                    assert(self.lists() =~= w0.lists().update(x.index as int, list.push(new_idx)));
                    Self::hybrid_frame(w0, *self, x.index as int);
                }
                Some(new_idx)
            },
            RoutableNodeRef::V(v) => {
                match self.by_dest_vnode[v.index] {
                    None => {
                        self.possible_paths.push(proposition);
                        self.by_dest_vnode.set(v.index, Some(new_idx));
                        self.owner = Ghost(w0.owner@.push(-1 - v.index));
                        proof {
                            assert(self.lists() =~= w0.lists());
                            Self::hybrid_frame(w0, *self, -1);
                        }
                        Some(new_idx)
                    },
                    Some(old) => {
                        if shorter_than::<NM, CM, D>(&proposition, &self.possible_paths[old], graph, bundle) {
                            self.possible_paths.set(old, proposition);
                            proof {
                                assert(self.lists() =~= w0.lists());
                                Self::hybrid_frame(w0, *self, -1);
                            }
                            Some(old)
                        } else {
                            None
                        }
                    },
                }
            },
        }
    }

    /// Whether new paths to `node` are still worth considering: always.
    pub fn node_check<NM: NodeManager, CM: ContactManager>(&mut self, node: RoutableNodeRef, graph: &Multigraph<NM, CM>) -> (r:
        bool)
        ensures
            r,
            *final(self) == *old(self),
    {
        true
    }

    /// A path was popped: whether it is still the one kept at its position, whether it is the
    /// best one kept for its node (always, for a virtual node), and the internal node before it
    /// on the path, if any.
    pub fn poped_relevant_new(&mut self, frag: PathFragment, node: RoutableNodeRef, viaref: usize) -> (r: (
        bool,
        bool,
        Option<INodeRef>,
    ))
        requires
            old(self).inv(),
            viaref < old(self).pool().len(),
            node matches RoutableNodeRef::I(x) ==> x.index < old(self).lists().len(),
        ensures
            *final(self) == *old(self),
            r.0 == (old(self).pool()[viaref as int] == frag),
            r.1 == (r.0 && match node {
                RoutableNodeRef::I(x) => old(self).lists()[x.index as int].len() > 0 && old(self).lists()[x.index as int][0]
                    == viaref,
                RoutableNodeRef::V(_) => true,
            }),
            r.2 == (if r.0 {
                match frag.via {
                    None => None::<INodeRef>,
                    Some(v) => match old(self).pool()[v.parent_frag as int].rx_node {
                        RealNodeRef::I(i) => Some(i),
                        RealNodeRef::E(_) => None::<INodeRef>,
                    },
                }
            } else {
                None::<INodeRef>
            }),
    {
        if self.possible_paths[viaref] != frag {
            return (false, false, None);
        }
        let prev = match frag.via {
            None => None,
            Some(v) => match self.possible_paths[v.parent_frag].rx_node {
                RealNodeRef::I(i) => Some(i),
                RealNodeRef::E(_) => None,
            },
        };
        let best = match node {
            RoutableNodeRef::I(x) => {
                proof {
                    assert(self.lists()[x.index as int] == self.by_destination@[x.index as int]@);
                }
                self.by_destination[x.index].len() > 0 && self.by_destination[x.index][0] == viaref
            },
            RoutableNodeRef::V(_) => true,
        };
        (true, best, prev)
    }

    /// The paths kept, as a pathfinding output: each internal node's best path and each
    /// virtual node's path at the node's position, followed by the ancestors that no node
    /// holds.
    pub fn into_pathfinding_output(self) -> (r: PathFindingOutput)
        requires
            self.inv(),
        ensures
            parents_linked(r.path_tree@),
            r.path_tree@.len() >= self.lists().len() + self.vslots().len(),
            exists|orig: Seq<int>|
                {
                    &&& reindexed(self.pool(), r.path_tree@, orig)
                    &&& forall|i: int|
                        0 <= i < self.lists().len() ==> if (#[trigger] self.lists()[i]).len() == 0 {
                            r.path_tree@[i] is None
                        } else {
                            r.path_tree@[i] is Some && orig[i] == self.lists()[i][0]
                        }
                    &&& forall|i: int|
                        0 <= i < self.vslots().len() ==> match #[trigger] self.vslots()[i] {
                            None => r.path_tree@[self.lists().len() + i] is None,
                            Some(k) => r.path_tree@[self.lists().len() + i] is Some && orig[self.lists().len() + i] == k,
                        }
                },
    {
        let mut by_dest: Vec<Option<usize>> = Vec::new();
        let mut i: usize = 0;
        while i < self.by_destination.len()
            invariant
                i <= self.by_destination@.len(),
                by_dest@.len() == i,
                forall|k: int|
                    0 <= k < i ==> #[trigger] by_dest@[k] == (if self.by_destination@[k]@.len() == 0 {
                        None::<usize>
                    } else {
                        Some(self.by_destination@[k]@[0])
                    }),
            decreases self.by_destination@.len() - i,
        {
            let first = if self.by_destination[i].len() == 0 {
                None
            } else {
                Some(self.by_destination[i][0])
            };
            by_dest.push(first);
            i = i + 1;
        }
        let nl = by_dest.len();
        let mut j: usize = 0;
        while j < self.by_dest_vnode.len()
            invariant
                j <= self.by_dest_vnode@.len(),
                nl == self.by_destination@.len(),
                by_dest@.len() == nl + j,
                forall|k: int|
                    0 <= k < nl ==> #[trigger] by_dest@[k] == (if self.by_destination@[k]@.len() == 0 {
                        None::<usize>
                    } else {
                        Some(self.by_destination@[k]@[0])
                    }),
                forall|k: int| 0 <= k < j ==> #[trigger] by_dest@[nl + k] == self.by_dest_vnode@[k],
            decreases self.by_dest_vnode@.len() - j,
        {
            by_dest.push(self.by_dest_vnode[j]);
            proof {
                assert(by_dest@[nl + j] == self.by_dest_vnode@[j as int]);
            }
            j = j + 1;
        }
        proof {
            assert forall|k: int| 0 <= k < by_dest@.len() implies (#[trigger] by_dest@[k] matches Some(x) ==> x
                < self.possible_paths@.len()) by {
                if k < nl {
                    if self.by_destination@[k]@.len() > 0 {
                        assert(self.by_destination@[k]@[0] < self.possible_paths@.len());
                    }
                } else {
                    assert(by_dest@[nl + (k - nl)] == self.by_dest_vnode@[k - nl]);
                }
            }
        }
        let r = flatten(&self.possible_paths, &by_dest);
        proof {
            let orig = choose|orig: Seq<int>|
                {
                    &&& reindexed(self.possible_paths@, r.path_tree@, orig)
                    &&& forall|i: int|
                        0 <= i < by_dest@.len() ==> match #[trigger] by_dest@[i] {
                            None => r.path_tree@[i] is None,
                            Some(k) => r.path_tree@[i] is Some && orig[i] == k,
                        }
                };
            assert forall|i: int| 0 <= i < self.lists().len() implies if (#[trigger] self.lists()[i]).len() == 0 {
                r.path_tree@[i] is None
            } else {
                r.path_tree@[i] is Some && orig[i] == self.lists()[i][0]
            } by {
                assert(self.lists()[i] == self.by_destination@[i]@);
                assert(by_dest@[i] == (if self.by_destination@[i]@.len() == 0 {
                    None::<usize>
                } else {
                    Some(self.by_destination@[i]@[0])
                }));
            }
            assert forall|i: int| 0 <= i < self.vslots().len() implies match #[trigger] self.vslots()[i] {
                None => r.path_tree@[self.lists().len() + i] is None,
                Some(k) => r.path_tree@[self.lists().len() + i] is Some && orig[self.lists().len() + i] == k,
            } by {
                assert(by_dest@[nl + i] == self.by_dest_vnode@[i]);
            }
            assert(reindexed(self.pool(), r.path_tree@, orig));
            assert(r.path_tree@.len() >= self.lists().len() + self.vslots().len());
        }
        r
    }
}

/// The best path kept for a node never gets worse than a path once offered for it: after the
/// offer the best kept is no worse than it (`try_insert`), and each later step keeps the best or
/// replaces it by a better one, which stays no worse than the offered path.
pub proof fn lemma_best_never_worse<NM: NodeManager, CM: ContactManager, D: HybridParentingOrd<NM, CM>>(
    offered: PathFragment,
    best_before: PathFragment,
    best_after: PathFragment,
    graph: Multigraph<NM, CM>,
    bundle: Bundle,
)
    requires
        !D::shorter(offered, best_before, graph, bundle),
        best_after == best_before || D::shorter(best_after, best_before, graph, bundle),
    ensures
        !D::shorter(offered, best_after, graph, bundle),
{
    D::lemma_strict_weak_order(offered, best_after, best_before, graph, bundle);
}

} // verus!
