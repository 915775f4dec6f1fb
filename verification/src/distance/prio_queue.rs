//! A min priority queue of path fragments, ordered by a distance: a binary heap.

use core::marker::PhantomData;

use vstd::multiset::Multiset;
use vstd::prelude::*;

use crate::contact_manager::ContactManager;
use crate::distance::{shorter_than, Distance};
use crate::multigraph::Multigraph;
use crate::node_manager::NodeManager;
use crate::paths::PathFragment;
use crate::types::Bundle;

verus! {

/// The index of the parent of position `i` in a binary heap.
pub open spec fn parent_of(i: int) -> int {
    (i - 1) / 2
}

/// The element at position `i` is not better than its parent.
pub open spec fn edge_ok<NM: NodeManager, CM: ContactManager, D: Distance<NM, CM>, T>(
    s: Seq<(PathFragment, T)>,
    i: int,
    g: Multigraph<NM, CM>,
    b: Bundle,
) -> bool {
    !D::shorter(s[i].0, s[parent_of(i)].0, g, b)
}

/// The heap order: no element is better than its parent.
pub open spec fn heap_seq_ok<NM: NodeManager, CM: ContactManager, D: Distance<NM, CM>, T>(
    s: Seq<(PathFragment, T)>,
    g: Multigraph<NM, CM>,
    b: Bundle,
) -> bool {
    forall|i: int| 0 < i < s.len() ==> #[trigger] edge_ok::<NM, CM, D, T>(s, i, g, b)
}

/// The element at position `i` is not better than the grandparent of position `i`.
pub open spec fn gp_ok<NM: NodeManager, CM: ContactManager, D: Distance<NM, CM>, T>(
    s: Seq<(PathFragment, T)>,
    i: int,
    g: Multigraph<NM, CM>,
    b: Bundle,
) -> bool {
    !D::shorter(s[i].0, s[parent_of(parent_of(i))].0, g, b)
}

/// The state of an insertion that carries `elt` up through position `id`.
pub open spec fn up_ok<NM: NodeManager, CM: ContactManager, D: Distance<NM, CM>, T>(
    s: Seq<(PathFragment, T)>,
    id: int,
    elt: (PathFragment, T),
    g: Multigraph<NM, CM>,
    b: Bundle,
) -> bool {
    let c = s.update(id, elt);
    &&& forall|i: int| 0 < i < c.len() && i != id ==> #[trigger] edge_ok::<NM, CM, D, T>(c, i, g, b)
    &&& id > 0 ==> forall|i: int|
        0 < i < c.len() && parent_of(i) == id ==> #[trigger] gp_ok::<NM, CM, D, T>(c, i, g, b)
}

/// The state of a removal that carries `fst` down through position `id`.
pub open spec fn down_ok<NM: NodeManager, CM: ContactManager, D: Distance<NM, CM>, T>(
    s: Seq<(PathFragment, T)>,
    id: int,
    fst: (PathFragment, T),
    g: Multigraph<NM, CM>,
    b: Bundle,
) -> bool {
    let c = s.update(id, fst);
    &&& forall|i: int|
        0 < i < c.len() && parent_of(i) != id ==> #[trigger] edge_ok::<NM, CM, D, T>(c, i, g, b)
    &&& id > 0 ==> forall|i: int|
        0 < i < c.len() && parent_of(i) == id ==> #[trigger] gp_ok::<NM, CM, D, T>(c, i, g, b)
}

/// In a heap, no element is better than the first one.
pub proof fn lemma_root_min<NM: NodeManager, CM: ContactManager, D: Distance<NM, CM>, T>(
    s: Seq<(PathFragment, T)>,
    g: Multigraph<NM, CM>,
    b: Bundle,
    i: int,
)
    requires
        heap_seq_ok::<NM, CM, D, T>(s, g, b),
        0 <= i < s.len(),
    ensures
        !D::shorter(s[i].0, s[0].0, g, b),
    decreases i,
{
    if i == 0 {
        D::lemma_strict_weak_order(s[0].0, s[0].0, s[0].0, g, b);
    } else {
        let p = parent_of(i);
        lemma_root_min::<NM, CM, D, T>(s, g, b, p);
        assert(edge_ok::<NM, CM, D, T>(s, i, g, b));
        D::lemma_strict_weak_order(s[0].0, s[p].0, s[i].0, g, b);
    }
}

proof fn lemma_up_step<NM: NodeManager, CM: ContactManager, D: Distance<NM, CM>, T>(
    s: Seq<(PathFragment, T)>,
    id: int,
    elt: (PathFragment, T),
    g: Multigraph<NM, CM>,
    b: Bundle,
)
    requires
        0 < id < s.len(),
        up_ok::<NM, CM, D, T>(s, id, elt, g, b),
        D::shorter(elt.0, s[parent_of(id)].0, g, b),
    ensures
        up_ok::<NM, CM, D, T>(s.update(id, s[parent_of(id)]), parent_of(id), elt, g, b),
        s.update(id, s[parent_of(id)]).update(parent_of(id), elt).to_multiset() == s.update(id, elt).to_multiset(),
{
    let p = parent_of(id);
    let c = s.update(id, elt);
    let s2 = s.update(id, s[p]);
    let c2 = s2.update(p, elt);
    assert(c2 == c.update(id, c[p]).update(p, elt));
    vstd::seq_lib::to_multiset_update(c, id, c[p]);
    vstd::seq_lib::to_multiset_update(c.update(id, c[p]), p, elt);
    vstd::seq_lib::to_multiset_contains(c, elt);
    vstd::seq_lib::to_multiset_contains(c, c[p]);
    assert(c[id] == elt);
    assert(c.update(id, c[p])[p] == c[p]);
    assert(c2.to_multiset() =~= c.to_multiset()) by {
        broadcast use vstd::multiset::group_multiset_axioms;
    }
    assert forall|i: int| 0 < i < c2.len() && i != p implies #[trigger] edge_ok::<NM, CM, D, T>(c2, i, g, b) by {
        let q = parent_of(i);
        if i == id {
            D::lemma_strict_weak_order(c[p].0, elt.0, c[p].0, g, b);
        } else if q == id {
            assert(gp_ok::<NM, CM, D, T>(c, i, g, b));
        } else if q == p {
            assert(edge_ok::<NM, CM, D, T>(c, i, g, b));
            D::lemma_strict_weak_order(c[i].0, elt.0, c[p].0, g, b);
        } else {
            assert(edge_ok::<NM, CM, D, T>(c, i, g, b));
        }
    }
    if p > 0 {
        assert forall|i: int| 0 < i < c2.len() && parent_of(i) == p implies #[trigger] gp_ok::<NM, CM, D, T>(c2, i, g, b) by {
            let gp = parent_of(p);
            assert(edge_ok::<NM, CM, D, T>(c, p, g, b));
            if i != id {
                assert(edge_ok::<NM, CM, D, T>(c, i, g, b));
                D::lemma_strict_weak_order(c[gp].0, c[p].0, c[i].0, g, b);
            }
        }
    }
}

proof fn lemma_down_move<NM: NodeManager, CM: ContactManager, D: Distance<NM, CM>, T>(
    s: Seq<(PathFragment, T)>,
    id: int,
    m: int,
    fst: (PathFragment, T),
    g: Multigraph<NM, CM>,
    b: Bundle,
)
    requires
        0 <= id < m < s.len(),
        parent_of(m) == id,
        down_ok::<NM, CM, D, T>(s, id, fst, g, b),
        D::shorter(s[m].0, fst.0, g, b),
        forall|i: int| 0 < i < s.len() && parent_of(i) == id ==> !D::shorter(#[trigger] s[i].0, s[m].0, g, b),
    ensures
        down_ok::<NM, CM, D, T>(s.update(id, s[m]), m, fst, g, b),
        s.update(id, s[m]).update(m, fst).to_multiset() == s.update(id, fst).to_multiset(),
{
    let c = s.update(id, fst);
    let s2 = s.update(id, s[m]);
    let c2 = s2.update(m, fst);
    assert(c2 == c.update(id, c[m]).update(m, fst));
    vstd::seq_lib::to_multiset_update(c, id, c[m]);
    vstd::seq_lib::to_multiset_update(c.update(id, c[m]), m, fst);
    vstd::seq_lib::to_multiset_contains(c, fst);
    vstd::seq_lib::to_multiset_contains(c, c[m]);
    assert(c[id] == fst);
    assert(c.update(id, c[m])[m] == c[m]);
    assert(c2.to_multiset() =~= c.to_multiset()) by {
        broadcast use vstd::multiset::group_multiset_axioms;
    }
    assert forall|i: int| 0 < i < c2.len() && parent_of(i) != m implies #[trigger] edge_ok::<NM, CM, D, T>(c2, i, g, b) by {
        let q = parent_of(i);
        if i == m {
            D::lemma_strict_weak_order(c[m].0, fst.0, c[m].0, g, b);
        } else if q == id {
            assert(!D::shorter(s[i].0, s[m].0, g, b));
        } else if i == id {
            assert(gp_ok::<NM, CM, D, T>(c, m, g, b));
        } else {
            assert(edge_ok::<NM, CM, D, T>(c, i, g, b));
        }
    }
    assert forall|i: int| 0 < i < c2.len() && parent_of(i) == m implies #[trigger] gp_ok::<NM, CM, D, T>(c2, i, g, b) by {
        assert(edge_ok::<NM, CM, D, T>(c, i, g, b));
    }
}

/// A min priority queue of path fragments with attached data, ordered by the distance `D`,
/// kept as a binary heap.
pub struct PrioQueue<D: Distance<NM, CM>, NM: NodeManager, CM: ContactManager, T: Copy> {
    elts: Vec<(PathFragment, T)>,
    _phantom: PhantomData<(D, NM, CM)>,
}

impl<D: Distance<NM, CM>, NM: NodeManager, CM: ContactManager, T: Copy> View for PrioQueue<D, NM, CM, T> {
    type V = Multiset<(PathFragment, T)>;

    closed spec fn view(&self) -> Multiset<(PathFragment, T)> {
        self.elts@.to_multiset()
    }
}

impl<D: Distance<NM, CM>, NM: NodeManager, CM: ContactManager, T: Copy> PrioQueue<D, NM, CM, T> {
    /// The queue is ordered for comparisons made against `graph` and `bundle`.
    pub closed spec fn heap_ok(&self, graph: Multigraph<NM, CM>, bundle: Bundle) -> bool {
        heap_seq_ok::<NM, CM, D, T>(self.elts@, graph, bundle)
    }

    /// Creates an empty queue.
    pub fn new() -> (r: Self)
        ensures
            r@ == Multiset::<(PathFragment, T)>::empty(),
            forall|g: Multigraph<NM, CM>, b: Bundle| #[trigger] r.heap_ok(g, b),
    {
        let r = PrioQueue { elts: Vec::new(), _phantom: PhantomData };
        proof {
            assert(r.elts@ =~= Seq::<(PathFragment, T)>::empty());
            vstd::seq_lib::to_multiset_len(r.elts@);
            assert(r@ =~= Multiset::<(PathFragment, T)>::empty()) by {
                broadcast use vstd::multiset::group_multiset_axioms;
            }
        }
        r
    }

    /// Creates an empty queue with room for `capacity` elements.
    pub fn with_capacity(capacity: usize) -> (r: Self)
        ensures
            r@ == Multiset::<(PathFragment, T)>::empty(),
            forall|g: Multigraph<NM, CM>, b: Bundle| #[trigger] r.heap_ok(g, b),
    {
        let r = PrioQueue { elts: Vec::with_capacity(capacity), _phantom: PhantomData };
        proof {
            vstd::seq_lib::to_multiset_len(r.elts@);
            assert(r@ =~= Multiset::<(PathFragment, T)>::empty()) by {
                broadcast use vstd::multiset::group_multiset_axioms;
            }
        }
        r
    }

    fn left_child(&self, i: usize) -> (r: Option<usize>)
        ensures
            r is Some <==> 2 * i + 1 < self.elts@.len(),
            r matches Some(c) ==> c == 2 * i + 1,
    {
        let n = self.elts.len();
        match i.checked_mul(2) {
            None => None,
            Some(d) => match d.checked_add(1) {
                None => None,
                Some(child) => {
                    if child >= n {
                        None
                    } else {
                        Some(child)
                    }
                },
            },
        }
    }

    fn right_child(&self, i: usize) -> (r: Option<usize>)
        ensures
            r is Some <==> 2 * i + 2 < self.elts@.len(),
            r matches Some(c) ==> c == 2 * i + 2,
    {
        let n = self.elts.len();
        match i.checked_mul(2) {
            None => None,
            Some(d) => match d.checked_add(2) {
                None => None,
                Some(child) => {
                    if child >= n {
                        None
                    } else {
                        Some(child)
                    }
                },
            },
        }
    }

    /// Inserts an element, ordering it by the distance for `graph` and `bundle`.
    pub fn insert(&mut self, elt: (PathFragment, T), graph: &Multigraph<NM, CM>, bundle: &Bundle)
        requires
            old(self).heap_ok(*graph, *bundle),
        ensures
            final(self).heap_ok(*graph, *bundle),
            final(self)@ == old(self)@.insert(elt),
    {
        let ghost old_s = self.elts@;
        let mut id = self.elts.len();
        self.elts.push(elt);
        proof {
            let s = self.elts@;
            assert(s.update(id as int, elt) == s);
            vstd::seq_lib::to_multiset_build(old_s, elt);
            assert forall|i: int| 0 < i < s.len() && i != id implies #[trigger] edge_ok::<NM, CM, D, T>(
                s.update(id as int, elt),
                i,
                *graph,
                *bundle,
            ) by {
                assert(edge_ok::<NM, CM, D, T>(old_s, i, *graph, *bundle));
            }
        }
        while id > 0 && shorter_than::<NM, CM, D>(&elt.0, &self.elts[(id - 1) / 2].0, graph, bundle)
            invariant
                id < self.elts@.len(),
                self.elts@.len() == old_s.len() + 1,
                up_ok::<NM, CM, D, T>(self.elts@, id as int, elt, *graph, *bundle),
                self.elts@.update(id as int, elt).to_multiset() == old_s.to_multiset().insert(elt),
            decreases id,
        {
            let p = (id - 1) / 2;
            proof {
                lemma_up_step::<NM, CM, D, T>(self.elts@, id as int, elt, *graph, *bundle);
            }
            let pv = self.elts[p];
            self.elts.set(id, pv);
            id = p;
        }
        self.elts.set(id, elt);
        proof {
            let c = self.elts@;
            assert forall|i: int| 0 < i < c.len() implies #[trigger] edge_ok::<NM, CM, D, T>(c, i, *graph, *bundle) by {
                if i == id {
                    assert(!D::shorter(elt.0, c[parent_of(i)].0, *graph, *bundle));
                }
            }
        }
    }

    /// The best element, if any.
    pub fn peek_min(&self) -> (r: Option<&(PathFragment, T)>)
        ensures
            r is None <==> self@.len() == 0,
            r matches Some(x) ==> {
                &&& self@.count(*x) > 0
                &&& forall|g: Multigraph<NM, CM>, b: Bundle, y: (PathFragment, T)|
                    self.heap_ok(g, b) && self@.count(y) > 0 ==> !D::shorter(y.0, x.0, g, b)
            },
    {
        proof {
            vstd::seq_lib::to_multiset_len(self.elts@);
        }
        if self.elts.len() == 0 {
            None
        } else {
            let x = &self.elts[0];
            proof {
                vstd::seq_lib::to_multiset_contains(self.elts@, *x);
                assert forall|g: Multigraph<NM, CM>, b: Bundle, y: (PathFragment, T)|
                    self.heap_ok(g, b) && self@.count(y) > 0 implies !D::shorter(y.0, x.0, g, b) by {
                    vstd::seq_lib::to_multiset_contains(self.elts@, y);
                    let i = choose|i: int| 0 <= i < self.elts@.len() && self.elts@[i] == y;
                    lemma_root_min::<NM, CM, D, T>(self.elts@, g, b, i);
                }
            }
            Some(x)
        }
    }

    /// Removes and returns the best element, if any, keeping the queue ordered for `graph` and
    /// `bundle`.
    pub fn pop_min(&mut self, graph: &Multigraph<NM, CM>, bundle: &Bundle) -> (r: Option<(PathFragment, T)>)
        requires
            old(self).heap_ok(*graph, *bundle),
        ensures
            final(self).heap_ok(*graph, *bundle),
            r is None <==> old(self)@.len() == 0,
            r is None ==> final(self)@ == old(self)@,
            r matches Some(x) ==> {
                &&& old(self)@.count(x) > 0
                &&& final(self)@ == old(self)@.remove(x)
                &&& forall|y: (PathFragment, T)|
                    old(self)@.count(y) > 0 ==> !D::shorter(y.0, x.0, *graph, *bundle)
            },
    {
        let ghost s0 = self.elts@;
        proof {
            vstd::seq_lib::to_multiset_len(s0);
        }
        if self.elts.len() == 0 {
            return None;
        }
        let ret = self.elts[0];
        proof {
            vstd::seq_lib::to_multiset_contains(s0, ret);
            assert forall|y: (PathFragment, T)| s0.to_multiset().count(y) > 0 implies !D::shorter(
                y.0,
                ret.0,
                *graph,
                *bundle,
            ) by {
                vstd::seq_lib::to_multiset_contains(s0, y);
                let i = choose|i: int| 0 <= i < s0.len() && s0[i] == y;
                lemma_root_min::<NM, CM, D, T>(s0, *graph, *bundle, i);
            }
        }
        let fst = self.elts.pop().unwrap();
        proof {
            let s = self.elts@;
            assert(s == s0.remove(s0.len() - 1));
            vstd::seq_lib::to_multiset_remove(s0, s0.len() - 1);
        }
        if self.elts.len() > 0 {
            let ghost target = s0.to_multiset().remove(ret);
            proof {
                let s = self.elts@;
                vstd::seq_lib::to_multiset_update(s, 0, fst);
                vstd::seq_lib::to_multiset_contains(s0, fst);
                vstd::seq_lib::to_multiset_contains(s0, ret);
                vstd::seq_lib::to_multiset_contains(s, ret);
                assert(s[0] == ret);
                assert(s0[s0.len() - 1] == fst);
                assert(s.update(0, fst).to_multiset() =~= target) by {
                    broadcast use vstd::multiset::group_multiset_axioms;
                }
                assert forall|i: int| 0 < i < s.len() && parent_of(i) != 0 implies #[trigger] edge_ok::<NM, CM, D, T>(
                    s.update(0, fst),
                    i,
                    *graph,
                    *bundle,
                ) by {
                    assert(edge_ok::<NM, CM, D, T>(s0, i, *graph, *bundle));
                }
            }
            let mut id: usize = 0;
            loop
                invariant_except_break
                    id < self.elts@.len(),
                    down_ok::<NM, CM, D, T>(self.elts@, id as int, fst, *graph, *bundle),
                    self.elts@.update(id as int, fst).to_multiset() == target,
                invariant
                    self.elts@.len() == s0.len() - 1,
                ensures
                    heap_seq_ok::<NM, CM, D, T>(self.elts@, *graph, *bundle),
                    self.elts@.to_multiset() == target,
                decreases self.elts@.len() - id,
            {
                let ghost s = self.elts@;
                let ghost c = s.update(id as int, fst);
                match self.left_child(id) {
                    None => {
                        self.elts.set(id, fst);
                        proof {
                            assert forall|i: int| 0 < i < c.len() implies #[trigger] edge_ok::<NM, CM, D, T>(
                                c,
                                i,
                                *graph,
                                *bundle,
                            ) by {
                                if parent_of(i) == id {
                                    assert(i == 2 * id + 1 || i == 2 * id + 2);
                                }
                            }
                        }
                        break;
                    },
                    Some(left) => {
                        match self.right_child(id) {
                            None => {
                                if shorter_than::<NM, CM, D>(&self.elts[left].0, &fst.0, graph, bundle) {
                                    proof {
                                        D::lemma_strict_weak_order(s[left as int].0, s[left as int].0, s[left as int].0, *graph, *bundle);
                                        assert forall|i: int| 0 < i < s.len() && parent_of(i) == id implies !D::shorter(
                                            #[trigger] s[i].0,
                                            s[left as int].0,
                                            *graph,
                                            *bundle,
                                        ) by {
                                            assert(i == left);
                                        }
                                        lemma_down_move::<NM, CM, D, T>(s, id as int, left as int, fst, *graph, *bundle);
                                    }
                                    let lv = self.elts[left];
                                    self.elts.set(id, lv);
                                    self.elts.set(left, fst);
                                    proof {
                                        let f = self.elts@;
                                        assert forall|i: int| 0 < i < f.len() implies #[trigger] edge_ok::<NM, CM, D, T>(
                                            f,
                                            i,
                                            *graph,
                                            *bundle,
                                        ) by {
                                            assert(parent_of(i) != left);
                                        }
                                    }
                                } else {
                                    self.elts.set(id, fst);
                                    proof {
                                        assert forall|i: int| 0 < i < c.len() implies #[trigger] edge_ok::<NM, CM, D, T>(
                                            c,
                                            i,
                                            *graph,
                                            *bundle,
                                        ) by {
                                            if parent_of(i) == id {
                                                assert(i == left);
                                            }
                                        }
                                    }
                                }
                                break;
                            },
                            Some(right) => {
                                let min = if shorter_than::<NM, CM, D>(
                                    &self.elts[left].0,
                                    &self.elts[right].0,
                                    graph,
                                    bundle,
                                ) {
                                    left
                                } else {
                                    right
                                };
                                proof {
                                    D::lemma_strict_weak_order(s[left as int].0, s[right as int].0, s[left as int].0, *graph, *bundle);
                                    D::lemma_strict_weak_order(s[right as int].0, s[right as int].0, s[right as int].0, *graph, *bundle);
                                    D::lemma_strict_weak_order(s[left as int].0, s[left as int].0, s[left as int].0, *graph, *bundle);
                                }
                                if shorter_than::<NM, CM, D>(&self.elts[min].0, &fst.0, graph, bundle) {
                                    proof {
                                        assert forall|i: int| 0 < i < s.len() && parent_of(i) == id implies !D::shorter(
                                            #[trigger] s[i].0,
                                            s[min as int].0,
                                            *graph,
                                            *bundle,
                                        ) by {
                                            assert(i == left || i == right);
                                        }
                                        lemma_down_move::<NM, CM, D, T>(s, id as int, min as int, fst, *graph, *bundle);
                                    }
                                    let mv = self.elts[min];
                                    self.elts.set(id, mv);
                                    id = min;
                                } else {
                                    self.elts.set(id, fst);
                                    proof {
                                        if min == left {
                                            D::lemma_strict_weak_order(s[left as int].0, s[right as int].0, fst.0, *graph, *bundle);
                                        } else {
                                            D::lemma_strict_weak_order(fst.0, s[right as int].0, s[left as int].0, *graph, *bundle);
                                        }
                                        assert forall|i: int| 0 < i < c.len() implies #[trigger] edge_ok::<NM, CM, D, T>(
                                            c,
                                            i,
                                            *graph,
                                            *bundle,
                                        ) by {
                                            if parent_of(i) == id {
                                                assert(i == left || i == right);
                                            }
                                        }
                                    }
                                    break;
                                }
                            },
                        }
                    },
                }
            }
        } else {
            proof {
                assert(self.elts@.to_multiset() =~= s0.to_multiset().remove(ret)) by {
                    broadcast use vstd::multiset::group_multiset_axioms;
                    vstd::seq_lib::to_multiset_len(self.elts@);
                    vstd::seq_lib::to_multiset_len(s0);
                }
            }
        }
        Some(ret)
    }

    /// Whether the queue is empty.
    pub fn is_empty(&self) -> (r: bool)
        ensures
            r == (self@.len() == 0),
    {
        proof {
            vstd::seq_lib::to_multiset_len(self.elts@);
        }
        self.elts.len() == 0
    }
}

} // verus!
