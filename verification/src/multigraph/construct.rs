//! Building a multigraph from a contact plan.

use vstd::prelude::*;

use crate::contact::Contact;
use crate::contact_manager::ContactManager;
use crate::contact_plan::{enodes_of, inodes_of, lemma_split_count, ContactPlan, RealNode};
use crate::errors::ASABRError;
use crate::multigraph::{
    real_index, ENodeRef, INodeRef, Multigraph, Neighbours, RealNeighbour, RealNodeRef, VNodeRef,
    VirtualNeighbour,
};
use crate::node::Node;
use crate::node_manager::NodeManager;
use crate::vnode::VirtualNodeInfo;

verus! {

/// Reverses a vector.
pub fn reverse_vec<T>(v: Vec<T>) -> (r: Vec<T>)
    ensures
        r@.len() == v@.len(),
        forall|i: int| 0 <= i < v@.len() ==> #[trigger] r@[i] == v@[v@.len() - 1 - i],
{
    let ghost s0 = v@;
    let mut src = v;
    let mut rev: Vec<T> = Vec::new();
    while src.len() > 0
        invariant
            src@ == s0.take(src@.len() as int),
            src@.len() <= s0.len(),
            rev@.len() == s0.len() - src@.len(),
            forall|i: int| 0 <= i < rev@.len() ==> #[trigger] rev@[i] == s0[s0.len() - 1 - i],
        decreases src@.len(),
    {
        let x = src.pop().unwrap();
        rev.push(x);
    }
    rev
}

/// Splits real nodes into the internal and the external ones, keeping their order.
pub fn split_real_nodes<NM: NodeManager>(v: Vec<RealNode<NM>>) -> (r: (Vec<Node<NM>>, Vec<Node<NM>>))
    ensures
        r.0@ == inodes_of(v@),
        r.1@ == enodes_of(v@),
{
    let ghost s0 = v@;
    let n = v.len();
    let mut rev = reverse_vec(v);
    let mut internal: Vec<Node<NM>> = Vec::new();
    let mut external: Vec<Node<NM>> = Vec::new();
    let mut k: usize = 0;
    while rev.len() > 0
        invariant
            n == s0.len(),
            k + rev@.len() == n,
            forall|i: int| 0 <= i < rev@.len() ==> #[trigger] rev@[i] == s0[n - 1 - i],
            internal@ == inodes_of(s0.take(k as int)),
            external@ == enodes_of(s0.take(k as int)),
        decreases rev@.len(),
    {
        let ghost last = rev@[rev@.len() - 1];
        let x = rev.pop().unwrap();
        assert(x == s0[k as int]);
        assert(s0.take(k + 1).drop_last() == s0.take(k as int));
        assert(s0.take(k + 1).last() == x);
        match x {
            RealNode::Inode(node) => internal.push(node),
            RealNode::Enode(node) => external.push(node),
        }
        k = k + 1;
    }
    assert(s0.take(n as int) == s0);
    (internal, external)
}

/// Separates contacts from the indices of their ends.
pub fn unzip_contacts<CM: ContactManager>(v: Vec<(Contact<CM>, usize, usize)>) -> (r: (
    Vec<Contact<CM>>,
    Vec<(usize, usize)>,
))
    ensures
        r.0@.len() == v@.len(),
        r.1@.len() == v@.len(),
        forall|i: int| 0 <= i < v@.len() ==> #[trigger] r.0@[i] == v@[i].0,
        forall|i: int| 0 <= i < v@.len() ==> #[trigger] r.1@[i] == (v@[i].1, v@[i].2),
{
    let ghost s0 = v@;
    let n = v.len();
    let mut rev = reverse_vec(v);
    let mut contacts: Vec<Contact<CM>> = Vec::new();
    let mut ends: Vec<(usize, usize)> = Vec::new();
    let mut k: usize = 0;
    while rev.len() > 0
        invariant
            n == s0.len(),
            k + rev@.len() == n,
            forall|i: int| 0 <= i < rev@.len() ==> #[trigger] rev@[i] == s0[n - 1 - i],
            contacts@.len() == k,
            ends@.len() == k,
            forall|i: int| 0 <= i < k ==> #[trigger] contacts@[i] == s0[i].0,
            forall|i: int| 0 <= i < k ==> #[trigger] ends@[i] == (s0[i].1, s0[i].2),
        decreases rev@.len(),
    {
        let x = rev.pop().unwrap();
        assert(x == s0[k as int]);
        let (c, a, b) = x;
        contacts.push(c);
        ends.push((a, b));
        k = k + 1;
    }
    (contacts, ends)
}

/// The reference of the real node with index `r` in the plan's numbering.
pub open spec fn spec_real_ref(r: int, ni: int) -> RealNodeRef {
    if r < ni {
        RealNodeRef::I(INodeRef { index: r as usize })
    } else {
        RealNodeRef::E(ENodeRef { index: (r - ni) as usize })
    }
}

/// The reference of the real node with index `r` in the plan's numbering.
pub fn real_ref(r: usize, ni: usize) -> (x: RealNodeRef)
    ensures
        x == spec_real_ref(r as int, ni as int),
{
    if r < ni {
        RealNodeRef::I(INodeRef { index: r })
    } else {
        RealNodeRef::E(ENodeRef { index: r - ni })
    }
}

/// Every real node of every virtual node exists.
pub open spec fn vnodes_ok(vnodes: Seq<VirtualNodeInfo>, nr: int) -> bool {
    forall|v: int, k: int|
        0 <= v < vnodes.len() && 0 <= k < vnodes[v].rids@.len() ==> (
        #[trigger] vnodes[v].rids@[k]).index() < nr
}

/// Builds the members of each virtual node, and the virtual nodes of each real node.
pub fn build_virtual(vnodes: &Vec<VirtualNodeInfo>, ni: usize, nr: usize) -> (r: Option<
    (Vec<Vec<RealNodeRef>>, Vec<Vec<usize>>),
>)
    requires
        ni <= nr,
    ensures
        r is Some <==> vnodes_ok(vnodes@, nr as int),
        r matches Some(p) ==> {
            &&& p.0@.len() == vnodes@.len()
            &&& forall|v: int|
                0 <= v < vnodes@.len() ==> (#[trigger] p.0@[v])@.len() == vnodes@[v].rids@.len()
            &&& forall|v: int, k: int|
                0 <= v < vnodes@.len() && 0 <= k < vnodes@[v].rids@.len() ==> #[trigger] p.0@[v]@[k]
                    == spec_real_ref(vnodes@[v].rids@[k].index() as int, ni as int)
            &&& p.1@.len() == nr
            &&& forall|x: int, j: int|
                0 <= x < nr && 0 <= j < p.1@[x]@.len() ==> #[trigger] p.1@[x]@[j] < vnodes@.len()
                    && p.0@[p.1@[x]@[j] as int]@.contains(spec_real_ref(x, ni as int))
            &&& forall|v: int, k: int|
                0 <= v < vnodes@.len() && 0 <= k < vnodes@[v].rids@.len() ==> p.1@[(
                #[trigger] vnodes@[v].rids@[k]).index() as int]@.contains(v as usize)
        },
{
    let mut members: Vec<Vec<usize>> = Vec::new();
    let mut x: usize = 0;
    while x < nr
        invariant
            x <= nr,
            members@.len() == x,
            forall|y: int| 0 <= y < x ==> (#[trigger] members@[y])@.len() == 0,
        decreases nr - x,
    {
        members.push(Vec::new());
        x = x + 1;
    }
    let mut virtual_nodes: Vec<Vec<RealNodeRef>> = Vec::new();
    let mut v: usize = 0;
    while v < vnodes.len()
        invariant
            ni <= nr,
            v <= vnodes@.len(),
            virtual_nodes@.len() == v,
            members@.len() == nr,
            forall|w: int, k: int|
                0 <= w < v && 0 <= k < vnodes@[w].rids@.len() ==> (
                #[trigger] vnodes@[w].rids@[k]).index() < nr,
            forall|w: int|
                0 <= w < v ==> (#[trigger] virtual_nodes@[w])@.len() == vnodes@[w].rids@.len(),
            forall|w: int, k: int|
                0 <= w < v && 0 <= k < vnodes@[w].rids@.len() ==> #[trigger] virtual_nodes@[w]@[k]
                    == spec_real_ref(vnodes@[w].rids@[k].index() as int, ni as int),
            forall|y: int, j: int|
                0 <= y < nr && 0 <= j < members@[y]@.len() ==> #[trigger] members@[y]@[j] < v
                    && virtual_nodes@[members@[y]@[j] as int]@.contains(
                    spec_real_ref(y, ni as int),
                ),
            forall|w: int, k: int|
                0 <= w < v && 0 <= k < vnodes@[w].rids@.len() ==> members@[(
                #[trigger] vnodes@[w].rids@[k]).index() as int]@.contains(w as usize),
        decreases vnodes@.len() - v,
    {
        let rids = &vnodes[v].rids;
        let mut refs: Vec<RealNodeRef> = Vec::new();
        let ghost members0 = members@;
        let mut k: usize = 0;
        while k < rids.len()
            invariant
                ni <= nr,
                v < vnodes@.len(),
                k <= rids@.len(),
                rids@ == vnodes@[v as int].rids@,
                refs@.len() == k,
                members@.len() == nr,
                forall|j: int| 0 <= j < k ==> (#[trigger] rids@[j]).index() < nr,
                forall|j: int|
                    0 <= j < k ==> #[trigger] refs@[j] == spec_real_ref(
                        rids@[j].index() as int,
                        ni as int,
                    ),
                forall|y: int, j: int|
                    0 <= y < nr && 0 <= j < members@[y]@.len() ==> #[trigger] members@[y]@[j] <= v,
                forall|y: int, j: int|
                    0 <= y < nr && 0 <= j < members@[y]@.len() && #[trigger] members@[y]@[j] < v
                        ==> virtual_nodes@[members@[y]@[j] as int]@.contains(
                        spec_real_ref(y, ni as int),
                    ),
                forall|y: int, j: int|
                    0 <= y < nr && 0 <= j < members@[y]@.len() && #[trigger] members@[y]@[j] == v
                        ==> refs@.contains(spec_real_ref(y, ni as int)),
                forall|w: int, kk: int|
                    0 <= w < v && 0 <= kk < vnodes@[w].rids@.len() ==> (
                    #[trigger] vnodes@[w].rids@[kk]).index() < nr && members@[vnodes@[w].rids@[kk].index() as int]@.contains(
                        w as usize,
                    ),
                forall|j: int|
                    0 <= j < k ==> members@[(#[trigger] rids@[j]).index() as int]@.contains(v),
            decreases rids@.len() - k,
        {
            let rid = rids[k].as_usize();
            if rid >= nr {
                proof {
                    assert(vnodes@[v as int].rids@[k as int].index() >= nr);
                    assert(!vnodes_ok(vnodes@, nr as int));
                }
                return None;
            }
            let x = real_ref(rid, ni);
            let ghost old_refs = refs@;
            refs.push(x);
            let ghost refs1 = refs@;
            let ghost before = members@;
            members[rid].push(v);
            proof {
                assert(refs1[k as int] == x);
                assert forall|y: int, j: int|
                    0 <= y < nr && 0 <= j < members@[y]@.len() && #[trigger] members@[y]@[j] == v
                        implies refs@.contains(spec_real_ref(y, ni as int)) by {
                    if y == rid && j == before[y]@.len() {
                        assert(refs@[k as int] == spec_real_ref(y, ni as int));
                    } else {
                        assert(members@[y]@[j] == before[y]@[j]);
                        assert(old_refs.contains(spec_real_ref(y, ni as int)));
                        let jj = choose|jj: int|
                            0 <= jj < old_refs.len() && old_refs[jj] == spec_real_ref(y, ni as int);
                        assert(refs@[jj] == old_refs[jj]);
                    }
                }
                assert forall|y: int, j: int|
                    0 <= y < nr && 0 <= j < members@[y]@.len() && #[trigger] members@[y]@[j] < v
                        implies virtual_nodes@[members@[y]@[j] as int]@.contains(
                        spec_real_ref(y, ni as int),
                    ) by {
                    if !(y == rid && j == before[y]@.len()) {
                        assert(members@[y]@[j] == before[y]@[j]);
                    }
                }
                assert forall|y: int, j: int|
                    0 <= y < nr && 0 <= j < members@[y]@.len() implies #[trigger] members@[y]@[j]
                        <= v by {
                    if !(y == rid && j == before[y]@.len()) {
                        assert(members@[y]@[j] == before[y]@[j]);
                    }
                }
                assert forall|y: int, w: usize| 0 <= y < nr && #[trigger] before[y]@.contains(w) implies members@[y]@.contains(w) by {
                    let jj = choose|jj: int| 0 <= jj < before[y]@.len() && before[y]@[jj] == w;
                    assert(members@[y]@[jj] == before[y]@[jj]);
                }
                assert(members@[rid as int]@[before[rid as int]@.len() as int] == v);
                assert(members@[rid as int]@.contains(v));
                assert forall|w: int, kk: int|
                    0 <= w < v && 0 <= kk < vnodes@[w].rids@.len() implies (
                    #[trigger] vnodes@[w].rids@[kk]).index() < nr && members@[vnodes@[w].rids@[kk].index() as int]@.contains(
                        w as usize,
                    ) by {
                    let y = vnodes@[w].rids@[kk].index() as int;
                    assert(before[y]@.contains(w as usize));
                }
                assert forall|j: int| 0 <= j < k + 1 implies members@[(#[trigger] rids@[j]).index() as int]@.contains(v) by {
                    if j < k {
                        let y = rids@[j].index() as int;
                        assert(before[y]@.contains(v));
                    }
                }
            }
            k = k + 1;
        }
        virtual_nodes.push(refs);
        proof {
            assert forall|y: int, j: int|
                0 <= y < nr && 0 <= j < members@[y]@.len() implies #[trigger] members@[y]@[j] < v + 1
                    && virtual_nodes@[members@[y]@[j] as int]@.contains(
                    spec_real_ref(y, ni as int),
                ) by {
                if members@[y]@[j] < v {
                } else {
                    assert(members@[y]@[j] == v);
                }
            }
        }
        v = v + 1;
    }
    Some((virtual_nodes, members))
}

/// Contact `a` comes strictly before contact `b` in the order (sender, receiver, start, end).
pub open spec fn contact_key_lt<CM: ContactManager>(
    ends: Seq<(usize, usize)>,
    contacts: Seq<Contact<CM>>,
    a: int,
    b: int,
) -> bool {
    let (ta, ra) = ends[a];
    let (tb, rb) = ends[b];
    let la = contacts[a].lifespan;
    let lb = contacts[b].lifespan;
    ||| ta < tb
    ||| ta == tb && ra < rb
    ||| ta == tb && ra == rb && la.start < lb.start
    ||| ta == tb && ra == rb && la.start == lb.start && la.end < lb.end
}

fn contact_key_less<CM: ContactManager>(
    ends: &Vec<(usize, usize)>,
    contacts: &Vec<Contact<CM>>,
    a: usize,
    b: usize,
) -> (r: bool)
    requires
        a < ends@.len(),
        b < ends@.len(),
        ends@.len() == contacts@.len(),
    ensures
        r == contact_key_lt(ends@, contacts@, a as int, b as int),
{
    let (ta, ra) = ends[a];
    let (tb, rb) = ends[b];
    let la = contacts[a].lifespan;
    let lb = contacts[b].lifespan;
    ta < tb || (ta == tb && ra < rb) || (ta == tb && ra == rb && la.start < lb.start) || (ta == tb
        && ra == rb && la.start == lb.start && la.end < lb.end)
}

/// `order` holds each of the first `n` contact indices exactly once.
pub open spec fn is_permutation(order: Seq<usize>, n: int) -> bool {
    &&& order.len() == n
    &&& forall|i: int| 0 <= i < order.len() ==> #[trigger] order[i] < n
    &&& forall|i: int, j: int| 0 <= i < j < order.len() ==> order[i] != order[j]
    &&& forall|x: int| 0 <= x < n ==> #[trigger] order.contains(x as usize)
}

/// The contact indices in `order` are sorted by (sender, receiver, start, end).
pub open spec fn sorted_by_key<CM: ContactManager>(
    order: Seq<usize>,
    ends: Seq<(usize, usize)>,
    contacts: Seq<Contact<CM>>,
) -> bool {
    forall|i: int, j: int|
        0 <= i < j < order.len() ==> !contact_key_lt(
            ends,
            contacts,
            #[trigger] order[j] as int,
            #[trigger] order[i] as int,
        )
}

/// Sorts the contact indices by (sender, receiver, start, end), keeping the plan's order between
/// equal keys.
pub fn sort_contacts<CM: ContactManager>(ends: &Vec<(usize, usize)>, contacts: &Vec<Contact<CM>>) -> (r:
    Vec<usize>)
    requires
        ends@.len() == contacts@.len(),
    ensures
        is_permutation(r@, ends@.len() as int),
        sorted_by_key(r@, ends@, contacts@),
{
    let n = ends.len();
    let mut order: Vec<usize> = Vec::new();
    let mut c: usize = 0;
    while c < n
        invariant
            n == ends@.len(),
            ends@.len() == contacts@.len(),
            c <= n,
            is_permutation(order@, c as int),
            sorted_by_key(order@, ends@, contacts@),
        decreases n - c,
    {
        let mut p: usize = 0;
        while p < order.len() && !contact_key_less(ends, contacts, c, order[p])
            invariant
                n == ends@.len(),
                ends@.len() == contacts@.len(),
                c < n,
                p <= order@.len(),
                is_permutation(order@, c as int),
                forall|i: int|
                    0 <= i < p ==> !contact_key_lt(ends@, contacts@, c as int, #[trigger] order@[i] as int),
            decreases order@.len() - p,
        {
            p = p + 1;
        }
        let ghost old_order = order@;
        order.insert(p, c);
        proof {
            let o = order@;
            assert(o == old_order.insert(p as int, c));
            assert forall|i: int| 0 <= i < o.len() implies #[trigger] o[i] < c + 1 by {
                if i < p {
                    assert(o[i] == old_order[i]);
                } else if i > p {
                    assert(o[i] == old_order[i - 1]);
                }
            }
            assert forall|i: int, j: int| 0 <= i < j < o.len() implies o[i] != o[j] by {
                if i < p && j < p {
                    assert(o[i] == old_order[i] && o[j] == old_order[j]);
                } else if i < p && j == p {
                    assert(o[i] == old_order[i]);
                } else if i < p && j > p {
                    assert(o[i] == old_order[i] && o[j] == old_order[j - 1]);
                } else if i == p {
                    assert(o[j] == old_order[j - 1]);
                } else {
                    assert(o[i] == old_order[i - 1] && o[j] == old_order[j - 1]);
                }
            }
            assert forall|x: int| 0 <= x < c + 1 implies #[trigger] o.contains(x as usize) by {
                if x == c {
                    assert(o[p as int] == c);
                } else {
                    assert(old_order.contains(x as usize));
                    let k = choose|k: int| 0 <= k < old_order.len() && old_order[k] == x as usize;
                    if k < p {
                        assert(o[k] == old_order[k]);
                    } else {
                        assert(o[k + 1] == old_order[k]);
                    }
                }
            }
            assert forall|i: int, j: int| 0 <= i < j < o.len() implies !contact_key_lt(
                ends@,
                contacts@,
                #[trigger] o[j] as int,
                #[trigger] o[i] as int,
            ) by {
                if i < p && j < p {
                    assert(o[i] == old_order[i] && o[j] == old_order[j]);
                } else if i < p && j == p {
                    assert(o[i] == old_order[i]);
                } else if i < p && j > p {
                    assert(o[i] == old_order[i] && o[j] == old_order[j - 1]);
                } else if i == p {
                    assert(o[j] == old_order[j - 1]);
                    if j - 1 > p {
                        assert(!contact_key_lt(ends@, contacts@, old_order[j - 1] as int, old_order[p as int] as int));
                    }
                } else {
                    assert(o[i] == old_order[i - 1] && o[j] == old_order[j - 1]);
                }
            }
        }
        c = c + 1;
    }
    order
}

/// Every contact goes from an internal node to a real node.
pub open spec fn ends_ok(ends: Seq<(usize, usize)>, ni: int, nr: int) -> bool {
    forall|c: int| 0 <= c < ends.len() ==> (#[trigger] ends[c]).0 < ni && ends[c].1 < nr
}

/// Every virtual node a real node belongs to exists.
pub open spec fn members_ok(members: Seq<Vec<usize>>, nr: int, nv: int) -> bool {
    &&& members.len() == nr
    &&& forall|x: int, j: int| 0 <= x < nr && 0 <= j < members[x]@.len() ==> #[trigger] members[x]@[j] < nv
}

/// Every contact listed towards an internal neighbour goes from the node to that neighbour.
pub open spec fn reals_sound(nb: Seq<Neighbours>, ends: Seq<(usize, usize)>, ni: int) -> bool {
    forall|s: int, k: int|
        0 <= s < nb.len() && 0 <= k < nb[s].reals@.len() ==> {
            let rn = #[trigger] nb[s].reals@[k];
            &&& rn.node.index < ni
            &&& forall|j: int|
                0 <= j < rn.contacts@.len() ==> #[trigger] rn.contacts@[j] < ends.len()
                    && ends[rn.contacts@[j] as int] == (s as usize, rn.node.index)
        }
}

/// Every contact listed towards a virtual neighbour goes from the node to the listed real node.
pub open spec fn virtuals_sound(nb: Seq<Neighbours>, ends: Seq<(usize, usize)>, ni: int, nv: int) -> bool {
    forall|s: int, k: int|
        0 <= s < nb.len() && 0 <= k < nb[s].virtuals@.len() ==> {
            let vn = #[trigger] nb[s].virtuals@[k];
            &&& vn.vnode.index < nv
            &&& forall|j: int|
                0 <= j < vn.contacts@.len() ==> {
                    let e = #[trigger] vn.contacts@[j];
                    &&& e.1 < ends.len()
                    &&& ends[e.1 as int].0 == s
                    &&& e.0 == spec_real_ref(ends[e.1 as int].1 as int, ni)
                }
        }
}

/// Contact `c` is listed among the contacts from `s` towards the internal node `r`.
pub open spec fn real_listed(nb: Seq<Neighbours>, s: int, r: int, c: int) -> bool {
    exists|k: int|
        0 <= k < nb[s].reals@.len() && (#[trigger] nb[s].reals@[k]).node.index == r
            && nb[s].reals@[k].contacts@.contains(c as usize)
}

/// Entry `e` is listed among the contacts from `s` towards the virtual node `v`.
pub open spec fn virtual_listed(nb: Seq<Neighbours>, s: int, v: int, e: (RealNodeRef, usize)) -> bool {
    exists|k: int|
        0 <= k < nb[s].virtuals@.len() && (#[trigger] nb[s].virtuals@[k]).vnode.index == v
            && nb[s].virtuals@[k].contacts@.contains(e)
}

/// Every contact towards an internal node is listed among the neighbours of its sender.
pub open spec fn reals_complete(nb: Seq<Neighbours>, ends: Seq<(usize, usize)>, ni: int) -> bool {
    forall|c: int|
        0 <= c < ends.len() && (#[trigger] ends[c]).1 < ni ==> real_listed(
            nb,
            ends[c].0 as int,
            ends[c].1 as int,
            c,
        )
}

/// Every contact towards a member of a virtual node is listed among the virtual neighbours of
/// its sender.
pub open spec fn virtuals_complete(
    nb: Seq<Neighbours>,
    ends: Seq<(usize, usize)>,
    members: Seq<Vec<usize>>,
    ni: int,
) -> bool {
    forall|c: int, j: int|
        0 <= c < ends.len() && 0 <= j < members[ends[c].1 as int]@.len() ==> virtual_listed(
            nb,
            ends[c].0 as int,
            #[trigger] members[ends[c].1 as int]@[j] as int,
            (spec_real_ref(ends[c].1 as int, ni), c as usize),
        )
}

/// The contacts towards each internal neighbour are sorted by (start, end).
pub open spec fn reals_sorted<CM: ContactManager>(
    nb: Seq<Neighbours>,
    ends: Seq<(usize, usize)>,
    contacts: Seq<Contact<CM>>,
) -> bool {
    forall|s: int, k: int, j1: int, j2: int|
        0 <= s < nb.len() && 0 <= k < nb[s].reals@.len() && 0 <= j1 < j2 < nb[s].reals@[k].contacts@.len()
            ==> !contact_key_lt(
            ends,
            contacts,
            #[trigger] nb[s].reals@[k].contacts@[j2] as int,
            #[trigger] nb[s].reals@[k].contacts@[j1] as int,
        )
}

/// `x` is one of the first `p` entries of `order`.
pub open spec fn among_first(order: Seq<usize>, p: int, x: usize) -> bool {
    exists|q: int| 0 <= q < p && order[q] == x
}

/// Every contact listed towards an internal neighbour is one of the first `p` of `order`.
pub open spec fn listed_before(nb: Seq<Neighbours>, order: Seq<usize>, p: int) -> bool {
    forall|s: int, k: int, j: int|
        0 <= s < nb.len() && 0 <= k < nb[s].reals@.len() && 0 <= j < nb[s].reals@[k].contacts@.len()
            ==> among_first(order, p, #[trigger] nb[s].reals@[k].contacts@[j])
}

/// The contacts at positions before `p` in `order` towards internal nodes are listed.
pub open spec fn reals_done(nb: Seq<Neighbours>, ends: Seq<(usize, usize)>, order: Seq<usize>, p: int, ni: int) -> bool {
    forall|q: int|
        0 <= q < p && ends[#[trigger] order[q] as int].1 < ni ==> real_listed(
            nb,
            ends[order[q] as int].0 as int,
            ends[order[q] as int].1 as int,
            order[q] as int,
        )
}

/// The contacts at positions before `p` in `order` are listed under every virtual node their
/// receiver belongs to; the one at position `p`, under the first `jmax` of them.
pub open spec fn virtuals_done(
    nb: Seq<Neighbours>,
    ends: Seq<(usize, usize)>,
    members: Seq<Vec<usize>>,
    order: Seq<usize>,
    p: int,
    jmax: int,
    ni: int,
) -> bool {
    forall|q: int, j: int|
        0 <= q <= p && 0 <= j < members[ends[order[q] as int].1 as int]@.len() && (q < p || j < jmax)
            ==> virtual_listed(
            nb,
            ends[order[q] as int].0 as int,
            #[trigger] members[ends[order[q] as int].1 as int]@[j] as int,
            (spec_real_ref(ends[order[q] as int].1 as int, ni), order[q]),
        )
}

/// `after` is `before` with contact `c` added to the contacts from `s` towards `r`.
pub open spec fn real_added(before: Seq<Neighbours>, after: Seq<Neighbours>, s: int, r: int, c: usize) -> bool {
    &&& after.len() == before.len()
    &&& forall|s2: int| 0 <= s2 < before.len() && s2 != s ==> #[trigger] after[s2] == before[s2]
    &&& after[s].virtuals == before[s].virtuals
    &&& before[s].reals@.len() <= after[s].reals@.len() <= before[s].reals@.len() + 1
    &&& forall|k: int|
        0 <= k < before[s].reals@.len() ==> {
            &&& (#[trigger] after[s].reals@[k]).node == before[s].reals@[k].node
            &&& (after[s].reals@[k].contacts@ == before[s].reals@[k].contacts@ || (
            after[s].reals@[k].contacts@ == before[s].reals@[k].contacts@.push(c)
                && before[s].reals@[k].node.index == r))
        }
    &&& after[s].reals@.len() > before[s].reals@.len() ==> {
        let e = after[s].reals@[before[s].reals@.len() as int];
        &&& e.node.index == r
        &&& e.contacts@ == seq![c]
    }
    &&& real_listed(after, s, r, c as int)
}

/// `after` is `before` with entry `e` added to the contacts from `s` towards virtual node `v`.
pub open spec fn virtual_added(
    before: Seq<Neighbours>,
    after: Seq<Neighbours>,
    s: int,
    v: int,
    e: (RealNodeRef, usize),
) -> bool {
    &&& after.len() == before.len()
    &&& forall|s2: int| 0 <= s2 < before.len() && s2 != s ==> #[trigger] after[s2] == before[s2]
    &&& after[s].reals == before[s].reals
    &&& before[s].virtuals@.len() <= after[s].virtuals@.len() <= before[s].virtuals@.len() + 1
    &&& forall|k: int|
        0 <= k < before[s].virtuals@.len() ==> {
            &&& (#[trigger] after[s].virtuals@[k]).vnode == before[s].virtuals@[k].vnode
            &&& (after[s].virtuals@[k].contacts@ == before[s].virtuals@[k].contacts@
                || after[s].virtuals@[k].contacts@ == before[s].virtuals@[k].contacts@.push(e))
        }
    &&& after[s].virtuals@.len() > before[s].virtuals@.len() ==> {
        let x = after[s].virtuals@[before[s].virtuals@.len() as int];
        &&& x.vnode.index == v
        &&& x.contacts@ == seq![e]
    }
    &&& virtual_listed(after, s, v, e)
}

/// Two neighbour lists with the same internal neighbours.
pub open spec fn same_reals(a: Seq<Neighbours>, b: Seq<Neighbours>) -> bool {
    &&& a.len() == b.len()
    &&& forall|s: int| 0 <= s < a.len() ==> (#[trigger] a[s]).reals == b[s].reals
}

/// Two neighbour lists with the same virtual neighbours.
pub open spec fn same_virtuals(a: Seq<Neighbours>, b: Seq<Neighbours>) -> bool {
    &&& a.len() == b.len()
    &&& forall|s: int| 0 <= s < a.len() ==> (#[trigger] a[s]).virtuals == b[s].virtuals
}

fn find_virtual(list: &Vec<VirtualNeighbour>, v: usize) -> (r: Option<usize>)
    ensures
        r matches Some(k) ==> k < list@.len() && list@[k as int].vnode.index == v,
        r is None ==> forall|k: int| 0 <= k < list@.len() ==> #[trigger] list@[k].vnode.index != v,
{
    let mut k: usize = 0;
    while k < list.len()
        invariant
            k <= list@.len(),
            forall|j: int| 0 <= j < k ==> #[trigger] list@[j].vnode.index != v,
        decreases list@.len() - k,
    {
        if list[k].vnode.index == v {
            return Some(k);
        }
        k = k + 1;
    }
    None
}


fn add_real(nb: &mut Vec<Neighbours>, s: usize, r: usize, c: usize)
    requires
        s < old(nb)@.len(),
    ensures
        real_added(old(nb)@, final(nb)@, s as int, r as int, c),
{
    let n = nb[s].reals.len();
    if n > 0 && nb[s].reals[n - 1].node.index == r {
        nb[s].reals[n - 1].contacts.push(c);
        assert(nb@[s as int].reals@[n - 1].contacts@.last() == c);
        assert(nb@[s as int].reals@[n - 1].contacts@.contains(c));
    } else {
        nb[s].reals.push(RealNeighbour { node: INodeRef { index: r }, contacts: vec![c] });
        assert(nb@[s as int].reals@[n as int].contacts@[0] == c);
        assert(nb@[s as int].reals@[n as int].contacts@.contains(c));
        assert(nb@[s as int].reals@[n as int].contacts@ =~= seq![c]);
    }
}

fn add_virtual(nb: &mut Vec<Neighbours>, s: usize, v: usize, e: (RealNodeRef, usize))
    requires
        s < old(nb)@.len(),
    ensures
        virtual_added(old(nb)@, final(nb)@, s as int, v as int, e),
{
    match find_virtual(&nb[s].virtuals, v) {
        Some(k) => {
            nb[s].virtuals[k].contacts.push(e);
            assert(nb@[s as int].virtuals@[k as int].contacts@.last() == e);
            assert(nb@[s as int].virtuals@[k as int].contacts@.contains(e));
        },
        None => {
            let n = nb[s].virtuals.len();
            nb[s].virtuals.push(VirtualNeighbour { vnode: VNodeRef { index: v }, contacts: vec![e] });
            assert(nb@[s as int].virtuals@[n as int].contacts@[0] == e);
            assert(nb@[s as int].virtuals@[n as int].contacts@.contains(e));
            assert(nb@[s as int].virtuals@[n as int].contacts@ =~= seq![e]);
        },
    }
}

proof fn lemma_real_listed_row(a: Seq<Neighbours>, b: Seq<Neighbours>, s: int, r: int, c: int)
    requires
        0 <= s < a.len(),
        s < b.len(),
        a[s].reals == b[s].reals,
    ensures
        real_listed(a, s, r, c) == real_listed(b, s, r, c),
{
    if real_listed(a, s, r, c) {
        let k = choose|k: int|
            0 <= k < a[s].reals@.len() && (#[trigger] a[s].reals@[k]).node.index == r
                && a[s].reals@[k].contacts@.contains(c as usize);
        assert(b[s].reals@[k] == a[s].reals@[k]);
    }
    if real_listed(b, s, r, c) {
        let k = choose|k: int|
            0 <= k < b[s].reals@.len() && (#[trigger] b[s].reals@[k]).node.index == r
                && b[s].reals@[k].contacts@.contains(c as usize);
        assert(b[s].reals@[k] == a[s].reals@[k]);
    }
}

proof fn lemma_virtual_listed_row(a: Seq<Neighbours>, b: Seq<Neighbours>, s: int, v: int, e: (RealNodeRef, usize))
    requires
        0 <= s < a.len(),
        s < b.len(),
        a[s].virtuals == b[s].virtuals,
    ensures
        virtual_listed(a, s, v, e) == virtual_listed(b, s, v, e),
{
    if virtual_listed(a, s, v, e) {
        let k = choose|k: int|
            0 <= k < a[s].virtuals@.len() && (#[trigger] a[s].virtuals@[k]).vnode.index == v
                && a[s].virtuals@[k].contacts@.contains(e);
        assert(b[s].virtuals@[k] == a[s].virtuals@[k]);
    }
    if virtual_listed(b, s, v, e) {
        let k = choose|k: int|
            0 <= k < b[s].virtuals@.len() && (#[trigger] b[s].virtuals@[k]).vnode.index == v
                && b[s].virtuals@[k].contacts@.contains(e);
        assert(b[s].virtuals@[k] == a[s].virtuals@[k]);
    }
}

proof fn lemma_real_added_keeps(before: Seq<Neighbours>, after: Seq<Neighbours>, s: int, r: int, c: usize)
    requires
        0 <= s < before.len(),
        real_added(before, after, s, r, c),
    ensures
        forall|s2: int, r2: int, c2: int|
            0 <= s2 < before.len() && real_listed(before, s2, r2, c2) ==> #[trigger] real_listed(after, s2, r2, c2),
{
    assert forall|s2: int, r2: int, c2: int|
        0 <= s2 < before.len() && real_listed(before, s2, r2, c2) implies #[trigger] real_listed(after, s2, r2, c2) by {
        if s2 != s {
            assert(after[s2] == before[s2]);
            lemma_real_listed_row(before, after, s2, r2, c2);
        } else {
            let k = choose|k: int|
                0 <= k < before[s].reals@.len() && (#[trigger] before[s].reals@[k]).node.index == r2
                    && before[s].reals@[k].contacts@.contains(c2 as usize);
            let w = choose|w: int|
                0 <= w < before[s].reals@[k].contacts@.len() && before[s].reals@[k].contacts@[w] == c2 as usize;
            assert(after[s].reals@[k].node == before[s].reals@[k].node);
            assert(after[s].reals@[k].contacts@[w] == c2 as usize);
        }
    }
}

proof fn lemma_virtual_added_keeps(
    before: Seq<Neighbours>,
    after: Seq<Neighbours>,
    s: int,
    v: int,
    e: (RealNodeRef, usize),
)
    requires
        0 <= s < before.len(),
        virtual_added(before, after, s, v, e),
    ensures
        forall|s2: int, v2: int, e2: (RealNodeRef, usize)|
            0 <= s2 < before.len() && virtual_listed(before, s2, v2, e2) ==> #[trigger] virtual_listed(
                after,
                s2,
                v2,
                e2,
            ),
{
    assert forall|s2: int, v2: int, e2: (RealNodeRef, usize)|
        0 <= s2 < before.len() && virtual_listed(before, s2, v2, e2) implies #[trigger] virtual_listed(
            after,
            s2,
            v2,
            e2,
        ) by {
        if s2 != s {
            assert(after[s2] == before[s2]);
            lemma_virtual_listed_row(before, after, s2, v2, e2);
        } else {
            let k = choose|k: int|
                0 <= k < before[s].virtuals@.len() && (#[trigger] before[s].virtuals@[k]).vnode.index == v2
                    && before[s].virtuals@[k].contacts@.contains(e2);
            let w = choose|w: int|
                0 <= w < before[s].virtuals@[k].contacts@.len() && before[s].virtuals@[k].contacts@[w] == e2;
            assert(after[s].virtuals@[k].vnode == before[s].virtuals@[k].vnode);
            assert(after[s].virtuals@[k].contacts@[w] == e2);
        }
    }
}

proof fn lemma_real_added_sound(
    before: Seq<Neighbours>,
    after: Seq<Neighbours>,
    ends: Seq<(usize, usize)>,
    s: int,
    r: int,
    c: usize,
    ni: int,
)
    requires
        0 <= s < before.len(),
        real_added(before, after, s, r, c),
        reals_sound(before, ends, ni),
        c < ends.len(),
        ends[c as int] == (s as usize, r as usize),
        0 <= r < ni,
    ensures
        reals_sound(after, ends, ni),
{
    assert forall|s2: int, k: int| 0 <= s2 < after.len() && 0 <= k < after[s2].reals@.len() implies {
        let rn = #[trigger] after[s2].reals@[k];
        &&& rn.node.index < ni
        &&& forall|j: int|
            0 <= j < rn.contacts@.len() ==> #[trigger] rn.contacts@[j] < ends.len()
                && ends[rn.contacts@[j] as int] == (s2 as usize, rn.node.index)
    } by {
        if s2 != s {
            assert(after[s2] == before[s2]);
        } else if k < before[s].reals@.len() {
            let rn = after[s].reals@[k];
            let old_list = before[s].reals@[k].contacts@;
            assert forall|j: int| 0 <= j < rn.contacts@.len() implies #[trigger] rn.contacts@[j] < ends.len()
                && ends[rn.contacts@[j] as int] == (s2 as usize, rn.node.index) by {
                if j < old_list.len() {
                    assert(rn.contacts@[j] == old_list[j]);
                } else {
                    assert(rn.contacts@[j] == c);
                }
            }
        } else {
            let rn = after[s].reals@[k];
            assert(k == before[s].reals@.len());
            assert forall|j: int| 0 <= j < rn.contacts@.len() implies #[trigger] rn.contacts@[j] < ends.len()
                && ends[rn.contacts@[j] as int] == (s2 as usize, rn.node.index) by {
                assert(rn.contacts@[j] == c);
            }
        }
    }
}

proof fn lemma_virtual_added_sound(
    before: Seq<Neighbours>,
    after: Seq<Neighbours>,
    ends: Seq<(usize, usize)>,
    s: int,
    v: int,
    e: (RealNodeRef, usize),
    ni: int,
    nv: int,
)
    requires
        0 <= s < before.len(),
        virtual_added(before, after, s, v, e),
        virtuals_sound(before, ends, ni, nv),
        e.1 < ends.len(),
        ends[e.1 as int].0 == s,
        e.0 == spec_real_ref(ends[e.1 as int].1 as int, ni),
        0 <= v < nv,
    ensures
        virtuals_sound(after, ends, ni, nv),
{
    assert forall|s2: int, k: int| 0 <= s2 < after.len() && 0 <= k < after[s2].virtuals@.len() implies {
        let vn = #[trigger] after[s2].virtuals@[k];
        &&& vn.vnode.index < nv
        &&& forall|j: int|
            0 <= j < vn.contacts@.len() ==> {
                let x = #[trigger] vn.contacts@[j];
                &&& x.1 < ends.len()
                &&& ends[x.1 as int].0 == s2
                &&& x.0 == spec_real_ref(ends[x.1 as int].1 as int, ni)
            }
    } by {
        if s2 != s {
            assert(after[s2] == before[s2]);
        } else if k < before[s].virtuals@.len() {
            let vn = after[s].virtuals@[k];
            let old_list = before[s].virtuals@[k].contacts@;
            assert forall|j: int| 0 <= j < vn.contacts@.len() implies {
                let x = #[trigger] vn.contacts@[j];
                &&& x.1 < ends.len()
                &&& ends[x.1 as int].0 == s2
                &&& x.0 == spec_real_ref(ends[x.1 as int].1 as int, ni)
            } by {
                if j < old_list.len() {
                    assert(vn.contacts@[j] == old_list[j]);
                } else {
                    assert(vn.contacts@[j] == e);
                }
            }
        } else {
            let vn = after[s].virtuals@[k];
            assert(k == before[s].virtuals@.len());
            assert forall|j: int| 0 <= j < vn.contacts@.len() implies {
                let x = #[trigger] vn.contacts@[j];
                &&& x.1 < ends.len()
                &&& ends[x.1 as int].0 == s2
                &&& x.0 == spec_real_ref(ends[x.1 as int].1 as int, ni)
            } by {
                assert(vn.contacts@[j] == e);
            }
        }
    }
}

proof fn lemma_real_added_order<CM: ContactManager>(
    before: Seq<Neighbours>,
    after: Seq<Neighbours>,
    ends: Seq<(usize, usize)>,
    contacts: Seq<Contact<CM>>,
    order: Seq<usize>,
    p: int,
    s: int,
    r: int,
)
    requires
        0 <= s < before.len(),
        0 <= p < order.len(),
        real_added(before, after, s, r, order[p]),
        listed_before(before, order, p),
        reals_sorted(before, ends, contacts),
        sorted_by_key(order, ends, contacts),
    ensures
        listed_before(after, order, p + 1),
        reals_sorted(after, ends, contacts),
{
    let c = order[p];
    assert forall|s2: int, k: int, j: int|
        0 <= s2 < after.len() && 0 <= k < after[s2].reals@.len() && 0 <= j < after[s2].reals@[k].contacts@.len()
            implies among_first(order, p + 1, #[trigger] after[s2].reals@[k].contacts@[j]) by {
        if s2 != s {
            assert(after[s2] == before[s2]);
            let q = choose|q: int| 0 <= q < p && order[q] == before[s2].reals@[k].contacts@[j];
        } else if k < before[s].reals@.len() && j < before[s].reals@[k].contacts@.len() {
            assert(after[s].reals@[k].contacts@[j] == before[s].reals@[k].contacts@[j]);
            let q = choose|q: int| 0 <= q < p && order[q] == before[s].reals@[k].contacts@[j];
        } else {
            assert(after[s].reals@[k].contacts@[j] == c);
        }
    }
    assert forall|s2: int, k: int, j1: int, j2: int|
        0 <= s2 < after.len() && 0 <= k < after[s2].reals@.len() && 0 <= j1 < j2 < after[s2].reals@[k].contacts@.len()
            implies !contact_key_lt(
            ends,
            contacts,
            #[trigger] after[s2].reals@[k].contacts@[j2] as int,
            #[trigger] after[s2].reals@[k].contacts@[j1] as int,
        ) by {
        if s2 != s {
            assert(after[s2] == before[s2]);
        } else if k < before[s].reals@.len() {
            let old_list = before[s].reals@[k].contacts@;
            if j2 < old_list.len() {
                assert(after[s].reals@[k].contacts@[j1] == old_list[j1]);
                assert(after[s].reals@[k].contacts@[j2] == old_list[j2]);
            } else {
                assert(after[s].reals@[k].contacts@[j1] == old_list[j1]);
                assert(after[s].reals@[k].contacts@[j2] == c);
                let q = choose|q: int| 0 <= q < p && order[q] == old_list[j1];
                assert(!contact_key_lt(ends, contacts, order[p] as int, order[q] as int));
            }
        } else {
            assert(after[s].reals@[k].contacts@.len() == 1);
        }
    }
}

proof fn lemma_same_reals<CM: ContactManager>(
    a: Seq<Neighbours>,
    b: Seq<Neighbours>,
    ends: Seq<(usize, usize)>,
    contacts: Seq<Contact<CM>>,
    order: Seq<usize>,
    p: int,
    ni: int,
    nr: int,
)
    requires
        same_reals(a, b),
        a.len() == ni,
        ends_ok(ends, ni, nr),
        0 <= p <= order.len(),
        forall|i: int| 0 <= i < order.len() ==> #[trigger] order[i] < ends.len(),
    ensures
        reals_sound(a, ends, ni) ==> reals_sound(b, ends, ni),
        reals_done(a, ends, order, p, ni) ==> reals_done(b, ends, order, p, ni),
        listed_before(a, order, p) ==> listed_before(b, order, p),
        reals_sorted(a, ends, contacts) ==> reals_sorted(b, ends, contacts),
{
    if reals_sound(a, ends, ni) {
        assert forall|s: int, k: int| 0 <= s < b.len() && 0 <= k < b[s].reals@.len() implies {
            let rn = #[trigger] b[s].reals@[k];
            &&& rn.node.index < ni
            &&& forall|j: int|
                0 <= j < rn.contacts@.len() ==> #[trigger] rn.contacts@[j] < ends.len()
                    && ends[rn.contacts@[j] as int] == (s as usize, rn.node.index)
        } by {
            assert(a[s].reals == b[s].reals);
            assert(a[s].reals@[k] == b[s].reals@[k]);
        }
    }
    if reals_done(a, ends, order, p, ni) {
        assert forall|q: int| 0 <= q < p && ends[#[trigger] order[q] as int].1 < ni implies real_listed(
            b,
            ends[order[q] as int].0 as int,
            ends[order[q] as int].1 as int,
            order[q] as int,
        ) by {
            let c = order[q] as int;
            assert(order[q] < ends.len());
            let s2 = ends[c].0 as int;
            assert(a[s2].reals == b[s2].reals);
            lemma_real_listed_row(a, b, s2, ends[c].1 as int, c);
        }
    }
    if listed_before(a, order, p) {
        assert forall|s: int, k: int, j: int|
            0 <= s < b.len() && 0 <= k < b[s].reals@.len() && 0 <= j < b[s].reals@[k].contacts@.len()
                implies among_first(order, p, #[trigger] b[s].reals@[k].contacts@[j]) by {
            assert(a[s].reals == b[s].reals);
            assert(a[s].reals@[k] == b[s].reals@[k]);
            assert(a[s].reals@[k].contacts@[j] == b[s].reals@[k].contacts@[j]);
            let q = choose|q: int| 0 <= q < p && order[q] == a[s].reals@[k].contacts@[j];
            assert(order[q] == b[s].reals@[k].contacts@[j]);
        }
        assert(listed_before(b, order, p));
    }
    if reals_sorted(a, ends, contacts) {
        assert forall|s: int, k: int, j1: int, j2: int|
            0 <= s < b.len() && 0 <= k < b[s].reals@.len() && 0 <= j1 < j2 < b[s].reals@[k].contacts@.len()
                implies !contact_key_lt(
                ends,
                contacts,
                #[trigger] b[s].reals@[k].contacts@[j2] as int,
                #[trigger] b[s].reals@[k].contacts@[j1] as int,
            ) by {
            assert(a[s].reals == b[s].reals);
            assert(a[s].reals@[k] == b[s].reals@[k]);
            assert(a[s].reals@[k].contacts@[j1] == b[s].reals@[k].contacts@[j1]);
            assert(a[s].reals@[k].contacts@[j2] == b[s].reals@[k].contacts@[j2]);
        }
    }
}

proof fn lemma_same_virtuals(
    a: Seq<Neighbours>,
    b: Seq<Neighbours>,
    ends: Seq<(usize, usize)>,
    members: Seq<Vec<usize>>,
    order: Seq<usize>,
    p: int,
    jmax: int,
    ni: int,
    nr: int,
    nv: int,
)
    requires
        same_virtuals(a, b),
        a.len() == ni,
        ends_ok(ends, ni, nr),
        0 <= p < order.len(),
        forall|i: int| 0 <= i < order.len() ==> #[trigger] order[i] < ends.len(),
    ensures
        virtuals_sound(a, ends, ni, nv) ==> virtuals_sound(b, ends, ni, nv),
        virtuals_done(a, ends, members, order, p, jmax, ni) ==> virtuals_done(b, ends, members, order, p, jmax, ni),
{
    if virtuals_sound(a, ends, ni, nv) {
        assert forall|s: int, k: int| 0 <= s < b.len() && 0 <= k < b[s].virtuals@.len() implies {
            let vn = #[trigger] b[s].virtuals@[k];
            &&& vn.vnode.index < nv
            &&& forall|j: int|
                0 <= j < vn.contacts@.len() ==> {
                    let e = #[trigger] vn.contacts@[j];
                    &&& e.1 < ends.len()
                    &&& ends[e.1 as int].0 == s
                    &&& e.0 == spec_real_ref(ends[e.1 as int].1 as int, ni)
                }
        } by {
            assert(a[s].virtuals == b[s].virtuals);
            assert(a[s].virtuals@[k] == b[s].virtuals@[k]);
        }
    }
    if virtuals_done(a, ends, members, order, p, jmax, ni) {
        assert forall|q: int, j: int|
            0 <= q <= p && 0 <= j < members[ends[order[q] as int].1 as int]@.len() && (q < p || j < jmax)
                implies virtual_listed(
                b,
                ends[order[q] as int].0 as int,
                #[trigger] members[ends[order[q] as int].1 as int]@[j] as int,
                (spec_real_ref(ends[order[q] as int].1 as int, ni), order[q]),
            ) by {
            let c = order[q] as int;
            assert(order[q] < ends.len());
            let s2 = ends[c].0 as int;
            assert(a[s2].virtuals == b[s2].virtuals);
            lemma_virtual_listed_row(
                a,
                b,
                s2,
                members[ends[c].1 as int]@[j] as int,
                (spec_real_ref(ends[c].1 as int, ni), order[q]),
            );
        }
    }
}

fn step_real<CM: ContactManager>(
    nb: &mut Vec<Neighbours>,
    order: &Vec<usize>,
    ends: &Vec<(usize, usize)>,
    contacts: &Vec<Contact<CM>>,
    p: usize,
    ni: usize,
    nr: usize,
)
    requires
        ends@.len() == contacts@.len(),
        is_permutation(order@, ends@.len() as int),
        sorted_by_key(order@, ends@, contacts@),
        ends_ok(ends@, ni as int, nr as int),
        p < order@.len(),
        old(nb)@.len() == ni,
        reals_sound(old(nb)@, ends@, ni as int),
        reals_done(old(nb)@, ends@, order@, p as int, ni as int),
        listed_before(old(nb)@, order@, p as int),
        reals_sorted(old(nb)@, ends@, contacts@),
    ensures
        final(nb)@.len() == ni,
        same_virtuals(old(nb)@, final(nb)@),
        reals_sound(final(nb)@, ends@, ni as int),
        reals_done(final(nb)@, ends@, order@, p + 1, ni as int),
        listed_before(final(nb)@, order@, p + 1),
        reals_sorted(final(nb)@, ends@, contacts@),
{
    let c = order[p];
    let (s, r) = ends[c];
    assert(ends@[c as int].0 < ni && ends@[c as int].1 < nr);
    let ghost before = nb@;
    if r >= ni {
        proof {
            assert forall|s2: int, k: int, j: int|
                0 <= s2 < before.len() && 0 <= k < before[s2].reals@.len() && 0 <= j
                    < before[s2].reals@[k].contacts@.len() implies among_first(
                    order@,
                    p + 1,
                    #[trigger] before[s2].reals@[k].contacts@[j],
                ) by {
                assert(among_first(order@, p as int, before[s2].reals@[k].contacts@[j]));
                let q = choose|q: int| 0 <= q < p && order@[q] == before[s2].reals@[k].contacts@[j];
            }
        }
        return;
    }
    add_real(nb, s, r, c);
    proof {
        let after = nb@;
        lemma_real_added_keeps(before, after, s as int, r as int, c);
        lemma_real_added_sound(before, after, ends@, s as int, r as int, c, ni as int);
        lemma_real_added_order(before, after, ends@, contacts@, order@, p as int, s as int, r as int);
        assert forall|s2: int| 0 <= s2 < before.len() implies (#[trigger] before[s2]).virtuals
            == after[s2].virtuals by {
            if s2 != s {
                assert(after[s2] == before[s2]);
            }
        }
        assert forall|q: int|
            0 <= q < p + 1 && ends@[#[trigger] order@[q] as int].1 < ni implies real_listed(
                after,
                ends@[order@[q] as int].0 as int,
                ends@[order@[q] as int].1 as int,
                order@[q] as int,
            ) by {
            assert(order@[q] < ends@.len());
            if q < p {
                assert(real_listed(
                    before,
                    ends@[order@[q] as int].0 as int,
                    ends@[order@[q] as int].1 as int,
                    order@[q] as int,
                ));
            }
        }
    }
}

fn step_virtual(
    nb: &mut Vec<Neighbours>,
    order: &Vec<usize>,
    ends: &Vec<(usize, usize)>,
    members: &Vec<Vec<usize>>,
    p: usize,
    ni: usize,
    nr: usize,
    nv: usize,
)
    requires
        ends_ok(ends@, ni as int, nr as int),
        members_ok(members@, nr as int, nv as int),
        forall|i: int| 0 <= i < order@.len() ==> #[trigger] order@[i] < ends@.len(),
        p < order@.len(),
        old(nb)@.len() == ni,
        virtuals_sound(old(nb)@, ends@, ni as int, nv as int),
        virtuals_done(old(nb)@, ends@, members@, order@, p as int, 0, ni as int),
    ensures
        same_reals(old(nb)@, final(nb)@),
        virtuals_sound(final(nb)@, ends@, ni as int, nv as int),
        virtuals_done(final(nb)@, ends@, members@, order@, p + 1, 0, ni as int),
{
    let c = order[p];
    let (s, r) = ends[c];
    assert(ends@[c as int].0 < ni && ends@[c as int].1 < nr);
    let vs = &members[r];
    let ghost start = nb@;
    let mut j: usize = 0;
    while j < vs.len()
        invariant
            ends_ok(ends@, ni as int, nr as int),
            members_ok(members@, nr as int, nv as int),
            forall|i: int| 0 <= i < order@.len() ==> #[trigger] order@[i] < ends@.len(),
            p < order@.len(),
            c == order@[p as int],
            (s, r) == ends@[c as int],
            s < ni,
            r < nr,
            vs@ == members@[r as int]@,
            j <= vs@.len(),
            nb@.len() == ni,
            same_reals(start, nb@),
            virtuals_sound(nb@, ends@, ni as int, nv as int),
            virtuals_done(nb@, ends@, members@, order@, p as int, j as int, ni as int),
        decreases vs@.len() - j,
    {
        let v = vs[j];
        assert(members@[r as int]@[j as int] < nv);
        let e = (real_ref(r, ni), c);
        let ghost before = nb@;
        add_virtual(nb, s, v, e);
        proof {
            let after = nb@;
            lemma_virtual_added_keeps(before, after, s as int, v as int, e);
            lemma_virtual_added_sound(before, after, ends@, s as int, v as int, e, ni as int, nv as int);
            assert forall|s2: int| 0 <= s2 < start.len() implies (#[trigger] start[s2]).reals
                == after[s2].reals by {
                assert(start[s2].reals == before[s2].reals);
                if s2 != s {
                    assert(after[s2] == before[s2]);
                }
            }
            assert forall|q: int, jj: int|
                0 <= q <= p && 0 <= jj < members@[ends@[order@[q] as int].1 as int]@.len() && (q < p || jj
                    < j + 1) implies virtual_listed(
                    after,
                    ends@[order@[q] as int].0 as int,
                    #[trigger] members@[ends@[order@[q] as int].1 as int]@[jj] as int,
                    (spec_real_ref(ends@[order@[q] as int].1 as int, ni as int), order@[q]),
                ) by {
                assert(order@[q] < ends@.len());
                if q == p && jj == j {
                    assert(order@[q] == c);
                } else {
                    assert(virtual_listed(
                        before,
                        ends@[order@[q] as int].0 as int,
                        members@[ends@[order@[q] as int].1 as int]@[jj] as int,
                        (spec_real_ref(ends@[order@[q] as int].1 as int, ni as int), order@[q]),
                    ));
                }
            }
        }
        j = j + 1;
    }
    proof {
        let after = nb@;
        assert forall|q: int, jj: int|
            0 <= q <= p + 1 && 0 <= jj < members@[ends@[order@[q] as int].1 as int]@.len() && (q < p + 1
                || jj < 0) implies virtual_listed(
                after,
                ends@[order@[q] as int].0 as int,
                #[trigger] members@[ends@[order@[q] as int].1 as int]@[jj] as int,
                (spec_real_ref(ends@[order@[q] as int].1 as int, ni as int), order@[q]),
            ) by {
            if q == p {
                assert(order@[q] == c);
                assert(jj < vs@.len());
            }
        }
    }
}

/// Builds the outgoing contacts of every internal node, from the contacts sorted by
/// (sender, receiver, start, end).
pub fn build_neighbours<CM: ContactManager>(
    order: &Vec<usize>,
    ends: &Vec<(usize, usize)>,
    contacts: &Vec<Contact<CM>>,
    members: &Vec<Vec<usize>>,
    ni: usize,
    nr: usize,
    nv: usize,
) -> (nb: Vec<Neighbours>)
    requires
        ends@.len() == contacts@.len(),
        is_permutation(order@, ends@.len() as int),
        sorted_by_key(order@, ends@, contacts@),
        ends_ok(ends@, ni as int, nr as int),
        ni <= nr,
        members_ok(members@, nr as int, nv as int),
    ensures
        nb@.len() == ni,
        reals_sound(nb@, ends@, ni as int),
        virtuals_sound(nb@, ends@, ni as int, nv as int),
        reals_complete(nb@, ends@, ni as int),
        virtuals_complete(nb@, ends@, members@, ni as int),
        reals_sorted(nb@, ends@, contacts@),
{
    let mut nb: Vec<Neighbours> = Vec::new();
    let mut i: usize = 0;
    while i < ni
        invariant
            i <= ni,
            nb@.len() == i,
            forall|s: int| 0 <= s < i ==> (#[trigger] nb@[s]).reals@.len() == 0 && nb@[s].virtuals@.len() == 0,
        decreases ni - i,
    {
        nb.push(Neighbours { reals: Vec::new(), virtuals: Vec::new() });
        i = i + 1;
    }
    let n = order.len();
    let mut p: usize = 0;
    while p < n
        invariant
            n == order@.len(),
            ends@.len() == contacts@.len(),
            is_permutation(order@, ends@.len() as int),
            sorted_by_key(order@, ends@, contacts@),
            ends_ok(ends@, ni as int, nr as int),
            members_ok(members@, nr as int, nv as int),
            p <= n,
            nb@.len() == ni,
            reals_sound(nb@, ends@, ni as int),
            virtuals_sound(nb@, ends@, ni as int, nv as int),
            reals_done(nb@, ends@, order@, p as int, ni as int),
            virtuals_done(nb@, ends@, members@, order@, p as int, 0, ni as int),
            listed_before(nb@, order@, p as int),
            reals_sorted(nb@, ends@, contacts@),
        decreases n - p,
    {
        let ghost b0 = nb@;
        step_real(&mut nb, order, ends, contacts, p, ni, nr);
        proof {
            lemma_same_virtuals(b0, nb@, ends@, members@, order@, p as int, 0, ni as int, nr as int, nv as int);
        }
        let ghost b1 = nb@;
        step_virtual(&mut nb, order, ends, members, p, ni, nr, nv);
        proof {
            lemma_same_reals(b1, nb@, ends@, contacts@, order@, p + 1, ni as int, nr as int);
        }
        p = p + 1;
    }
    proof {
        assert forall|c: int| 0 <= c < ends@.len() && (#[trigger] ends@[c]).1 < ni implies real_listed(
            nb@,
            ends@[c].0 as int,
            ends@[c].1 as int,
            c,
        ) by {
            assert(order@.contains(c as usize));
            let q = choose|q: int| 0 <= q < order@.len() && order@[q] == c as usize;
            assert(ends@[order@[q] as int].1 < ni);
        }
        assert forall|c: int, j: int|
            0 <= c < ends@.len() && 0 <= j < members@[ends@[c].1 as int]@.len() implies virtual_listed(
                nb@,
                ends@[c].0 as int,
                #[trigger] members@[ends@[c].1 as int]@[j] as int,
                (spec_real_ref(ends@[c].1 as int, ni as int), c as usize),
            ) by {
            assert(order@.contains(c as usize));
            let q = choose|q: int| 0 <= q < order@.len() && order@[q] == c as usize;
            assert(members@[ends@[order@[q] as int].1 as int]@[j] == members@[ends@[c].1 as int]@[j]);
        }
    }
    nb
}


/// Contact `a` starts before contact `b`, or starts with it and ends before it.
pub open spec fn lifespan_lt<CM: ContactManager>(contacts: Seq<Contact<CM>>, a: int, b: int) -> bool {
    let la = contacts[a].lifespan;
    let lb = contacts[b].lifespan;
    la.start < lb.start || (la.start == lb.start && la.end < lb.end)
}

/// The entries are sorted by the (start, end) of their contacts.
pub open spec fn entries_sorted<CM: ContactManager>(
    list: Seq<(RealNodeRef, usize)>,
    contacts: Seq<Contact<CM>>,
) -> bool {
    forall|i: int, j: int|
        0 <= i < j < list.len() ==> !lifespan_lt(
            contacts,
            #[trigger] list[j].1 as int,
            #[trigger] list[i].1 as int,
        )
}

/// The contacts towards each virtual neighbour are sorted by (start, end).
pub open spec fn virtuals_sorted<CM: ContactManager>(nb: Seq<Neighbours>, contacts: Seq<Contact<CM>>) -> bool {
    forall|s: int, k: int|
        0 <= s < nb.len() && 0 <= k < nb[s].virtuals@.len() ==> entries_sorted(
            (#[trigger] nb[s].virtuals@[k]).contacts@,
            contacts,
        )
}

fn lifespan_less<CM: ContactManager>(contacts: &Vec<Contact<CM>>, a: usize, b: usize) -> (r: bool)
    requires
        a < contacts@.len(),
        b < contacts@.len(),
    ensures
        r == lifespan_lt(contacts@, a as int, b as int),
{
    let la = contacts[a].lifespan;
    let lb = contacts[b].lifespan;
    la.start < lb.start || (la.start == lb.start && la.end < lb.end)
}

/// Sorts entries by the (start, end) of their contacts.
pub fn sort_entries<CM: ContactManager>(list: &Vec<(RealNodeRef, usize)>, contacts: &Vec<Contact<CM>>) -> (r: Vec<
    (RealNodeRef, usize),
>)
    requires
        forall|i: int| 0 <= i < list@.len() ==> #[trigger] list@[i].1 < contacts@.len(),
    ensures
        r@.to_multiset() == list@.to_multiset(),
        entries_sorted(r@, contacts@),
{
    let mut out: Vec<(RealNodeRef, usize)> = Vec::new();
    let mut i: usize = 0;
    assert(out@ == list@.take(0));
    while i < list.len()
        invariant
            i <= list@.len(),
            forall|x: int| 0 <= x < list@.len() ==> #[trigger] list@[x].1 < contacts@.len(),
            out@.to_multiset() == list@.take(i as int).to_multiset(),
            forall|x: int| 0 <= x < out@.len() ==> #[trigger] out@[x].1 < contacts@.len(),
            entries_sorted(out@, contacts@),
        decreases list@.len() - i,
    {
        let e = list[i];
        let mut p: usize = 0;
        while p < out.len() && !lifespan_less(contacts, e.1, out[p].1)
            invariant
                p <= out@.len(),
                e.1 < contacts@.len(),
                forall|x: int| 0 <= x < out@.len() ==> #[trigger] out@[x].1 < contacts@.len(),
                forall|x: int| 0 <= x < p ==> !lifespan_lt(contacts@, e.1 as int, #[trigger] out@[x].1 as int),
            decreases out@.len() - p,
        {
            p = p + 1;
        }
        let ghost old_out = out@;
        out.insert(p, e);
        proof {
            let o = out@;
            assert(o == old_out.insert(p as int, e));
            assert(list@.take(i + 1) == list@.take(i as int).push(e));
            vstd::seq_lib::to_multiset_build(list@.take(i as int), e);
            vstd::seq_lib::to_multiset_insert(old_out, p as int, e);
            assert forall|x: int| 0 <= x < o.len() implies #[trigger] o[x].1 < contacts@.len() by {
                if x < p {
                    assert(o[x] == old_out[x]);
                } else if x > p {
                    assert(o[x] == old_out[x - 1]);
                }
            }
            assert forall|a: int, b: int| 0 <= a < b < o.len() implies !lifespan_lt(
                contacts@,
                #[trigger] o[b].1 as int,
                #[trigger] o[a].1 as int,
            ) by {
                if a < p && b < p {
                    assert(o[a] == old_out[a] && o[b] == old_out[b]);
                } else if a < p && b == p {
                    assert(o[a] == old_out[a]);
                } else if a < p && b > p {
                    assert(o[a] == old_out[a] && o[b] == old_out[b - 1]);
                } else if a == p {
                    assert(o[b] == old_out[b - 1]);
                    if b - 1 > p {
                        assert(!lifespan_lt(contacts@, old_out[b - 1].1 as int, old_out[p as int].1 as int));
                    }
                } else {
                    assert(o[a] == old_out[a - 1] && o[b] == old_out[b - 1]);
                }
            }
        }
        i = i + 1;
    }
    assert(list@.take(list@.len() as int) == list@);
    out
}


/// `b` is `a` with the contacts towards each virtual neighbour reordered.
pub open spec fn virtuals_reordered(a: Seq<Neighbours>, b: Seq<Neighbours>) -> bool {
    &&& a.len() == b.len()
    &&& forall|s: int|
        0 <= s < a.len() ==> (#[trigger] b[s]).reals == a[s].reals && b[s].virtuals@.len()
            == a[s].virtuals@.len()
    &&& forall|s: int, k: int|
        0 <= s < a.len() && 0 <= k < a[s].virtuals@.len() ==> (#[trigger] b[s].virtuals@[k]).vnode
            == a[s].virtuals@[k].vnode && b[s].virtuals@[k].contacts@.to_multiset()
            == a[s].virtuals@[k].contacts@.to_multiset()
}

/// Sorts the contacts towards each virtual neighbour by (start, end).
fn sort_virtuals<CM: ContactManager>(nb: &mut Vec<Neighbours>, contacts: &Vec<Contact<CM>>)
    requires
        forall|s: int, k: int, j: int|
            0 <= s < old(nb)@.len() && 0 <= k < old(nb)@[s].virtuals@.len() && 0 <= j
                < old(nb)@[s].virtuals@[k].contacts@.len() ==> (
            #[trigger] old(nb)@[s].virtuals@[k].contacts@[j]).1 < contacts@.len(),
    ensures
        virtuals_reordered(old(nb)@, final(nb)@),
        virtuals_sorted(final(nb)@, contacts@),
{
    let ghost n0 = nb@;
    let mut s: usize = 0;
    while s < nb.len()
        invariant
            s <= nb@.len(),
            forall|t: int, k: int, j: int|
                0 <= t < n0.len() && 0 <= k < n0[t].virtuals@.len() && 0 <= j < n0[t].virtuals@[k].contacts@.len()
                    ==> (#[trigger] n0[t].virtuals@[k].contacts@[j]).1 < contacts@.len(),
            virtuals_reordered(n0, nb@),
            forall|t: int, k: int|
                0 <= t < s && 0 <= k < nb@[t].virtuals@.len() ==> entries_sorted(
                    (#[trigger] nb@[t].virtuals@[k]).contacts@,
                    contacts@,
                ),
        decreases nb@.len() - s,
    {
        let mut k: usize = 0;
        while k < nb[s].virtuals.len()
            invariant
                s < nb@.len(),
                k <= nb@[s as int].virtuals@.len(),
                forall|t: int, kk: int, j: int|
                    0 <= t < n0.len() && 0 <= kk < n0[t].virtuals@.len() && 0 <= j < n0[t].virtuals@[kk].contacts@.len()
                        ==> (#[trigger] n0[t].virtuals@[kk].contacts@[j]).1 < contacts@.len(),
                virtuals_reordered(n0, nb@),
                forall|t: int, kk: int|
                    0 <= t < s && 0 <= kk < nb@[t].virtuals@.len() ==> entries_sorted(
                        (#[trigger] nb@[t].virtuals@[kk]).contacts@,
                        contacts@,
                    ),
                forall|kk: int|
                    0 <= kk < k ==> entries_sorted(
                        (#[trigger] nb@[s as int].virtuals@[kk]).contacts@,
                        contacts@,
                    ),
            decreases nb@[s as int].virtuals@.len() - k,
        {
            let ghost before = nb@;
            proof {
                let l = before[s as int].virtuals@[k as int].contacts@;
                let l0 = n0[s as int].virtuals@[k as int].contacts@;
                assert forall|j: int| 0 <= j < l.len() implies #[trigger] l[j].1 < contacts@.len() by {
                    assert(l.to_multiset() == l0.to_multiset());
                    vstd::seq_lib::to_multiset_contains(l, l[j]);
                    vstd::seq_lib::to_multiset_contains(l0, l[j]);
                    let jj = choose|jj: int| 0 <= jj < l0.len() && l0[jj] == l[j];
                    assert(n0[s as int].virtuals@[k as int].contacts@[jj].1 < contacts@.len());
                }
            }
            let sorted = sort_entries(&nb[s].virtuals[k].contacts, contacts);
            nb[s].virtuals[k].contacts = sorted;
            proof {
                let after = nb@;
                assert forall|t: int| 0 <= t < n0.len() implies (#[trigger] after[t]).reals == n0[t].reals
                    && after[t].virtuals@.len() == n0[t].virtuals@.len() by {
                    if t != s {
                        assert(after[t] == before[t]);
                    }
                }
                assert forall|t: int, kk: int| 0 <= t < n0.len() && 0 <= kk < n0[t].virtuals@.len() implies (
                #[trigger] after[t].virtuals@[kk]).vnode == n0[t].virtuals@[kk].vnode
                    && after[t].virtuals@[kk].contacts@.to_multiset()
                    == n0[t].virtuals@[kk].contacts@.to_multiset() by {
                    if t != s {
                        assert(after[t] == before[t]);
                    } else if kk != k {
                        assert(after[t].virtuals@[kk] == before[t].virtuals@[kk]);
                    }
                }
                assert forall|t: int, kk: int| 0 <= t < s && 0 <= kk < after[t].virtuals@.len() implies entries_sorted(
                    (#[trigger] after[t].virtuals@[kk]).contacts@,
                    contacts@,
                ) by {
                    assert(after[t] == before[t]);
                }
                assert forall|kk: int| 0 <= kk < k + 1 implies entries_sorted(
                    (#[trigger] after[s as int].virtuals@[kk]).contacts@,
                    contacts@,
                ) by {
                    if kk < k {
                        assert(after[s as int].virtuals@[kk] == before[s as int].virtuals@[kk]);
                    }
                }
            }
            k = k + 1;
        }
        s = s + 1;
    }
}

proof fn lemma_reordered_listed(a: Seq<Neighbours>, b: Seq<Neighbours>, s: int, v: int, e: (RealNodeRef, usize))
    requires
        virtuals_reordered(a, b),
        0 <= s < a.len(),
    ensures
        virtual_listed(a, s, v, e) ==> virtual_listed(b, s, v, e),
{
    if virtual_listed(a, s, v, e) {
        let k = choose|k: int|
            0 <= k < a[s].virtuals@.len() && (#[trigger] a[s].virtuals@[k]).vnode.index == v
                && a[s].virtuals@[k].contacts@.contains(e);
        assert(b[s].virtuals@[k].vnode == a[s].virtuals@[k].vnode);
        vstd::seq_lib::to_multiset_contains(a[s].virtuals@[k].contacts@, e);
        vstd::seq_lib::to_multiset_contains(b[s].virtuals@[k].contacts@, e);
    }
}

proof fn lemma_reordered_sound(a: Seq<Neighbours>, b: Seq<Neighbours>, ends: Seq<(usize, usize)>, ni: int, nv: int)
    requires
        virtuals_reordered(a, b),
        virtuals_sound(a, ends, ni, nv),
    ensures
        virtuals_sound(b, ends, ni, nv),
{
    assert forall|s: int, k: int| 0 <= s < b.len() && 0 <= k < b[s].virtuals@.len() implies {
        let vn = #[trigger] b[s].virtuals@[k];
        &&& vn.vnode.index < nv
        &&& forall|j: int|
            0 <= j < vn.contacts@.len() ==> {
                let x = #[trigger] vn.contacts@[j];
                &&& x.1 < ends.len()
                &&& ends[x.1 as int].0 == s
                &&& x.0 == spec_real_ref(ends[x.1 as int].1 as int, ni)
            }
    } by {
        let vn = b[s].virtuals@[k];
        let l0 = a[s].virtuals@[k].contacts@;
        assert(vn.vnode == a[s].virtuals@[k].vnode);
        assert forall|j: int| 0 <= j < vn.contacts@.len() implies {
            let x = #[trigger] vn.contacts@[j];
            &&& x.1 < ends.len()
            &&& ends[x.1 as int].0 == s
            &&& x.0 == spec_real_ref(ends[x.1 as int].1 as int, ni)
        } by {
            let x = vn.contacts@[j];
            vstd::seq_lib::to_multiset_contains(vn.contacts@, x);
            vstd::seq_lib::to_multiset_contains(l0, x);
            let jj = choose|jj: int| 0 <= jj < l0.len() && l0[jj] == x;
            assert(a[s].virtuals@[k].contacts@[jj] == x);
        }
    }
}


/// Different real node indices have different references.
pub proof fn lemma_real_ref_injective(a: int, b: int, ni: int)
    requires
        0 <= a <= usize::MAX,
        0 <= b <= usize::MAX,
        0 <= ni,
        spec_real_ref(a, ni) == spec_real_ref(b, ni),
    ensures
        a == b,
{
}

/// Every contact of the plan goes from an internal node to a real node.
pub open spec fn plan_contacts_ok<CM: ContactManager>(contacts: Seq<(Contact<CM>, usize, usize)>, ni: int, nr: int) -> bool {
    forall|c: int| 0 <= c < contacts.len() ==> (#[trigger] contacts[c]).1 < ni && contacts[c].2 < nr
}

/// Every contact towards a real node that a virtual node stands for is listed among the
/// contacts from its sender towards that virtual node.
pub open spec fn virtual_members_complete(
    nb: Seq<Neighbours>,
    ends: Seq<(usize, usize)>,
    vnodes: Seq<Vec<RealNodeRef>>,
    ni: int,
) -> bool {
    forall|c: int, v: int, k: int|
        #![trigger ends[c], vnodes[v]@[k]]
        0 <= c < ends.len() && 0 <= v < vnodes.len() && 0 <= k < vnodes[v]@.len() && vnodes[v]@[k]
            == spec_real_ref(ends[c].1 as int, ni) ==> virtual_listed(
            nb,
            ends[c].0 as int,
            v,
            (vnodes[v]@[k], c as usize),
        )
}

impl<NM: NodeManager, CM: ContactManager> Multigraph<NM, CM> {
    /// Builds a multigraph from a contact plan.
    ///
    /// Fails with "illegal node id" when a virtual node names a real node that does not exist,
    /// and otherwise with "illegal node id for contact" when a contact does not go from an
    /// internal node to a real node. Contacts keep their numbering in the plan.
    pub fn new(plan: ContactPlan<NM, CM>) -> (r: Result<Self, ASABRError>)
        requires
            forall|c: int| 0 <= c < plan.contacts@.len() ==> (#[trigger] plan.contacts@[c]).0.wf(),
        ensures
            ({
                let ni = inodes_of(plan.realnodes@).len() as int;
                let nr = plan.realnodes@.len() as int;
                &&& !vnodes_ok(plan.vnodes@, nr) ==> r == Err::<Self, ASABRError>(
                    ASABRError::ContactPlanError("illegal node id"),
                )
                &&& vnodes_ok(plan.vnodes@, nr) && !plan_contacts_ok(plan.contacts@, ni, nr) ==> r
                    == Err::<Self, ASABRError>(ASABRError::ContactPlanError("illegal node id for contact"))
                &&& r is Ok <==> vnodes_ok(plan.vnodes@, nr) && plan_contacts_ok(plan.contacts@, ni, nr)
            }),
            r matches Ok(g) ==> {
                let ni = inodes_of(plan.realnodes@).len() as int;
                &&& g.wf()
                &&& g.internal_nodes@ == inodes_of(plan.realnodes@)
                &&& g.external_nodes@ == enodes_of(plan.realnodes@)
                &&& g.nc() == plan.contacts@.len()
                &&& forall|c: int|
                    0 <= c < g.nc() ==> #[trigger] g.contacts@[c] == plan.contacts@[c].0
                        && g.contact_ends@[c] == (plan.contacts@[c].1, plan.contacts@[c].2)
                &&& g.nv() == plan.vnodes@.len()
                &&& forall|v: int|
                    0 <= v < g.nv() ==> (#[trigger] g.virtual_nodes@[v])@.len()
                        == plan.vnodes@[v].rids@.len()
                &&& forall|v: int, k: int|
                    0 <= v < g.nv() && 0 <= k < plan.vnodes@[v].rids@.len() ==> #[trigger] g.virtual_nodes@[v]@[k]
                        == spec_real_ref(plan.vnodes@[v].rids@[k].index() as int, ni)
                &&& reals_complete(g.neighbours@, g.contact_ends@, ni)
                &&& virtual_members_complete(g.neighbours@, g.contact_ends@, g.virtual_nodes@, ni)
                &&& reals_sorted(g.neighbours@, g.contact_ends@, g.contacts@)
                &&& virtuals_sorted(g.neighbours@, g.contacts@)
            },
    {
        let ContactPlan { realnodes, vnodes, contacts } = plan;
        let nr = realnodes.len();
        proof {
            lemma_split_count(realnodes@);
        }
        let (internal_nodes, external_nodes) = split_real_nodes(realnodes);
        let ni = internal_nodes.len();
        let (virtual_nodes, members) = match build_virtual(&vnodes, ni, nr) {
            Some(p) => p,
            None => {
                return Err(ASABRError::ContactPlanError("illegal node id"));
            },
        };
        let nv = virtual_nodes.len();
        let ghost plan_contacts = contacts@;
        let (cts, ends) = unzip_contacts(contacts);
        let mut c: usize = 0;
        while c < ends.len()
            invariant
                c <= ends@.len(),
                vnodes_ok(plan.vnodes@, nr as int),
                ni == inodes_of(plan.realnodes@).len(),
                nr == plan.realnodes@.len(),
                plan_contacts == plan.contacts@,
                ends@.len() == plan_contacts.len(),
                forall|i: int| 0 <= i < plan_contacts.len() ==> #[trigger] ends@[i] == (plan_contacts[i].1, plan_contacts[i].2),
                forall|i: int| 0 <= i < c ==> (#[trigger] ends@[i]).0 < ni && ends@[i].1 < nr,
            decreases ends@.len() - c,
        {
            let (s, r) = ends[c];
            if s >= ni || r >= nr {
                proof {
                    assert(plan_contacts[c as int].1 == s && plan_contacts[c as int].2 == r);
                    assert(!plan_contacts_ok(plan_contacts, ni as int, nr as int));
                }
                return Err(ASABRError::ContactPlanError("illegal node id for contact"));
            }
            c = c + 1;
        }
        proof {
            assert forall|i: int| 0 <= i < plan_contacts.len() implies (#[trigger] plan_contacts[i]).1 < ni
                && plan_contacts[i].2 < nr by {
                assert(ends@[i] == (plan_contacts[i].1, plan_contacts[i].2));
            }
        }
        let order = sort_contacts(&ends, &cts);
        let mut nb = build_neighbours(&order, &ends, &cts, &members, ni, nr, nv);
        let ghost nb0 = nb@;
        proof {
            assert forall|s: int, k: int, j: int|
                0 <= s < nb@.len() && 0 <= k < nb@[s].virtuals@.len() && 0 <= j < nb@[s].virtuals@[k].contacts@.len()
                    implies (#[trigger] nb@[s].virtuals@[k].contacts@[j]).1 < cts@.len() by {
                let vn = nb@[s].virtuals@[k];
                assert(vn.contacts@[j] == nb@[s].virtuals@[k].contacts@[j]);
            }
        }
        sort_virtuals(&mut nb, &cts);
        proof {
            lemma_reordered_sound(nb0, nb@, ends@, ni as int, nv as int);
            lemma_same_reals_reordered(nb0, nb@, ends@, cts@, ni as int);
        }
        let g = Multigraph {
            internal_nodes,
            neighbours: nb,
            virtual_nodes,
            external_nodes,
            contacts: cts,
            contact_ends: Ghost(ends@),
        };
        proof {
            let ne = g.external_nodes@.len();
            assert(ni + ne == nr);
            assert forall|v: int, k: int| 0 <= v < g.nv() && 0 <= k < g.virtual_nodes@[v]@.len() implies g.valid_real(
                #[trigger] g.virtual_nodes@[v]@[k],
            ) by {
                assert(vnodes@[v].rids@[k].index() < nr);
            }
            assert forall|s: int, k: int| 0 <= s < g.ni() && 0 <= k < g.neighbours@[s].reals@.len() implies {
                let rn = #[trigger] g.neighbours@[s].reals@[k];
                &&& rn.node.index < g.ni()
                &&& forall|j: int|
                    0 <= j < rn.contacts@.len() ==> g.contact_between(
                        #[trigger] rn.contacts@[j] as int,
                        s,
                        rn.node.index as int,
                    )
            } by {
                let rn = g.neighbours@[s].reals@[k];
                assert forall|j: int| 0 <= j < rn.contacts@.len() implies g.contact_between(
                    #[trigger] rn.contacts@[j] as int,
                    s,
                    rn.node.index as int,
                ) by {
                    assert(rn.contacts@[j] < ends@.len());
                }
            }
            assert forall|s: int, k: int| 0 <= s < g.ni() && 0 <= k < g.neighbours@[s].virtuals@.len() implies {
                let vn = #[trigger] g.neighbours@[s].virtuals@[k];
                &&& vn.vnode.index < g.nv()
                &&& forall|j: int|
                    0 <= j < vn.contacts@.len() ==> {
                        let e = #[trigger] vn.contacts@[j];
                        &&& g.valid_real(e.0)
                        &&& g.contact_between(e.1 as int, s, real_index(e.0, g.ni()))
                    }
            } by {
                let vn = g.neighbours@[s].virtuals@[k];
                assert forall|j: int| 0 <= j < vn.contacts@.len() implies {
                    let e = #[trigger] vn.contacts@[j];
                    &&& g.valid_real(e.0)
                    &&& g.contact_between(e.1 as int, s, real_index(e.0, g.ni()))
                } by {
                    let e = vn.contacts@[j];
                    assert(e.1 < ends@.len());
                    assert(ends@[e.1 as int].1 < nr);
                }
            }
            assert forall|c: int, v: int, k: int|
                #![trigger ends@[c], g.virtual_nodes@[v]@[k]]
                0 <= c < ends@.len() && 0 <= v < g.nv() && 0 <= k < g.virtual_nodes@[v]@.len()
                    && g.virtual_nodes@[v]@[k] == spec_real_ref(ends@[c].1 as int, ni as int) implies virtual_listed(
                    g.neighbours@,
                    ends@[c].0 as int,
                    v,
                    (g.virtual_nodes@[v]@[k], c as usize),
                ) by {
                let idx = vnodes@[v].rids@[k].index() as int;
                assert(idx < nr);
                assert(ends@[c].1 < nr);
                lemma_real_ref_injective(idx, ends@[c].1 as int, ni as int);
                assert(members@[idx]@.contains(v as usize));
                let j = choose|j: int| 0 <= j < members@[idx]@.len() && members@[idx]@[j] == v as usize;
                assert(members@[ends@[c].1 as int]@[j] == v as usize);
                assert(virtual_listed(
                    nb0,
                    ends@[c].0 as int,
                    members@[ends@[c].1 as int]@[j] as int,
                    (spec_real_ref(ends@[c].1 as int, ni as int), c as usize),
                ));
                lemma_reordered_listed(
                    nb0,
                    g.neighbours@,
                    ends@[c].0 as int,
                    v,
                    (spec_real_ref(ends@[c].1 as int, ni as int), c as usize),
                );
            }
        }
        Ok(g)
    }
}

proof fn lemma_same_reals_reordered<CM: ContactManager>(
    a: Seq<Neighbours>,
    b: Seq<Neighbours>,
    ends: Seq<(usize, usize)>,
    contacts: Seq<Contact<CM>>,
    ni: int,
)
    requires
        virtuals_reordered(a, b),
        forall|c: int| 0 <= c < ends.len() ==> (#[trigger] ends[c]).0 < a.len(),
    ensures
        reals_sound(a, ends, ni) ==> reals_sound(b, ends, ni),
        reals_complete(a, ends, ni) ==> reals_complete(b, ends, ni),
        reals_sorted(a, ends, contacts) ==> reals_sorted(b, ends, contacts),
{
    assert forall|s: int| 0 <= s < b.len() implies (#[trigger] b[s]).reals == a[s].reals by {}
    if reals_sound(a, ends, ni) {
        assert forall|s: int, k: int| 0 <= s < b.len() && 0 <= k < b[s].reals@.len() implies {
            let rn = #[trigger] b[s].reals@[k];
            &&& rn.node.index < ni
            &&& forall|j: int|
                0 <= j < rn.contacts@.len() ==> #[trigger] rn.contacts@[j] < ends.len()
                    && ends[rn.contacts@[j] as int] == (s as usize, rn.node.index)
        } by {
            assert(a[s].reals@[k] == b[s].reals@[k]);
        }
    }
    if reals_complete(a, ends, ni) {
        assert forall|c: int| 0 <= c < ends.len() && (#[trigger] ends[c]).1 < ni implies real_listed(
            b,
            ends[c].0 as int,
            ends[c].1 as int,
            c,
        ) by {
            let s = ends[c].0 as int;
            assert(real_listed(a, s, ends[c].1 as int, c));
            let k = choose|k: int|
                0 <= k < a[s].reals@.len() && (#[trigger] a[s].reals@[k]).node.index == ends[c].1
                    && a[s].reals@[k].contacts@.contains(c as usize);
            assert(b[s].reals@[k] == a[s].reals@[k]);
        }
    }
    if reals_sorted(a, ends, contacts) {
        assert forall|s: int, k: int, j1: int, j2: int|
            0 <= s < b.len() && 0 <= k < b[s].reals@.len() && 0 <= j1 < j2 < b[s].reals@[k].contacts@.len()
                implies !contact_key_lt(
                ends,
                contacts,
                #[trigger] b[s].reals@[k].contacts@[j2] as int,
                #[trigger] b[s].reals@[k].contacts@[j1] as int,
            ) by {
            assert(a[s].reals@[k] == b[s].reals@[k]);
            assert(a[s].reals@[k].contacts@[j1] == b[s].reals@[k].contacts@[j1]);
            assert(a[s].reals@[k].contacts@[j2] == b[s].reals@[k].contacts@[j2]);
        }
    }
}

} // verus!
