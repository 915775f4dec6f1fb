//! The contact multigraph: internal, external and virtual nodes, and the contacts between them.

use vstd::prelude::*;

pub mod construct;

use crate::contact::Contact;
use crate::contact_manager::ContactManager;
use crate::errors::ASABRError;
use crate::node::Node;
use crate::node_manager::NodeManager;
use crate::types::NodeID;

verus! {

/// A reference to an external real node of a graph.
#[derive(Debug, Clone, Copy, PartialEq, Eq, Structural)]
pub struct ENodeRef {
    /// The index of the node among the external nodes.
    pub index: usize,
}

/// A reference to an internal real node of a graph.
#[derive(Debug, Clone, Copy, PartialEq, Eq, Structural)]
pub struct INodeRef {
    /// The index of the node among the internal nodes.
    pub index: usize,
}

/// A reference to a virtual node of a graph.
#[derive(Debug, Clone, Copy, PartialEq, Eq, Structural)]
pub struct VNodeRef {
    /// The index of the node among the virtual nodes.
    pub index: usize,
}

/// A reference to a contact of a graph.
#[derive(Debug, Clone, Copy, PartialEq, Eq, Structural)]
pub struct ContactRef {
    /// The index of the contact in the graph.
    pub index: usize,
}

/// A reference to a real node (internal or external).
#[derive(Debug, Clone, Copy, PartialEq, Eq, Structural)]
pub enum RealNodeRef {
    /// External node.
    E(ENodeRef),
    /// Internal node.
    I(INodeRef),
}

/// A reference to a routable node (internal or virtual).
#[derive(Debug, Clone, Copy, PartialEq, Eq, Structural)]
pub enum RoutableNodeRef {
    /// Internal node.
    I(INodeRef),
    /// Virtual node.
    V(VNodeRef),
}

/// A reference to any node of a graph.
#[derive(Debug, Clone, Copy, PartialEq, Eq, Structural)]
pub enum NodeRef {
    /// Internal node.
    I(INodeRef),
    /// Virtual node.
    V(VNodeRef),
    /// External node.
    E(ENodeRef),
}

impl NodeRef {
    /// This reference as a real node reference, if it is real.
    pub fn real_ref(self) -> (r: Option<RealNodeRef>)
        ensures
            r == (match self {
                NodeRef::I(i) => Some(RealNodeRef::I(i)),
                NodeRef::E(e) => Some(RealNodeRef::E(e)),
                NodeRef::V(_) => None::<RealNodeRef>,
            }),
    {
        match self {
            NodeRef::I(i) => Some(RealNodeRef::I(i)),
            NodeRef::E(e) => Some(RealNodeRef::E(e)),
            NodeRef::V(_) => None,
        }
    }

    /// This reference as a virtual node reference, if it is virtual.
    pub fn virt(self) -> (r: Option<VNodeRef>)
        ensures
            r == (match self {
                NodeRef::V(v) => Some(v),
                _ => None::<VNodeRef>,
            }),
    {
        match self {
            NodeRef::V(v) => Some(v),
            _ => None,
        }
    }

    /// This reference as a routable node reference; external nodes are not routable.
    pub fn routable(self) -> (r: Result<RoutableNodeRef, ASABRError>)
        ensures
            r == (match self {
                NodeRef::I(i) => Ok(RoutableNodeRef::I(i)),
                NodeRef::V(v) => Ok(RoutableNodeRef::V(v)),
                NodeRef::E(_) => Err::<RoutableNodeRef, ASABRError>(
                    ASABRError::ContactPlanError("This is a enode, it is not routable"),
                ),
            }),
    {
        match self {
            NodeRef::I(i) => Ok(RoutableNodeRef::I(i)),
            NodeRef::V(v) => Ok(RoutableNodeRef::V(v)),
            NodeRef::E(_) => Err(ASABRError::ContactPlanError("This is a enode, it is not routable")),
        }
    }

    /// This reference as an internal node reference, if it is internal.
    pub fn internal(self) -> (r: Option<INodeRef>)
        ensures
            r == (match self {
                NodeRef::I(i) => Some(i),
                _ => None::<INodeRef>,
            }),
    {
        match self {
            NodeRef::I(i) => Some(i),
            _ => None,
        }
    }

    /// This reference as an external node reference, if it is external.
    pub fn external(self) -> (r: Option<ENodeRef>)
        ensures
            r == (match self {
                NodeRef::E(e) => Some(e),
                _ => None::<ENodeRef>,
            }),
    {
        match self {
            NodeRef::E(e) => Some(e),
            _ => None,
        }
    }
}

impl RealNodeRef {
    /// This reference as an internal node reference, if it is internal.
    pub fn internal(self) -> (r: Option<INodeRef>)
        ensures
            r == (match self {
                RealNodeRef::I(i) => Some(i),
                RealNodeRef::E(_) => None::<INodeRef>,
            }),
    {
        match self {
            RealNodeRef::I(i) => Some(i),
            RealNodeRef::E(_) => None,
        }
    }

    /// This reference as an external node reference, if it is external.
    pub fn external(self) -> (r: Option<ENodeRef>)
        ensures
            r == (match self {
                RealNodeRef::E(e) => Some(e),
                RealNodeRef::I(_) => None::<ENodeRef>,
            }),
    {
        match self {
            RealNodeRef::E(e) => Some(e),
            RealNodeRef::I(_) => None,
        }
    }
}

/// The neighbour of a node reached through a set of contacts.
#[derive(Debug, Clone)]
pub struct RealNeighbour {
    /// The receiving internal node.
    pub node: INodeRef,
    /// The contacts towards it, by increasing start.
    pub contacts: Vec<usize>,
}

/// The real nodes of a virtual node reached by a node, with the contacts towards them.
#[derive(Debug, Clone)]
pub struct VirtualNeighbour {
    /// The virtual node.
    pub vnode: VNodeRef,
    /// The receiving real nodes and the contacts towards them, by increasing contact window.
    pub contacts: Vec<(RealNodeRef, usize)>,
}

/// The outgoing contacts of an internal node.
#[derive(Debug, Clone)]
pub struct Neighbours {
    /// Internal neighbours, by increasing index.
    pub reals: Vec<RealNeighbour>,
    /// Virtual neighbours.
    pub virtuals: Vec<VirtualNeighbour>,
}

/// The index of a real node in the plan's numbering: internal nodes first, then external ones.
pub open spec fn real_index(r: RealNodeRef, internal_count: int) -> int {
    match r {
        RealNodeRef::I(i) => i.index as int,
        RealNodeRef::E(e) => internal_count + e.index,
    }
}

/// The position of the first neighbour entry for the internal node of index `rx`.
pub open spec fn first_neighbour(reals: Seq<RealNeighbour>, rx: usize) -> Option<int>
    decreases reals.len(),
{
    if reals.len() == 0 {
        None
    } else if reals[0].node.index == rx {
        Some(0)
    } else {
        match first_neighbour(reals.skip(1), rx) {
            Some(k) => Some(k + 1),
            None => None,
        }
    }
}

/// A multigraph of nodes and contacts.
///
/// Internal nodes send and receive; external nodes only receive and are reached through the
/// virtual nodes that stand for them; contacts are numbered and each goes from an internal
/// node to a real node.
pub struct Multigraph<NM: NodeManager, CM: ContactManager> {
    /// The internal nodes.
    pub internal_nodes: Vec<Node<NM>>,
    /// The outgoing contacts of each internal node.
    pub neighbours: Vec<Neighbours>,
    /// The real nodes each virtual node stands for.
    pub virtual_nodes: Vec<Vec<RealNodeRef>>,
    /// The external nodes.
    pub external_nodes: Vec<Node<NM>>,
    /// The contacts.
    pub contacts: Vec<Contact<CM>>,
    /// The sender and receiver of each contact, in the plan's numbering of real nodes.
    pub contact_ends: Ghost<Seq<(usize, usize)>>,
}

impl<NM: NodeManager, CM: ContactManager> Multigraph<NM, CM> {
    /// The number of internal nodes.
    pub open spec fn ni(&self) -> int {
        self.internal_nodes@.len() as int
    }

    /// The number of external nodes.
    pub open spec fn ne(&self) -> int {
        self.external_nodes@.len() as int
    }

    /// The number of virtual nodes.
    pub open spec fn nv(&self) -> int {
        self.virtual_nodes@.len() as int
    }

    /// The number of contacts.
    pub open spec fn nc(&self) -> int {
        self.contacts@.len() as int
    }

    /// The reference designates a real node of this graph.
    pub open spec fn valid_real(&self, r: RealNodeRef) -> bool {
        match r {
            RealNodeRef::I(i) => i.index < self.ni(),
            RealNodeRef::E(e) => e.index < self.ne(),
        }
    }

    /// The reference designates a routable node of this graph.
    pub open spec fn valid_routable(&self, r: RoutableNodeRef) -> bool {
        match r {
            RoutableNodeRef::I(i) => i.index < self.ni(),
            RoutableNodeRef::V(v) => v.index < self.nv(),
        }
    }

    /// The node a real reference designates.
    pub open spec fn spec_node(&self, r: RealNodeRef) -> Node<NM> {
        match r {
            RealNodeRef::I(i) => self.internal_nodes@[i.index as int],
            RealNodeRef::E(e) => self.external_nodes@[e.index as int],
        }
    }

    /// Contact `c` goes from internal node `s` to the real node `r` (in plan numbering).
    pub open spec fn contact_between(&self, c: int, s: int, r: int) -> bool {
        &&& 0 <= c < self.nc()
        &&& self.contact_ends@[c].0 == s
        &&& self.contact_ends@[c].1 == r
    }

    /// The multigraph's structural invariant: every reference it holds is valid, every contact
    /// listed as a neighbour goes between the right nodes, and every contact is initialized.
    pub open spec fn wf(&self) -> bool {
        &&& self.neighbours@.len() == self.ni()
        &&& self.contact_ends@.len() == self.nc()
        &&& forall|c: int| 0 <= c < self.nc() ==> (#[trigger] self.contacts@[c]).wf()
        &&& forall|c: int|
            0 <= c < self.nc() ==> #[trigger] self.contact_ends@[c].0 < self.ni()
                && self.contact_ends@[c].1 < self.ni() + self.ne()
        &&& forall|v: int, k: int|
            0 <= v < self.nv() && 0 <= k < self.virtual_nodes@[v]@.len() ==> self.valid_real(
                #[trigger] self.virtual_nodes@[v]@[k],
            )
        &&& forall|s: int, k: int|
            0 <= s < self.ni() && 0 <= k < self.neighbours@[s].reals@.len() ==> {
                let rn = #[trigger] self.neighbours@[s].reals@[k];
                &&& rn.node.index < self.ni()
                &&& forall|j: int|
                    0 <= j < rn.contacts@.len() ==> self.contact_between(
                        #[trigger] rn.contacts@[j] as int,
                        s,
                        rn.node.index as int,
                    )
            }
        &&& forall|s: int, k: int|
            0 <= s < self.ni() && 0 <= k < self.neighbours@[s].virtuals@.len() ==> {
                let vn = #[trigger] self.neighbours@[s].virtuals@[k];
                &&& vn.vnode.index < self.nv()
                &&& forall|j: int|
                    0 <= j < vn.contacts@.len() ==> {
                        let e = #[trigger] vn.contacts@[j];
                        &&& self.valid_real(e.0)
                        &&& self.contact_between(e.1 as int, s, real_index(e.0, self.ni()))
                    }
            }
    }

    /// The total number of vertices (internal, external and virtual).
    pub fn get_vertex_count(&self) -> (r: usize)
        requires
            self.ni() + self.ne() + self.nv() <= usize::MAX,
        ensures
            r == self.ni() + self.ne() + self.nv(),
    {
        self.internal_nodes.len() + self.virtual_nodes.len() + self.external_nodes.len()
    }

    /// The number of internal nodes.
    pub fn get_internal_count(&self) -> (r: usize)
        ensures
            r == self.ni(),
    {
        self.internal_nodes.len()
    }

    /// The number of virtual nodes.
    pub fn get_vnode_count(&self) -> (r: usize)
        ensures
            r == self.nv(),
    {
        self.virtual_nodes.len()
    }

    /// The number of external nodes.
    pub fn get_external_count(&self) -> (r: usize)
        ensures
            r == self.ne(),
    {
        self.external_nodes.len()
    }

    /// The number of routable nodes (internal and virtual).
    pub fn get_routable_count(&self) -> (r: usize)
        requires
            self.ni() + self.nv() <= usize::MAX,
        ensures
            r == self.ni() + self.nv(),
    {
        self.internal_nodes.len() + self.virtual_nodes.len()
    }

    /// The number of real nodes (internal and external).
    pub fn get_nonvirtualnode_count(&self) -> (r: usize)
        requires
            self.ni() + self.ne() <= usize::MAX,
        ensures
            r == self.ni() + self.ne(),
    {
        self.internal_nodes.len() + self.external_nodes.len()
    }

    /// The node reference of a node identifier: internal nodes first, then external ones,
    /// then virtual ones.
    pub fn node_id_ref(&self, id: NodeID) -> (r: Result<NodeRef, ASABRError>)
        ensures
            id.index() < self.ni() ==> r == Ok::<NodeRef, ASABRError>(
                NodeRef::I(INodeRef { index: id.index() }),
            ),
            self.ni() <= id.index() < self.ni() + self.ne() ==> r == Ok::<NodeRef, ASABRError>(
                NodeRef::E(ENodeRef { index: (id.index() - self.ni()) as usize }),
            ),
            self.ni() + self.ne() <= id.index() < self.ni() + self.ne() + self.nv() ==> r == Ok::<
                NodeRef,
                ASABRError,
            >(NodeRef::V(VNodeRef { index: (id.index() - self.ni() - self.ne()) as usize })),
            id.index() >= self.ni() + self.ne() + self.nv() ==> r == Err::<NodeRef, ASABRError>(
                ASABRError::ContactPlanError("illegal node id"),
            ),
            r is Ok <==> self.id_ref(id.index() as int) is Some,
            r matches Ok(n) ==> self.id_ref(id.index() as int) == Some(n),
    {
        let mut id = id.as_usize();
        if id < self.internal_nodes.len() {
            Ok(NodeRef::I(INodeRef { index: id }))
        } else {
            id = id - self.internal_nodes.len();
            if id < self.external_nodes.len() {
                Ok(NodeRef::E(ENodeRef { index: id }))
            } else {
                id = id - self.external_nodes.len();
                if id < self.virtual_nodes.len() {
                    Ok(NodeRef::V(VNodeRef { index: id }))
                } else {
                    Err(ASABRError::ContactPlanError("illegal node id"))
                }
            }
        }
    }

    /// The index of a routable node in routing outputs: internal nodes first, then virtual ones.
    pub fn routable_to_usize(&self, node: RoutableNodeRef) -> (r: usize)
        requires
            self.valid_routable(node),
            self.ni() + self.nv() <= usize::MAX,
        ensures
            r == self.spec_routable_index(node),
            r < self.ni() + self.nv(),
    {
        match node {
            RoutableNodeRef::I(i) => i.index,
            RoutableNodeRef::V(v) => self.internal_nodes.len() + v.index,
        }
    }

    /// The index of a routable node in routing outputs.
    pub open spec fn spec_routable_index(&self, node: RoutableNodeRef) -> int {
        match node {
            RoutableNodeRef::I(i) => i.index as int,
            RoutableNodeRef::V(v) => self.ni() + v.index,
        }
    }

    /// The routing index of a node identifier, if it designates a routable node.
    pub fn flatten_route_id(&self, id: NodeID) -> (r: Result<usize, ASABRError>)
        requires
            self.ni() + self.ne() + self.nv() <= usize::MAX,
        ensures
            id.index() < self.ni() ==> r == Ok::<usize, ASABRError>(id.index()),
            self.ni() <= id.index() < self.ni() + self.ne() ==> r is Err,
            self.ni() + self.ne() <= id.index() < self.ni() + self.ne() + self.nv() ==> r == Ok::<
                usize,
                ASABRError,
            >((id.index() - self.ne()) as usize),
            id.index() >= self.ni() + self.ne() + self.nv() ==> r is Err,
    {
        let node = self.node_id_ref(id)?;
        let routable = node.routable()?;
        Ok(self.routable_to_usize(routable))
    }

    /// The node reference that the identifier `id` designates: internal nodes first, then
    /// external ones, then virtual ones.
    pub open spec fn id_ref(&self, id: int) -> Option<NodeRef> {
        if 0 <= id < self.ni() {
            Some(NodeRef::I(INodeRef { index: id as usize }))
        } else if self.ni() <= id < self.ni() + self.ne() {
            Some(NodeRef::E(ENodeRef { index: (id - self.ni()) as usize }))
        } else if self.ni() + self.ne() <= id < self.ni() + self.ne() + self.nv() {
            Some(NodeRef::V(VNodeRef { index: (id - self.ni() - self.ne()) as usize }))
        } else {
            None
        }
    }

    /// The stable index of a node reference, as `into_nodeid` gives it.
    pub open spec fn stable_index(&self, node: NodeRef) -> int {
        match node {
            NodeRef::I(i) => i.index as int,
            NodeRef::E(e) => e.index + self.ni(),
            NodeRef::V(v) => v.index + self.ni(),
        }
    }

    /// The stable index of an internal or external node, or of a virtual node in a graph
    /// without external nodes, designates that node again, and it is the only identifier that
    /// does.
    pub proof fn lemma_stable_index_round_trip(&self, n: NodeRef, id: int)
        requires
            match n {
                NodeRef::I(i) => i.index < self.ni(),
                NodeRef::E(e) => e.index < self.ne(),
                NodeRef::V(v) => v.index < self.nv() && self.ne() == 0,
            },
            self.ni() + self.ne() + self.nv() <= usize::MAX,
        ensures
            self.id_ref(self.stable_index(n)) == Some(n),
            self.id_ref(id) == Some(n) ==> self.stable_index(n) == id,
    {
        if self.id_ref(id) == Some(n) {
            if 0 <= id < self.ni() {
                assert((id as usize) as int == id);
            } else if self.ni() <= id < self.ni() + self.ne() {
                assert(((id - self.ni()) as usize) as int == id - self.ni());
            } else {
                assert(self.ni() + self.ne() <= id < self.ni() + self.ne() + self.nv());
                assert(((id - self.ni() - self.ne()) as usize) as int == id - self.ni() - self.ne());
            }
        }
    }

    /// A stable index for a node reference: below the routable count for an internal or a
    /// virtual node (its routing index); an external node comes after the internal ones.
    pub fn into_nodeid(&self, node: NodeRef) -> (r: NodeID)
        requires
            match node {
                NodeRef::I(i) => i.index < self.ni(),
                NodeRef::E(e) => e.index < self.ne(),
                NodeRef::V(v) => v.index < self.nv(),
            },
            self.ni() + self.ne() + self.nv() <= usize::MAX,
        ensures
            r.index() == self.stable_index(node),
            r.index() == match node {
                NodeRef::I(i) => i.index as int,
                NodeRef::E(e) => e.index + self.ni(),
                NodeRef::V(v) => v.index + self.ni(),
            },
    {
        match node {
            NodeRef::I(i) => NodeID(i.index),
            NodeRef::E(e) => NodeID(e.index + self.internal_nodes.len()),
            NodeRef::V(v) => NodeID(v.index + self.internal_nodes.len()),
        }
    }

    /// The node identifier of a node reference: internal nodes first, then external nodes,
    /// then virtual nodes.
    pub fn node_id_of(&self, node: NodeRef) -> (r: NodeID)
        requires
            match node {
                NodeRef::I(i) => i.index < self.ni(),
                NodeRef::E(e) => e.index < self.ne(),
                NodeRef::V(v) => v.index < self.nv(),
            },
            self.ni() + self.ne() + self.nv() <= usize::MAX,
        ensures
            r.index() == match node {
                NodeRef::I(i) => i.index as int,
                NodeRef::E(e) => e.index + self.ni(),
                NodeRef::V(v) => v.index + self.ni() + self.ne(),
            },
    {
        match node {
            NodeRef::I(i) => NodeID(i.index),
            NodeRef::E(e) => NodeID(e.index + self.internal_nodes.len()),
            NodeRef::V(v) => NodeID(
                v.index + self.internal_nodes.len() + self.external_nodes.len(),
            ),
        }
    }

    /// Distinct internal or virtual nodes get distinct stable indices, below the routable
    /// count.
    pub proof fn lemma_into_nodeid_routable(&self, a: NodeRef, b: NodeRef)
        requires
            a is I ==> a->I_0.index < self.ni(),
            a is V ==> a->V_0.index < self.nv(),
            b is I ==> b->I_0.index < self.ni(),
            b is V ==> b->V_0.index < self.nv(),
            !(a is E),
            !(b is E),
        ensures
            ({
                let ia = match a {
                    NodeRef::I(i) => i.index as int,
                    NodeRef::E(e) => e.index + self.ni(),
                    NodeRef::V(v) => v.index + self.ni(),
                };
                let ib = match b {
                    NodeRef::I(i) => i.index as int,
                    NodeRef::E(e) => e.index + self.ni(),
                    NodeRef::V(v) => v.index + self.ni(),
                };
                &&& 0 <= ia < self.ni() + self.nv()
                &&& a != b ==> ia != ib
            }),
    {
    }

    /// The node identifier of a virtual node.
    pub fn vnode_id(&self, vnode: VNodeRef) -> (r: NodeID)
        requires
            vnode.index < self.nv(),
            self.ni() + self.ne() + self.nv() <= usize::MAX,
        ensures
            r.index() == vnode.index + self.ni() + self.ne(),
    {
        NodeID(self.internal_nodes.len() + self.external_nodes.len() + vnode.index)
    }

    /// The real nodes a virtual node stands for.
    pub fn iter_virtualnode(&self, node: VNodeRef) -> (r: Vec<RealNodeRef>)
        requires
            node.index < self.nv(),
        ensures
            r@ == self.virtual_nodes@[node.index as int]@,
    {
        let members = &self.virtual_nodes[node.index];
        let mut r: Vec<RealNodeRef> = Vec::new();
        let mut i: usize = 0;
        while i < members.len()
            invariant
                i <= members@.len(),
                r@ == members@.take(i as int),
            decreases members@.len() - i,
        {
            r.push(members[i]);
            assert(members@.take(i + 1) == members@.take(i as int).push(members@[i as int]));
            i = i + 1;
        }
        assert(members@.take(members@.len() as int) == members@);
        r
    }

    /// The real nodes a node reference stands for: itself if real, its members if virtual.
    pub fn iter_node(&self, node: NodeRef) -> (r: Vec<RealNodeRef>)
        requires
            node matches NodeRef::V(v) ==> v.index < self.nv(),
        ensures
            r@ == match node {
                NodeRef::E(e) => seq![RealNodeRef::E(e)],
                NodeRef::I(i) => seq![RealNodeRef::I(i)],
                NodeRef::V(v) => self.virtual_nodes@[v.index as int]@,
            },
    {
        match node {
            NodeRef::E(e) => vec![RealNodeRef::E(e)],
            NodeRef::I(i) => vec![RealNodeRef::I(i)],
            NodeRef::V(v) => self.iter_virtualnode(v),
        }
    }

    /// The node a real reference designates.
    pub fn node(&self, r: RealNodeRef) -> (n: &Node<NM>)
        requires
            self.valid_real(r),
        ensures
            *n == self.spec_node(r),
    {
        match r {
            RealNodeRef::I(i) => &self.internal_nodes[i.index],
            RealNodeRef::E(e) => &self.external_nodes[e.index],
        }
    }

    /// The contact a reference designates.
    pub fn contact(&self, c: ContactRef) -> (r: &Contact<CM>)
        requires
            c.index < self.nc(),
        ensures
            *r == self.contacts@[c.index as int],
    {
        &self.contacts[c.index]
    }

    /// The contacts from the internal node `tx` to the internal node `rx`, in the order the
    /// graph keeps them; none when `rx` is not a neighbour of `tx`.
    pub fn iter_contacts(&self, tx: INodeRef, rx: INodeRef) -> (r: Vec<ContactRef>)
        requires
            self.wf(),
            tx.index < self.ni(),
        ensures
            r@ == match first_neighbour(self.neighbours@[tx.index as int].reals@, rx.index) {
                Some(k) => self.neighbours@[tx.index as int].reals@[k].contacts@.map_values(
                    |c: usize| ContactRef { index: c },
                ),
                None => Seq::<ContactRef>::empty(),
            },
            forall|j: int| 0 <= j < r@.len() ==> self.contact_between(#[trigger] r@[j].index as int, tx.index as int, rx.index as int),
    {
        let reals = &self.neighbours[tx.index].reals;
        let mut k: usize = 0;
        assert(reals@.skip(0) =~= reals@);
        while k < reals.len()
            invariant
                k <= reals@.len(),
                self.wf(),
                tx.index < self.ni(),
                reals@ == self.neighbours@[tx.index as int].reals@,
                match first_neighbour(reals@.skip(k as int), rx.index) {
                    Some(i) => first_neighbour(reals@, rx.index) == Some(i + k),
                    None => first_neighbour(reals@, rx.index) is None,
                },
            decreases reals@.len() - k,
        {
            if reals[k].node.index == rx.index {
                let contacts = &reals[k].contacts;
                let mut out: Vec<ContactRef> = Vec::new();
                let mut j: usize = 0;
                while j < contacts.len()
                    invariant
                        j <= contacts@.len(),
                        out@ == contacts@.take(j as int).map_values(|c: usize| ContactRef { index: c }),
                    decreases contacts@.len() - j,
                {
                    out.push(ContactRef { index: contacts[j] });
                    assert(contacts@.take(j + 1) == contacts@.take(j as int).push(contacts@[j as int]));
                    j = j + 1;
                }
                proof {
                    assert(reals@.skip(k as int)[0] == reals@[k as int]);
                    assert(contacts@.take(contacts@.len() as int) == contacts@);
                    assert(first_neighbour(reals@, rx.index) == Some(k as int));
                    assert forall|q: int| 0 <= q < out@.len() implies self.contact_between(
                        #[trigger] out@[q].index as int,
                        tx.index as int,
                        rx.index as int,
                    ) by {
                        let rn = self.neighbours@[tx.index as int].reals@[k as int];
                        assert(rn == reals@[k as int]);
                        assert(out@[q].index == rn.contacts@[q]);
                        assert(rn.node.index == rx.index);
                        assert(self.contact_between(rn.contacts@[q] as int, tx.index as int, rn.node.index as int));
                    }
                }
                return out;
            }
            proof {
                assert(reals@.skip(k as int).skip(1) == reals@.skip(k + 1));
            }
            k = k + 1;
        }
        Vec::new()
    }

    /// Marks exactly the given nodes as excluded from routing.
    pub fn mark_excluded(&mut self, exclusions: &[RealNodeRef])
        requires
            old(self).wf(),
            forall|k: int| 0 <= k < exclusions@.len() ==> old(self).valid_real(#[trigger] exclusions@[k]),
        ensures
            final(self).wf(),
            final(self).ni() == old(self).ni(),
            final(self).ne() == old(self).ne(),
            final(self).nv() == old(self).nv(),
            final(self).neighbours == old(self).neighbours,
            final(self).virtual_nodes == old(self).virtual_nodes,
            final(self).contacts == old(self).contacts,
            final(self).contact_ends == old(self).contact_ends,
            forall|i: int|
                0 <= i < final(self).ni() ==> {
                    &&& (#[trigger] final(self).internal_nodes@[i]).manager == old(self).internal_nodes@[i].manager
                    &&& final(self).internal_nodes@[i].info.id == old(self).internal_nodes@[i].info.id
                    &&& final(self).internal_nodes@[i].info.excluded == exclusions@.contains(
                        RealNodeRef::I(INodeRef { index: i as usize }),
                    )
                },
            forall|i: int|
                0 <= i < final(self).ne() ==> {
                    &&& (#[trigger] final(self).external_nodes@[i]).manager == old(self).external_nodes@[i].manager
                    &&& final(self).external_nodes@[i].info.id == old(self).external_nodes@[i].info.id
                    &&& final(self).external_nodes@[i].info.excluded == exclusions@.contains(
                        RealNodeRef::E(ENodeRef { index: i as usize }),
                    )
                },
    {
        let mut i: usize = 0;
        while i < self.internal_nodes.len()
            invariant
                i <= self.ni(),
                self.ni() == old(self).ni(),
                self.ne() == old(self).ne(),
                self.wf(),
                self.neighbours == old(self).neighbours,
                self.virtual_nodes == old(self).virtual_nodes,
                self.contacts == old(self).contacts,
                self.contact_ends == old(self).contact_ends,
                self.external_nodes == old(self).external_nodes,
                forall|k: int| 0 <= k < exclusions@.len() ==> old(self).valid_real(#[trigger] exclusions@[k]),
                forall|j: int|
                    0 <= j < self.ni() ==> {
                        &&& (#[trigger] self.internal_nodes@[j]).manager == old(self).internal_nodes@[j].manager
                        &&& self.internal_nodes@[j].info.id == old(self).internal_nodes@[j].info.id
                        &&& j < i ==> self.internal_nodes@[j].info.excluded == exclusions@.contains(
                            RealNodeRef::I(INodeRef { index: j as usize }),
                        )
                    },
            decreases self.ni() - i,
        {
            let ex = contains_ref(exclusions, RealNodeRef::I(INodeRef { index: i }));
            self.internal_nodes[i].info.excluded = ex;
            i = i + 1;
        }
        let mut i: usize = 0;
        while i < self.external_nodes.len()
            invariant
                i <= self.ne(),
                self.ni() == old(self).ni(),
                self.ne() == old(self).ne(),
                self.wf(),
                self.neighbours == old(self).neighbours,
                self.virtual_nodes == old(self).virtual_nodes,
                self.contacts == old(self).contacts,
                self.contact_ends == old(self).contact_ends,
                forall|j: int|
                    0 <= j < self.ni() ==> {
                        &&& (#[trigger] self.internal_nodes@[j]).manager == old(self).internal_nodes@[j].manager
                        &&& self.internal_nodes@[j].info.id == old(self).internal_nodes@[j].info.id
                        &&& self.internal_nodes@[j].info.excluded == exclusions@.contains(
                            RealNodeRef::I(INodeRef { index: j as usize }),
                        )
                    },
                forall|j: int|
                    0 <= j < self.ne() ==> {
                        &&& (#[trigger] self.external_nodes@[j]).manager == old(self).external_nodes@[j].manager
                        &&& self.external_nodes@[j].info.id == old(self).external_nodes@[j].info.id
                        &&& j < i ==> self.external_nodes@[j].info.excluded == exclusions@.contains(
                            RealNodeRef::E(ENodeRef { index: j as usize }),
                        )
                    },
            decreases self.ne() - i,
        {
            let ex = contains_ref(exclusions, RealNodeRef::E(ENodeRef { index: i }));
            self.external_nodes[i].info.excluded = ex;
            i = i + 1;
        }
    }
}

/// Whether a list of real node references holds a given one.
pub fn contains_ref(list: &[RealNodeRef], r: RealNodeRef) -> (b: bool)
    ensures
        b == list@.contains(r),
{
    let mut i: usize = 0;
    while i < list.len()
        invariant
            i <= list@.len(),
            forall|k: int| 0 <= k < i ==> list@[k] != r,
        decreases list@.len() - i,
    {
        if list[i] == r {
            assert(list@[i as int] == r);
            return true;
        }
        i = i + 1;
    }
    false
}

} // verus!
