//! Contact plans: the nodes and contacts of a network, and their parser.

use vstd::prelude::*;

use crate::contact::Contact;
use crate::contact_manager::ContactManager;
use crate::node::Node;
use crate::node_manager::NodeManager;
use crate::vnode::VirtualNodeInfo;

pub mod from_asabr_lexer;
pub mod from_ion_file;
pub mod from_tvgutil_file;
pub mod lexer;
pub mod segment_lists;

verus! {

/// Calls `==` on two string slices: whether they hold the same characters.
#[verifier::external_body]
pub(crate) fn str_eq(a: &str, b: &str) -> (r: bool)
    ensures
        r == (a@ == b@),
{
    a == b
}

/// A real node, either internal or external.
#[derive(Clone)]
pub enum RealNode<NM: NodeManager> {
    /// External node.
    Enode(Node<NM>),
    /// Internal node.
    Inode(Node<NM>),
}

impl<NM: NodeManager> RealNode<NM> {
    /// The node, whatever its kind.
    pub open spec fn node(self) -> Node<NM> {
        match self {
            RealNode::Enode(n) => n,
            RealNode::Inode(n) => n,
        }
    }
}

/// A contact plan: the real nodes (internal nodes first), the virtual nodes, and the contacts
/// with the indices of their transmitting and receiving real nodes.
pub struct ContactPlan<NM: NodeManager, CM: ContactManager> {
    /// Real nodes, in node ID order.
    pub realnodes: Vec<RealNode<NM>>,
    /// Virtual nodes.
    pub vnodes: Vec<VirtualNodeInfo>,
    /// Contacts, with the indices of their sender and receiver among the real nodes.
    pub contacts: Vec<(Contact<CM>, usize, usize)>,
}

impl<NM: NodeManager, CM: ContactManager> ContactPlan<NM, CM> {
    /// Creates a contact plan.
    pub fn new(
        realnodes: Vec<RealNode<NM>>,
        vnodes: Vec<VirtualNodeInfo>,
        contacts: Vec<(Contact<CM>, usize, usize)>,
    ) -> (r: Self)
        ensures
            r.realnodes == realnodes,
            r.vnodes == vnodes,
            r.contacts == contacts,
    {
        ContactPlan { realnodes, vnodes, contacts }
    }
}

/// The internal nodes of a list of real nodes, in order.
pub open spec fn inodes_of<NM: NodeManager>(s: Seq<RealNode<NM>>) -> Seq<Node<NM>>
    decreases s.len(),
{
    if s.len() == 0 {
        Seq::empty()
    } else {
        match s.last() {
            RealNode::Inode(n) => inodes_of(s.drop_last()).push(n),
            RealNode::Enode(_) => inodes_of(s.drop_last()),
        }
    }
}

/// The external nodes of a list of real nodes, in order.
pub open spec fn enodes_of<NM: NodeManager>(s: Seq<RealNode<NM>>) -> Seq<Node<NM>>
    decreases s.len(),
{
    if s.len() == 0 {
        Seq::empty()
    } else {
        match s.last() {
            RealNode::Enode(n) => enodes_of(s.drop_last()).push(n),
            RealNode::Inode(_) => enodes_of(s.drop_last()),
        }
    }
}

/// Splitting real nodes into internal and external ones keeps every node.
pub proof fn lemma_split_count<NM: NodeManager>(s: Seq<RealNode<NM>>)
    ensures
        inodes_of(s).len() + enodes_of(s).len() == s.len(),
    decreases s.len(),
{
    if s.len() > 0 {
        lemma_split_count(s.drop_last());
    }
}

} // verus!
