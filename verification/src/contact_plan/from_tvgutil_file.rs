//! Building contact plans from TVG-util plans.
//!
//! A TVG-util plan names its vertices, numbered in the order it lists them, and groups its
//! contacts by edge, an edge being an ordered pair of vertex names. The plan is read here from
//! its values: the JSON document itself is decoded by the caller.

use vstd::prelude::*;

use crate::contact::Contact;
use crate::contact_manager::legacy::LegacyManager;
use crate::contact_manager::segmentation::seg::SegmentationManager;
use crate::contact_plan::from_ion_file::{ion_contact, ion_convert, ion_plan_ok, FromIONContactData, IONContactData};
use crate::contact_plan::{ContactPlan, RealNode};
use crate::errors::ASABRError;
use crate::node::{Node, NodeInfo};
use crate::node_manager::NoManagement;
use crate::types::{DataRate, Date, Duration, NodeID, NodeName};

verus! {

/// The error of a plan without an object of vertices.
pub const ENO_VERTICES: &'static str = "no \"vertice\" in json";

/// The error of a plan without an array of edges.
pub const ENO_EDGES: &'static str = "no \"edge\" in json";

/// A contact of a TVG-util plan.
#[derive(Clone, Copy, Debug, PartialEq, Eq, Structural)]
pub struct TVGUtilContactData {
    /// Start of the transmission window.
    pub tx_start: Date,
    /// End of the transmission window.
    pub tx_end: Date,
    /// The transmitting node.
    pub tx_node_id: NodeID,
    /// The receiving node.
    pub rx_node_id: NodeID,
    /// The propagation delay.
    pub delay: Duration,
    /// The data rate.
    pub data_rate: DataRate,
}

/// The numbers of one contact of an edge.
#[derive(Clone, Copy, Debug, PartialEq, Eq, Structural)]
pub struct TVGUtilContactNumbers {
    /// Start of the contact.
    pub start: Date,
    /// End of the contact.
    pub end: Date,
    /// The data rate.
    pub data_rate: DataRate,
    /// The propagation delay.
    pub delay: Duration,
}

/// An edge of a TVG-util plan: its transmitting and receiving vertices, and its contacts.
#[derive(Clone, Debug)]
pub struct TVGUtilEdge {
    /// The name of the transmitting vertex.
    pub tx_name: String,
    /// The name of the receiving vertex.
    pub rx_name: String,
    /// The contacts, in the plan's order.
    pub contacts: Vec<TVGUtilContactNumbers>,
}

/// A TVG-util plan: the vertex names in the order the plan lists them (`None` when the plan has
/// no object of vertices) and the edges (`None` when it has no array of edges).
#[derive(Clone, Debug)]
pub struct TVGUtilJson {
    /// The vertex names.
    pub vertices: Option<Vec<String>>,
    /// The edges.
    pub edges: Option<Vec<TVGUtilEdge>>,
}

/// The same contact, as the contact readers describe it.
pub open spec fn tvg_as_ion(d: TVGUtilContactData) -> IONContactData {
    IONContactData {
        tx_start: d.tx_start,
        tx_end: d.tx_end,
        tx_node_id: d.tx_node_id,
        rx_node_id: d.rx_node_id,
        data_rate: d.data_rate,
        delay: d.delay,
    }
}

/// Contact managers that can be made from TVG-util contacts.
pub trait FromTVGUtilContactData: FromIONContactData {
    /// Makes the contact of a TVG-util contact; `None` when its window is empty or its manager
    /// refuses it.
    fn tvg_convert(data: TVGUtilContactData) -> (r: Option<(Contact<Self>, usize, usize)>)
        ensures
            r is Some <==> (data.tx_start < data.tx_end && Self::ion_ok(tvg_as_ion(data))),
            r matches Some(t) ==> ion_contact(tvg_as_ion(data), t),
    {
        let ion = IONContactData {
            tx_start: data.tx_start,
            tx_end: data.tx_end,
            tx_node_id: data.tx_node_id,
            rx_node_id: data.rx_node_id,
            data_rate: data.data_rate,
            delay: data.delay,
        };
        ion_convert::<Self>(&ion)
    }
}

impl<const ADD_DELAY: bool, const AUTO_UPDATE: bool, const PRIO_COUNT: usize> FromTVGUtilContactData for LegacyManager<
    ADD_DELAY,
    AUTO_UPDATE,
    PRIO_COUNT,
    false,
> {

}

impl FromTVGUtilContactData for SegmentationManager {

}

/// The position of the last vertex named `n`, or -1 when no vertex has that name.
pub open spec fn name_index(names: Seq<Seq<char>>, n: Seq<char>) -> int
    decreases names.len(),
{
    if names.len() == 0 {
        -1
    } else if names.last() == n {
        names.len() - 1
    } else {
        name_index(names.drop_last(), n)
    }
}

/// The contact `c` of an edge between the vertices at positions `tx` and `rx`.
pub open spec fn edge_contact(tx: int, rx: int, c: TVGUtilContactNumbers) -> TVGUtilContactData {
    TVGUtilContactData {
        tx_start: c.start,
        tx_end: c.end,
        tx_node_id: NodeID(tx as usize),
        rx_node_id: NodeID(rx as usize),
        delay: c.delay,
        data_rate: c.data_rate,
    }
}

/// The contacts of an edge.
pub open spec fn edge_contacts(names: Seq<Seq<char>>, e: TVGUtilEdge) -> Seq<TVGUtilContactData> {
    let tx = name_index(names, e.tx_name@);
    let rx = name_index(names, e.rx_name@);
    Seq::new(e.contacts@.len(), |j: int| edge_contact(tx, rx, e.contacts@[j]))
}

/// The contacts of the edges, edge after edge.
pub open spec fn tvg_contacts(names: Seq<Seq<char>>, edges: Seq<TVGUtilEdge>) -> Seq<TVGUtilContactData>
    decreases edges.len(),
{
    if edges.len() == 0 {
        seq![]
    } else {
        tvg_contacts(names, edges.drop_last()) + edge_contacts(names, edges.last())
    }
}

/// Every edge names known vertices, and every contact can be made into a contact of the plan.
pub open spec fn tvg_readable<CM: FromTVGUtilContactData>(names: Seq<Seq<char>>, edges: Seq<TVGUtilEdge>) -> bool {
    &&& forall|k: int|
        0 <= k < edges.len() ==> name_index(names, (#[trigger] edges[k]).tx_name@) >= 0 && name_index(
            names,
            edges[k].rx_name@,
        ) >= 0
    &&& forall|k: int|
        0 <= k < tvg_contacts(names, edges).len() ==> {
            let d = #[trigger] tvg_contacts(names, edges)[k];
            d.tx_start < d.tx_end && CM::ion_ok(tvg_as_ion(d))
        }
}

/// The vertex names of a plan.
pub open spec fn vertex_names(vs: Seq<String>) -> Seq<Seq<char>> {
    vs.map_values(|s: String| s@)
}

/// The position of the last vertex named `n`.
fn find_name(vs: &Vec<String>, n: &String) -> (r: Option<usize>)
    ensures
        r matches Some(k) ==> k == name_index(vertex_names(vs@), n@),
        r is None ==> name_index(vertex_names(vs@), n@) == -1,
{
    let ghost names = vertex_names(vs@);
    let mut k = vs.len();
    assert(names.take(k as int) =~= names);
    while k > 0
        invariant
            k <= vs@.len(),
            names == vertex_names(vs@),
            name_index(names, n@) == name_index(names.take(k as int), n@),
        decreases k,
    {
        proof {
            assert(names.take(k as int).drop_last() == names.take(k - 1));
        }
        if vs[k - 1] == *n {
            return Some(k - 1);
        }
        k = k - 1;
    }
    proof {
        assert(names.take(0) == Seq::<Seq<char>>::empty());
    }
    None
}

/// The node of the vertex at position `k`.
fn vertex_node(k: usize, name: &String) -> (r: RealNode<NoManagement>)
    ensures
        r matches RealNode::Inode(n) && n.info.id == NodeID(k) && n.info.name.name@ == name@ && !n.info.excluded,
{
    let info = NodeInfo { id: NodeID(k), name: NodeName { name: name.clone() }, excluded: false };
    RealNode::Inode(Node { info, manager: NoManagement {} })
}

/// The plan's nodes, one per vertex name, numbered in order.
fn vertex_nodes(vs: &Vec<String>) -> (r: Vec<RealNode<NoManagement>>)
    ensures
        r@.len() == vs@.len(),
        forall|k: int|
            0 <= k < vs@.len() ==> (#[trigger] r@[k] matches RealNode::Inode(n) && n.info.id == NodeID(k as usize)
                && n.info.name.name@ == vs@[k]@ && !n.info.excluded),
{
    let mut nodes: Vec<RealNode<NoManagement>> = Vec::new();
    let mut k: usize = 0;
    while k < vs.len()
        invariant
            k <= vs@.len(),
            nodes@.len() == k,
            forall|q: int|
                0 <= q < k ==> (#[trigger] nodes@[q] matches RealNode::Inode(n) && n.info.id == NodeID(q as usize)
                    && n.info.name.name@ == vs@[q]@ && !n.info.excluded),
        decreases vs@.len() - k,
    {
        nodes.push(vertex_node(k, &vs[k]));
        k = k + 1;
    }
    nodes
}

/// The contacts of the edges, made into contacts of the plan; `None` when an edge names an
/// unknown vertex or a contact cannot be made.
fn edge_plan_contacts<CM: FromTVGUtilContactData>(vs: &Vec<String>, edges: &Vec<TVGUtilEdge>) -> (r: Option<
    Vec<(Contact<CM>, usize, usize)>,
>)
    ensures
        r is Some <==> tvg_readable::<CM>(vertex_names(vs@), edges@),
        r matches Some(out) ==> {
            &&& out@.len() == tvg_contacts(vertex_names(vs@), edges@).len()
            &&& forall|q: int|
                0 <= q < out@.len() ==> ion_contact(
                    tvg_as_ion(tvg_contacts(vertex_names(vs@), edges@)[q]),
                    #[trigger] out@[q],
                )
        },
{
    let ghost names = vertex_names(vs@);
    let mut out: Vec<(Contact<CM>, usize, usize)> = Vec::new();
    let mut k: usize = 0;
    while k < edges.len()
        invariant
            k <= edges@.len(),
            names == vertex_names(vs@),
            tvg_readable::<CM>(names, edges@.take(k as int)),
            out@.len() == tvg_contacts(names, edges@.take(k as int)).len(),
            forall|q: int|
                0 <= q < out@.len() ==> ion_contact(
                    tvg_as_ion(tvg_contacts(names, edges@.take(k as int))[q]),
                    #[trigger] out@[q],
                ),
        decreases edges@.len() - k,
    {
        let e = &edges[k];
        let ghost pre = edges@.take(k as int);
        let ghost next = edges@.take(k + 1);
        proof {
            assert(next.drop_last() == pre);
            assert(next.last() == edges@[k as int]);
        }
        let tx = match find_name(vs, &e.tx_name) {
            Some(i) => i,
            None => {
                proof {
                    assert(!tvg_readable::<CM>(names, edges@)) by {
                        assert(edges@[k as int] == *e);
                    }
                }
                return None;
            },
        };
        let rx = match find_name(vs, &e.rx_name) {
            Some(i) => i,
            None => {
                proof {
                    assert(!tvg_readable::<CM>(names, edges@)) by {
                        assert(edges@[k as int] == *e);
                    }
                }
                return None;
            },
        };
        let ghost base = out@.len();
        let ghost ec = edge_contacts(names, *e);
        let mut j: usize = 0;
        while j < e.contacts.len()
            invariant
                k < edges@.len(),
                e == &edges@[k as int],
                names == vertex_names(vs@),
                pre == edges@.take(k as int),
                ec == edge_contacts(names, *e),
                tx == name_index(names, e.tx_name@),
                rx == name_index(names, e.rx_name@),
                tvg_readable::<CM>(names, pre),
                base == tvg_contacts(names, pre).len(),
                j <= e.contacts@.len(),
                out@.len() == base + j,
                forall|q: int|
                    0 <= q < out@.len() ==> ion_contact(
                        tvg_as_ion((tvg_contacts(names, pre) + ec)[q]),
                        #[trigger] out@[q],
                    ),
                forall|q: int|
                    0 <= q < j ==> (#[trigger] ec[q]).tx_start < ec[q].tx_end && CM::ion_ok(tvg_as_ion(ec[q])),
            decreases e.contacts@.len() - j,
        {
            let c = e.contacts[j];
            let data = TVGUtilContactData {
                tx_start: c.start,
                tx_end: c.end,
                tx_node_id: NodeID(tx),
                rx_node_id: NodeID(rx),
                delay: c.delay,
                data_rate: c.data_rate,
            };
            assert(data == ec[j as int]);
            match CM::tvg_convert(data) {
                Some(t) => {
                    out.push(t);
                },
                None => {
                    proof {
                        lemma_tvg_contacts_append(names, edges@, k as int);
                        assert(tvg_contacts(names, edges@).len() >= base + ec.len());
                        assert(tvg_contacts(names, edges@)[base + j] == ec[j as int]);
                    }
                    return None;
                },
            }
            j = j + 1;
        }
        proof {
            assert(tvg_contacts(names, next) == tvg_contacts(names, pre) + ec);
            assert forall|q: int| 0 <= q < next.len() implies name_index(names, (#[trigger] next[q]).tx_name@) >= 0
                && name_index(names, next[q].rx_name@) >= 0 by {
                if q < k {
                    assert(next[q] == pre[q]);
                }
            }
            assert forall|q: int| 0 <= q < tvg_contacts(names, next).len() implies {
                let d = #[trigger] tvg_contacts(names, next)[q];
                d.tx_start < d.tx_end && CM::ion_ok(tvg_as_ion(d))
            } by {
                if q < base {
                    assert(tvg_contacts(names, next)[q] == tvg_contacts(names, pre)[q]);
                } else {
                    assert(tvg_contacts(names, next)[q] == ec[q - base]);
                }
            }
        }
        k = k + 1;
    }
    proof {
        assert(edges@.take(edges@.len() as int) == edges@);
    }
    Some(out)
}

/// The contacts of the edges up to edge `k` start the contacts of all the edges, and those of
/// edge `k` follow them.
pub proof fn lemma_tvg_contacts_append(names: Seq<Seq<char>>, edges: Seq<TVGUtilEdge>, k: int)
    requires
        0 <= k < edges.len(),
    ensures
        tvg_contacts(names, edges).len() >= tvg_contacts(names, edges.take(k)).len() + edge_contacts(
            names,
            edges[k],
        ).len(),
        forall|q: int|
            0 <= q < edge_contacts(names, edges[k]).len() ==> tvg_contacts(names, edges)[tvg_contacts(
                names,
                edges.take(k),
            ).len() + q] == #[trigger] edge_contacts(names, edges[k])[q],
    decreases edges.len(),
{
    if k == edges.len() - 1 {
        assert(edges.drop_last() == edges.take(k));
    } else {
        lemma_tvg_contacts_append(names, edges.drop_last(), k);
        assert(edges.drop_last().take(k) == edges.take(k));
        assert(edges.drop_last()[k] == edges[k]);
    }
}

/// Reads TVG-util plans.
pub struct TVGUtilContactPlan {}

impl TVGUtilContactPlan {
    /// Builds the contact plan of a TVG-util plan: one internal node per vertex, numbered in
    /// order, and the contacts of the edges, edge after edge. `None` when an edge names an
    /// unknown vertex or a contact cannot be made into a contact of the plan.
    pub fn try_parse<CM: FromTVGUtilContactData>(json: &TVGUtilJson) -> (r: Option<
        Result<ContactPlan<NoManagement, CM>, ASABRError>,
    >)
        ensures
            json.vertices is None ==> r == Some(
                Err::<ContactPlan<NoManagement, CM>, ASABRError>(ASABRError::ContactPlanError(ENO_VERTICES)),
            ),
            json.vertices is Some && json.edges is None ==> r == Some(
                Err::<ContactPlan<NoManagement, CM>, ASABRError>(ASABRError::ContactPlanError(ENO_EDGES)),
            ),
            json.vertices matches Some(vs) ==> (json.edges matches Some(es) ==> {
                let names = vertex_names(vs@);
                &&& r is Some <==> tvg_readable::<CM>(names, es@)
                &&& r matches Some(res) ==> res matches Ok(plan) && ion_plan_ok(
                    names,
                    tvg_contacts(names, es@).map_values(|d: TVGUtilContactData| tvg_as_ion(d)),
                    plan,
                )
            }),
    {
        let vs = match &json.vertices {
            None => {
                return Some(Err(ASABRError::ContactPlanError(ENO_VERTICES)));
            },
            Some(vs) => vs,
        };
        let nodes = vertex_nodes(vs);
        let es = match &json.edges {
            None => {
                return Some(Err(ASABRError::ContactPlanError(ENO_EDGES)));
            },
            Some(es) => es,
        };
        match edge_plan_contacts::<CM>(vs, es) {
            None => None,
            Some(contacts) => {
                let plan = ContactPlan::new(nodes, Vec::new(), contacts);
                proof {
                    let names = vertex_names(vs@);
                    let emitted = tvg_contacts(names, es@).map_values(|d: TVGUtilContactData| tvg_as_ion(d));
                    assert forall|k: int| 0 <= k < names.len() implies (#[trigger] plan.realnodes@[k] matches RealNode::Inode(
                        n,
                    ) && n.info.id == NodeID(k as usize) && n.info.name.name@ == names[k] && !n.info.excluded) by {
                        assert(names[k] == vs@[k]@);
                    }
                    assert forall|k: int| 0 <= k < emitted.len() implies ion_contact(
                        emitted[k],
                        #[trigger] plan.contacts@[k],
                    ) by {
                        assert(emitted[k] == tvg_as_ion(tvg_contacts(names, es@)[k]));
                    }
                    assert(plan.realnodes@.len() == names.len());
                    assert(plan.vnodes@.len() == 0);
                    assert(plan.contacts@.len() == emitted.len());
                    assert(ion_plan_ok(names, emitted, plan));
                }
                Some(Ok(plan))
            },
        }
    }

    /// Builds the contact plan of a TVG-util plan whose edges name known vertices and whose
    /// contacts can all be made into contacts of the plan.
    pub fn parse<CM: FromTVGUtilContactData>(json: &TVGUtilJson) -> (r: Result<ContactPlan<NoManagement, CM>, ASABRError>)
        requires
            json.vertices matches Some(vs) ==> (json.edges matches Some(es) ==> tvg_readable::<CM>(
                vertex_names(vs@),
                es@,
            )),
        ensures
            json.vertices is None ==> r == Err::<ContactPlan<NoManagement, CM>, ASABRError>(
                ASABRError::ContactPlanError(ENO_VERTICES),
            ),
            json.vertices is Some && json.edges is None ==> r == Err::<ContactPlan<NoManagement, CM>, ASABRError>(
                ASABRError::ContactPlanError(ENO_EDGES),
            ),
            json.vertices matches Some(vs) ==> (json.edges matches Some(es) ==> (r matches Ok(plan)
                && ion_plan_ok(
                vertex_names(vs@),
                tvg_contacts(vertex_names(vs@), es@).map_values(|d: TVGUtilContactData| tvg_as_ion(d)),
                plan,
            ))),
    {
        match Self::try_parse::<CM>(json) {
            Some(r) => r,
            None => Err(ASABRError::ContactPlanError(ENO_EDGES)),
        }
    }
}

} // verus!
