//! Destinations: when a search can stop, and which virtual nodes are worth reaching.

use vstd::prelude::*;

use crate::contact_manager::ContactManager;
use crate::errors::ASABRError;
use crate::multigraph::{INodeRef, Multigraph, NodeRef, RoutableNodeRef, VNodeRef};
use crate::node_manager::NodeManager;
use crate::pathfinding::dijkstra::Destination;
use crate::pathfinding::validation::validated;
use crate::pathfinding::{count_of, lemma_count_bound, lemma_count_update, PathFindingOutput};
use crate::paths::PathFragment;
use crate::types::{Bundle, Date};

verus! {

/// The references are sorted by strictly increasing index.
pub open spec fn sorted_refs(s: Seq<INodeRef>) -> bool {
    forall|i: int, j: int| 0 <= i < j < s.len() ==> (#[trigger] s[i]).index < (#[trigger] s[j]).index
}

/// The state of a multicast destination is consistent: one flag per listed node, and the
/// counter counts the flags that are set.
pub open spec fn multicast_consistent(d: Seq<INodeRef>, reached: Seq<bool>, c: usize) -> bool {
    &&& reached.len() == d.len()
    &&& c == count_of(reached, true)
}

/// All flags are set exactly when their count is the number of flags.
pub proof fn lemma_count_all(s: Seq<bool>)
    ensures
        count_of(s, true) == s.len() <==> forall|i: int| 0 <= i < s.len() ==> #[trigger] s[i],
    decreases s.len(),
{
    if s.len() > 0 {
        lemma_count_all(s.drop_last());
        lemma_count_bound(s.drop_last(), true);
        if forall|i: int| 0 <= i < s.len() ==> #[trigger] s[i] {
            assert(forall|i: int| 0 <= i < s.drop_last().len() ==> #[trigger] s.drop_last()[i] == s[i]);
        }
        if count_of(s, true) == s.len() {
            assert forall|i: int| 0 <= i < s.len() implies #[trigger] s[i] by {
                if i < s.len() - 1 {
                    assert(s.drop_last()[i] == s[i]);
                }
            }
        }
    }
}

/// A consistent multicast destination whose counter has reached the number of listed nodes has
/// every listed node reached, and conversely.
pub proof fn lemma_multicast_counter_full(d: Seq<INodeRef>, reached: Seq<bool>, c: usize)
    requires
        multicast_consistent(d, reached, c),
    ensures
        c == d.len() <==> forall|i: int| 0 <= i < d.len() ==> #[trigger] reached[i],
{
    lemma_count_all(reached);
}

/// A multicast destination whose flags are all clear and whose counter is zero is consistent.
pub proof fn lemma_multicast_fresh(d: Seq<INodeRef>, reached: Seq<bool>)
    requires
        reached == Seq::new(d.len(), |i: int| false),
    ensures
        multicast_consistent(d, reached, 0),
    decreases d.len(),
{
    if d.len() > 0 {
        lemma_multicast_fresh(d.drop_last(), Seq::new(d.drop_last().len(), |i: int| false));
        assert(reached.drop_last() =~= Seq::new(d.drop_last().len(), |i: int| false));
    }
}

/// Searches sorted references for `node`; the position found, if any.
pub fn find_sorted(dests: &Vec<INodeRef>, node: INodeRef) -> (r: Option<usize>)
    ensures
        r matches Some(i) ==> i < dests@.len() && dests@[i as int] == node,
        sorted_refs(dests@) ==> (r is Some <==> dests@.contains(node)),
{
    let mut lo: usize = 0;
    let mut hi: usize = dests.len();
    while lo < hi
        invariant
            lo <= hi <= dests@.len(),
            sorted_refs(dests@) ==> forall|i: int| 0 <= i < lo ==> (#[trigger] dests@[i]).index < node.index,
            sorted_refs(dests@) ==> forall|i: int| hi <= i < dests@.len() ==> (#[trigger] dests@[i]).index > node.index,
        decreases hi - lo,
    {
        let mid = lo + (hi - lo) / 2;
        let x = dests[mid].index;
        if x == node.index {
            return Some(mid);
        } else if x < node.index {
            lo = mid + 1;
        } else {
            hi = mid;
        }
    }
    proof {
        if sorted_refs(dests@) && dests@.contains(node) {
            let k = choose|k: int| 0 <= k < dests@.len() && dests@[k] == node;
            assert(dests@[k].index == node.index);
        }
    }
    None
}

/// The standard destinations.
pub enum Dest {
    /// A single internal node.
    INode(INodeRef),
    /// A single virtual node.
    VNode(VNodeRef),
    /// Every routable node: the search never stops early.
    AllNodes(),
    /// Any one of these internal nodes, sorted by index.
    AnyCast(Vec<INodeRef>),
    /// All of these internal nodes, sorted by index, with which are reached and how many.
    MultiCast(Vec<INodeRef>, Vec<bool>, usize),
}

impl Destination for Dest {
    open spec fn spec_never_stops_at(&self, node: RoutableNodeRef) -> bool {
        match (*self, node) {
            (Dest::INode(d), RoutableNodeRef::I(n)) => d != n,
            (Dest::VNode(_), RoutableNodeRef::V(_)) => false,
            (Dest::AnyCast(d), RoutableNodeRef::I(n)) => !d@.contains(n),
            (Dest::MultiCast(d, _, _), RoutableNodeRef::I(n)) => !d@.contains(n),
            _ => true,
        }
    }

    open spec fn spec_is_useful(&self, node: VNodeRef) -> bool {
        match *self {
            Dest::VNode(d) => d == node,
            Dest::AllNodes() => true,
            _ => false,
        }
    }

    fn reinit(&mut self)
        ensures
            match *old(self) {
                Dest::MultiCast(d, r, _) => *final(self) matches Dest::MultiCast(d2, r2, c2) && d2 == d && r2@
                    == Seq::new(r@.len(), |i: int| false) && c2 == 0 && (r@.len() == d@.len() ==> multicast_consistent(
                    d2@,
                    r2@,
                    c2,
                )),
                _ => *final(self) == *old(self),
            },
    {
        match self {
            Dest::MultiCast(_, reached, counter) => {
                let ghost n = reached@.len();
                let mut i: usize = 0;
                while i < reached.len()
                    invariant
                        i <= reached@.len(),
                        reached@.len() == n,
                        forall|j: int| 0 <= j < i ==> !(#[trigger] reached@[j]),
                    decreases reached@.len() - i,
                {
                    reached.set(i, false);
                    i = i + 1;
                }
                *counter = 0;
                proof {
                    assert(reached@ == Seq::new(n, |i: int| false));
                    if let Dest::MultiCast(d, _, _) = *old(self) {
                        if n == d@.len() {
                            lemma_multicast_fresh(d@, reached@);
                        }
                    }
                }
            },
            _ => {},
        }
    }

    fn now_reached(&mut self, node: RoutableNodeRef) -> (r: bool)
        ensures
            match (*old(self), node) {
                (Dest::INode(d), RoutableNodeRef::I(n)) => r == (d == n) && *final(self) == *old(self),
                (Dest::VNode(_), RoutableNodeRef::V(_)) => r && *final(self) == *old(self),
                (Dest::AnyCast(d), RoutableNodeRef::I(n)) => *final(self) == *old(self) && (r ==> d@.contains(n))
                    && (sorted_refs(d@) ==> r == d@.contains(n)),
                (Dest::MultiCast(d, reached, c), RoutableNodeRef::I(n)) => *final(self) matches Dest::MultiCast(d2, reached2, c2)
                    && d2 == d && reached2@.len() == reached@.len() && (r ==> d@.contains(n)) && (multicast_consistent(
                    d@,
                    reached@,
                    c,
                ) ==> {
                    &&& multicast_consistent(d@, reached2@, c2)
                    &&& r ==> forall|i: int| 0 <= i < reached2@.len() ==> #[trigger] reached2@[i]
                    &&& forall|i: int| 0 <= i < reached2@.len() ==> (#[trigger] reached2@[i] ==> reached@[i] || d@[i] == n)
                    &&& sorted_refs(d@) ==> forall|i: int|
                        0 <= i < reached2@.len() ==> #[trigger] reached2@[i] == (reached@[i] || d@[i] == n)
                    &&& sorted_refs(d@) ==> (r <==> (exists|i: int| 0 <= i < d@.len() && #[trigger] d@[i] == n && !reached@[i])
                        && forall|i: int| 0 <= i < reached2@.len() ==> #[trigger] reached2@[i])
                }),
                (Dest::AllNodes(), _) => !r && *final(self) == *old(self),
                _ => !r && *final(self) == *old(self),
            },
    {
        match (self, node) {
            (Dest::INode(dest), RoutableNodeRef::I(n)) => dest.index == n.index,
            (Dest::VNode(_), RoutableNodeRef::V(_)) => true,
            (Dest::AllNodes(), _) => false,
            (Dest::AnyCast(dests), RoutableNodeRef::I(n)) => find_sorted(dests, n).is_some(),
            (Dest::MultiCast(dests, reached, counter), RoutableNodeRef::I(n)) => {
                let ghost r0 = reached@;
                let ghost c0 = *counter;
                match find_sorted(dests, n) {
                    Some(idx) => {
                        if idx < reached.len() && !reached[idx] {
                            proof {
                                lemma_count_update(r0, idx as int, true);
                                lemma_count_bound(r0.update(idx as int, true), true);
                            }
                            reached.set(idx, true);
                            *counter = counter.wrapping_add(1);
                            proof {
                                lemma_count_all(reached@);
                                lemma_count_all(r0);
                                if multicast_consistent(dests@, r0, c0) {
                                    assert(*counter == c0 + 1);
                                }
                            }
                            *counter == dests.len()
                        } else {
                            proof {
                                lemma_count_all(r0);
                                if multicast_consistent(dests@, r0, c0) && sorted_refs(dests@) {
                                    assert forall|i: int| 0 <= i < dests@.len() && #[trigger] dests@[i] == n implies r0[i] by {
                                        if i != idx as int {
                                            if i < idx {
                                                assert(dests@[i].index < dests@[idx as int].index);
                                            } else {
                                                assert(dests@[idx as int].index < dests@[i].index);
                                            }
                                        }
                                    }
                                }
                            }
                            false
                        }
                    },
                    None => {
                        proof {
                            lemma_count_all(r0);
                        }
                        false
                    },
                }
            },
            _ => false,
        }
    }

    fn is_useful(&self, node: VNodeRef) -> (r: bool)
        ensures
            r == match *self {
                Dest::VNode(d) => d == node,
                Dest::AllNodes() => true,
                _ => false,
            },
    {
        match self {
            Dest::VNode(dest) => dest.index == node.index,
            Dest::AllNodes() => true,
            _ => false,
        }
    }
}

impl Dest {
    /// A destination reached by any one of the sorted internal nodes.
    pub fn anycast(casts: Vec<INodeRef>) -> (r: Self)
        ensures
            r == Dest::AnyCast(casts),
    {
        Dest::AnyCast(casts)
    }

    /// A destination reached once all of the sorted internal nodes are.
    pub fn multicast(casts: Vec<INodeRef>) -> (r: Self)
        ensures
            r matches Dest::MultiCast(d, reached, c) && d == casts && reached@ == Seq::new(casts@.len(), |i: int| false)
                && c == 0 && multicast_consistent(d@, reached@, c),
    {
        let n = casts.len();
        let mut reached: Vec<bool> = Vec::new();
        let mut i: usize = 0;
        while i < n
            invariant
                i <= n,
                reached@.len() == i,
                forall|j: int| 0 <= j < i ==> !(#[trigger] reached@[j]),
            decreases n - i,
        {
            reached.push(false);
            i = i + 1;
        }
        proof {
            assert(reached@ == Seq::new(n as nat, |i: int| false));
            lemma_multicast_fresh(casts@, reached@);
        }
        Dest::MultiCast(casts, reached, 0)
    }

    /// The destination of a node reference; external nodes are not routable.
    pub fn try_from_node(value: NodeRef) -> (r: Result<Self, ASABRError>)
        ensures
            r == match value {
                NodeRef::I(i) => Ok(Dest::INode(i)),
                NodeRef::V(v) => Ok(Dest::VNode(v)),
                NodeRef::E(_) => Err::<Dest, ASABRError>(ASABRError::ContactPlanError("This node is not routable")),
            },
    {
        match value {
            NodeRef::I(i) => Ok(Dest::INode(i)),
            NodeRef::V(v) => Ok(Dest::VNode(v)),
            NodeRef::E(_) => Err(ASABRError::ContactPlanError("This node is not routable")),
        }
    }

    /// The destination of a routable node reference.
    pub fn from_routable(value: RoutableNodeRef) -> (r: Self)
        ensures
            r == match value {
                RoutableNodeRef::I(i) => Dest::INode(i),
                RoutableNodeRef::V(v) => Dest::VNode(v),
            },
    {
        match value {
            RoutableNodeRef::I(i) => Dest::INode(i),
            RoutableNodeRef::V(v) => Dest::VNode(v),
        }
    }
}

/// The destination that searches every useful routable node.
pub struct All;

impl Destination for All {
    open spec fn spec_never_stops_at(&self, node: RoutableNodeRef) -> bool {
        true
    }

    open spec fn spec_is_useful(&self, node: VNodeRef) -> bool {
        true
    }

    fn reinit(&mut self) {
    }

    fn now_reached(&mut self, node: RoutableNodeRef) -> (r: bool)
        ensures
            !r,
    {
        false
    }

    fn is_useful(&self, node: VNodeRef) -> (r: bool)
        ensures
            r,
    {
        true
    }
}

impl Destination for INodeRef {
    open spec fn spec_never_stops_at(&self, node: RoutableNodeRef) -> bool {
        node != RoutableNodeRef::I(*self)
    }

    open spec fn spec_is_useful(&self, node: VNodeRef) -> bool {
        false
    }

    fn reinit(&mut self) {
    }

    fn now_reached(&mut self, node: RoutableNodeRef) -> (r: bool)
        ensures
            r == (node == RoutableNodeRef::I(*old(self))),
            *final(self) == *old(self),
    {
        match node {
            RoutableNodeRef::I(n) => n.index == self.index,
            RoutableNodeRef::V(_) => false,
        }
    }

    fn is_useful(&self, node: VNodeRef) -> (r: bool)
        ensures
            !r,
    {
        false
    }
}

impl Destination for VNodeRef {
    open spec fn spec_never_stops_at(&self, node: RoutableNodeRef) -> bool {
        node != RoutableNodeRef::V(*self)
    }

    open spec fn spec_is_useful(&self, node: VNodeRef) -> bool {
        node == *self
    }

    fn reinit(&mut self) {
    }

    fn now_reached(&mut self, node: RoutableNodeRef) -> (r: bool)
        ensures
            r == (node == RoutableNodeRef::V(*old(self))),
            *final(self) == *old(self),
    {
        match node {
            RoutableNodeRef::V(v) => v.index == self.index,
            RoutableNodeRef::I(_) => false,
        }
    }

    fn is_useful(&self, node: VNodeRef) -> (r: bool)
        ensures
            r == (node == *self),
    {
        node.index == self.index
    }
}

impl Destination for RoutableNodeRef {
    open spec fn spec_never_stops_at(&self, node: RoutableNodeRef) -> bool {
        node != *self
    }

    open spec fn spec_is_useful(&self, node: VNodeRef) -> bool {
        *self == RoutableNodeRef::V(node)
    }

    fn reinit(&mut self) {
    }

    fn now_reached(&mut self, node: RoutableNodeRef) -> (r: bool)
        ensures
            r == (node == *old(self)),
            *final(self) == *old(self),
    {
        match (node, *self) {
            (RoutableNodeRef::I(a), RoutableNodeRef::I(b)) => a.index == b.index,
            (RoutableNodeRef::V(a), RoutableNodeRef::V(b)) => a.index == b.index,
            _ => false,
        }
    }

    fn is_useful(&self, node: VNodeRef) -> (r: bool)
        ensures
            r == (*self == RoutableNodeRef::V(node)),
    {
        match self {
            RoutableNodeRef::I(_) => false,
            RoutableNodeRef::V(v) => v.index == node.index,
        }
    }
}

/// Destinations whose paths can be stored and checked again later.
pub trait FindableDest<NM: NodeManager, CM: ContactManager>: Destination {
    /// The destination names only nodes of `graph`.
    spec fn fits_graph(&self, graph: Multigraph<NM, CM>) -> bool;

    /// The key under which paths for this destination are stored, if there is one.
    spec fn spec_to_id(&self, graph: Multigraph<NM, CM>) -> Option<usize>;

    /// Checking a stored path tree again for this destination: the tree afterwards, and whether
    /// it still serves the bundle.
    spec fn spec_validate(
        &self,
        graph: Multigraph<NM, CM>,
        tree: Seq<Option<PathFragment>>,
        time: Date,
        bundle: Bundle,
    ) -> (Seq<Option<PathFragment>>, bool);

    /// Whether the destination names only nodes of `graph`.
    fn fits(&self, graph: &Multigraph<NM, CM>) -> (b: bool)
        ensures
            b == self.fits_graph(*graph),
    ;

    /// The key under which paths for this destination are stored, if there is one.
    fn to_id(&self, graph: &Multigraph<NM, CM>) -> (r: Option<usize>)
        requires
            self.fits_graph(*graph),
            graph.ni() + graph.ne() + graph.nv() <= usize::MAX,
        ensures
            r == self.spec_to_id(*graph),
    ;

    /// Checks a stored path tree again for a bundle leaving at `time`, timing its paths again.
    fn validate(
        &self,
        paths: &mut PathFindingOutput,
        time: Date,
        bundle: &Bundle,
        graph: &Multigraph<NM, CM>,
    ) -> (ok: bool)
        requires
            self.fits_graph(*graph),
            graph.wf(),
            graph.ni() + graph.ne() + graph.nv() <= usize::MAX,
            bundle.wf(),
        ensures
            (final(paths).path_tree@, ok) == self.spec_validate(*graph, old(paths).path_tree@, time, *bundle),
    ;
}

/// Checking the paths to `dests[k]`, `dests[k + 1]`, ... in turn until one still serves.
pub open spec fn any_validated<NM: NodeManager, CM: ContactManager>(
    graph: Multigraph<NM, CM>,
    tree: Seq<Option<PathFragment>>,
    dests: Seq<INodeRef>,
    k: int,
    time: Date,
    bundle: Bundle,
) -> (Seq<Option<PathFragment>>, bool)
    decreases dests.len() - k,
{
    if k < 0 || k >= dests.len() {
        (tree, false)
    } else {
        let r = validated(graph, tree, RoutableNodeRef::I(dests[k]), time, bundle);
        if r.1 {
            r
        } else {
            any_validated(graph, r.0, dests, k + 1, time, bundle)
        }
    }
}

/// Checking the paths to `dests[k]`, `dests[k + 1]`, ... in turn until one no longer serves.
pub open spec fn all_validated<NM: NodeManager, CM: ContactManager>(
    graph: Multigraph<NM, CM>,
    tree: Seq<Option<PathFragment>>,
    dests: Seq<INodeRef>,
    k: int,
    time: Date,
    bundle: Bundle,
) -> (Seq<Option<PathFragment>>, bool)
    decreases dests.len() - k,
{
    if k < 0 || k >= dests.len() {
        (tree, true)
    } else {
        let r = validated(graph, tree, RoutableNodeRef::I(dests[k]), time, bundle);
        if !r.1 {
            r
        } else {
            all_validated(graph, r.0, dests, k + 1, time, bundle)
        }
    }
}

/// Every reference names an internal node of the graph.
pub open spec fn inodes_fit<NM: NodeManager, CM: ContactManager>(graph: Multigraph<NM, CM>, dests: Seq<INodeRef>) -> bool {
    forall|k: int| 0 <= k < dests.len() ==> (#[trigger] dests[k]).index < graph.ni()
}

/// Whether every reference names an internal node of the graph.
fn inodes_fit_exec<NM: NodeManager, CM: ContactManager>(graph: &Multigraph<NM, CM>, dests: &Vec<INodeRef>) -> (b: bool)
    ensures
        b == inodes_fit(*graph, dests@),
{
    let mut k: usize = 0;
    while k < dests.len()
        invariant
            k <= dests@.len(),
            forall|t: int| 0 <= t < k ==> (#[trigger] dests@[t]).index < graph.ni(),
        decreases dests@.len() - k,
    {
        if dests[k].index >= graph.internal_nodes.len() {
            return false;
        }
        k = k + 1;
    }
    true
}

/// Checks the paths to the destinations from position `k` on, in turn, until one still serves
/// (`any`) or one no longer does (not `any`).
fn validate_each<NM: NodeManager, CM: ContactManager>(
    dests: &Vec<INodeRef>,
    any: bool,
    paths: &mut PathFindingOutput,
    time: Date,
    bundle: &Bundle,
    graph: &Multigraph<NM, CM>,
) -> (ok: bool)
    requires
        inodes_fit(*graph, dests@),
        graph.wf(),
        graph.ni() + graph.ne() + graph.nv() <= usize::MAX,
        bundle.wf(),
    ensures
        any ==> (final(paths).path_tree@, ok) == any_validated(*graph, old(paths).path_tree@, dests@, 0, time, *bundle),
        !any ==> (final(paths).path_tree@, ok) == all_validated(*graph, old(paths).path_tree@, dests@, 0, time, *bundle),
{
    let ghost tree0 = paths.path_tree@;
    let mut k: usize = 0;
    while k < dests.len()
        invariant
            k <= dests@.len(),
            tree0 == old(paths).path_tree@,
            inodes_fit(*graph, dests@),
            graph.wf(),
            graph.ni() + graph.ne() + graph.nv() <= usize::MAX,
            bundle.wf(),
            any ==> any_validated(*graph, tree0, dests@, 0, time, *bundle) == any_validated(
                *graph,
                paths.path_tree@,
                dests@,
                k as int,
                time,
                *bundle,
            ),
            !any ==> all_validated(*graph, tree0, dests@, 0, time, *bundle) == all_validated(
                *graph,
                paths.path_tree@,
                dests@,
                k as int,
                time,
                *bundle,
            ),
        decreases dests@.len() - k,
    {
        let d = dests[k];
        assert(d.index < graph.ni());
        let ghost cur = paths.path_tree@;
        let ok = paths.validate(RoutableNodeRef::I(d), time, bundle, graph);
        proof {
            assert(any_validated(*graph, cur, dests@, k as int, time, *bundle) == if ok {
                (paths.path_tree@, ok)
            } else {
                any_validated(*graph, paths.path_tree@, dests@, k + 1, time, *bundle)
            });
            assert(all_validated(*graph, cur, dests@, k as int, time, *bundle) == if !ok {
                (paths.path_tree@, ok)
            } else {
                all_validated(*graph, paths.path_tree@, dests@, k + 1, time, *bundle)
            });
        }
        if ok == any {
            return ok;
        }
        k = k + 1;
    }
    proof {
        assert(any_validated(*graph, paths.path_tree@, dests@, k as int, time, *bundle) == (paths.path_tree@, false));
        assert(all_validated(*graph, paths.path_tree@, dests@, k as int, time, *bundle) == (paths.path_tree@, true));
    }
    !any
}

impl<NM: NodeManager, CM: ContactManager> FindableDest<NM, CM> for Dest {
    open spec fn fits_graph(&self, graph: Multigraph<NM, CM>) -> bool {
        match self {
            Dest::INode(i) => i.index < graph.ni(),
            Dest::VNode(v) => v.index < graph.nv(),
            Dest::AllNodes() => true,
            Dest::AnyCast(d) => inodes_fit(graph, d@),
            Dest::MultiCast(d, _, _) => inodes_fit(graph, d@),
        }
    }

    open spec fn spec_to_id(&self, graph: Multigraph<NM, CM>) -> Option<usize> {
        match self {
            Dest::INode(i) => Some(i.index),
            Dest::VNode(v) => Some((graph.ni() + v.index) as usize),
            _ => None,
        }
    }

    open spec fn spec_validate(
        &self,
        graph: Multigraph<NM, CM>,
        tree: Seq<Option<PathFragment>>,
        time: Date,
        bundle: Bundle,
    ) -> (Seq<Option<PathFragment>>, bool) {
        match self {
            Dest::INode(i) => validated(graph, tree, RoutableNodeRef::I(*i), time, bundle),
            Dest::VNode(v) => validated(graph, tree, RoutableNodeRef::V(*v), time, bundle),
            Dest::AllNodes() => (tree, true),
            Dest::AnyCast(d) => any_validated(graph, tree, d@, 0, time, bundle),
            Dest::MultiCast(d, _, _) => all_validated(graph, tree, d@, 0, time, bundle),
        }
    }

    fn fits(&self, graph: &Multigraph<NM, CM>) -> (b: bool) {
        match self {
            Dest::INode(i) => i.index < graph.internal_nodes.len(),
            Dest::VNode(v) => v.index < graph.virtual_nodes.len(),
            Dest::AllNodes() => true,
            Dest::AnyCast(d) => inodes_fit_exec(graph, d),
            Dest::MultiCast(d, _, _) => inodes_fit_exec(graph, d),
        }
    }

    fn to_id(&self, graph: &Multigraph<NM, CM>) -> (r: Option<usize>) {
        match self {
            Dest::INode(i) => Some(i.index),
            Dest::VNode(v) => Some(graph.routable_to_usize(RoutableNodeRef::V(*v))),
            _ => None,
        }
    }

    fn validate(
        &self,
        paths: &mut PathFindingOutput,
        time: Date,
        bundle: &Bundle,
        graph: &Multigraph<NM, CM>,
    ) -> (ok: bool) {
        match self {
            Dest::INode(i) => paths.validate(RoutableNodeRef::I(*i), time, bundle, graph),
            Dest::VNode(v) => paths.validate(RoutableNodeRef::V(*v), time, bundle, graph),
            Dest::AllNodes() => true,
            Dest::AnyCast(d) => validate_each(d, true, paths, time, bundle, graph),
            Dest::MultiCast(d, _, _) => validate_each(d, false, paths, time, bundle, graph),
        }
    }
}

impl<NM: NodeManager, CM: ContactManager> FindableDest<NM, CM> for All {
    open spec fn fits_graph(&self, graph: Multigraph<NM, CM>) -> bool {
        true
    }

    open spec fn spec_to_id(&self, graph: Multigraph<NM, CM>) -> Option<usize> {
        None
    }

    open spec fn spec_validate(
        &self,
        graph: Multigraph<NM, CM>,
        tree: Seq<Option<PathFragment>>,
        time: Date,
        bundle: Bundle,
    ) -> (Seq<Option<PathFragment>>, bool) {
        (tree, true)
    }

    fn fits(&self, graph: &Multigraph<NM, CM>) -> (b: bool) {
        true
    }

    fn to_id(&self, graph: &Multigraph<NM, CM>) -> (r: Option<usize>) {
        None
    }

    fn validate(
        &self,
        paths: &mut PathFindingOutput,
        time: Date,
        bundle: &Bundle,
        graph: &Multigraph<NM, CM>,
    ) -> (ok: bool) {
        true
    }
}

impl<NM: NodeManager, CM: ContactManager> FindableDest<NM, CM> for INodeRef {
    open spec fn fits_graph(&self, graph: Multigraph<NM, CM>) -> bool {
        self.index < graph.ni()
    }

    open spec fn spec_to_id(&self, graph: Multigraph<NM, CM>) -> Option<usize> {
        Some(self.index)
    }

    open spec fn spec_validate(
        &self,
        graph: Multigraph<NM, CM>,
        tree: Seq<Option<PathFragment>>,
        time: Date,
        bundle: Bundle,
    ) -> (Seq<Option<PathFragment>>, bool) {
        validated(graph, tree, RoutableNodeRef::I(*self), time, bundle)
    }

    fn fits(&self, graph: &Multigraph<NM, CM>) -> (b: bool) {
        self.index < graph.internal_nodes.len()
    }

    fn to_id(&self, graph: &Multigraph<NM, CM>) -> (r: Option<usize>) {
        Some(self.index)
    }

    fn validate(
        &self,
        paths: &mut PathFindingOutput,
        time: Date,
        bundle: &Bundle,
        graph: &Multigraph<NM, CM>,
    ) -> (ok: bool) {
        paths.validate(RoutableNodeRef::I(*self), time, bundle, graph)
    }
}

impl<NM: NodeManager, CM: ContactManager> FindableDest<NM, CM> for VNodeRef {
    open spec fn fits_graph(&self, graph: Multigraph<NM, CM>) -> bool {
        self.index < graph.nv()
    }

    open spec fn spec_to_id(&self, graph: Multigraph<NM, CM>) -> Option<usize> {
        Some(self.index)
    }

    open spec fn spec_validate(
        &self,
        graph: Multigraph<NM, CM>,
        tree: Seq<Option<PathFragment>>,
        time: Date,
        bundle: Bundle,
    ) -> (Seq<Option<PathFragment>>, bool) {
        validated(graph, tree, RoutableNodeRef::V(*self), time, bundle)
    }

    fn fits(&self, graph: &Multigraph<NM, CM>) -> (b: bool) {
        self.index < graph.virtual_nodes.len()
    }

    fn to_id(&self, graph: &Multigraph<NM, CM>) -> (r: Option<usize>) {
        Some(self.index)
    }

    fn validate(
        &self,
        paths: &mut PathFindingOutput,
        time: Date,
        bundle: &Bundle,
        graph: &Multigraph<NM, CM>,
    ) -> (ok: bool) {
        paths.validate(RoutableNodeRef::V(*self), time, bundle, graph)
    }
}

impl<NM: NodeManager, CM: ContactManager> FindableDest<NM, CM> for RoutableNodeRef {
    open spec fn fits_graph(&self, graph: Multigraph<NM, CM>) -> bool {
        graph.valid_routable(*self)
    }

    open spec fn spec_to_id(&self, graph: Multigraph<NM, CM>) -> Option<usize> {
        Some(graph.spec_routable_index(*self) as usize)
    }

    open spec fn spec_validate(
        &self,
        graph: Multigraph<NM, CM>,
        tree: Seq<Option<PathFragment>>,
        time: Date,
        bundle: Bundle,
    ) -> (Seq<Option<PathFragment>>, bool) {
        validated(graph, tree, *self, time, bundle)
    }

    fn fits(&self, graph: &Multigraph<NM, CM>) -> (b: bool) {
        match self {
            RoutableNodeRef::I(i) => i.index < graph.internal_nodes.len(),
            RoutableNodeRef::V(v) => v.index < graph.virtual_nodes.len(),
        }
    }

    fn to_id(&self, graph: &Multigraph<NM, CM>) -> (r: Option<usize>) {
        Some(graph.routable_to_usize(*self))
    }

    fn validate(
        &self,
        paths: &mut PathFindingOutput,
        time: Date,
        bundle: &Bundle,
        graph: &Multigraph<NM, CM>,
    ) -> (ok: bool) {
        paths.validate(*self, time, bundle, graph)
    }
}

} // verus!
