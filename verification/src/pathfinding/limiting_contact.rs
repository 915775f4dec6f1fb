//! Contact suppression: searching again for a destination while avoiding, one more each time,
//! the contacts that limited the previous paths.

use core::cmp::Ordering;
use core::marker::PhantomData;

use vstd::prelude::*;

use crate::contact::Contact;
use crate::contact_manager::ContactManager;
use crate::errors::ASABRError;
use crate::multigraph::{ContactRef, INodeRef, Multigraph, RoutableNodeRef};
use crate::node_manager::NodeManager;
use crate::distance::Distance;
use crate::pathfinding::dijkstra::{DijkstraWorkspace, Disktra, Pathfinding};
use crate::pathfinding::{fragment_sound, parents_in_range, path_back, PathFindingOutput};
use crate::paths::PathFragment;
use crate::types::{Bundle, Date};

verus! {

/// Compares two contacts by their original volume: the one with less volume is greater, that
/// is, better to suppress.
pub fn had_less_volume_than<CM: ContactManager>(a: &Contact<CM>, b: &Contact<CM>) -> (r: Ordering)
    requires
        a.wf(),
        b.wf(),
    ensures
        r == (if a.manager.spec_original_volume() < b.manager.spec_original_volume() {
            Ordering::Greater
        } else if a.manager.spec_original_volume() == b.manager.spec_original_volume() {
            Ordering::Equal
        } else {
            Ordering::Less
        }),
{
    let va = a.get_original_volume();
    let vb = b.get_original_volume();
    if va < vb {
        Ordering::Greater
    } else if va == vb {
        Ordering::Equal
    } else {
        Ordering::Less
    }
}

/// Compares two contacts by their end: the one that ends earlier is greater, that is, better to
/// suppress.
pub fn ends_earlier_than<CM: ContactManager>(a: &Contact<CM>, b: &Contact<CM>) -> (r: Ordering)
    ensures
        r == (if a.lifespan.end < b.lifespan.end {
            Ordering::Greater
        } else if a.lifespan.end == b.lifespan.end {
            Ordering::Equal
        } else {
            Ordering::Less
        }),
{
    if a.lifespan.end < b.lifespan.end {
        Ordering::Greater
    } else if a.lifespan.end == b.lifespan.end {
        Ordering::Equal
    } else {
        Ordering::Less
    }
}

/// An order on contacts telling which is better to suppress.
pub trait SuppressionOrder<CM: ContactManager> {
    /// `a` is strictly better to suppress than `b`.
    spec fn better(a: Contact<CM>, b: Contact<CM>) -> bool;

    /// Compares two contacts: `Greater` when `a` is better to suppress, `Less` when `b` is.
    fn compare(a: &Contact<CM>, b: &Contact<CM>) -> (r: Ordering)
        requires
            a.wf(),
            b.wf(),
        ensures
            (r == Ordering::Greater) == Self::better(*a, *b),
            (r == Ordering::Less) == Self::better(*b, *a),
    ;
}

/// Whether `a` stays the contact to suppress when `b` comes next: only when it is strictly
/// better to suppress.
fn keeps_first<CM: ContactManager, O: SuppressionOrder<CM>>(a: &Contact<CM>, b: &Contact<CM>) -> (r: bool)
    requires
        a.wf(),
        b.wf(),
    ensures
        r == O::better(*a, *b),
{
    match O::compare(a, b) {
        Ordering::Greater => true,
        Ordering::Equal => false,
        Ordering::Less => false,
    }
}

/// Suppresses first the contact that ends earliest.
pub struct FirstEnding;

/// Suppresses first the contact with the least original volume.
pub struct FirstDepleted;

impl<CM: ContactManager> SuppressionOrder<CM> for FirstEnding {
    open spec fn better(a: Contact<CM>, b: Contact<CM>) -> bool {
        a.lifespan.end < b.lifespan.end
    }

    fn compare(a: &Contact<CM>, b: &Contact<CM>) -> (r: Ordering) {
        ends_earlier_than(a, b)
    }
}

impl<CM: ContactManager> SuppressionOrder<CM> for FirstDepleted {
    open spec fn better(a: Contact<CM>, b: Contact<CM>) -> bool {
        a.manager.spec_original_volume() < b.manager.spec_original_volume()
    }

    fn compare(a: &Contact<CM>, b: &Contact<CM>) -> (r: Ordering) {
        had_less_volume_than(a, b)
    }
}

/// The contacts of a path, in the path's order.
pub open spec fn path_contacts(path: Seq<PathFragment>) -> Seq<usize>
    decreases path.len(),
{
    if path.len() == 0 {
        seq![]
    } else {
        let rest = path_contacts(path.drop_last());
        match path.last().via {
            Some(v) => rest.push(v.contact.index),
            None => rest,
        }
    }
}

/// The contact best to suppress among `cs` from position `k`, `cur` being the best so far;
/// among equally good contacts the last one wins.
pub open spec fn pick_max<CM: ContactManager, O: SuppressionOrder<CM>>(
    contacts: Seq<Contact<CM>>,
    cs: Seq<usize>,
    k: int,
    cur: Option<usize>,
) -> Option<usize>
    decreases cs.len() - k,
{
    if k < 0 || k >= cs.len() {
        cur
    } else {
        let next = match cur {
            None => cs[k],
            Some(m) => if O::better(contacts[m as int], contacts[cs[k] as int]) {
                m
            } else {
                cs[k]
            },
        };
        pick_max::<CM, O>(contacts, cs, k + 1, Some(next))
    }
}

/// The output holds a well-formed path tree for the graph: parents name positions of the tree,
/// and hops name contacts of the graph.
pub open spec fn output_fits<NM: NodeManager, CM: ContactManager>(tree: Seq<Option<PathFragment>>, graph: Multigraph<NM, CM>) -> bool {
    &&& parents_in_range(tree)
    &&& forall|i: int|
        0 <= i < tree.len() ==> (#[trigger] tree[i] matches Some(f) ==> (f.via matches Some(v) ==> v.contact.index
            < graph.nc()))
}

/// The contact to suppress next for `destination`: the one of its path that `O` finds best to
/// suppress.
pub open spec fn next_to_suppress<NM: NodeManager, CM: ContactManager, O: SuppressionOrder<CM>>(
    graph: Multigraph<NM, CM>,
    tree: Seq<Option<PathFragment>>,
    destination: RoutableNodeRef,
) -> Option<ContactRef> {
    match path_back(tree, graph.spec_routable_index(destination), (tree.len() + 1) as nat) {
        None => None,
        Some(p) => match pick_max::<CM, O>(graph.contacts@, path_contacts(p), 0, None) {
            None => None,
            Some(c) => Some(ContactRef { index: c }),
        },
    }
}

/// The contacts suppressed for `destination` once a search returned `r`: the contact that
/// `next_to_suppress` picks on the path found, if the search found a well-formed tree with a
/// position for the destination and the path to it has a contact to pick, joins them.
pub open spec fn suppression_after<NM: NodeManager, CM: ContactManager, O: SuppressionOrder<CM>>(
    list: Seq<ContactRef>,
    r: Result<Option<PathFindingOutput>, ASABRError>,
    graph: Multigraph<NM, CM>,
    destination: RoutableNodeRef,
) -> Seq<ContactRef> {
    match r {
        Ok(Some(out)) => if graph.spec_routable_index(destination) < out.path_tree@.len() && output_fits(
            out.path_tree@,
            graph,
        ) {
            match next_to_suppress::<NM, CM, O>(graph, out.path_tree@, destination) {
                Some(x) => list.push(x),
                None => list,
            }
        } else {
            list
        },
        _ => list,
    }
}

/// Whether an output holds a well-formed path tree for the graph.
pub fn check_output<NM: NodeManager, CM: ContactManager>(paths: &PathFindingOutput, graph: &Multigraph<NM, CM>) -> (r: bool)
    ensures
        r == output_fits(paths.path_tree@, *graph),
{
    let tree = &paths.path_tree;
    let mut i: usize = 0;
    while i < tree.len()
        invariant
            tree@ == paths.path_tree@,
            i <= tree@.len(),
            forall|k: int|
                0 <= k < i ==> (#[trigger] tree@[k] matches Some(f) ==> (f.via matches Some(v) ==> v.parent_frag
                    < tree@.len() && v.contact.index < graph.nc())),
        decreases tree@.len() - i,
    {
        if let Some(f) = tree[i] {
            if let Some(v) = f.via {
                if v.parent_frag >= tree.len() || v.contact.index >= graph.contacts.len() {
                    proof {
                        assert(tree@[i as int] == Some(f));
                        if v.parent_frag >= tree@.len() {
                            assert(!parents_in_range(tree@));
                        } else {
                            assert(!(tree@[i as int] matches Some(g) ==> (g.via matches Some(w) ==> w.contact.index
                                < graph.nc())));
                        }
                        assert(!output_fits(paths.path_tree@, *graph));
                    }
                    return false;
                }
            }
        }
        i = i + 1;
    }
    true
}

/// Among the contacts of the path to `destination`, the one that `O` finds best to suppress
/// (the last of the equally good ones, from the destination back to the source); `None` when
/// there is no such path or it has no hop.
pub fn get_next_to_suppress<NM: NodeManager, CM: ContactManager, O: SuppressionOrder<CM>>(
    graph: &Multigraph<NM, CM>,
    paths: &PathFindingOutput,
    destination: RoutableNodeRef,
) -> (r: Option<ContactRef>)
    requires
        graph.wf(),
        graph.valid_routable(destination),
        graph.ni() + graph.nv() <= usize::MAX,
        graph.spec_routable_index(destination) < paths.path_tree@.len(),
        output_fits(paths.path_tree@, *graph),
    ensures
        r == next_to_suppress::<NM, CM, O>(*graph, paths.path_tree@, destination),
{
    let ghost tree = paths.path_tree@;
    let ghost fuel = (tree.len() + 1) as nat;
    let path = match paths.full_path_rev(destination, graph) {
        None => {
            return None;
        },
        Some(p) => p,
    };
    proof {
        lemma_path_back_in_tree(tree, graph.spec_routable_index(destination), fuel);
        assert forall|q: int| 0 <= q < path@.len() implies ((#[trigger] path@[q]).via matches Some(v)
            ==> v.contact.index < graph.nc()) by {
            let k = choose|k: int| 0 <= k < tree.len() && tree[k] == Some(path@[q]);
            assert(tree[k] matches Some(f) ==> (f.via matches Some(v) ==> v.contact.index < graph.nc()));
        }
        lemma_path_contacts_bound(path@, graph.nc());
        assert(path@.take(0) =~= seq![]);
        assert(path_contacts(path@).take(0) =~= seq![]);
    }
    let ghost cs = path_contacts(path@);
    let mut best: Option<usize> = None;
    let mut k: usize = 0;
    let ghost mut j: int = 0;
    while k < path.len()
        invariant
            graph.wf(),
            k <= path@.len(),
            forall|q: int| 0 <= q < path@.len() ==> ((#[trigger] path@[q]).via matches Some(v) ==> v.contact.index < graph.nc()),
            cs == path_contacts(path@),
            j == path_contacts(path@.take(k as int)).len(),
            path_contacts(path@.take(k as int)) == cs.take(j),
            0 <= j <= cs.len(),
            forall|q: int| 0 <= q < cs.len() ==> #[trigger] cs[q] < graph.nc(),
            pick_max::<CM, O>(graph.contacts@, cs, 0, None) == pick_max::<CM, O>(graph.contacts@, cs, j, best),
            best matches Some(m) ==> m < graph.nc(),
        decreases path@.len() - k,
    {
        proof {
            lemma_path_contacts_prefix(path@, k as int);
        }
        if let Some(v) = path[k].via {
            let c = v.contact.index;
            let next = match best {
                None => c,
                Some(m) => {
                    if keeps_first::<CM, O>(&graph.contacts[m], &graph.contacts[c]) {
                        m
                    } else {
                        c
                    }
                },
            };
            best = Some(next);
            proof {
                let t1 = path_contacts(path@.take(k + 1));
                assert(t1 == cs.take(j).push(c));
                assert(t1 == cs.take(t1.len() as int));
                assert(cs[j] == t1[j]);
                assert(cs[j] == c);
                j = j + 1;
            }
        }
        k = k + 1;
    }
    proof {
        assert(path@.take(path@.len() as int) =~= path@);
        assert(cs.take(j) =~= cs);
    }
    match best {
        None => None,
        Some(m) => Some(ContactRef { index: m }),
    }
}

proof fn lemma_path_contacts_prefix(path: Seq<PathFragment>, k: int)
    requires
        0 <= k < path.len(),
    ensures
        path_contacts(path.take(k + 1)) == match path[k].via {
            Some(v) => path_contacts(path.take(k)).push(v.contact.index),
            None => path_contacts(path.take(k)),
        },
        path_contacts(path.take(k + 1)).len() <= path_contacts(path).len(),
        path_contacts(path.take(k + 1)) == path_contacts(path).take(path_contacts(path.take(k + 1)).len() as int),
{
    assert(path.take(k + 1).drop_last() =~= path.take(k));
    lemma_path_contacts_take(path, k + 1);
}

proof fn lemma_path_contacts_take(path: Seq<PathFragment>, k: int)
    requires
        0 <= k <= path.len(),
    ensures
        path_contacts(path.take(k)).len() <= path_contacts(path).len(),
        path_contacts(path.take(k)) == path_contacts(path).take(path_contacts(path.take(k)).len() as int),
    decreases path.len() - k,
{
    if k == path.len() {
        assert(path.take(k) =~= path);
        assert(path_contacts(path).take(path_contacts(path).len() as int) =~= path_contacts(path));
    } else {
        lemma_path_contacts_take(path.drop_last(), k);
        assert(path.drop_last().take(k) =~= path.take(k));
        let a = path_contacts(path.take(k));
        let b = path_contacts(path.drop_last());
        match path.last().via {
            Some(v) => {
                assert(path_contacts(path) == b.push(v.contact.index));
                assert(b.push(v.contact.index).take(a.len() as int) =~= b.take(a.len() as int));
            },
            None => {},
        }
    }
}

/// Every fragment of a path followed back through a tree is a fragment of the tree.
proof fn lemma_path_back_in_tree(tree: Seq<Option<PathFragment>>, i: int, fuel: nat)
    requires
        0 <= i < tree.len(),
        parents_in_range(tree),
    ensures
        path_back(tree, i, fuel) matches Some(p) ==> forall|q: int|
            0 <= q < p.len() ==> exists|k: int| 0 <= k < tree.len() && tree[k] == Some(#[trigger] p[q]),
    decreases fuel,
{
    if fuel > 0 {
        if let Some(f) = tree[i] {
            if let Some(v) = f.via {
                assert(tree[i] matches Some(g) ==> (g.via matches Some(w) ==> w.parent_frag < tree.len()));
                lemma_path_back_in_tree(tree, v.parent_frag as int, (fuel - 1) as nat);
                if let Some(rest) = path_back(tree, v.parent_frag as int, (fuel - 1) as nat) {
                    let p = seq![f] + rest;
                    assert forall|q: int| 0 <= q < p.len() implies exists|k: int|
                        0 <= k < tree.len() && tree[k] == Some(#[trigger] p[q]) by {
                        if q == 0 {
                            assert(tree[i] == Some(p[q]));
                        } else {
                            assert(p[q] == rest[q - 1]);
                        }
                    }
                }
            } else {
                assert forall|q: int| 0 <= q < seq![f].len() implies exists|k: int|
                    0 <= k < tree.len() && tree[k] == Some(#[trigger] seq![f][q]) by {
                    assert(tree[i] == Some(seq![f][q]));
                }
            }
        }
    }
}

proof fn lemma_path_contacts_bound(p: Seq<PathFragment>, n: int)
    requires
        forall|q: int| 0 <= q < p.len() ==> ((#[trigger] p[q]).via matches Some(v) ==> v.contact.index < n),
    ensures
        forall|q: int| 0 <= q < path_contacts(p).len() ==> #[trigger] path_contacts(p)[q] < n,
    decreases p.len(),
{
    if p.len() > 0 {
        assert forall|q: int| 0 <= q < p.drop_last().len() implies ((#[trigger] p.drop_last()[q]).via matches Some(v)
            ==> v.contact.index < n) by {
            assert(p.drop_last()[q] == p[q]);
        }
        lemma_path_contacts_bound(p.drop_last(), n);
        let rest = path_contacts(p.drop_last());
        assert(p[p.len() - 1] == p.last());
        if let Some(v) = p.last().via {
            assert(path_contacts(p) == rest.push(v.contact.index));
            assert forall|q: int| 0 <= q < path_contacts(p).len() implies #[trigger] path_contacts(p)[q] < n by {
                if q < rest.len() {
                    assert(path_contacts(p)[q] == rest[q]);
                }
            }
        }
    }
}


/// Pathfinding with contact suppression: each search for a destination runs the inner
/// pathfinder with the contacts suppressed for that destination, then suppresses for later
/// searches the contact of the new path that the order `O` finds best to suppress.
///
/// After a search, the listed contacts are no longer marked suppressed, even those that were
/// marked before the search.
pub struct Suppressor<P, O> {
    /// The inner pathfinder.
    pub pathfinder: P,
    /// For each routable node, by routing index, the contacts suppressed when searching for it.
    pub suppressed: Vec<Vec<ContactRef>>,
    /// The order that chooses the contact to suppress.
    pub order: PhantomData<O>,
}

impl<P, O> Suppressor<P, O> {
    /// A suppressor for the graph, with no contact suppressed yet.
    pub fn new<NM: NodeManager, CM: ContactManager>(pathfinder: P, graph: &Multigraph<NM, CM>) -> (r: Self)
        requires
            graph.ni() + graph.nv() <= usize::MAX,
        ensures
            r.pathfinder == pathfinder,
            r.suppressed@.len() == graph.ni() + graph.nv(),
            forall|i: int| 0 <= i < r.suppressed@.len() ==> (#[trigger] r.suppressed@[i])@.len() == 0,
    {
        let n = graph.get_routable_count();
        let mut suppressed: Vec<Vec<ContactRef>> = Vec::new();
        let mut i: usize = 0;
        while i < n
            invariant
                i <= n,
                suppressed@.len() == i,
                forall|k: int| 0 <= k < i ==> (#[trigger] suppressed@[k])@.len() == 0,
            decreases n - i,
        {
            suppressed.push(Vec::new());
            i = i + 1;
        }
        Suppressor { pathfinder, suppressed, order: PhantomData }
    }
}

/// The graph `g1` is `g0` with the listed contacts marked with `flag`.
pub open spec fn marked_suppressed<NM: NodeManager, CM: ContactManager>(
    g0: Multigraph<NM, CM>,
    g1: Multigraph<NM, CM>,
    list: Seq<ContactRef>,
    flag: bool,
) -> bool {
    &&& g1.wf() == g0.wf()
    &&& g1.internal_nodes == g0.internal_nodes
    &&& g1.external_nodes == g0.external_nodes
    &&& g1.virtual_nodes == g0.virtual_nodes
    &&& g1.neighbours == g0.neighbours
    &&& g1.contact_ends == g0.contact_ends
    &&& g1.contacts@.len() == g0.contacts@.len()
    &&& forall|c: int|
        0 <= c < g1.contacts@.len() ==> (#[trigger] g1.contacts@[c]) == if list.contains(ContactRef { index: c as usize }) {
            Contact { suppressed: flag, ..g0.contacts@[c] }
        } else {
            g0.contacts@[c]
        }
}

/// Marks the listed contacts of the graph with `flag`, skipping those the graph does not hold.
fn set_suppressed<NM: NodeManager, CM: ContactManager>(graph: &mut Multigraph<NM, CM>, list: &Vec<ContactRef>, flag: bool)
    requires
        old(graph).wf(),
    ensures
        final(graph).wf(),
        final(graph).internal_nodes == old(graph).internal_nodes,
        final(graph).external_nodes == old(graph).external_nodes,
        final(graph).virtual_nodes == old(graph).virtual_nodes,
        final(graph).neighbours == old(graph).neighbours,
        final(graph).contact_ends == old(graph).contact_ends,
        final(graph).contacts@.len() == old(graph).contacts@.len(),
        forall|c: int|
            0 <= c < final(graph).contacts@.len() ==> (#[trigger] final(graph).contacts@[c]) == if list@.contains(
                ContactRef { index: c as usize },
            ) {
                Contact { suppressed: flag, ..old(graph).contacts@[c] }
            } else {
                old(graph).contacts@[c]
            },
{
    let mut k: usize = 0;
    while k < list.len()
        invariant
            k <= list@.len(),
            graph.wf(),
            graph.internal_nodes == old(graph).internal_nodes,
            graph.external_nodes == old(graph).external_nodes,
            graph.virtual_nodes == old(graph).virtual_nodes,
            graph.neighbours == old(graph).neighbours,
            graph.contact_ends == old(graph).contact_ends,
            graph.contacts@.len() == old(graph).contacts@.len(),
            forall|c: int|
                0 <= c < graph.contacts@.len() ==> (#[trigger] graph.contacts@[c]) == if list@.take(k as int).contains(
                    ContactRef { index: c as usize },
                ) {
                    Contact { suppressed: flag, ..old(graph).contacts@[c] }
                } else {
                    old(graph).contacts@[c]
                },
        decreases list@.len() - k,
    {
        let c = list[k].index;
        proof {
            assert forall|x: ContactRef| #[trigger] list@.take(k + 1).contains(x) == (list@.take(k as int).contains(x)
                || x == list@[k as int]) by {
                if list@.take(k + 1).contains(x) {
                    let q = choose|q: int| 0 <= q < list@.take(k + 1).len() && #[trigger] list@.take(k + 1)[q] == x;
                    if q < k {
                        assert(list@.take(k as int)[q] == x);
                    }
                }
                if list@.take(k as int).contains(x) {
                    let q = choose|q: int| 0 <= q < list@.take(k as int).len() && #[trigger] list@.take(k as int)[q] == x;
                    assert(list@.take(k + 1)[q] == x);
                }
                if x == list@[k as int] {
                    assert(list@.take(k + 1)[k as int] == x);
                }
            }
        }
        if c < graph.contacts.len() {
            graph.contacts[c].suppressed = flag;
        }
        k = k + 1;
    }
    assert(list@.take(list@.len() as int) =~= list@);
}

impl<NM: NodeManager, CM: ContactManager, P: Pathfinding<NM, CM, RoutableNodeRef>, O: SuppressionOrder<CM>> Pathfinding<
    NM,
    CM,
    RoutableNodeRef,
> for Suppressor<P, O> {
    open spec fn finder_inv(&self) -> bool {
        self.pathfinder.finder_inv()
    }

    /// What the pathfinder finds in the graph where the contacts suppressed for the
    /// destination are marked suppressed.
    open spec fn spec_found(
        &self,
        graph: Multigraph<NM, CM>,
        time: Date,
        source: INodeRef,
        bundle: Bundle,
        dest: RoutableNodeRef,
        prune: Option<Date>,
        r: Result<Option<Seq<Option<PathFragment>>>, ASABRError>,
    ) -> bool {
        let i = graph.spec_routable_index(dest);
        if graph.valid_routable(dest) && 0 <= i < self.suppressed@.len() {
            exists|g: Multigraph<NM, CM>|
                #[trigger] marked_suppressed(graph, g, self.suppressed@[i]@, true) && self.pathfinder.spec_found(
                    g,
                    time,
                    source,
                    bundle,
                    dest,
                    prune,
                    r,
                )
        } else {
            self.pathfinder.spec_found(graph, time, source, bundle, dest, prune, r)
        }
    }

    fn find_path(
        &mut self,
        multigraph: &mut Multigraph<NM, CM>,
        routing_time: Date,
        source: INodeRef,
        bundle: &Bundle,
        destination: &mut RoutableNodeRef,
        prune_time: Option<Date>,
    ) -> (r: Result<Option<PathFindingOutput>, ASABRError>)
        ensures
            final(self).suppressed@.len() == old(self).suppressed@.len(),
            forall|i: int|
                0 <= i < old(self).suppressed@.len() && i != old(multigraph).spec_routable_index(*old(destination))
                    ==> #[trigger] final(self).suppressed@[i] == old(self).suppressed@[i],
            ({
                let i = old(multigraph).spec_routable_index(*old(destination));
                0 <= i < old(self).suppressed@.len() ==> {
                    ||| final(self).suppressed@[i]@ == old(self).suppressed@[i]@
                    ||| (r matches Ok(Some(out)) && next_to_suppress::<NM, CM, O>(
                        *final(multigraph),
                        out.path_tree@,
                        *old(destination),
                    ) matches Some(x) && final(self).suppressed@[i]@ == old(self).suppressed@[i]@.push(x))
                }
            }),
            ({
                let i = old(multigraph).spec_routable_index(*old(destination));
                old(multigraph).valid_routable(*old(destination)) && 0 <= i < old(self).suppressed@.len() ==> {
                    &&& final(self).suppressed@[i]@ == suppression_after::<NM, CM, O>(
                        old(self).suppressed@[i]@,
                        r,
                        *final(multigraph),
                        *old(destination),
                    )
                    &&& forall|c: int|
                        0 <= c < final(multigraph).contacts@.len() && old(self).suppressed@[i]@.contains(
                            ContactRef { index: c as usize },
                        ) ==> !(#[trigger] final(multigraph).contacts@[c]).suppressed
                }
            }),
    {
        let dest = *destination;
        let valid = match dest {
            RoutableNodeRef::I(i) => i.index < multigraph.internal_nodes.len(),
            RoutableNodeRef::V(v) => v.index < multigraph.virtual_nodes.len(),
        };
        if !valid || multigraph.routable_to_usize(dest) >= self.suppressed.len() {
            return self.pathfinder.find_path(multigraph, routing_time, source, bundle, destination, prune_time);
        }
        let idx = multigraph.routable_to_usize(dest);
        let ghost g0 = *multigraph;
        set_suppressed(multigraph, &self.suppressed[idx], true);
        let ghost g1 = *multigraph;
        let r = self.pathfinder.find_path(multigraph, routing_time, source, bundle, destination, prune_time);
        proof {
            assert(marked_suppressed(g0, g1, self.suppressed@[idx as int]@, true));
        }
        set_suppressed(multigraph, &self.suppressed[idx], false);
        if let Ok(Some(path)) = &r {
            if multigraph.routable_to_usize(dest) < path.path_tree.len() && check_output(path, multigraph) {
                if let Some(x) = get_next_to_suppress::<NM, CM, O>(multigraph, path, dest) {
                    let mut list = self.suppressed[idx].clone();
                    let ghost before = self.suppressed@[idx as int]@;
                    proof {
                        assert(list@ == before);
                    }
                    list.push(x);
                    self.suppressed.set(idx, list);
                }
            }
        }
        r
    }
}

/// A Dijkstra search behind a suppressor never uses a contact suppressed for its destination.
pub proof fn lemma_suppressed_avoided<
    NM: NodeManager,
    CM: ContactManager,
    W: DijkstraWorkspace<NM, CM>,
    D: Distance<NM, CM>,
    O: SuppressionOrder<CM>,
>(
    s: Suppressor<Disktra<W, D>, O>,
    graph: Multigraph<NM, CM>,
    time: Date,
    source: INodeRef,
    bundle: Bundle,
    dest: RoutableNodeRef,
    prune: Option<Date>,
    t: Seq<Option<PathFragment>>,
    i: int,
)
    requires
        graph.valid_routable(dest),
        graph.spec_routable_index(dest) < s.suppressed@.len(),
        s.spec_found(graph, time, source, bundle, dest, prune, Ok(Some(t))),
        0 <= i < t.len(),
        t[i] matches Some(f) && f.via is Some,
    ensures
        !s.suppressed@[graph.spec_routable_index(dest)]@.contains(t[i]->0.via->0.contact),
{
    let k = graph.spec_routable_index(dest);
    let list = s.suppressed@[k]@;
    let g = choose|g: Multigraph<NM, CM>|
        #[trigger] marked_suppressed(graph, g, list, true) && s.pathfinder.spec_found(
            g,
            time,
            source,
            bundle,
            dest,
            prune,
            Ok(Some(t)),
        );
    let f = t[i]->0;
    let c = f.via->0.contact.index as int;
    assert(fragment_sound(g, bundle, time, source.index, f));
    assert(!g.contacts@[c].suppressed);
    assert(ContactRef { index: c as usize } == f.via->0.contact);
}

} // verus!
