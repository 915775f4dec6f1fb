//! A cache of the most recent path trees, in a ring buffer of fixed capacity.

use ringbuffer::{AllocRingBuffer, RingBuffer};
use vstd::prelude::*;

use crate::contact_manager::ContactManager;
use crate::errors::ASABRError;
use crate::multigraph::Multigraph;
use crate::node_manager::NodeManager;
use crate::pathfinding::destination::FindableDest;
use crate::pathfinding::PathFindingOutput;
use crate::paths::PathFragment;
use crate::route_storage::PathsStorage;
use crate::types::{Bundle, Date};

verus! {

/// The ring buffer of the `ringbuffer` crate, declared so that contracts can carry it.
#[verifier::external_type_specification]
#[verifier::external_body]
#[verifier::reject_recursive_types(T)]
pub struct ExAllocRingBuffer<T>(AllocRingBuffer<T>);

/// What a ring buffer of cache entries holds, oldest first: each entry's priority and tree.
pub uninterp spec fn ring_entries(rb: AllocRingBuffer<(i8, PathFindingOutput)>) -> Seq<(i8, Seq<Option<PathFragment>>)>;

/// The capacity a ring buffer of cache entries was made with.
pub uninterp spec fn ring_capacity(rb: AllocRingBuffer<(i8, PathFindingOutput)>) -> nat;

/// An entry as the ring buffer's contents see it.
pub open spec fn entry_view(e: (i8, PathFindingOutput)) -> (i8, Seq<Option<PathFragment>>) {
    (e.0, e.1.path_tree@)
}

/// The entries after `e` is enqueued in a buffer of capacity `cap`: it becomes the newest, and
/// the oldest leaves when the buffer was full.
pub open spec fn enqueued<E>(entries: Seq<E>, cap: nat, e: E) -> Seq<E> {
    if entries.len() >= cap {
        entries.drop_first().push(e)
    } else {
        entries.push(e)
    }
}

/// Calls `AllocRingBuffer::new`: an empty buffer of the given capacity. The crate panics on a
/// zero capacity and when the allocation's layout overflows, which the bound on the capacity
/// rules out.
#[verifier::external_body]
fn ring_new(capacity: usize) -> (rb: AllocRingBuffer<(i8, PathFindingOutput)>)
    requires
        0 < capacity <= usize::MAX / 128,
    ensures
        ring_entries(rb) == Seq::<(i8, Seq<Option<PathFragment>>)>::empty(),
        ring_capacity(rb) == capacity,
{
    AllocRingBuffer::new(capacity)
}

/// Calls `RingBuffer::enqueue` on an `AllocRingBuffer`: the value becomes the newest entry;
/// when the buffer was full, the oldest entry leaves and is returned. The buffer's internal
/// write counter grows by one on each call; its overflow is not stated.
#[verifier::external_body]
fn ring_enqueue(rb: &mut AllocRingBuffer<(i8, PathFindingOutput)>, value: (i8, PathFindingOutput)) -> (r: Option<
    (i8, PathFindingOutput),
>)
    requires
        ring_entries(*old(rb)).len() <= ring_capacity(*old(rb)),
    ensures
        ring_capacity(*final(rb)) == ring_capacity(*old(rb)),
        ring_entries(*final(rb)) == enqueued(ring_entries(*old(rb)), ring_capacity(*old(rb)), entry_view(value)),
        ring_entries(*old(rb)).len() == ring_capacity(*old(rb)) ==> (r matches Some(x) && entry_view(x)
            == ring_entries(*old(rb))[0]),
        ring_entries(*old(rb)).len() < ring_capacity(*old(rb)) ==> r is None,
{
    rb.enqueue(value)
}

/// Calls `RingBuffer::len` on an `AllocRingBuffer`: the number of entries.
#[verifier::external_body]
fn ring_len(rb: &AllocRingBuffer<(i8, PathFindingOutput)>) -> (n: usize)
    ensures
        n == ring_entries(*rb).len(),
{
    rb.len()
}

/// Calls `IndexMut::index_mut` on an `AllocRingBuffer`: the entry at position `i`, oldest
/// first, to read and change in place.
#[verifier::external_body]
fn ring_entry_mut(rb: &mut AllocRingBuffer<(i8, PathFindingOutput)>, i: usize) -> (e: &mut (i8, PathFindingOutput))
    requires
        i < ring_entries(*old(rb)).len(),
    ensures
        entry_view(*e) == ring_entries(*old(rb))[i as int],
        ring_entries(*final(rb)) == ring_entries(*old(rb)).update(i as int, entry_view(*final(e))),
        ring_capacity(*final(rb)) == ring_capacity(*old(rb)),
{
    &mut rb[i]
}

/// Scanning the entries at positions `k - 1`, `k - 2`, ..., `0` (newest first) for one of the
/// bundle's priority whose tree, checked again, still serves: the entries afterwards (each
/// entry checked is updated), and the tree found.
pub open spec fn cache_scan<NM: NodeManager, CM: ContactManager, D: FindableDest<NM, CM>>(
    graph: Multigraph<NM, CM>,
    dest: D,
    entries: Seq<(i8, Seq<Option<PathFragment>>)>,
    k: int,
    bundle: Bundle,
    time: Date,
) -> (Seq<(i8, Seq<Option<PathFragment>>)>, Option<Seq<Option<PathFragment>>>)
    decreases k,
{
    if k <= 0 {
        (entries, None)
    } else {
        let e = entries[k - 1];
        if e.0 != bundle.priority {
            cache_scan(graph, dest, entries, k - 1, bundle, time)
        } else {
            let res = dest.spec_validate(graph, e.1, time, bundle);
            let after = entries.update(k - 1, (e.0, res.0));
            if res.1 {
                (after, Some(res.0))
            } else {
                cache_scan(graph, dest, after, k - 1, bundle, time)
            }
        }
    }
}

/// Selecting from the cache looks at the entries of the bundle's priority from the newest down:
/// it finds nothing only if none of them, checked again, still serves the destination, and
/// otherwise it gives the checked tree of the newest one that does.
pub proof fn lemma_cache_scan_newest_valid<NM: NodeManager, CM: ContactManager, D: FindableDest<NM, CM>>(
    graph: Multigraph<NM, CM>,
    dest: D,
    entries: Seq<(i8, Seq<Option<PathFragment>>)>,
    k: int,
    bundle: Bundle,
    time: Date,
)
    requires
        0 <= k <= entries.len(),
    ensures
        cache_scan(graph, dest, entries, k, bundle, time).1 is None <==> forall|j: int|
            0 <= j < k && #[trigger] entries[j].0 == bundle.priority ==> !dest.spec_validate(
                graph,
                entries[j].1,
                time,
                bundle,
            ).1,
        cache_scan(graph, dest, entries, k, bundle, time).1 matches Some(t) ==> exists|j: int|
            #![trigger entries[j]]
            0 <= j < k && entries[j].0 == bundle.priority && dest.spec_validate(graph, entries[j].1, time, bundle).1
                && t == dest.spec_validate(graph, entries[j].1, time, bundle).0 && forall|j2: int|
                j < j2 < k && #[trigger] entries[j2].0 == bundle.priority ==> !dest.spec_validate(
                    graph,
                    entries[j2].1,
                    time,
                    bundle,
                ).1,
    decreases k,
{
    if k > 0 {
        let e = entries[k - 1];
        let r = cache_scan(graph, dest, entries, k, bundle, time).1;
        if e.0 != bundle.priority {
            lemma_cache_scan_newest_valid(graph, dest, entries, k - 1, bundle, time);
            assert(r == cache_scan(graph, dest, entries, k - 1, bundle, time).1);
            if let Some(t) = r {
                let j = choose|j: int|
                    #![trigger entries[j]]
                    0 <= j < k - 1 && entries[j].0 == bundle.priority && dest.spec_validate(graph, entries[j].1, time, bundle).1
                        && t == dest.spec_validate(graph, entries[j].1, time, bundle).0 && forall|j2: int|
                        j < j2 < k - 1 && #[trigger] entries[j2].0 == bundle.priority ==> !dest.spec_validate(
                            graph,
                            entries[j2].1,
                            time,
                            bundle,
                        ).1;
                assert(entries[j].0 == bundle.priority);
            } else {
                assert forall|j: int|
                    0 <= j < k && #[trigger] entries[j].0 == bundle.priority implies !dest.spec_validate(
                        graph,
                        entries[j].1,
                        time,
                        bundle,
                    ).1 by {
                    if j < k - 1 {
                        assert(entries[j].0 == bundle.priority);
                    }
                }
            }
        } else {
            let res = dest.spec_validate(graph, e.1, time, bundle);
            let after = entries.update(k - 1, (e.0, res.0));
            if !res.1 {
                lemma_cache_scan_newest_valid(graph, dest, after, k - 1, bundle, time);
                assert(r == cache_scan(graph, dest, after, k - 1, bundle, time).1);
                assert forall|j: int| 0 <= j < k - 1 implies #[trigger] after[j] == entries[j] by {}
                if let Some(t) = r {
                    let j = choose|j: int|
                        #![trigger after[j]]
                        0 <= j < k - 1 && after[j].0 == bundle.priority && dest.spec_validate(graph, after[j].1, time, bundle).1
                            && t == dest.spec_validate(graph, after[j].1, time, bundle).0 && forall|j2: int|
                            j < j2 < k - 1 && #[trigger] after[j2].0 == bundle.priority ==> !dest.spec_validate(
                                graph,
                                after[j2].1,
                                time,
                                bundle,
                            ).1;
                    assert(after[j] == entries[j]);
                    assert forall|j2: int|
                        j < j2 < k && #[trigger] entries[j2].0 == bundle.priority implies !dest.spec_validate(
                            graph,
                            entries[j2].1,
                            time,
                            bundle,
                        ).1 by {
                        if j2 < k - 1 {
                            assert(after[j2] == entries[j2]);
                            assert(after[j2].0 == bundle.priority);
                        }
                    }
                    assert(entries[j].0 == bundle.priority);
                } else {
                    assert forall|j: int|
                        0 <= j < k && #[trigger] entries[j].0 == bundle.priority implies !dest.spec_validate(
                            graph,
                            entries[j].1,
                            time,
                            bundle,
                        ).1 by {
                        if j < k - 1 {
                            assert(after[j] == entries[j]);
                            assert(after[j].0 == bundle.priority);
                        }
                    }
                }
            } else {
                assert(entries[k - 1].0 == bundle.priority);
            }
        }
    }
}

/// Storing keeps at most the capacity's number of entries, the stored one newest; below the
/// capacity nothing leaves.
pub proof fn lemma_enqueued_keeps_capacity<E>(entries: Seq<E>, cap: nat, e: E)
    requires
        0 < cap,
        entries.len() <= cap,
    ensures
        enqueued(entries, cap, e).len() <= cap,
        enqueued(entries, cap, e).last() == e,
        entries.len() < cap ==> enqueued(entries, cap, e) == entries.push(e),
        entries.len() == cap ==> enqueued(entries, cap, e) == entries.drop_first().push(e),
{
}

/// A tree just stored is the first one a bundle of the same priority is offered: when it still
/// serves, it is the one selected.
pub proof fn lemma_cache_serves_newest<NM: NodeManager, CM: ContactManager, D: FindableDest<NM, CM>>(
    graph: Multigraph<NM, CM>,
    dest: D,
    entries: Seq<(i8, Seq<Option<PathFragment>>)>,
    tree: Seq<Option<PathFragment>>,
    bundle: Bundle,
    time: Date,
)
    requires
        dest.spec_validate(graph, tree, time, bundle).1,
    ensures
        ({
            let stored = entries.push((bundle.priority, tree));
            let res = dest.spec_validate(graph, tree, time, bundle);
            cache_scan(graph, dest, stored, stored.len() as int, bundle, time) == (
                stored.update(stored.len() - 1, (bundle.priority, res.0)),
                Some(res.0),
            )
        }),
{
}

/// A cache of the most recent path trees, with the priority of the bundle each was found for.
pub struct TreeCache {
    /// The entries, oldest first.
    pub cache: AllocRingBuffer<(i8, PathFindingOutput)>,
}

impl TreeCache {
    /// The entries the cache holds, oldest first.
    pub open spec fn entries(&self) -> Seq<(i8, Seq<Option<PathFragment>>)> {
        ring_entries(self.cache)
    }

    /// The number of entries the cache keeps.
    pub open spec fn capacity(&self) -> nat {
        ring_capacity(self.cache)
    }

    /// A cache keeping the `capacity` most recent trees.
    pub fn new<NM: NodeManager, CM: ContactManager>(multigraph: &Multigraph<NM, CM>, capacity: usize) -> (r: Self)
        requires
            0 < capacity <= usize::MAX / 128,
        ensures
            r.entries() == Seq::<(i8, Seq<Option<PathFragment>>)>::empty(),
            r.capacity() == capacity,
    {
        TreeCache { cache: ring_new(capacity) }
    }
}

impl<NM: NodeManager, CM: ContactManager, D: FindableDest<NM, CM>> PathsStorage<NM, CM, D> for TreeCache {
    type StorageView = (Seq<(i8, Seq<Option<PathFragment>>)>, nat);

    open spec fn sview(&self) -> (Seq<(i8, Seq<Option<PathFragment>>)>, nat) {
        (self.entries(), self.capacity())
    }

    /// The most recent tree found for the bundle's priority that, checked again, still serves
    /// the destination; each tree checked is updated.
    open spec fn spec_select(
        v: (Seq<(i8, Seq<Option<PathFragment>>)>, nat),
        dest: D,
        graph: Multigraph<NM, CM>,
        bundle: Bundle,
        time: Date,
    ) -> ((Seq<(i8, Seq<Option<PathFragment>>)>, nat), Result<Option<Seq<Option<PathFragment>>>, ASABRError>) {
        let res = cache_scan(graph, dest, v.0, v.0.len() as int, bundle, time);
        ((res.0, v.1), Ok(res.1))
    }

    /// The tree becomes the newest entry, with the bundle's priority; when the cache is full,
    /// the oldest entry leaves.
    open spec fn spec_store(
        v: (Seq<(i8, Seq<Option<PathFragment>>)>, nat),
        tree: Seq<Option<PathFragment>>,
        dest: D,
        graph: Multigraph<NM, CM>,
        bundle: Bundle,
    ) -> (Seq<(i8, Seq<Option<PathFragment>>)>, nat) {
        (enqueued(v.0, v.1, (bundle.priority, tree)), v.1)
    }

    open spec fn storage_inv(&self) -> bool {
        0 < self.capacity() && self.entries().len() <= self.capacity()
    }

    /// The most recent tree found for the bundle's priority that, checked again, still serves
    /// the destination; each tree checked is updated in the cache.
    fn select(
        &mut self,
        bundle: &Bundle,
        destination: &D,
        route_time: Date,
        curr_time: Option<Date>,
        multigraph: &Multigraph<NM, CM>,
    ) -> (r: Result<Option<PathFindingOutput>, ASABRError>)
        ensures
            ({
                let res = cache_scan(
                    *multigraph,
                    *destination,
                    old(self).entries(),
                    old(self).entries().len() as int,
                    *bundle,
                    route_time,
                );
                &&& final(self).entries() == res.0
                &&& final(self).capacity() == old(self).capacity()
                &&& match r {
                    Ok(Some(o)) => res.1 == Some(o.path_tree@),
                    Ok(None) => res.1 is None,
                    Err(_) => false,
                }
            }),
    {
        let ghost entries0 = self.entries();
        let ghost cap0 = self.capacity();
        let mut k = ring_len(&self.cache);
        while k > 0
            invariant
                k <= self.entries().len(),
                entries0 == old(self).entries(),
                cap0 == old(self).capacity(),
                0 < cap0,
                entries0.len() <= cap0,
                self.entries().len() == entries0.len(),
                self.capacity() == cap0,
                cache_scan(*multigraph, *destination, entries0, entries0.len() as int, *bundle, route_time)
                    == cache_scan(*multigraph, *destination, self.entries(), k as int, *bundle, route_time),
                destination.fits_graph(*multigraph),
                multigraph.wf(),
                multigraph.ni() + multigraph.ne() + multigraph.nv() <= usize::MAX,
                bundle.wf(),
            decreases k,
        {
            let ghost before = self.entries();
            let entry = ring_entry_mut(&mut self.cache, k - 1);
            let ghost e0 = *entry;
            let matched = entry.0 == bundle.priority;
            let mut ok = false;
            let mut found: Option<PathFindingOutput> = None;
            if matched {
                ok = destination.validate(&mut entry.1, route_time, bundle, multigraph);
                if ok {
                    found = Some(entry.1.duplicate());
                }
            }
            proof {
                let res = destination.spec_validate(*multigraph, e0.1.path_tree@, route_time, *bundle);
                assert(matched ==> entry_view(*entry) == (e0.0, res.0) && ok == res.1);
                assert(!matched ==> *entry == e0 && !ok);
                assert(ok ==> (found matches Some(f) && f.path_tree@ == res.0));
            }
            let ghost e1 = *entry;
            proof {
                assert(self.entries() == before.update(k - 1, entry_view(e1)));
            }
            if ok {
                return Ok(found);
            }
            proof {
                let res = destination.spec_validate(*multigraph, e0.1.path_tree@, route_time, *bundle);
                assert(before[k - 1] == entry_view(e0));
                if matched {
                    assert(self.entries() == before.update(k - 1, (e0.0, res.0)));
                } else {
                    assert(self.entries() =~= before);
                }
            }
            k = k - 1;
        }
        Ok(None)
    }

    /// Keeps the tree as the newest entry, with the bundle's priority; when the cache is full,
    /// the oldest entry leaves.
    fn store(
        &mut self,
        tree: PathFindingOutput,
        destination: &D,
        bundle: &Bundle,
        route_time: Date,
        curr_time: Option<Date>,
        multigraph: &Multigraph<NM, CM>,
    ) -> (r: PathFindingOutput)
        ensures
            final(self).entries() == enqueued(old(self).entries(), old(self).capacity(), (bundle.priority, tree.path_tree@)),
            final(self).capacity() == old(self).capacity(),
    {
        let out = tree.duplicate();
        let _evicted = ring_enqueue(&mut self.cache, (bundle.priority, tree));
        out
    }
}

} // verus!
