//! Distances: the orders on path fragments that pathfinding minimises.

use core::cmp::Ordering;

use vstd::prelude::*;
use vstd::std_specs::cmp::OrdSpec;

use crate::contact_manager::ContactManager;
use crate::multigraph::Multigraph;
use crate::node_manager::NodeManager;
use crate::paths::PathFragment;
use crate::types::Bundle;

pub mod prio_queue;

verus! {

/// An order on path fragments: a fragment that compares as less is a better way to reach a
/// node. Implementations state the order as `shorter` and prove that it is a strict weak order.
pub trait Distance<NM: NodeManager, CM: ContactManager>: Sized {
    /// `first` is strictly better than `second`.
    spec fn shorter(
        first: PathFragment,
        second: PathFragment,
        graph: Multigraph<NM, CM>,
        bundle: Bundle,
    ) -> bool;

    /// `shorter` is irreflexive and transitive, and so is "not shorter than".
    proof fn lemma_strict_weak_order(
        a: PathFragment,
        b: PathFragment,
        c: PathFragment,
        graph: Multigraph<NM, CM>,
        bundle: Bundle,
    )
        ensures
            !Self::shorter(a, a, graph, bundle),
            Self::shorter(a, b, graph, bundle) && Self::shorter(b, c, graph, bundle) ==> Self::shorter(
                a,
                c,
                graph,
                bundle,
            ),
            !Self::shorter(b, a, graph, bundle) && !Self::shorter(c, b, graph, bundle)
                ==> !Self::shorter(c, a, graph, bundle),
    ;

    /// A measure of fragments, below `rank_bound()`, that a strictly better fragment always
    /// lowers: no chain of ever better fragments is longer than the bound.
    spec fn rank(f: PathFragment) -> nat;

    /// A strictly better fragment has a lower rank, and ranks stay below the bound.
    proof fn lemma_rank(a: PathFragment, b: PathFragment, graph: Multigraph<NM, CM>, bundle: Bundle)
        ensures
            Self::shorter(a, b, graph, bundle) ==> Self::rank(a) < Self::rank(b),
            Self::rank(a) < rank_bound(),
    ;

    /// Compares two fragments: `Less` when `first` is better, `Greater` when `second` is.
    fn cmp(
        first: &PathFragment,
        second: &PathFragment,
        graph: &Multigraph<NM, CM>,
        bundle: &Bundle,
    ) -> (r: Ordering)
        ensures
            (r == Ordering::Less) == Self::shorter(*first, *second, *graph, *bundle),
            (r == Ordering::Greater) == Self::shorter(*second, *first, *graph, *bundle),
    ;
}

/// Whether `first` is strictly better than `second` for the distance `D`.
pub fn shorter_than<NM: NodeManager, CM: ContactManager, D: Distance<NM, CM>>(
    first: &PathFragment,
    second: &PathFragment,
    graph: &Multigraph<NM, CM>,
    bundle: &Bundle,
) -> (r: bool)
    ensures
        r == D::shorter(*first, *second, *graph, *bundle),
{
    match D::cmp(first, second, graph, bundle) {
        Ordering::Less => true,
        Ordering::Equal => false,
        Ordering::Greater => false,
    }
}

/// Compares two values by an extracted ordering key.
pub fn cmp_by<T, F: Fn(T) -> O, O: Ord>(a: T, b: T, f: F) -> (r: Ordering)
    requires
        call_requires(f, (a,)),
        call_requires(f, (b,)),
    ensures
        exists|ka: O, kb: O|
            #![trigger call_ensures(f, (a,), ka), call_ensures(f, (b,), kb)]
            {
                &&& call_ensures(f, (a,), ka)
                &&& call_ensures(f, (b,), kb)
                &&& O::obeys_cmp_spec() ==> r == ka.cmp_spec(&kb)
            },
{
    let ghost ga = a;
    let ghost gb = b;
    let ka = f(a);
    let kb = f(b);
    let r = ka.cmp(&kb);
    assert(call_ensures(f, (ga,), ka) && call_ensures(f, (gb,), kb));
    r
}

/// The bound of the ranks of fragments.
pub open spec fn rank_bound() -> nat {
    (key_base() * key_base() * key_base()) as nat
}

/// The base of the encoding of triples of keys.
pub open spec fn key_base() -> int {
    0x2_0000_0000_0000_0000
}

/// The number that writes the triple `t` in base `key_base()`.
pub open spec fn encode(t: (int, int, int)) -> int {
    (t.0 * key_base() + t.1) * key_base() + t.2
}

proof fn lemma_encode_bounds(t: (int, int, int))
    requires
        0 <= t.0 < key_base(),
        0 <= t.1 < key_base(),
        0 <= t.2 < key_base(),
    ensures
        t.0 * key_base() * key_base() <= encode(t) < (t.0 + 1) * key_base() * key_base(),
        0 <= encode(t),
{
    let b = key_base();
    assert(t.0 * b * b <= (t.0 * b + t.1) * b + t.2 < (t.0 + 1) * b * b) by (nonlinear_arith)
        requires
            0 <= t.0 < b,
            0 <= t.1 < b,
            0 <= t.2 < b,
            b > 0,
    ;
}

/// Encoding preserves the lexicographic order on triples of digits.
proof fn lemma_encode_lex(a: (int, int, int), b: (int, int, int))
    requires
        0 <= a.0 < key_base(),
        0 <= a.1 < key_base(),
        0 <= a.2 < key_base(),
        0 <= b.0 < key_base(),
        0 <= b.1 < key_base(),
        0 <= b.2 < key_base(),
        lex_lt(a, b),
    ensures
        encode(a) < encode(b),
{
    let k = key_base();
    lemma_encode_bounds(a);
    lemma_encode_bounds(b);
    if a.0 < b.0 {
        assert((a.0 + 1) * k * k <= b.0 * k * k) by (nonlinear_arith)
            requires
                a.0 < b.0,
                k > 0,
        ;
    } else if a.1 < b.1 {
        assert((a.0 * k + a.1) * k + a.2 < (b.0 * k + b.1) * k + b.2) by (nonlinear_arith)
            requires
                a.0 == b.0,
                a.1 < b.1,
                0 <= a.2 < k,
                0 <= b.2,
        ;
    }
}

/// The digits of a fragment's key: hop count, arrival shifted to be non-negative, and
/// expiration reversed and shifted.
pub open spec fn key_digits(hop: int, arrival: int, expiration: int) -> (int, int, int) {
    (hop, arrival + 0x8000_0000_0000_0000, 0x8000_0000_0000_0000 - expiration)
}

proof fn lemma_rank_of(t: (int, int, int), u: (int, int, int))
    requires
        0 <= t.0 < key_base(),
        0 <= t.1 < key_base(),
        0 <= t.2 < key_base(),
        0 <= u.0 < key_base(),
        0 <= u.1 < key_base(),
        0 <= u.2 < key_base(),
    ensures
        lex_lt(t, u) ==> encode(t) < encode(u),
        0 <= encode(t) < rank_bound(),
{
    lemma_encode_bounds(t);
    let k = key_base();
    assert((t.0 + 1) * k * k <= k * k * k) by (nonlinear_arith)
        requires
            t.0 < k,
            k > 0,
    ;
    assert(k * k * k <= rank_bound());
    if lex_lt(t, u) {
        lemma_encode_lex(t, u);
    }
}

/// Lexicographic order on triples of integers.
pub open spec fn lex_lt(a: (int, int, int), b: (int, int, int)) -> bool {
    ||| a.0 < b.0
    ||| a.0 == b.0 && a.1 < b.1
    ||| a.0 == b.0 && a.1 == b.1 && a.2 < b.2
}

/// The hop-count distance key: fewer hops, then earlier arrival, then later expiration.
pub open spec fn hop_key(f: PathFragment) -> (int, int, int) {
    (f.hop_count as int, f.recv.end as int, -(f.expiration as int))
}

/// The SABR distance key: earlier arrival, then fewer hops, then later expiration.
pub open spec fn sabr_key(f: PathFragment) -> (int, int, int) {
    (f.recv.end as int, f.hop_count as int, -(f.expiration as int))
}

/// A variant of the Schedule-Aware Bundle Routing distance, where fewer hops come before an
/// earlier arrival.
///
/// A fragment with more hops is greater; with as many hops, the one arriving later is greater;
/// with the same arrival too, the one with the earlier expiration is greater.
#[derive(Debug)]
pub struct Hop {}

/// The Schedule-Aware Bundle Routing distance: an earlier arrival first, then fewer hops, then a
/// later expiration.
#[derive(Debug)]
pub struct SABR {}

impl<NM: NodeManager, CM: ContactManager> Distance<NM, CM> for Hop {
    open spec fn shorter(
        first: PathFragment,
        second: PathFragment,
        graph: Multigraph<NM, CM>,
        bundle: Bundle,
    ) -> bool {
        lex_lt(hop_key(first), hop_key(second))
    }

    open spec fn rank(f: PathFragment) -> nat {
        encode(key_digits(f.hop_count as int, f.recv.end as int, f.expiration as int)) as nat
    }

    proof fn lemma_rank(a: PathFragment, b: PathFragment, graph: Multigraph<NM, CM>, bundle: Bundle) {
        let ta = key_digits(a.hop_count as int, a.recv.end as int, a.expiration as int);
        let tb = key_digits(b.hop_count as int, b.recv.end as int, b.expiration as int);
        lemma_rank_of(ta, tb);
        lemma_rank_of(tb, ta);
    }

    proof fn lemma_strict_weak_order(
        a: PathFragment,
        b: PathFragment,
        c: PathFragment,
        graph: Multigraph<NM, CM>,
        bundle: Bundle,
    ) {
    }

    fn cmp(
        first: &PathFragment,
        second: &PathFragment,
        graph: &Multigraph<NM, CM>,
        bundle: &Bundle,
    ) -> (r: Ordering) {
        if first.hop_count != second.hop_count {
            if first.hop_count < second.hop_count {
                Ordering::Less
            } else {
                Ordering::Greater
            }
        } else if first.recv.end != second.recv.end {
            if first.recv.end < second.recv.end {
                Ordering::Less
            } else {
                Ordering::Greater
            }
        } else if first.expiration != second.expiration {
            if first.expiration > second.expiration {
                Ordering::Less
            } else {
                Ordering::Greater
            }
        } else {
            Ordering::Equal
        }
    }
}

impl<NM: NodeManager, CM: ContactManager> Distance<NM, CM> for SABR {
    open spec fn shorter(
        first: PathFragment,
        second: PathFragment,
        graph: Multigraph<NM, CM>,
        bundle: Bundle,
    ) -> bool {
        lex_lt(sabr_key(first), sabr_key(second))
    }

    open spec fn rank(f: PathFragment) -> nat {
        encode(
            (f.recv.end as int + 0x8000_0000_0000_0000, f.hop_count as int, 0x8000_0000_0000_0000 - f.expiration as int),
        ) as nat
    }

    proof fn lemma_rank(a: PathFragment, b: PathFragment, graph: Multigraph<NM, CM>, bundle: Bundle) {
        let ta = (a.recv.end as int + 0x8000_0000_0000_0000, a.hop_count as int, 0x8000_0000_0000_0000 - a.expiration as int);
        let tb = (b.recv.end as int + 0x8000_0000_0000_0000, b.hop_count as int, 0x8000_0000_0000_0000 - b.expiration as int);
        lemma_rank_of(ta, tb);
        lemma_rank_of(tb, ta);
    }

    proof fn lemma_strict_weak_order(
        a: PathFragment,
        b: PathFragment,
        c: PathFragment,
        graph: Multigraph<NM, CM>,
        bundle: Bundle,
    ) {
    }

    fn cmp(
        first: &PathFragment,
        second: &PathFragment,
        graph: &Multigraph<NM, CM>,
        bundle: &Bundle,
    ) -> (r: Ordering) {
        if first.recv.end != second.recv.end {
            if first.recv.end < second.recv.end {
                Ordering::Less
            } else {
                Ordering::Greater
            }
        } else if first.hop_count != second.hop_count {
            if first.hop_count < second.hop_count {
                Ordering::Less
            } else {
                Ordering::Greater
            }
        } else if first.expiration != second.expiration {
            if first.expiration > second.expiration {
                Ordering::Less
            } else {
                Ordering::Greater
            }
        } else {
            Ordering::Equal
        }
    }
}

} // verus!
