//! The ASABR contact-plan format: declarations of nodes, virtual nodes and contacts.
//!
//! A plan is a sequence of declarations, separated by white space:
//! - `node <id> <name> <node manager>` and `enode <id> <name> <node manager>` declare internal
//!   and external real nodes, in increasing id order from 0;
//! - `vnode <id> <name> [ <id> , <id> ... ]` declares a virtual node, after the real nodes;
//! - `contact <tx> <rx> <start> <end> <contact manager>` declares a contact between real nodes.
//!
//! Every external node must be named by some virtual node.

use vstd::prelude::*;

use crate::contact::{Contact, ContactInfo};
use crate::contact_manager::legacy::{LegacyManager, VolumeManager};
use crate::contact_manager::ContactManager;
use crate::contact_plan::lexer::{
    parse_number, spec_parse_i64, text_chars, tokenize, tokens_of, word, word_eq, PlanToken,
};

use crate::contact_plan::{ContactPlan, RealNode};
use crate::node::{Node, NodeInfo};
use crate::node_manager::{NoManagement, NodeManager};
use crate::parsing::{Located, EOF, INVALID_STATE};
use crate::types::{date_ok, volume_ok, NodeID, NodeName, Volume};
use crate::vnode::VirtualNodeInfo;

verus! {

/// Every token lies within the characters.
pub open spec fn tokens_fit(chars: Seq<char>, toks: Seq<PlanToken>) -> bool {
    forall|i: int| 0 <= i < toks.len() ==> (#[trigger] toks[i]).start <= toks[i].end <= chars.len()
}

/// The error of a token that should be a number.
pub const ENUMBER: &'static str = "Could not lex this into a AnyNumber";

/// The error of a token that should be a declaration keyword.
pub const EKEYWORD: &'static str = "Could not lex this into a ASABRPlanInfoKind";

/// The error of a token that should be a list delimiter.
pub const EDELIMITER: &'static str = "Could not lex this into a Delimiter";

/// The error of a contact whose information or manager is refused.
pub const ECONTACT: &'static str = "Could not build the contact";

/// The error of a reference to a real node that is not declared.
pub const EREAL_ID: &'static str = "Contact tx/rx ids or virtual node rids must match an already declared real node id. ID,node_count:";

/// The error of a real node declared out of order.
pub const ENEW_REAL: &'static str = "Declare real nodes before virtual nodes, in increasing id order. ID,node_count:";

/// The error of a virtual node declared out of order.
pub const ENEW_VIRTUAL: &'static str = "Declare virtual nodes after the real nodes, in increasing id order. ID,vertice_count:";

/// The error of an external node that no virtual node names.
pub const EENODE: &'static str = "an ENode is not labeled by any vnode. Id:";

/// The number written by token `p`, or the error reading it.
pub open spec fn spec_number(chars: Seq<char>, toks: Seq<PlanToken>, p: int) -> Result<i64, (int, &'static str)> {
    if p < 0 || p >= toks.len() {
        Err((toks.len() as int, EOF))
    } else {
        match spec_parse_i64(word(chars, toks[p])) {
            None => Err((p, ENUMBER)),
            Some(v) => Ok(v),
        }
    }
}

/// Reads the number written by token `p`.
pub fn read_number(chars: &Vec<char>, toks: &Vec<PlanToken>, p: usize) -> (r: Result<i64, (usize, &'static str)>)
    requires
        tokens_fit(chars@, toks@),
    ensures
        r is Ok ==> p < toks@.len(),
        match r {
            Ok(v) => spec_number(chars@, toks@, p as int) == Ok::<i64, (int, &'static str)>(v),
            Err((at, m)) => spec_number(chars@, toks@, p as int) == Err::<i64, (int, &'static str)>((at as int, m)),
        },
{
    if p >= toks.len() {
        return Err((toks.len(), EOF));
    }
    let t = toks[p];
    match parse_number(chars, t.start, t.end) {
        None => Err((p, ENUMBER)),
        Some(v) => Ok(v),
    }
}

/// Values read from the tokens of a plan.
pub trait ReadFromTokens: Sized {
    /// Reading from token `pos` ends before token `next` (`Ok(next)`), or fails at a token
    /// with a message.
    spec fn spec_read(chars: Seq<char>, toks: Seq<PlanToken>, pos: int) -> Result<int, (int, &'static str)>;

    /// `v` is a value that reading from token `pos` gives.
    spec fn read_gives(chars: Seq<char>, toks: Seq<PlanToken>, pos: int, v: Self) -> bool;

    /// Reads a value from token `pos`.
    fn read(chars: &Vec<char>, toks: &Vec<PlanToken>, pos: usize) -> (r: Result<(Self, usize), (usize, &'static str)>)
        requires
            pos <= toks@.len(),
            tokens_fit(chars@, toks@),
        ensures
            match r {
                Ok((v, next)) => {
                    &&& Self::spec_read(chars@, toks@, pos as int) == Ok::<int, (int, &'static str)>(next as int)
                    &&& Self::read_gives(chars@, toks@, pos as int, v)
                },
                Err((at, m)) => Self::spec_read(chars@, toks@, pos as int) == Err::<int, (int, &'static str)>(
                    (at as int, m),
                ),
            },
    ;
}

/// Contact managers read from the tokens of a plan, whose initialization is decided by those
/// tokens.
pub trait ReadManager: ContactManager + ReadFromTokens {
    /// Whether the manager read from token `pos` accepts a contact with these data.
    spec fn init_ok_at(chars: Seq<char>, toks: Seq<PlanToken>, pos: int, info: ContactInfo) -> bool;

    /// The tokens decide whether initialization succeeds.
    proof fn lemma_init_ok_at(chars: Seq<char>, toks: Seq<PlanToken>, pos: int, v: Self, info: ContactInfo)
        requires
            Self::read_gives(chars, toks, pos, v),
        ensures
            v.spec_try_init_ok(info) == Self::init_ok_at(chars, toks, pos, info),
    ;
}

impl ReadFromTokens for NoManagement {
    open spec fn spec_read(chars: Seq<char>, toks: Seq<PlanToken>, pos: int) -> Result<int, (int, &'static str)> {
        Ok(pos)
    }

    open spec fn read_gives(chars: Seq<char>, toks: Seq<PlanToken>, pos: int, v: Self) -> bool {
        true
    }

    fn read(chars: &Vec<char>, toks: &Vec<PlanToken>, pos: usize) -> (r: Result<(Self, usize), (usize, &'static str)>) {
        Ok((NoManagement {}, pos))
    }
}

/// Reading a rate and a delay from token `pos`.
pub open spec fn spec_rate_delay(chars: Seq<char>, toks: Seq<PlanToken>, pos: int) -> Result<int, (int, &'static str)> {
    match spec_number(chars, toks, pos) {
        Err(e) => Err(e),
        Ok(_) => match spec_number(chars, toks, pos + 1) {
            Err(e) => Err(e),
            Ok(_) => Ok(pos + 2),
        },
    }
}

/// Reading `n` numbers from token `pos`.
pub open spec fn spec_numbers(chars: Seq<char>, toks: Seq<PlanToken>, pos: int, n: nat) -> Result<int, (int, &'static str)>
    decreases n,
{
    if n == 0 {
        Ok(pos)
    } else {
        match spec_numbers(chars, toks, pos, (n - 1) as nat) {
            Err(e) => Err(e),
            Ok(p) => match spec_number(chars, toks, p) {
                Err(e) => Err(e),
                Ok(_) => Ok(p + 1),
            },
        }
    }
}

/// Whether a manager with this rate and delay, and empty queues, accepts a contact.
pub open spec fn legacy_init_ok(rate: int, delay: int, prio_count: int, info: ContactInfo) -> bool {
    &&& info.lifespan().in_range()
    &&& rate >= 1
    &&& date_ok(delay)
    &&& prio_count >= 1
}

impl<const ADD_DELAY: bool, const AUTO_UPDATE: bool, const PRIO_COUNT: usize> ReadFromTokens for LegacyManager<
    ADD_DELAY,
    AUTO_UPDATE,
    PRIO_COUNT,
    false,
> {
    open spec fn spec_read(chars: Seq<char>, toks: Seq<PlanToken>, pos: int) -> Result<int, (int, &'static str)> {
        spec_rate_delay(chars, toks, pos)
    }

    open spec fn read_gives(chars: Seq<char>, toks: Seq<PlanToken>, pos: int, v: Self) -> bool {
        &&& spec_number(chars, toks, pos) == Ok::<i64, (int, &'static str)>(v.0.rate)
        &&& spec_number(chars, toks, pos + 1) == Ok::<i64, (int, &'static str)>(v.0.delay)
        &&& v.0.queue_size@.len() == PRIO_COUNT
        &&& v.0.budgets@.len() == PRIO_COUNT
        &&& forall|i: int| 0 <= i < PRIO_COUNT ==> #[trigger] v.0.queue_size@[i] == 0
        &&& v.0.original_volume == 0
    }

    fn read(chars: &Vec<char>, toks: &Vec<PlanToken>, pos: usize) -> (r: Result<(Self, usize), (usize, &'static str)>) {
        let _n = toks.len();
        let rate = match read_number(chars, toks, pos) {
            Err(e) => {
                return Err(e);
            },
            Ok(v) => v,
        };
        let delay = match read_number(chars, toks, pos + 1) {
            Err(e) => {
                return Err(e);
            },
            Ok(v) => v,
        };
        Ok((LegacyManager::<ADD_DELAY, AUTO_UPDATE, PRIO_COUNT, false>::new(rate, delay), pos + 2))
    }
}

impl<const ADD_DELAY: bool, const AUTO_UPDATE: bool, const PRIO_COUNT: usize> ReadManager for LegacyManager<
    ADD_DELAY,
    AUTO_UPDATE,
    PRIO_COUNT,
    false,
> {
    open spec fn init_ok_at(chars: Seq<char>, toks: Seq<PlanToken>, pos: int, info: ContactInfo) -> bool {
        &&& spec_number(chars, toks, pos) matches Ok(rate)
        &&& spec_number(chars, toks, pos + 1) matches Ok(delay)
        &&& legacy_init_ok(rate as int, delay as int, PRIO_COUNT as int, info)
    }

    proof fn lemma_init_ok_at(chars: Seq<char>, toks: Seq<PlanToken>, pos: int, v: Self, info: ContactInfo) {
        assert forall|i: int| 0 <= i < PRIO_COUNT implies volume_ok(#[trigger] v.0.queue_size@[i] as int) by {
            assert(v.0.queue_size@[i] == 0);
        }
    }
}

impl<const ADD_DELAY: bool, const AUTO_UPDATE: bool, const PRIO_COUNT: usize> ReadFromTokens for LegacyManager<
    ADD_DELAY,
    AUTO_UPDATE,
    PRIO_COUNT,
    true,
> {
    open spec fn spec_read(chars: Seq<char>, toks: Seq<PlanToken>, pos: int) -> Result<int, (int, &'static str)> {
        match spec_rate_delay(chars, toks, pos) {
            Err(e) => Err(e),
            Ok(_) => spec_numbers(chars, toks, pos + 2, PRIO_COUNT as nat),
        }
    }

    open spec fn read_gives(chars: Seq<char>, toks: Seq<PlanToken>, pos: int, v: Self) -> bool {
        &&& spec_number(chars, toks, pos) == Ok::<i64, (int, &'static str)>(v.0.rate)
        &&& spec_number(chars, toks, pos + 1) == Ok::<i64, (int, &'static str)>(v.0.delay)
        &&& v.0.queue_size@.len() == PRIO_COUNT
        &&& v.0.budgets@.len() == PRIO_COUNT
        &&& forall|i: int| 0 <= i < PRIO_COUNT ==> #[trigger] v.0.queue_size@[i] == 0
        &&& forall|i: int|
            0 <= i < PRIO_COUNT ==> spec_number(chars, toks, pos + 2 + i) == Ok::<i64, (int, &'static str)>(
                #[trigger] v.0.budgets@[i],
            )
        &&& v.0.original_volume == 0
    }

    fn read(chars: &Vec<char>, toks: &Vec<PlanToken>, pos: usize) -> (r: Result<(Self, usize), (usize, &'static str)>) {
        let _n = toks.len();
        let rate = match read_number(chars, toks, pos) {
            Err(e) => {
                return Err(e);
            },
            Ok(v) => v,
        };
        let delay = match read_number(chars, toks, pos + 1) {
            Err(e) => {
                return Err(e);
            },
            Ok(v) => v,
        };
        let mut budgets: [Volume; PRIO_COUNT] = [0; PRIO_COUNT];
        let mut k: usize = 0;
        let mut p: usize = pos + 2;
        while k < PRIO_COUNT
            invariant
                _n == toks@.len(),
                pos + 2 <= toks@.len(),
                tokens_fit(chars@, toks@),
                spec_rate_delay(chars@, toks@, pos as int) == Ok::<int, (int, &'static str)>(pos + 2),
                spec_number(chars@, toks@, pos as int) == Ok::<i64, (int, &'static str)>(rate),
                spec_number(chars@, toks@, pos + 1) == Ok::<i64, (int, &'static str)>(delay),
                k <= PRIO_COUNT,
                p == pos + 2 + k,
                p <= toks@.len(),
                budgets@.len() == PRIO_COUNT,
                spec_numbers(chars@, toks@, pos + 2, k as nat) == Ok::<int, (int, &'static str)>(p as int),
                forall|i: int| 0 <= i < k ==> spec_number(chars@, toks@, pos + 2 + i) == Ok::<i64, (int, &'static str)>(
                    #[trigger] budgets@[i],
                ),
            decreases PRIO_COUNT - k,
        {
            let v = match read_number(chars, toks, p) {
                Err(e) => {
                    proof {
                        assert(spec_numbers(chars@, toks@, pos + 2, (k + 1) as nat) is Err);
                        lemma_numbers_err(chars@, toks@, pos + 2, (k + 1) as nat, PRIO_COUNT as nat);
                    }
                    return Err(e);
                },
                Ok(v) => v,
            };
            budgets[k] = v;
            k = k + 1;
            p = p + 1;
        }
        Ok((LegacyManager::<ADD_DELAY, AUTO_UPDATE, PRIO_COUNT, true>::new(rate, delay, budgets), p))
    }
}

/// Once reading numbers fails, reading more of them fails the same way.
pub proof fn lemma_numbers_err(chars: Seq<char>, toks: Seq<PlanToken>, pos: int, k: nat, n: nat)
    requires
        k <= n,
        spec_numbers(chars, toks, pos, k) is Err,
    ensures
        spec_numbers(chars, toks, pos, n) == spec_numbers(chars, toks, pos, k),
    decreases n - k,
{
    if k < n {
        lemma_numbers_err(chars, toks, pos, k + 1, n);
    }
}

impl<const ADD_DELAY: bool, const AUTO_UPDATE: bool, const PRIO_COUNT: usize> ReadManager for LegacyManager<
    ADD_DELAY,
    AUTO_UPDATE,
    PRIO_COUNT,
    true,
> {
    open spec fn init_ok_at(chars: Seq<char>, toks: Seq<PlanToken>, pos: int, info: ContactInfo) -> bool {
        &&& spec_number(chars, toks, pos) matches Ok(rate)
        &&& spec_number(chars, toks, pos + 1) matches Ok(delay)
        &&& legacy_init_ok(rate as int, delay as int, PRIO_COUNT as int, info)
    }

    proof fn lemma_init_ok_at(chars: Seq<char>, toks: Seq<PlanToken>, pos: int, v: Self, info: ContactInfo) {
        assert forall|i: int| 0 <= i < PRIO_COUNT implies volume_ok(#[trigger] v.0.queue_size@[i] as int) by {
            assert(v.0.queue_size@[i] == 0);
        }
    }
}


/// The kinds of declaration of a plan.
#[derive(Clone, Copy, Debug, PartialEq, Eq, Structural)]
pub enum ASABRPlanInfoKind {
    /// A contact, `contact`.
    Contact,
    /// An internal node, `node`.
    Node,
    /// An external node, `enode`.
    ENode,
    /// A virtual node, `vnode`.
    VNode,
}

/// The kind of declaration a word starts, if it is a keyword.
pub open spec fn kind_of(w: Seq<char>) -> Option<ASABRPlanInfoKind> {
    if w == seq!['n', 'o', 'd', 'e'] {
        Some(ASABRPlanInfoKind::Node)
    } else if w == seq!['e', 'n', 'o', 'd', 'e'] {
        Some(ASABRPlanInfoKind::ENode)
    } else if w == seq!['v', 'n', 'o', 'd', 'e'] {
        Some(ASABRPlanInfoKind::VNode)
    } else if w == seq!['c', 'o', 'n', 't', 'a', 'c', 't'] {
        Some(ASABRPlanInfoKind::Contact)
    } else {
        None
    }
}

/// The kind of declaration token `t` starts, if it is a keyword.
fn read_kind(chars: &Vec<char>, t: PlanToken) -> (r: Option<ASABRPlanInfoKind>)
    requires
        t.start <= t.end <= chars@.len(),
    ensures
        r == kind_of(word(chars@, t)),
{
    if word_eq(chars, t, &['n', 'o', 'd', 'e']) {
        Some(ASABRPlanInfoKind::Node)
    } else if word_eq(chars, t, &['e', 'n', 'o', 'd', 'e']) {
        Some(ASABRPlanInfoKind::ENode)
    } else if word_eq(chars, t, &['v', 'n', 'o', 'd', 'e']) {
        Some(ASABRPlanInfoKind::VNode)
    } else if word_eq(chars, t, &['c', 'o', 'n', 't', 'a', 'c', 't']) {
        Some(ASABRPlanInfoKind::Contact)
    } else {
        None
    }
}

/// A declaration of a plan, as its tokens give it: numbers, and the positions of the tokens of
/// names and managers.
pub enum SynDecl {
    /// A real node, external when `enode`.
    Real { enode: bool, id: i64, name: int, manager: int },
    /// A virtual node and the ids of its real nodes.
    Virtual { id: i64, name: int, rids: Seq<i64> },
    /// A contact.
    Contact { tx: i64, rx: i64, start: i64, end: i64, manager: int },
}

/// The token at `p` is `w`.
pub open spec fn word_is(chars: Seq<char>, toks: Seq<PlanToken>, p: int, w: Seq<char>) -> bool {
    0 <= p < toks.len() && word(chars, toks[p]) == w
}

/// Reading the rest of a list from token `p`: `open` tells whether a value may come next, and
/// `sep` whether a separator was just read.
pub open spec fn spec_list(
    chars: Seq<char>,
    toks: Seq<PlanToken>,
    p: int,
    open: bool,
    sep: bool,
    acc: Seq<i64>,
) -> Result<(Seq<i64>, int), (int, &'static str)>
    decreases toks.len() - p,
{
    if p < 0 || p >= toks.len() {
        Err((toks.len() as int, EOF))
    } else if !open {
        if sep {
            Err((p, INVALID_STATE))
        } else if word_is(chars, toks, p, seq!['[']) {
            spec_list(chars, toks, p + 1, true, sep, acc)
        } else if word_is(chars, toks, p, seq![']']) {
            Ok((acc, p + 1))
        } else if word_is(chars, toks, p, seq![',']) {
            spec_list(chars, toks, p + 1, true, true, acc)
        } else {
            Err((p, EDELIMITER))
        }
    } else if sep && word_is(chars, toks, p, seq![']']) {
        Ok((acc, p + 1))
    } else {
        match spec_number(chars, toks, p) {
            Err(e) => Err(e),
            Ok(v) => spec_list(chars, toks, p + 1, false, false, acc.push(v)),
        }
    }
}

/// Reading one declaration from token `p`: the declaration and the position after it.
pub open spec fn spec_decl<NM: ReadFromTokens, CM: ReadFromTokens>(
    chars: Seq<char>,
    toks: Seq<PlanToken>,
    p: int,
) -> Result<(SynDecl, int), (int, &'static str)> {
    let kw = kind_of(word(chars, toks[p]));
    if kw == Some(ASABRPlanInfoKind::Node) || kw == Some(ASABRPlanInfoKind::ENode) {
        match spec_number(chars, toks, p + 1) {
            Err(e) => Err(e),
            Ok(id) => if p + 2 >= toks.len() {
                Err((toks.len() as int, EOF))
            } else {
                match NM::spec_read(chars, toks, p + 3) {
                    Err(e) => Err(e),
                    Ok(next) => Ok(
                        (
                            SynDecl::Real {
                                enode: kw == Some(ASABRPlanInfoKind::ENode),
                                id,
                                name: p + 2,
                                manager: p + 3,
                            },
                            next,
                        ),
                    ),
                }
            },
        }
    } else if kw == Some(ASABRPlanInfoKind::VNode) {
        match spec_number(chars, toks, p + 1) {
            Err(e) => Err(e),
            Ok(id) => if p + 2 >= toks.len() {
                Err((toks.len() as int, EOF))
            } else {
                match spec_list(chars, toks, p + 3, false, false, seq![]) {
                    Err(e) => Err(e),
                    Ok((rids, next)) => Ok((SynDecl::Virtual { id, name: p + 2, rids }, next)),
                }
            },
        }
    } else if kw == Some(ASABRPlanInfoKind::Contact) {
        match spec_number(chars, toks, p + 1) {
            Err(e) => Err(e),
            Ok(tx) => match spec_number(chars, toks, p + 2) {
                Err(e) => Err(e),
                Ok(rx) => match spec_number(chars, toks, p + 3) {
                    Err(e) => Err(e),
                    Ok(start) => match spec_number(chars, toks, p + 4) {
                        Err(e) => Err(e),
                        Ok(end) => match CM::spec_read(chars, toks, p + 5) {
                            Err(e) => Err(e),
                            Ok(next) => Ok((SynDecl::Contact { tx, rx, start, end, manager: p + 5 }, next)),
                        },
                    },
                },
            },
        }
    } else {
        Err((p, EKEYWORD))
    }
}

/// The real node declarations among `ds`, in order.
pub open spec fn reals_of(ds: Seq<SynDecl>) -> Seq<SynDecl>
    decreases ds.len(),
{
    if ds.len() == 0 {
        seq![]
    } else if ds.last() is Real {
        reals_of(ds.drop_last()).push(ds.last())
    } else {
        reals_of(ds.drop_last())
    }
}

/// The virtual node declarations among `ds`, in order.
pub open spec fn virtuals_of(ds: Seq<SynDecl>) -> Seq<SynDecl>
    decreases ds.len(),
{
    if ds.len() == 0 {
        seq![]
    } else if ds.last() is Virtual {
        virtuals_of(ds.drop_last()).push(ds.last())
    } else {
        virtuals_of(ds.drop_last())
    }
}

/// The contact declarations among `ds`, in order.
pub open spec fn contacts_of(ds: Seq<SynDecl>) -> Seq<SynDecl>
    decreases ds.len(),
{
    if ds.len() == 0 {
        seq![]
    } else if ds.last() is Contact {
        contacts_of(ds.drop_last()).push(ds.last())
    } else {
        contacts_of(ds.drop_last())
    }
}

/// The contact data of a contact declaration.
pub open spec fn info_of(d: SynDecl) -> ContactInfo {
    ContactInfo {
        tx_node_id: NodeID(d->tx as usize),
        rx_node_id: NodeID(d->rx as usize),
        start: d->start,
        end: d->end,
    }
}

/// Some virtual node of `ds` names the real node `k`.
pub open spec fn labelled(ds: Seq<SynDecl>, k: int) -> bool {
    exists|v: int, j: int|
        0 <= v < virtuals_of(ds).len() && 0 <= j < virtuals_of(ds)[v]->rids.len() && (
        #[trigger] virtuals_of(ds)[v]->rids[j]) as usize == k
}

/// The error that declaring `d` after `ds` raises, if any.
pub open spec fn decl_error<CM: ReadManager>(
    chars: Seq<char>,
    toks: Seq<PlanToken>,
    ds: Seq<SynDecl>,
    d: SynDecl,
) -> Option<&'static str> {
    let nr = reals_of(ds).len();
    match d {
        SynDecl::Real { id, .. } => if (id as usize) == nr {
            None
        } else {
            Some(ENEW_REAL)
        },
        SynDecl::Virtual { id, rids, .. } => if (id as usize) != nr + virtuals_of(ds).len() {
            Some(ENEW_VIRTUAL)
        } else if exists|j: int| 0 <= j < rids.len() && ((#[trigger] rids[j]) as usize) >= nr {
            Some(EREAL_ID)
        } else {
            None
        },
        SynDecl::Contact { tx, rx, start, end, manager } => if !(start < end && CM::init_ok_at(
            chars,
            toks,
            manager,
            info_of(d),
        )) {
            Some(ECONTACT)
        } else if (tx as usize) >= nr || (rx as usize) >= nr {
            Some(EREAL_ID)
        } else {
            None
        },
    }
}

/// Some external node of `ds` is named by no virtual node.
pub open spec fn unlabelled_enode(ds: Seq<SynDecl>) -> bool {
    exists|k: int| 0 <= k < reals_of(ds).len() && (#[trigger] reals_of(ds)[k])->enode && !labelled(ds, k)
}

/// Reading the declarations from token `p`, after the declarations `ds`: all of them, or the
/// first error, at the position of its token.
pub open spec fn spec_plan<NM: ReadFromTokens, CM: ReadManager>(
    chars: Seq<char>,
    toks: Seq<PlanToken>,
    p: int,
    ds: Seq<SynDecl>,
) -> Result<Seq<SynDecl>, (int, &'static str)>
    decreases toks.len() - p,
{
    if p < 0 || p >= toks.len() {
        if unlabelled_enode(ds) {
            Err((toks.len() as int, EENODE))
        } else {
            Ok(ds)
        }
    } else {
        match spec_decl::<NM, CM>(chars, toks, p) {
            Err(e) => Err(e),
            Ok((d, next)) => if next <= p || next > toks.len() {
                Err((p, INVALID_STATE))
            } else {
                match decl_error::<CM>(chars, toks, ds, d) {
                    Some(m) => Err((next - 1, m)),
                    None => spec_plan::<NM, CM>(chars, toks, next, ds.push(d)),
                }
            },
        }
    }
}

/// Real node `rn` is declared by `d`.
pub open spec fn real_matches<NM: NodeManager + ReadFromTokens>(
    chars: Seq<char>,
    toks: Seq<PlanToken>,
    d: SynDecl,
    rn: RealNode<NM>,
) -> bool {
    &&& (rn is Enode) == d->enode
    &&& rn.node().info.id == NodeID(d->Real_id as usize)
    &&& rn.node().info.name.name@ == word(chars, toks[d->Real_name])
    &&& !rn.node().info.excluded
    &&& NM::read_gives(chars, toks, d->Real_manager, rn.node().manager)
}

/// Virtual node `v` is declared by `d`.
pub open spec fn virtual_matches(chars: Seq<char>, toks: Seq<PlanToken>, d: SynDecl, v: VirtualNodeInfo) -> bool {
    &&& v.vid == NodeID(d->Virtual_id as usize)
    &&& v.name.name@ == word(chars, toks[d->Virtual_name])
    &&& v.rids@.len() == d->rids.len()
    &&& forall|j: int| 0 <= j < v.rids@.len() ==> #[trigger] v.rids@[j] == NodeID(d->rids[j] as usize)
}

/// Contact `c` with its ends is declared by `d`.
pub open spec fn contact_matches<CM: ReadManager>(
    chars: Seq<char>,
    toks: Seq<PlanToken>,
    d: SynDecl,
    c: (Contact<CM>, usize, usize),
) -> bool {
    &&& c.0.lifespan == info_of(d).lifespan()
    &&& c.1 == d->tx as usize
    &&& c.2 == d->rx as usize
    &&& !c.0.suppressed
    &&& c.0.wf()
    &&& exists|m0: CM| CM::read_gives(chars, toks, d->Contact_manager, m0) && #[trigger] m0.spec_try_init(info_of(d), c.0.manager)
}

/// The plan holds what the declarations `ds` declare, in order.
pub open spec fn plan_matches<NM: NodeManager + ReadFromTokens, CM: ReadManager>(
    chars: Seq<char>,
    toks: Seq<PlanToken>,
    ds: Seq<SynDecl>,
    realnodes: Seq<RealNode<NM>>,
    vnodes: Seq<VirtualNodeInfo>,
    contacts: Seq<(Contact<CM>, usize, usize)>,
) -> bool {
    &&& realnodes.len() == reals_of(ds).len()
    &&& forall|k: int| 0 <= k < realnodes.len() ==> real_matches(chars, toks, reals_of(ds)[k], #[trigger] realnodes[k])
    &&& vnodes.len() == virtuals_of(ds).len()
    &&& forall|k: int| 0 <= k < vnodes.len() ==> virtual_matches(chars, toks, virtuals_of(ds)[k], #[trigger] vnodes[k])
    &&& contacts.len() == contacts_of(ds).len()
    &&& forall|k: int| 0 <= k < contacts.len() ==> contact_matches(chars, toks, contacts_of(ds)[k], #[trigger] contacts[k])
}


/// Reads a list of node ids from token `p`.
pub fn read_list(chars: &Vec<char>, toks: &Vec<PlanToken>, p: usize) -> (r: Result<(Vec<i64>, usize), (usize, &'static str)>)
    requires
        tokens_fit(chars@, toks@),
    ensures
        match r {
            Ok((v, next)) => spec_list(chars@, toks@, p as int, false, false, seq![]) == Ok::<(Seq<i64>, int), (int, &'static str)>(
                (v@, next as int),
            ),
            Err((at, m)) => spec_list(chars@, toks@, p as int, false, false, seq![]) == Err::<(Seq<i64>, int), (int, &'static str)>(
                (at as int, m),
            ),
        },
{
    let ghost whole = spec_list(chars@, toks@, p as int, false, false, seq![]);
    let n = toks.len();
    let open_w: [char; 1] = ['['];
    let close_w: [char; 1] = [']'];
    let sep_w: [char; 1] = [','];
    assert(open_w@ =~= seq!['[']);
    assert(close_w@ =~= seq![']']);
    assert(sep_w@ =~= seq![',']);
    let mut q = p;
    let mut open = false;
    let mut sep = false;
    let mut acc: Vec<i64> = Vec::new();
    loop
        invariant
            n == toks@.len(),
            tokens_fit(chars@, toks@),
            open_w@ == seq!['['],
            close_w@ == seq![']'],
            sep_w@ == seq![','],
            whole == spec_list(chars@, toks@, q as int, open, sep, acc@),
            whole == spec_list(chars@, toks@, p as int, false, false, seq![]),
        decreases n - q,
    {
        if q >= n {
            return Err((n, EOF));
        }
        let t = toks[q];
        assert(t.start <= t.end <= chars@.len());
        if !open {
            if sep {
                return Err((q, INVALID_STATE));
            } else if word_eq(chars, t, &open_w) {
                open = true;
            } else if word_eq(chars, t, &close_w) {
                return Ok((acc, q + 1));
            } else if word_eq(chars, t, &sep_w) {
                open = true;
                sep = true;
            } else {
                return Err((q, EDELIMITER));
            }
        } else if sep && word_eq(chars, t, &close_w) {
            return Ok((acc, q + 1));
        } else {
            let v = match read_number(chars, toks, q) {
                Err(e) => {
                    return Err(e);
                },
                Ok(v) => v,
            };
            acc.push(v);
            open = false;
            sep = false;
        }
        q = q + 1;
    }
}

/// A declaration read from the tokens of a plan.
pub enum ParsedDecl<NM, CM> {
    /// A real node, external when `enode`.
    Real { enode: bool, id: i64, name: NodeName, manager: NM },
    /// A virtual node and the ids of its real nodes.
    Virtual { id: i64, name: NodeName, rids: Vec<i64> },
    /// A contact.
    Contact { tx: i64, rx: i64, start: i64, end: i64, manager: CM },
}

/// The declaration read agrees with the declaration the tokens give.
pub open spec fn decl_agrees<NM: ReadFromTokens, CM: ReadFromTokens>(
    chars: Seq<char>,
    toks: Seq<PlanToken>,
    sd: SynDecl,
    d: ParsedDecl<NM, CM>,
) -> bool {
    match (sd, d) {
        (SynDecl::Real { enode, id, name, manager }, ParsedDecl::Real { enode: e2, id: i2, name: n2, manager: m2 }) => {
            &&& enode == e2
            &&& id == i2
            &&& n2.name@ == word(chars, toks[name])
            &&& NM::read_gives(chars, toks, manager, m2)
        },
        (SynDecl::Virtual { id, name, rids }, ParsedDecl::Virtual { id: i2, name: n2, rids: r2 }) => {
            &&& id == i2
            &&& n2.name@ == word(chars, toks[name])
            &&& r2@ == rids
        },
        (SynDecl::Contact { tx, rx, start, end, manager }, ParsedDecl::Contact { tx: t2, rx: x2, start: s2, end: e2, manager: m2 }) => {
            &&& tx == t2
            &&& rx == x2
            &&& start == s2
            &&& end == e2
            &&& CM::read_gives(chars, toks, manager, m2)
        },
        _ => false,
    }
}

/// The name written by token `p`.
fn read_name(text: &str, chars: &Vec<char>, toks: &Vec<PlanToken>, p: usize) -> (r: NodeName)
    requires
        chars@ == text@,
        tokens_fit(chars@, toks@),
        p < toks@.len(),
    ensures
        r.name@ == word(chars@, toks@[p as int]),
{
    let t = toks[p];
    NodeName::new(text.substring_char(t.start, t.end))
}

/// Reads one declaration from token `p`.
pub fn read_decl<NM: ReadFromTokens, CM: ReadFromTokens>(
    text: &str,
    chars: &Vec<char>,
    toks: &Vec<PlanToken>,
    p: usize,
) -> (r: Result<(ParsedDecl<NM, CM>, usize), (usize, &'static str)>)
    requires
        chars@ == text@,
        tokens_fit(chars@, toks@),
        p < toks@.len(),
    ensures
        match r {
            Ok((d, next)) => spec_decl::<NM, CM>(chars@, toks@, p as int) matches Ok((sd, n)) && n == next && decl_agrees(chars@, toks@, sd, d),
            Err((at, m)) => spec_decl::<NM, CM>(chars@, toks@, p as int) == Err::<(SynDecl, int), (int, &'static str)>((at as int, m)),
        },
{
    let _n = toks.len();
    let t = toks[p];
    let kind = read_kind(chars, t);
    let is_node = match kind {
        Some(ASABRPlanInfoKind::Node) => true,
        _ => false,
    };
    let is_enode = match kind {
        Some(ASABRPlanInfoKind::ENode) => true,
        _ => false,
    };
    let is_vnode = match kind {
        Some(ASABRPlanInfoKind::VNode) => true,
        _ => false,
    };
    let is_contact = match kind {
        Some(ASABRPlanInfoKind::Contact) => true,
        _ => false,
    };
    if is_node || is_enode {
        let id = match read_number(chars, toks, p + 1) {
            Err(e) => {
                return Err(e);
            },
            Ok(v) => v,
        };
        if p + 2 >= toks.len() {
            return Err((toks.len(), EOF));
        }
        let name = read_name(text, chars, toks, p + 2);
        let (manager, next) = match NM::read(chars, toks, p + 3) {
            Err(e) => {
                return Err(e);
            },
            Ok(x) => x,
        };
        Ok((ParsedDecl::Real { enode: !is_node, id, name, manager }, next))
    } else if is_vnode {
        let id = match read_number(chars, toks, p + 1) {
            Err(e) => {
                return Err(e);
            },
            Ok(v) => v,
        };
        if p + 2 >= toks.len() {
            return Err((toks.len(), EOF));
        }
        let name = read_name(text, chars, toks, p + 2);
        let (rids, next) = match read_list(chars, toks, p + 3) {
            Err(e) => {
                return Err(e);
            },
            Ok(x) => x,
        };
        Ok((ParsedDecl::Virtual { id, name, rids }, next))
    } else if is_contact {
        let tx = match read_number(chars, toks, p + 1) {
            Err(e) => {
                return Err(e);
            },
            Ok(v) => v,
        };
        let rx = match read_number(chars, toks, p + 2) {
            Err(e) => {
                return Err(e);
            },
            Ok(v) => v,
        };
        let start = match read_number(chars, toks, p + 3) {
            Err(e) => {
                return Err(e);
            },
            Ok(v) => v,
        };
        let end = match read_number(chars, toks, p + 4) {
            Err(e) => {
                return Err(e);
            },
            Ok(v) => v,
        };
        let (manager, next) = match CM::read(chars, toks, p + 5) {
            Err(e) => {
                return Err(e);
            },
            Ok(x) => x,
        };
        Ok((ParsedDecl::Contact { tx, rx, start, end, manager }, next))
    } else {
        Err((p, EKEYWORD))
    }
}


proof fn lemma_push_decl(ds: Seq<SynDecl>, d: SynDecl)
    ensures
        reals_of(ds.push(d)) == if d is Real { reals_of(ds).push(d) } else { reals_of(ds) },
        virtuals_of(ds.push(d)) == if d is Virtual { virtuals_of(ds).push(d) } else { virtuals_of(ds) },
        contacts_of(ds.push(d)) == if d is Contact { contacts_of(ds).push(d) } else { contacts_of(ds) },
        !(d is Virtual) ==> forall|k: int| labelled(ds.push(d), k) == labelled(ds, k),
        d is Virtual ==> forall|k: int|
            labelled(ds.push(d), k) == (labelled(ds, k) || exists|j: int|
                0 <= j < d->rids.len() && (#[trigger] d->rids[j]) as usize == k),
{
    assert(ds.push(d).drop_last() == ds);
    let v0 = virtuals_of(ds);
    let v1 = virtuals_of(ds.push(d));
    assert forall|k: int| labelled(ds.push(d), k) == (labelled(ds, k) || (d is Virtual && exists|j: int|
        0 <= j < d->rids.len() && (#[trigger] d->rids[j]) as usize == k)) by {
        if labelled(ds, k) {
            let (v, j) = choose|v: int, j: int|
                0 <= v < v0.len() && 0 <= j < v0[v]->rids.len() && (#[trigger] v0[v]->rids[j]) as usize == k;
            assert(v1[v] == v0[v]);
            assert(v1[v]->rids[j] as usize == k);
        }
        if d is Virtual && exists|j: int| 0 <= j < d->rids.len() && (#[trigger] d->rids[j]) as usize == k {
            let j = choose|j: int| 0 <= j < d->rids.len() && (#[trigger] d->rids[j]) as usize == k;
            assert(v1[v0.len() as int] == d);
            assert(v1[v0.len() as int]->rids[j] as usize == k);
        }
        if labelled(ds.push(d), k) {
            let (v, j) = choose|v: int, j: int|
                0 <= v < v1.len() && 0 <= j < v1[v]->rids.len() && (#[trigger] v1[v]->rids[j]) as usize == k;
            if v < v0.len() {
                assert(v1[v] == v0[v]);
                assert(v0[v]->rids[j] as usize == k);
            } else {
                assert(v1[v] == d);
            }
        }
    }
}

/// Some id of `rids` names no real node among the first `nr`.
fn rid_out_of_range(rids: &Vec<i64>, nr: usize) -> (r: bool)
    ensures
        r == exists|j: int| 0 <= j < rids@.len() && ((#[trigger] rids@[j]) as usize) >= nr,
{
    let mut j: usize = 0;
    while j < rids.len()
        invariant
            j <= rids@.len(),
            forall|x: int| 0 <= x < j ==> ((#[trigger] rids@[x]) as usize) < nr,
        decreases rids@.len() - j,
    {
        if (rids[j] as usize) >= nr {
            return true;
        }
        j = j + 1;
    }
    false
}

/// Reads the declarations of a plan from its tokens and builds the plan, checking that real
/// nodes come in order, then virtual nodes, that every reference names a declared real node,
/// that contacts are valid, and that every external node is named by a virtual node.
pub fn parse_plan<NM: NodeManager + ReadFromTokens, CM: ReadManager>(
    text: &str,
    chars: &Vec<char>,
    toks: &Vec<PlanToken>,
) -> (r: Result<ContactPlan<NM, CM>, (usize, &'static str)>)
    requires
        chars@ == text@,
        tokens_fit(chars@, toks@),
    ensures
        match spec_plan::<NM, CM>(chars@, toks@, 0, seq![]) {
            Err((at, m)) => r matches Err((a2, m2)) && a2 == at && m2 == m,
            Ok(ds) => r matches Ok(plan) && plan_matches(chars@, toks@, ds, plan.realnodes@, plan.vnodes@, plan.contacts@),
        },
{
    let ghost whole = spec_plan::<NM, CM>(chars@, toks@, 0, seq![]);
    let ghost mut ds: Seq<SynDecl> = seq![];
    let n = toks.len();
    let mut rnodes: Vec<RealNode<NM>> = Vec::new();
    let mut vnodes: Vec<VirtualNodeInfo> = Vec::new();
    let mut contacts: Vec<(Contact<CM>, usize, usize)> = Vec::new();
    let mut labels: Vec<bool> = Vec::new();
    let mut p: usize = 0;
    while p < n
        invariant
            n == toks@.len(),
            chars@ == text@,
            tokens_fit(chars@, toks@),
            p <= n,
            whole == spec_plan::<NM, CM>(chars@, toks@, 0, seq![]),
            whole == spec_plan::<NM, CM>(chars@, toks@, p as int, ds),
            plan_matches(chars@, toks@, ds, rnodes@, vnodes@, contacts@),
            labels@.len() == rnodes@.len(),
            forall|k: int| 0 <= k < labels@.len() ==> #[trigger] labels@[k] == labelled(ds, k),
            forall|k: int| labelled(ds, k) ==> 0 <= k < rnodes@.len(),
        decreases n - p,
    {
        let (d, next) = match read_decl::<NM, CM>(text, chars, toks, p) {
            Err(e) => {
                return Err(e);
            },
            Ok(x) => x,
        };
        let ghost sd = spec_decl::<NM, CM>(chars@, toks@, p as int)->Ok_0.0;
        if next <= p || next > n {
            return Err((p, INVALID_STATE));
        }
        let at = next - 1;
        proof {
            lemma_push_decl(ds, sd);
        }
        match d {
            ParsedDecl::Real { enode, id, name, manager } => {
                if (id as usize) != rnodes.len() {
                    return Err((at, ENEW_REAL));
                }
                let node = match Node::try_new(NodeInfo::new(NodeID(id as usize), name), manager) {
                    Some(x) => x,
                    None => {
                        return Err((at, INVALID_STATE));
                    },
                };
                if enode {
                    rnodes.push(RealNode::Enode(node));
                } else {
                    rnodes.push(RealNode::Inode(node));
                }
                labels.push(false);
                proof {
                    let ds2 = ds.push(sd);
                    assert(reals_of(ds2) == reals_of(ds).push(sd));
                    assert forall|k: int| 0 <= k < labels@.len() implies #[trigger] labels@[k] == labelled(ds2, k) by {
                        if k == labels@.len() - 1 {
                            if labelled(ds, k) {
                                let (v, j) = choose|v: int, j: int|
                                    0 <= v < virtuals_of(ds).len() && 0 <= j < virtuals_of(ds)[v]->rids.len() && (
                                    #[trigger] virtuals_of(ds)[v]->rids[j]) as usize == k;
                            }
                        }
                    }
                    assert forall|k: int| labelled(ds2, k) implies 0 <= k < rnodes@.len() by {
                        assert(labelled(ds, k));
                    }
                    ds = ds2;
                }
            },
            ParsedDecl::Virtual { id, name, rids } => {
                let nr = rnodes.len();
                let vid = id as usize;
                if !(vid >= nr && vid - nr == vnodes.len()) {
                    return Err((at, ENEW_VIRTUAL));
                }
                if rid_out_of_range(&rids, nr) {
                    return Err((at, EREAL_ID));
                }
                let mut ids: Vec<NodeID> = Vec::new();
                let mut j: usize = 0;
                while j < rids.len()
                    invariant
                        j <= rids@.len(),
                        ids@.len() == j,
                        forall|x: int| 0 <= x < j ==> #[trigger] ids@[x] == NodeID(rids@[x] as usize),
                    decreases rids@.len() - j,
                {
                    ids.push(NodeID(rids[j] as usize));
                    j = j + 1;
                }
                let ghost labels0 = labels@;
                let mut j: usize = 0;
                while j < rids.len()
                    invariant
                        j <= rids@.len(),
                        nr == rnodes@.len(),
                        labels@.len() == nr,
                        forall|x: int| 0 <= x < rids@.len() ==> ((#[trigger] rids@[x]) as usize) < nr,
                        forall|k: int|
                            0 <= k < nr ==> #[trigger] labels@[k] == (labels0[k] || exists|x: int|
                                0 <= x < j && (#[trigger] rids@[x]) as usize == k),
                    decreases rids@.len() - j,
                {
                    let rid = rids[j] as usize;
                    let ghost before = labels@;
                    labels.set(rid, true);
                    proof {
                        assert forall|k: int| 0 <= k < nr implies #[trigger] labels@[k] == (labels0[k] || exists|x: int|
                            0 <= x < j + 1 && (#[trigger] rids@[x]) as usize == k) by {
                            if k == rid {
                                assert(rids@[j as int] as usize == k);
                            } else {
                                assert(labels@[k] == before[k]);
                                if exists|x: int| 0 <= x < j + 1 && (#[trigger] rids@[x]) as usize == k {
                                    let x = choose|x: int| 0 <= x < j + 1 && (#[trigger] rids@[x]) as usize == k;
                                    assert(x != j);
                                }
                            }
                        }
                    }
                    j = j + 1;
                }
                vnodes.push(VirtualNodeInfo::new(NodeID(vid), name, ids));
                proof {
                    let ds2 = ds.push(sd);
                    assert(virtuals_of(ds2) == virtuals_of(ds).push(sd));
                    assert(!(exists|x: int| 0 <= x < sd->rids.len() && ((#[trigger] sd->rids[x]) as usize) >= nr));
                    assert(sd->rids == rids@);
                    assert forall|k: int| 0 <= k < labels@.len() implies #[trigger] labels@[k] == labelled(ds2, k) by {
                        assert(labels@[k] == (labels0[k] || exists|x: int| 0 <= x < rids@.len() && (#[trigger] rids@[x]) as usize == k));
                        assert(labels0[k] == labelled(ds, k));
                    }
                    assert forall|k: int| labelled(ds2, k) implies 0 <= k < rnodes@.len() by {
                        if !labelled(ds, k) {
                            let x = choose|x: int| 0 <= x < sd->rids.len() && (#[trigger] sd->rids[x]) as usize == k;
                            assert(((sd->rids[x]) as usize) < nr);
                        }
                    }
                    ds = ds2;
                }
            },
            ParsedDecl::Contact { tx, rx, start, end, manager } => {
                let info = ContactInfo::new(NodeID(tx as usize), NodeID(rx as usize), start, end);
                proof {
                    CM::lemma_init_ok_at(chars@, toks@, sd->Contact_manager, manager, info);
                    assert(info == info_of(sd));
                }
                let ghost m0 = manager;
                let c = match Contact::try_new(info, manager) {
                    None => {
                        return Err((at, ECONTACT));
                    },
                    Some(c) => c,
                };
                if (tx as usize) >= rnodes.len() || (rx as usize) >= rnodes.len() {
                    return Err((at, EREAL_ID));
                }
                contacts.push(c);
                proof {
                    let ds2 = ds.push(sd);
                    assert(contacts_of(ds2) == contacts_of(ds).push(sd));
                    assert(CM::read_gives(chars@, toks@, sd->Contact_manager, m0) && m0.spec_try_init(info_of(sd), c.0.manager));
                    assert(contact_matches(chars@, toks@, sd, c));
                    assert forall|k: int| 0 <= k < labels@.len() implies #[trigger] labels@[k] == labelled(ds2, k) by {
                        assert(labelled(ds2, k) == labelled(ds, k));
                    }
                    assert forall|k: int| labelled(ds2, k) implies 0 <= k < rnodes@.len() by {
                        assert(labelled(ds, k));
                    }
                    ds = ds2;
                }
            },
        }
        p = next;
    }
    let mut k: usize = 0;
    while k < rnodes.len()
        invariant
            n == toks@.len(),
            p >= n,
            whole == spec_plan::<NM, CM>(chars@, toks@, 0, seq![]),
            whole == spec_plan::<NM, CM>(chars@, toks@, p as int, ds),
            plan_matches(chars@, toks@, ds, rnodes@, vnodes@, contacts@),
            labels@.len() == rnodes@.len(),
            forall|x: int| 0 <= x < labels@.len() ==> #[trigger] labels@[x] == labelled(ds, x),
            k <= rnodes@.len(),
            forall|x: int| 0 <= x < k ==> !((#[trigger] reals_of(ds)[x])->enode && !labelled(ds, x)),
        decreases rnodes@.len() - k,
    {
        let unlabelled = match &rnodes[k] {
            RealNode::Enode(_) => !labels[k],
            RealNode::Inode(_) => false,
        };
        if unlabelled {
            proof {
                assert(real_matches(chars@, toks@, reals_of(ds)[k as int], rnodes@[k as int]));
                assert(unlabelled_enode(ds));
            }
            return Err((n, EENODE));
        }
        proof {
            assert(real_matches(chars@, toks@, reals_of(ds)[k as int], rnodes@[k as int]));
        }
        k = k + 1;
    }
    Ok(ContactPlan::new(rnodes, vnodes, contacts))
}

/// Locates the error found at token `at`: at that token, or after the last one.
pub fn locate(toks: &Vec<PlanToken>, at: usize, m: &'static str) -> (r: Located<&'static str>)
    ensures
        r.data == m,
        at < toks@.len() ==> r.line == toks@[at as int].line && r.toknum == toks@[at as int].toknum,
        at >= toks@.len() && toks@.len() > 0 ==> r.line == toks@.last().line && r.toknum == toks@.last().toknum,
        at >= toks@.len() && toks@.len() == 0 ==> r.line == 1 && r.toknum == 0,
{
    if at < toks.len() {
        Located { data: m, line: toks[at].line, toknum: toks[at].toknum }
    } else if toks.len() > 0 {
        let last = toks[toks.len() - 1];
        Located { data: m, line: last.line, toknum: last.toknum }
    } else {
        Located { data: m, line: 1, toknum: 0 }
    }
}

/// Parses a contact plan written in the ASABR format; an error is located at the token where
/// it was found (an unfinished declaration, after the last token).
pub fn parse_asabr<NM: NodeManager + ReadFromTokens, CM: ReadManager>(text: &str) -> (r: Result<
    ContactPlan<NM, CM>,
    Located<&'static str>,
>)
    requires
        text@.len() < usize::MAX,
    ensures
        exists|toks: Seq<PlanToken>|
            {
                &&& tokens_of(text@, toks)
                &&& match spec_plan::<NM, CM>(text@, toks, 0, seq![]) {
                    Err((at, m)) => r matches Err(e) && e.data == m && (0 <= at < toks.len() ==> e.line
                        == toks[at].line && e.toknum == toks[at].toknum),
                    Ok(ds) => r matches Ok(plan) && plan_matches(text@, toks, ds, plan.realnodes@, plan.vnodes@, plan.contacts@),
                }
            },
{
    let chars = text_chars(text);
    let toks = tokenize(&chars);
    proof {
        assert forall|i: int| 0 <= i < toks@.len() implies (#[trigger] toks@[i]).start <= toks@[i].end <= chars@.len() by {
            assert(crate::contact_plan::lexer::token_at(chars@, toks@[i]));
        }
    }
    match parse_plan::<NM, CM>(text, &chars, &toks) {
        Ok(plan) => Ok(plan),
        Err((at, m)) => Err(locate(&toks, at, m)),
    }
}

} // verus!
