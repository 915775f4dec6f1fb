//! Reading contact plans written in the ION format.
//!
//! Only the lines `a contact <start> <end> <tx> <rx> <rate> [<confidence>]` and
//! `a range <start> <end> <tx> <rx> <delay>` are read; comments (lines whose first word starts
//! with `#`) and other lines are skipped. Nodes are numbered in the order their names first
//! appear. Each contact takes its delay from the range between the same nodes that covers it.

use vstd::prelude::*;

use crate::contact::{Contact, ContactInfo};
use crate::contact_manager::legacy::LegacyManager;
use crate::contact_manager::segmentation::seg::SegmentationManager;
use crate::contact_manager::segmentation::{valid_profile, Segment};
use crate::contact_manager::ContactManager;
use crate::contact_plan::lexer::{parse_number, spec_parse_i64, text_chars, tokenize, tokens_of, word, word_eq, PlanToken};
use crate::contact_plan::{ContactPlan, RealNode};
use crate::errors::ASABRError;
use crate::node::{Node, NodeInfo};
use crate::node_manager::NoManagement;
use crate::types::{date_ok, DataRate, Date, Duration, NodeID, NodeName};

verus! {

/// A contact read from an ION plan.
#[derive(Clone, Copy, Debug, PartialEq, Eq, Structural)]
pub struct IONContactData {
    /// Start of the transmission window.
    pub tx_start: Date,
    /// End of the transmission window.
    pub tx_end: Date,
    /// The transmitting node.
    pub tx_node_id: NodeID,
    /// The receiving node.
    pub rx_node_id: NodeID,
    /// The data rate.
    pub data_rate: DataRate,
    /// The propagation delay, taken from the range that covers the contact.
    pub delay: Duration,
}

/// A range (a propagation delay between two nodes over a window) read from an ION plan.
#[derive(Clone, Copy, Debug, PartialEq, Eq, Structural)]
pub struct IONRangeData {
    /// Start of the window.
    pub tx_start: Date,
    /// End of the window.
    pub tx_end: Date,
    /// The transmitting node.
    pub tx_node_id: NodeID,
    /// The receiving node.
    pub rx_node_id: NodeID,
    /// The delay.
    pub delay: Duration,
}

/// The contact information of an ION contact.
pub open spec fn ion_info(data: IONContactData) -> ContactInfo {
    ContactInfo { tx_node_id: data.tx_node_id, rx_node_id: data.rx_node_id, start: data.tx_start, end: data.tx_end }
}

/// Contact managers that can be made from ION contacts.
pub trait FromIONContactData: ContactManager {
    /// `m` is the manager made for the contact `data`.
    spec fn ion_made(data: IONContactData, m: Self) -> bool;

    /// The manager made for `data` accepts to be initialized for it.
    spec fn ion_ok(data: IONContactData) -> bool;

    /// Makes the manager of an ION contact.
    fn ion_manager(data: &IONContactData) -> (r: Self)
        ensures
            Self::ion_made(*data, r),
            r.spec_try_init_ok(ion_info(*data)) == Self::ion_ok(*data),
    ;
}

impl<const ADD_DELAY: bool, const AUTO_UPDATE: bool, const PRIO_COUNT: usize> FromIONContactData for LegacyManager<
    ADD_DELAY,
    AUTO_UPDATE,
    PRIO_COUNT,
    false,
> {
    open spec fn ion_made(data: IONContactData, m: Self) -> bool {
        &&& m.0.rate == data.data_rate
        &&& m.0.delay == data.delay
        &&& m.0.queue_size@ == Seq::new(PRIO_COUNT as nat, |i: int| 0i64)
        &&& m.0.budgets@ == Seq::new(PRIO_COUNT as nat, |i: int| 0i64)
        &&& m.0.original_volume == 0
    }

    open spec fn ion_ok(data: IONContactData) -> bool {
        &&& date_ok(data.tx_start as int)
        &&& date_ok(data.tx_end as int)
        &&& data.data_rate >= 1
        &&& date_ok(data.delay as int)
        &&& PRIO_COUNT >= 1
    }

    fn ion_manager(data: &IONContactData) -> (r: Self) {
        let m = Self::new(data.data_rate, data.delay);
        assert(m.0.queue_size@ =~= Seq::new(PRIO_COUNT as nat, |i: int| 0i64));
        assert(m.0.budgets@ =~= Seq::new(PRIO_COUNT as nat, |i: int| 0i64));
        m
    }
}

impl FromIONContactData for SegmentationManager {
    open spec fn ion_made(data: IONContactData, m: Self) -> bool {
        &&& m.rate_intervals@ == seq![Segment { start: data.tx_start, end: data.tx_end, val: data.data_rate }]
        &&& m.delay_intervals@ == seq![Segment { start: data.tx_start, end: data.tx_end, val: data.delay }]
        &&& m.free_intervals@.len() == 0
        &&& m.original_volume == 0
    }

    open spec fn ion_ok(data: IONContactData) -> bool {
        valid_profile(
            seq![Segment { start: data.tx_start, end: data.tx_end, val: data.data_rate }],
            seq![Segment { start: data.tx_start, end: data.tx_end, val: data.delay }],
            data.tx_start as int,
            data.tx_end as int,
        )
    }

    fn ion_manager(data: &IONContactData) -> (r: Self) {
        let rates = vec![Segment { start: data.tx_start, end: data.tx_end, val: data.data_rate }];
        let delays = vec![Segment { start: data.tx_start, end: data.tx_end, val: data.delay }];
        let m = SegmentationManager::new(rates, delays);
        assert(m.rate_intervals@ =~= seq![Segment { start: data.tx_start, end: data.tx_end, val: data.data_rate }]);
        assert(m.delay_intervals@ =~= seq![Segment { start: data.tx_start, end: data.tx_end, val: data.delay }]);
        m
    }
}

/// `t` is the contact (with its sender and receiver) made from the ION contact `data`.
pub open spec fn ion_contact<CM: FromIONContactData>(data: IONContactData, t: (Contact<CM>, usize, usize)) -> bool {
    &&& t.0.lifespan == ion_info(data).lifespan()
    &&& exists|m: CM| CM::ion_made(data, m) && #[trigger] m.spec_try_init(ion_info(data), t.0.manager)
    &&& !t.0.suppressed
    &&& t.0.wf()
    &&& t.1 == data.tx_node_id.0
    &&& t.2 == data.rx_node_id.0
}

/// Makes the contact of an ION contact; `None` when its window is empty or its manager refuses
/// it.
pub fn ion_convert<CM: FromIONContactData>(data: &IONContactData) -> (r: Option<(Contact<CM>, usize, usize)>)
    ensures
        r is Some <==> (data.tx_start < data.tx_end && CM::ion_ok(*data)),
        r matches Some(t) ==> ion_contact(*data, t),
{
    let info = ContactInfo::new(data.tx_node_id, data.rx_node_id, data.tx_start, data.tx_end);
    let manager = CM::ion_manager(data);
    let r = Contact::try_new(info, manager);
    proof {
        if r is Some {
            let t = r->0;
            assert(CM::ion_made(*data, manager) && manager.spec_try_init(ion_info(*data), t.0.manager));
        }
    }
    r
}


/// What a scan of an ION plan has read so far: the node names in order of first appearance,
/// the contacts and the ranges.
pub type IonScan = (Seq<Seq<char>>, Seq<IONContactData>, Seq<IONRangeData>);

/// The position after the last token of the line of token `i`.
pub open spec fn line_end(toks: Seq<PlanToken>, i: int) -> int
    decreases toks.len() - i,
{
    if i < 0 || i + 1 >= toks.len() || toks[i + 1].line != toks[i].line {
        i + 1
    } else {
        line_end(toks, i + 1)
    }
}

/// The line of a token ends after it and within the tokens.
pub proof fn lemma_line_end(toks: Seq<PlanToken>, i: int)
    requires
        0 <= i < toks.len(),
    ensures
        i < line_end(toks, i) <= toks.len(),
    decreases toks.len() - i,
{
    if !(i + 1 >= toks.len() || toks[i + 1].line != toks[i].line) {
        lemma_line_end(toks, i + 1);
    }
}

/// The number written by token `k`, or `0` when it writes none.
pub open spec fn ion_num(chars: Seq<char>, toks: Seq<PlanToken>, k: int) -> i64 {
    match spec_parse_i64(word(chars, toks[k])) {
        Some(v) => v,
        None => 0,
    }
}

/// The kind of the line made of tokens `i..j`: `1` for a contact, `2` for a range, `0` for a
/// line that is skipped.
pub open spec fn line_kind(chars: Seq<char>, toks: Seq<PlanToken>, i: int, j: int) -> int {
    if word(chars, toks[i]) != seq!['a'] || j - i < 2 {
        0
    } else if word(chars, toks[i + 1]) == seq!['c', 'o', 'n', 't', 'a', 'c', 't'] {
        1
    } else if word(chars, toks[i + 1]) == seq!['r', 'a', 'n', 'g', 'e'] {
        2
    } else {
        0
    }
}

/// The line made of tokens `i..j` can be read: a line starting with `a` has a second word, and
/// a contact or range line has the seven words it needs, with numbers where numbers go.
pub open spec fn line_ok(chars: Seq<char>, toks: Seq<PlanToken>, i: int, j: int) -> bool {
    word(chars, toks[i]) == seq!['a'] ==> {
        &&& j - i >= 2
        &&& line_kind(chars, toks, i, j) != 0 ==> {
            &&& j - i >= 7
            &&& spec_parse_i64(word(chars, toks[i + 2])) is Some
            &&& spec_parse_i64(word(chars, toks[i + 3])) is Some
            &&& spec_parse_i64(word(chars, toks[i + 6])) is Some
        }
    }
}

/// The first position, from `k` on, of the name `w` among `names` (`-1` when absent).
pub open spec fn find_name(names: Seq<Seq<char>>, w: Seq<char>, k: int) -> int
    decreases names.len() - k,
{
    if k < 0 || k >= names.len() {
        -1
    } else if names[k] == w {
        k
    } else {
        find_name(names, w, k + 1)
    }
}

/// The number of the node named `w`, and the names once it is known.
pub open spec fn alias(names: Seq<Seq<char>>, w: Seq<char>) -> (Seq<Seq<char>>, int) {
    let f = find_name(names, w, 0);
    if f >= 0 {
        (names, f)
    } else {
        (names.push(w), names.len() as int)
    }
}

/// Reading the line made of tokens `i..j`.
pub open spec fn ion_line(chars: Seq<char>, toks: Seq<PlanToken>, i: int, j: int, st: IonScan) -> IonScan {
    let kind = line_kind(chars, toks, i, j);
    if kind == 0 {
        st
    } else {
        let a1 = alias(st.0, word(chars, toks[i + 4]));
        let a2 = alias(a1.0, word(chars, toks[i + 5]));
        let start = ion_num(chars, toks, i + 2);
        let end = ion_num(chars, toks, i + 3);
        let v = ion_num(chars, toks, i + 6);
        if kind == 1 {
            (
                a2.0,
                st.1.push(
                    IONContactData {
                        tx_start: start,
                        tx_end: end,
                        tx_node_id: NodeID(a1.1 as usize),
                        rx_node_id: NodeID(a2.1 as usize),
                        data_rate: v,
                        delay: 0,
                    },
                ),
                st.2,
            )
        } else {
            (
                a2.0,
                st.1,
                st.2.push(
                    IONRangeData {
                        tx_start: start,
                        tx_end: end,
                        tx_node_id: NodeID(a1.1 as usize),
                        rx_node_id: NodeID(a2.1 as usize),
                        delay: v,
                    },
                ),
            )
        }
    }
}

/// Reading the lines from token `i` on, from the state `st`.
pub open spec fn ion_scan(chars: Seq<char>, toks: Seq<PlanToken>, i: int, st: IonScan) -> IonScan
    decreases toks.len() - i,
{
    if i < 0 || i >= toks.len() {
        st
    } else {
        proof {
            lemma_line_end(toks, i);
        }
        let j = line_end(toks, i);
        ion_scan(chars, toks, j, ion_line(chars, toks, i, j, st))
    }
}

/// Every line from token `i` on can be read.
pub open spec fn ion_lines_ok(chars: Seq<char>, toks: Seq<PlanToken>, i: int) -> bool
    decreases toks.len() - i,
{
    if i < 0 || i >= toks.len() {
        true
    } else {
        proof {
            lemma_line_end(toks, i);
        }
        let j = line_end(toks, i);
        line_ok(chars, toks, i, j) && ion_lines_ok(chars, toks, j)
    }
}

/// The names held as the tokens of their first appearance.
pub open spec fn names_of(chars: Seq<char>, names: Seq<PlanToken>) -> Seq<Seq<char>> {
    names.map_values(|t: PlanToken| word(chars, t))
}

/// Whether two tokens are the same word.
fn same_word(chars: &Vec<char>, a: PlanToken, b: PlanToken) -> (r: bool)
    requires
        a.start <= a.end <= chars@.len(),
        b.start <= b.end <= chars@.len(),
    ensures
        r == (word(chars@, a) == word(chars@, b)),
{
    if a.end - a.start != b.end - b.start {
        proof {
            assert(word(chars@, a).len() != word(chars@, b).len());
        }
        return false;
    }
    let mut k: usize = 0;
    while k < a.end - a.start
        invariant
            a.start <= a.end <= chars@.len(),
            b.start <= b.end <= chars@.len(),
            a.end - a.start == b.end - b.start,
            k <= a.end - a.start,
            forall|m: int| 0 <= m < k ==> #[trigger] word(chars@, a)[m] == word(chars@, b)[m],
        decreases a.end - a.start - k,
    {
        if chars[a.start + k] != chars[b.start + k] {
            proof {
                assert(word(chars@, a)[k as int] != word(chars@, b)[k as int]);
            }
            return false;
        }
        k = k + 1;
    }
    assert(word(chars@, a) =~= word(chars@, b));
    true
}

/// The number of the node named by token `t`, adding the name when it is new.
fn alias_index(chars: &Vec<char>, names: &mut Vec<PlanToken>, t: PlanToken) -> (r: usize)
    requires
        t.start <= t.end <= chars@.len(),
        forall|k: int| 0 <= k < old(names)@.len() ==> (#[trigger] old(names)@[k]).start <= old(names)@[k].end
            <= chars@.len(),
        old(names)@.len() < usize::MAX,
    ensures
        alias(names_of(chars@, old(names)@), word(chars@, t)) == (names_of(chars@, final(names)@), r as int),
        forall|k: int| 0 <= k < final(names)@.len() ==> (#[trigger] final(names)@[k]).start <= final(names)@[k].end
            <= chars@.len(),
        final(names)@.len() <= old(names)@.len() + 1,
{
    let ghost ns = names_of(chars@, names@);
    let ghost w = word(chars@, t);
    let mut k: usize = 0;
    while k < names.len()
        invariant
            t.start <= t.end <= chars@.len(),
            forall|m: int| 0 <= m < names@.len() ==> (#[trigger] names@[m]).start <= names@[m].end <= chars@.len(),
            ns == names_of(chars@, names@),
            w == word(chars@, t),
            k <= names@.len(),
            find_name(ns, w, 0) == find_name(ns, w, k as int),
        decreases names@.len() - k,
    {
        if same_word(chars, names[k], t) {
            return k;
        }
        k = k + 1;
    }
    let n = names.len();
    names.push(t);
    proof {
        assert(names_of(chars@, names@) =~= ns.push(w));
    }
    n
}

/// Reads every line of an ION plan; `None` when a line cannot be read.
fn scan_ion(chars: &Vec<char>, toks: &Vec<PlanToken>) -> (r: Option<(Vec<PlanToken>, Vec<IONContactData>, Vec<IONRangeData>)>)
    requires
        forall|k: int| 0 <= k < toks@.len() ==> (#[trigger] toks@[k]).start <= toks@[k].end <= chars@.len(),
    ensures
        r is Some <==> ion_lines_ok(chars@, toks@, 0),
        r matches Some(t) ==> ion_scan(chars@, toks@, 0, (seq![], seq![], seq![])) == (names_of(chars@, t.0@), t.1@, t.2@),
        r matches Some(t) ==> forall|k: int| 0 <= k < t.0@.len() ==> (#[trigger] t.0@[k]).start <= t.0@[k].end <= chars@.len(),
{
    let n = toks.len();
    let mut names: Vec<PlanToken> = Vec::new();
    let mut contacts: Vec<IONContactData> = Vec::new();
    let mut ranges: Vec<IONRangeData> = Vec::new();
    let ghost init: IonScan = (seq![], seq![], seq![]);
    proof {
        assert(names_of(chars@, names@) =~= seq![]);
    }
    let mut i: usize = 0;
    while i < n
        invariant
            n == toks@.len(),
            forall|k: int| 0 <= k < toks@.len() ==> (#[trigger] toks@[k]).start <= toks@[k].end <= chars@.len(),
            i <= n,
            ion_lines_ok(chars@, toks@, 0) == ion_lines_ok(chars@, toks@, i as int),
            ion_scan(chars@, toks@, 0, init) == ion_scan(
                chars@,
                toks@,
                i as int,
                (names_of(chars@, names@), contacts@, ranges@),
            ),
            forall|k: int| 0 <= k < names@.len() ==> (#[trigger] names@[k]).start <= names@[k].end <= chars@.len(),
            names@.len() <= i,
        decreases n - i,
    {
        proof {
            lemma_line_end(toks@, i as int);
        }
        let mut j: usize = i + 1;
        while j < n && toks[j].line == toks[i].line
            invariant
                n == toks@.len(),
                i < j <= n,
                line_end(toks@, i as int) == line_end(toks@, j - 1),
                toks@[j - 1].line == toks@[i as int].line,
            decreases n - j,
        {
            j = j + 1;
        }
        assert(j == line_end(toks@, i as int));
        assert(ion_lines_ok(chars@, toks@, i as int) == (line_ok(chars@, toks@, i as int, j as int) && ion_lines_ok(
            chars@,
            toks@,
            j as int,
        )));
        let ghost st = (names_of(chars@, names@), contacts@, ranges@);
        let kw_a: [char; 1] = ['a'];
        let kw_contact: [char; 7] = ['c', 'o', 'n', 't', 'a', 'c', 't'];
        let kw_range: [char; 5] = ['r', 'a', 'n', 'g', 'e'];
        assert(kw_a@ =~= seq!['a']);
        assert(kw_contact@ =~= seq!['c', 'o', 'n', 't', 'a', 'c', 't']);
        assert(kw_range@ =~= seq!['r', 'a', 'n', 'g', 'e']);
        if word_eq(chars, toks[i], &kw_a) {
            if j - i < 2 {
                return None;
            }
            let is_contact = word_eq(chars, toks[i + 1], &kw_contact);
            let is_range = word_eq(chars, toks[i + 1], &kw_range);
            if is_contact || is_range {
                if j - i < 7 {
                    return None;
                }
                let start = match parse_number(chars, toks[i + 2].start, toks[i + 2].end) {
                    Some(v) => v,
                    None => {
                        return None;
                    },
                };
                let end = match parse_number(chars, toks[i + 3].start, toks[i + 3].end) {
                    Some(v) => v,
                    None => {
                        return None;
                    },
                };
                let v = match parse_number(chars, toks[i + 6].start, toks[i + 6].end) {
                    Some(v) => v,
                    None => {
                        return None;
                    },
                };
                let tx = alias_index(chars, &mut names, toks[i + 4]);
                let rx = alias_index(chars, &mut names, toks[i + 5]);
                if is_contact {
                    contacts.push(
                        IONContactData {
                            tx_start: start,
                            tx_end: end,
                            tx_node_id: NodeID(tx),
                            rx_node_id: NodeID(rx),
                            data_rate: v,
                            delay: 0,
                        },
                    );
                } else {
                    ranges.push(
                        IONRangeData { tx_start: start, tx_end: end, tx_node_id: NodeID(tx), rx_node_id: NodeID(rx), delay: v },
                    );
                }
            }
        }
        assert((names_of(chars@, names@), contacts@, ranges@) == ion_line(chars@, toks@, i as int, j as int, st));
        i = j;
    }
    Some((names, contacts, ranges))
}


/// The error of a contact that a range between its nodes does not cover.
pub const EMANY_RANGES: &'static str = "This parser only supports one range per contact";

/// The error of a contact that no range gives a delay to.
pub const ENO_RANGE: &'static str = "At least one contact has no range";

/// The contact `c` goes between the nodes of the range `r`.
pub open spec fn same_pair(c: IONContactData, r: IONRangeData) -> bool {
    c.tx_node_id == r.tx_node_id && c.rx_node_id == r.rx_node_id
}

/// Inserts `x` among contacts ordered by start, after those that start no later than it.
pub open spec fn insert_by_start(s: Seq<IONContactData>, x: IONContactData) -> Seq<IONContactData>
    decreases s.len(),
{
    if s.len() == 0 {
        seq![x]
    } else if s.last().tx_start <= x.tx_start {
        s.push(x)
    } else {
        insert_by_start(s.drop_last(), x).push(s.last())
    }
}

/// The contacts between the nodes of the range `r`, ordered by start; contacts that start
/// together keep the order of the plan.
pub open spec fn group(cs: Seq<IONContactData>, r: IONRangeData) -> Seq<IONContactData>
    decreases cs.len(),
{
    if cs.len() == 0 {
        seq![]
    } else if same_pair(cs.last(), r) {
        insert_by_start(group(cs.drop_last(), r), cs.last())
    } else {
        group(cs.drop_last(), r)
    }
}

/// The range `r` covers the window of the contact `c`.
pub open spec fn covers(r: IONRangeData, c: IONContactData) -> bool {
    r.tx_start <= c.tx_start && c.tx_end <= r.tx_end
}

/// The position, from `k` on, of the first contact of `g` that `r` does not cover (the length
/// of `g` when it covers them all).
pub open spec fn covered_prefix(g: Seq<IONContactData>, r: IONRangeData, k: int) -> int
    decreases g.len() - k,
{
    if k < 0 || k >= g.len() {
        g.len() as int
    } else if !covers(r, g[k]) {
        k
    } else {
        covered_prefix(g, r, k + 1)
    }
}

/// The contact `c` with the delay `d`.
pub open spec fn with_delay(c: IONContactData, d: Duration) -> IONContactData {
    IONContactData {
        tx_start: c.tx_start,
        tx_end: c.tx_end,
        tx_node_id: c.tx_node_id,
        rx_node_id: c.rx_node_id,
        data_rate: c.data_rate,
        delay: d,
    }
}

/// The contacts `s`, each with the delay `d`.
pub open spec fn with_delays(s: Seq<IONContactData>, d: Duration) -> Seq<IONContactData> {
    s.map_values(|c: IONContactData| with_delay(c, d))
}

/// Giving delays to contacts, range after range from the range `k` on: the contacts that get
/// a delay, in order, and whether a range met a contact between its nodes that it does not
/// cover (which stops the reading there).
pub open spec fn ion_emit(cs: Seq<IONContactData>, rs: Seq<IONRangeData>, k: int) -> (Seq<IONContactData>, bool)
    decreases rs.len() - k,
{
    if k < 0 || k >= rs.len() {
        (seq![], false)
    } else {
        let g = group(cs, rs[k]);
        let p = covered_prefix(g, rs[k], 0);
        let here = with_delays(g.take(p), rs[k].delay);
        if p < g.len() {
            (here, true)
        } else {
            let rest = ion_emit(cs, rs, k + 1);
            (here + rest.0, rest.1)
        }
    }
}

/// Every contact given a delay can be made into a contact of the plan.
pub open spec fn ion_convertible<CM: FromIONContactData>(emitted: Seq<IONContactData>) -> bool {
    forall|k: int|
        0 <= k < emitted.len() ==> (#[trigger] emitted[k]).tx_start < emitted[k].tx_end && CM::ion_ok(emitted[k])
}

/// What reading the tokens `toks` of an ION plan gives.
pub open spec fn ion_read(chars: Seq<char>, toks: Seq<PlanToken>) -> IonScan {
    ion_scan(chars, toks, 0, (seq![], seq![], seq![]))
}

/// An ION plan can be read: its lines can, and so can the contacts that get a delay.
pub open spec fn ion_text_ok<CM: FromIONContactData>(chars: Seq<char>, toks: Seq<PlanToken>) -> bool {
    &&& ion_lines_ok(chars, toks, 0)
    &&& ion_convertible::<CM>(ion_emit(ion_read(chars, toks).1, ion_read(chars, toks).2, 0).0)
}

/// `plan` holds the nodes named `names`, numbered in order, and the contacts made from
/// `emitted`, in order.
pub open spec fn ion_plan_ok<CM: FromIONContactData>(
    names: Seq<Seq<char>>,
    emitted: Seq<IONContactData>,
    plan: ContactPlan<NoManagement, CM>,
) -> bool {
    &&& plan.realnodes@.len() == names.len()
    &&& forall|k: int|
        0 <= k < names.len() ==> (#[trigger] plan.realnodes@[k] matches RealNode::Inode(n) && n.info.id == NodeID(
            k as usize,
        ) && n.info.name.name@ == names[k] && !n.info.excluded)
    &&& plan.vnodes@.len() == 0
    &&& plan.contacts@.len() == emitted.len()
    &&& forall|k: int| 0 <= k < emitted.len() ==> ion_contact(emitted[k], #[trigger] plan.contacts@[k])
}

/// The outcome of reading an ION plan that can be read.
pub open spec fn ion_outcome<CM: FromIONContactData>(
    chars: Seq<char>,
    toks: Seq<PlanToken>,
    r: Result<ContactPlan<NoManagement, CM>, ASABRError>,
) -> bool {
    let st = ion_read(chars, toks);
    let e = ion_emit(st.1, st.2, 0);
    if e.1 {
        r == Err::<ContactPlan<NoManagement, CM>, ASABRError>(ASABRError::ContactPlanError(EMANY_RANGES))
    } else if e.0.len() != st.1.len() {
        r == Err::<ContactPlan<NoManagement, CM>, ASABRError>(ASABRError::ContactPlanError(ENO_RANGE))
    } else {
        r matches Ok(plan) && ion_plan_ok(st.0, e.0, plan)
    }
}

proof fn lemma_insert_by_start(s: Seq<IONContactData>, x: IONContactData, p: int)
    requires
        0 <= p <= s.len(),
        forall|q: int| p <= q < s.len() ==> (#[trigger] s[q]).tx_start > x.tx_start,
        p == 0 || s[p - 1].tx_start <= x.tx_start,
    ensures
        insert_by_start(s, x) == s.insert(p, x),
    decreases s.len(),
{
    if s.len() == 0 {
        assert(s.insert(p, x) =~= seq![x]);
    } else if s.last().tx_start <= x.tx_start {
        assert(p == s.len());
        assert(s.insert(p, x) =~= s.push(x));
    } else {
        assert(p < s.len());
        lemma_insert_by_start(s.drop_last(), x, p);
        assert(s.drop_last().insert(p, x).push(s.last()) =~= s.insert(p, x));
    }
}

/// Inserts `x` among contacts ordered by start, after those that start no later than it.
fn insert_contact(g: &mut Vec<IONContactData>, x: IONContactData)
    ensures
        final(g)@ == insert_by_start(old(g)@, x),
{
    let mut p = g.len();
    while p > 0 && g[p - 1].tx_start > x.tx_start
        invariant
            p <= g@.len(),
            g@ == old(g)@,
            forall|q: int| p <= q < g@.len() ==> (#[trigger] g@[q]).tx_start > x.tx_start,
        decreases p,
    {
        p = p - 1;
    }
    proof {
        lemma_insert_by_start(g@, x, p as int);
    }
    g.insert(p, x);
}

/// The contacts between the nodes of `r`, ordered by start.
fn build_group(cs: &Vec<IONContactData>, r: &IONRangeData) -> (g: Vec<IONContactData>)
    ensures
        g@ == group(cs@, *r),
{
    let mut g: Vec<IONContactData> = Vec::new();
    let mut k: usize = 0;
    while k < cs.len()
        invariant
            k <= cs@.len(),
            g@ == group(cs@.take(k as int), *r),
        decreases cs@.len() - k,
    {
        proof {
            assert(cs@.take(k + 1).drop_last() =~= cs@.take(k as int));
        }
        let c = cs[k];
        if c.tx_node_id.0 == r.tx_node_id.0 && c.rx_node_id.0 == r.rx_node_id.0 {
            insert_contact(&mut g, c);
        }
        k = k + 1;
    }
    assert(cs@.take(cs@.len() as int) =~= cs@);
    g
}

proof fn lemma_covered_prefix(g: Seq<IONContactData>, r: IONRangeData, k: int)
    requires
        0 <= k <= g.len(),
        forall|q: int| 0 <= q < k ==> covers(r, #[trigger] g[q]),
    ensures
        covered_prefix(g, r, 0) == covered_prefix(g, r, k),
        covered_prefix(g, r, k) >= k,
    decreases k,
{
    if k > 0 {
        lemma_covered_prefix(g, r, k - 1);
    }
    lemma_covered_prefix_ge(g, r, k);
}

proof fn lemma_covered_prefix_ge(g: Seq<IONContactData>, r: IONRangeData, k: int)
    requires
        0 <= k <= g.len(),
    ensures
        k <= covered_prefix(g, r, k) <= g.len(),
    decreases g.len() - k,
{
    if k < g.len() && covers(r, g[k]) {
        lemma_covered_prefix_ge(g, r, k + 1);
    }
}

/// Gives the contacts their delays and makes the plan; `None` when a contact that gets a
/// delay cannot be made into a contact of the plan.
fn assemble<CM: FromIONContactData>(
    text: &str,
    chars: &Vec<char>,
    names: &Vec<PlanToken>,
    contacts: &Vec<IONContactData>,
    ranges: &Vec<IONRangeData>,
) -> (r: Option<Result<ContactPlan<NoManagement, CM>, ASABRError>>)
    requires
        chars@ == text@,
        forall|k: int| 0 <= k < names@.len() ==> (#[trigger] names@[k]).start <= names@[k].end <= chars@.len(),
    ensures
        ({
            let e = ion_emit(contacts@, ranges@, 0);
            &&& r is Some <==> ion_convertible::<CM>(e.0)
            &&& r matches Some(res) ==> if e.1 {
                res == Err::<ContactPlan<NoManagement, CM>, ASABRError>(ASABRError::ContactPlanError(EMANY_RANGES))
            } else if e.0.len() != contacts@.len() {
                res == Err::<ContactPlan<NoManagement, CM>, ASABRError>(ASABRError::ContactPlanError(ENO_RANGE))
            } else {
                res matches Ok(plan) && ion_plan_ok(names_of(chars@, names@), e.0, plan)
            }
        }),
{
    let ghost cs = contacts@;
    let ghost rs = ranges@;
    let ghost e0 = ion_emit(cs, rs, 0);
    let ghost mut done: Seq<IONContactData> = seq![];
    let mut out: Vec<(Contact<CM>, usize, usize)> = Vec::new();
    let mut k: usize = 0;
    while k < ranges.len()
        invariant
            cs == contacts@,
            rs == ranges@,
            e0 == ion_emit(cs, rs, 0),
            k <= rs.len(),
            e0 == (done + ion_emit(cs, rs, k as int).0, ion_emit(cs, rs, k as int).1),
            out@.len() == done.len(),
            forall|q: int| 0 <= q < done.len() ==> ion_contact(done[q], #[trigger] out@[q]),
            forall|q: int|
                0 <= q < done.len() ==> (#[trigger] done[q]).tx_start < done[q].tx_end && CM::ion_ok(done[q]),
        decreases rs.len() - k,
    {
        let r = ranges[k];
        let g = build_group(contacts, &r);
        let ghost before = done;
        let ghost p = covered_prefix(g@, r, 0);
        let ghost rest = ion_emit(cs, rs, k + 1);
        proof {
            lemma_covered_prefix_ge(g@, r, 0);
        }
        let mut m: usize = 0;
        while m < g.len()
            invariant
                cs == contacts@,
                rs == ranges@,
                e0 == ion_emit(cs, rs, 0),
                k < rs.len(),
                r == rs[k as int],
                g@ == group(cs, r),
                p == covered_prefix(g@, r, 0),
                0 <= p <= g@.len(),
                rest == ion_emit(cs, rs, k + 1),
                e0 == (before + ion_emit(cs, rs, k as int).0, ion_emit(cs, rs, k as int).1),
                m <= g@.len(),
                forall|q: int| 0 <= q < m ==> covers(r, #[trigger] g@[q]),
                done == before + with_delays(g@.take(m as int), r.delay),
                out@.len() == done.len(),
                forall|q: int| 0 <= q < done.len() ==> ion_contact(done[q], #[trigger] out@[q]),
                forall|q: int|
                    0 <= q < done.len() ==> (#[trigger] done[q]).tx_start < done[q].tx_end && CM::ion_ok(done[q]),
            decreases g@.len() - m,
        {
            let c = g[m];
            proof {
                lemma_covered_prefix(g@, r, m as int);
            }
            if !(r.tx_start <= c.tx_start && c.tx_end <= r.tx_end) {
                proof {
                    assert(p == m);
                    assert(ion_emit(cs, rs, k as int) == (with_delays(g@.take(p), r.delay), true));
                    assert(e0.0 =~= done);
                }
                return Some(Err(ASABRError::ContactPlanError(EMANY_RANGES)));
            }
            let d = IONContactData {
                tx_start: c.tx_start,
                tx_end: c.tx_end,
                tx_node_id: c.tx_node_id,
                rx_node_id: c.rx_node_id,
                data_rate: c.data_rate,
                delay: r.delay,
            };
            proof {
                lemma_covered_prefix_ge(g@, r, m + 1);
                assert(m < p);
                let here = with_delays(g@.take(p), r.delay);
                assert(here[m as int] == d);
                if p < g@.len() {
                    assert(ion_emit(cs, rs, k as int).0 == here);
                } else {
                    assert(ion_emit(cs, rs, k as int).0 == here + rest.0);
                }
                assert(ion_emit(cs, rs, k as int).0[m as int] == d);
                assert(e0.0[done.len() as int] == d);
            }
            match ion_convert::<CM>(&d) {
                Some(t) => {
                    out.push(t);
                },
                None => {
                    proof {
                        assert(!(e0.0[done.len() as int].tx_start < e0.0[done.len() as int].tx_end && CM::ion_ok(
                            e0.0[done.len() as int],
                        )));
                    }
                    return None;
                },
            }
            proof {
                assert(with_delays(g@.take(m + 1), r.delay) =~= with_delays(g@.take(m as int), r.delay).push(d));
                done = done.push(d);
            }
            m = m + 1;
        }
        proof {
            lemma_covered_prefix(g@, r, g@.len() as int);
            assert(p == g@.len());
            assert(g@.take(p) =~= g@);
            assert(ion_emit(cs, rs, k as int) == (with_delays(g@, r.delay) + rest.0, rest.1));
            assert(g@.take(m as int) =~= g@);
            assert(e0.0 =~= done + rest.0);
        }
        k = k + 1;
    }
    proof {
        assert(e0.0 =~= done);
    }
    if out.len() != contacts.len() {
        return Some(Err(ASABRError::ContactPlanError(ENO_RANGE)));
    }
    let mut nodes: Vec<RealNode<NoManagement>> = Vec::new();
    let mut i: usize = 0;
    while i < names.len()
        invariant
            chars@ == text@,
            forall|q: int| 0 <= q < names@.len() ==> (#[trigger] names@[q]).start <= names@[q].end <= chars@.len(),
            i <= names@.len(),
            nodes@.len() == i,
            forall|q: int|
                0 <= q < i ==> (#[trigger] nodes@[q] matches RealNode::Inode(n) && n.info.id == NodeID(q as usize)
                    && n.info.name.name@ == names_of(chars@, names@)[q] && !n.info.excluded),
        decreases names@.len() - i,
    {
        let t = names[i];
        let name = NodeName::new(text.substring_char(t.start, t.end));
        let info = NodeInfo::new(NodeID(i), name);
        match Node::try_new(info, NoManagement::new()) {
            Some(n) => {
                nodes.push(RealNode::Inode(n));
            },
            None => {
                return None;
            },
        }
        i = i + 1;
    }
    Some(Ok(ContactPlan::new(nodes, Vec::new(), out)))
}

/// Entry point for reading contact plans written in the ION format.
pub struct IONContactPlan {}

impl IONContactPlan {
    /// Reads an ION contact plan, or gives `None` where the plan cannot be read: a line
    /// starting with `a` has no second word, a contact or range line lacks one of its seven
    /// words or a number where one goes, or a contact that gets a delay is refused by its
    /// manager or has an empty window.
    pub fn try_parse<CM: FromIONContactData>(text: &str) -> (r: Option<Result<ContactPlan<NoManagement, CM>, ASABRError>>)
        requires
            text@.len() < usize::MAX,
        ensures
            exists|toks: Seq<PlanToken>|
                {
                    &&& tokens_of(text@, toks)
                    &&& (r is Some <==> ion_text_ok::<CM>(text@, toks))
                    &&& r matches Some(res) ==> ion_outcome::<CM>(text@, toks, res)
                },
    {
        let chars = text_chars(text);
        let toks = tokenize(&chars);
        proof {
            assert forall|i: int| 0 <= i < toks@.len() implies (#[trigger] toks@[i]).start <= toks@[i].end <= chars@.len() by {
                assert(crate::contact_plan::lexer::token_at(chars@, toks@[i]));
            }
        }
        match scan_ion(&chars, &toks) {
            None => None,
            Some((names, contacts, ranges)) => assemble::<CM>(text, &chars, &names, &contacts, &ranges),
        }
    }

    /// Reads an ION contact plan that can be read (see `try_parse`).
    pub fn parse<CM: FromIONContactData>(text: &str) -> (r: Result<ContactPlan<NoManagement, CM>, ASABRError>)
        requires
            text@.len() < usize::MAX,
            forall|toks: Seq<PlanToken>| #[trigger] tokens_of(text@, toks) ==> ion_text_ok::<CM>(text@, toks),
        ensures
            exists|toks: Seq<PlanToken>| tokens_of(text@, toks) && ion_outcome::<CM>(text@, toks, r),
    {
        match Self::try_parse::<CM>(text) {
            Some(r) => r,
            None => Err(ASABRError::ContactPlanError(ENO_RANGE)),
        }
    }
}

} // verus!
