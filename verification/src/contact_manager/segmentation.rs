//! Segmented contact managers: contacts whose rate and delay vary over time, described by
//! lists of contiguous segments.

use vstd::prelude::*;

use crate::types::{date_ok, DataRate, Date, Duration, TimeInterval, DATE_BOUND};

pub mod pseg;
pub mod seg;

verus! {

/// A time interval `[start, end]` together with a value (a rate, a delay, a priority...).
#[derive(Debug, Clone, Copy, PartialEq, Eq)]
pub struct Segment<T> {
    /// The start time of the segment.
    pub start: Date,
    /// The end time of the segment.
    pub end: Date,
    /// The value attached to the interval.
    pub val: T,
}

/// The tokens naming the two lists of a segmented contact in a contact plan.
#[derive(Clone, Copy, Debug, PartialEq, Eq, Structural)]
pub enum Token {
    /// Data-rate section.
    Rate,
    /// Delay section.
    Delay,
}

impl Token {
    /// Recognizes a section keyword.
    pub fn try_from_str(value: &str) -> (r: Option<Token>)
        ensures
            r == (if value@ == "rate"@ {
                Some(Token::Rate)
            } else if value@ == "delay"@ {
                Some(Token::Delay)
            } else {
                None::<Token>
            }),
    {
        if crate::contact_plan::str_eq(value, "rate") {
            Some(Token::Rate)
        } else if crate::contact_plan::str_eq(value, "delay") {
            Some(Token::Delay)
        } else {
            None
        }
    }
}

/// Segmentation managers that can be made from their rate and delay segments alone, so that
/// generic code can build either kind.
pub trait BaseSegmentationManager: Sized {
    /// `m` is the manager made from these rate and delay segments.
    spec fn made_from(rates: Seq<Segment<DataRate>>, delays: Seq<Segment<Duration>>, m: Self) -> bool;

    /// Creates a manager from its rate and delay segments.
    fn new(rate_intervals: Vec<Segment<DataRate>>, delay_intervals: Vec<Segment<Duration>>) -> (r: Self)
        ensures
            Self::made_from(rate_intervals@, delay_intervals@, r),
    ;
}

/// The segments start at `from`, follow each other without gap and end at `to`, and none ends
/// before it starts, so that none overlaps another.
pub open spec fn contiguous<T>(s: Seq<Segment<T>>, from: int, to: int) -> bool {
    &&& s.len() > 0
    &&& s[0].start == from
    &&& forall|i: int| 0 <= i < s.len() - 1 ==> #[trigger] s[i].end == s[i + 1].start
    &&& s[s.len() - 1].end == to
    &&& forall|i: int| #![trigger s[i]] 0 <= i < s.len() ==> s[i].start <= s[i].end
}

/// Every segment starts before it ends and stays within the supported date range.
pub open spec fn segments_in_range<T>(s: Seq<Segment<T>>) -> bool {
    forall|i: int|
        #![trigger s[i]]
        0 <= i < s.len() ==> {
            &&& s[i].start <= s[i].end
            &&& date_ok(s[i].start as int)
            &&& date_ok(s[i].end as int)
        }
}

/// Every rate is positive.
pub open spec fn rates_positive(s: Seq<Segment<DataRate>>) -> bool {
    forall|i: int| 0 <= i < s.len() ==> #[trigger] s[i].val >= 1
}

/// Every delay stays within the supported range.
pub open spec fn delays_in_range(s: Seq<Segment<Duration>>) -> bool {
    forall|i: int| 0 <= i < s.len() ==> date_ok(#[trigger] s[i].val as int)
}

/// Rate and delay segments that are valid for the contact window `[from, to]`.
pub open spec fn valid_profile(
    rates: Seq<Segment<DataRate>>,
    delays: Seq<Segment<Duration>>,
    from: int,
    to: int,
) -> bool {
    &&& contiguous(rates, from, to)
    &&& contiguous(delays, from, to)
    &&& segments_in_range(rates)
    &&& segments_in_range(delays)
    &&& rates_positive(rates)
    &&& delays_in_range(delays)
}

/// The first index, from `from` on, of a segment that ends at or after `t`
/// (the length of `s` when there is none).
pub open spec fn first_ending_after(s: Seq<Segment<Duration>>, t: int, from: int) -> int
    decreases s.len() - from,
{
    if from >= s.len() || from < 0 {
        s.len() as int
    } else if t <= s[from].end {
        from
    } else {
        first_ending_after(s, t, from + 1)
    }
}

/// The delays that apply to the start and to the end of a transmission;
/// `Duration::MAX` when no segment applies.
pub open spec fn spec_get_delays(s: Seq<Segment<Duration>>, tx_start: int, tx_end: int) -> (
    Duration,
    Duration,
) {
    let i = first_ending_after(s, tx_start, 0);
    let j = first_ending_after(s, tx_end, i);
    (
        if i < s.len() {
            s[i].val
        } else {
            i64::MAX
        },
        if j < s.len() {
            s[j].val
        } else {
            i64::MAX
        },
    )
}

/// When a transmission of `volume`, starting at `at`, ends, using the rate segments from
/// index `i` on, without going past `deadline`.
pub open spec fn spec_tx_end_from(
    rates: Seq<Segment<DataRate>>,
    i: int,
    at: int,
    volume: int,
    deadline: int,
) -> Option<int>
    decreases rates.len() - i,
{
    if i >= rates.len() || i < 0 {
        None
    } else if rates[i].end < at {
        spec_tx_end_from(rates, i + 1, at, volume, deadline)
    } else {
        let tx_end = at + volume / (rates[i].val as int);
        if tx_end > deadline {
            None
        } else if tx_end > rates[i].end {
            spec_tx_end_from(
                rates,
                i + 1,
                rates[i].end as int,
                volume - rates[i].val * (rates[i].end - at),
                deadline,
            )
        } else {
            Some(tx_end)
        }
    }
}

/// When a transmission of `volume` starting at `at` ends, without going past `deadline`.
pub open spec fn spec_get_tx_end(
    rates: Seq<Segment<DataRate>>,
    at: int,
    volume: int,
    deadline: int,
) -> Option<int> {
    spec_tx_end_from(rates, 0, at, volume, deadline)
}

proof fn lemma_first_ending_found(s: Seq<Segment<Duration>>, t: int, from: int)
    requires
        s.len() > 0,
        0 <= from < s.len(),
        t <= s[s.len() - 1].end,
    ensures
        from <= first_ending_after(s, t, from) < s.len(),
    decreases s.len() - from,
{
    if t > s[from].end {
        lemma_first_ending_found(s, t, from + 1);
    }
}

/// Under a valid delay profile, both delays of a transmission inside the contact window are
/// found in the profile, and so stay within the supported range.
pub proof fn lemma_delays_found(
    s: Seq<Segment<Duration>>,
    from: int,
    to: int,
    tx_start: int,
    tx_end: int,
)
    requires
        contiguous(s, from, to),
        delays_in_range(s),
        tx_start <= to,
        tx_end <= to,
    ensures
        date_ok(spec_get_delays(s, tx_start, tx_end).0 as int),
        date_ok(spec_get_delays(s, tx_start, tx_end).1 as int),
{
    lemma_first_ending_found(s, tx_start, 0);
    let i = first_ending_after(s, tx_start, 0);
    lemma_first_ending_found(s, tx_end, i);
}

proof fn lemma_first_ending_is(s: Seq<Segment<Duration>>, t: int, from: int, k: int)
    requires
        0 <= from <= k < s.len(),
        t <= s[k].end,
        forall|j: int| from <= j < k ==> #[trigger] s[j].end < t,
    ensures
        first_ending_after(s, t, from) == k,
    decreases k - from,
{
    if from < k {
        lemma_first_ending_is(s, t, from + 1, k);
    }
}

proof fn lemma_first_ending_none(s: Seq<Segment<Duration>>, t: int, from: int)
    requires
        0 <= from,
        forall|j: int| from <= j < s.len() ==> #[trigger] s[j].end < t,
    ensures
        first_ending_after(s, t, from) == s.len(),
    decreases s.len() - from,
{
    if from < s.len() {
        lemma_first_ending_none(s, t, from + 1);
    }
}

/// The delays of a transmission from `tx_start` to `tx_end` (no later than it) are those of the
/// delay segments in force at each end: the start takes the value of the first segment that ends
/// at or after `tx_start`, the end that of the first segment that ends at or after `tx_end`,
/// whatever the start's segment is; an end that no segment reaches gets `i64::MAX`.
pub proof fn lemma_delays_of_each_end(s: Seq<Segment<Duration>>, tx_start: int, tx_end: int)
    requires
        tx_start <= tx_end,
    ensures
        forall|k: int|
            0 <= k < s.len() && tx_start <= #[trigger] s[k].end && (forall|j: int| 0 <= j < k ==> s[j].end < tx_start)
                ==> spec_get_delays(s, tx_start, tx_end).0 == s[k].val,
        forall|k: int|
            0 <= k < s.len() && tx_end <= #[trigger] s[k].end && (forall|j: int| 0 <= j < k ==> s[j].end < tx_end)
                ==> spec_get_delays(s, tx_start, tx_end).1 == s[k].val,
        (forall|j: int| 0 <= j < s.len() ==> #[trigger] s[j].end < tx_start) ==> spec_get_delays(s, tx_start, tx_end).0
            == i64::MAX,
        (forall|j: int| 0 <= j < s.len() ==> #[trigger] s[j].end < tx_end) ==> spec_get_delays(s, tx_start, tx_end).1
            == i64::MAX,
{
    let i = first_ending_after(s, tx_start, 0);
    lemma_first_ending_ge(s, tx_start, 0);
    assert forall|k: int|
        0 <= k < s.len() && tx_start <= #[trigger] s[k].end && (forall|j: int| 0 <= j < k ==> s[j].end < tx_start)
            implies spec_get_delays(s, tx_start, tx_end).0 == s[k].val by {
        lemma_first_ending_is(s, tx_start, 0, k);
    }
    assert forall|k: int|
        0 <= k < s.len() && tx_end <= #[trigger] s[k].end && (forall|j: int| 0 <= j < k ==> s[j].end < tx_end)
            implies spec_get_delays(s, tx_start, tx_end).1 == s[k].val by {
        lemma_first_ending_before(s, tx_start, 0);
        assert(i <= k) by {
            if k < i {
                assert(s[k].end < tx_start);
            }
        }
        lemma_first_ending_is(s, tx_end, i, k);
    }
    if forall|j: int| 0 <= j < s.len() ==> #[trigger] s[j].end < tx_start {
        lemma_first_ending_none(s, tx_start, 0);
    }
    if forall|j: int| 0 <= j < s.len() ==> #[trigger] s[j].end < tx_end {
        if i < s.len() {
            lemma_first_ending_none(s, tx_end, i);
        }
    }
}

proof fn lemma_first_ending_ge(s: Seq<Segment<Duration>>, t: int, from: int)
    requires
        0 <= from,
    ensures
        from <= first_ending_after(s, t, from) <= s.len() || (from > s.len() && first_ending_after(s, t, from) == s.len()),
    decreases s.len() - from,
{
    if from < s.len() && t > s[from].end {
        lemma_first_ending_ge(s, t, from + 1);
    }
}

proof fn lemma_first_ending_before(s: Seq<Segment<Duration>>, t: int, from: int)
    requires
        0 <= from,
    ensures
        forall|j: int| from <= j < first_ending_after(s, t, from) && j < s.len() ==> #[trigger] s[j].end < t,
    decreases s.len() - from,
{
    if from < s.len() && t > s[from].end {
        lemma_first_ending_before(s, t, from + 1);
    }
}

/// Determines the delays that apply to the start and to the end of a transmission.
pub fn get_delays(tx_start: Date, tx_end: Date, delay_intervals: &Vec<Segment<Duration>>) -> (r: (
    Duration,
    Duration,
))
    ensures
        r == spec_get_delays(delay_intervals@, tx_start as int, tx_end as int),
{
    let mut i: usize = 0;
    while i < delay_intervals.len() && tx_start > delay_intervals[i].end
        invariant
            i <= delay_intervals@.len(),
            first_ending_after(delay_intervals@, tx_start as int, 0) == first_ending_after(
                delay_intervals@,
                tx_start as int,
                i as int,
            ),
        decreases delay_intervals@.len() - i,
    {
        i = i + 1;
    }
    let start_delay = if i < delay_intervals.len() {
        delay_intervals[i].val
    } else {
        i64::MAX
    };
    let mut j: usize = i;
    while j < delay_intervals.len() && tx_end > delay_intervals[j].end
        invariant
            i <= j <= delay_intervals@.len(),
            first_ending_after(delay_intervals@, tx_end as int, i as int) == first_ending_after(
                delay_intervals@,
                tx_end as int,
                j as int,
            ),
        decreases delay_intervals@.len() - j,
    {
        j = j + 1;
    }
    if j < delay_intervals.len() {
        (start_delay, delay_intervals[j].val)
    } else {
        (start_delay, i64::MAX)
    }
}

proof fn lemma_tx_end_bounds(rates: Seq<Segment<DataRate>>, i: int, at: int, volume: int, deadline: int)
    requires
        rates_positive(rates),
        0 <= volume,
    ensures
        spec_tx_end_from(rates, i, at, volume, deadline) matches Some(e) ==> at <= e <= deadline,
    decreases rates.len() - i,
{
    if i >= rates.len() || i < 0 {
    } else if rates[i].end < at {
        lemma_tx_end_bounds(rates, i + 1, at, volume, deadline);
    } else {
        let r = rates[i].val as int;
        assert(0 <= volume / r) by (nonlinear_arith)
            requires
                0 <= volume,
                1 <= r,
        ;
        let tx_end = at + volume / r;
        if tx_end > deadline {
        } else if tx_end > rates[i].end {
            let len = rates[i].end - at;
            assert(volume - r * len >= 0) by (nonlinear_arith)
                requires
                    0 <= len,
                    1 <= r,
                    at + volume / r > at + len,
                    0 <= volume,
            ;
            lemma_tx_end_bounds(rates, i + 1, rates[i].end as int, volume - r * len, deadline);
        } else {
        }
    }
}

/// A transmission that ends ends between its start and the deadline.
pub proof fn lemma_get_tx_end_bounds(
    rates: Seq<Segment<DataRate>>,
    at: int,
    volume: int,
    deadline: int,
)
    requires
        rates_positive(rates),
        0 <= volume,
    ensures
        spec_get_tx_end(rates, at, volume, deadline) matches Some(e) ==> at <= e <= deadline,
{
    lemma_tx_end_bounds(rates, 0, at, volume, deadline);
}

/// Computes when a transmission of `volume`, starting at `at_time`, ends, using the rate
/// segments; `None` if it cannot end by `deadline`.
pub fn get_tx_end(
    rate_intervals: &Vec<Segment<DataRate>>,
    at_time: Date,
    volume: i64,
    deadline: Date,
) -> (r: Option<Date>)
    requires
        rates_positive(rate_intervals@),
        segments_in_range(rate_intervals@),
        0 <= volume <= 0x4000_0000_0000_0000,
        date_ok(deadline as int),
        at_time <= deadline,
        -DATE_BOUND <= at_time,
    ensures
        r matches Some(e) ==> spec_get_tx_end(rate_intervals@, at_time as int, volume as int, deadline as int) == Some(e as int),
        r is None ==> spec_get_tx_end(rate_intervals@, at_time as int, volume as int, deadline as int) is None,
{
    let ghost rates = rate_intervals@;
    let ghost at0 = at_time as int;
    let ghost vol0 = volume as int;
    let mut at = at_time;
    let mut vol = volume;
    let mut i: usize = 0;
    while i < rate_intervals.len()
        invariant
            rates == rate_intervals@,
            at0 == at_time as int,
            vol0 == volume as int,
            rates_positive(rates),
            segments_in_range(rates),
            0 <= vol <= 0x4000_0000_0000_0000,
            date_ok(deadline as int),
            -DATE_BOUND <= at <= deadline,
            i <= rates.len(),
            spec_get_tx_end(rates, at0, vol0, deadline as int) == spec_tx_end_from(
                rates,
                i as int,
                at as int,
                vol as int,
                deadline as int,
            ),
        decreases rates.len() - i,
    {
        let seg = rate_intervals[i];
        assert(seg == rates[i as int]);
        assert(rates[i as int].val >= 1);
        assert(rates[i as int].start <= rates[i as int].end);
        if seg.end < at {
            i = i + 1;
        } else {
            let r = seg.val;
            proof {
                assert(0 <= vol / r <= vol) by (nonlinear_arith)
                    requires
                        0 <= vol,
                        1 <= r,
                ;
            }
            let tx_end = at + vol / r;
            if tx_end > deadline {
                assert(spec_tx_end_from(rates, i as int, at as int, vol as int, deadline as int) is None);
                return None;
            }
            if tx_end > seg.end {
                let len = seg.end - at;
                proof {
                    assert(0 <= r * len <= vol) by (nonlinear_arith)
                        requires
                            0 <= len,
                            1 <= r,
                            vol / r > len,
                            0 <= vol,
                    ;
                }
                vol = vol - r * len;
                at = seg.end;
                i = i + 1;
            } else {
                assert(spec_tx_end_from(rates, i as int, at as int, vol as int, deadline as int) == Some(tx_end as int));
                return Some(tx_end);
            }
        }
    }
    None
}

/// The first time of a profile.
pub open spec fn profile_start(rates: Seq<Segment<DataRate>>) -> int {
    rates[0].start as int
}

/// The last time of a profile.
pub open spec fn profile_end(rates: Seq<Segment<DataRate>>) -> int {
    rates[rates.len() - 1].end as int
}

/// The volume that the first `n` rate segments can carry.
pub open spec fn profile_volume(rates: Seq<Segment<DataRate>>, n: int) -> int
    decreases n,
{
    if n <= 0 {
        0
    } else {
        profile_volume(rates, n - 1) + (rates[n - 1].end - rates[n - 1].start) * rates[n - 1].val
    }
}

/// The largest volume a valid profile can carry.
pub open spec fn profile_volume_bound() -> int {
    0x4000_0000_0000_0000_0000_0000_0000_0000
}

/// Checks that the segments start at `from`, follow each other and end at `to`, and that
/// each of them lies within the supported date range.
fn check_contiguous<T>(s: &Vec<Segment<T>>, from: Date, to: Date) -> (r: bool)
    ensures
        r == contiguous(s@, from as int, to as int),
{
    let mut time = from;
    let mut i: usize = 0;
    while i < s.len()
        invariant
            i <= s@.len(),
            i == 0 ==> time == from,
            i > 0 ==> time == s@[i - 1].end,
            i > 0 ==> s@[0].start == from,
            forall|k: int| 0 <= k < i - 1 ==> #[trigger] s@[k].end == s@[k + 1].start,
            forall|k: int| #![trigger s@[k]] 0 <= k < i ==> s@[k].start <= s@[k].end,
        decreases s@.len() - i,
    {
        let seg = &s[i];
        if seg.start != time || seg.start > seg.end {
            return false;
        }
        time = seg.end;
        i = i + 1;
    }
    if s.len() == 0 {
        return false;
    }
    time == to
}

/// Checks that every segment starts before it ends, within the supported date range.
fn check_in_range<T>(s: &Vec<Segment<T>>) -> (r: bool)
    ensures
        r == segments_in_range(s@),
{
    let mut i: usize = 0;
    while i < s.len()
        invariant
            i <= s@.len(),
            forall|k: int|
                0 <= k < i ==> {
                    &&& #[trigger] s@[k].start <= s@[k].end
                    &&& date_ok(s@[k].start as int)
                    &&& date_ok(s@[k].end as int)
                },
        decreases s@.len() - i,
    {
        let seg = &s[i];
        if seg.start > seg.end || seg.start < -DATE_BOUND || seg.start > DATE_BOUND || seg.end < -DATE_BOUND
            || seg.end > DATE_BOUND {
            return false;
        }
        i = i + 1;
    }
    true
}

/// Checks that the segments stay within what the managers' arithmetic supports: each starts
/// before it ends within the supported date range, every rate is positive and every delay is
/// within range. A rate of zero would make a transmission time divide by zero.
pub fn profile_supported(rate_intervals: &Vec<Segment<DataRate>>, delay_intervals: &Vec<Segment<Duration>>) -> (r:
    bool)
    ensures
        r == (segments_in_range(rate_intervals@) && segments_in_range(delay_intervals@) && rates_positive(
            rate_intervals@,
        ) && delays_in_range(delay_intervals@)),
{
    check_in_range(rate_intervals) && check_in_range(delay_intervals) && check_rates(rate_intervals) && check_delays(
        delay_intervals,
    )
}

/// Checks that every rate is positive.
fn check_rates(s: &Vec<Segment<DataRate>>) -> (r: bool)
    ensures
        r == rates_positive(s@),
{
    let mut i: usize = 0;
    while i < s.len()
        invariant
            i <= s@.len(),
            forall|k: int| 0 <= k < i ==> #[trigger] s@[k].val >= 1,
        decreases s@.len() - i,
    {
        if s[i].val < 1 {
            return false;
        }
        i = i + 1;
    }
    true
}

/// Checks that every delay is within the supported range.
fn check_delays(s: &Vec<Segment<Duration>>) -> (r: bool)
    ensures
        r == delays_in_range(s@),
{
    let mut i: usize = 0;
    while i < s.len()
        invariant
            i <= s@.len(),
            forall|k: int| 0 <= k < i ==> date_ok(#[trigger] s@[k].val as int),
        decreases s@.len() - i,
    {
        if s[i].val < -DATE_BOUND || s[i].val > DATE_BOUND {
            return false;
        }
        i = i + 1;
    }
    true
}

/// Validates the rate and delay segments against the contact window, and on success
/// initializes `other_intervals` with one segment covering the whole window.
///
/// Succeeds exactly when both lists cover the window contiguously (no gap, no overlap, from
/// the contact's start to its end) and `other_intervals` is empty.
pub fn try_init<T>(
    rate_intervals: &Vec<Segment<DataRate>>,
    delay_intervals: &Vec<Segment<Duration>>,
    other_intervals: &mut Vec<Segment<T>>,
    default: T,
    info: &crate::contact::ContactInfo,
) -> (r: bool)
    ensures
        r == (contiguous(rate_intervals@, info.start as int, info.end as int) && contiguous(
            delay_intervals@,
            info.start as int,
            info.end as int,
        ) && old(other_intervals)@.len() == 0),
        r ==> final(other_intervals)@ == seq![Segment { start: info.start, end: info.end, val: default }],
        !r ==> final(other_intervals)@ == old(other_intervals)@,
{
    if !check_contiguous(rate_intervals, info.start, info.end) {
        return false;
    }
    if !check_contiguous(delay_intervals, info.start, info.end) {
        return false;
    }
    if other_intervals.len() != 0 {
        return false;
    }
    other_intervals.push(Segment { start: info.start, end: info.end, val: default });
    true
}

proof fn lemma_profile_volume_step(rates: Seq<Segment<DataRate>>, n: int)
    requires
        0 < n <= rates.len(),
        segments_in_range(rates),
        rates_positive(rates),
        0 <= profile_volume(rates, n - 1) <= (rates[n - 1].start - rates[0].start) * 0x8000_0000_0000_0000,
        rates[0].start <= rates[n - 1].start,
    ensures
        0 <= profile_volume(rates, n) <= (rates[n - 1].end - rates[0].start) * 0x8000_0000_0000_0000,
{
    let len = rates[n - 1].end - rates[n - 1].start;
    let v = rates[n - 1].val as int;
    assert(0 <= len * v <= len * 0x8000_0000_0000_0000) by (nonlinear_arith)
        requires
            0 <= len,
            1 <= v <= 0x8000_0000_0000_0000,
    ;
    let a = rates[n - 1].start - rates[0].start;
    let b = rates[n - 1].end - rates[0].start;
    assert(a * 0x8000_0000_0000_0000 + len * 0x8000_0000_0000_0000 == b * 0x8000_0000_0000_0000)
        by (nonlinear_arith)
        requires
            b == a + len,
    ;
}

/// Computes the volume that a valid rate profile can carry.
pub fn get_profile_volume(rates: &Vec<Segment<DataRate>>) -> (r: i128)
    requires
        rates@.len() > 0,
        contiguous(rates@, profile_start(rates@), profile_end(rates@)),
        segments_in_range(rates@),
        rates_positive(rates@),
    ensures
        r == profile_volume(rates@, rates@.len() as int),
        0 <= r <= profile_volume_bound(),
{
    let mut acc: i128 = 0;
    let mut i: usize = 0;
    while i < rates.len()
        invariant
            i <= rates@.len(),
            rates@.len() > 0,
            contiguous(rates@, profile_start(rates@), profile_end(rates@)),
            segments_in_range(rates@),
            rates_positive(rates@),
            acc == profile_volume(rates@, i as int),
            i < rates@.len() ==> 0 <= acc <= (rates@[i as int].start - rates@[0].start)
                * 0x8000_0000_0000_0000,
            i < rates@.len() ==> rates@[0].start <= rates@[i as int].start,
            i == rates@.len() ==> 0 <= acc <= (rates@[i - 1].end - rates@[0].start)
                * 0x8000_0000_0000_0000,
        decreases rates@.len() - i,
    {
        let seg = rates[i];
        assert(rates@[i as int].start <= rates@[i as int].end);
        assert(rates@[i as int].val >= 1);
        proof {
            lemma_profile_volume_step(rates@, i + 1);
            assert(date_ok(rates@[0].start as int));
            assert(date_ok(rates@[i as int].end as int));
            assert((rates@[i as int].end - rates@[0].start) * 0x8000_0000_0000_0000
                <= 0x4000_0000_0000_0000 * 0x8000_0000_0000_0000) by (nonlinear_arith)
                requires
                    rates@[i as int].end - rates@[0].start <= 0x4000_0000_0000_0000,
            ;
            if i + 1 < rates@.len() {
                assert(rates@[i as int].end == rates@[i + 1].start);
            }
        }
        acc = acc + ((seg.end as i128) - (seg.start as i128)) * (seg.val as i128);
        i = i + 1;
    }
    acc
}

/// In a contiguous list of segments that each start before they end, every segment lies
/// between the first start and the last end.
pub proof fn lemma_contiguous_ordered<T>(s: Seq<Segment<T>>, from: int, to: int)
    requires
        contiguous(s, from, to),
        segments_in_range(s),
    ensures
        from <= to,
        forall|i: int| 0 <= i < s.len() ==> from <= #[trigger] s[i].start && s[i].end <= to,
{
    assert forall|i: int| 0 <= i < s.len() implies from <= #[trigger] s[i].start by {
        lemma_contiguous_lower(s, from, to, i);
    }
    assert forall|i: int| 0 <= i < s.len() implies #[trigger] s[i].end <= to by {
        lemma_contiguous_upper(s, from, to, i);
    }
    assert(s[0].end <= to);
}

proof fn lemma_contiguous_lower<T>(s: Seq<Segment<T>>, from: int, to: int, i: int)
    requires
        contiguous(s, from, to),
        segments_in_range(s),
        0 <= i < s.len(),
    ensures
        from <= s[i].start,
    decreases i,
{
    if i > 0 {
        lemma_contiguous_lower(s, from, to, i - 1);
        assert(s[i - 1].end == s[i].start);
    }
}

proof fn lemma_contiguous_upper<T>(s: Seq<Segment<T>>, from: int, to: int, i: int)
    requires
        contiguous(s, from, to),
        segments_in_range(s),
        0 <= i < s.len(),
    ensures
        s[i].end <= to,
    decreases s.len() - i,
{
    if i < s.len() - 1 {
        lemma_contiguous_upper(s, from, to, i + 1);
        assert(s[i].end == s[i + 1].start);
    }
}

/// A transmission that would start after the deadline never ends in time.
pub proof fn lemma_tx_end_past_deadline(
    rates: Seq<Segment<DataRate>>,
    i: int,
    at: int,
    volume: int,
    deadline: int,
)
    requires
        rates_positive(rates),
        0 <= volume,
        at > deadline,
    ensures
        spec_tx_end_from(rates, i, at, volume, deadline) is None,
    decreases rates.len() - i,
{
    if i >= rates.len() || i < 0 {
    } else if rates[i].end < at {
        lemma_tx_end_past_deadline(rates, i + 1, at, volume, deadline);
    } else {
        let r = rates[i].val as int;
        assert(0 <= volume / r) by (nonlinear_arith)
            requires
                0 <= volume,
                1 <= r,
        ;
    }
}

} // verus!
