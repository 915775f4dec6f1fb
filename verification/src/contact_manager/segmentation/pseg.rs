//! The priority-aware segmentation manager: the contact's time is divided into bookings, each
//! with the priority of the bundle that holds it.

use vstd::prelude::*;

use crate::contact::ContactInfo;
use crate::contact_manager::segmentation::{profile_supported, 
    BaseSegmentationManager,
    contiguous, get_delays, get_profile_volume, get_tx_end, lemma_contiguous_ordered,
    lemma_delays_found, lemma_get_tx_end_bounds, lemma_tx_end_past_deadline, profile_end,
    profile_start, profile_volume, profile_volume_bound, segments_in_range, spec_get_delays,
    spec_get_tx_end, try_init, valid_profile, Segment,
};
use crate::contact_manager::{ContactManager, ContactManagerTxData};
use crate::errors::ASABRError;
use crate::types::{date_ok, Bundle, DataRate, Date, Duration, Priority, TimeInterval};

verus! {

/// The windows of a transmission from `ts` to `te`, with the delays of the profile.
pub open spec fn pseg_tx_data(delays: Seq<Segment<Duration>>, ts: int, te: int) -> ContactManagerTxData {
    let d = spec_get_delays(delays, ts, te);
    ContactManagerTxData {
        tx_window: TimeInterval { start: ts as i64, end: te as i64 },
        rx_window: TimeInterval { start: (ts + d.0) as i64, end: (te + d.1) as i64 },
    }
}

/// The dry run of the priority-aware manager, resumed at booking `i` with the transmission
/// being built from `ts` (and ending at `te`, if its end is known).
pub open spec fn pseg_dry_from(
    b: Seq<Segment<Priority>>,
    rates: Seq<Segment<DataRate>>,
    delays: Seq<Segment<Duration>>,
    deadline: int,
    at: int,
    prio: i8,
    size: int,
    i: int,
    ts: int,
    te_opt: Option<int>,
) -> Option<ContactManagerTxData>
    decreases b.len() - i,
{
    if i >= b.len() || i < 0 {
        None
    } else if b[i].end <= at {
        pseg_dry_from(b, rates, delays, deadline, at, prio, size, i + 1, ts, te_opt)
    } else if prio <= b[i].val {
        pseg_dry_from(b, rates, delays, deadline, at, prio, size, i + 1, ts, None)
    } else {
        match te_opt {
            Some(te) => if te <= b[i].end {
                Some(pseg_tx_data(delays, ts, te))
            } else {
                pseg_dry_from(b, rates, delays, deadline, at, prio, size, i + 1, ts, Some(te))
            },
            None => {
                let ts2 = if b[i].start > at {
                    b[i].start as int
                } else {
                    at
                };
                match spec_get_tx_end(rates, ts2, size, deadline) {
                    Some(te) => if te <= b[i].end {
                        Some(pseg_tx_data(delays, ts2, te))
                    } else {
                        pseg_dry_from(b, rates, delays, deadline, at, prio, size, i + 1, ts2, Some(te))
                    },
                    None => pseg_dry_from(b, rates, delays, deadline, at, prio, size, i + 1, ts2, None),
                }
            },
        }
    }
}

/// The pieces that booking `s` becomes once `[ts, te]` is booked with priority `p`.
pub open spec fn booked_pieces(s: Segment<Priority>, ts: int, te: int, p: Priority) -> Seq<
    Segment<Priority>,
> {
    if s.end <= ts || s.start >= te {
        seq![s]
    } else {
        let left = if s.start < ts {
            seq![Segment { start: s.start, end: ts as i64, val: s.val }]
        } else {
            Seq::<Segment<Priority>>::empty()
        };
        let mid = Segment {
            start: if s.start < ts {
                ts as i64
            } else {
                s.start
            },
            end: if s.end > te {
                te as i64
            } else {
                s.end
            },
            val: p,
        };
        let right = if s.end > te {
            seq![Segment { start: te as i64, end: s.end, val: s.val }]
        } else {
            Seq::<Segment<Priority>>::empty()
        };
        left + seq![mid] + right
    }
}

/// The bookings once `[ts, te]` is booked with priority `p`.
pub open spec fn booked(b: Seq<Segment<Priority>>, ts: int, te: int, p: Priority) -> Seq<
    Segment<Priority>,
>
    decreases b.len(),
{
    if b.len() == 0 {
        Seq::empty()
    } else {
        booked(b.drop_last(), ts, te, p) + booked_pieces(b.last(), ts, te, p)
    }
}

/// A priority-aware segmentation manager. Tracks which priority holds each part of the
/// contact's time.
#[derive(Debug, Clone)]
pub struct PSegmentationManager {
    /// The bookings, each with the priority that holds it (`-1` when free).
    pub booking: Vec<Segment<Priority>>,
    /// The data rate over time.
    pub rate_intervals: Vec<Segment<DataRate>>,
    /// The delay over time.
    pub delay_intervals: Vec<Segment<Duration>>,
    /// The volume the contact could carry at initialization.
    pub original_volume: i128,
}

impl PSegmentationManager {
    /// Creates a priority-aware segmentation manager from its rate and delay segments, with no
    /// booking until it is initialized.
    pub fn new(rate_intervals: Vec<Segment<DataRate>>, delay_intervals: Vec<Segment<Duration>>) -> (r:
        Self)
        ensures
            r.booking@.len() == 0,
            r.rate_intervals@ == rate_intervals@,
            r.delay_intervals@ == delay_intervals@,
            r.original_volume == 0,
    {
        PSegmentationManager {
            booking: Vec::new(),
            rate_intervals,
            delay_intervals,
            original_volume: 0,
        }
    }

    /// The bookings, as `(start, end, priority)` triples.
    pub fn bookings(&self) -> (r: Vec<(Date, Date, Priority)>)
        ensures
            r@.len() == self.booking@.len(),
            forall|i: int|
                0 <= i < r@.len() ==> #[trigger] r@[i] == (
                    self.booking@[i].start,
                    self.booking@[i].end,
                    self.booking@[i].val,
                ),
    {
        let mut r: Vec<(Date, Date, Priority)> = Vec::new();
        let mut i: usize = 0;
        while i < self.booking.len()
            invariant
                i <= self.booking@.len(),
                r@.len() == i,
                forall|k: int|
                    0 <= k < i ==> #[trigger] r@[k] == (
                        self.booking@[k].start,
                        self.booking@[k].end,
                        self.booking@[k].val,
                    ),
            decreases self.booking@.len() - i,
        {
            r.push((self.booking[i].start, self.booking[i].end, self.booking[i].val));
            i = i + 1;
        }
        r
    }

    /// Replaces the bookings, as when loading a saved state. The bookings must cover the
    /// profile of the contact contiguously.
    pub fn set_bookings(&mut self, bookings: Vec<Segment<Priority>>)
        requires
            old(self).wf(),
            contiguous(
                bookings@,
                profile_start(old(self).rate_intervals@),
                profile_end(old(self).rate_intervals@),
            ),
            segments_in_range(bookings@),
        ensures
            final(self).wf(),
            final(self).booking@ == bookings@,
            final(self).rate_intervals@ == old(self).rate_intervals@,
            final(self).delay_intervals@ == old(self).delay_intervals@,
            final(self).original_volume == old(self).original_volume,
    {
        self.booking = bookings;
    }
}

proof fn lemma_contiguous_concat(x: Seq<Segment<Priority>>, y: Seq<Segment<Priority>>, a: int, m: int, c: int)
    requires
        contiguous(x, a, m),
        contiguous(y, m, c),
        segments_in_range(x),
        segments_in_range(y),
    ensures
        contiguous(x + y, a, c),
        segments_in_range(x + y),
{
    let z = x + y;
    assert forall|i: int| 0 <= i < z.len() - 1 implies #[trigger] z[i].end == z[i + 1].start by {
        if i < x.len() - 1 {
            assert(z[i] == x[i] && z[i + 1] == x[i + 1]);
        } else if i == x.len() - 1 {
            assert(z[i] == x[i] && z[i + 1] == y[0]);
        } else {
            assert(z[i] == y[i - x.len()] && z[i + 1] == y[i + 1 - x.len()]);
        }
    }
    assert forall|i: int| 0 <= i < z.len() implies {
        &&& z[i].start <= z[i].end
        &&& date_ok(z[i].start as int)
        &&& date_ok(z[i].end as int)
    } by {
        if i < x.len() {
            assert(z[i] == x[i]);
        } else {
            assert(z[i] == y[i - x.len()]);
        }
    }
}

proof fn lemma_pieces_ok(s: Segment<Priority>, ts: int, te: int, p: Priority)
    requires
        s.start <= s.end,
        date_ok(s.start as int),
        date_ok(s.end as int),
        ts <= te,
        date_ok(ts),
        date_ok(te),
    ensures
        contiguous(booked_pieces(s, ts, te, p), s.start as int, s.end as int),
        segments_in_range(booked_pieces(s, ts, te, p)),
{
    let q = booked_pieces(s, ts, te, p);
    if s.end <= ts || s.start >= te {
        assert(q[0] == s);
    } else {
        let mid = Segment {
            start: if s.start < ts {
                ts as i64
            } else {
                s.start
            },
            end: if s.end > te {
                te as i64
            } else {
                s.end
            },
            val: p,
        };
        let left = if s.start < ts {
            seq![Segment { start: s.start, end: ts as i64, val: s.val }]
        } else {
            Seq::<Segment<Priority>>::empty()
        };
        let right = if s.end > te {
            seq![Segment { start: te as i64, end: s.end, val: s.val }]
        } else {
            Seq::<Segment<Priority>>::empty()
        };
        assert(q == left + seq![mid] + right);
        if s.start < ts {
            assert(contiguous(left, s.start as int, ts));
            assert(segments_in_range(left)) by {
                assert(left[0] == Segment { start: s.start, end: ts as i64, val: s.val });
            }
        }
        assert(contiguous(seq![mid], mid.start as int, mid.end as int));
        assert(segments_in_range(seq![mid])) by {
            assert(seq![mid][0] == mid);
        }
        if s.end > te {
            assert(contiguous(right, te, s.end as int));
            assert(segments_in_range(right)) by {
                assert(right[0] == Segment { start: te as i64, end: s.end, val: s.val });
            }
        }
        if s.start < ts {
            lemma_contiguous_concat(left, seq![mid], s.start as int, ts, mid.end as int);
        } else {
            assert(left + seq![mid] == seq![mid]);
        }
        if s.end > te {
            lemma_contiguous_concat(left + seq![mid], right, s.start as int, te, s.end as int);
        } else {
            assert(left + seq![mid] + right == left + seq![mid]);
        }
    }
}

proof fn lemma_booked_prefix(b: Seq<Segment<Priority>>, n: int, from: int, to: int, ts: int, te: int, p: Priority)
    requires
        contiguous(b, from, to),
        segments_in_range(b),
        1 <= n <= b.len(),
        ts <= te,
        date_ok(ts),
        date_ok(te),
    ensures
        contiguous(booked(b.take(n), ts, te, p), from, b[n - 1].end as int),
        segments_in_range(booked(b.take(n), ts, te, p)),
    decreases n,
{
    let t = b.take(n);
    assert(t.drop_last() == b.take(n - 1));
    assert(t.last() == b[n - 1]);
    assert(b[n - 1].start <= b[n - 1].end);
    lemma_pieces_ok(b[n - 1], ts, te, p);
    if n == 1 {
        assert(b.take(0).len() == 0);
        assert(booked(b.take(0), ts, te, p) == Seq::<Segment<Priority>>::empty());
        assert(booked(t, ts, te, p) == booked_pieces(b[0], ts, te, p));
    } else {
        lemma_booked_prefix(b, n - 1, from, to, ts, te, p);
        assert(b[n - 2].end == b[n - 1].start);
        lemma_contiguous_concat(
            booked(b.take(n - 1), ts, te, p),
            booked_pieces(b[n - 1], ts, te, p),
            from,
            b[n - 2].end as int,
            b[n - 1].end as int,
        );
    }
}

/// Booking a window that lies within the contact keeps the bookings contiguous.
pub proof fn lemma_booked_ok(b: Seq<Segment<Priority>>, from: int, to: int, ts: int, te: int, p: Priority)
    requires
        contiguous(b, from, to),
        segments_in_range(b),
        ts <= te,
        date_ok(ts),
        date_ok(te),
    ensures
        contiguous(booked(b, ts, te, p), from, to),
        segments_in_range(booked(b, ts, te, p)),
{
    lemma_booked_prefix(b, b.len() as int, from, to, ts, te, p);
    assert(b.take(b.len() as int) == b);
}

proof fn lemma_pseg_dry_bounds(
    b: Seq<Segment<Priority>>,
    rates: Seq<Segment<DataRate>>,
    delays: Seq<Segment<Duration>>,
    deadline: int,
    at: int,
    prio: i8,
    size: int,
    i: int,
    ts: int,
    te_opt: Option<int>,
    from: int,
    to: int,
)
    requires
        0 <= size,
        crate::contact_manager::segmentation::rates_positive(rates),
        forall|k: int| 0 <= k < b.len() ==> from <= #[trigger] b[k].start && b[k].end <= to,
        forall|k: int| 0 <= k < b.len() ==> #[trigger] b[k].start <= b[k].end,
        te_opt matches Some(te) ==> from <= ts <= te,
        date_ok(from),
        date_ok(to),
    ensures
        pseg_dry_from(b, rates, delays, deadline, at, prio, size, i, ts, te_opt) matches Some(d)
            ==> from <= d.tx_window.start <= d.tx_window.end <= to && d == pseg_tx_data(
            delays,
            d.tx_window.start as int,
            d.tx_window.end as int,
        ),
    decreases b.len() - i,
{
    if i >= b.len() || i < 0 {
    } else if b[i].end <= at {
        lemma_pseg_dry_bounds(b, rates, delays, deadline, at, prio, size, i + 1, ts, te_opt, from, to);
    } else if prio <= b[i].val {
        lemma_pseg_dry_bounds(b, rates, delays, deadline, at, prio, size, i + 1, ts, None, from, to);
    } else {
        match te_opt {
            Some(te) => {
                if te > b[i].end {
                    lemma_pseg_dry_bounds(b, rates, delays, deadline, at, prio, size, i + 1, ts, Some(te), from, to);
                }
            },
            None => {
                let ts2 = if b[i].start > at {
                    b[i].start as int
                } else {
                    at
                };
                lemma_get_tx_end_bounds(rates, ts2, size, deadline);
                match spec_get_tx_end(rates, ts2, size, deadline) {
                    Some(te) => {
                        if te > b[i].end {
                            lemma_pseg_dry_bounds(b, rates, delays, deadline, at, prio, size, i + 1, ts2, Some(te), from, to);
                        }
                    },
                    None => {
                        lemma_pseg_dry_bounds(b, rates, delays, deadline, at, prio, size, i + 1, ts2, None, from, to);
                    },
                }
            },
        }
    }
}

/// The booking `s` and the window `[ts, te]` share some time.
pub open spec fn overlaps(s: Segment<Priority>, ts: int, te: int) -> bool {
    s.start < te && ts < s.end
}

proof fn lemma_bookings_sorted(b: Seq<Segment<Priority>>, k: int, m: int)
    requires
        forall|i: int| 0 <= i < b.len() - 1 ==> #[trigger] b[i].end == b[i + 1].start,
        forall|i: int| 0 <= i < b.len() ==> #[trigger] b[i].start <= b[i].end,
        0 <= k < m < b.len(),
    ensures
        b[k].end <= b[m].start,
    decreases m - k,
{
    if k + 1 < m {
        lemma_bookings_sorted(b, k + 1, m);
    }
}

proof fn lemma_pseg_dry_priority_from(
    b: Seq<Segment<Priority>>,
    rates: Seq<Segment<DataRate>>,
    delays: Seq<Segment<Duration>>,
    deadline: int,
    at: int,
    prio: i8,
    size: int,
    i: int,
    ts: int,
    te_opt: Option<int>,
)
    requires
        0 <= i,
        0 <= size,
        crate::contact_manager::segmentation::rates_positive(rates),
        i64::MIN <= at <= i64::MAX,
        forall|k: int| 0 <= k < b.len() - 1 ==> #[trigger] b[k].end == b[k + 1].start,
        forall|k: int| 0 <= k < b.len() ==> #[trigger] b[k].start <= b[k].end,
        te_opt matches Some(te) ==> at <= ts <= te && ts <= i64::MAX && spec_get_tx_end(rates, ts, size, deadline)
            == Some(te) && forall|k: int| 0 <= k < i && ts < #[trigger] b[k].end ==> b[k].val < prio,
    ensures
        pseg_dry_from(b, rates, delays, deadline, at, prio, size, i, ts, te_opt) matches Some(d) ==> {
            &&& at <= d.tx_window.start <= d.tx_window.end
            &&& spec_get_tx_end(rates, d.tx_window.start as int, size, deadline) == Some(d.tx_window.end as int)
            &&& d == pseg_tx_data(delays, d.tx_window.start as int, d.tx_window.end as int)
            &&& forall|k: int|
                0 <= k < b.len() && #[trigger] overlaps(b[k], d.tx_window.start as int, d.tx_window.end as int)
                    ==> b[k].val < prio
        },
    decreases b.len() - i,
{
    if i < b.len() {
        if b[i].end <= at {
            lemma_pseg_dry_priority_from(b, rates, delays, deadline, at, prio, size, i + 1, ts, te_opt);
        } else if prio <= b[i].val {
            lemma_pseg_dry_priority_from(b, rates, delays, deadline, at, prio, size, i + 1, ts, None);
        } else {
            match te_opt {
                Some(te) => {
                    if te <= b[i].end {
                        assert forall|k: int|
                            0 <= k < b.len() && #[trigger] overlaps(b[k], ts, te) implies b[k].val < prio by {
                            if k > i {
                                lemma_bookings_sorted(b, i, k);
                            }
                        }
                    } else {
                        lemma_pseg_dry_priority_from(b, rates, delays, deadline, at, prio, size, i + 1, ts, Some(te));
                    }
                },
                None => {
                    let ts2 = if b[i].start > at {
                        b[i].start as int
                    } else {
                        at
                    };
                    lemma_get_tx_end_bounds(rates, ts2, size, deadline);
                    assert forall|k: int| 0 <= k < i && ts2 < #[trigger] b[k].end implies b[k].val < prio by {
                        lemma_bookings_sorted(b, k, i);
                    }
                    match spec_get_tx_end(rates, ts2, size, deadline) {
                        Some(te) => {
                            if te <= b[i].end {
                                assert forall|k: int|
                                    0 <= k < b.len() && #[trigger] overlaps(b[k], ts2, te) implies b[k].val < prio by {
                                    if k > i {
                                        lemma_bookings_sorted(b, i, k);
                                    }
                                    if k < i {
                                        lemma_bookings_sorted(b, k, i);
                                    }
                                }
                            } else {
                                lemma_pseg_dry_priority_from(b, rates, delays, deadline, at, prio, size, i + 1, ts2, Some(te));
                            }
                        },
                        None => {
                            lemma_pseg_dry_priority_from(b, rates, delays, deadline, at, prio, size, i + 1, ts2, None);
                        },
                    }
                },
            }
        }
    }
}

/// A dry run of the priority-aware manager never takes time held by a bundle of the same or a
/// higher priority: its transmission starts no earlier than asked, lasts what the rate profile
/// gives for the bundle's size (ending by the contact's end), is received with the delays in
/// force at each end, and every booking it shares time with is free (priority -1) or held by a
/// lower priority than the bundle's.
pub proof fn lemma_pseg_dry_run_respects_priority(
    m: PSegmentationManager,
    contact_lifespan: TimeInterval,
    at_time: Date,
    bundle: Bundle,
)
    requires
        m.wf(),
        bundle.wf(),
    ensures
        m.spec_dry_run_tx(contact_lifespan, at_time, bundle) matches Some(d) ==> {
            &&& at_time <= d.tx_window.start <= d.tx_window.end
            &&& spec_get_tx_end(m.rate_intervals@, d.tx_window.start as int, bundle.size as int, contact_lifespan.end as int)
                == Some(d.tx_window.end as int)
            &&& d == pseg_tx_data(m.delay_intervals@, d.tx_window.start as int, d.tx_window.end as int)
            &&& forall|k: int|
                0 <= k < m.booking@.len() && #[trigger] overlaps(
                    m.booking@[k],
                    d.tx_window.start as int,
                    d.tx_window.end as int,
                ) ==> m.booking@[k].val < bundle.priority
        },
{
    let b = m.booking@;
    assert(forall|k: int| 0 <= k < b.len() ==> #[trigger] b[k].start <= b[k].end);
    lemma_pseg_dry_priority_from(
        b,
        m.rate_intervals@,
        m.delay_intervals@,
        contact_lifespan.end as int,
        at_time as int,
        bundle.priority,
        bundle.size as int,
        0,
        at_time as int,
        None,
    );
}

impl PSegmentationManager {
    /// The windows of a transmission from `ts` to `te`, with the delays of the profile.
    fn make_tx_data(&self, ts: Date, te: Date) -> (r: ContactManagerTxData)
        requires
            self.wf(),
            profile_start(self.rate_intervals@) <= ts <= te <= profile_end(self.rate_intervals@),
        ensures
            r == pseg_tx_data(self.delay_intervals@, ts as int, te as int),
    {
        let ghost rates = self.rate_intervals@;
        proof {
            assert(date_ok(rates[0].start as int));
            assert(date_ok(rates[rates.len() - 1].end as int));
            lemma_delays_found(
                self.delay_intervals@,
                profile_start(rates),
                profile_end(rates),
                ts as int,
                te as int,
            );
        }
        let (d_start, d_end) = get_delays(ts, te, &self.delay_intervals);
        ContactManagerTxData {
            tx_window: TimeInterval { start: ts, end: te },
            rx_window: TimeInterval { start: ts + d_start, end: te + d_end },
        }
    }
}

impl ContactManager for PSegmentationManager {
    open spec fn wf(&self) -> bool {
        let rates = self.rate_intervals@;
        &&& rates.len() > 0
        &&& valid_profile(rates, self.delay_intervals@, profile_start(rates), profile_end(rates))
        &&& contiguous(self.booking@, profile_start(rates), profile_end(rates))
        &&& segments_in_range(self.booking@)
        &&& 0 <= self.original_volume <= profile_volume_bound()
    }

    open spec fn spec_dry_run_tx(
        &self,
        contact_lifespan: TimeInterval,
        at_time: Date,
        bundle: Bundle,
    ) -> Option<ContactManagerTxData> {
        pseg_dry_from(
            self.booking@,
            self.rate_intervals@,
            self.delay_intervals@,
            contact_lifespan.end as int,
            at_time as int,
            bundle.priority,
            bundle.size as int,
            0,
            at_time as int,
            None,
        )
    }

    open spec fn spec_schedule_tx(
        &self,
        contact_lifespan: TimeInterval,
        tx_data: ContactManagerTxData,
        bundle: Bundle,
        after: Self,
    ) -> bool {
        &&& after.rate_intervals@ == self.rate_intervals@
        &&& after.delay_intervals@ == self.delay_intervals@
        &&& after.original_volume == self.original_volume
        &&& after.booking@ == booked(
            self.booking@,
            tx_data.tx_window.start as int,
            tx_data.tx_window.end as int,
            bundle.priority,
        )
    }

    open spec fn spec_schedule_fits(&self, bundle: Bundle) -> bool {
        true
    }

    open spec fn spec_try_init_ok(&self, contact_data: ContactInfo) -> bool {
        &&& valid_profile(
            self.rate_intervals@,
            self.delay_intervals@,
            contact_data.start as int,
            contact_data.end as int,
        )
        &&& self.booking@.len() == 0
    }

    open spec fn spec_try_init(&self, contact_data: ContactInfo, after: Self) -> bool {
        &&& after.rate_intervals@ == self.rate_intervals@
        &&& after.delay_intervals@ == self.delay_intervals@
        &&& if self.spec_try_init_ok(contact_data) {
            &&& after.booking@ == seq![
                Segment { start: contact_data.start, end: contact_data.end, val: -1i8 },
            ]
            &&& after.original_volume == profile_volume(
                self.rate_intervals@,
                self.rate_intervals@.len() as int,
            )
        } else {
            &&& after.booking@ == self.booking@
            &&& after.original_volume == self.original_volume
        }
    }

    open spec fn spec_original_volume(&self) -> int {
        self.original_volume as int
    }

    open spec fn spec_manual_ok(&self) -> bool {
        false
    }

    open spec fn spec_manual_enqueue(&self, bundle: Bundle, after: Self) -> bool {
        &&& after.booking@ == self.booking@
        &&& after.rate_intervals@ == self.rate_intervals@
        &&& after.delay_intervals@ == self.delay_intervals@
        &&& after.original_volume == self.original_volume
    }

    open spec fn spec_manual_dequeue(&self, bundle: Bundle, after: Self) -> bool {
        &&& after.booking@ == self.booking@
        &&& after.rate_intervals@ == self.rate_intervals@
        &&& after.delay_intervals@ == self.delay_intervals@
        &&& after.original_volume == self.original_volume
    }

    open spec fn spec_manual_fits(&self, bundle: Bundle, sign: int) -> bool {
        true
    }

    fn dry_run_tx(
        &self,
        contact_lifespan: TimeInterval,
        at_time: Date,
        bundle: &Bundle,
    ) -> (r: Option<ContactManagerTxData>) {
        let ghost b = self.booking@;
        let ghost rates = self.rate_intervals@;
        let ghost delays = self.delay_intervals@;
        let ghost from = profile_start(rates);
        let ghost to = profile_end(rates);
        let deadline = contact_lifespan.end;
        proof {
            lemma_contiguous_ordered(b, from, to);
        }
        let mut tx_start: Date = at_time;
        let mut tx_end_opt: Option<Date> = None;
        let mut i: usize = 0;
        while i < self.booking.len()
            invariant
                b == self.booking@,
                rates == self.rate_intervals@,
                delays == self.delay_intervals@,
                from == profile_start(rates),
                to == profile_end(rates),
                self.wf(),
                bundle.wf(),
                deadline == contact_lifespan.end,
                contact_lifespan.in_range(),
                forall|k: int| 0 <= k < b.len() ==> from <= #[trigger] b[k].start && b[k].end <= to,
                i <= b.len(),
                tx_end_opt matches Some(te) ==> from <= tx_start <= te <= deadline,
                pseg_dry_from(b, rates, delays, deadline as int, at_time as int, bundle.priority,
                    bundle.size as int, 0, at_time as int, None)
                    == pseg_dry_from(b, rates, delays, deadline as int, at_time as int,
                    bundle.priority, bundle.size as int, i as int, tx_start as int,
                    match tx_end_opt { Some(te) => Some(te as int), None => None }),
            decreases b.len() - i,
        {
            let seg = self.booking[i];
            assert(b[i as int].start <= b[i as int].end);
            if seg.end <= at_time {
                i = i + 1;
            } else if bundle.priority <= seg.val {
                tx_end_opt = None;
                i = i + 1;
            } else {
                match tx_end_opt {
                    Some(tx_end) => {
                        if tx_end <= seg.end {
                            return Some(self.make_tx_data(tx_start, tx_end));
                        }
                        i = i + 1;
                    },
                    None => {
                        tx_start = if seg.start > at_time {
                            seg.start
                        } else {
                            at_time
                        };
                        let found = if tx_start > deadline {
                            proof {
                                lemma_tx_end_past_deadline(rates, 0, tx_start as int, bundle.size as int, deadline as int);
                            }
                            None
                        } else {
                            assert(date_ok(rates[0].start as int));
                            get_tx_end(&self.rate_intervals, tx_start, bundle.size, deadline)
                        };
                        match found {
                            Some(tx_end) => {
                                proof {
                                    lemma_get_tx_end_bounds(rates, tx_start as int, bundle.size as int, deadline as int);
                                }
                                if tx_end <= seg.end {
                                    return Some(self.make_tx_data(tx_start, tx_end));
                                }
                                tx_end_opt = Some(tx_end);
                            },
                            None => {},
                        }
                        i = i + 1;
                    },
                }
            }
        }
        None
    }

    fn schedule_tx(
        &mut self,
        contact_lifespan: TimeInterval,
        tx_data: ContactManagerTxData,
        bundle: &Bundle,
    ) -> (r: Result<(), ASABRError>) {
        let ghost b = self.booking@;
        let ghost rates = self.rate_intervals@;
        let ghost from = profile_start(rates);
        let ghost to = profile_end(rates);
        let tx_start = tx_data.tx_window.start;
        let tx_end = tx_data.tx_window.end;
        let prio = bundle.priority;
        proof {
            let t = choose|t: Date|
                old(self).spec_dry_run_tx(contact_lifespan, t, *bundle) == Some(tx_data);
            lemma_contiguous_ordered(b, from, to);
            lemma_pseg_dry_bounds(b, rates, self.delay_intervals@, contact_lifespan.end as int,
                t as int, bundle.priority, bundle.size as int, 0, t as int, None, from, to);
            lemma_contiguous_ordered(rates, from, to);
            assert(date_ok(rates[0].start as int));
            assert(date_ok(rates[rates.len() - 1].end as int));
            lemma_booked_ok(b, from, to, tx_start as int, tx_end as int, prio);
        }
        let mut out: Vec<Segment<Priority>> = Vec::new();
        let mut i: usize = 0;
        while i < self.booking.len()
            invariant
                b == self.booking@,
                i <= b.len(),
                out@ == booked(b.take(i as int), tx_start as int, tx_end as int, prio),
            decreases b.len() - i,
        {
            let s = self.booking[i];
            proof {
                assert(b.take(i + 1).drop_last() == b.take(i as int));
                assert(b.take(i + 1).last() == s);
            }
            if s.end <= tx_start || s.start >= tx_end {
                out.push(s);
            } else {
                if s.start < tx_start {
                    out.push(Segment { start: s.start, end: tx_start, val: s.val });
                }
                let mid_start = if s.start < tx_start {
                    tx_start
                } else {
                    s.start
                };
                let mid_end = if s.end > tx_end {
                    tx_end
                } else {
                    s.end
                };
                out.push(Segment { start: mid_start, end: mid_end, val: prio });
                if s.end > tx_end {
                    out.push(Segment { start: tx_end, end: s.end, val: s.val });
                }
            }
            assert(out@ =~= booked(b.take(i + 1), tx_start as int, tx_end as int, prio));
            i = i + 1;
        }
        assert(b.take(b.len() as int) == b);
        self.booking = out;
        Ok(())
    }

    fn try_init(&mut self, contact_data: &ContactInfo) -> (r: bool) {
        if !profile_supported(&self.rate_intervals, &self.delay_intervals) {
            return false;
        }
        let ok = try_init(
            &self.rate_intervals,
            &self.delay_intervals,
            &mut self.booking,
            -1,
            contact_data,
        );
        if ok {
            self.original_volume = get_profile_volume(&self.rate_intervals);
            proof {
                lemma_contiguous_ordered(self.rate_intervals@, contact_data.start as int, contact_data.end as int);
                assert(self.booking@[0].start == contact_data.start);
                assert(contiguous(self.booking@, contact_data.start as int, contact_data.end as int));
            }
        }
        ok
    }

    fn get_original_volume(&self) -> (r: i128) {
        self.original_volume
    }

    fn manual_enqueue(&mut self, bundle: &Bundle) -> (r: bool) {
        false
    }

    fn manual_dequeue(&mut self, bundle: &Bundle) -> (r: bool) {
        false
    }
}

impl BaseSegmentationManager for PSegmentationManager {
    open spec fn made_from(rates: Seq<Segment<DataRate>>, delays: Seq<Segment<Duration>>, m: Self) -> bool {
        &&& m.rate_intervals@ == rates
        &&& m.delay_intervals@ == delays
        &&& m.booking@.len() == 0
        &&& m.original_volume == 0
    }

    fn new(rate_intervals: Vec<Segment<DataRate>>, delay_intervals: Vec<Segment<Duration>>) -> (r: Self) {
        PSegmentationManager::new(rate_intervals, delay_intervals)
    }
}

} // verus!
