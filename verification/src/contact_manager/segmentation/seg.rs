//! The segmentation manager: a contact whose free time is tracked as a list of free intervals.

use vstd::prelude::*;

use crate::contact::ContactInfo;
use crate::contact_manager::segmentation::{profile_supported, 
    BaseSegmentationManager,
    contiguous, get_delays, lemma_contiguous_ordered, get_profile_volume, get_tx_end, lemma_delays_found,
    lemma_get_tx_end_bounds, profile_end, profile_start, profile_volume, profile_volume_bound,
    spec_get_delays, spec_get_tx_end, try_init, valid_profile, Segment,
};
use crate::contact_manager::{ContactManager, ContactManagerTxData};
use crate::errors::ASABRError;
use crate::types::{Bundle, DataRate, Date, Duration, TimeInterval};

verus! {

/// The free intervals are ordered, do not overlap, and lie within `[from, to]`.
pub open spec fn free_ok(f: Seq<Segment<()>>, from: int, to: int) -> bool {
    &&& forall|i: int| 0 <= i < f.len() ==> from <= #[trigger] f[i].start <= f[i].end <= to
    &&& forall|i: int| 0 <= i < f.len() - 1 ==> #[trigger] f[i].end <= f[i + 1].start
}

/// The transmission window found by a dry run at `at`, searching the free intervals from
/// index `i` on.
pub open spec fn seg_dry_from(
    f: Seq<Segment<()>>,
    rates: Seq<Segment<DataRate>>,
    delays: Seq<Segment<Duration>>,
    i: int,
    at: int,
    size: int,
) -> Option<ContactManagerTxData>
    decreases f.len() - i,
{
    if i >= f.len() || i < 0 {
        None
    } else if f[i].end < at {
        seg_dry_from(f, rates, delays, i + 1, at, size)
    } else {
        let ts = if f[i].start > at {
            f[i].start as int
        } else {
            at
        };
        match spec_get_tx_end(rates, ts, size, f[i].end as int) {
            None => seg_dry_from(f, rates, delays, i + 1, at, size),
            Some(te) => {
                let d = spec_get_delays(delays, ts, te);
                Some(
                    ContactManagerTxData {
                        tx_window: TimeInterval { start: ts as i64, end: te as i64 },
                        rx_window: TimeInterval {
                            start: (ts + d.0) as i64,
                            end: (te + d.1) as i64,
                        },
                    },
                )
            },
        }
    }
}

/// When a transmission in free interval `j` can start: at `at`, or at the interval's start if it
/// is later.
pub open spec fn free_start(f: Seq<Segment<()>>, j: int, at: int) -> int {
    if f[j].start > at {
        f[j].start as int
    } else {
        at
    }
}

/// Free interval `j` can hold the whole transmission of `size`: it ends no earlier than `at`, and
/// the transmission, from its start, ends within it.
pub open spec fn free_fits(f: Seq<Segment<()>>, rates: Seq<Segment<DataRate>>, j: int, at: int, size: int) -> bool {
    &&& f[j].end >= at
    &&& spec_get_tx_end(rates, free_start(f, j, at), size, f[j].end as int) is Some
}

/// The dry run of a segmentation manager takes the first free interval that can hold the whole
/// transmission, from the later of `at` and the interval's start, to the end the rate profile
/// gives; the bundle is received with the delays in force at each end. It finds nothing only if
/// no free interval can hold the transmission.
pub proof fn lemma_seg_dry_first_fit(
    f: Seq<Segment<()>>,
    rates: Seq<Segment<DataRate>>,
    delays: Seq<Segment<Duration>>,
    i: int,
    at: int,
    size: int,
)
    requires
        0 <= i,
    ensures
        seg_dry_from(f, rates, delays, i, at, size) is None <==> forall|j: int|
            i <= j < f.len() ==> !#[trigger] free_fits(f, rates, j, at, size),
        seg_dry_from(f, rates, delays, i, at, size) matches Some(d) ==> exists|j: int|
            #![trigger free_fits(f, rates, j, at, size)]
            i <= j < f.len() && free_fits(f, rates, j, at, size) && (forall|j2: int|
                i <= j2 < j ==> !#[trigger] free_fits(f, rates, j2, at, size)) && {
                let ts = free_start(f, j, at);
                let te = spec_get_tx_end(rates, ts, size, f[j].end as int)->0;
                let dl = spec_get_delays(delays, ts, te);
                &&& d.tx_window == TimeInterval { start: ts as i64, end: te as i64 }
                &&& d.rx_window == TimeInterval { start: (ts + dl.0) as i64, end: (te + dl.1) as i64 }
            },
    decreases f.len() - i,
{
    if i < f.len() {
        lemma_seg_dry_first_fit(f, rates, delays, i + 1, at, size);
        if free_fits(f, rates, i, at, size) {
            assert(free_fits(f, rates, i, at, size));
        } else if seg_dry_from(f, rates, delays, i, at, size) is Some {
            let j = choose|j: int|
                #![trigger free_fits(f, rates, j, at, size)]
                i + 1 <= j < f.len() && free_fits(f, rates, j, at, size) && (forall|j2: int|
                    i + 1 <= j2 < j ==> !#[trigger] free_fits(f, rates, j2, at, size)) && {
                    let d = seg_dry_from(f, rates, delays, i, at, size)->0;
                    let ts = free_start(f, j, at);
                    let te = spec_get_tx_end(rates, ts, size, f[j].end as int)->0;
                    let dl = spec_get_delays(delays, ts, te);
                    &&& d.tx_window == TimeInterval { start: ts as i64, end: te as i64 }
                    &&& d.rx_window == TimeInterval { start: (ts + dl.0) as i64, end: (te + dl.1) as i64 }
                };
            assert(forall|j2: int| i <= j2 < j ==> !#[trigger] free_fits(f, rates, j2, at, size));
        }
    }
}

/// The dry run of a segmentation manager, stated on the manager: it succeeds exactly when some
/// free interval can hold the whole transmission, and then uses the first such interval.
pub proof fn lemma_seg_dry_run_first_fit(m: SegmentationManager, contact_lifespan: TimeInterval, at_time: Date, bundle: Bundle)
    ensures
        m.spec_dry_run_tx(contact_lifespan, at_time, bundle) is None <==> forall|j: int|
            0 <= j < m.free_intervals@.len() ==> !#[trigger] free_fits(
                m.free_intervals@,
                m.rate_intervals@,
                j,
                at_time as int,
                bundle.size as int,
            ),
        m.spec_dry_run_tx(contact_lifespan, at_time, bundle) matches Some(d) ==> exists|j: int|
            #![trigger free_fits(m.free_intervals@, m.rate_intervals@, j, at_time as int, bundle.size as int)]
            0 <= j < m.free_intervals@.len() && free_fits(m.free_intervals@, m.rate_intervals@, j, at_time as int, bundle.size as int)
                && (forall|j2: int|
                0 <= j2 < j ==> !#[trigger] free_fits(m.free_intervals@, m.rate_intervals@, j2, at_time as int, bundle.size as int))
                && d.tx_window.start == free_start(m.free_intervals@, j, at_time as int) && d.tx_window.end as int
                == spec_get_tx_end(
                m.rate_intervals@,
                free_start(m.free_intervals@, j, at_time as int),
                bundle.size as int,
                m.free_intervals@[j].end as int,
            )->0 as i64,
{
    lemma_seg_dry_first_fit(m.free_intervals@, m.rate_intervals@, m.delay_intervals@, 0, at_time as int, bundle.size as int);
}

/// The first free interval, from index `from` on, that contains `[ts, te]`.
pub open spec fn first_containing(f: Seq<Segment<()>>, ts: int, te: int, from: int) -> int
    decreases f.len() - from,
{
    if from >= f.len() || from < 0 {
        f.len() as int
    } else if f[from].start <= ts && te <= f[from].end {
        from
    } else {
        first_containing(f, ts, te, from + 1)
    }
}

/// The free intervals once `[ts, te]` is booked inside interval `k`.
pub open spec fn split_free(f: Seq<Segment<()>>, k: int, ts: int, te: int) -> Seq<Segment<()>> {
    if f[k].start != ts {
        f.update(k, Segment { start: f[k].start, end: ts as i64, val: () }).insert(
            k + 1,
            Segment { start: te as i64, end: f[k].end, val: () },
        )
    } else {
        f.update(k, Segment { start: te as i64, end: f[k].end, val: () })
    }
}

/// A contact manager that tracks the free intervals of the contact, with rates and delays
/// that vary over time.
#[derive(Debug, Clone)]
pub struct SegmentationManager {
    /// The intervals still available for transmission.
    pub free_intervals: Vec<Segment<()>>,
    /// The data rate over time.
    pub rate_intervals: Vec<Segment<DataRate>>,
    /// The delay over time.
    pub delay_intervals: Vec<Segment<Duration>>,
    /// The volume the contact could carry at initialization.
    pub original_volume: i128,
}

impl SegmentationManager {
    /// Creates a segmentation manager from its rate and delay segments, with no free interval
    /// until it is initialized.
    pub fn new(rate_intervals: Vec<Segment<DataRate>>, delay_intervals: Vec<Segment<Duration>>) -> (r:
        Self)
        ensures
            r.free_intervals@.len() == 0,
            r.rate_intervals@ == rate_intervals@,
            r.delay_intervals@ == delay_intervals@,
            r.original_volume == 0,
    {
        SegmentationManager {
            free_intervals: Vec::new(),
            rate_intervals,
            delay_intervals,
            original_volume: 0,
        }
    }

    /// The free intervals, as `(start, end)` pairs.
    pub fn free_windows(&self) -> (r: Vec<(Date, Date)>)
        ensures
            r@.len() == self.free_intervals@.len(),
            forall|i: int|
                0 <= i < r@.len() ==> #[trigger] r@[i] == (
                    self.free_intervals@[i].start,
                    self.free_intervals@[i].end,
                ),
    {
        let mut r: Vec<(Date, Date)> = Vec::new();
        let mut i: usize = 0;
        while i < self.free_intervals.len()
            invariant
                i <= self.free_intervals@.len(),
                r@.len() == i,
                forall|k: int|
                    0 <= k < i ==> #[trigger] r@[k] == (
                        self.free_intervals@[k].start,
                        self.free_intervals@[k].end,
                    ),
            decreases self.free_intervals@.len() - i,
        {
            r.push((self.free_intervals[i].start, self.free_intervals[i].end));
            i = i + 1;
        }
        r
    }
}

proof fn lemma_seg_dry_contained(
    f: Seq<Segment<()>>,
    rates: Seq<Segment<DataRate>>,
    delays: Seq<Segment<Duration>>,
    i: int,
    at: int,
    size: int,
)
    requires
        0 <= size,
        crate::contact_manager::segmentation::rates_positive(rates),
        forall|k: int| 0 <= k < f.len() ==> #[trigger] f[k].start <= f[k].end,
    ensures
        seg_dry_from(f, rates, delays, i, at, size) matches Some(d) ==> exists|k: int|
            0 <= k < f.len() && #[trigger] f[k].start <= d.tx_window.start <= d.tx_window.end
                <= f[k].end,
    decreases f.len() - i,
{
    if i >= f.len() || i < 0 {
    } else if f[i].end < at {
        lemma_seg_dry_contained(f, rates, delays, i + 1, at, size);
    } else {
        let ts = if f[i].start > at {
            f[i].start as int
        } else {
            at
        };
        lemma_get_tx_end_bounds(rates, ts, size, f[i].end as int);
        match spec_get_tx_end(rates, ts, size, f[i].end as int) {
            None => lemma_seg_dry_contained(f, rates, delays, i + 1, at, size),
            Some(te) => {
                assert(f[i].start <= ts <= te <= f[i].end);
            },
        }
    }
}

proof fn lemma_first_containing_found(f: Seq<Segment<()>>, ts: int, te: int, from: int, k: int)
    requires
        0 <= from <= k < f.len(),
        f[k].start <= ts,
        te <= f[k].end,
    ensures
        from <= first_containing(f, ts, te, from) <= k,
    decreases k - from,
{
    if !(f[from].start <= ts && te <= f[from].end) {
        lemma_first_containing_found(f, ts, te, from + 1, k);
    }
}

/// Ordered free intervals do not overlap: an earlier one ends before a later one starts.
pub proof fn lemma_free_ordered(f: Seq<Segment<()>>, from: int, to: int, i: int, k: int)
    requires
        free_ok(f, from, to),
        0 <= i < k < f.len(),
    ensures
        f[i].end <= f[k].start,
    decreases k - i,
{
    assert(f[i].end <= f[i + 1].start);
    if i + 1 < k {
        lemma_free_ordered(f, from, to, i + 1, k);
        assert(f[i + 1].start <= f[i + 1].end);
    }
}

/// On ordered free intervals, a window of positive length lies in one interval only: the
/// first interval that contains it is the one that contains it, so booking it splits that
/// interval.
pub proof fn lemma_first_containing_unique(f: Seq<Segment<()>>, from: int, to: int, ts: int, te: int, k: int)
    requires
        free_ok(f, from, to),
        0 <= k < f.len(),
        f[k].start <= ts < te <= f[k].end,
    ensures
        first_containing(f, ts, te, 0) == k,
{
    lemma_first_containing_unique_from(f, from, to, ts, te, k, 0);
}

proof fn lemma_first_containing_unique_from(
    f: Seq<Segment<()>>,
    from: int,
    to: int,
    ts: int,
    te: int,
    k: int,
    i: int,
)
    requires
        free_ok(f, from, to),
        0 <= i <= k < f.len(),
        f[k].start <= ts < te <= f[k].end,
    ensures
        first_containing(f, ts, te, i) == k,
    decreases k - i,
{
    if i < k {
        lemma_free_ordered(f, from, to, i, k);
        lemma_first_containing_unique_from(f, from, to, ts, te, k, i + 1);
    }
}

proof fn lemma_first_containing_ge(f: Seq<Segment<()>>, ts: int, te: int, from: int)
    requires
        0 <= from <= f.len(),
    ensures
        from <= first_containing(f, ts, te, from),
    decreases f.len() - from,
{
    if from < f.len() && !(f[from].start <= ts && te <= f[from].end) {
        lemma_first_containing_ge(f, ts, te, from + 1);
    }
}

/// Booking `[ts, te]` inside a free interval that contains it keeps the free intervals ordered.
pub proof fn lemma_split_free_ok(f: Seq<Segment<()>>, k: int, ts: int, te: int, from: int, to: int)
    requires
        free_ok(f, from, to),
        0 <= k < f.len(),
        f[k].start <= ts <= te <= f[k].end,
        crate::types::date_ok(ts),
        crate::types::date_ok(te),
    ensures
        free_ok(split_free(f, k, ts, te), from, to),
{
    let g = split_free(f, k, ts, te);
    if f[k].start != ts {
        assert(g.len() == f.len() + 1);
        assert forall|i: int| 0 <= i < g.len() implies from <= #[trigger] g[i].start <= g[i].end
            <= to by {
            if i < k {
                assert(g[i] == f[i]);
            } else if i > k + 1 {
                assert(g[i] == f[i - 1]);
            }
        }
        assert forall|i: int| 0 <= i < g.len() - 1 implies #[trigger] g[i].end <= g[i + 1].start by {
            if i < k - 1 {
                assert(g[i] == f[i] && g[i + 1] == f[i + 1]);
            } else if i == k - 1 {
                assert(g[i] == f[i]);
                assert(f[i].end <= f[i + 1].start);
            } else if i == k + 1 {
                assert(g[i + 1] == f[i]);
                assert(f[k].end <= f[k + 1].start);
            } else if i > k + 1 {
                assert(g[i] == f[i - 1] && g[i + 1] == f[i]);
                assert(f[i - 1].end <= f[i].start);
            }
        }
    } else {
        assert forall|i: int| 0 <= i < g.len() implies from <= #[trigger] g[i].start <= g[i].end
            <= to by {
            if i != k {
                assert(g[i] == f[i]);
            }
        }
        assert forall|i: int| 0 <= i < g.len() - 1 implies #[trigger] g[i].end <= g[i + 1].start by {
            if i != k && i + 1 != k {
                assert(g[i] == f[i] && g[i + 1] == f[i + 1]);
                assert(f[i].end <= f[i + 1].start);
            } else if i + 1 == k {
                assert(g[i] == f[i]);
                assert(f[i].end <= f[i + 1].start);
            } else {
                assert(g[i + 1] == f[i + 1]);
                assert(f[i].end <= f[i + 1].start);
            }
        }
    }
}

impl SegmentationManager {
    /// Tries to fit the bundle in free interval `k`, starting no earlier than `at_time`.
    fn dry_run_in(&self, k: usize, at_time: Date, bundle: &Bundle) -> (r: Option<
        ContactManagerTxData,
    >)
        requires
            self.wf(),
            bundle.wf(),
            k < self.free_intervals@.len(),
            self.free_intervals@[k as int].end >= at_time,
        ensures
            r == seg_dry_from(
                self.free_intervals@,
                self.rate_intervals@,
                self.delay_intervals@,
                k as int,
                at_time as int,
                bundle.size as int,
            ) || (r is None && spec_get_tx_end(
                self.rate_intervals@,
                if self.free_intervals@[k as int].start > at_time {
                    self.free_intervals@[k as int].start as int
                } else {
                    at_time as int
                },
                bundle.size as int,
                self.free_intervals@[k as int].end as int,
            ) is None),
    {
        let ghost f = self.free_intervals@;
        let ghost rates = self.rate_intervals@;
        let ghost delays = self.delay_intervals@;
        let ghost from = profile_start(rates);
        let ghost to = profile_end(rates);
        let free_seg = self.free_intervals[k];
        assert(from <= f[k as int].start <= f[k as int].end <= to);
        let tx_start = if free_seg.start > at_time {
            free_seg.start
        } else {
            at_time
        };
        proof {
            assert(crate::types::date_ok(rates[0].start as int));
            assert(crate::types::date_ok(rates[rates.len() - 1].end as int));
        }
        match get_tx_end(&self.rate_intervals, tx_start, bundle.size, free_seg.end) {
            None => None,
            Some(tx_end) => {
                proof {
                    lemma_get_tx_end_bounds(
                        rates,
                        tx_start as int,
                        bundle.size as int,
                        free_seg.end as int,
                    );
                    lemma_delays_found(delays, from, to, tx_start as int, tx_end as int);
                }
                let (d_start, d_end) = get_delays(tx_start, tx_end, &self.delay_intervals);
                Some(
                    ContactManagerTxData {
                        tx_window: TimeInterval { start: tx_start, end: tx_end },
                        rx_window: TimeInterval {
                            start: tx_start + d_start,
                            end: tx_end + d_end,
                        },
                    },
                )
            },
        }
    }
}

impl ContactManager for SegmentationManager {
    open spec fn wf(&self) -> bool {
        let rates = self.rate_intervals@;
        &&& rates.len() > 0
        &&& valid_profile(rates, self.delay_intervals@, profile_start(rates), profile_end(rates))
        &&& free_ok(self.free_intervals@, profile_start(rates), profile_end(rates))
        &&& 0 <= self.original_volume <= profile_volume_bound()
    }

    open spec fn spec_dry_run_tx(
        &self,
        contact_lifespan: TimeInterval,
        at_time: Date,
        bundle: Bundle,
    ) -> Option<ContactManagerTxData> {
        seg_dry_from(
            self.free_intervals@,
            self.rate_intervals@,
            self.delay_intervals@,
            0,
            at_time as int,
            bundle.size as int,
        )
    }

    open spec fn spec_schedule_tx(
        &self,
        contact_lifespan: TimeInterval,
        tx_data: ContactManagerTxData,
        bundle: Bundle,
        after: Self,
    ) -> bool {
        let ts = tx_data.tx_window.start as int;
        let te = tx_data.tx_window.end as int;
        &&& after.rate_intervals@ == self.rate_intervals@
        &&& after.delay_intervals@ == self.delay_intervals@
        &&& after.original_volume == self.original_volume
        &&& after.free_intervals@ == split_free(
            self.free_intervals@,
            first_containing(self.free_intervals@, ts, te, 0),
            ts,
            te,
        )
    }

    open spec fn spec_schedule_fits(&self, bundle: Bundle) -> bool {
        true
    }

    open spec fn spec_try_init_ok(&self, contact_data: ContactInfo) -> bool {
        &&& valid_profile(
            self.rate_intervals@,
            self.delay_intervals@,
            contact_data.start as int,
            contact_data.end as int,
        )
        &&& self.free_intervals@.len() == 0
    }

    open spec fn spec_try_init(&self, contact_data: ContactInfo, after: Self) -> bool {
        &&& after.rate_intervals@ == self.rate_intervals@
        &&& after.delay_intervals@ == self.delay_intervals@
        &&& if self.spec_try_init_ok(contact_data) {
            &&& after.free_intervals@ == seq![
                Segment { start: contact_data.start, end: contact_data.end, val: () },
            ]
            &&& after.original_volume == profile_volume(
                self.rate_intervals@,
                self.rate_intervals@.len() as int,
            )
        } else {
            &&& after.free_intervals@ == self.free_intervals@
            &&& after.original_volume == self.original_volume
        }
    }

    open spec fn spec_original_volume(&self) -> int {
        self.original_volume as int
    }

    open spec fn spec_manual_ok(&self) -> bool {
        false
    }

    open spec fn spec_manual_enqueue(&self, bundle: Bundle, after: Self) -> bool {
        &&& after.free_intervals@ == self.free_intervals@
        &&& after.rate_intervals@ == self.rate_intervals@
        &&& after.delay_intervals@ == self.delay_intervals@
        &&& after.original_volume == self.original_volume
    }

    open spec fn spec_manual_dequeue(&self, bundle: Bundle, after: Self) -> bool {
        &&& after.free_intervals@ == self.free_intervals@
        &&& after.rate_intervals@ == self.rate_intervals@
        &&& after.delay_intervals@ == self.delay_intervals@
        &&& after.original_volume == self.original_volume
    }

    open spec fn spec_manual_fits(&self, bundle: Bundle, sign: int) -> bool {
        true
    }

    fn dry_run_tx(
        &self,
        contact_lifespan: TimeInterval,
        at_time: Date,
        bundle: &Bundle,
    ) -> (r: Option<ContactManagerTxData>) {
        let ghost f = self.free_intervals@;
        let ghost rates = self.rate_intervals@;
        let ghost delays = self.delay_intervals@;
        let mut i: usize = 0;
        while i < self.free_intervals.len()
            invariant
                f == self.free_intervals@,
                rates == self.rate_intervals@,
                delays == self.delay_intervals@,
                self.wf(),
                bundle.wf(),
                i <= f.len(),
                seg_dry_from(f, rates, delays, 0, at_time as int, bundle.size as int)
                    == seg_dry_from(f, rates, delays, i as int, at_time as int, bundle.size as int),
            decreases f.len() - i,
        {
            if self.free_intervals[i].end < at_time {
                i = i + 1;
            } else {
                let r = self.dry_run_in(i, at_time, bundle);
                if r.is_some() {
                    return r;
                }
                i = i + 1;
            }
        }
        None
    }

    fn schedule_tx(
        &mut self,
        contact_lifespan: TimeInterval,
        tx_data: ContactManagerTxData,
        bundle: &Bundle,
    ) -> (r: Result<(), ASABRError>) {
        let ghost f = self.free_intervals@;
        let ghost from = profile_start(self.rate_intervals@);
        let ghost to = profile_end(self.rate_intervals@);
        let tx_start = tx_data.tx_window.start;
        let tx_end = tx_data.tx_window.end;
        proof {
            let t = choose|t: Date|
                old(self).spec_dry_run_tx(contact_lifespan, t, *bundle) == Some(tx_data);
            lemma_seg_dry_contained(
                f,
                self.rate_intervals@,
                self.delay_intervals@,
                0,
                t as int,
                bundle.size as int,
            );
            let k = choose|k: int|
                0 <= k < f.len() && #[trigger] f[k].start <= tx_start <= tx_end <= f[k].end;
            lemma_first_containing_found(f, tx_start as int, tx_end as int, 0, k);
        }
        let n = self.free_intervals.len();
        let mut index: usize = 0;
        while !(self.free_intervals[index].start <= tx_start
            && tx_end <= self.free_intervals[index].end)
            invariant
                f == self.free_intervals@,
                n == f.len(),
                index <= first_containing(f, tx_start as int, tx_end as int, 0) < f.len(),
                first_containing(f, tx_start as int, tx_end as int, 0) == first_containing(
                    f,
                    tx_start as int,
                    tx_end as int,
                    index as int,
                ),
            decreases f.len() - index,
        {
            proof {
                lemma_first_containing_ge(f, tx_start as int, tx_end as int, index + 1);
            }
            index = index + 1;
        }
        let k = index;
        let expiration = self.free_intervals[k].end;
        let start = self.free_intervals[k].start;
        proof {
            assert(f[k as int].start <= tx_start <= tx_end <= f[k as int].end);
            assert(from <= f[k as int].start <= f[k as int].end <= to);
            lemma_contiguous_ordered(self.rate_intervals@, from, to);
            assert(crate::types::date_ok(from) && crate::types::date_ok(to)) by {
                assert(crate::types::date_ok(self.rate_intervals@[0].start as int));
                assert(crate::types::date_ok(
                    self.rate_intervals@[self.rate_intervals@.len() - 1].end as int,
                ));
            }
            lemma_split_free_ok(f, k as int, tx_start as int, tx_end as int, from, to);
        }
        if start != tx_start {
            self.free_intervals.set(k, Segment { start, end: tx_start, val: () });
            self.free_intervals.insert(k + 1, Segment { start: tx_end, end: expiration, val: () });
        } else {
            self.free_intervals.set(k, Segment { start: tx_end, end: expiration, val: () });
        }
        assert(self.free_intervals@ =~= split_free(f, k as int, tx_start as int, tx_end as int));
        Ok(())
    }

    fn try_init(&mut self, contact_data: &ContactInfo) -> (r: bool) {
        if !profile_supported(&self.rate_intervals, &self.delay_intervals) {
            return false;
        }
        let ok = try_init(
            &self.rate_intervals,
            &self.delay_intervals,
            &mut self.free_intervals,
            (),
            contact_data,
        );
        if ok {
            self.original_volume = get_profile_volume(&self.rate_intervals);
            proof {
                crate::contact_manager::segmentation::lemma_contiguous_ordered(
                    self.rate_intervals@,
                    contact_data.start as int,
                    contact_data.end as int,
                );
                assert(self.free_intervals@[0].start == contact_data.start);
            }
        }
        ok
    }

    fn get_original_volume(&self) -> (r: i128) {
        self.original_volume
    }

    fn manual_enqueue(&mut self, bundle: &Bundle) -> (r: bool) {
        false
    }

    fn manual_dequeue(&mut self, bundle: &Bundle) -> (r: bool) {
        false
    }
}

impl BaseSegmentationManager for SegmentationManager {
    open spec fn made_from(rates: Seq<Segment<DataRate>>, delays: Seq<Segment<Duration>>, m: Self) -> bool {
        &&& m.rate_intervals@ == rates
        &&& m.delay_intervals@ == delays
        &&& m.free_intervals@.len() == 0
        &&& m.original_volume == 0
    }

    fn new(rate_intervals: Vec<Segment<DataRate>>, delay_intervals: Vec<Segment<Duration>>) -> (r: Self) {
        SegmentationManager::new(rate_intervals, delay_intervals)
    }
}

/// Scheduling a window of positive length, on a well-formed manager, splits exactly the free
/// interval that contains the window: its part before the window (when there is one) and its
/// part after it take its place, and every other free interval stays.
pub proof fn lemma_schedule_splits_containing(
    m: SegmentationManager,
    after: SegmentationManager,
    lifespan: TimeInterval,
    tx: ContactManagerTxData,
    bundle: Bundle,
    k: int,
)
    requires
        m.wf(),
        m.spec_schedule_tx(lifespan, tx, bundle, after),
        0 <= k < m.free_intervals@.len(),
        m.free_intervals@[k].start <= tx.tx_window.start < tx.tx_window.end <= m.free_intervals@[k].end,
    ensures
        after.free_intervals@ == split_free(
            m.free_intervals@,
            k,
            tx.tx_window.start as int,
            tx.tx_window.end as int,
        ),
{
    let rates = m.rate_intervals@;
    lemma_first_containing_unique(
        m.free_intervals@,
        profile_start(rates),
        profile_end(rates),
        tx.tx_window.start as int,
        tx.tx_window.end as int,
        k,
    );
}

} // verus!
