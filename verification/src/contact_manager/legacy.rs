//! Legacy volume-based contact managers (EVL, ETO, QD and their priority variants).

use vstd::prelude::*;

use crate::contact::ContactInfo;
use crate::contact_manager::{ContactManager, ContactManagerTxData};
use crate::errors::ASABRError;
use crate::types::{
    date_ok, volume_ok, Bundle, DataRate, Date, Duration, TimeInterval, Volume, DATE_BOUND,
    VOLUME_BOUND,
};

verus! {

/// The index of the queue (and budget) that a bundle of priority `p` uses.
pub open spec fn prio_index(p: i8, prio_count: usize) -> int {
    if 0 <= p && (p as int) < prio_count {
        p as int
    } else {
        prio_count - 1
    }
}

/// How many queues, starting from the lowest priority, a bundle of priority `p` occupies.
/// The priority is read as an unsigned index, as the machine does: `-1` wraps to no queue and
/// lower values to every queue.
pub open spec fn enqueue_count(p: i8, prio_count: usize) -> int {
    if p >= 0 {
        if (p as int) + 1 < prio_count {
            (p as int) + 1
        } else {
            prio_count as int
        }
    } else if p == -1 {
        0
    } else {
        prio_count as int
    }
}

/// The dry run of the legacy managers, in mathematical integers.
pub open spec fn legacy_dry_run(
    add_delay: bool,
    auto_update: bool,
    rate: int,
    delay: int,
    queue: int,
    budget: int,
    lifespan: TimeInterval,
    at_time: int,
    size: int,
) -> Option<ContactManagerTxData> {
    if size > budget - queue {
        None
    } else {
        let contact_start = if add_delay && auto_update {
            lifespan.start + queue / rate
        } else {
            lifespan.start as int
        };
        let tx_start0 = if contact_start > at_time {
            contact_start
        } else {
            at_time
        };
        let tx_start = if add_delay && !auto_update {
            tx_start0 + queue / rate
        } else {
            tx_start0
        };
        let tx_end = tx_start + size / rate;
        if tx_end > lifespan.end {
            None
        } else {
            Some(
                ContactManagerTxData {
                    tx_window: TimeInterval { start: tx_start as i64, end: tx_end as i64 },
                    rx_window: TimeInterval {
                        start: (tx_start + delay) as i64,
                        end: (tx_end + delay) as i64,
                    },
                },
            )
        }
    }
}

/// The queues once a bundle of priority `p` and size `size` is added (`sign == 1`) or
/// removed (`sign == -1`).
pub open spec fn shifted_queues(q: Seq<i64>, p: i8, size: int, sign: int) -> Seq<i64> {
    Seq::new(
        q.len(),
        |i: int|
            if i < enqueue_count(p, q.len() as usize) {
                (q[i] + sign * size) as i64
            } else {
                q[i]
            },
    )
}

/// A generic legacy volume manager, with `PRIO_COUNT` priority queues, and with per-priority
/// budgets when `BUDGETED`.
#[derive(Debug, Clone)]
pub struct VolumeManager<const PRIO_COUNT: usize, const BUDGETED: bool> {
    /// The data rate of the contact.
    pub rate: DataRate,
    /// The propagation delay of the contact.
    pub delay: Duration,
    /// The booked volume, one queue per priority.
    pub queue_size: Vec<Volume>,
    /// The budget of each priority.
    pub budgets: Vec<Volume>,
    /// The volume of the contact, set at initialization.
    pub original_volume: i128,
}

impl<const PRIO_COUNT: usize, const BUDGETED: bool> VolumeManager<PRIO_COUNT, BUDGETED> {
    /// Shapes of the vectors, and rate, delay and queues within range.
    pub open spec fn wf(&self) -> bool {
        &&& PRIO_COUNT >= 1
        &&& self.queue_size.len() == PRIO_COUNT
        &&& self.budgets.len() == PRIO_COUNT
        &&& self.rate >= 1
        &&& date_ok(self.delay as int)
        &&& forall|i: int| 0 <= i < PRIO_COUNT ==> volume_ok(#[trigger] self.queue_size@[i] as int)
        &&& -original_volume_bound() <= self.original_volume <= original_volume_bound()
    }

    /// The queue occupancy that a bundle sees.
    pub open spec fn spec_queue(&self, b: Bundle) -> int {
        self.queue_size@[prio_index(b.priority, PRIO_COUNT)] as int
    }

    /// The volume that a bundle may use.
    pub open spec fn spec_budget(&self, b: Bundle) -> int {
        if BUDGETED {
            self.budgets@[prio_index(b.priority, PRIO_COUNT)] as int
        } else {
            self.original_volume as int
        }
    }

    /// Every queue that a bundle occupies stays within range once the bundle is added or removed.
    pub open spec fn shift_fits(&self, b: Bundle, sign: int) -> bool {
        forall|i: int|
            0 <= i < enqueue_count(b.priority, PRIO_COUNT) ==> volume_ok(
                #[trigger] self.queue_size@[i] + sign * b.size,
            )
    }

    fn index_of(&self, bundle: &Bundle) -> (r: usize)
        requires
            self.wf(),
        ensures
            r == prio_index(bundle.priority, PRIO_COUNT),
            r < PRIO_COUNT,
    {
        if bundle.priority >= 0 && (bundle.priority as usize) < PRIO_COUNT {
            bundle.priority as usize
        } else {
            PRIO_COUNT - 1
        }
    }

    fn count_of(&self, bundle: &Bundle) -> (r: usize)
        requires
            self.wf(),
        ensures
            r == enqueue_count(bundle.priority, PRIO_COUNT),
            r <= PRIO_COUNT,
    {
        if bundle.priority >= 0 {
            let c: usize = bundle.priority as usize + 1;
            if c < PRIO_COUNT {
                c
            } else {
                PRIO_COUNT
            }
        } else if bundle.priority == -1 {
            0
        } else {
            PRIO_COUNT
        }
    }

    /// The queue occupancy that a bundle sees.
    fn get_queue_size(&self, bundle: &Bundle) -> (r: Volume)
        requires
            self.wf(),
        ensures
            r == self.spec_queue(*bundle),
    {
        let i = self.index_of(bundle);
        self.queue_size[i]
    }

    /// The volume that a bundle may use.
    fn get_budget(&self, bundle: &Bundle) -> (r: i128)
        requires
            self.wf(),
        ensures
            r == self.spec_budget(*bundle),
    {
        if BUDGETED {
            let i = self.index_of(bundle);
            self.budgets[i] as i128
        } else {
            self.original_volume
        }
    }

    /// Adds the bundle to every queue of its priority and below.
    fn enqueue(&mut self, bundle: &Bundle)
        requires
            old(self).wf(),
            bundle.wf(),
            old(self).shift_fits(*bundle, 1),
        ensures
            final(self).wf(),
            final(self).queue_size@ == shifted_queues(
                old(self).queue_size@,
                bundle.priority,
                bundle.size as int,
                1,
            ),
            final(self).budgets == old(self).budgets,
            final(self).rate == old(self).rate,
            final(self).delay == old(self).delay,
            final(self).original_volume == old(self).original_volume,
    {
        let n = self.count_of(bundle);
        let ghost q0 = self.queue_size@;
        let mut prio: usize = 0;
        while prio < n
            invariant
                n == enqueue_count(bundle.priority, PRIO_COUNT),
                n <= PRIO_COUNT,
                prio <= n,
                self.queue_size.len() == PRIO_COUNT,
                q0.len() == PRIO_COUNT,
                old(self).queue_size@ == q0,
                old(self).shift_fits(*bundle, 1),
                forall|i: int| 0 <= i < prio ==> #[trigger] self.queue_size@[i] == q0[i] + bundle.size,
                forall|i: int| prio <= i < PRIO_COUNT ==> #[trigger] self.queue_size@[i] == q0[i],
                self.budgets == old(self).budgets,
                self.rate == old(self).rate,
                self.delay == old(self).delay,
                self.original_volume == old(self).original_volume,
            decreases n - prio,
        {
            assert(volume_ok(q0[prio as int] + bundle.size));
            let v = self.queue_size[prio] + bundle.size;
            self.queue_size.set(prio, v);
            prio = prio + 1;
        }
        assert(self.queue_size@ =~= shifted_queues(q0, bundle.priority, bundle.size as int, 1));
    }

    /// Removes the bundle from every queue of its priority and below.
    fn dequeue(&mut self, bundle: &Bundle)
        requires
            old(self).wf(),
            bundle.wf(),
            old(self).shift_fits(*bundle, -1),
        ensures
            final(self).wf(),
            final(self).queue_size@ == shifted_queues(
                old(self).queue_size@,
                bundle.priority,
                bundle.size as int,
                -1,
            ),
            final(self).budgets == old(self).budgets,
            final(self).rate == old(self).rate,
            final(self).delay == old(self).delay,
            final(self).original_volume == old(self).original_volume,
    {
        let n = self.count_of(bundle);
        let ghost q0 = self.queue_size@;
        let mut prio: usize = 0;
        while prio < n
            invariant
                n == enqueue_count(bundle.priority, PRIO_COUNT),
                n <= PRIO_COUNT,
                prio <= n,
                self.queue_size.len() == PRIO_COUNT,
                q0.len() == PRIO_COUNT,
                old(self).queue_size@ == q0,
                old(self).shift_fits(*bundle, -1),
                forall|i: int| 0 <= i < prio ==> #[trigger] self.queue_size@[i] == q0[i] - bundle.size,
                forall|i: int| prio <= i < PRIO_COUNT ==> #[trigger] self.queue_size@[i] == q0[i],
                self.budgets == old(self).budgets,
                self.rate == old(self).rate,
                self.delay == old(self).delay,
                self.original_volume == old(self).original_volume,
            decreases n - prio,
        {
            assert(volume_ok(q0[prio as int] + (-1) * bundle.size));
            let v = self.queue_size[prio] - bundle.size;
            self.queue_size.set(prio, v);
            prio = prio + 1;
        }
        assert(self.queue_size@ =~= shifted_queues(q0, bundle.priority, bundle.size as int, -1));
    }
}

fn zero_queues(n: usize) -> (r: Vec<Volume>)
    ensures
        r@.len() == n,
        forall|i: int| 0 <= i < n ==> #[trigger] r@[i] == 0,
{
    let mut v: Vec<Volume> = Vec::new();
    let mut i: usize = 0;
    while i < n
        invariant
            i <= n,
            v@.len() == i,
            forall|j: int| 0 <= j < i ==> #[trigger] v@[j] == 0,
        decreases n - i,
    {
        v.push(0);
        i = i + 1;
    }
    v
}

impl<const PRIO_COUNT: usize> VolumeManager<PRIO_COUNT, false> {
    /// Creates a volume manager without budgets.
    pub fn new(rate: DataRate, delay: Duration) -> (r: Self)
        ensures
            r.rate == rate,
            r.delay == delay,
            r.queue_size@.len() == PRIO_COUNT,
            r.budgets@.len() == PRIO_COUNT,
            forall|i: int| 0 <= i < PRIO_COUNT ==> #[trigger] r.queue_size@[i] == 0,
            forall|i: int| 0 <= i < PRIO_COUNT ==> #[trigger] r.budgets@[i] == 0,
            r.original_volume == 0,
    {
        VolumeManager {
            rate,
            delay,
            queue_size: zero_queues(PRIO_COUNT),
            budgets: zero_queues(PRIO_COUNT),
            original_volume: 0,
        }
    }
}

impl<const PRIO_COUNT: usize> VolumeManager<PRIO_COUNT, true> {
    /// Creates a volume manager with per-priority budgets.
    pub fn new(rate: DataRate, delay: Duration, budgets: [Volume; PRIO_COUNT]) -> (r: Self)
        ensures
            r.rate == rate,
            r.delay == delay,
            r.queue_size@.len() == PRIO_COUNT,
            forall|i: int| 0 <= i < PRIO_COUNT ==> #[trigger] r.queue_size@[i] == 0,
            r.budgets@ == budgets@,
            r.original_volume == 0,
    {
        let mut b: Vec<Volume> = Vec::new();
        let mut i: usize = 0;
        while i < PRIO_COUNT
            invariant
                i <= PRIO_COUNT,
                b@.len() == i,
                budgets@.len() == PRIO_COUNT,
                forall|j: int| 0 <= j < i ==> #[trigger] b@[j] == budgets@[j],
            decreases PRIO_COUNT - i,
        {
            b.push(budgets[i]);
            i = i + 1;
        }
        assert(b@ =~= budgets@);
        VolumeManager { rate, delay, queue_size: zero_queues(PRIO_COUNT), budgets: b, original_volume: 0 }
    }
}

/// A legacy volume manager.
///
/// - `ADD_DELAY`: whether the booked volume delays the transmission.
/// - `AUTO_UPDATE`: whether the manager books the volume itself when scheduling (otherwise the
///   queue is updated by hand, and reflects the real queue occupancy, as for ETO).
/// - `PRIO_COUNT`: the number of priority levels (`1` for no priority logic).
/// - `BUDGETED`: whether each priority has its own budget.
#[derive(Debug, Clone)]
pub struct LegacyManager<
    const ADD_DELAY: bool,
    const AUTO_UPDATE: bool,
    const PRIO_COUNT: usize,
    const BUDGETED: bool,
>(pub VolumeManager<PRIO_COUNT, BUDGETED>);

impl<
    const ADD_DELAY: bool,
    const AUTO_UPDATE: bool,
    const PRIO_COUNT: usize,
    const BUDGETED: bool,
> ContactManager for LegacyManager<ADD_DELAY, AUTO_UPDATE, PRIO_COUNT, BUDGETED> {
    open spec fn wf(&self) -> bool {
        self.0.wf()
    }

    open spec fn spec_dry_run_tx(
        &self,
        contact_lifespan: TimeInterval,
        at_time: Date,
        bundle: Bundle,
    ) -> Option<ContactManagerTxData> {
        legacy_dry_run(
            ADD_DELAY,
            AUTO_UPDATE,
            self.0.rate as int,
            self.0.delay as int,
            self.0.spec_queue(bundle),
            self.0.spec_budget(bundle),
            contact_lifespan,
            at_time as int,
            bundle.size as int,
        )
    }

    open spec fn spec_schedule_tx(
        &self,
        contact_lifespan: TimeInterval,
        tx_data: ContactManagerTxData,
        bundle: Bundle,
        after: Self,
    ) -> bool {
        &&& after.0.rate == self.0.rate
        &&& after.0.delay == self.0.delay
        &&& after.0.budgets@ == self.0.budgets@
        &&& after.0.original_volume == self.0.original_volume
        &&& after.0.queue_size@ == if AUTO_UPDATE {
            shifted_queues(self.0.queue_size@, bundle.priority, bundle.size as int, 1)
        } else {
            self.0.queue_size@
        }
    }

    open spec fn spec_schedule_fits(&self, bundle: Bundle) -> bool {
        AUTO_UPDATE ==> self.0.shift_fits(bundle, 1)
    }

    /// The contact's window is within the supported date range, and the rate and delay are
    /// ones the dry runs compute with: a rate of at least one (a transmission time divides
    /// the volume by it) and a delay within the supported range.
    open spec fn spec_try_init_ok(&self, contact_data: ContactInfo) -> bool {
        &&& contact_data.lifespan().in_range()
        &&& self.0.rate >= 1
        &&& date_ok(self.0.delay as int)
        &&& PRIO_COUNT >= 1
        &&& self.0.queue_size@.len() == PRIO_COUNT
        &&& self.0.budgets@.len() == PRIO_COUNT
        &&& forall|i: int| 0 <= i < PRIO_COUNT ==> volume_ok(#[trigger] self.0.queue_size@[i] as int)
    }

    open spec fn spec_try_init(&self, contact_data: ContactInfo, after: Self) -> bool {
        &&& after.0.rate == self.0.rate
        &&& after.0.delay == self.0.delay
        &&& after.0.budgets@ == self.0.budgets@
        &&& after.0.queue_size@ == self.0.queue_size@
        &&& after.0.original_volume == if self.spec_try_init_ok(contact_data) {
            (contact_data.end - contact_data.start) * self.0.rate
        } else {
            self.0.original_volume as int
        }
    }

    open spec fn spec_original_volume(&self) -> int {
        self.0.original_volume as int
    }

    open spec fn spec_manual_ok(&self) -> bool {
        !AUTO_UPDATE
    }

    open spec fn spec_manual_enqueue(&self, bundle: Bundle, after: Self) -> bool {
        &&& after.0.rate == self.0.rate
        &&& after.0.delay == self.0.delay
        &&& after.0.budgets@ == self.0.budgets@
        &&& after.0.original_volume == self.0.original_volume
        &&& after.0.queue_size@ == if AUTO_UPDATE {
            self.0.queue_size@
        } else {
            shifted_queues(self.0.queue_size@, bundle.priority, bundle.size as int, 1)
        }
    }

    open spec fn spec_manual_dequeue(&self, bundle: Bundle, after: Self) -> bool {
        &&& after.0.rate == self.0.rate
        &&& after.0.delay == self.0.delay
        &&& after.0.budgets@ == self.0.budgets@
        &&& after.0.original_volume == self.0.original_volume
        &&& after.0.queue_size@ == if AUTO_UPDATE {
            self.0.queue_size@
        } else {
            shifted_queues(self.0.queue_size@, bundle.priority, bundle.size as int, -1)
        }
    }

    open spec fn spec_manual_fits(&self, bundle: Bundle, sign: int) -> bool {
        !AUTO_UPDATE ==> self.0.shift_fits(bundle, sign)
    }

    fn dry_run_tx(
        &self,
        contact_lifespan: TimeInterval,
        at_time: Date,
        bundle: &Bundle,
    ) -> (r: Option<ContactManagerTxData>) {
        let queue_size = self.0.get_queue_size(bundle);
        let budget = self.0.get_budget(bundle);
        if (bundle.size as i128) > budget - (queue_size as i128) {
            return None;
        }
        let rate = self.0.rate;
        proof {
            lemma_div_bounds(queue_size as int, rate as int);
            lemma_div_bounds(bundle.size as int, rate as int);
        }
        let mut contact_start = contact_lifespan.start;
        if ADD_DELAY && AUTO_UPDATE {
            contact_start = contact_start + queue_size / rate;
        }
        let mut tx_start = if contact_start > at_time {
            contact_start
        } else {
            at_time
        };
        if tx_start > contact_lifespan.end {
            return None;
        }
        if ADD_DELAY && !AUTO_UPDATE {
            tx_start = tx_start + queue_size / rate;
            if tx_start > contact_lifespan.end {
                return None;
            }
        }
        let tx_end = tx_start + bundle.size / rate;
        if tx_end > contact_lifespan.end {
            return None;
        }
        Some(
            ContactManagerTxData {
                tx_window: TimeInterval { start: tx_start, end: tx_end },
                rx_window: TimeInterval {
                    start: tx_start + self.0.delay,
                    end: tx_end + self.0.delay,
                },
            },
        )
    }

    fn schedule_tx(
        &mut self,
        contact_lifespan: TimeInterval,
        tx_data: ContactManagerTxData,
        bundle: &Bundle,
    ) -> (r: Result<(), ASABRError>) {
        if AUTO_UPDATE {
            self.0.enqueue(bundle);
        }
        Ok(())
    }

    fn try_init(&mut self, contact_data: &ContactInfo) -> (r: bool) {
        let ok = -DATE_BOUND <= contact_data.start && contact_data.start <= DATE_BOUND
            && -DATE_BOUND <= contact_data.end && contact_data.end <= DATE_BOUND
            && self.0.rate >= 1 && -DATE_BOUND <= self.0.delay && self.0.delay <= DATE_BOUND
            && PRIO_COUNT >= 1 && self.0.queue_size.len() == PRIO_COUNT
            && self.0.budgets.len() == PRIO_COUNT && self.queues_in_range();
        if ok {
            let span = (contact_data.end as i128) - (contact_data.start as i128);
            proof {
                lemma_span_product(span as int, self.0.rate as int);
            }
            self.0.original_volume = span * (self.0.rate as i128);
        }
        ok
    }

    fn get_original_volume(&self) -> (r: i128) {
        self.0.original_volume
    }

    fn manual_enqueue(&mut self, bundle: &Bundle) -> (r: bool) {
        if AUTO_UPDATE {
            false
        } else {
            self.0.enqueue(bundle);
            true
        }
    }

    fn manual_dequeue(&mut self, bundle: &Bundle) -> (r: bool) {
        if AUTO_UPDATE {
            false
        } else {
            self.0.dequeue(bundle);
            true
        }
    }
}

impl<
    const ADD_DELAY: bool,
    const AUTO_UPDATE: bool,
    const PRIO_COUNT: usize,
    const BUDGETED: bool,
> LegacyManager<ADD_DELAY, AUTO_UPDATE, PRIO_COUNT, BUDGETED> {
    fn queues_in_range(&self) -> (r: bool)
        ensures
            r == (forall|i: int|
                0 <= i < self.0.queue_size@.len() ==> volume_ok(
                    #[trigger] self.0.queue_size@[i] as int,
                )),
    {
        let mut i: usize = 0;
        while i < self.0.queue_size.len()
            invariant
                i <= self.0.queue_size@.len(),
                forall|j: int| 0 <= j < i ==> volume_ok(#[trigger] self.0.queue_size@[j] as int),
            decreases self.0.queue_size@.len() - i,
        {
            let v = self.0.queue_size[i];
            if v < 0 || v > VOLUME_BOUND {
                return false;
            }
            i = i + 1;
        }
        true
    }
}

/// Dequeuing by hand the bundle just enqueued by hand gives the queues back, and with them the
/// same dry runs.
pub proof fn lemma_manual_dequeue_undoes_enqueue<
    const ADD_DELAY: bool,
    const AUTO_UPDATE: bool,
    const PRIO_COUNT: usize,
    const BUDGETED: bool,
>(
    m: LegacyManager<ADD_DELAY, AUTO_UPDATE, PRIO_COUNT, BUDGETED>,
    m1: LegacyManager<ADD_DELAY, AUTO_UPDATE, PRIO_COUNT, BUDGETED>,
    m2: LegacyManager<ADD_DELAY, AUTO_UPDATE, PRIO_COUNT, BUDGETED>,
    bundle: Bundle,
    lifespan: TimeInterval,
    at_time: Date,
    other: Bundle,
)
    requires
        m.wf(),
        m.spec_manual_fits(bundle, 1),
        m.spec_manual_enqueue(bundle, m1),
        m1.spec_manual_dequeue(bundle, m2),
    ensures
        m2.0.queue_size@ == m.0.queue_size@,
        m2.spec_dry_run_tx(lifespan, at_time, other) == m.spec_dry_run_tx(lifespan, at_time, other),
{
    if !AUTO_UPDATE {
        let q = m.0.queue_size@;
        let q1 = shifted_queues(q, bundle.priority, bundle.size as int, 1);
        assert forall|i: int| 0 <= i < q.len() implies #[trigger] shifted_queues(q1, bundle.priority, bundle.size as int, -1)[i]
            == q[i] by {
            if i < enqueue_count(bundle.priority, q.len() as usize) {
                assert(volume_ok(q[i] + bundle.size));
            }
        }
        assert(m2.0.queue_size@ =~= q);
    }
}

proof fn lemma_div_bounds(x: int, y: int)
    requires
        0 <= x,
        1 <= y,
    ensures
        0 <= x / y <= x,
{
    assert(0 <= x / y <= x) by (nonlinear_arith)
        requires
            0 <= x,
            1 <= y,
    ;
}

/// The largest magnitude of a contact's original volume.
pub open spec fn original_volume_bound() -> int {
    0x4000_0000_0000_0000_0000_0000_0000_0000
}

proof fn lemma_span_product(span: int, rate: int)
    requires
        -0x4000_0000_0000_0000 <= span <= 0x4000_0000_0000_0000,
        1 <= rate <= i64::MAX,
    ensures
        -original_volume_bound() <= span * rate <= original_volume_bound(),
{
    assert(-0x4000_0000_0000_0000_0000_0000_0000_0000 <= span * rate
        <= 0x4000_0000_0000_0000_0000_0000_0000_0000) by (nonlinear_arith)
        requires
            -0x4000_0000_0000_0000 <= span <= 0x4000_0000_0000_0000,
            1 <= rate <= 0x8000_0000_0000_0000,
    ;
}

impl<const ADD_DELAY: bool, const AUTO_UPDATE: bool, const PRIO_COUNT: usize> LegacyManager<
    ADD_DELAY,
    AUTO_UPDATE,
    PRIO_COUNT,
    false,
> {
    /// Creates a legacy manager without budgets.
    pub fn new(rate: DataRate, delay: Duration) -> (r: Self)
        ensures
            r.0.rate == rate,
            r.0.delay == delay,
            r.0.queue_size@.len() == PRIO_COUNT,
            r.0.budgets@.len() == PRIO_COUNT,
            forall|i: int| 0 <= i < PRIO_COUNT ==> #[trigger] r.0.queue_size@[i] == 0,
            forall|i: int| 0 <= i < PRIO_COUNT ==> #[trigger] r.0.budgets@[i] == 0,
            r.0.original_volume == 0,
    {
        LegacyManager(VolumeManager::<PRIO_COUNT, false>::new(rate, delay))
    }
}

impl<const ADD_DELAY: bool, const AUTO_UPDATE: bool, const PRIO_COUNT: usize> LegacyManager<
    ADD_DELAY,
    AUTO_UPDATE,
    PRIO_COUNT,
    true,
> {
    /// Creates a legacy manager with per-priority budgets.
    pub fn new(rate: DataRate, delay: Duration, budgets: [Volume; PRIO_COUNT]) -> (r: Self)
        ensures
            r.0.rate == rate,
            r.0.delay == delay,
            r.0.queue_size@.len() == PRIO_COUNT,
            forall|i: int| 0 <= i < PRIO_COUNT ==> #[trigger] r.0.queue_size@[i] == 0,
            r.0.budgets@ == budgets@,
            r.0.original_volume == 0,
    {
        LegacyManager(VolumeManager::<PRIO_COUNT, true>::new(rate, delay, budgets))
    }
}

/// EVL: the transmission starts as soon as possible; scheduling books the volume.
pub type EVLManager = LegacyManager<false, true, 1, false>;
/// EVL with priorities.
pub type PEVLManager = LegacyManager<false, true, 3, false>;
/// EVL with priorities and budgets.
pub type PBEVLManager = LegacyManager<false, true, 3, true>;

/// ETO: the queue, updated by hand, delays the transmission from the current time.
pub type ETOManager = LegacyManager<true, false, 1, false>;
/// ETO with priorities.
pub type PETOManager = LegacyManager<true, false, 3, false>;
/// ETO with priorities and budgets.
pub type PBETOManager = LegacyManager<true, false, 3, true>;

/// QD: the booked volume delays the transmission from the contact start.
pub type QDManager = LegacyManager<true, true, 1, false>;
/// QD with priorities.
pub type PQDManager = LegacyManager<true, true, 3, false>;
/// QD with priorities and budgets.
pub type PBQDManager = LegacyManager<true, true, 3, true>;

} // verus!
