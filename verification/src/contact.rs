//! Contacts: windows of time during which a node can transmit to another.

use core::cmp::Ordering;

use vstd::prelude::*;

use crate::contact_manager::{ContactManager, ContactManagerTxData};
use crate::errors::ASABRError;
use crate::types::{Bundle, Date, NodeID, TimeInterval};

verus! {

/// Basic information about a contact between two nodes.
#[derive(Clone, Copy, Debug, PartialEq, Eq, Structural)]
pub struct ContactInfo {
    /// The ID of the transmitting node.
    pub tx_node_id: NodeID,
    /// The ID of the receiving node.
    pub rx_node_id: NodeID,
    /// The start time of the contact.
    pub start: Date,
    /// The end time of the contact.
    pub end: Date,
}

impl ContactInfo {
    /// The contact's window as an interval.
    pub open spec fn lifespan(self) -> TimeInterval {
        TimeInterval { start: self.start, end: self.end }
    }

    /// Creates a new `ContactInfo`.
    pub fn new(tx_node_id: NodeID, rx_node_id: NodeID, start: Date, end: Date) -> (r: Self)
        ensures
            r == (ContactInfo { tx_node_id, rx_node_id, start, end }),
    {
        Self { tx_node_id, rx_node_id, start, end }
    }

    /// The contact is valid when it starts before it ends.
    pub fn try_init(&self) -> (r: bool)
        ensures
            r == (self.start < self.end),
    {
        self.start < self.end
    }

    /// The contact's window as an interval.
    pub fn to_interval(&self) -> (r: TimeInterval)
        ensures
            r == self.lifespan(),
    {
        TimeInterval { start: self.start, end: self.end }
    }
}

/// A contact together with the manager of its resources.
#[derive(Clone, Copy, Debug)]
pub struct Contact<CM: ContactManager> {
    /// The contact's window of relevancy.
    pub lifespan: TimeInterval,
    /// The manager handling the contact's resources.
    pub manager: CM,
    /// Whether the contact is excluded from path construction.
    pub suppressed: bool,
}

impl<CM: ContactManager> Contact<CM> {
    /// The contact's window is valid and its manager is initialized.
    pub open spec fn wf(&self) -> bool {
        &&& self.lifespan.in_range()
        &&& self.manager.wf()
    }

    /// Creates a contact if its information and its manager are valid, and returns it with
    /// the indices of its transmitting and receiving nodes.
    pub fn try_new(info: ContactInfo, manager: CM) -> (r: Option<(Self, usize, usize)>)
        ensures
            r is Some <==> (info.start < info.end && manager.spec_try_init_ok(info)),
            r matches Some(t) ==> {
                &&& t.0.lifespan == info.lifespan()
                &&& manager.spec_try_init(info, t.0.manager)
                &&& !t.0.suppressed
                &&& t.0.wf()
                &&& t.1 == info.tx_node_id.index()
                &&& t.2 == info.rx_node_id.index()
            },
    {
        let mut manager = manager;
        if info.try_init() && manager.try_init(&info) {
            return Some(
                (
                    Contact {
                        lifespan: TimeInterval { start: info.start, end: info.end },
                        manager,
                        suppressed: false,
                    },
                    info.tx_node_id.as_usize(),
                    info.rx_node_id.as_usize(),
                ),
            );
        }
        None
    }

    /// Compares two contacts by their start time.
    pub fn cmp_by_start(&self, other: &Self) -> (r: Ordering)
        ensures
            r == (if self.lifespan.start < other.lifespan.start {
                Ordering::Less
            } else if self.lifespan.start == other.lifespan.start {
                Ordering::Equal
            } else {
                Ordering::Greater
            }),
    {
        if self.lifespan.start < other.lifespan.start {
            Ordering::Less
        } else if self.lifespan.start == other.lifespan.start {
            Ordering::Equal
        } else {
            Ordering::Greater
        }
    }

    /// Delegates the dry run to the manager.
    pub fn dry_run_tx(&self, at_time: Date, bundle: &Bundle) -> (r: Option<ContactManagerTxData>)
        requires
            self.wf(),
            bundle.wf(),
        ensures
            r == self.manager.spec_dry_run_tx(self.lifespan, at_time, *bundle),
    {
        self.manager.dry_run_tx(self.lifespan, at_time, bundle)
    }

    /// Delegates the scheduling to the manager.
    pub fn schedule_tx(&mut self, tx_data: ContactManagerTxData, bundle: &Bundle) -> (r: Result<
        (),
        ASABRError,
    >)
        requires
            old(self).wf(),
            bundle.wf(),
            old(self).manager.spec_schedule_fits(*bundle),
            exists|t: Date|
                old(self).manager.spec_dry_run_tx(old(self).lifespan, t, *bundle) == Some(
                    tx_data,
                ),
        ensures
            r is Ok,
            final(self).wf(),
            final(self).lifespan == old(self).lifespan,
            final(self).suppressed == old(self).suppressed,
            old(self).manager.spec_schedule_tx(
                old(self).lifespan,
                tx_data,
                *bundle,
                final(self).manager,
            ),
    {
        self.manager.schedule_tx(self.lifespan, tx_data, bundle)
    }

    /// Delegates to the manager the volume the contact had at initialization.
    pub fn get_original_volume(&self) -> (r: i128)
        requires
            self.wf(),
        ensures
            r == self.manager.spec_original_volume(),
    {
        self.manager.get_original_volume()
    }

    /// Delegates the manual enqueue to the manager.
    pub fn manual_enqueue(&mut self, bundle: &Bundle) -> (r: bool)
        requires
            old(self).wf(),
            bundle.wf(),
            old(self).manager.spec_manual_fits(*bundle, 1),
        ensures
            final(self).wf(),
            final(self).lifespan == old(self).lifespan,
            final(self).suppressed == old(self).suppressed,
            r == old(self).manager.spec_manual_ok(),
            old(self).manager.spec_manual_enqueue(*bundle, final(self).manager),
    {
        self.manager.manual_enqueue(bundle)
    }

    /// Delegates the manual dequeue to the manager.
    pub fn manual_dequeue(&mut self, bundle: &Bundle) -> (r: bool)
        requires
            old(self).wf(),
            bundle.wf(),
            old(self).manager.spec_manual_fits(*bundle, -1),
        ensures
            final(self).wf(),
            final(self).lifespan == old(self).lifespan,
            final(self).suppressed == old(self).suppressed,
            r == old(self).manager.spec_manual_ok(),
            old(self).manager.spec_manual_dequeue(*bundle, final(self).manager),
    {
        self.manager.manual_dequeue(bundle)
    }
}

} // verus!
