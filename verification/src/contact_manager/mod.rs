//! Contact resource managers: the trait, and its legacy and segmented implementations.

use vstd::prelude::*;

use crate::contact::ContactInfo;
use crate::errors::ASABRError;
use crate::types::{Bundle, Date, TimeInterval};

pub mod legacy;
pub mod segmentation;

verus! {

/// The windows during which a bundle is sent and received over a contact.
#[derive(Clone, Copy, PartialEq, Eq, Structural, Debug)]
pub struct ContactManagerTxData {
    /// Timespan necessary to send all the data.
    pub tx_window: TimeInterval,
    /// Timespan during which the data are received.
    pub rx_window: TimeInterval,
}

/// Manages the resources of a contact and schedules transmissions over it.
///
/// Each implementation describes its behaviour by spec functions; the executable methods
/// are bound to them by their `ensures` clauses.
pub trait ContactManager: Sized {
    /// The manager's internal invariant; it holds after a successful `try_init`.
    spec fn wf(&self) -> bool;

    /// What a dry run of a transmission at `at_time` gives.
    spec fn spec_dry_run_tx(
        &self,
        contact_lifespan: TimeInterval,
        at_time: Date,
        bundle: Bundle,
    ) -> Option<ContactManagerTxData>;

    /// `after` is this manager once a transmission found by a dry run is scheduled.
    spec fn spec_schedule_tx(
        &self,
        contact_lifespan: TimeInterval,
        tx_data: ContactManagerTxData,
        bundle: Bundle,
        after: Self,
    ) -> bool;

    /// Scheduling this bundle keeps every counter of the manager within range.
    spec fn spec_schedule_fits(&self, bundle: Bundle) -> bool;

    /// Whether initialization for these contact data succeeds.
    spec fn spec_try_init_ok(&self, contact_data: ContactInfo) -> bool;

    /// `after` is this manager once initialized for these contact data.
    spec fn spec_try_init(&self, contact_data: ContactInfo, after: Self) -> bool;

    /// The volume the contact could carry at initialization.
    spec fn spec_original_volume(&self) -> int;

    /// Whether the manager accepts manual queue updates.
    spec fn spec_manual_ok(&self) -> bool;

    /// `after` is this manager once the bundle is enqueued by hand.
    spec fn spec_manual_enqueue(&self, bundle: Bundle, after: Self) -> bool;

    /// `after` is this manager once the bundle is dequeued by hand.
    spec fn spec_manual_dequeue(&self, bundle: Bundle, after: Self) -> bool;

    /// Adding (`sign` 1) or removing (`sign` -1) the bundle by hand keeps every counter within
    /// range.
    spec fn spec_manual_fits(&self, bundle: Bundle, sign: int) -> bool;

    /// Simulates the transmission of a bundle over the contact at a given time.
    fn dry_run_tx(
        &self,
        contact_lifespan: TimeInterval,
        at_time: Date,
        bundle: &Bundle,
    ) -> (r: Option<ContactManagerTxData>)
        requires
            self.wf(),
            contact_lifespan.in_range(),
            bundle.wf(),
        ensures
            r == self.spec_dry_run_tx(contact_lifespan, at_time, *bundle),
    ;

    /// Schedules a transmission previously found by a dry run.
    /// Called with the result of a dry run, it never fails.
    fn schedule_tx(
        &mut self,
        contact_lifespan: TimeInterval,
        tx_data: ContactManagerTxData,
        bundle: &Bundle,
    ) -> (r: Result<(), ASABRError>)
        requires
            old(self).wf(),
            contact_lifespan.in_range(),
            bundle.wf(),
            old(self).spec_schedule_fits(*bundle),
            exists|t: Date|
                old(self).spec_dry_run_tx(contact_lifespan, t, *bundle) == Some(tx_data),
        ensures
            r is Ok,
            final(self).wf(),
            old(self).spec_schedule_tx(contact_lifespan, tx_data, *bundle, *final(self)),
    ;

    /// Finalizes the initialization of the manager for a contact, and tells whether the
    /// contact data are consistent with the manager.
    fn try_init(&mut self, contact_data: &ContactInfo) -> (r: bool)
        ensures
            r == old(self).spec_try_init_ok(*contact_data),
            old(self).spec_try_init(*contact_data, *final(self)),
            r ==> final(self).wf(),
            r ==> contact_data.lifespan().in_range(),
    ;

    /// The maximum volume the contact had at initialization.
    fn get_original_volume(&self) -> (r: i128)
        requires
            self.wf(),
        ensures
            r == self.spec_original_volume(),
    ;

    /// Adds a bundle to the manager's queue, if the manager is updated by hand.
    fn manual_enqueue(&mut self, bundle: &Bundle) -> (r: bool)
        requires
            old(self).wf(),
            bundle.wf(),
            old(self).spec_manual_fits(*bundle, 1),
        ensures
            r == old(self).spec_manual_ok(),
            old(self).spec_manual_enqueue(*bundle, *final(self)),
            final(self).wf(),
    ;

    /// Removes a bundle from the manager's queue, if the manager is updated by hand.
    fn manual_dequeue(&mut self, bundle: &Bundle) -> (r: bool)
        requires
            old(self).wf(),
            bundle.wf(),
            old(self).spec_manual_fits(*bundle, -1),
        ensures
            r == old(self).spec_manual_ok(),
            old(self).spec_manual_dequeue(*bundle, *final(self)),
            final(self).wf(),
    ;
}

} // verus!
