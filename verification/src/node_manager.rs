//! Node resource managers.

use vstd::prelude::*;

use crate::errors::ASABRError;
use crate::types::{Bundle, Date, NodeID, TimeInterval};

verus! {

/// Decides whether a node can receive, retain and retransmit a bundle, and updates the node's
/// resources once a routing decision is committed.
///
/// Each implementation describes its decisions by spec functions; the executable methods are
/// bound to them by their `ensures` clauses.
pub trait NodeManager: Sized {
    /// Whether the node can receive the bundle during `time` from `sender`.
    spec fn spec_accept(&self, bundle: Bundle, time: TimeInterval, sender: NodeID) -> bool;

    /// The earliest date at which the bundle may be retransmitted towards `next_vertex`.
    spec fn spec_process_delay(
        &self,
        bundle: Bundle,
        reception: TimeInterval,
        sender: NodeID,
        next_vertex: NodeID,
    ) -> Date;

    /// Whether retaining the bundle until the candidate transmission is allowed.
    spec fn spec_dry_run_retention(
        &self,
        bundle: Bundle,
        reception: TimeInterval,
        sender: NodeID,
        transmission: TimeInterval,
        next_vertex: NodeID,
    ) -> bool;

    /// How many of the transmissions the node can perform, if it can accept the bundle.
    spec fn spec_dry_run_multi(
        &self,
        bundle: Bundle,
        reception: TimeInterval,
        sender: NodeID,
        transmissions: Seq<(TimeInterval, NodeID)>,
    ) -> Option<usize>;

    /// `after` is this manager once the transmissions are committed.
    spec fn spec_commit(
        &self,
        bundle: Bundle,
        reception: TimeInterval,
        sender: NodeID,
        transmissions: Seq<(TimeInterval, NodeID)>,
        after: Self,
    ) -> bool;

    /// Whether committing the transmissions succeeds on this manager.
    spec fn spec_commit_ok(
        &self,
        bundle: Bundle,
        reception: TimeInterval,
        sender: NodeID,
        transmissions: Seq<(TimeInterval, NodeID)>,
    ) -> bool;

    /// Committing transmissions that a dry run accepted in full succeeds.
    proof fn lemma_commit_after_dry_run(
        &self,
        bundle: Bundle,
        reception: TimeInterval,
        sender: NodeID,
        transmissions: Seq<(TimeInterval, NodeID)>,
    )
        requires
            transmissions.len() <= usize::MAX,
            self.spec_dry_run_multi(bundle, reception, sender, transmissions) == Some(transmissions.len() as usize),
        ensures
            self.spec_commit_ok(bundle, reception, sender, transmissions),
    ;

    /// Returns `false` if the node cannot receive the bundle during the given interval.
    fn accept(&self, bundle: &Bundle, time: TimeInterval, sender: NodeID) -> (r: bool)
        ensures
            r == self.spec_accept(*bundle, time, sender),
    ;

    /// The earliest date at which the bundle may be retransmitted; never earlier than the end
    /// of its reception.
    fn process_delay(
        &self,
        bundle: &Bundle,
        reception: TimeInterval,
        sender: NodeID,
        next_vertex: NodeID,
    ) -> (r: Date)
        ensures
            r == self.spec_process_delay(*bundle, reception, sender, next_vertex),
            r >= reception.end,
    ;

    /// Checks whether retaining the bundle until the candidate transmission is allowed.
    fn dry_run_retention(
        &self,
        bundle: &Bundle,
        reception: TimeInterval,
        sender: NodeID,
        transmission: TimeInterval,
        next_vertex: NodeID,
    ) -> (r: bool)
        ensures
            r == self.spec_dry_run_retention(*bundle, reception, sender, transmission, next_vertex),
    ;

    /// Returns `None` if the node cannot accept the bundle, or `Some(n)` if it can accept it and
    /// retransmit it through the first `n` transmissions.
    fn dry_run_multi(
        &self,
        bundle: &Bundle,
        reception: TimeInterval,
        sender: NodeID,
        transmissions: &[(TimeInterval, NodeID)],
    ) -> (r: Option<usize>)
        ensures
            r == self.spec_dry_run_multi(*bundle, reception, sender, transmissions@),
            r matches Some(n) ==> n <= transmissions@.len(),
    ;

    /// Commits the accepted transmissions and updates the node's resources.
    fn commit(
        &mut self,
        bundle: &Bundle,
        reception: TimeInterval,
        sender: NodeID,
        transmissions: &[(TimeInterval, NodeID)],
    ) -> (r: Result<(), ASABRError>)
        ensures
            r is Ok <==> old(self).spec_commit_ok(*bundle, reception, sender, transmissions@),
            r is Ok ==> old(self).spec_commit(
                *bundle,
                reception,
                sender,
                transmissions@,
                *final(self),
            ),
    ;
}

/// A node manager that applies no constraint.
#[derive(Debug, Default, Clone, Copy, PartialEq, Eq)]
pub struct NoManagement {}

impl NoManagement {
    /// Creates the manager.
    pub fn new() -> (r: NoManagement) {
        NoManagement {}
    }
}

impl NodeManager for NoManagement {
    open spec fn spec_accept(&self, bundle: Bundle, time: TimeInterval, sender: NodeID) -> bool {
        true
    }

    open spec fn spec_process_delay(
        &self,
        bundle: Bundle,
        reception: TimeInterval,
        sender: NodeID,
        next_vertex: NodeID,
    ) -> Date {
        reception.end
    }

    open spec fn spec_dry_run_retention(
        &self,
        bundle: Bundle,
        reception: TimeInterval,
        sender: NodeID,
        transmission: TimeInterval,
        next_vertex: NodeID,
    ) -> bool {
        true
    }

    open spec fn spec_dry_run_multi(
        &self,
        bundle: Bundle,
        reception: TimeInterval,
        sender: NodeID,
        transmissions: Seq<(TimeInterval, NodeID)>,
    ) -> Option<usize> {
        Some(transmissions.len() as usize)
    }

    open spec fn spec_commit(
        &self,
        bundle: Bundle,
        reception: TimeInterval,
        sender: NodeID,
        transmissions: Seq<(TimeInterval, NodeID)>,
        after: Self,
    ) -> bool {
        after == *self
    }

    open spec fn spec_commit_ok(
        &self,
        bundle: Bundle,
        reception: TimeInterval,
        sender: NodeID,
        transmissions: Seq<(TimeInterval, NodeID)>,
    ) -> bool {
        true
    }

    proof fn lemma_commit_after_dry_run(
        &self,
        bundle: Bundle,
        reception: TimeInterval,
        sender: NodeID,
        transmissions: Seq<(TimeInterval, NodeID)>,
    ) {
    }

    fn accept(&self, bundle: &Bundle, time: TimeInterval, sender: NodeID) -> (r: bool) {
        true
    }

    fn process_delay(
        &self,
        bundle: &Bundle,
        reception: TimeInterval,
        sender: NodeID,
        next_vertex: NodeID,
    ) -> (r: Date) {
        reception.end
    }

    fn dry_run_retention(
        &self,
        bundle: &Bundle,
        reception: TimeInterval,
        sender: NodeID,
        transmission: TimeInterval,
        next_vertex: NodeID,
    ) -> (r: bool) {
        true
    }

    fn dry_run_multi(
        &self,
        bundle: &Bundle,
        reception: TimeInterval,
        sender: NodeID,
        transmissions: &[(TimeInterval, NodeID)],
    ) -> (r: Option<usize>) {
        Some(transmissions.len())
    }

    fn commit(
        &mut self,
        bundle: &Bundle,
        reception: TimeInterval,
        sender: NodeID,
        transmissions: &[(TimeInterval, NodeID)],
    ) -> (r: Result<(), ASABRError>) {
        Ok(())
    }
}

} // verus!
