//! Worker records: identity, network address, status and liveness stamps.
//! A record is created on registration and mutated only through status
//! transitions, address changes and heartbeat touches.

use vstd::prelude::*;

verus! {

use crate::types::{Id, TimeStamp, spec_parse_id};

/// Dispatch eligibility of one worker.
#[derive(Clone, Copy, Debug, PartialEq, Eq, Structural)]
pub enum WorkerStatus {
    /// Eligible for dispatch.
    Available,
    /// Bound to an execution under the single-tenant policy.
    Occupied,
    /// Administratively excluded.
    Disabled,
    /// Liveness lost; never dispatched to until it re-registers.
    Unknown,
}

impl Default for WorkerStatus {
    /// A fresh worker is available.
    fn default() -> (r: WorkerStatus)
        ensures
            r == WorkerStatus::Available,
    {
        WorkerStatus::Available
    }
}

/// The identity of one worker.
#[derive(Clone, Copy, Debug, PartialEq, Eq, Structural, PartialOrd, Ord, Hash)]
pub struct WorkerId(pub Id);

impl WorkerId {
    /// Reads a worker identity back from its textual form.
    pub fn parse(s: &str) -> (r: Option<WorkerId>)
        ensures
            r == (match spec_parse_id(s@) {
                Some(id) => Some(WorkerId(id)),
                None => None,
            }),
    {
        match Id::parse(s) {
            Some(id) => Some(WorkerId(id)),
            None => None,
        }
    }
}

/// A worker's network endpoint, opaque to the core.
#[derive(Debug, PartialEq, Eq)]
pub struct WorkerAddress(pub String);

impl Clone for WorkerAddress {
    fn clone(&self) -> (r: WorkerAddress)
        ensures
            r == *self,
    {
        WorkerAddress(self.0.clone())
    }
}

impl From<String> for WorkerAddress {
    fn from(s: String) -> (r: WorkerAddress) {
        WorkerAddress(s)
    }
}

impl vstd::std_specs::convert::FromSpecImpl<String> for WorkerAddress {
    open spec fn obeys_from_spec() -> bool {
        true
    }

    open spec fn from_spec(s: String) -> WorkerAddress {
        WorkerAddress(s)
    }
}

/// One worker's record: created on registration, never mutated except by
/// status transitions, address changes and heartbeat touches.
#[derive(Debug)]
pub struct Worker {
    pub id: WorkerId,
    pub address: WorkerAddress,
    pub status: WorkerStatus,
    pub create_time: TimeStamp,
    pub last_heartbeat: TimeStamp,
}

impl Clone for Worker {
    fn clone(&self) -> (r: Worker)
        ensures
            r == *self,
    {
        Worker {
            id: self.id,
            address: self.address.clone(),
            status: self.status,
            create_time: self.create_time,
            last_heartbeat: self.last_heartbeat,
        }
    }
}

impl Worker {
    /// A record with every part given; registration at a known instant.
    pub fn with_parts(id: WorkerId, address: WorkerAddress, now: TimeStamp) -> (r: Worker)
        ensures
            r == (Worker {
                id,
                address,
                status: WorkerStatus::Available,
                create_time: now,
                last_heartbeat: now,
            }),
    {
        Worker { id, address, status: WorkerStatus::Available, create_time: now, last_heartbeat: now }
    }

    /// A fresh record: a newly drawn identity, the clock's instant, and
    /// status available.
    pub fn new(address: WorkerAddress) -> (r: Worker)
        ensures
            r.address == address,
            r.status == WorkerStatus::Available,
            r.create_time == r.last_heartbeat,
    {
        let id = WorkerId(Id::new());
        let now = TimeStamp::now();
        Worker::with_parts(id, address, now)
    }

    /// The worker's identity.
    pub fn id(&self) -> (r: &WorkerId)
        ensures
            r == self.id,
    {
        &self.id
    }

    /// The worker's endpoint.
    pub fn address(&self) -> (r: &WorkerAddress)
        ensures
            r == self.address,
    {
        &self.address
    }

    /// The worker's status.
    pub fn status(&self) -> (r: &WorkerStatus)
        ensures
            r == self.status,
    {
        &self.status
    }

    /// Refreshes the liveness stamp to the given instant; nothing else moves.
    pub fn touch_at(&mut self, now: TimeStamp)
        ensures
            *final(self) == (Worker { last_heartbeat: now, ..*old(self) }),
    {
        self.last_heartbeat = now;
    }

    /// Refreshes the liveness stamp from the wall clock; identity, address,
    /// status and creation time stay as they were.
    pub fn touch(&mut self)
        ensures
            final(self).id == old(self).id,
            final(self).address == old(self).address,
            final(self).status == old(self).status,
            final(self).create_time == old(self).create_time,
    {
        let now = TimeStamp::now();
        self.touch_at(now);
    }

    /// Replaces the endpoint; nothing else moves.
    pub fn update_address(&mut self, address: WorkerAddress)
        ensures
            *final(self) == (Worker { address, ..*old(self) }),
    {
        self.address = address;
    }

    /// Replaces the status; nothing else moves.
    pub fn update_status(&mut self, status: WorkerStatus)
        ensures
            *final(self) == (Worker { status, ..*old(self) }),
    {
        self.status = status;
    }
}

/// What a restarting worker should do about its identity: re-announce the
/// stored one, or register fresh.
#[derive(Clone, Copy, Debug, PartialEq, Eq, Structural)]
pub enum IdentityPlan {
    /// A previously issued identity was stored and reads back: re-announce.
    UseStored(WorkerId),
    /// Nothing usable was stored: register as a new worker.
    RegisterFresh,
}

/// Decides how a restarting worker announces itself: a stored identity file
/// that parses is reused; a missing or corrupt one is discarded and the
/// worker registers fresh. Corrupt local state is recovered, never fatal.
pub fn plan_identity(stored: Option<&str>) -> (r: IdentityPlan)
    ensures
        r == (match stored {
            Some(s) => (match spec_parse_id(s@) {
                Some(id) => IdentityPlan::UseStored(WorkerId(id)),
                None => IdentityPlan::RegisterFresh,
            }),
            None => IdentityPlan::RegisterFresh,
        }),
{
    match stored {
        Some(s) => match WorkerId::parse(s) {
            Some(id) => IdentityPlan::UseStored(id),
            None => IdentityPlan::RegisterFresh,
        },
        None => IdentityPlan::RegisterFresh,
    }
}

/// Prepares a worker's re-announcement: the current record, when the
/// control plane has one, moves to the worker's present address and back to
/// Available; without one the worker must register fresh, reported as None.
pub fn reannounce(current: Option<Worker>, address: WorkerAddress) -> (r: Option<Worker>)
    ensures
        r == (match current {
            Some(w) => Some(
                (Worker { address, status: WorkerStatus::Available, ..w }),
            ),
            None => None::<Worker>,
        }),
{
    match current {
        Some(mut w) => {
            w.update_address(address);
            w.update_status(WorkerStatus::Available);
            Some(w)
        },
        None => None,
    }
}

} // verus!
