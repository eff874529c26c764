//! The domain types: service specs, status observations, and checkers.

use crate::ringbuffer::RingBuffer;
use crate::time::Timestamp;
use vstd::prelude::*;

verus! {

/// Information about a service.  Only intended to be read by humans.
pub struct Spec {
    /// Description of the service.
    pub description: String,
    /// URL of the service, if applicable.
    pub url: Option<String>,
}

impl Spec {
    pub fn new(description: String, url: Option<String>) -> (r: Self)
        ensures
            r == (Spec { description, url }),
    {
        Self { description, url }
    }
}

impl Clone for Spec {
    /// A clone carries the same description and url.
    fn clone(&self) -> (r: Self)
        ensures
            r == *self,
    {
        Self {
            description: self.description.clone(),
            url: match &self.url {
                Some(u) => Some(u.clone()),
                None => None,
            },
        }
    }
}

/// A single observation: whether the service is up, and a human readable
/// message about it.
pub struct Status {
    /// Whether the service is up or down.
    pub is_up: bool,
    /// Human readable information about the status.
    pub message: String,
}

impl Status {
    pub fn new(is_up: bool, message: String) -> (r: Self)
        ensures
            r == (Status { is_up, message }),
    {
        Self { is_up, message }
    }
}

impl Clone for Status {
    /// A clone carries the same flag and message.
    fn clone(&self) -> (r: Self)
        ensures
            r == *self,
    {
        Self { is_up: self.is_up, message: self.message.clone() }
    }
}

/// A status paired with the moment the server recorded it.
pub struct TimeStampedStatus {
    /// The server-assigned time of the observation.
    pub time: Timestamp,
    /// The observation itself.
    pub status: Status,
}

impl TimeStampedStatus {
    /// Pair `status` with the current moment.
    pub fn new_now(status: Status) -> (r: Self)
        ensures
            r.status == status,
            r.time.well_formed(),
    {
        Self { time: Timestamp::now(), status }
    }
}

impl Clone for TimeStampedStatus {
    /// A clone carries the same time and status.
    fn clone(&self) -> (r: Self)
        ensures
            r == *self,
    {
        Self { time: self.time, status: self.status.clone() }
    }
}

/// The bounded status history of one checker.
pub type StatusRingBuffer = RingBuffer<TimeStampedStatus>;

/// A checked service: its human-facing spec and its bounded status history.
pub struct Checker {
    /// Information about the service, for humans.
    pub spec: Spec,
    /// Status history of the service.
    pub statuses: StatusRingBuffer,
}

impl Checker {
    /// The history respects its capacity and every timestamp renders.
    pub open spec fn wf(&self) -> bool {
        &&& self.statuses.wf()
        &&& forall|i: int|
            0 <= i < self.statuses@.len() ==> (#[trigger] self.statuses@[i]).time.well_formed()
    }

    /// Create a new checker from a spec and a history buffer.
    pub fn new(spec: Spec, statuses: StatusRingBuffer) -> (r: Self)
        ensures
            r.spec == spec,
            r.statuses == statuses,
    {
        Self { spec, statuses }
    }
}

impl Clone for Checker {
    /// A clone carries the same spec and the same history, capacity
    /// included.
    fn clone(&self) -> (r: Self)
        ensures
            r.spec == self.spec,
            r.statuses@ == self.statuses@,
            r.statuses.spec_capacity() == self.statuses.spec_capacity(),
    {
        let statuses = self.statuses.clone();
        proof {
            assert(forall|i: int|
                0 <= i < self.statuses@.len() ==> #[trigger] statuses@[i] == self.statuses@[i])
                by {
                assert(forall|i: int|
                    0 <= i < self.statuses@.len() ==> vstd::pervasive::cloned(
                        self.statuses@[i],
                        #[trigger] statuses@[i],
                    ));
            }
            assert(statuses@ =~= self.statuses@);
        }
        Self { spec: self.spec.clone(), statuses }
    }
}

} // verus!
