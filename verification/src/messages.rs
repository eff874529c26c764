//! The messages that subscribers receive, and the service information
//! record.

use crate::checker::{Spec, Status, TimeStampedStatus};
use crate::time::Timestamp;
use vstd::prelude::*;

verus! {

/// What one surface of the service tells its clients about itself: whether
/// this surface accepts writes, and the server version.
pub struct Info {
    pub writable: bool,
    pub swec_version: String,
}

impl Info {
    pub fn new(writable: bool, swec_version: String) -> (r: Self)
        ensures
            r == (Info { writable, swec_version }),
    {
        Self { writable, swec_version }
    }
}

impl Clone for Info {
    /// A clone carries the same flag and version.
    fn clone(&self) -> (r: Self)
        ensures
            r == *self,
    {
        Self { writable: self.writable, swec_version: self.swec_version.clone() }
    }
}

/// A message sent by the server to notify a subscriber of an event on one
/// checker.
///
/// A subscriber receives `Initial` exactly once, first; then one message
/// for each later mutation, in order, unless it lags; `CheckerDropped` is
/// the final message for the subject.
pub enum CheckerMessage {
    /// The checker's spec and most recent status at subscription time.
    Initial(Spec, Option<TimeStampedStatus>),
    /// The checker's spec was replaced.
    UpdatedSpec(Spec),
    /// A status was appended to the checker's history.
    AddedStatus(Timestamp, Status),
    /// The checker left the registry; no further message follows for it.
    CheckerDropped,
    /// The subscriber fell behind and this many messages were dropped; the
    /// state of the checker is unknown to it until it reconciles.
    Lagged(u64),
}

impl Clone for CheckerMessage {
    /// A clone carries the same payload.
    fn clone(&self) -> (r: Self)
        ensures
            r == *self,
    {
        match self {
            CheckerMessage::Initial(spec, last) => CheckerMessage::Initial(
                spec.clone(),
                match last {
                    Some(ts) => Some(ts.clone()),
                    None => None,
                },
            ),
            CheckerMessage::UpdatedSpec(spec) => CheckerMessage::UpdatedSpec(spec.clone()),
            CheckerMessage::AddedStatus(time, status) => CheckerMessage::AddedStatus(
                *time,
                status.clone(),
            ),
            CheckerMessage::CheckerDropped => CheckerMessage::CheckerDropped,
            CheckerMessage::Lagged(n) => CheckerMessage::Lagged(*n),
        }
    }
}

/// A message sent by the server to notify a subscriber of a change of the
/// set of checker names.
pub enum ListMessage {
    /// The names present at subscription time, in lexicographic order.
    Initial(Vec<String>),
    /// A checker of this name was inserted under a fresh name.
    Insert(String),
    /// A checker of this name replaced an existing one.
    InsertReplace(String),
    /// The checker of this name was removed.
    Remove(String),
    /// The subscriber fell behind and this many messages were dropped.
    Lagged(u64),
}

/// The value of a list message, with the name list as a sequence.
pub ghost enum ListMessageV {
    Initial(Seq<String>),
    Insert(String),
    InsertReplace(String),
    Remove(String),
    Lagged(u64),
}

impl View for ListMessage {
    type V = ListMessageV;

    open spec fn view(&self) -> ListMessageV {
        match self {
            ListMessage::Initial(names) => ListMessageV::Initial(names@),
            ListMessage::Insert(name) => ListMessageV::Insert(*name),
            ListMessage::InsertReplace(name) => ListMessageV::InsertReplace(*name),
            ListMessage::Remove(name) => ListMessageV::Remove(*name),
            ListMessage::Lagged(n) => ListMessageV::Lagged(*n),
        }
    }
}

impl Clone for ListMessage {
    /// A clone carries the same payload.
    fn clone(&self) -> (r: Self)
        ensures
            r@ == self@,
    {
        match self {
            ListMessage::Initial(names) => {
                let mut copy: Vec<String> = Vec::new();
                let mut i: usize = 0;
                while i < names.len()
                    invariant
                        i <= names@.len(),
                        copy@.len() == i,
                        forall|j: int| 0 <= j < i ==> copy@[j] == names@[j],
                    decreases names@.len() - i,
                {
                    copy.push(names[i].clone());
                    i += 1;
                }
                proof {
                    assert(copy@ =~= names@);
                }
                ListMessage::Initial(copy)
            },
            ListMessage::Insert(name) => ListMessage::Insert(name.clone()),
            ListMessage::InsertReplace(name) => ListMessage::InsertReplace(name.clone()),
            ListMessage::Remove(name) => ListMessage::Remove(name.clone()),
            ListMessage::Lagged(n) => ListMessage::Lagged(*n),
        }
    }
}

/// What every subscription message type offers: a frame that stands for a
/// count of dropped messages.
pub trait Message: Sized {
    fn new_lag(n: u64) -> Self;
}

impl Message for CheckerMessage {
    fn new_lag(n: u64) -> (r: Self)
        ensures
            r == CheckerMessage::Lagged(n),
    {
        CheckerMessage::Lagged(n)
    }
}

impl Message for ListMessage {
    fn new_lag(n: u64) -> (r: Self)
        ensures
            r@ == ListMessageV::Lagged(n),
    {
        ListMessage::Lagged(n)
    }
}

} // verus!
