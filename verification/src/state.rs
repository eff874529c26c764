//! The state facade: the registry with the process-wide history-length
//! policy, its snapshot and subscription operations, and dump and restore.
//!
//! A caller holds this behind its own reader-writer lock and passes shared
//! or exclusive access down; each operation here is one in-memory step, so
//! whatever the operation promises holds atomically with respect to that
//! lock.

use crate::checker::{Checker, Spec, Status, TimeStampedStatus};
use crate::jsonin::checkers_from_json;
use crate::jsonout::json_checker_map;
use crate::messages::{CheckerMessage, ListMessage, ListMessageV};
use crate::registry::{CheckerWithSender, Registry};
use crate::ringbuffer::{last_n, RingBuffer};
use crate::time::Timestamp;
use tokio::sync::broadcast::Receiver;
use vstd::prelude::*;

verus! {

/// The name was already taken when a checker was to be created.
#[derive(Debug)]
pub struct CheckerAlreadyExists;

/// No checker of that name is registered.
#[derive(Debug)]
pub struct CheckerDoesNotExist;

/// Restoring from a dump failed.
#[derive(Debug)]
pub enum RestoreError {
    /// The dump text is not one this server writes.
    Unparsable,
    /// A restored history is longer than the configured history length,
    /// and truncation was not asked for.
    HistoryTooLong,
}

/// The registry as a map, later entries of a dump winning over earlier
/// ones of the same name.
pub open spec fn dump_map(s: Seq<(String, Checker)>) -> Map<Seq<char>, Checker>
    decreases s.len(),
{
    if s.len() == 0 {
        Map::empty()
    } else {
        dump_map(s.drop_last()).insert(s.last().0@, s.last().1)
    }
}

/// Every history keeps the configured length across a registry change
/// that touches at most one name: the touched name, where still present,
/// carries that capacity, and every other name's checker is as it was.
proof fn lemma_caps_preserved(
    old_reg: Registry,
    new_reg: Registry,
    history_len: usize,
    name: Seq<char>,
)
    requires
        old_reg.wf(),
        new_reg.wf(),
        forall|i: int|
            0 <= i < old_reg.spec_entries().len() ==> (#[trigger] old_reg.spec_entries()[i]).1.spec_checker().statuses.spec_capacity() == history_len,
        new_reg.has_name(name) ==> new_reg.lookup(name).spec_checker().statuses.spec_capacity()
            == history_len,
        forall|m: Seq<char>| m != name && #[trigger] new_reg.has_name(m) ==> old_reg.has_name(m),
        forall|m: Seq<char>|
            m != name && old_reg.has_name(m) && new_reg.has_name(m) ==> #[trigger] new_reg.lookup(
                m,
            ) == old_reg.lookup(m),
    ensures
        forall|i: int|
            0 <= i < new_reg.spec_entries().len() ==> (#[trigger] new_reg.spec_entries()[i]).1.spec_checker().statuses.spec_capacity() == history_len,
{
    assert forall|k: int|
        0 <= k < new_reg.spec_entries().len() implies (#[trigger] new_reg.spec_entries()[k]).1.spec_checker().statuses.spec_capacity() == history_len by {
        crate::registry::lemma_seq_lookup_at(new_reg.spec_entries(), k);
        let m = new_reg.spec_entries()[k].0@;
        if m != name {
            assert(new_reg.has_name(m));
            assert(old_reg.has_name(m));
            let j = crate::registry::seq_idx_of(old_reg.spec_entries(), m);
            assert(0 <= j < old_reg.spec_entries().len() && old_reg.spec_entries()[j].0@ == m);
            crate::registry::lemma_seq_lookup_at(old_reg.spec_entries(), j);
            assert(new_reg.lookup(m) == old_reg.lookup(m));
        }
    }
}

/// The process-wide state: the registry of checkers and the history
/// length applied to every newly created checker.
pub struct AppState {
    checkers: Registry,
    history_len: usize,
    dropped: Ghost<Seq<(Seq<char>, Seq<CheckerMessage>)>>,
}

impl AppState {
    pub closed spec fn spec_registry(&self) -> Registry {
        self.checkers
    }

    pub closed spec fn spec_history_len(&self) -> usize {
        self.history_len
    }

    /// The final message log of every checker that was removed, in removal
    /// order: each removed name with everything ever handed to its
    /// channel, ending in `CheckerDropped`.  This records at the state
    /// level that a removed checker's subscribers got the terminal
    /// message.
    pub closed spec fn spec_dropped(&self) -> Seq<(Seq<char>, Seq<CheckerMessage>)> {
        self.dropped@
    }

    /// The registry well formed, every history sized at the configured
    /// length.
    pub open spec fn wf(&self) -> bool {
        &&& self.spec_registry().wf()
        &&& forall|i: int|
            0 <= i < self.spec_registry().spec_entries().len() ==> (#[trigger] self.spec_registry().spec_entries()[i]).1.spec_checker().statuses.spec_capacity()
                == self.spec_history_len()
    }

    /// Whether a checker of this name is registered.
    pub open spec fn has_checker(&self, name: Seq<char>) -> bool {
        self.spec_registry().has_name(name)
    }

    /// The spec of the checker of this name.
    pub open spec fn spec_of(&self, name: Seq<char>) -> Spec {
        self.spec_registry().lookup(name).spec_checker().spec
    }

    /// The status history of the checker of this name, oldest first.
    pub open spec fn statuses_of(&self, name: Seq<char>) -> Seq<TimeStampedStatus> {
        self.spec_registry().lookup(name).spec_checker().statuses@
    }

    /// The most recent status of the checker of this name, if any.
    pub open spec fn last_status_of(&self, name: Seq<char>) -> Option<TimeStampedStatus> {
        self.spec_registry().lookup(name).spec_last_status()
    }

    /// The registered names, ascending.
    pub open spec fn spec_keys(&self) -> Seq<String> {
        self.spec_registry().spec_keys()
    }

    /// The registry as name and checker pairs, in name order.
    pub open spec fn snapshot(&self) -> Seq<(String, Checker)> {
        Seq::new(
            self.spec_registry().spec_entries().len(),
            |i: int|
                (
                    self.spec_registry().spec_entries()[i].0,
                    self.spec_registry().spec_entries()[i].1.spec_checker(),
                ),
        )
    }

    /// Build the state from restored checkers.  Later entries of one name
    /// replace earlier ones, as a dump read into a map would have it.
    #[verifier::loop_isolation(false)]
    pub fn new(checkers: Vec<(String, Checker)>, history_len: usize) -> (r: Self)
        requires
            forall|i: int|
                0 <= i < checkers@.len() ==> (#[trigger] checkers@[i]).1.wf()
                    && checkers@[i].1.statuses.spec_capacity() == history_len,
        ensures
            r.wf(),
            r.spec_history_len() == history_len,
            r.spec_dropped() == Seq::<(Seq<char>, Seq<CheckerMessage>)>::empty(),
            forall|m: Seq<char>| r.has_checker(m) <==> dump_map(checkers@).dom().contains(m),
            forall|m: Seq<char>|
                r.has_checker(m) ==> r.spec_of(m) == dump_map(checkers@)[m].spec
                    && r.statuses_of(m) == dump_map(checkers@)[m].statuses@,
    {
        let ghost all = checkers@;
        let mut registry = Registry::new();
        let mut rest = checkers;
        let n0 = rest.len();
        let mut i: usize = 0;
        proof {
            assert(all.len() == n0);
            assert(all.take(0) =~= Seq::<(String, Checker)>::empty());
        }
        while rest.len() > 0
            invariant
                i + rest@.len() == all.len(),
                rest@ == all.skip(i as int),
                registry.wf(),
                forall|j: int|
                    0 <= j < registry.spec_entries().len() ==> (#[trigger] registry.spec_entries(
                    )[j]).1.spec_checker().statuses.spec_capacity() == history_len,
                forall|m: Seq<char>|
                    registry.has_name(m) <==> dump_map(all.take(i as int)).dom().contains(m),
                forall|m: Seq<char>|
                    registry.has_name(m) ==> registry.lookup(m).spec_checker() == dump_map(
                        all.take(i as int),
                    )[m],
            decreases rest@.len(),
        {
            let ghost old_reg = registry;
            let (name, checker) = rest.remove(0);
            proof {
                assert(rest@ =~= all.skip(i + 1));
                assert((name, checker) == all[i as int]);
            }
            let ghost pre_reg = registry;
            let _ = registry.insert(name, CheckerWithSender::new(checker));
            i += 1;
            proof {
                lemma_caps_preserved(pre_reg, registry, history_len, all[i - 1].0@);
                let t = all.take(i as int);
                assert(t.drop_last() =~= all.take(i - 1));
                assert(t.last() == all[i - 1]);
                assert(dump_map(t) == dump_map(all.take(i - 1)).insert(
                    all[i - 1].0@,
                    all[i - 1].1,
                ));
            }
        }
        proof {
            assert(all.take(all.len() as int) =~= all);
        }
        Self { checkers: registry, history_len, dropped: Ghost(Seq::empty()) }
    }

    /// Create a checker under `name` with the given spec and a fresh empty
    /// history sized at the history length.  Fails exactly when the name
    /// is taken, changing nothing and announcing nothing; success
    /// announces `Insert` on the membership channel.
    pub fn add_checker(&mut self, name: String, checker_spec: Spec) -> (r: Result<
        (),
        CheckerAlreadyExists,
    >)
        requires
            old(self).wf(),
        ensures
            final(self).wf(),
            final(self).spec_history_len() == old(self).spec_history_len(),
            r is Ok <==> !old(self).has_checker(name@),
            r is Err ==> *final(self) == *old(self),
            final(self).spec_dropped() == old(self).spec_dropped(),
            r is Ok ==> final(self).has_checker(name@) && final(self).spec_of(name@)
                == checker_spec && final(self).statuses_of(name@) == Seq::<
                TimeStampedStatus,
            >::empty() && final(self).spec_registry().spec_emitted() == old(self).spec_registry().spec_emitted().push(ListMessageV::Insert(name)) && final(self).spec_registry().lookup(name@).spec_emitted() == Seq::<CheckerMessage>::empty(),
            forall|m: Seq<char>|
                m != name@ ==> (final(self).has_checker(m) <==> old(self).has_checker(m)),
            forall|m: Seq<char>|
                m != name@ && old(self).has_checker(m) ==> final(self).spec_registry().lookup(m)
                    == old(self).spec_registry().lookup(m),
    {
        if self.checkers.get(&name).is_some() {
            return Err(CheckerAlreadyExists);
        }
        let ghost gname = name@;
        let checker = Checker::new(checker_spec, RingBuffer::new(self.history_len));
        let _ = self.checkers.insert(name, CheckerWithSender::new(checker));

            proof {
                if old(self).has_checker(gname) {
                    let j = crate::registry::seq_idx_of(old(self).spec_registry().spec_entries(), gname);
                    crate::registry::lemma_seq_lookup_at(old(self).spec_registry().spec_entries(), j);
                }
                lemma_caps_preserved(old(self).spec_registry(), self.spec_registry(), self.history_len, gname);
            }
        Ok(())
    }

    /// Remove the checker of this name and give a snapshot of it back:
    /// `Remove` is announced on the membership channel and
    /// `CheckerDropped`, the final message, on the checker's own channel —
    /// the dropped record keeps that final log visible after the checker
    /// is gone.  Fails exactly when the name is absent, changing nothing.
    pub fn remove_checker(&mut self, name: &String) -> (r: Result<Checker, CheckerDoesNotExist>)
        requires
            old(self).wf(),
        ensures
            final(self).wf(),
            final(self).spec_history_len() == old(self).spec_history_len(),
            r is Ok <==> old(self).has_checker(name@),
            r is Err ==> *final(self) == *old(self),
            !final(self).has_checker(name@),
            match r {
                Ok(c) => c == old(self).spec_registry().lookup(name@).spec_checker() && final(self).spec_registry().spec_emitted() == old(self).spec_registry().spec_emitted().push(
                    ListMessageV::Remove(*name),
                ) && final(self).spec_dropped() == old(self).spec_dropped().push(
                    (
                        name@,
                        old(self).spec_registry().lookup(name@).spec_emitted().push(
                            CheckerMessage::CheckerDropped,
                        ),
                    ),
                ),
                Err(e) => true,
            },
            forall|m: Seq<char>|
                m != name@ ==> (final(self).has_checker(m) <==> old(self).has_checker(m)),
            forall|m: Seq<char>|
                m != name@ && old(self).has_checker(m) ==> final(self).spec_registry().lookup(m)
                    == old(self).spec_registry().lookup(m),
    {
        let ghost gname = name@;
        match self.checkers.remove(name) {
            Some(prev) => {
                self.dropped = Ghost(self.dropped@.push((gname, prev.spec_emitted())));

                proof {
                    if old(self).has_checker(gname) {
                        let j = crate::registry::seq_idx_of(old(self).spec_registry().spec_entries(), gname);
                        crate::registry::lemma_seq_lookup_at(old(self).spec_registry().spec_entries(), j);
                    }
                    lemma_caps_preserved(old(self).spec_registry(), self.spec_registry(), self.history_len, gname);
                }
                Ok(prev.into_checker())
            },
            None => Err(CheckerDoesNotExist),
        }
    }

    /// Replace the spec of the checker of this name, announcing
    /// `UpdatedSpec` on its channel.  Fails exactly when the name is
    /// absent, changing nothing.
    pub fn update_spec(&mut self, name: &String, spec: Spec) -> (r: Result<
        (),
        CheckerDoesNotExist,
    >)
        requires
            old(self).wf(),
        ensures
            final(self).wf(),
            final(self).spec_history_len() == old(self).spec_history_len(),
            r is Ok <==> old(self).has_checker(name@),
            r is Err ==> *final(self) == *old(self),
            final(self).spec_dropped() == old(self).spec_dropped(),
            forall|m: Seq<char>| final(self).has_checker(m) <==> old(self).has_checker(m),
            final(self).spec_keys() == old(self).spec_keys(),
            r is Ok ==> final(self).spec_of(name@) == spec && final(self).statuses_of(name@)
                == old(self).statuses_of(name@) && final(self).spec_registry().lookup(
                name@,
            ).spec_emitted() == old(self).spec_registry().lookup(name@).spec_emitted().push(
                CheckerMessage::UpdatedSpec(spec),
            ),
            forall|m: Seq<char>|
                m != name@ && old(self).has_checker(m) ==> final(self).spec_registry().lookup(m)
                    == old(self).spec_registry().lookup(m),
    {
        let ghost gname = name@;
        if self.checkers.update_spec(name, spec) {

            proof {
                if old(self).has_checker(gname) {
                    let j = crate::registry::seq_idx_of(old(self).spec_registry().spec_entries(), gname);
                    crate::registry::lemma_seq_lookup_at(old(self).spec_registry().spec_entries(), j);
                }
                lemma_caps_preserved(old(self).spec_registry(), self.spec_registry(), self.history_len, gname);
            }
            Ok(())
        } else {
            Err(CheckerDoesNotExist)
        }
    }

    /// Append a status to the checker of this name under a fresh
    /// server-assigned timestamp, evicting the oldest entry if the history
    /// is full, and announcing `AddedStatus` on its channel.  The
    /// timestamp is clamped to be no earlier than the newest history
    /// entry, so successive appends carry non-decreasing timestamps.
    /// Fails exactly when the name is absent, changing nothing.  Returns
    /// the assigned timestamp.
    pub fn add_status(&mut self, name: &String, status: Status) -> (r: Result<
        Timestamp,
        CheckerDoesNotExist,
    >)
        requires
            old(self).wf(),
        ensures
            final(self).wf(),
            final(self).spec_history_len() == old(self).spec_history_len(),
            r is Ok <==> old(self).has_checker(name@),
            r is Err ==> *final(self) == *old(self),
            final(self).spec_dropped() == old(self).spec_dropped(),
            forall|m: Seq<char>| final(self).has_checker(m) <==> old(self).has_checker(m),
            final(self).spec_keys() == old(self).spec_keys(),
            match r {
                Ok(t) => t.well_formed() && (match old(self).last_status_of(name@) {
                    Some(p) => p.time.spec_le(t),
                    None => true,
                }) && final(self).spec_of(name@) == old(self).spec_of(name@)
                    && final(self).statuses_of(name@) == last_n(
                    old(self).statuses_of(name@).push(TimeStampedStatus { time: t, status }),
                    old(self).spec_history_len() as nat,
                ) && final(self).spec_registry().lookup(name@).spec_emitted() == old(self).spec_registry().lookup(name@).spec_emitted().push(
                    CheckerMessage::AddedStatus(t, status),
                ),
                Err(e) => true,
            },
            forall|m: Seq<char>|
                m != name@ && old(self).has_checker(m) ==> final(self).spec_registry().lookup(m)
                    == old(self).spec_registry().lookup(m),
    {
        proof {
            if old(self).has_checker(name@) {
                let entries = self.checkers.spec_entries();
                let k = crate::registry::seq_idx_of(entries, name@);
            }
        }
        let ghost gname = name@;
        match self.checkers.add_status(name, status) {
            Some(t) => {

                proof {
                    if old(self).has_checker(gname) {
                        let j = crate::registry::seq_idx_of(old(self).spec_registry().spec_entries(), gname);
                        crate::registry::lemma_seq_lookup_at(old(self).spec_registry().spec_entries(), j);
                    }
                    lemma_caps_preserved(old(self).spec_registry(), self.spec_registry(), self.history_len, gname);
                }
                Ok(t)
            },
            None => Err(CheckerDoesNotExist),
        }
    }


    /// Hand every checker's subscribers the final `CheckerDropped`, as the
    /// process does on shutdown before its last dump.  The registry itself
    /// is left as it is.
    pub fn close_checkers(&mut self)
        requires
            old(self).wf(),
        ensures
            final(self).wf(),
            final(self).spec_history_len() == old(self).spec_history_len(),
            final(self).spec_keys() == old(self).spec_keys(),
            final(self).snapshot() == old(self).snapshot(),
            final(self).spec_dropped() == old(self).spec_dropped(),
            forall|i: int|
                0 <= i < old(self).spec_registry().spec_entries().len() ==> (#[trigger] final(self).spec_registry().spec_entries()[i]).1.spec_emitted() == old(self).spec_registry().spec_entries()[i].1.spec_emitted().push(
                    CheckerMessage::CheckerDropped,
                ),
    {
        self.checkers.notify_all_dropped();
        proof {
            assert(final(self).spec_keys() =~= old(self).spec_keys());
            assert(final(self).snapshot() =~= old(self).snapshot());
        }
    }

    /// A snapshot of the checker of this name.  Fails exactly when the
    /// name is absent.
    pub fn get_checker(&self, name: &String) -> (r: Result<Checker, CheckerDoesNotExist>)
        requires
            self.wf(),
        ensures
            r is Ok <==> self.has_checker(name@),
            match r {
                Ok(c) => c.spec == self.spec_of(name@) && c.statuses@ == self.statuses_of(name@)
                    && c.statuses.spec_capacity() == self.spec_history_len() && c.wf(),
                Err(e) => true,
            },
    {
        match self.checkers.get(name) {
            Some(cws) => Ok(cws.checker().clone()),
            None => Err(CheckerDoesNotExist),
        }
    }

    /// The registered names, ascending.
    pub fn checker_names(&self) -> (r: Vec<String>)
        ensures
            r@ == self.spec_keys(),
    {
        self.checkers.keys()
    }

    /// A snapshot of every checker, in name order.
    #[verifier::loop_isolation(false)]
    pub fn get_checkers(&self) -> (r: Vec<(String, Checker)>)
        requires
            self.wf(),
        ensures
            r@.len() == self.snapshot().len(),
            forall|i: int|
                0 <= i < r@.len() ==> (#[trigger] r@[i]).0 == self.snapshot()[i].0 && r@[i].1.spec
                    == self.snapshot()[i].1.spec && r@[i].1.statuses@
                    == self.snapshot()[i].1.statuses@ && r@[i].1.wf()
                    && r@[i].1.statuses.spec_capacity() == self.spec_history_len(),
    {
        let mut out: Vec<(String, Checker)> = Vec::new();
        let n = self.checkers.len();
        let mut i: usize = 0;
        while i < n
            invariant
                i <= self.spec_registry().spec_entries().len(),
                self.wf(),
                out@.len() == i,
                forall|j: int|
                    0 <= j < i ==> (#[trigger] out@[j]).0 == self.snapshot()[j].0 && out@[j].1.spec
                        == self.snapshot()[j].1.spec && out@[j].1.statuses@
                        == self.snapshot()[j].1.statuses@ && out@[j].1.wf()
                        && out@[j].1.statuses.spec_capacity() == self.spec_history_len(),
            decreases n - i,
        {
            let (name, cws) = self.checkers.entry_at(i);
            out.push((name.clone(), cws.checker().clone()));
            i += 1;
        }
        out
    }

    /// The full registry as JSON, for the dump file and the read-all
    /// surface.
    pub fn checkers_to_json(&self) -> (r: String)
        requires
            self.wf(),
        ensures
            r@ == json_checker_map(self.snapshot()),
    {
        let snap = self.get_checkers();
        let r = crate::jsonout::render_checker_map(&snap);
        proof {
            crate::jsonout::lemma_entry_seq_congruent(snap@, self.snapshot());
        }
        r
    }

    /// Subscribe to the checker of this name: the receiver and the
    /// Initial frame are taken in one step under the access the caller
    /// holds, so the frame reflects every mutation before this call and
    /// the receiver sees every one after it.
    pub fn subscribe_checker(&self, name: &String) -> (r: Result<
        (Receiver<CheckerMessage>, CheckerMessage),
        CheckerDoesNotExist,
    >)
        requires
            self.wf(),
        ensures
            r is Ok <==> self.has_checker(name@),
            match r {
                Ok(p) => p.1 == CheckerMessage::Initial(
                    self.spec_of(name@),
                    self.last_status_of(name@),
                ),
                Err(e) => true,
            },
    {
        match self.checkers.get(name) {
            Some(cws) => Ok((cws.subscribe(), cws.initial_message())),
            None => Err(CheckerDoesNotExist),
        }
    }

    /// Subscribe to membership changes: the receiver and the Initial
    /// frame, holding the current names, are taken in one step under the
    /// access the caller holds.
    pub fn subscribe_list(&self) -> (r: (Receiver<ListMessage>, ListMessage))
        ensures
            r.1@ == ListMessageV::Initial(self.spec_keys()),
    {
        (self.checkers.subscribe(), self.checkers.initial_message())
    }
}

/// Bring every restored history to the configured history length:
/// histories grow to it through `resize`, or are cut to it through
/// `truncate_fifo` when `truncate` is set.  Succeeds exactly when
/// truncation was asked for or no history's capacity exceeds the
/// configured length; the outer layer hands the parsed dump values in and
/// aborts startup on the error, as a too-long history without truncation
/// is the one thing this step refuses.
#[verifier::loop_isolation(false)]
pub fn reconcile_histories(
    entries: Vec<(String, Checker)>,
    history_length: usize,
    truncate: bool,
) -> (r: Result<Vec<(String, Checker)>, RestoreError>)
    requires
        forall|i: int| 0 <= i < entries@.len() ==> (#[trigger] entries@[i]).1.wf(),
    ensures
        r is Ok <==> (truncate || forall|i: int|
            0 <= i < entries@.len() ==> (#[trigger] entries@[i]).1.statuses.spec_capacity()
                <= history_length),
        match r {
            Ok(v) => v@.len() == entries@.len() && forall|i: int|
                0 <= i < v@.len() ==> (#[trigger] v@[i]).0 == entries@[i].0 && v@[i].1.spec
                    == entries@[i].1.spec && v@[i].1.statuses@ == (if truncate {
                    last_n(entries@[i].1.statuses@, history_length as nat)
                } else {
                    entries@[i].1.statuses@
                }) && v@[i].1.wf() && v@[i].1.statuses.spec_capacity() == history_length,
            Err(e) => e is HistoryTooLong && !truncate,
        },
{
    let ghost orig = entries@;
    let mut out: Vec<(String, Checker)> = Vec::new();
    let mut rest = entries;
    let n0 = rest.len();
    let mut i: usize = 0;
    proof {
        assert(orig.len() == n0);
    }
    while rest.len() > 0
        invariant
            i + rest@.len() == orig.len(),
            rest@ == orig.skip(i as int),
            out@.len() == i,
            !truncate ==> forall|j: int|
                0 <= j < i ==> (#[trigger] orig[j]).1.statuses.spec_capacity()
                    <= history_length,
            forall|j: int|
                0 <= j < i ==> (#[trigger] out@[j]).0 == orig[j].0 && out@[j].1.spec
                    == orig[j].1.spec && out@[j].1.statuses@ == (if truncate {
                    last_n(orig[j].1.statuses@, history_length as nat)
                } else {
                    orig[j].1.statuses@
                }) && out@[j].1.wf() && out@[j].1.statuses.spec_capacity() == history_length,
        decreases rest@.len(),
    {
        let (name, mut checker) = rest.remove(0);
        proof {
            assert(rest@ =~= orig.skip(i + 1));
            assert((name, checker) == orig[i as int]);
        }
        if truncate {
            checker.statuses.truncate_fifo(history_length);
            proof {
                let s = orig[i as int].1.statuses@;
                let t = last_n(s, history_length as nat);
                assert(forall|k: int|
                    0 <= k < t.len() ==> (#[trigger] t[k]) == s[k + s.len() - t.len()]);
            }
        } else {
            match checker.statuses.resize(history_length) {
                Ok(()) => {},
                Err(e) => {
                    return Err(RestoreError::HistoryTooLong);
                },
            }
        }
        out.push((name, checker));
        i += 1;
    }
    proof {
        assert(orig.skip(orig.len() as int).len() == 0);
    }
    Ok(out)
}


/// Views preserved element by element survive the bounded-history cut.
proof fn lemma_last_n_views(a: Seq<TimeStampedStatus>, b: Seq<TimeStampedStatus>, cap: nat)
    requires
        crate::jsonout::seq_timed_views_eq(a, b),
    ensures
        crate::jsonout::seq_timed_views_eq(last_n(a, cap), last_n(b, cap)),
{
    broadcast use vstd::seq_lib::lemma_seq_skip_index, vstd::seq_lib::lemma_seq_skip_len;

    let ra = last_n(a, cap);
    let rb = last_n(b, cap);
    assert(ra.len() == rb.len());
    assert forall|j: int| 0 <= j < ra.len() implies crate::jsonout::timed_views_eq(
        #[trigger] ra[j],
        rb[j],
    ) by {
        assert(ra[j] == a[j + a.len() - ra.len()]);
        assert(rb[j] == b[j + b.len() - rb.len()]);
    }
}

/// What a reload owes every writer of the text: whichever entry list with
/// renderable timestamps the text is the rendering of, the result carries
/// the same names, specs and observations, compared by views, with each
/// history reconciled against the configured length.
pub open spec fn reloaded_views(
    src: Seq<(String, Checker)>,
    v: Seq<(String, Checker)>,
    history_length: usize,
    truncate: bool,
) -> bool {
    v.len() == src.len() && forall|i: int|
        0 <= i < v.len() ==> (#[trigger] v[i]).0@ == src[i].0@ && crate::jsonout::spec_views_eq(
            v[i].1.spec,
            src[i].1.spec,
        ) && crate::jsonout::seq_timed_views_eq(
            v[i].1.statuses@,
            if truncate {
                last_n(src[i].1.statuses@, history_length as nat)
            } else {
                src[i].1.statuses@
            },
        )
}

/// Read back a dump in this library's own canonical text — exactly what
/// `AppState::checkers_to_json` writes, to the byte — and reconcile the
/// histories.  An empty text is an empty registry.  The process restores
/// its dump file through its outer layer instead, which accepts any JSON
/// layout and hands the plain values to `reconcile_histories`; this
/// canonical reader is what ties the renderer and parser together, and
/// every text the renderer writes reads back, provided the histories fit
/// or truncation was asked for.
pub fn read_canonical_dump(text: &str, history_length: usize, truncate: bool) -> (r: Result<
    Vec<(String, Checker)>,
    RestoreError,
>)
    ensures
        match r {
            Ok(v) => (text@.len() == 0 ==> v@.len() == 0) && (text@.len() != 0
                ==> restored_from(text@, v@, history_length, truncate)) && forall|i: int|
                0 <= i < v@.len() ==> (#[trigger] v@[i]).1.wf()
                    && v@[i].1.statuses.spec_capacity() == history_length,
            Err(e) => e is HistoryTooLong ==> !truncate,
        },
        text@.len() == 0 ==> r is Ok,
        (text@.len() != 0 && exists|orig: Seq<(String, Checker)>|
            text@ == json_checker_map(orig) && crate::jsonin::entries_timed_wf(orig) && (truncate
                || forall|i: int|
                0 <= i < orig.len() ==> (#[trigger] orig[i]).1.statuses@.len()
                    <= history_length)) ==> r is Ok,
        forall|src: Seq<(String, Checker)>|
            (#[trigger] json_checker_map(src)) == text@ && crate::jsonin::entries_timed_wf(src)
                && r is Ok ==> reloaded_views(src, r->Ok_0@, history_length, truncate),
{
    let ghost owed = text@.len() != 0 && exists|orig: Seq<(String, Checker)>|
        text@ == json_checker_map(orig) && crate::jsonin::entries_timed_wf(orig) && (truncate
            || forall|i: int|
            0 <= i < orig.len() ==> (#[trigger] orig[i]).1.statuses@.len() <= history_length);
    let ghost gorig: Seq<(String, Checker)> = if owed {
        choose|orig: Seq<(String, Checker)>|
            text@ == json_checker_map(orig) && crate::jsonin::entries_timed_wf(orig) && (truncate
                || forall|i: int|
                0 <= i < orig.len() ==> (#[trigger] orig[i]).1.statuses@.len() <= history_length)
    } else {
        Seq::empty()
    };
    let chars_len = crate::text::str_chars(text).len();
    if chars_len == 0 {
        let out: Vec<(String, Checker)> = Vec::new();
        return Ok(out);
    }
    let entries = match checkers_from_json(text) {
        Some(e) => e,
        None => {
            proof {
                if owed {
                    assert(text@ == json_checker_map(gorig)
                        && crate::jsonin::entries_timed_wf(gorig));
                    assert(false);
                }
            }
            return Err(RestoreError::Unparsable);
        },
    };
    let ghost parsed = entries@;
    proof {
        if owed && !truncate {
            assert(json_checker_map(parsed) + Seq::<char>::empty() =~= text@);
            assert(json_checker_map(gorig) + Seq::<char>::empty() =~= text@);
            crate::jsonout::lemma_json_checker_map_same_end(
                parsed,
                Seq::empty(),
                gorig,
                Seq::empty(),
            );
            assert(forall|j: int|
                0 <= j < parsed.len() ==> (#[trigger] parsed[j]).1.statuses.spec_capacity()
                    <= history_length);
        }
    }
    match reconcile_histories(entries, history_length, truncate) {
        Ok(out) => {
            proof {
                assert(restored_from(text@, out@, history_length, truncate));
                assert forall|src: Seq<(String, Checker)>|
                    (#[trigger] json_checker_map(src)) == text@
                        && crate::jsonin::entries_timed_wf(src) implies reloaded_views(
                    src,
                    out@,
                    history_length,
                    truncate,
                ) by {
                    assert(json_checker_map(parsed) + Seq::<char>::empty() =~= text@);
                    assert(json_checker_map(src) + Seq::<char>::empty() =~= text@);
                    crate::jsonout::lemma_json_checker_map_same_end(
                        parsed,
                        Seq::empty(),
                        src,
                        Seq::empty(),
                    );
                    assert forall|i: int| 0 <= i < out@.len() implies (#[trigger] out@[i]).0@
                        == src[i].0@ && crate::jsonout::spec_views_eq(
                        out@[i].1.spec,
                        src[i].1.spec,
                    ) && crate::jsonout::seq_timed_views_eq(
                        out@[i].1.statuses@,
                        if truncate {
                            last_n(src[i].1.statuses@, history_length as nat)
                        } else {
                            src[i].1.statuses@
                        },
                    ) by {
                        assert(crate::jsonout::checker_views_eq(parsed[i].1, src[i].1));
                        if truncate {
                            lemma_last_n_views(
                                parsed[i].1.statuses@,
                                src[i].1.statuses@,
                                history_length as nat,
                            );
                        }
                    }
                }
            }
            Ok(out)
        },
        Err(e) => {
            proof {
                if owed {
                    assert(false);
                }
            }
            Err(e)
        },
    }
}

/// What a successful restore promises of a non-empty dump: the text is
/// exactly the rendering of some entry list, and the result carries those
/// entries with each history reconciled.
pub open spec fn restored_from(
    text: Seq<char>,
    v: Seq<(String, Checker)>,
    history_length: usize,
    truncate: bool,
) -> bool {
    exists|orig: Seq<(String, Checker)>|
        text == json_checker_map(orig) && #[trigger] orig.len() == v.len() && forall|i: int|
            0 <= i < v.len() ==> (#[trigger] v[i]).0 == orig[i].0 && v[i].1.spec == orig[i].1.spec
                && v[i].1.statuses@ == (if truncate {
                last_n(orig[i].1.statuses@, history_length as nat)
            } else {
                orig[i].1.statuses@
            })
}

} // verus!
