//! The subscribable containers.
//!
//! A `CheckerWithSender` binds one checker to its broadcast endpoint, and a
//! `Registry` binds the name-ordered collection of them to an endpoint for
//! membership changes.  The inner fields are private to this module, so
//! every mutation goes through a method that hands the matching message to
//! the channel; the ghost message logs record exactly what was handed over,
//! and every contract of a mutator extends the log by exactly the broadcast
//! form of that mutation.

use crate::channel::{new_channel, send_message, subscribe};
use crate::checker::{Checker, Spec, Status, TimeStampedStatus};
use crate::messages::{CheckerMessage, ListMessage, ListMessageV};
use crate::names::{
    chars_lt, lemma_chars_lt_connected, lemma_chars_lt_irrefl, lemma_chars_lt_trans, str_lt,
};
use crate::ringbuffer::last_n;
use crate::time::Timestamp;
use tokio::sync::broadcast::{Receiver, Sender};
use vstd::prelude::*;

verus! {

/// A checker together with the broadcast endpoint for its subscribers.
/// The fields are private: the spec and the history can only change
/// through the methods below, each of which hands the matching message to
/// the channel.
pub struct CheckerWithSender {
    checker: Checker,
    sender: Sender<CheckerMessage>,
    emitted: Ghost<Seq<CheckerMessage>>,
}

impl CheckerWithSender {
    /// The wrapped checker.
    pub closed spec fn spec_checker(&self) -> Checker {
        self.checker
    }

    /// Every message handed to this checker's channel so far, in order.
    pub closed spec fn spec_emitted(&self) -> Seq<CheckerMessage> {
        self.emitted@
    }

    pub open spec fn wf(&self) -> bool {
        self.spec_checker().wf()
    }

    /// The most recent status, if any: the optional part of an Initial
    /// frame.
    pub open spec fn spec_last_status(&self) -> Option<TimeStampedStatus> {
        if self.spec_checker().statuses@.len() == 0 {
            None
        } else {
            Some(self.spec_checker().statuses@.last())
        }
    }

    /// Wrap a checker with a fresh broadcast endpoint.
    pub fn new(checker: Checker) -> (r: Self)
        ensures
            r.spec_checker() == checker,
            r.spec_emitted() == Seq::<CheckerMessage>::empty(),
    {
        Self { checker, sender: new_channel(16), emitted: Ghost(Seq::empty()) }
    }

    /// Read the wrapped checker.
    pub fn checker(&self) -> (r: &Checker)
        ensures
            *r == self.spec_checker(),
    {
        &self.checker
    }

    /// Surrender the wrapped checker.
    pub fn into_checker(self) -> (r: Checker)
        ensures
            r == self.spec_checker(),
    {
        self.checker
    }

    /// A fresh receiver bound to the current moment: it sees exactly the
    /// messages handed to the channel after this call.
    pub fn subscribe(&self) -> (r: Receiver<CheckerMessage>) {
        subscribe(&self.sender)
    }

    /// The Initial frame for a subscription taken now: the current spec
    /// and the most recent status, if any.
    pub fn initial_message(&self) -> (r: CheckerMessage)
        ensures
            r == CheckerMessage::Initial(self.spec_checker().spec, self.spec_last_status()),
    {
        let n = self.checker.statuses.len();
        let last: Option<TimeStampedStatus> = if n == 0 {
            None
        } else {
            match self.checker.statuses.get(n - 1) {
                Some(ts) => Some(ts.clone()),
                None => None,
            }
        };
        CheckerMessage::Initial(self.checker.spec.clone(), last)
    }

    /// Replace the spec, handing `UpdatedSpec` to the channel.
    pub fn update_spec(&mut self, spec: Spec)
        requires
            old(self).wf(),
        ensures
            final(self).wf(),
            final(self).spec_checker().spec == spec,
            final(self).spec_checker().statuses == old(self).spec_checker().statuses,
            final(self).spec_emitted() == old(self).spec_emitted().push(
                CheckerMessage::UpdatedSpec(spec),
            ),
    {
        self.checker.spec = spec.clone();
        let message = CheckerMessage::UpdatedSpec(spec);
        self.emitted = Ghost(self.emitted@.push(message));
        let _ = send_message(&self.sender, message);
    }

    /// Append a status under a fresh server-assigned timestamp, handing
    /// `AddedStatus` with that timestamp to the channel.  The oldest entry
    /// leaves if the history was full.  The timestamp is clamped to be no
    /// earlier than the newest history entry, so successive appends carry
    /// non-decreasing timestamps even across a clock step backwards.
    pub fn add_status(&mut self, status: Status) -> (t: Timestamp)
        requires
            old(self).wf(),
        ensures
            final(self).wf(),
            t.well_formed(),
            match old(self).spec_last_status() {
                Some(p) => p.time.spec_le(t),
                None => true,
            },
            final(self).spec_checker().spec == old(self).spec_checker().spec,
            final(self).spec_checker().statuses.spec_capacity() == old(self).spec_checker().statuses.spec_capacity(),
            final(self).spec_checker().statuses@ == last_n(
                old(self).spec_checker().statuses@.push(TimeStampedStatus { time: t, status }),
                old(self).spec_checker().statuses.spec_capacity() as nat,
            ),
            final(self).spec_emitted() == old(self).spec_emitted().push(
                CheckerMessage::AddedStatus(t, status),
            ),
    {
        let fresh = Timestamp::now();
        let n = self.checker.statuses.len();
        let time = if n == 0 {
            fresh
        } else {
            match self.checker.statuses.get(n - 1) {
                Some(last) => if last.time.le(&fresh) {
                    fresh
                } else {
                    last.time
                },
                None => fresh,
            }
        };
        let entry = TimeStampedStatus { time, status: status.clone() };
        self.checker.statuses.push(entry);
        proof {
            let s = old(self).spec_checker().statuses@.push(
                TimeStampedStatus { time, status: status },
            );
            let cap = old(self).spec_checker().statuses.spec_capacity() as nat;
            assert(forall|i: int|
                0 <= i < s.len() ==> (#[trigger] s[i]).time.well_formed());
            if s.len() > cap {
                assert(forall|i: int|
                    0 <= i < last_n(s, cap).len() ==> (#[trigger] last_n(s, cap)[i])
                        == s[i + s.len() - cap]);
            }
        }
        let message = CheckerMessage::AddedStatus(time, status);
        self.emitted = Ghost(self.emitted@.push(message));
        let _ = send_message(&self.sender, message);
        time
    }

    /// Hand the final `CheckerDropped` message to the channel, as the
    /// registry does when this checker leaves it.
    pub fn notify_dropped(&mut self)
        ensures
            final(self).spec_checker() == old(self).spec_checker(),
            final(self).spec_emitted() == old(self).spec_emitted().push(
                CheckerMessage::CheckerDropped,
            ),
    {
        self.emitted = Ghost(self.emitted@.push(CheckerMessage::CheckerDropped));
        let _ = send_message(&self.sender, CheckerMessage::CheckerDropped);
    }
}

/// Names strictly ascending over the entry list.
pub open spec fn entries_sorted(s: Seq<(String, CheckerWithSender)>) -> bool {
    forall|i: int, j: int|
        0 <= i < j < s.len() ==> chars_lt((#[trigger] s[i]).0@, (#[trigger] s[j]).0@)
}

/// Every checker of the entry list well formed.
pub open spec fn entries_wf(s: Seq<(String, CheckerWithSender)>) -> bool {
    forall|i: int| 0 <= i < s.len() ==> (#[trigger] s[i]).1.wf()
}

/// Whether some entry carries this name.
pub open spec fn seq_has_name(s: Seq<(String, CheckerWithSender)>, name: Seq<char>) -> bool {
    exists|i: int| 0 <= i < s.len() && (#[trigger] s[i]).0@ == name
}

/// The position of the entry carrying this name.
pub open spec fn seq_idx_of(s: Seq<(String, CheckerWithSender)>, name: Seq<char>) -> int {
    choose|i: int| 0 <= i < s.len() && (#[trigger] s[i]).0@ == name
}

/// The checker the entry list carries under this name.
pub open spec fn seq_lookup(
    s: Seq<(String, CheckerWithSender)>,
    name: Seq<char>,
) -> CheckerWithSender {
    s[seq_idx_of(s, name)].1
}

/// In a sorted entry list, positions with equal names coincide.
pub proof fn lemma_entries_unique(s: Seq<(String, CheckerWithSender)>, i: int, j: int)
    requires
        entries_sorted(s),
        0 <= i < s.len(),
        0 <= j < s.len(),
        s[i].0@ == s[j].0@,
    ensures
        i == j,
{
    if i != j {
        lemma_chars_lt_irrefl(s[i].0@);
    }
}

/// In a sorted entry list, `seq_lookup` of the name at `i` gives the
/// entry at `i`.
pub proof fn lemma_seq_lookup_at(s: Seq<(String, CheckerWithSender)>, i: int)
    requires
        entries_sorted(s),
        0 <= i < s.len(),
    ensures
        seq_has_name(s, s[i].0@),
        seq_idx_of(s, s[i].0@) == i,
        seq_lookup(s, s[i].0@) == s[i].1,
{
    assert(seq_has_name(s, s[i].0@));
    let j = seq_idx_of(s, s[i].0@);
    lemma_entries_unique(s, i, j);
}

/// Replacing the entry at `i` by one of the same name keeps order, and
/// changes membership and lookups of no other name.
pub proof fn lemma_entries_update(
    s: Seq<(String, CheckerWithSender)>,
    i: int,
    p: (String, CheckerWithSender),
)
    requires
        entries_sorted(s),
        0 <= i < s.len(),
        p.0@ == s[i].0@,
    ensures
        entries_sorted(s.update(i, p)),
        forall|m: Seq<char>| seq_has_name(s.update(i, p), m) <==> seq_has_name(s, m),
        seq_lookup(s.update(i, p), p.0@) == p.1,
        forall|m: Seq<char>|
            m != p.0@ && seq_has_name(s, m) ==> seq_lookup(s.update(i, p), m) == seq_lookup(s, m),
{
    let t = s.update(i, p);
    assert(forall|k: int| 0 <= k < t.len() ==> (#[trigger] t[k]).0@ == s[k].0@);
    assert(entries_sorted(t));
    assert forall|m: Seq<char>| seq_has_name(t, m) <==> seq_has_name(s, m) by {
        if seq_has_name(t, m) {
            let k = seq_idx_of(t, m);
            assert(s[k].0@ == m);
        }
        if seq_has_name(s, m) {
            let k = seq_idx_of(s, m);
            assert(t[k].0@ == m);
        }
    }
    lemma_seq_lookup_at(t, i);
    assert forall|m: Seq<char>|
        m != p.0@ && seq_has_name(s, m) implies seq_lookup(t, m) == seq_lookup(s, m) by {
        let k = seq_idx_of(s, m);
        assert(0 <= k < s.len() && s[k].0@ == m);
        assert(k != i);
        assert(t[k].0@ == m);
        lemma_seq_lookup_at(t, k);
        lemma_seq_lookup_at(s, k);
    }
}

/// Inserting an entry between its neighbours keeps order; the new name is
/// present, and membership and lookups of every other name are unchanged.
pub proof fn lemma_entries_insert(
    s: Seq<(String, CheckerWithSender)>,
    i: int,
    p: (String, CheckerWithSender),
)
    requires
        entries_sorted(s),
        0 <= i <= s.len(),
        forall|j: int| 0 <= j < i ==> chars_lt((#[trigger] s[j]).0@, p.0@),
        forall|j: int| i <= j < s.len() ==> chars_lt(p.0@, (#[trigger] s[j]).0@),
    ensures
        entries_sorted(s.insert(i, p)),
        seq_has_name(s.insert(i, p), p.0@),
        seq_lookup(s.insert(i, p), p.0@) == p.1,
        !seq_has_name(s, p.0@),
        forall|m: Seq<char>|
            m != p.0@ ==> (seq_has_name(s.insert(i, p), m) <==> seq_has_name(s, m)),
        forall|m: Seq<char>|
            m != p.0@ && seq_has_name(s, m) ==> seq_lookup(s.insert(i, p), m) == seq_lookup(s, m),
{
    let t = s.insert(i, p);
    assert(t.len() == s.len() + 1);
    assert(forall|k: int| 0 <= k < i ==> (#[trigger] t[k]) == s[k]);
    assert(t[i] == p);
    assert(forall|k: int| i < k < t.len() ==> (#[trigger] t[k]) == s[k - 1]);
    assert forall|a: int, b: int|
        0 <= a < b < t.len() implies chars_lt((#[trigger] t[a]).0@, (#[trigger] t[b]).0@) by {
        if a == i {
            assert(chars_lt(p.0@, s[b - 1].0@));
        } else if b == i {
            assert(chars_lt(s[a].0@, p.0@));
        } else if a < i && b > i {
            assert(chars_lt(s[a].0@, p.0@));
            assert(chars_lt(p.0@, s[b - 1].0@));
            lemma_chars_lt_trans(s[a].0@, p.0@, s[b - 1].0@);
        }
    }
    assert(entries_sorted(t));
    lemma_seq_lookup_at(t, i);
    if seq_has_name(s, p.0@) {
        let k = seq_idx_of(s, p.0@);
        lemma_chars_lt_irrefl(p.0@);
        assert(false);
    }
    assert forall|m: Seq<char>|
        m != p.0@ implies (seq_has_name(t, m) <==> seq_has_name(s, m)) by {
        if seq_has_name(t, m) {
            let k = seq_idx_of(t, m);
            if k < i {
                assert(s[k].0@ == m);
            } else {
                assert(k != i);
                assert(s[k - 1].0@ == m);
            }
        }
        if seq_has_name(s, m) {
            let k = seq_idx_of(s, m);
            if k < i {
                assert(t[k].0@ == m);
            } else {
                assert(t[k + 1].0@ == m);
            }
        }
    }
    assert forall|m: Seq<char>|
        m != p.0@ && seq_has_name(s, m) implies seq_lookup(t, m) == seq_lookup(s, m) by {
        let k = seq_idx_of(s, m);
        lemma_seq_lookup_at(s, k);
        if k < i {
            lemma_seq_lookup_at(t, k);
        } else {
            lemma_seq_lookup_at(t, k + 1);
        }
    }
}

/// Removing the entry at `i` keeps order; its name leaves, and membership
/// and lookups of every other name are unchanged.
pub proof fn lemma_entries_remove(s: Seq<(String, CheckerWithSender)>, i: int)
    requires
        entries_sorted(s),
        0 <= i < s.len(),
    ensures
        entries_sorted(s.remove(i)),
        !seq_has_name(s.remove(i), s[i].0@),
        forall|m: Seq<char>|
            m != s[i].0@ ==> (seq_has_name(s.remove(i), m) <==> seq_has_name(s, m)),
        forall|m: Seq<char>|
            m != s[i].0@ && seq_has_name(s, m) ==> seq_lookup(s.remove(i), m) == seq_lookup(s, m),
{
    let t = s.remove(i);
    assert(t.len() == s.len() - 1);
    assert(forall|k: int| 0 <= k < i ==> (#[trigger] t[k]) == s[k]);
    assert(forall|k: int| i <= k < t.len() ==> (#[trigger] t[k]) == s[k + 1]);
    assert(entries_sorted(t));
    if seq_has_name(t, s[i].0@) {
        let k = seq_idx_of(t, s[i].0@);
        if k < i {
            lemma_entries_unique(s, k, i);
        } else {
            lemma_entries_unique(s, k + 1, i);
        }
        assert(false);
    }
    assert forall|m: Seq<char>|
        m != s[i].0@ implies (seq_has_name(t, m) <==> seq_has_name(s, m)) by {
        if seq_has_name(t, m) {
            let k = seq_idx_of(t, m);
            if k < i {
                assert(s[k].0@ == m);
            } else {
                assert(s[k + 1].0@ == m);
            }
        }
        if seq_has_name(s, m) {
            let k = seq_idx_of(s, m);
            assert(k != i);
            if k < i {
                assert(t[k].0@ == m);
            } else {
                assert(t[k - 1].0@ == m);
            }
        }
    }
    assert forall|m: Seq<char>|
        m != s[i].0@ && seq_has_name(s, m) implies seq_lookup(t, m) == seq_lookup(s, m) by {
        let k = seq_idx_of(s, m);
        lemma_seq_lookup_at(s, k);
        if k < i {
            lemma_seq_lookup_at(t, k);
        } else {
            lemma_seq_lookup_at(t, k - 1);
        }
    }
}

/// The name-ordered registry of checkers, with the broadcast endpoint for
/// membership changes.  The entries are private: membership only changes
/// through `insert` and `remove`, each of which hands the matching
/// `ListMessage` to the channel.
pub struct Registry {
    entries: Vec<(String, CheckerWithSender)>,
    sender: Sender<ListMessage>,
    emitted: Ghost<Seq<ListMessageV>>,
}

impl Registry {
    /// The entries, in name order.
    pub closed spec fn spec_entries(&self) -> Seq<(String, CheckerWithSender)> {
        self.entries@
    }

    /// Every membership message handed to the channel so far, in order.
    pub closed spec fn spec_emitted(&self) -> Seq<ListMessageV> {
        self.emitted@
    }

    pub open spec fn wf(&self) -> bool {
        entries_sorted(self.spec_entries()) && entries_wf(self.spec_entries())
    }

    pub open spec fn has_name(&self, name: Seq<char>) -> bool {
        seq_has_name(self.spec_entries(), name)
    }

    /// The checker registered under this name.
    pub open spec fn lookup(&self, name: Seq<char>) -> CheckerWithSender {
        seq_lookup(self.spec_entries(), name)
    }

    /// The names, in ascending order.
    pub open spec fn spec_keys(&self) -> Seq<String> {
        Seq::new(self.spec_entries().len(), |i: int| self.spec_entries()[i].0)
    }

    /// A fresh empty registry.
    pub fn new() -> (r: Self)
        ensures
            r.wf(),
            r.spec_entries() == Seq::<(String, CheckerWithSender)>::empty(),
            r.spec_emitted() == Seq::<ListMessageV>::empty(),
    {
        Self { entries: Vec::new(), sender: new_channel(16), emitted: Ghost(Seq::empty()) }
    }

    /// The names, ascending, as owned strings.
    pub fn keys(&self) -> (r: Vec<String>)
        ensures
            r@ == self.spec_keys(),
    {
        let mut out: Vec<String> = Vec::new();
        let mut i: usize = 0;
        while i < self.entries.len()
            invariant
                i <= self.spec_entries().len(),
                out@.len() == i,
                forall|j: int| 0 <= j < i ==> out@[j] == self.spec_entries()[j].0,
            decreases self.spec_entries().len() - i,
        {
            let p = &self.entries[i];
            out.push(p.0.clone());
            i += 1;
        }
        proof {
            assert(out@ =~= self.spec_keys());
        }
        out
    }

    /// How many checkers are registered.
    pub fn len(&self) -> (r: usize)
        ensures
            r == self.spec_entries().len(),
    {
        self.entries.len()
    }

    /// The entry at a position, for walking the registry in name order.
    pub fn entry_at(&self, i: usize) -> (r: (&String, &CheckerWithSender))
        requires
            i < self.spec_entries().len(),
        ensures
            *r.0 == self.spec_entries()[i as int].0,
            *r.1 == self.spec_entries()[i as int].1,
    {
        let p = &self.entries[i];
        (&p.0, &p.1)
    }

    /// A fresh receiver for membership messages, bound to the current
    /// moment.
    pub fn subscribe(&self) -> (r: Receiver<ListMessage>) {
        subscribe(&self.sender)
    }

    /// The Initial frame for a membership subscription taken now.
    pub fn initial_message(&self) -> (r: ListMessage)
        ensures
            r@ == ListMessageV::Initial(self.spec_keys()),
    {
        ListMessage::Initial(self.keys())
    }

    /// The position of `name`, by linear search.
    fn position_of(&self, name: &String) -> (r: Option<usize>)
        ensures
            match r {
                Some(i) => i < self.spec_entries().len() && self.spec_entries()[i as int].0@
                    == name@,
                None => !self.has_name(name@),
            },
    {
        let mut i: usize = 0;
        while i < self.entries.len()
            invariant
                i <= self.spec_entries().len(),
                forall|j: int| 0 <= j < i ==> (#[trigger] self.spec_entries()[j]).0@ != name@,
            decreases self.spec_entries().len() - i,
        {
            let p = &self.entries[i];
            if p.0 == *name {
                return Some(i);
            }
            i += 1;
        }
        None
    }

    /// Read the checker registered under `name`.
    pub fn get(&self, name: &String) -> (r: Option<&CheckerWithSender>)
        requires
            self.wf(),
        ensures
            match r {
                Some(c) => self.has_name(name@) && *c == self.lookup(name@),
                None => !self.has_name(name@),
            },
    {
        match self.position_of(name) {
            Some(i) => {
                proof {
                    lemma_seq_lookup_at(self.spec_entries(), i as int);
                }
                let p = &self.entries[i];
                Some(&p.1)
            },
            None => None,
        }
    }

    /// Insert a checker under `name`: a fresh name announces `Insert`, a
    /// taken name announces `InsertReplace` and gives the replaced checker
    /// back.  Name order is kept.
    pub fn insert(&mut self, name: String, value: CheckerWithSender) -> (r: Option<
        CheckerWithSender,
    >)
        requires
            old(self).wf(),
            value.wf(),
        ensures
            final(self).wf(),
            r is Some <==> old(self).has_name(name@),
            final(self).has_name(name@),
            final(self).lookup(name@) == value,
            forall|m: Seq<char>|
                m != name@ ==> (final(self).has_name(m) <==> old(self).has_name(m)),
            forall|m: Seq<char>|
                m != name@ && old(self).has_name(m) ==> final(self).lookup(m) == old(self).lookup(
                    m,
                ),
            match r {
                Some(prev) => prev == old(self).lookup(name@) && final(self).spec_entries().len()
                    == old(self).spec_entries().len() && final(self).spec_emitted() == old(self).spec_emitted().push(ListMessageV::InsertReplace(name)),
                None => final(self).spec_entries().len() == old(self).spec_entries().len() + 1
                    && final(self).spec_emitted() == old(self).spec_emitted().push(
                    ListMessageV::Insert(name),
                ),
            },
    {
        let ghost old_entries = self.entries@;
        let mut i: usize = 0;
        while i < self.entries.len() && str_lt(self.entries[i].0.as_str(), name.as_str())
            invariant
                i <= old_entries.len(),
                self.entries@ == old_entries,
                forall|j: int| 0 <= j < i ==> chars_lt((#[trigger] old_entries[j]).0@, name@),
            decreases old_entries.len() - i,
        {
            i += 1;
        }
        let announced = name.clone();
        if i < self.entries.len() && self.entries[i].0 == name {
            let ghost gname = name@;
            let prev = self.entries.remove(i);
            self.entries.insert(i, (name, value));
            proof {
                assert(self.entries@ =~= old_entries.update(i as int, self.entries@[i as int]));
                lemma_seq_lookup_at(old_entries, i as int);
                lemma_entries_update(old_entries, i as int, self.entries@[i as int]);
            }
            self.emitted = Ghost(self.emitted@.push(ListMessageV::InsertReplace(announced)));
            let _ = send_message(&self.sender, ListMessage::InsertReplace(announced));
            Some(prev.1)
        } else {
            proof {
                if i < old_entries.len() {
                    let e = old_entries[i as int].0@;
                    assert(e != name@);
                    if !chars_lt(name@, e) {
                        lemma_chars_lt_connected(e, name@);
                        assert(false);
                    }
                }
                assert(forall|j: int|
                    i <= j < old_entries.len() ==> chars_lt(
                        name@,
                        (#[trigger] old_entries[j]).0@,
                    )) by {
                    if i < old_entries.len() {
                        assert forall|j: int|
                            i < j < old_entries.len() implies chars_lt(
                            name@,
                            old_entries[j].0@,
                        ) by {
                            lemma_chars_lt_trans(name@, old_entries[i as int].0@,
                                old_entries[j].0@);
                        }
                    }
                }
            }
            self.entries.insert(i, (name, value));
            proof {
                lemma_entries_insert(old_entries, i as int, self.entries@[i as int]);
                assert(self.entries@ =~= old_entries.insert(
                    i as int,
                    self.entries@[i as int],
                ));
            }
            self.emitted = Ghost(self.emitted@.push(ListMessageV::Insert(announced)));
            let _ = send_message(&self.sender, ListMessage::Insert(announced));
            None
        }
    }

    /// Remove the checker registered under `name`, if any: `Remove` is
    /// announced on the membership channel, `CheckerDropped` on the removed
    /// checker's own channel, and the removed checker is given back.
    pub fn remove(&mut self, name: &String) -> (r: Option<CheckerWithSender>)
        requires
            old(self).wf(),
        ensures
            final(self).wf(),
            r is Some <==> old(self).has_name(name@),
            !final(self).has_name(name@),
            forall|m: Seq<char>|
                m != name@ ==> (final(self).has_name(m) <==> old(self).has_name(m)),
            forall|m: Seq<char>|
                m != name@ && old(self).has_name(m) ==> final(self).lookup(m) == old(self).lookup(
                    m,
                ),
            match r {
                Some(prev) => prev.spec_checker() == old(self).lookup(name@).spec_checker()
                    && prev.spec_emitted() == old(self).lookup(name@).spec_emitted().push(
                    CheckerMessage::CheckerDropped,
                ) && final(self).spec_emitted() == old(self).spec_emitted().push(
                    ListMessageV::Remove(*name),
                ),
                None => *final(self) == *old(self),
            },
    {
        match self.position_of(name) {
            Some(i) => {
                let ghost old_entries = self.entries@;
                proof {
                    lemma_seq_lookup_at(old_entries, i as int);
                    lemma_entries_remove(old_entries, i as int);
                }
                let mut prev = self.entries.remove(i);
                prev.1.notify_dropped();
                self.emitted = Ghost(self.emitted@.push(ListMessageV::Remove(*name)));
                let _ = send_message(&self.sender, ListMessage::Remove(name.clone()));
                Some(prev.1)
            },
            None => None,
        }
    }

    /// Replace the spec of the checker registered under `name`, which
    /// hands `UpdatedSpec` to that checker's channel.  Membership does not
    /// change and nothing reaches the membership channel.
    pub fn update_spec(&mut self, name: &String, spec: Spec) -> (r: bool)
        requires
            old(self).wf(),
        ensures
            final(self).wf(),
            r <==> old(self).has_name(name@),
            final(self).spec_emitted() == old(self).spec_emitted(),
            final(self).spec_keys() == old(self).spec_keys(),
            forall|m: Seq<char>| final(self).has_name(m) <==> old(self).has_name(m),
            !r ==> *final(self) == *old(self),
            r ==> final(self).lookup(name@).spec_checker().spec == spec && final(self).lookup(
                name@,
            ).spec_checker().statuses == old(self).lookup(name@).spec_checker().statuses && final(self).lookup(name@).spec_emitted() == old(self).lookup(name@).spec_emitted().push(
                CheckerMessage::UpdatedSpec(spec),
            ),
            forall|m: Seq<char>|
                m != name@ && old(self).has_name(m) ==> final(self).lookup(m) == old(self).lookup(
                    m,
                ),
    {
        match self.position_of(name) {
            Some(i) => {
                let ghost old_entries = self.entries@;
                let mut pair = self.entries.remove(i);
                pair.1.update_spec(spec);
                self.entries.insert(i, pair);
                proof {
                    assert(self.entries@ =~= old_entries.update(
                        i as int,
                        self.entries@[i as int],
                    ));
                    lemma_seq_lookup_at(old_entries, i as int);
                    lemma_entries_update(old_entries, i as int, self.entries@[i as int]);
                    assert(final(self).spec_keys() =~= old(self).spec_keys());
                }
                true
            },
            None => {
                proof {
                    assert(final(self).spec_keys() =~= old(self).spec_keys());
                }
                false
            },
        }
    }


    /// Hand every checker's subscribers the final `CheckerDropped`, as
    /// teardown of the whole registry does at process end.  Membership and
    /// every checker's contents stay as they are, and nothing reaches the
    /// membership channel.
    #[verifier::loop_isolation(false)]
    pub fn notify_all_dropped(&mut self)
        requires
            old(self).wf(),
        ensures
            final(self).wf(),
            final(self).spec_emitted() == old(self).spec_emitted(),
            final(self).spec_entries().len() == old(self).spec_entries().len(),
            forall|i: int|
                0 <= i < old(self).spec_entries().len() ==> (#[trigger] final(self).spec_entries()[i]).0 == old(self).spec_entries()[i].0 && final(self).spec_entries()[i].1.spec_checker() == old(self).spec_entries()[i].1.spec_checker()
                    && final(self).spec_entries()[i].1.spec_emitted() == old(self).spec_entries()[i].1.spec_emitted().push(CheckerMessage::CheckerDropped),
    {
        let n = self.entries.len();
        let mut i: usize = 0;
        while i < n
            invariant
                i <= n,
                self.entries@.len() == old(self).spec_entries().len(),
                self.emitted@ == old(self).spec_emitted(),
                forall|j: int|
                    0 <= j < self.entries@.len() ==> (#[trigger] self.entries@[j]).0 == old(self).spec_entries()[j].0,
                forall|j: int|
                    i <= j < self.entries@.len() ==> (#[trigger] self.entries@[j]).1 == old(self).spec_entries()[j].1,
                forall|j: int|
                    0 <= j < i ==> (#[trigger] self.entries@[j]).1.spec_checker() == old(self).spec_entries()[j].1.spec_checker() && self.entries@[j].1.spec_emitted()
                        == old(self).spec_entries()[j].1.spec_emitted().push(
                        CheckerMessage::CheckerDropped,
                    ),
            decreases n - i,
        {
            let ghost before = self.entries@;
            let mut pair = self.entries.remove(i);
            pair.1.notify_dropped();
            self.entries.insert(i, pair);
            proof {
                assert(self.entries@ =~= before.update(i as int, self.entries@[i as int]));
            }
            i += 1;
        }
        proof {
            assert forall|a: int, b: int|
                0 <= a < b < self.entries@.len() implies crate::names::chars_lt(
                (#[trigger] self.entries@[a]).0@,
                (#[trigger] self.entries@[b]).0@,
            ) by {
                assert(self.entries@[a].0 == old(self).spec_entries()[a].0);
                assert(self.entries@[b].0 == old(self).spec_entries()[b].0);
            }
        }
    }

    /// Append a status to the checker registered under `name`, which
    /// hands `AddedStatus` with the fresh timestamp to that checker's
    /// channel.  Membership does not change and nothing reaches the
    /// membership channel.
    pub fn add_status(&mut self, name: &String, status: Status) -> (r: Option<Timestamp>)
        requires
            old(self).wf(),
        ensures
            final(self).wf(),
            r is Some <==> old(self).has_name(name@),
            final(self).spec_emitted() == old(self).spec_emitted(),
            final(self).spec_keys() == old(self).spec_keys(),
            forall|m: Seq<char>| final(self).has_name(m) <==> old(self).has_name(m),
            r is None ==> *final(self) == *old(self),
            match r {
                Some(t) => t.well_formed() && (match old(self).lookup(
                    name@,
                ).spec_last_status() {
                    Some(p) => p.time.spec_le(t),
                    None => true,
                }) && final(self).lookup(name@).spec_checker().spec == old(self).lookup(name@).spec_checker().spec && final(self).lookup(name@).spec_checker().statuses.spec_capacity() == old(self).lookup(
                    name@,
                ).spec_checker().statuses.spec_capacity() && final(self).lookup(name@).spec_checker().statuses@ == last_n(
                    old(self).lookup(name@).spec_checker().statuses@.push(
                        TimeStampedStatus { time: t, status },
                    ),
                    old(self).lookup(name@).spec_checker().statuses.spec_capacity() as nat,
                ) && final(self).lookup(name@).spec_emitted() == old(self).lookup(
                    name@,
                ).spec_emitted().push(CheckerMessage::AddedStatus(t, status)),
                None => true,
            },
            forall|m: Seq<char>|
                m != name@ && old(self).has_name(m) ==> final(self).lookup(m) == old(self).lookup(
                    m,
                ),
    {
        match self.position_of(name) {
            Some(i) => {
                let ghost old_entries = self.entries@;
                let mut pair = self.entries.remove(i);
                let t = pair.1.add_status(status);
                self.entries.insert(i, pair);
                proof {
                    assert(self.entries@ =~= old_entries.update(
                        i as int,
                        self.entries@[i as int],
                    ));
                    lemma_seq_lookup_at(old_entries, i as int);
                    lemma_entries_update(old_entries, i as int, self.entries@[i as int]);
                    assert(final(self).spec_keys() =~= old(self).spec_keys());
                }
                Some(t)
            },
            None => {
                proof {
                    assert(final(self).spec_keys() =~= old(self).spec_keys());
                }
                None
            },
        }
    }
}

} // verus!
