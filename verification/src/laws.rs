//! The library's cross-cutting guarantees, each stated over the spec
//! functions that the operations' own contracts use, and proved here.

use crate::api::{spec_get_checker_spec, spec_get_checker_statuses};
use crate::checker::{Spec, Status, TimeStampedStatus};
use crate::jsonout::{json_spec, json_statuses};
use crate::messages::CheckerMessage;
use crate::ringbuffer::{last_n, lemma_last_n_push};
use crate::state::AppState;
use crate::time::Timestamp;
use vstd::prelude::*;

verus! {

broadcast use
    vstd::seq_lib::lemma_seq_skip_index,
    vstd::seq_lib::lemma_seq_skip_len;

/// What a bounded FIFO retains: exactly the last `cap` elements of all it
/// was given, oldest first.
pub proof fn lemma_last_n_elements<T>(s: Seq<T>, cap: nat)
    ensures
        last_n(s, cap).len() == if s.len() <= cap {
            s.len()
        } else {
            cap
        },
        forall|i: int|
            0 <= i < last_n(s, cap).len() ==> last_n(s, cap)[i] == s[s.len() - last_n(
                s,
                cap,
            ).len() + i],
        s.len() > 0 && cap > 0 ==> last_n(s, cap).last() == s.last(),
{
}

/// Elements arriving one at a time land where arriving all at once would
/// put them: folding single bounded pushes over a sequence retains the
/// last `cap` of the whole.
pub open spec fn pushed_one_by_one<T>(init: Seq<T>, items: Seq<T>, cap: nat) -> Seq<T>
    decreases items.len(),
{
    if items.len() == 0 {
        last_n(init, cap)
    } else {
        last_n(pushed_one_by_one(init, items.drop_last(), cap).push(items.last()), cap)
    }
}

/// The bounded-history law: a history built by single pushes holds the
/// last `cap` elements of everything pushed, in order.
pub proof fn lemma_pushed_one_by_one<T>(init: Seq<T>, items: Seq<T>, cap: nat)
    ensures
        pushed_one_by_one(init, items, cap) == last_n(init + items, cap),
    decreases items.len(),
{
    if items.len() == 0 {
        assert(init + items =~= init);
    } else {
        lemma_pushed_one_by_one(init, items.drop_last(), cap);
        lemma_last_n_push(init + items.drop_last(), cap, items.last());
        assert((init + items.drop_last()).push(items.last()) =~= init + items);
    }
}

/// After a spec has been created or replaced for a name, a spec read of
/// that name answers 200 with exactly that spec's JSON.
pub proof fn lemma_spec_read_back(s: AppState, name: Seq<char>, sp: Spec)
    requires
        s.has_checker(name),
        s.spec_of(name) == sp,
    ensures
        spec_get_checker_spec(s, name) == (200u16, json_spec(sp)),
{
}

/// After `k` statuses have been appended to a fresh checker, a statuses
/// read answers 200 with exactly `min(k, history_length)` entries, oldest
/// first, and the last entry carries the last appended status.
pub proof fn lemma_statuses_read_back(
    s: AppState,
    name: Seq<char>,
    appended: Seq<TimeStampedStatus>,
)
    requires
        s.has_checker(name),
        s.statuses_of(name) == pushed_one_by_one(
            Seq::<TimeStampedStatus>::empty(),
            appended,
            s.spec_history_len() as nat,
        ),
    ensures
        spec_get_checker_statuses(s, name) == (200u16, json_statuses(s.statuses_of(name))),
        s.statuses_of(name).len() == if appended.len() <= s.spec_history_len() {
            appended.len() as int
        } else {
            s.spec_history_len() as int
        },
        forall|i: int|
            0 <= i < s.statuses_of(name).len() ==> s.statuses_of(name)[i] == appended[appended.len()
                - s.statuses_of(name).len() + i],
        appended.len() > 0 && s.spec_history_len() > 0 ==> s.statuses_of(name).last()
            == appended.last(),
{
    lemma_pushed_one_by_one(Seq::<TimeStampedStatus>::empty(), appended, s.spec_history_len() as nat);
    assert(Seq::<TimeStampedStatus>::empty() + appended =~= appended);
    lemma_last_n_elements(appended, s.spec_history_len() as nat);
}


/// Timestamps in a history, oldest first, never step backwards.
pub open spec fn times_non_decreasing(s: Seq<TimeStampedStatus>) -> bool {
    forall|i: int| 0 < i < s.len() ==> (#[trigger] s[i - 1].time).spec_le(s[i].time)
}

/// Appending under the server's clamped clock keeps the history's
/// timestamps non-decreasing: the fresh entry is no earlier than the
/// newest retained one, and evicting oldest entries cannot break the
/// order of those that remain.
pub proof fn lemma_clamped_append_keeps_order(
    s: Seq<TimeStampedStatus>,
    e: TimeStampedStatus,
    cap: nat,
)
    requires
        times_non_decreasing(s),
        s.len() > 0 ==> s.last().time.spec_le(e.time),
    ensures
        times_non_decreasing(last_n(s.push(e), cap)),
{
    let t = s.push(e);
    assert(times_non_decreasing(t)) by {
        assert forall|i: int| 0 < i < t.len() implies (#[trigger] t[i - 1].time).spec_le(
            t[i].time,
        ) by {
            if i < s.len() {
                assert(t[i - 1] == s[i - 1] && t[i] == s[i]);
            } else {
                assert(t[i - 1] == s.last() && t[i] == e);
            }
        }
    }
    let r = last_n(t, cap);
    assert forall|i: int| 0 < i < r.len() implies (#[trigger] r[i - 1].time).spec_le(
        r[i].time,
    ) by {
        let off = t.len() - r.len();
        if t.len() <= cap {
            assert(r == t);
            assert(r[i - 1].time.spec_le(r[i].time));
        } else {
            assert(r == t.skip(t.len() - cap));
            assert(r[i - 1] == t[off + i - 1]);
            assert(r[i] == t[off + i]);
            assert(t[off + i - 1].time.spec_le(t[off + i].time));
        }
    }
}

/// One mutation of a subscribed checker, as the subscriber will learn of
/// it.
pub ghost enum CheckerEvent {
    SpecSet(Spec),
    StatusAdded(Timestamp, Status),
}

/// The broadcast form of one mutation.
pub open spec fn event_message(e: CheckerEvent) -> CheckerMessage {
    match e {
        CheckerEvent::SpecSet(sp) => CheckerMessage::UpdatedSpec(sp),
        CheckerEvent::StatusAdded(t, st) => CheckerMessage::AddedStatus(t, st),
    }
}

/// A message log extended per mutation by that mutation's broadcast form,
/// as `update_spec` and `add_status` extend it.
pub open spec fn log_after(log: Seq<CheckerMessage>, events: Seq<CheckerEvent>) -> Seq<
    CheckerMessage,
>
    decreases events.len(),
{
    if events.len() == 0 {
        log
    } else {
        log_after(log, events.drop_last()).push(event_message(events.last()))
    }
}

/// The subscription law: after any sequence of mutations, the messages
/// handed to the checker's channel beyond the subscription point are
/// exactly the broadcast forms of those mutations, in order.  Together
/// with the channel's delivery order this is what a non-lagging
/// subscriber receives after its Initial frame.
pub proof fn lemma_subscriber_stream(log: Seq<CheckerMessage>, events: Seq<CheckerEvent>)
    ensures
        log_after(log, events) == log + events.map_values(|e: CheckerEvent| event_message(e)),
        log_after(log, events).skip(log.len() as int) == events.map_values(
            |e: CheckerEvent| event_message(e),
        ),
    decreases events.len(),
{
    let f = |e: CheckerEvent| event_message(e);
    if events.len() == 0 {
        assert(log + events.map_values(f) =~= log);
        assert(log.skip(log.len() as int) =~= events.map_values(f));
    } else {
        lemma_subscriber_stream(log, events.drop_last());
        assert(events.drop_last().map_values(f).push(f(events.last())) =~= events.map_values(f));
        assert((log + events.drop_last().map_values(f)).push(f(events.last())) =~= log
            + events.map_values(f));
        assert(log_after(log, events).skip(log.len() as int) =~= events.map_values(f));
    }
}

} // verus!
