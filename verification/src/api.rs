//! The HTTP surface, as decisions: each handler takes the state under the
//! access the caller's lock grants, and returns the status code and the
//! JSON body to send.  Reading and writing sockets stays with the caller.

use crate::checker::{Spec, Status, TimeStampedStatus};
use crate::jsonout::{
    json_checker, json_checker_map, json_info, json_spec, json_status, json_statuses, json_timed,
    json_name_seq,
};
use crate::messages::{CheckerMessage, Info, ListMessage, Message};
use crate::state::AppState;
use crate::time::Timestamp;
use vstd::prelude::*;

verus! {

/// What one receive from a broadcast channel yielded: a message, a count
/// of messages missed by lagging, or the channel's end.
pub enum RecvEvent<M> {
    Message(M),
    Lagged(u64),
    Closed,
}

/// What the socket task is to do next: send a frame, or close the socket.
pub enum WsAction<M> {
    Send(M),
    Close,
}

/// One step of a checker subscription: a received message is forwarded, a
/// lag becomes an explicit `Lagged` frame and the subscription goes on,
/// and a closed channel closes the socket.
pub fn checker_ws_step(event: RecvEvent<CheckerMessage>) -> (r: WsAction<CheckerMessage>)
    ensures
        match event {
            RecvEvent::Message(m) => r == WsAction::<CheckerMessage>::Send(m),
            RecvEvent::Lagged(n) => r == WsAction::<CheckerMessage>::Send(
                CheckerMessage::Lagged(n),
            ),
            RecvEvent::Closed => r == WsAction::<CheckerMessage>::Close,
        },
{
    match event {
        RecvEvent::Message(m) => WsAction::Send(m),
        RecvEvent::Lagged(n) => WsAction::Send(CheckerMessage::new_lag(n)),
        RecvEvent::Closed => WsAction::Close,
    }
}

/// One step of a membership subscription, as for checkers.
pub fn list_ws_step(event: RecvEvent<ListMessage>) -> (r: WsAction<ListMessage>)
    ensures
        match event {
            RecvEvent::Message(m) => r matches WsAction::Send(s) && s@ == m@,
            RecvEvent::Lagged(n) => r matches WsAction::Send(s) && s@
                == crate::messages::ListMessageV::Lagged(n),
            RecvEvent::Closed => r is Close,
        },
{
    match event {
        RecvEvent::Message(m) => WsAction::Send(m),
        RecvEvent::Lagged(n) => WsAction::Send(ListMessage::new_lag(n)),
        RecvEvent::Closed => WsAction::Close,
    }
}

/// A body of one status, or of several to append in order.
pub enum SingleOrVec<T> {
    Single(T),
    Multiple(Vec<T>),
}

impl<T> SingleOrVec<T> {
    /// The carried statuses as one list.
    pub fn into_vec(self) -> (r: Vec<T>)
        ensures
            match self {
                SingleOrVec::Single(t) => r@ =~= seq![t],
                SingleOrVec::Multiple(v) => r == v,
            },
    {
        match self {
            SingleOrVec::Single(t) => {
                let mut out: Vec<T> = Vec::new();
                out.push(t);
                out
            },
            SingleOrVec::Multiple(v) => v,
        }
    }
}

/// The response of a spec read: the spec's JSON, or 404.
pub open spec fn spec_get_checker_spec(s: AppState, name: Seq<char>) -> (u16, Seq<char>) {
    if s.has_checker(name) {
        (200u16, json_spec(s.spec_of(name)))
    } else {
        (404u16, "null"@)
    }
}

/// The response of a statuses read: the history's JSON, oldest first, or
/// 404.
pub open spec fn spec_get_checker_statuses(s: AppState, name: Seq<char>) -> (u16, Seq<char>) {
    if s.has_checker(name) {
        (200u16, json_statuses(s.statuses_of(name)))
    } else {
        (404u16, "null"@)
    }
}

/// The response of a single status read, indexed from the newest entry:
/// that entry's JSON, or 404 for an absent checker or index.
pub open spec fn spec_get_checker_status(s: AppState, name: Seq<char>, index: int) -> (
    u16,
    Seq<char>,
) {
    if s.has_checker(name) && 0 <= index < s.statuses_of(name).len() {
        (200u16, json_timed(s.statuses_of(name)[s.statuses_of(name).len() - 1 - index]))
    } else {
        (404u16, "null"@)
    }
}

/// The service information: 200 with the info record.
pub fn get_api_info(info: &Info) -> (r: (u16, String))
    ensures
        r.0 == 200,
        r.1@ == json_info(*info),
{
    (200, crate::jsonout::info_json(info))
}

/// Every checker with its history: 200 with the full map in name order.
pub fn get_checkers(state: &AppState) -> (r: (u16, String))
    requires
        state.wf(),
    ensures
        r.0 == 200,
        r.1@ == json_checker_map(state.snapshot()),
{
    (200, state.checkers_to_json())
}

/// The registered names: 200 with the list in lexicographic order.
pub fn get_checker_names(state: &AppState) -> (r: (u16, String))
    ensures
        r.0 == 200,
        r.1@ == "["@ + json_name_seq(state.spec_keys()) + "]"@,
{
    let names = state.checker_names();
    (200, crate::jsonout::names_json(&names))
}

/// One checker with its history: 200 with its JSON, or 404.
pub fn get_checker(state: &AppState, name: &String) -> (r: (u16, String))
    requires
        state.wf(),
    ensures
        state.has_checker(name@) ==> r.0 == 200 && r.1@ == "{\"spec\":"@ + json_spec(
            state.spec_of(name@),
        ) + ",\"statuses\":"@ + json_statuses(state.statuses_of(name@)) + "}"@,
        !state.has_checker(name@) ==> r.0 == 404 && r.1@ == "null"@,
{
    match state.get_checker(name) {
        Ok(c) => (200, crate::jsonout::checker_json(&c)),
        Err(_) => (404, null_body()),
    }
}

/// The string body of a miss.
fn null_body() -> (r: String)
    ensures
        r@ == "null"@,
{
    let mut out: Vec<char> = Vec::new();
    crate::jsonout::push_lit(&mut out, "null");
    crate::text::chars_string(&out)
}

/// Delete a checker: 200 with the removed checker's JSON, or 404.  The
/// membership channel announces `Remove`, the removed checker's own
/// channel `CheckerDropped`.
pub fn delete_checker(state: &mut AppState, name: &String) -> (r: (u16, String))
    requires
        old(state).wf(),
    ensures
        final(state).wf(),
        final(state).spec_history_len() == old(state).spec_history_len(),
        !final(state).has_checker(name@),
        old(state).has_checker(name@) ==> r.0 == 200 && r.1@ == json_checker(
            old(state).spec_registry().lookup(name@).spec_checker(),
        ) && final(state).spec_registry().spec_emitted() == old(
            state,
        ).spec_registry().spec_emitted().push(crate::messages::ListMessageV::Remove(*name))
            && final(state).spec_dropped() == old(state).spec_dropped().push(
            (
                name@,
                old(state).spec_registry().lookup(name@).spec_emitted().push(
                    CheckerMessage::CheckerDropped,
                ),
            ),
        ),
        !old(state).has_checker(name@) ==> r.0 == 404 && r.1@ == "null"@ && *final(state) == *old(state),
        forall|m: Seq<char>|
            m != name@ ==> (final(state).has_checker(m) <==> old(state).has_checker(m)),
        forall|m: Seq<char>|
            m != name@ && old(state).has_checker(m) ==> final(state).spec_registry().lookup(m)
                == old(state).spec_registry().lookup(m),
{
    match state.remove_checker(name) {
        Ok(c) => (200, crate::jsonout::checker_json(&c)),
        Err(_) => (404, null_body()),
    }
}

/// Read a checker's spec: 200 with its JSON, or 404.
pub fn get_checker_spec(state: &AppState, name: &String) -> (r: (u16, String))
    requires
        state.wf(),
    ensures
        (r.0, r.1@) == spec_get_checker_spec(*state, name@),
{
    match state.get_checker(name) {
        Ok(c) => {
            let mut out: Vec<char> = Vec::new();
            crate::jsonout::push_json_spec(&mut out, &c.spec);
            (200, crate::text::chars_string(&out))
        },
        Err(_) => (404, null_body()),
    }
}

/// Create a checker: 201 echoing the posted spec, or 409 when the name is
/// taken, changing nothing.  Success announces `Insert`.
pub fn post_checker_spec(state: &mut AppState, name: String, spec: Spec) -> (r: (u16, String))
    requires
        old(state).wf(),
    ensures
        final(state).wf(),
        final(state).spec_history_len() == old(state).spec_history_len(),
        old(state).has_checker(name@) ==> r.0 == 409 && r.1@ == "null"@ && *final(state) == *old(state),
        !old(state).has_checker(name@) ==> r.0 == 201 && r.1@ == json_spec(spec) && final(state).has_checker(name@) && final(state).spec_of(name@) == spec && final(state).statuses_of(
            name@,
        ) == Seq::<TimeStampedStatus>::empty(),
        forall|m: Seq<char>|
            m != name@ ==> (final(state).has_checker(m) <==> old(state).has_checker(m)),
        forall|m: Seq<char>|
            m != name@ && old(state).has_checker(m) ==> final(state).spec_registry().lookup(m)
                == old(state).spec_registry().lookup(m),
{
    let echo = spec.clone();
    match state.add_checker(name, spec) {
        Ok(()) => {
            let mut out: Vec<char> = Vec::new();
            crate::jsonout::push_json_spec(&mut out, &echo);
            (201, crate::text::chars_string(&out))
        },
        Err(_) => (409, null_body()),
    }
}

/// Replace a checker's spec: 200 echoing the new spec, or 404, changing
/// nothing.  Success announces `UpdatedSpec` on the checker's channel.
pub fn put_checker_spec(state: &mut AppState, name: &String, spec: Spec) -> (r: (u16, String))
    requires
        old(state).wf(),
    ensures
        final(state).wf(),
        final(state).spec_history_len() == old(state).spec_history_len(),
        !old(state).has_checker(name@) ==> r.0 == 404 && r.1@ == "null"@ && *final(state) == *old(state),
        old(state).has_checker(name@) ==> r.0 == 200 && r.1@ == json_spec(spec) && final(state).spec_of(name@) == spec && final(state).statuses_of(name@) == old(state).statuses_of(
            name@,
        ) && final(state).spec_registry().lookup(name@).spec_emitted() == old(state).spec_registry().lookup(name@).spec_emitted().push(CheckerMessage::UpdatedSpec(spec)),
        forall|m: Seq<char>| final(state).has_checker(m) <==> old(state).has_checker(m),
        forall|m: Seq<char>|
            m != name@ && old(state).has_checker(m) ==> final(state).spec_registry().lookup(m)
                == old(state).spec_registry().lookup(m),
{
    let echo = spec.clone();
    match state.update_spec(name, spec) {
        Ok(()) => {
            let mut out: Vec<char> = Vec::new();
            crate::jsonout::push_json_spec(&mut out, &echo);
            (200, crate::text::chars_string(&out))
        },
        Err(_) => (404, null_body()),
    }
}

/// Read a checker's history: 200 with the array oldest first, or 404.
pub fn get_checker_statuses(state: &AppState, name: &String) -> (r: (u16, String))
    requires
        state.wf(),
    ensures
        (r.0, r.1@) == spec_get_checker_statuses(*state, name@),
{
    match state.get_checker(name) {
        Ok(c) => (200, crate::jsonout::statuses_json(&c.statuses)),
        Err(_) => (404, null_body()),
    }
}

/// Read one history entry, 0 being the newest: 200 with its JSON, or 404
/// for an absent checker or index.
pub fn get_checker_status(state: &AppState, name: &String, index: usize) -> (r: (u16, String))
    requires
        state.wf(),
    ensures
        (r.0, r.1@) == spec_get_checker_status(*state, name@, index as int),
{
    match state.get_checker(name) {
        Ok(c) => {
            let n = c.statuses.len();
            if index < n {
                match c.statuses.get(n - 1 - index) {
                    Some(ts) => {
                        let mut out: Vec<char> = Vec::new();
                        crate::jsonout::push_json_timed(&mut out, ts);
                        (200, crate::text::chars_string(&out))
                    },
                    None => (404, null_body()),
                }
            } else {
                (404, null_body())
            }
        },
        Err(_) => (404, null_body()),
    }
}

/// Append a status: 201 echoing the posted status, or 404, changing
/// nothing.  The server assigns the timestamp; success announces
/// `AddedStatus` on the checker's channel.
pub fn post_checker_status(state: &mut AppState, name: &String, status: Status) -> (r: (
    u16,
    String,
))
    requires
        old(state).wf(),
    ensures
        final(state).wf(),
        final(state).spec_history_len() == old(state).spec_history_len(),
        !old(state).has_checker(name@) ==> r.0 == 404 && r.1@ == "null"@ && *final(state) == *old(state),
        old(state).has_checker(name@) ==> r.0 == 201 && r.1@ == json_status(status) && (
        exists|t: Timestamp|
            (#[trigger] t.well_formed()) && (match old(state).last_status_of(name@) {
                Some(p) => p.time.spec_le(t),
                None => true,
            }) && final(state).statuses_of(name@) == crate::ringbuffer::last_n(
                old(state).statuses_of(name@).push(TimeStampedStatus { time: t, status }),
                old(state).spec_history_len() as nat,
            ) && final(state).spec_registry().lookup(name@).spec_emitted() == old(state).spec_registry().lookup(name@).spec_emitted().push(
                CheckerMessage::AddedStatus(t, status),
            )) && final(state).spec_of(name@) == old(state).spec_of(name@),
        forall|m: Seq<char>| final(state).has_checker(m) <==> old(state).has_checker(m),
        forall|m: Seq<char>|
            m != name@ && old(state).has_checker(m) ==> final(state).spec_registry().lookup(m)
                == old(state).spec_registry().lookup(m),
{
    let echo = status.clone();
    match state.add_status(name, status) {
        Ok(t) => {
            let mut out: Vec<char> = Vec::new();
            crate::jsonout::push_json_status(&mut out, &echo);
            (201, crate::text::chars_string(&out))
        },
        Err(_) => (404, null_body()),
    }
}

} // verus!
