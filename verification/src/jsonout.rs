//! Rendering the wire and dump format: JSON text for specs, statuses,
//! checkers, whole registries and subscription messages.
//!
//! Every renderer is specified against a spec-level text function, so a
//! caller knows the exact characters that come out.

use crate::checker::{Checker, Spec, Status, TimeStampedStatus};
use crate::digits::dec_digits;
use crate::digits::push_dec_u64;
use crate::messages::{CheckerMessage, Info, ListMessage, ListMessageV};
use crate::ringbuffer::RingBuffer;
use crate::time::{push_rfc3339, spec_rfc3339, Timestamp};
use vstd::prelude::*;
use vstd::string::StrSliceExecFns;

verus! {

/// The hexadecimal character of one digit value, lowercase.
pub open spec fn hex_char(d: int) -> char {
    if d < 10 {
        ((48 + d) as u8) as char
    } else {
        ((87 + d) as u8) as char
    }
}

/// The escaped form of one character inside a JSON string: quote,
/// backslash and the common control characters get two-character escapes,
/// the remaining control characters a lowercase `\u00..` escape, and every
/// other character stands as itself.
pub open spec fn esc_char(c: char) -> Seq<char> {
    if c == '"' {
        seq!['\\', '"']
    } else if c == '\\' {
        seq!['\\', '\\']
    } else if c == '\n' {
        seq!['\\', 'n']
    } else if c == '\t' {
        seq!['\\', 't']
    } else if c == '\r' {
        seq!['\\', 'r']
    } else if (c as u32) < 32 {
        seq!['\\', 'u', '0', '0', hex_char(c as u32 as int / 16), hex_char(c as u32 as int % 16)]
    } else {
        seq![c]
    }
}

/// The body of a JSON string: each character escaped, in order.
pub open spec fn esc_string(s: Seq<char>) -> Seq<char>
    decreases s.len(),
{
    if s.len() == 0 {
        Seq::empty()
    } else {
        esc_string(s.drop_last()) + esc_char(s.last())
    }
}

/// A JSON string: the escaped body between quotes.
pub open spec fn json_string(s: Seq<char>) -> Seq<char> {
    seq!['"'] + esc_string(s) + seq!['"']
}

/// A JSON spec object.
pub open spec fn json_spec(sp: Spec) -> Seq<char> {
    "{\"description\":"@ + json_string(sp.description@) + ",\"url\":"@ + (match sp.url {
        Some(u) => json_string(u@),
        None => "null"@,
    }) + "}"@
}

/// A JSON status object.
pub open spec fn json_status(st: Status) -> Seq<char> {
    "{\"is_up\":"@ + (if st.is_up {
        "true"@
    } else {
        "false"@
    }) + ",\"message\":"@ + json_string(st.message@) + "}"@
}

/// A JSON timestamped status: a two-element array of the timestamp text
/// and the status object.
pub open spec fn json_timed(ts: TimeStampedStatus) -> Seq<char> {
    "[\""@ + spec_rfc3339(ts.time) + "\","@ + json_status(ts.status) + "]"@
}

/// The comma-joined elements of a status history.
pub open spec fn json_timed_seq(s: Seq<TimeStampedStatus>) -> Seq<char>
    decreases s.len(),
{
    if s.len() == 0 {
        Seq::empty()
    } else if s.len() == 1 {
        json_timed(s[0])
    } else {
        json_timed_seq(s.drop_last()) + ","@ + json_timed(s.last())
    }
}

/// A JSON status history: the array of timestamped statuses, oldest first.
pub open spec fn json_statuses(s: Seq<TimeStampedStatus>) -> Seq<char> {
    "["@ + json_timed_seq(s) + "]"@
}

/// A JSON checker object: its spec and its history.
pub open spec fn json_checker(c: Checker) -> Seq<char> {
    "{\"spec\":"@ + json_spec(c.spec) + ",\"statuses\":"@ + json_statuses(c.statuses@) + "}"@
}

/// The comma-joined members of a registry dump: each name as a JSON string,
/// a colon, and the checker object.
pub open spec fn json_entry_seq(s: Seq<(String, Checker)>) -> Seq<char>
    decreases s.len(),
{
    if s.len() == 0 {
        Seq::empty()
    } else if s.len() == 1 {
        json_string(s[0].0@) + ":"@ + json_checker(s[0].1)
    } else {
        json_entry_seq(s.drop_last()) + ","@ + json_string(s.last().0@) + ":"@ + json_checker(
            s.last().1,
        )
    }
}

/// A whole registry as one JSON object, the entries in the given order.
pub open spec fn json_checker_map(s: Seq<(String, Checker)>) -> Seq<char> {
    "{"@ + json_entry_seq(s) + "}"@
}

/// A checker message in its externally tagged JSON form.
pub open spec fn json_checker_message(m: CheckerMessage) -> Seq<char> {
    match m {
        CheckerMessage::Initial(sp, None) => "{\"Initial\":["@ + json_spec(sp) + ",null]}"@,
        CheckerMessage::Initial(sp, Some(ts)) => "{\"Initial\":["@ + json_spec(sp) + ","@
            + json_timed(ts) + "]}"@,
        CheckerMessage::UpdatedSpec(sp) => "{\"UpdatedSpec\":"@ + json_spec(sp) + "}"@,
        CheckerMessage::AddedStatus(t, st) => "{\"AddedStatus\":"@ + json_timed(
            TimeStampedStatus { time: t, status: st },
        ) + "}"@,
        CheckerMessage::CheckerDropped => "{\"CheckerDropped\":null}"@,
        CheckerMessage::Lagged(n) => "{\"Lagged\":"@ + dec_digits(n as nat) + "}"@,
    }
}

/// The comma-joined names of a list snapshot, each a JSON string.
pub open spec fn json_name_seq(s: Seq<String>) -> Seq<char>
    decreases s.len(),
{
    if s.len() == 0 {
        Seq::empty()
    } else if s.len() == 1 {
        json_string(s[0]@)
    } else {
        json_name_seq(s.drop_last()) + ","@ + json_string(s.last()@)
    }
}

/// A list message in its externally tagged JSON form.
pub open spec fn json_list_message(m: ListMessageV) -> Seq<char> {
    match m {
        ListMessageV::Initial(names) => "{\"Initial\":["@ + json_name_seq(names) + "]}"@,
        ListMessageV::Insert(name) => "{\"Insert\":"@ + json_string(name@) + "}"@,
        ListMessageV::InsertReplace(name) => "{\"InsertReplace\":"@ + json_string(name@) + "}"@,
        ListMessageV::Remove(name) => "{\"Remove\":"@ + json_string(name@) + "}"@,
        ListMessageV::Lagged(n) => "{\"Lagged\":"@ + dec_digits(n as nat) + "}"@,
    }
}

/// Whether every timestamp in a history renders.
pub open spec fn timed_seq_wf(s: Seq<TimeStampedStatus>) -> bool {
    forall|i: int| 0 <= i < s.len() ==> (#[trigger] s[i]).time.well_formed()
}

/// Append the characters of `lit` to `out`.
#[verifier::loop_isolation(false)]
pub fn push_lit(out: &mut Vec<char>, lit: &str)
    ensures
        final(out)@ == old(out)@ + lit@,
{
    let n = lit.unicode_len();
    let mut i: usize = 0;
    proof {
        assert(out@ =~= old(out)@ + lit@.take(0));
    }
    while i < n
        invariant
            i <= n,
            out@ == old(out)@ + lit@.take(i as int),
        decreases n - i,
    {
        let c = lit.get_char(i);
        out.push(c);
        i += 1;
        proof {
            assert(out@ =~= old(out)@ + lit@.take(i as int));
        }
    }
    proof {
        assert(lit@.take(n as int) =~= lit@);
    }
}

/// Append the escaped form of one character to `out`.
pub fn push_esc_char(out: &mut Vec<char>, c: char)
    ensures
        final(out)@ == old(out)@ + esc_char(c),
{
    let code = c as u32;
    if c == '"' {
        out.push('\\');
        out.push('"');
    } else if c == '\\' {
        out.push('\\');
        out.push('\\');
    } else if c == '\n' {
        out.push('\\');
        out.push('n');
    } else if c == '\t' {
        out.push('\\');
        out.push('t');
    } else if c == '\r' {
        out.push('\\');
        out.push('r');
    } else if code < 32 {
        out.push('\\');
        out.push('u');
        out.push('0');
        out.push('0');
        let hi = (code / 16) as u8;
        let lo = (code % 16) as u8;
        out.push(if hi < 10 { (48 + hi) as char } else { (87 + hi) as char });
        out.push(if lo < 10 { (48 + lo) as char } else { (87 + lo) as char });
    } else {
        out.push(c);
    }
    proof {
        assert(out@ =~= old(out)@ + esc_char(c));
    }
}

/// Append the JSON string form of `s` to `out`.
#[verifier::loop_isolation(false)]
pub fn push_json_string(out: &mut Vec<char>, s: &str)
    ensures
        final(out)@ == old(out)@ + json_string(s@),
{
    let cs = crate::text::str_chars(s);
    out.push('"');
    let mut i: usize = 0;
    proof {
        assert(esc_string(s@.take(0)) =~= Seq::<char>::empty());
        assert(out@ =~= old(out)@ + seq!['"'] + esc_string(s@.take(0)));
    }
    while i < cs.len()
        invariant
            i <= s@.len(),
            out@ == old(out)@ + seq!['"'] + esc_string(s@.take(i as int)),
        decreases s@.len() - i,
    {
        push_esc_char(out, cs[i]);
        i += 1;
        proof {
            let t = s@.take(i as int);
            assert(t.drop_last() =~= s@.take(i - 1));
            assert(t.last() == s@[i - 1]);
        }
    }
    out.push('"');
    proof {
        assert(s@.take(s@.len() as int) =~= s@);
        assert(out@ =~= old(out)@ + json_string(s@));
    }
}

/// Append the JSON spec object to `out`.
pub fn push_json_spec(out: &mut Vec<char>, sp: &Spec)
    ensures
        final(out)@ == old(out)@ + json_spec(*sp),
{
    push_lit(out, "{\"description\":");
    push_json_string(out, self_str(&sp.description));
    push_lit(out, ",\"url\":");
    match &sp.url {
        Some(u) => push_json_string(out, self_str(u)),
        None => push_lit(out, "null"),
    }
    push_lit(out, "}");
    proof {
        assert(out@ =~= old(out)@ + json_spec(*sp));
    }
}

/// A `String` seen as a `&str`, with the same characters.
fn self_str(s: &String) -> (r: &str)
    ensures
        r@ == s@,
{
    s.as_str()
}

/// Append the JSON status object to `out`.
pub fn push_json_status(out: &mut Vec<char>, st: &Status)
    ensures
        final(out)@ == old(out)@ + json_status(*st),
{
    push_lit(out, "{\"is_up\":");
    if st.is_up {
        push_lit(out, "true");
    } else {
        push_lit(out, "false");
    }
    push_lit(out, ",\"message\":");
    push_json_string(out, self_str(&st.message));
    push_lit(out, "}");
    proof {
        assert(out@ =~= old(out)@ + json_status(*st));
    }
}

/// Append the JSON form of one timestamped status to `out`.
pub fn push_json_timed(out: &mut Vec<char>, ts: &TimeStampedStatus)
    requires
        ts.time.well_formed(),
    ensures
        final(out)@ == old(out)@ + json_timed(*ts),
{
    push_lit(out, "[\"");
    push_rfc3339(out, &ts.time);
    push_lit(out, "\",");
    push_json_status(out, &ts.status);
    push_lit(out, "]");
    proof {
        assert(out@ =~= old(out)@ + json_timed(*ts));
    }
}

/// Append the JSON array of a status history to `out`, oldest first.
#[verifier::loop_isolation(false)]
#[verifier::rlimit(50)]
pub fn push_json_statuses(out: &mut Vec<char>, statuses: &RingBuffer<TimeStampedStatus>)
    requires
        timed_seq_wf(statuses@),
    ensures
        final(out)@ == old(out)@ + json_statuses(statuses@),
{
    out.push('[');
    proof {
        reveal_strlit("[");
        reveal_strlit("]");
    }
    let ghost s = statuses@;
    let n = statuses.len();
    let mut i: usize = 0;
    proof {
        assert(json_timed_seq(s.take(0)) =~= Seq::<char>::empty());
        assert(out@ =~= old(out)@ + "["@ + json_timed_seq(s.take(0)));
    }
    while i < n
        invariant
            i <= s.len(),
            out@ == old(out)@ + "["@ + json_timed_seq(s.take(i as int)),
        decreases s.len() - i,
    {
        if i > 0 {
            out.push(',');
        }
        let item = statuses.get(i);
        match item {
            Some(ts) => push_json_timed(out, ts),
            None => {
                proof {
                    assert(false);
                }
            },
        }
        i += 1;
        proof {
            reveal_strlit("[");
            reveal_strlit(",");
            let t = s.take(i as int);
            assert(t.drop_last() =~= s.take(i - 1));
            assert(t.last() == s[i - 1]);
            if i == 1 {
                assert(json_timed_seq(t) == json_timed(s[0]));
                assert(out@ =~= old(out)@ + "["@ + json_timed_seq(t));
            } else {
                assert(json_timed_seq(t) == json_timed_seq(s.take(i - 1)) + ","@ + json_timed(
                    s[i - 1],
                ));
                assert(out@ =~= old(out)@ + "["@ + json_timed_seq(t));
            }
        }
    }
    out.push(']');
    proof {
        assert(s.take(s.len() as int) =~= s);
        assert(out@ =~= old(out)@ + json_statuses(s));
    }
}

/// Append the JSON checker object to `out`.
pub fn push_json_checker(out: &mut Vec<char>, c: &Checker)
    requires
        c.wf(),
    ensures
        final(out)@ == old(out)@ + json_checker(*c),
{
    push_lit(out, "{\"spec\":");
    push_json_spec(out, &c.spec);
    push_lit(out, ",\"statuses\":");
    push_json_statuses(out, &c.statuses);
    push_lit(out, "}");
    proof {
        assert(out@ =~= old(out)@ + json_checker(*c));
    }
}

/// The JSON text of one checker.
pub fn checker_json(c: &Checker) -> (r: String)
    requires
        c.wf(),
    ensures
        r@ == json_checker(*c),
{
    let mut out: Vec<char> = Vec::new();
    push_json_checker(&mut out, c);
    crate::text::chars_string(&out)
}

/// The JSON text of a status history alone.
pub fn statuses_json(statuses: &RingBuffer<TimeStampedStatus>) -> (r: String)
    requires
        timed_seq_wf(statuses@),
    ensures
        r@ == json_statuses(statuses@),
{
    let mut out: Vec<char> = Vec::new();
    push_json_statuses(&mut out, statuses);
    crate::text::chars_string(&out)
}

/// The JSON text of a checker message.
pub fn checker_message_json(m: &CheckerMessage) -> (r: String)
    requires
        checker_message_wf(*m),
    ensures
        r@ == json_checker_message(*m),
{
    let mut out: Vec<char> = Vec::new();
    match m {
        CheckerMessage::Initial(sp, last) => {
            push_lit(&mut out, "{\"Initial\":[");
            push_json_spec(&mut out, sp);
            match last {
                Some(ts) => {
                    push_lit(&mut out, ",");
                    push_json_timed(&mut out, ts);
                    push_lit(&mut out, "]}");
                },
                None => {
                    push_lit(&mut out, ",null]}");
                },
            }
        },
        CheckerMessage::UpdatedSpec(sp) => {
            push_lit(&mut out, "{\"UpdatedSpec\":");
            push_json_spec(&mut out, sp);
            push_lit(&mut out, "}");
        },
        CheckerMessage::AddedStatus(t, st) => {
            push_lit(&mut out, "{\"AddedStatus\":");
            let ts = TimeStampedStatus { time: *t, status: st.clone() };
            push_json_timed(&mut out, &ts);
            push_lit(&mut out, "}");
        },
        CheckerMessage::CheckerDropped => {
            push_lit(&mut out, "{\"CheckerDropped\":null}");
        },
        CheckerMessage::Lagged(n) => {
            push_lit(&mut out, "{\"Lagged\":");
            push_dec_u64(&mut out, *n);
            push_lit(&mut out, "}");
        },
    }
    proof {
        assert(out@ =~= json_checker_message(*m));
    }
    crate::text::chars_string(&out)
}

/// Whether the timestamps a checker message carries all render.
pub open spec fn checker_message_wf(m: CheckerMessage) -> bool {
    match m {
        CheckerMessage::Initial(_, Some(ts)) => ts.time.well_formed(),
        CheckerMessage::AddedStatus(t, _) => t.well_formed(),
        _ => true,
    }
}

/// The JSON text of a list message.
#[verifier::loop_isolation(false)]
pub fn list_message_json(m: &ListMessage) -> (r: String)
    ensures
        r@ == json_list_message(m@),
{
    let mut out: Vec<char> = Vec::new();
    match m {
        ListMessage::Initial(names) => {
            push_lit(&mut out, "{\"Initial\":[");
            let ghost s = names@;
            let mut i: usize = 0;
            proof {
                assert(json_name_seq(s.take(0)) =~= Seq::<char>::empty());
                assert(out@ =~= "{\"Initial\":["@ + json_name_seq(s.take(0)));
            }
            while i < names.len()
                invariant
                    i <= s.len(),
                    out@ == "{\"Initial\":["@ + json_name_seq(s.take(i as int)),
                decreases s.len() - i,
            {
                if i > 0 {
                    push_lit(&mut out, ",");
                }
                push_json_string(&mut out, self_str(&names[i]));
                i += 1;
                proof {
                    let t = s.take(i as int);
                    assert(t.drop_last() =~= s.take(i - 1));
                    assert(t.last() == s[i - 1]);
                    assert(out@ =~= "{\"Initial\":["@ + json_name_seq(t));
                }
            }
            push_lit(&mut out, "]}");
            proof {
                assert(s.take(s.len() as int) =~= s);
            }
        },
        ListMessage::Insert(name) => {
            push_lit(&mut out, "{\"Insert\":");
            push_json_string(&mut out, self_str(name));
            push_lit(&mut out, "}");
        },
        ListMessage::InsertReplace(name) => {
            push_lit(&mut out, "{\"InsertReplace\":");
            push_json_string(&mut out, self_str(name));
            push_lit(&mut out, "}");
        },
        ListMessage::Remove(name) => {
            push_lit(&mut out, "{\"Remove\":");
            push_json_string(&mut out, self_str(name));
            push_lit(&mut out, "}");
        },
        ListMessage::Lagged(n) => {
            push_lit(&mut out, "{\"Lagged\":");
            push_dec_u64(&mut out, *n);
            push_lit(&mut out, "}");
        },
    }
    proof {
        assert(out@ =~= json_list_message(m@));
    }
    crate::text::chars_string(&out)
}


/// Rendering a checker reads only its spec and its history contents, so
/// entry lists that agree on those render alike.
pub proof fn lemma_entry_seq_congruent(a: Seq<(String, Checker)>, b: Seq<(String, Checker)>)
    requires
        a.len() == b.len(),
        forall|i: int|
            0 <= i < a.len() ==> (#[trigger] a[i]).0 == b[i].0 && a[i].1.spec == b[i].1.spec
                && a[i].1.statuses@ == b[i].1.statuses@,
    ensures
        json_entry_seq(a) == json_entry_seq(b),
    decreases a.len(),
{
    if a.len() > 0 {
        assert(a.drop_last().len() == b.drop_last().len());
        assert(forall|i: int|
            0 <= i < a.drop_last().len() ==> (#[trigger] a.drop_last()[i]) == a[i]
                && b.drop_last()[i] == b[i]);
        lemma_entry_seq_congruent(a.drop_last(), b.drop_last());
        assert(json_checker(a.last().1) == json_checker(b.last().1));
        assert(json_string(a.last().0@) == json_string(b.last().0@));
    }
}

/// Concatenation of six pieces associates freely.
proof fn lemma_concat_reassoc(
    base: Seq<char>,
    a: Seq<char>,
    b: Seq<char>,
    c: Seq<char>,
    d: Seq<char>,
    e: Seq<char>,
)
    ensures
        base + a + b + c + d + e == base + (a + b + c + d + e),
{
    assert(base + a + b + c + d + e =~= base + (a + b + c + d + e));
}

/// One step of the member join: cutting an entry list one later splits
/// off that entry's rendering, behind a separating comma except first.
proof fn lemma_entry_seq_step(s: Seq<(String, Checker)>, i: int)
    requires
        0 < i <= s.len(),
    ensures
        json_entry_seq(s.take(i)) == json_entry_seq(s.take(i - 1)) + (if i == 1 {
            Seq::<char>::empty()
        } else {
            ","@
        }) + json_string(s[i - 1].0@) + ":"@ + json_checker(s[i - 1].1),
{
    let t = s.take(i);
    assert(t.drop_last() =~= s.take(i - 1));
    assert(t.last() == s[i - 1]);
    if i == 1 {
        assert(json_entry_seq(t) == json_string(s[0].0@) + ":"@ + json_checker(s[0].1));
        assert(json_entry_seq(s.take(0)) + Seq::<char>::empty() + json_string(s[0].0@) + ":"@
            + json_checker(s[0].1) =~= json_entry_seq(t));
    } else {
        assert(json_entry_seq(t) == json_entry_seq(s.take(i - 1)) + ","@ + json_string(
            s[i - 1].0@,
        ) + ":"@ + json_checker(s[i - 1].1));
    }
}

/// One member of a rendered registry object: a separating comma where
/// needed, the name, a colon, and the checker.
fn push_json_entry(out: &mut Vec<char>, name: &String, c: &Checker, first: bool)
    requires
        c.wf(),
    ensures
        final(out)@ == old(out)@ + (if first {
            Seq::<char>::empty()
        } else {
            ","@
        }) + json_string(name@) + ":"@ + json_checker(*c),
{
    let ghost base = out@;
    if !first {
        push_lit(out, ",");
    } else {
        proof {
            assert(out@ =~= base + Seq::<char>::empty());
        }
    }
    push_json_string(out, self_str(name));
    push_lit(out, ":");
    push_json_checker(out, c);
}

/// The JSON text of a whole entry list, in the given order.
#[verifier::loop_isolation(false)]
#[verifier::rlimit(100)]
pub fn render_checker_map(entries: &Vec<(String, Checker)>) -> (r: String)
    requires
        forall|i: int| 0 <= i < entries@.len() ==> (#[trigger] entries@[i]).1.wf(),
    ensures
        r@ == json_checker_map(entries@),
{
    let ghost s = entries@;
    let mut out: Vec<char> = Vec::new();
    push_lit(&mut out, "{");
    let n = entries.len();
    let mut i: usize = 0;
    proof {
        assert(json_entry_seq(s.take(0)) =~= Seq::<char>::empty());
        assert(out@ =~= "{"@ + json_entry_seq(s.take(0)));
    }
    while i < n
        invariant
            i <= s.len(),
            out@ == "{"@ + json_entry_seq(s.take(i as int)),
        decreases n - i,
    {
        let ghost prefix = json_entry_seq(s.take(i as int));
        let p = &entries[i];
        push_json_entry(&mut out, &p.0, &p.1, i == 0);
        i += 1;
        proof {
            lemma_entry_seq_step(s, i as int);
            lemma_concat_reassoc(
                "{"@,
                prefix,
                if i == 1 {
                    Seq::<char>::empty()
                } else {
                    ","@
                },
                json_string(s[i - 1].0@),
                ":"@,
                json_checker(s[i - 1].1),
            );
        }
    }
    push_lit(&mut out, "}");
    proof {
        assert(s.take(s.len() as int) =~= s);
        assert(out@ =~= json_checker_map(s));
    }
    crate::text::chars_string(&out)
}


/// The JSON object of a service information record.
pub open spec fn json_info(info: Info) -> Seq<char> {
    "{\"writable\":"@ + (if info.writable {
        "true"@
    } else {
        "false"@
    }) + ",\"swec_version\":"@ + json_string(info.swec_version@) + "}"@
}

/// The JSON text of a service information record.
pub fn info_json(info: &Info) -> (r: String)
    ensures
        r@ == json_info(*info),
{
    let mut out: Vec<char> = Vec::new();
    push_lit(&mut out, "{\"writable\":");
    if info.writable {
        push_lit(&mut out, "true");
    } else {
        push_lit(&mut out, "false");
    }
    push_lit(&mut out, ",\"swec_version\":");
    push_json_string(&mut out, self_str(&info.swec_version));
    push_lit(&mut out, "}");
    proof {
        assert(out@ =~= json_info(*info));
    }
    crate::text::chars_string(&out)
}

/// The JSON array of a name list, in the given order.
#[verifier::loop_isolation(false)]
pub fn names_json(names: &Vec<String>) -> (r: String)
    ensures
        r@ == "["@ + json_name_seq(names@) + "]"@,
{
    let ghost s = names@;
    let mut out: Vec<char> = Vec::new();
    push_lit(&mut out, "[");
    let mut i: usize = 0;
    proof {
        assert(json_name_seq(s.take(0)) =~= Seq::<char>::empty());
        assert(out@ =~= "["@ + json_name_seq(s.take(0)));
    }
    while i < names.len()
        invariant
            i <= s.len(),
            out@ == "["@ + json_name_seq(s.take(i as int)),
        decreases s.len() - i,
    {
        if i > 0 {
            push_lit(&mut out, ",");
        }
        push_json_string(&mut out, self_str(&names[i]));
        i += 1;
        proof {
            let t = s.take(i as int);
            assert(t.drop_last() =~= s.take(i - 1));
            assert(t.last() == s[i - 1]);
            if i == 1 {
                assert(json_name_seq(t) == json_string(s[0]@));
            } else {
                assert(json_name_seq(t) == json_name_seq(s.take(i - 1)) + ","@ + json_string(
                    s[i - 1]@,
                ));
            }
            assert(out@ =~= "["@ + json_name_seq(t));
        }
    }
    push_lit(&mut out, "]");
    proof {
        assert(s.take(s.len() as int) =~= s);
        assert(out@ =~= "["@ + json_name_seq(s) + "]"@);
    }
    crate::text::chars_string(&out)
}


/// Equal concatenations with equally long heads have equal heads and
/// equal tails.
pub proof fn lemma_concat_parts(x: Seq<char>, p: Seq<char>, y: Seq<char>, q: Seq<char>)
    requires
        x + p == y + q,
        x.len() == y.len(),
    ensures
        x == y,
        p == q,
{
    assert(x =~= y) by {
        assert(forall|i: int| 0 <= i < x.len() ==> x[i] == (x + p)[i] && y[i] == (y + q)[i]);
    }
    assert((x + p).len() == x.len() + p.len());
    assert((y + q).len() == y.len() + q.len());
    assert(p.len() == q.len());
    assert forall|i: int| 0 <= i < p.len() implies p[i] == q[i] by {
        assert((x + p)[x.len() + i] == p[i]);
        assert((y + q)[y.len() + i] == q[i]);
    }
    assert(p =~= q);
}

/// The escaped form of a character is nonempty and never opens with a
/// quote, so a closing quote is never mistaken for string content.
pub proof fn lemma_esc_char_head(c: char)
    ensures
        esc_char(c).len() >= 1,
        esc_char(c)[0] != '"',
{
}

/// Hexadecimal digit characters determine their digits.
proof fn lemma_hex_char_inj(d1: int, d2: int)
    requires
        0 <= d1 < 16,
        0 <= d2 < 16,
        hex_char(d1) == hex_char(d2),
    ensures
        d1 == d2,
{
}

/// Two escaped characters that open the same text occupy the same width
/// and stand for the same character.
pub proof fn lemma_esc_char_same_width(x: char, y: char, u: Seq<char>, w: Seq<char>)
    requires
        esc_char(x) + u == esc_char(y) + w,
    ensures
        esc_char(x).len() == esc_char(y).len(),
        x == y,
{
    let t = esc_char(x) + u;
    assert(t[0] == esc_char(x)[0] && t[0] == esc_char(y)[0]);
    if esc_char(x)[0] == '\\' && esc_char(y)[0] == '\\' {
        assert(esc_char(x).len() >= 2 && esc_char(y).len() >= 2);
        assert(t[1] == esc_char(x)[1] && t[1] == esc_char(y)[1]);
        if esc_char(x)[1] == 'u' {
            assert(esc_char(x).len() == 6 && esc_char(y).len() == 6);
            assert(t[4] == esc_char(x)[4] && t[4] == esc_char(y)[4]);
            assert(t[5] == esc_char(x)[5] && t[5] == esc_char(y)[5]);
            let cx = x as u32 as int;
            let cy = y as u32 as int;
            lemma_hex_char_inj(cx / 16, cy / 16);
            lemma_hex_char_inj(cx % 16, cy % 16);
            assert(cx == cy) by {
                vstd::arithmetic::div_mod::lemma_fundamental_div_mod(cx, 16);
                vstd::arithmetic::div_mod::lemma_fundamental_div_mod(cy, 16);
            }
            vstd::utf8::char_u32_cast(x, x as u32);
            vstd::utf8::char_u32_cast(y, x as u32);
        } else {
            assert(esc_char(x).len() == 2 && esc_char(y).len() == 2);
            assert(x == y);
        }
    } else {
        assert(esc_char(x).len() == 1 && esc_char(y).len() == 1);
        assert(x == y);
    }
}

/// The body of a JSON string splits across concatenation.
pub proof fn lemma_esc_string_concat(a: Seq<char>, b: Seq<char>)
    ensures
        esc_string(a + b) == esc_string(a) + esc_string(b),
    decreases b.len(),
{
    if b.len() == 0 {
        assert(a + b =~= a);
        assert(esc_string(a) + esc_string(b) =~= esc_string(a));
    } else {
        assert((a + b).drop_last() =~= a + b.drop_last());
        assert((a + b).last() == b.last());
        lemma_esc_string_concat(a, b.drop_last());
        assert(esc_string(a) + esc_string(b.drop_last()) + esc_char(b.last()) =~= esc_string(a)
            + esc_string(b));
    }
}

/// Splitting the first character off the body of a JSON string.
pub proof fn lemma_esc_string_front(v: Seq<char>)
    requires
        v.len() > 0,
    ensures
        esc_string(v) == esc_char(v[0]) + esc_string(v.skip(1)),
{
    assert(v =~= seq![v[0]] + v.skip(1));
    lemma_esc_string_concat(seq![v[0]], v.skip(1));
    assert(esc_string(seq![v[0]]) =~= esc_char(v[0])) by {
        assert(seq![v[0]].drop_last() =~= Seq::<char>::empty());
        assert(seq![v[0]].last() == v[0]);
        assert(esc_string(seq![v[0]]) == esc_string(Seq::<char>::empty()) + esc_char(v[0]));
        assert(Seq::<char>::empty() + esc_char(v[0]) =~= esc_char(v[0]));
    }
}

/// Two string bodies that are each followed by a closing quote in the
/// same text have the same width.
proof fn lemma_esc_body_same_width(a: Seq<char>, u: Seq<char>, b: Seq<char>, w: Seq<char>)
    requires
        esc_string(a) + seq!['"'] + u == esc_string(b) + seq!['"'] + w,
    ensures
        esc_string(a).len() == esc_string(b).len(),
        a == b,
    decreases a.len(),
{
    let t = esc_string(a) + seq!['"'] + u;
    if a.len() == 0 && b.len() == 0 {
        assert(a =~= b);
    } else if a.len() == 0 {
        assert(t[0] == '"');
        lemma_esc_string_front(b);
        lemma_esc_char_head(b[0]);
        assert(t[0] == esc_char(b[0])[0]);
        assert(false);
    } else if b.len() == 0 {
        assert(t[0] == '"');
        lemma_esc_string_front(a);
        lemma_esc_char_head(a[0]);
        assert(t[0] == esc_char(a[0])[0]);
        assert(false);
    } else {
        lemma_esc_string_front(a);
        lemma_esc_string_front(b);
        let pa = esc_string(a.skip(1)) + seq!['"'] + u;
        let pb = esc_string(b.skip(1)) + seq!['"'] + w;
        assert(esc_char(a[0]) + pa =~= t);
        assert(esc_char(b[0]) + pb =~= esc_string(b) + seq!['"'] + w);
        lemma_esc_char_same_width(a[0], b[0], pa, pb);
        lemma_concat_parts(esc_char(a[0]), pa, esc_char(b[0]), pb);
        lemma_esc_body_same_width(a.skip(1), u, b.skip(1), w);
        assert(a =~= b) by {
            assert(forall|i: int|
                1 <= i < a.len() ==> a[i] == a.skip(1)[i - 1] && b[i] == b.skip(1)[i - 1]);
        }
    }
}

/// Two JSON strings that open the same text close together: the width of
/// a JSON string is determined by the text it stands in.
pub proof fn lemma_json_string_same_end(a: Seq<char>, u: Seq<char>, b: Seq<char>, w: Seq<char>)
    requires
        json_string(a) + u == json_string(b) + w,
    ensures
        json_string(a).len() == json_string(b).len(),
        a == b,
        u == w,
{
    let t = json_string(a) + u;
    assert(t =~= seq!['"'] + (esc_string(a) + seq!['"'] + u));
    assert(json_string(b) + w =~= seq!['"'] + (esc_string(b) + seq!['"'] + w));
    lemma_concat_parts(
        seq!['"'],
        esc_string(a) + seq!['"'] + u,
        seq!['"'],
        esc_string(b) + seq!['"'] + w,
    );
    lemma_esc_body_same_width(a, u, b, w);
    lemma_concat_parts(
        esc_string(a) + seq!['"'],
        u,
        esc_string(b) + seq!['"'],
        w,
    );
}


/// Extending the cut of a string by one character appends that
/// character's escaped block to the body.
pub proof fn lemma_esc_take_step(v: Seq<char>, k: int)
    requires
        0 <= k < v.len(),
    ensures
        esc_string(v.take(k + 1)) == esc_string(v.take(k)) + esc_char(v[k]),
{
    assert(v.take(k + 1).drop_last() =~= v.take(k));
    assert(v.take(k + 1).last() == v[k]);
}

/// The body splits at any cut into the escaped prefix and the escaped
/// remainder.
pub proof fn lemma_esc_split(v: Seq<char>, k: int)
    requires
        0 <= k <= v.len(),
    ensures
        esc_string(v) == esc_string(v.take(k)) + esc_string(v.skip(k)),
{
    assert(v =~= v.take(k) + v.skip(k));
    lemma_esc_string_concat(v.take(k), v.skip(k));
}



/// The same observation, compared by views.
pub open spec fn timed_views_eq(x: TimeStampedStatus, y: TimeStampedStatus) -> bool {
    x.time == y.time && x.status.is_up == y.status.is_up && x.status.message@
        == y.status.message@
}

/// The same history, compared element by element.
pub open spec fn seq_timed_views_eq(a: Seq<TimeStampedStatus>, b: Seq<TimeStampedStatus>) -> bool {
    a.len() == b.len() && forall|j: int| 0 <= j < a.len() ==> timed_views_eq(#[trigger] a[j], b[j])
}

/// Whether every entry's history carries renderable timestamps.
pub open spec fn entries_histories_wf(s: Seq<(String, Checker)>) -> bool {
    forall|i: int| 0 <= i < s.len() ==> timed_seq_wf((#[trigger] s[i]).1.statuses@)
}

/// The same spec, compared by views.
pub open spec fn spec_views_eq(a: Spec, b: Spec) -> bool {
    a.description@ == b.description@ && (a.url is Some <==> b.url is Some) && (match (
        a.url,
        b.url,
    ) {
        (Some(x), Some(y)) => x@ == y@,
        _ => true,
    })
}

/// The same checker, compared by views.
pub open spec fn checker_views_eq(a: Checker, b: Checker) -> bool {
    spec_views_eq(a.spec, b.spec) && seq_timed_views_eq(a.statuses@, b.statuses@)
}

/// Two JSON specs that open the same text close together.
#[verifier::rlimit(100)]
pub proof fn lemma_json_spec_same_end(a: Spec, u: Seq<char>, b: Spec, w: Seq<char>)
    requires
        json_spec(a) + u == json_spec(b) + w,
    ensures
        json_spec(a).len() == json_spec(b).len(),
        spec_views_eq(a, b),
        u == w,
{
    reveal_strlit("{\"description\":");
    reveal_strlit(",\"url\":");
    reveal_strlit("}");
    reveal_strlit("null");
    let l1 = "{\"description\":"@;
    let l2 = ",\"url\":"@;
    let l3 = "}"@;
    let ua = match a.url {
        Some(x) => json_string(x@),
        None => "null"@,
    };
    let ub = match b.url {
        Some(x) => json_string(x@),
        None => "null"@,
    };
    let ta = json_string(a.description@) + (l2 + (ua + (l3 + u)));
    let tb = json_string(b.description@) + (l2 + (ub + (l3 + w)));
    lemma_assoc6(l1, json_string(a.description@), l2, ua, l3, u);
    lemma_assoc6(l1, json_string(b.description@), l2, ub, l3, w);
    lemma_concat_parts(l1, ta, l1, tb);
    lemma_json_string_same_end(
        a.description@,
        l2 + (ua + (l3 + u)),
        b.description@,
        l2 + (ub + (l3 + w)),
    );
    lemma_concat_parts(l2, ua + (l3 + u), l2, ub + (l3 + w));
    let pa = ua + (l3 + u);
    let pb = ub + (l3 + w);
    assert(ua.len() >= 1 && ub.len() >= 1);
    assert(ua[0] == pa[0] && ub[0] == pb[0]);
    match (a.url, b.url) {
        (Some(x), Some(y)) => {
            lemma_json_string_same_end(x@, l3 + u, y@, l3 + w);
            lemma_concat_parts(l3, u, l3, w);
        },
        (None, None) => {
            lemma_concat_parts("null"@, l3 + u, "null"@, l3 + w);
            lemma_concat_parts(l3, u, l3, w);
        },
        (Some(x), None) => {
            assert(ua[0] == '"' && ub[0] == 'n');
            assert(false);
        },
        (None, Some(y)) => {
            assert(ua[0] == 'n' && ub[0] == '"');
            assert(false);
        },
    }
}

/// Two JSON statuses that open the same text close together.
#[verifier::rlimit(100)]
pub proof fn lemma_json_status_same_end(a: Status, u: Seq<char>, b: Status, w: Seq<char>)
    requires
        json_status(a) + u == json_status(b) + w,
    ensures
        json_status(a).len() == json_status(b).len(),
        a.is_up == b.is_up,
        a.message@ == b.message@,
        u == w,
{
    reveal_strlit("{\"is_up\":");
    reveal_strlit(",\"message\":");
    reveal_strlit("}");
    reveal_strlit("true");
    reveal_strlit("false");
    let l1 = "{\"is_up\":"@;
    let l2 = ",\"message\":"@;
    let l3 = "}"@;
    let ba = if a.is_up {
        "true"@
    } else {
        "false"@
    };
    let bb = if b.is_up {
        "true"@
    } else {
        "false"@
    };
    let ta = ba + (l2 + (json_string(a.message@) + (l3 + u)));
    let tb = bb + (l2 + (json_string(b.message@) + (l3 + w)));
    lemma_assoc6(l1, ba, l2, json_string(a.message@), l3, u);
    lemma_assoc6(l1, bb, l2, json_string(b.message@), l3, w);
    lemma_concat_parts(l1, ta, l1, tb);
    assert(ba[0] == ta[0] && bb[0] == tb[0]);
    if a.is_up != b.is_up {
        assert(ta[0] == 't' || ta[0] == 'f');
        assert(false);
    }
    lemma_concat_parts(
        ba,
        l2 + (json_string(a.message@) + (l3 + u)),
        bb,
        l2 + (json_string(b.message@) + (l3 + w)),
    );
    lemma_concat_parts(
        l2,
        json_string(a.message@) + (l3 + u),
        l2,
        json_string(b.message@) + (l3 + w),
    );
    lemma_json_string_same_end(a.message@, l3 + u, b.message@, l3 + w);
    lemma_concat_parts(l3, u, l3, w);
}

/// Two JSON timestamped statuses that open the same text close together.
#[verifier::rlimit(100)]
pub proof fn lemma_json_timed_same_end(
    a: TimeStampedStatus,
    u: Seq<char>,
    b: TimeStampedStatus,
    w: Seq<char>,
)
    requires
        json_timed(a) + u == json_timed(b) + w,
        a.time.well_formed(),
        b.time.well_formed(),
    ensures
        json_timed(a).len() == json_timed(b).len(),
        timed_views_eq(a, b),
        u == w,
{
    reveal_strlit("[\"");
    reveal_strlit("\",");
    reveal_strlit("]");
    let l1 = "[\""@;
    let l2 = "\","@;
    let l3 = "]"@;
    let ta = spec_rfc3339(a.time) + (l2 + (json_status(a.status) + (l3 + u)));
    let tb = spec_rfc3339(b.time) + (l2 + (json_status(b.status) + (l3 + w)));
    lemma_assoc6(l1, spec_rfc3339(a.time), l2, json_status(a.status), l3, u);
    lemma_assoc6(l1, spec_rfc3339(b.time), l2, json_status(b.status), l3, w);
    lemma_concat_parts(l1, ta, l1, tb);
    crate::time::lemma_rfc3339_len(a.time);
    crate::time::lemma_rfc3339_len(b.time);
    lemma_concat_parts(
        spec_rfc3339(a.time),
        l2 + (json_status(a.status) + (l3 + u)),
        spec_rfc3339(b.time),
        l2 + (json_status(b.status) + (l3 + w)),
    );
    lemma_concat_parts(
        l2,
        json_status(a.status) + (l3 + u),
        l2,
        json_status(b.status) + (l3 + w),
    );
    lemma_json_status_same_end(a.status, l3 + u, b.status, l3 + w);
    lemma_concat_parts(l3, u, l3, w);
    crate::time::lemma_rfc3339_round_trip(a.time);
    crate::time::lemma_rfc3339_round_trip(b.time);
    assert(spec_rfc3339(a.time) == spec_rfc3339(b.time));
    assert(a.time == b.time);
}

/// Pushing a two-piece tail inside a nested concatenation.
pub proof fn lemma_assoc_tail3(a: Seq<char>, d: Seq<char>, k: Seq<char>, m: Seq<char>, g: Seq<char>)
    ensures
        a + (d + k) + m + g == a + (d + (k + m + g)),
{
    assert(a + (d + k) + m + g =~= a + (d + (k + m + g)));
}

/// A subrange splits across two interior cut points.
pub proof fn lemma_subrange_join3(t: Seq<char>, p0: int, p1: int, p2: int, p3: int)
    requires
        0 <= p0 <= p1 <= p2 <= p3 <= t.len(),
    ensures
        t.subrange(p0, p3) == t.subrange(p0, p1) + t.subrange(p1, p2) + t.subrange(p2, p3),
{
    assert(t.subrange(p0, p3) =~= t.subrange(p0, p1) + t.subrange(p1, p2) + t.subrange(p2, p3));
}

/// Splitting the first element off a status join.
pub proof fn lemma_timed_seq_front(xs: Seq<TimeStampedStatus>)
    requires
        xs.len() > 0,
    ensures
        json_timed_seq(xs) == if xs.len() == 1 {
            json_timed(xs[0])
        } else {
            json_timed(xs[0]) + (","@ + json_timed_seq(xs.skip(1)))
        },
    decreases xs.len(),
{
    let a = json_timed(xs[0]);
    let d = ","@;
    if xs.len() == 1 {
    } else if xs.len() == 2 {
        assert(xs.drop_last() =~= seq![xs[0]]);
        assert(xs.skip(1) =~= seq![xs[1]]);
        assert(json_timed_seq(seq![xs[0]]) == json_timed(xs[0]));
        assert(json_timed_seq(seq![xs[1]]) == json_timed(xs[1]));
        assert(json_timed_seq(xs) == a + d + json_timed(xs.last()));
        lemma_assoc3(a, d, json_timed(xs.last()));
    } else {
        lemma_timed_seq_front(xs.drop_last());
        assert(xs.drop_last()[0] == xs[0]);
        assert(xs.drop_last().skip(1) =~= xs.skip(1).drop_last());
        assert(xs.skip(1).last() == xs.last());
        let k = json_timed_seq(xs.skip(1).drop_last());
        let g = json_timed(xs.last());
        assert(json_timed_seq(xs.drop_last()) == a + (d + k));
        assert(json_timed_seq(xs) == a + (d + k) + d + g);
        assert(json_timed_seq(xs.skip(1)) == k + d + g);
        lemma_assoc_tail3(a, d, k, d, g);
    }
}

/// Two status joins, each closed by a bracket, have the same width in the
/// same text.
proof fn lemma_timed_join_same_end(
    xs: Seq<TimeStampedStatus>,
    u: Seq<char>,
    ys: Seq<TimeStampedStatus>,
    w: Seq<char>,
)
    requires
        json_timed_seq(xs) + ("]"@ + u) == json_timed_seq(ys) + ("]"@ + w),
        timed_seq_wf(xs),
        timed_seq_wf(ys),
    ensures
        json_timed_seq(xs).len() == json_timed_seq(ys).len(),
        seq_timed_views_eq(xs, ys),
        u == w,
    decreases xs.len(),
{
    reveal_strlit("[\"");
    reveal_strlit("]");
    reveal_strlit(",");
    let t = json_timed_seq(xs) + ("]"@ + u);
    if xs.len() == 0 && ys.len() == 0 {
        lemma_concat_parts("]"@, u, "]"@, w);
        assert(seq_timed_views_eq(xs, ys));
    } else if xs.len() == 0 {
        lemma_timed_seq_front(ys);
        assert(json_timed(ys[0])[0] == '[');
        assert(json_timed_seq(ys)[0] == '[');
        assert(t[0] == ']');
        assert(false);
    } else if ys.len() == 0 {
        lemma_timed_seq_front(xs);
        assert(json_timed(xs[0])[0] == '[');
        assert(json_timed_seq(xs)[0] == '[');
        assert((json_timed_seq(ys) + ("]"@ + w))[0] == ']');
        assert(false);
    } else {
        lemma_timed_seq_front(xs);
        lemma_timed_seq_front(ys);
        let ra = if xs.len() == 1 {
            "]"@ + u
        } else {
            ","@ + (json_timed_seq(xs.skip(1)) + ("]"@ + u))
        };
        let rb = if ys.len() == 1 {
            "]"@ + w
        } else {
            ","@ + (json_timed_seq(ys.skip(1)) + ("]"@ + w))
        };
        assert(t == json_timed(xs[0]) + ra) by {
            if xs.len() == 1 {
            } else {
                lemma_assoc3(json_timed(xs[0]), ","@ + json_timed_seq(xs.skip(1)), "]"@ + u);
                lemma_assoc3(","@, json_timed_seq(xs.skip(1)), "]"@ + u);
            }
        }
        assert(json_timed_seq(ys) + ("]"@ + w) == json_timed(ys[0]) + rb) by {
            if ys.len() == 1 {
            } else {
                lemma_assoc3(json_timed(ys[0]), ","@ + json_timed_seq(ys.skip(1)), "]"@ + w);
                lemma_assoc3(","@, json_timed_seq(ys.skip(1)), "]"@ + w);
            }
        }
        lemma_json_timed_same_end(xs[0], ra, ys[0], rb);
        if xs.len() == 1 && ys.len() == 1 {
            lemma_concat_parts("]"@, u, "]"@, w);
            assert(seq_timed_views_eq(xs, ys));
        } else if xs.len() == 1 {
            assert(ra[0] == ']' && rb[0] == ',');
            assert(false);
        } else if ys.len() == 1 {
            assert(ra[0] == ',' && rb[0] == ']');
            assert(false);
        } else {
            lemma_concat_parts(
                ","@,
                json_timed_seq(xs.skip(1)) + ("]"@ + u),
                ","@,
                json_timed_seq(ys.skip(1)) + ("]"@ + w),
            );
            assert(timed_seq_wf(xs.skip(1)) && timed_seq_wf(ys.skip(1))) by {
                broadcast use vstd::seq_lib::lemma_seq_skip_index, vstd::seq_lib::lemma_seq_skip_len;

            }
            lemma_timed_join_same_end(xs.skip(1), u, ys.skip(1), w);
            assert forall|j: int| 0 <= j < xs.len() implies timed_views_eq(
                #[trigger] xs[j],
                ys[j],
            ) by {
                broadcast use vstd::seq_lib::lemma_seq_skip_index, vstd::seq_lib::lemma_seq_skip_len;

                if j > 0 {
                    assert(xs.skip(1)[j - 1] == xs[j] && ys.skip(1)[j - 1] == ys[j]);
                }
            }
        }
    }
}

/// Two JSON status histories that open the same text close together.
pub proof fn lemma_json_statuses_same_end(
    xs: Seq<TimeStampedStatus>,
    u: Seq<char>,
    ys: Seq<TimeStampedStatus>,
    w: Seq<char>,
)
    requires
        json_statuses(xs) + u == json_statuses(ys) + w,
        timed_seq_wf(xs),
        timed_seq_wf(ys),
    ensures
        json_statuses(xs).len() == json_statuses(ys).len(),
        seq_timed_views_eq(xs, ys),
        u == w,
{
    lemma_assoc3("["@, json_timed_seq(xs), "]"@);
    lemma_assoc3("["@, json_timed_seq(xs) + "]"@, u);
    assert(json_statuses(xs) + u == "["@ + (json_timed_seq(xs) + ("]"@ + u))) by {
        lemma_assoc3(json_timed_seq(xs), "]"@, u);
        assert(json_statuses(xs) + u =~= "["@ + (json_timed_seq(xs) + ("]"@ + u)));
    }
    assert(json_statuses(ys) + w == "["@ + (json_timed_seq(ys) + ("]"@ + w))) by {
        assert(json_statuses(ys) + w =~= "["@ + (json_timed_seq(ys) + ("]"@ + w)));
    }
    lemma_concat_parts(
        "["@,
        json_timed_seq(xs) + ("]"@ + u),
        "["@,
        json_timed_seq(ys) + ("]"@ + w),
    );
    lemma_timed_join_same_end(xs, u, ys, w);
}

/// Two JSON checkers that open the same text close together.
pub proof fn lemma_json_checker_same_end(a: Checker, u: Seq<char>, b: Checker, w: Seq<char>)
    requires
        json_checker(a) + u == json_checker(b) + w,
        timed_seq_wf(a.statuses@),
        timed_seq_wf(b.statuses@),
    ensures
        json_checker(a).len() == json_checker(b).len(),
        checker_views_eq(a, b),
        u == w,
{
    let l1 = "{\"spec\":"@;
    let l2 = ",\"statuses\":"@;
    let l3 = "}"@;
    let ta = json_spec(a.spec) + (l2 + (json_statuses(a.statuses@) + (l3 + u)));
    let tb = json_spec(b.spec) + (l2 + (json_statuses(b.statuses@) + (l3 + w)));
    lemma_assoc6(l1, json_spec(a.spec), l2, json_statuses(a.statuses@), l3, u);
    lemma_assoc6(l1, json_spec(b.spec), l2, json_statuses(b.statuses@), l3, w);
    lemma_concat_parts(l1, ta, l1, tb);
    lemma_json_spec_same_end(
        a.spec,
        l2 + (json_statuses(a.statuses@) + (l3 + u)),
        b.spec,
        l2 + (json_statuses(b.statuses@) + (l3 + w)),
    );
    lemma_concat_parts(
        l2,
        json_statuses(a.statuses@) + (l3 + u),
        l2,
        json_statuses(b.statuses@) + (l3 + w),
    );
    lemma_json_statuses_same_end(a.statuses@, l3 + u, b.statuses@, l3 + w);
    lemma_concat_parts(l3, u, l3, w);
}


/// A subrange splits at any midpoint.
pub proof fn lemma_subrange_split(t: Seq<char>, a: int, b: int, c: int)
    requires
        0 <= a <= b <= c <= t.len(),
    ensures
        t.subrange(a, c) == t.subrange(a, b) + t.subrange(b, c),
{
    assert(t.subrange(a, c) =~= t.subrange(a, b) + t.subrange(b, c));
}

/// Where a subrange is a concatenation, each part stands at its offset.
pub proof fn lemma_subrange_parts(t: Seq<char>, pos: int, end: int, x: Seq<char>, y: Seq<char>)
    requires
        0 <= pos <= end <= t.len(),
        t.subrange(pos, end) == x + y,
    ensures
        pos + x.len() <= end,
        t.subrange(pos, pos + x.len()) == x,
        t.subrange(pos + x.len(), end) == y,
{
    assert((x + y).len() == x.len() + y.len());
    assert(t.subrange(pos, pos + x.len()) =~= x) by {
        assert(forall|i: int|
            0 <= i < x.len() ==> #[trigger] t.subrange(pos, pos + x.len())[i] == t.subrange(
                pos,
                end,
            )[i]);
    }
    assert(t.subrange(pos + x.len(), end) =~= y) by {
        assert(forall|i: int|
            0 <= i < y.len() ==> #[trigger] t.subrange(pos + x.len(), end)[i] == t.subrange(
                pos,
                end,
            )[x.len() + i]);
    }
}


/// Reassociating a seven-piece concatenation behind its first four pieces.
proof fn lemma_assoc_front7(
    a: Seq<char>,
    b: Seq<char>,
    c: Seq<char>,
    d: Seq<char>,
    e: Seq<char>,
    f: Seq<char>,
    g: Seq<char>,
)
    ensures
        a + b + c + d + e + f + g == a + (b + (c + (d + (e + f + g)))),
{
    assert(a + b + c + d + e + f + g =~= a + (b + (c + (d + (e + f + g)))));
}

/// Pushing a four-piece tail inside a nested concatenation.
proof fn lemma_assoc_tail(
    a: Seq<char>,
    b: Seq<char>,
    c: Seq<char>,
    d: Seq<char>,
    k: Seq<char>,
    m: Seq<char>,
    e: Seq<char>,
    f: Seq<char>,
    g: Seq<char>,
)
    ensures
        a + (b + (c + (d + k))) + m + e + f + g == a + (b + (c + (d + (k + m + e + f + g)))),
{
    assert(a + (b + (c + (d + k))) + m + e + f + g =~= a + (b + (c + (d + (k + m + e + f
        + g)))));
}

/// Grafting a suffix onto the innermost piece of a nested concatenation.
pub proof fn lemma_assoc_graft(
    a: Seq<char>,
    b: Seq<char>,
    c: Seq<char>,
    d: Seq<char>,
    j: Seq<char>,
    h: Seq<char>,
)
    ensures
        (a + (b + (c + (d + j)))) + h == a + (b + (c + (d + (j + h)))),
{
    assert((a + (b + (c + (d + j)))) + h =~= a + (b + (c + (d + (j + h)))));
}

/// Reassociating three concatenated pieces.
pub proof fn lemma_assoc3(p1: Seq<char>, p2: Seq<char>, p3: Seq<char>)
    ensures
        p1 + p2 + p3 == p1 + (p2 + p3),
{
    assert(p1 + p2 + p3 =~= p1 + (p2 + p3));
}

/// Reassociating five concatenated pieces.
pub proof fn lemma_assoc5(
    p1: Seq<char>,
    p2: Seq<char>,
    p3: Seq<char>,
    p4: Seq<char>,
    p5: Seq<char>,
)
    ensures
        p1 + p2 + p3 + p4 + p5 == p1 + (p2 + (p3 + (p4 + p5))),
{
    assert(p1 + p2 + p3 + p4 + p5 =~= p1 + (p2 + (p3 + (p4 + p5))));
}

/// Reassociating six concatenated pieces.
pub proof fn lemma_assoc6(
    p1: Seq<char>,
    p2: Seq<char>,
    p3: Seq<char>,
    p4: Seq<char>,
    p5: Seq<char>,
    p6: Seq<char>,
)
    ensures
        p1 + p2 + p3 + p4 + p5 + p6 == p1 + (p2 + (p3 + (p4 + (p5 + p6)))),
{
    assert(p1 + p2 + p3 + p4 + p5 + p6 =~= p1 + (p2 + (p3 + (p4 + (p5 + p6)))));
}

/// Reassociating four concatenated pieces.
pub proof fn lemma_assoc4(p1: Seq<char>, p2: Seq<char>, p3: Seq<char>, p4: Seq<char>)
    ensures
        p1 + p2 + p3 + p4 == p1 + (p2 + (p3 + p4)),
{
    assert(p1 + p2 + p3 + p4 =~= p1 + (p2 + (p3 + p4)));
}

/// Grafting a suffix onto a three-piece nested concatenation.
pub proof fn lemma_assoc_graft3(a: Seq<char>, b: Seq<char>, c: Seq<char>, h: Seq<char>)
    ensures
        (a + (b + c)) + h == a + (b + (c + h)),
{
    assert((a + (b + c)) + h =~= a + (b + (c + h)));
}

/// Splitting the first entry off a registry member join.
pub proof fn lemma_entry_seq_front(xs: Seq<(String, Checker)>)
    requires
        xs.len() > 0,
    ensures
        json_entry_seq(xs) == if xs.len() == 1 {
            json_string(xs[0].0@) + (":"@ + json_checker(xs[0].1))
        } else {
            json_string(xs[0].0@) + (":"@ + (json_checker(xs[0].1) + (","@ + json_entry_seq(
                xs.skip(1),
            ))))
        },
    decreases xs.len(),
{
    let a = json_string(xs[0].0@);
    let b = ":"@;
    let c = json_checker(xs[0].1);
    let d = ","@;
    if xs.len() == 1 {
        lemma_assoc3(a, b, c);
    } else if xs.len() == 2 {
        assert(xs.drop_last() =~= seq![xs[0]]);
        assert(xs.skip(1) =~= seq![xs[1]]);
        let e = json_string(xs[1].0@);
        let f = ":"@;
        let g = json_checker(xs[1].1);
        assert(json_entry_seq(seq![xs[0]]) == a + b + c);
        assert(json_entry_seq(seq![xs[1]]) == e + f + g);
        assert(json_entry_seq(xs) == a + b + c + d + e + f + g);
        lemma_assoc_front7(a, b, c, d, e, f, g);
    } else {
        lemma_entry_seq_front(xs.drop_last());
        assert(xs.drop_last()[0] == xs[0]);
        assert(xs.drop_last().skip(1) =~= xs.skip(1).drop_last());
        assert(xs.skip(1).last() == xs.last());
        assert(xs.skip(1).len() >= 2);
        let k = json_entry_seq(xs.skip(1).drop_last());
        let m = ","@;
        let e = json_string(xs.last().0@);
        let f = ":"@;
        let g = json_checker(xs.last().1);
        assert(json_entry_seq(xs.drop_last()) == a + (b + (c + (d + k))));
        assert(json_entry_seq(xs) == a + (b + (c + (d + k))) + m + e + f + g);
        assert(json_entry_seq(xs.skip(1)) == k + m + e + f + g);
        lemma_assoc_tail(a, b, c, d, k, m, e, f, g);
    }
}

/// Two registry member joins, each closed by a brace, have the same width
/// in the same text.
#[verifier::rlimit(100)]
proof fn lemma_entry_join_same_end(
    xs: Seq<(String, Checker)>,
    u: Seq<char>,
    ys: Seq<(String, Checker)>,
    w: Seq<char>,
)
    requires
        json_entry_seq(xs) + ("}"@ + u) == json_entry_seq(ys) + ("}"@ + w),
        entries_histories_wf(xs),
        entries_histories_wf(ys),
    ensures
        json_entry_seq(xs).len() == json_entry_seq(ys).len(),
        xs.len() == ys.len(),
        forall|i: int|
            0 <= i < xs.len() ==> (#[trigger] xs[i]).0@ == ys[i].0@ && checker_views_eq(
                xs[i].1,
                ys[i].1,
            ),
        u == w,
    decreases xs.len(),
{
    reveal_strlit("}");
    reveal_strlit(",");
    reveal_strlit(":");
    let t = json_entry_seq(xs) + ("}"@ + u);
    if xs.len() == 0 && ys.len() == 0 {
        lemma_concat_parts("}"@, u, "}"@, w);
    } else if xs.len() == 0 {
        lemma_entry_seq_front(ys);
        assert(json_string(ys[0].0@)[0] == '"');
        assert(json_entry_seq(ys)[0] == '"');
        assert(t[0] == '}');
        assert(false);
    } else if ys.len() == 0 {
        lemma_entry_seq_front(xs);
        assert(json_string(xs[0].0@)[0] == '"');
        assert(json_entry_seq(xs)[0] == '"');
        assert((json_entry_seq(ys) + ("}"@ + w))[0] == '}');
        assert(false);
    } else {
        lemma_entry_seq_front(xs);
        lemma_entry_seq_front(ys);
        let h_a = "}"@ + u;
        let h_b = "}"@ + w;
        let ca = if xs.len() == 1 {
            h_a
        } else {
            ","@ + (json_entry_seq(xs.skip(1)) + h_a)
        };
        let cb = if ys.len() == 1 {
            h_b
        } else {
            ","@ + (json_entry_seq(ys.skip(1)) + h_b)
        };
        let ra = ":"@ + (json_checker(xs[0].1) + ca);
        let rb = ":"@ + (json_checker(ys[0].1) + cb);
        assert(t == json_string(xs[0].0@) + ra) by {
            if xs.len() == 1 {
                lemma_assoc_graft3(json_string(xs[0].0@), ":"@, json_checker(xs[0].1), h_a);
            } else {
                lemma_assoc_graft(
                    json_string(xs[0].0@),
                    ":"@,
                    json_checker(xs[0].1),
                    ","@,
                    json_entry_seq(xs.skip(1)),
                    h_a,
                );
            }
        }
        assert(json_entry_seq(ys) + h_b == json_string(ys[0].0@) + rb) by {
            if ys.len() == 1 {
                lemma_assoc_graft3(json_string(ys[0].0@), ":"@, json_checker(ys[0].1), h_b);
            } else {
                lemma_assoc_graft(
                    json_string(ys[0].0@),
                    ":"@,
                    json_checker(ys[0].1),
                    ","@,
                    json_entry_seq(ys.skip(1)),
                    h_b,
                );
            }
        }
        lemma_json_string_same_end(xs[0].0@, ra, ys[0].0@, rb);
        lemma_concat_parts(":"@, json_checker(xs[0].1) + ca, ":"@, json_checker(ys[0].1) + cb);
        lemma_json_checker_same_end(xs[0].1, ca, ys[0].1, cb);
        if xs.len() == 1 && ys.len() == 1 {
            lemma_concat_parts("}"@, u, "}"@, w);
        } else if xs.len() == 1 {
            assert(ca[0] == '}' && cb[0] == ',');
            assert(false);
        } else if ys.len() == 1 {
            assert(ca[0] == ',' && cb[0] == '}');
            assert(false);
        } else {
            lemma_concat_parts(
                ","@,
                json_entry_seq(xs.skip(1)) + h_a,
                ","@,
                json_entry_seq(ys.skip(1)) + h_b,
            );
            assert(entries_histories_wf(xs.skip(1)) && entries_histories_wf(ys.skip(1))) by {
                broadcast use vstd::seq_lib::lemma_seq_skip_index, vstd::seq_lib::lemma_seq_skip_len;

            }
            lemma_entry_join_same_end(xs.skip(1), u, ys.skip(1), w);
            assert forall|i: int|
                0 <= i < xs.len() implies (#[trigger] xs[i]).0@ == ys[i].0@ && checker_views_eq(
                xs[i].1,
                ys[i].1,
            ) by {
                broadcast use vstd::seq_lib::lemma_seq_skip_index, vstd::seq_lib::lemma_seq_skip_len;

                if i > 0 {
                    assert(xs.skip(1)[i - 1] == xs[i]);
                    assert(ys.skip(1)[i - 1] == ys[i]);
                }
            }
        }
    }
}

/// Two registry dumps that open the same text close together.
pub proof fn lemma_json_checker_map_same_end(
    xs: Seq<(String, Checker)>,
    u: Seq<char>,
    ys: Seq<(String, Checker)>,
    w: Seq<char>,
)
    requires
        json_checker_map(xs) + u == json_checker_map(ys) + w,
        entries_histories_wf(xs),
        entries_histories_wf(ys),
    ensures
        json_checker_map(xs).len() == json_checker_map(ys).len(),
        xs.len() == ys.len(),
        forall|i: int|
            0 <= i < xs.len() ==> (#[trigger] xs[i]).0@ == ys[i].0@ && checker_views_eq(
                xs[i].1,
                ys[i].1,
            ),
        u == w,
{
    lemma_assoc4("{"@, json_entry_seq(xs), "}"@, u);
    lemma_assoc4("{"@, json_entry_seq(ys), "}"@, w);
    lemma_concat_parts(
        "{"@,
        json_entry_seq(xs) + ("}"@ + u),
        "{"@,
        json_entry_seq(ys) + ("}"@ + w),
    );
    lemma_entry_join_same_end(xs, u, ys, w);
}


/// A subrange splits across four interior cut points.
pub proof fn lemma_subrange_join5(t: Seq<char>, p0: int, p1: int, p2: int, p3: int, p4: int, p5: int)
    requires
        0 <= p0 <= p1 <= p2 <= p3 <= p4 <= p5 <= t.len(),
    ensures
        t.subrange(p0, p5) == t.subrange(p0, p1) + t.subrange(p1, p2) + t.subrange(p2, p3)
            + t.subrange(p3, p4) + t.subrange(p4, p5),
{
    assert(t.subrange(p0, p5) =~= t.subrange(p0, p1) + t.subrange(p1, p2) + t.subrange(p2, p3)
        + t.subrange(p3, p4) + t.subrange(p4, p5));
}

} // verus!
