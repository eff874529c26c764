//! Reading the dump format back: parsers for the JSON text that the
//! renderers write.
//!
//! Each parser accepts exactly the canonical text, in both directions:
//! where it returns a value, the consumed characters are proved to be the
//! rendering of that value; and wherever a rendering stands, the parser is
//! proved to succeed.  A full read of a dump therefore pins the dump text
//! down to the rendering of the returned registry, and every dump the
//! renderers write reads back.

use crate::checker::{Checker, Spec, Status, TimeStampedStatus};
use crate::jsonout::{
    esc_char, esc_string, json_checker, json_checker_map, json_entry_seq, json_spec, json_status,
    json_statuses, json_string, json_timed, json_timed_seq,
};
use crate::ringbuffer::RingBuffer;
use crate::text::chars_string;
use crate::time::{lemma_rfc3339_canonical, read_rfc3339, spec_rfc3339};
use vstd::prelude::*;
use vstd::string::StrSliceExecFns;

verus! {

broadcast use
    vstd::seq_lib::lemma_seq_skip_index,
    vstd::seq_lib::lemma_seq_skip_len,
    vstd::seq_lib::lemma_seq_take_index,
    vstd::seq_lib::lemma_seq_take_len;

/// Whether a JSON string stands at `pos` of `t`.
pub open spec fn starts_json_string(t: Seq<char>, pos: int) -> bool {
    exists|v: Seq<char>, end: int| pos <= end <= t.len() && t.subrange(pos, end) == json_string(v)
}

/// What the text looks like at a block boundary inside a JSON string: the
/// remainder opens with the next character's escaped block, or with the
/// closing quote.
proof fn lemma_string_block_at(t: Seq<char>, pos: int, gv: Seq<char>, gend: int, cur: int, k: int)
    requires
        0 <= pos <= cur,
        pos <= gend <= t.len(),
        t.subrange(pos, gend) == json_string(gv),
        0 <= k <= gv.len(),
        cur == pos + 1 + esc_string(gv.take(k)).len(),
    ensures
        gend == pos + 2 + esc_string(gv).len(),
        cur + 1 <= gend,
        k == gv.len() ==> t[cur] == '"' && cur == gend - 1,
        k < gv.len() ==> esc_char(gv[k]).len() >= 1 && (forall|j: int|
            0 <= j < esc_char(gv[k]).len() ==> t[cur + j] == esc_char(gv[k])[j]) && cur + esc_char(
            gv[k],
        ).len() == pos + 1 + esc_string(gv.take(k + 1)).len() && cur + esc_char(gv[k]).len() + 1
            <= gend,
{
    crate::jsonout::lemma_esc_split(gv, k);
    assert(t.subrange(pos, gend).len() == gend - pos);
    assert(gend == pos + 2 + esc_string(gv).len());
    let w = t.subrange(pos, gend);
    assert(forall|j: int| 0 <= j < gend - cur ==> #[trigger] t[cur + j] == w[cur - pos + j]);
    if k == gv.len() {
        assert(esc_string(gv.take(k)) == esc_string(gv) + esc_string(gv.skip(k)));
        assert(gv.skip(k) =~= Seq::<char>::empty());
        assert(esc_string(gv.take(k)).len() == esc_string(gv).len()) by {
            assert(gv.take(k) =~= gv);
        }
        assert(w[cur - pos] == '"');
    } else {
        crate::jsonout::lemma_esc_string_front(gv.skip(k));
        assert(gv.skip(k)[0] == gv[k]);
        crate::jsonout::lemma_esc_char_head(gv[k]);
        crate::jsonout::lemma_esc_take_step(gv, k);
        crate::jsonout::lemma_esc_split(gv, k + 1);
        assert(esc_string(gv.skip(k)) == esc_char(gv[k]) + esc_string(gv.skip(k).skip(1)));
        assert forall|j: int| 0 <= j < esc_char(gv[k]).len() implies t[cur + j] == esc_char(
            gv[k],
        )[j] by {
            assert(w[cur - pos + j] == (seq!['"'] + esc_string(gv) + seq!['"'])[cur - pos + j]);
            assert(esc_string(gv)[cur - pos - 1 + j] == esc_string(gv.skip(k))[j]) by {
                assert(esc_string(gv) == esc_string(gv.take(k)) + esc_string(gv.skip(k)));
            }
            assert(esc_string(gv.skip(k))[j] == esc_char(gv[k])[j]);
        }
        assert(esc_string(gv.take(k + 1)).len() <= esc_string(gv).len()) by {
            assert(esc_string(gv) == esc_string(gv.take(k + 1)) + esc_string(gv.skip(k + 1)));
        }
    }
}

/// A character distinct from the short-escaped control characters has a
/// code distinct from theirs.
proof fn lemma_control_codes(c: char)
    requires
        c != '\t',
        c != '\n',
        c != '\r',
    ensures
        c as u32 != 9,
        c as u32 != 10,
        c as u32 != 13,
{
    let u = c as u32;
    vstd::utf8::char_u32_cast(c, u);
    if u == 9 {
        vstd::utf8::char_u32_cast('\t', u);
    }
    if u == 10 {
        vstd::utf8::char_u32_cast('\n', u);
    }
    if u == 13 {
        vstd::utf8::char_u32_cast('\r', u);
    }
}

/// Consume exactly the characters of `lit` at `pos`.  Fails only where the
/// text does not carry `lit` there.
#[verifier::loop_isolation(false)]
pub fn match_lit(s: &Vec<char>, pos: usize, lit: &str) -> (r: Option<usize>)
    ensures
        match r {
            Some(end) => pos <= end <= s@.len() && end == pos + lit@.len() && s@.subrange(
                pos as int,
                end as int,
            ) == lit@,
            None => !(pos + lit@.len() <= s@.len() && s@.subrange(pos as int, pos + lit@.len())
                == lit@),
        },
{
    let n = lit.unicode_len();
    if pos > s.len() || n > s.len() - pos {
        return None;
    }
    let mut i: usize = 0;
    while i < n
        invariant
            i <= n,
            forall|j: int| 0 <= j < i ==> s@[pos + j] == lit@[j],
        decreases n - i,
    {
        if s[pos + i] != lit.get_char(i) {
            proof {
                if s@.subrange(pos as int, pos + lit@.len()) == lit@ {
                    assert(s@.subrange(pos as int, pos + lit@.len())[i as int] == s@[pos + i]);
                    assert(false);
                }
            }
            return None;
        }
        i += 1;
    }
    proof {
        assert(s@.subrange(pos as int, (pos + n) as int) =~= lit@);
    }
    Some(pos + n)
}

/// Read a JSON string at `pos`.  Only the canonical escapes are accepted,
/// so the consumed text is the rendering of the returned string; and
/// wherever a JSON string stands, the read succeeds.
#[verifier::loop_isolation(false)]
#[verifier::rlimit(100)]
pub fn parse_string(s: &Vec<char>, pos: usize) -> (r: Option<(String, usize)>)
    ensures
        match r {
            Some((v, end)) => pos <= end <= s@.len() && s@.subrange(pos as int, end as int)
                == json_string(v@),
            None => !starts_json_string(s@, pos as int),
        },
{
    let ghost complete = starts_json_string(s@, pos as int);
    let ghost (gv, gend): (Seq<char>, int) = if complete {
        choose|v: Seq<char>, end: int|
            pos <= end <= s@.len() && s@.subrange(pos as int, end) == json_string(v)
    } else {
        (Seq::empty(), 0int)
    };
    proof {
        if complete {
            assert(s@.subrange(pos as int, gend) == json_string(gv));
            assert(gend - pos == 2 + esc_string(gv).len());
            assert(s@[pos as int] == s@.subrange(pos as int, gend)[0]);
            assert(json_string(gv)[0] == '"');
        }
    }
    if pos >= s.len() || s[pos] != '"' {
        proof {
            assert(!complete);
        }
        return None;
    }
    let mut acc: Vec<char> = Vec::new();
    let mut cur: usize = pos + 1;
    proof {
        assert(s@.subrange(pos + 1, pos + 1) =~= esc_string(acc@));
        if complete {
            assert(esc_string(gv.take(0)) =~= Seq::<char>::empty());
        }
    }
    while cur < s.len()
        invariant
            pos + 1 <= cur <= s@.len(),
            s@.subrange(pos + 1, cur as int) == esc_string(acc@),
            complete ==> exists|k: int|
                0 <= k <= gv.len() && cur == pos + 1 + esc_string(gv.take(k)).len(),
        decreases s@.len() - cur,
    {
        let ghost k: int = if complete {
            choose|k: int| 0 <= k <= gv.len() && cur == pos + 1 + esc_string(gv.take(k)).len()
        } else {
            0int
        };
        proof {
            if complete {
                lemma_string_block_at(s@, pos as int, gv, gend, cur as int, k);
            }
        }
        let c = s[cur];
        let code = c as u32;
        let ghost old_acc = acc@;
        let ghost old_cur = cur as int;
        if c == '"' {
            let v = chars_string(&acc);
            proof {
                assert(s@.subrange(pos as int, cur + 1) =~= seq!['"'] + esc_string(acc@) + seq![
                    '"',
                ]);
            }
            return Some((v, cur + 1));
        } else if c == '\\' {
            proof {
                if complete {
                    assert(k < gv.len());
                    assert(esc_char(gv[k])[0] == '\\');
                    assert(esc_char(gv[k]).len() >= 2);
                }
            }
            if cur + 1 >= s.len() {
                proof {
                    assert(!complete);
                }
                return None;
            }
            let e = s[cur + 1];
            if e == '"' || e == '\\' {
                acc.push(e);
                cur = cur + 2;
            } else if e == 'n' {
                acc.push('\n');
                cur = cur + 2;
            } else if e == 't' {
                acc.push('\t');
                cur = cur + 2;
            } else if e == 'r' {
                acc.push('\r');
                cur = cur + 2;
            } else if e == 'u' {
                proof {
                    if complete {
                        assert(esc_char(gv[k])[1] == 'u');
                        assert(gv[k] != '"' && gv[k] != '\\' && gv[k] != '\n' && gv[k] != '\t'
                            && gv[k] != '\r' && (gv[k] as u32) < 32);
                        assert(esc_char(gv[k]).len() == 6);
                    }
                }
                if s.len() - cur < 6 {
                    proof {
                        assert(!complete);
                    }
                    return None;
                }
                if s[cur + 2] != '0' || s[cur + 3] != '0' {
                    proof {
                        assert(!complete);
                    }
                    return None;
                }
                let h1 = s[cur + 4] as u32;
                let h2 = s[cur + 5] as u32;
                proof {
                    if complete {
                        let gcode = gv[k] as u32 as int;
                        assert(s@[cur + 4] == crate::jsonout::hex_char(gcode / 16));
                        assert(s@[cur + 5] == crate::jsonout::hex_char(gcode % 16));
                    }
                }
                let v1: u32 = if 48 <= h1 && h1 <= 57 {
                    h1 - 48
                } else if 97 <= h1 && h1 <= 102 {
                    h1 - 87
                } else {
                    proof {
                        assert(!complete);
                    }
                    return None;
                };
                let v2: u32 = if 48 <= h2 && h2 <= 57 {
                    h2 - 48
                } else if 97 <= h2 && h2 <= 102 {
                    h2 - 87
                } else {
                    proof {
                        assert(!complete);
                    }
                    return None;
                };
                let v = v1 * 16 + v2;
                proof {
                    if complete {
                        let gcode = gv[k] as u32 as int;
                        assert(v1 == gcode / 16 && v2 == gcode % 16);
                        vstd::arithmetic::div_mod::lemma_fundamental_div_mod(gcode, 16);
                        assert(v == gcode);
                    }
                }
                if v >= 32 || v == 9 || v == 10 || v == 13 {
                    proof {
                        if complete {
                            lemma_control_codes(gv[k]);
                            assert(false);
                        }
                    }
                    return None;
                }
                let hi = (v / 16) as u8;
                let lo = (v % 16) as u8;
                let c1: char = if hi < 10 {
                    (48 + hi) as char
                } else {
                    (87 + hi) as char
                };
                let c2: char = if lo < 10 {
                    (48 + lo) as char
                } else {
                    (87 + lo) as char
                };
                if s[cur + 4] != c1 || s[cur + 5] != c2 {
                    proof {
                        if complete {
                            assert(c1 == crate::jsonout::hex_char(v as int / 16));
                            assert(c2 == crate::jsonout::hex_char(v as int % 16));
                            assert(false);
                        }
                    }
                    return None;
                }
                let decoded = (v as u8) as char;
                acc.push(decoded);
                cur = cur + 6;
                proof {
                    assert(decoded as u32 == v);
                    assert(esc_char(decoded) =~= s@.subrange(old_cur, cur as int)) by {
                        assert(decoded as u32 as int / 16 == hi as int);
                        assert(decoded as u32 as int % 16 == lo as int);
                        assert(crate::jsonout::hex_char(hi as int) == c1);
                        assert(crate::jsonout::hex_char(lo as int) == c2);
                    }
                }
            } else {
                proof {
                    if complete {
                        assert(esc_char(gv[k])[1] == e);
                        assert(false);
                    }
                }
                return None;
            }
        } else if code < 32 {
            proof {
                if complete {
                    assert(k < gv.len());
                    assert(esc_char(gv[k])[0] == c);
                    assert(false);
                }
            }
            return None;
        } else {
            acc.push(c);
            cur = cur + 1;
        }
        proof {
            assert(acc@.drop_last() =~= old_acc);
            assert(esc_string(acc@) == esc_string(old_acc) + esc_char(acc@.last()));
            assert(esc_char(acc@.last()) =~= s@.subrange(old_cur, cur as int));
            assert(s@.subrange(pos + 1, cur as int) =~= s@.subrange(pos + 1, old_cur)
                + s@.subrange(old_cur, cur as int));
            if complete {
                assert(esc_char(gv[k]) =~= s@.subrange(old_cur, cur as int)) by {
                    assert(cur - old_cur == esc_char(gv[k]).len());
                }
                crate::jsonout::lemma_esc_take_step(gv, k);
                assert(cur == pos + 1 + esc_string(gv.take(k + 1)).len());
            }
        }
    }
    proof {
        if complete {
            let k = choose|k: int|
                0 <= k <= gv.len() && cur == pos + 1 + esc_string(gv.take(k)).len();
            lemma_string_block_at(s@, pos as int, gv, gend, cur as int, k);
            assert(cur + 1 <= gend);
            assert(false);
        }
    }
    None
}

/// Whether a JSON spec object stands at `pos` of `t`.
pub open spec fn starts_json_spec(t: Seq<char>, pos: int) -> bool {
    exists|v: Spec, end: int| pos <= end <= t.len() && t.subrange(pos, end) == json_spec(v)
}

/// Whether a JSON status object stands at `pos` of `t`.
pub open spec fn starts_json_status(t: Seq<char>, pos: int) -> bool {
    exists|v: Status, end: int| pos <= end <= t.len() && t.subrange(pos, end) == json_status(v)
}

/// Whether a JSON timestamped status with a renderable timestamp stands
/// at `pos` of `t`.
pub open spec fn starts_json_timed(t: Seq<char>, pos: int) -> bool {
    exists|v: TimeStampedStatus, end: int|
        pos <= end <= t.len() && t.subrange(pos, end) == json_timed(v) && v.time.well_formed()
}

/// Read `null` or a JSON string at `pos`.
pub fn parse_opt_string(s: &Vec<char>, pos: usize) -> (r: Option<(Option<String>, usize)>)
    ensures
        match r {
            Some((v, end)) => pos <= end <= s@.len() && s@.subrange(pos as int, end as int)
                == (match v {
                Some(u) => json_string(u@),
                None => "null"@,
            }),
            None => !(pos + 4 <= s@.len() && s@.subrange(pos as int, pos + 4) == "null"@)
                && !starts_json_string(s@, pos as int),
        },
{
    match match_lit(s, pos, "null") {
        Some(end) => Some((None, end)),
        None => {
            match parse_string(s, pos) {
                Some((v, end)) => Some((Some(v), end)),
                None => None,
            }
        },
    }
}

/// Read a JSON spec object at `pos`; wherever one stands, the read
/// succeeds.
#[verifier::rlimit(100)]
pub fn parse_spec(s: &Vec<char>, pos: usize) -> (r: Option<(Spec, usize)>)
    ensures
        match r {
            Some((v, end)) => pos <= end <= s@.len() && s@.subrange(pos as int, end as int)
                == json_spec(v),
            None => !starts_json_spec(s@, pos as int),
        },
{
    let ghost complete = starts_json_spec(s@, pos as int);
    let ghost (gv, gend): (Spec, int) = if complete {
        choose|v: Spec, end: int|
            pos <= end <= s@.len() && s@.subrange(pos as int, end) == json_spec(v)
    } else {
        (vstd::pervasive::arbitrary(), 0int)
    };
    let ghost l1 = "{\"description\":"@;
    let ghost l2 = ",\"url\":"@;
    let ghost l3 = "}"@;
    let ghost sdesc = json_string(gv.description@);
    let ghost uu: Seq<char> = match gv.url {
        Some(x) => json_string(x@),
        None => "null"@,
    };
    let ghost o1 = pos + l1.len();
    let ghost o2 = o1 + sdesc.len();
    let ghost o3 = o2 + l2.len();
    let ghost o4 = o3 + uu.len();
    proof {
        if complete {
            crate::jsonout::lemma_assoc5(l1, sdesc, l2, uu, l3);
            crate::jsonout::lemma_subrange_parts(
                s@,
                pos as int,
                gend,
                l1,
                sdesc + (l2 + (uu + l3)),
            );
            crate::jsonout::lemma_subrange_parts(s@, o1, gend, sdesc, l2 + (uu + l3));
            crate::jsonout::lemma_subrange_parts(s@, o2, gend, l2, uu + l3);
            crate::jsonout::lemma_subrange_parts(s@, o3, gend, uu, l3);
        }
    }
    let cur = match match_lit(s, pos, "{\"description\":") {
        Some(c) => c,
        None => {
            proof {
                assert(!complete);
            }
            return None;
        },
    };
    let (description, cur2) = match parse_string(s, cur) {
        Some(p) => p,
        None => {
            proof {
                if complete {
                    assert(starts_json_string(s@, o1));
                    assert(false);
                }
            }
            return None;
        },
    };
    proof {
        if complete {
            crate::jsonout::lemma_subrange_split(s@, o1, cur2 as int, s@.len() as int);
            crate::jsonout::lemma_subrange_split(s@, o1, o2, s@.len() as int);
            crate::jsonout::lemma_json_string_same_end(
                description@,
                s@.subrange(cur2 as int, s@.len() as int),
                gv.description@,
                s@.subrange(o2, s@.len() as int),
            );
            assert(cur2 == o2);
        }
    }
    let cur3 = match match_lit(s, cur2, ",\"url\":") {
        Some(c) => c,
        None => {
            proof {
                assert(!complete);
            }
            return None;
        },
    };
    let (url, cur4) = match parse_opt_string(s, cur3) {
        Some(p) => p,
        None => {
            proof {
                if complete {
                    reveal_strlit("null");
                    match gv.url {
                        Some(x) => {
                            assert(starts_json_string(s@, o3));
                        },
                        None => {
                            assert(s@.subrange(o3, o3 + 4) == "null"@);
                        },
                    }
                    assert(false);
                }
            }
            return None;
        },
    };
    proof {
        if complete {
            reveal_strlit("null");
            match (&url, gv.url) {
                (Some(x), Some(y)) => {
                    crate::jsonout::lemma_subrange_split(s@, o3, cur4 as int, s@.len() as int);
                    crate::jsonout::lemma_subrange_split(s@, o3, o4, s@.len() as int);
                    crate::jsonout::lemma_json_string_same_end(
                        x@,
                        s@.subrange(cur4 as int, s@.len() as int),
                        y@,
                        s@.subrange(o4, s@.len() as int),
                    );
                    assert(cur4 == o4);
                },
                (None, None) => {
                    assert(cur4 == o4);
                },
                (Some(x), None) => {
                    assert(s@.subrange(cur3 as int, cur4 as int).len() >= 2);
                    assert(s@.subrange(cur3 as int, cur4 as int)[0] == s@[cur3 as int]);
                    assert(s@[o3 as int] == json_string(x@)[0]);
                    assert(s@.subrange(o3, o4)[0] == s@[o3 as int]);
                    assert(s@[o3 as int] == "null"@[0]);
                    assert(false);
                },
                (None, Some(y)) => {
                    assert(s@.subrange(cur3 as int, cur4 as int).len() == 4);
                    assert(s@.subrange(cur3 as int, cur4 as int)[0] == s@[cur3 as int]);
                    assert(s@[o3 as int] == "null"@[0]);
                    assert(s@.subrange(o3, o4)[0] == s@[o3 as int]);
                    assert(s@[o3 as int] == json_string(y@)[0]);
                    assert(false);
                },
            }
        }
    }
    let cur5 = match match_lit(s, cur4, "}") {
        Some(c) => c,
        None => {
            proof {
                assert(!complete);
            }
            return None;
        },
    };
    let spec = Spec { description, url };
    proof {
        crate::jsonout::lemma_subrange_join5(
            s@,
            pos as int,
            cur as int,
            cur2 as int,
            cur3 as int,
            cur4 as int,
            cur5 as int,
        );
    }
    Some((spec, cur5))
}

/// Read a JSON status object at `pos`; wherever one stands, the read
/// succeeds.
#[verifier::rlimit(100)]
pub fn parse_status(s: &Vec<char>, pos: usize) -> (r: Option<(Status, usize)>)
    ensures
        match r {
            Some((v, end)) => pos <= end <= s@.len() && s@.subrange(pos as int, end as int)
                == json_status(v),
            None => !starts_json_status(s@, pos as int),
        },
{
    let ghost complete = starts_json_status(s@, pos as int);
    let ghost (gv, gend): (Status, int) = if complete {
        choose|v: Status, end: int|
            pos <= end <= s@.len() && s@.subrange(pos as int, end) == json_status(v)
    } else {
        (vstd::pervasive::arbitrary(), 0int)
    };
    let ghost l1 = "{\"is_up\":"@;
    let ghost l2 = ",\"message\":"@;
    let ghost l3 = "}"@;
    let ghost bb: Seq<char> = if gv.is_up {
        "true"@
    } else {
        "false"@
    };
    let ghost smsg = json_string(gv.message@);
    let ghost o1 = pos + l1.len();
    let ghost o2 = o1 + bb.len();
    let ghost o3 = o2 + l2.len();
    let ghost o4 = o3 + smsg.len();
    proof {
        if complete {
            crate::jsonout::lemma_assoc5(l1, bb, l2, smsg, l3);
            crate::jsonout::lemma_subrange_parts(
                s@,
                pos as int,
                gend,
                l1,
                bb + (l2 + (smsg + l3)),
            );
            crate::jsonout::lemma_subrange_parts(s@, o1, gend, bb, l2 + (smsg + l3));
            crate::jsonout::lemma_subrange_parts(s@, o2, gend, l2, smsg + l3);
            crate::jsonout::lemma_subrange_parts(s@, o3, gend, smsg, l3);
        }
    }
    let cur = match match_lit(s, pos, "{\"is_up\":") {
        Some(c) => c,
        None => {
            proof {
                assert(!complete);
            }
            return None;
        },
    };
    let (is_up, cur2) = match match_lit(s, cur, "true") {
        Some(c) => (true, c),
        None => {
            match match_lit(s, cur, "false") {
                Some(c) => (false, c),
                None => {
                    proof {
                        if complete {
                            if gv.is_up {
                                assert(s@.subrange(o1, o1 + 4) == "true"@);
                            } else {
                                assert(s@.subrange(o1, o1 + 5) == "false"@);
                            }
                            assert(false);
                        }
                    }
                    return None;
                },
            }
        },
    };
    proof {
        if complete {
            reveal_strlit("true");
            reveal_strlit("false");
            if is_up != gv.is_up {
                assert(s@.subrange(cur as int, cur2 as int)[0] == s@[o1 as int]);
                assert(bb[0] == s@[o1 as int]);
                assert(false);
            }
            assert(cur2 == o2);
        }
    }
    let cur3 = match match_lit(s, cur2, ",\"message\":") {
        Some(c) => c,
        None => {
            proof {
                assert(!complete);
            }
            return None;
        },
    };
    let (message, cur4) = match parse_string(s, cur3) {
        Some(p) => p,
        None => {
            proof {
                if complete {
                    assert(starts_json_string(s@, o3));
                    assert(false);
                }
            }
            return None;
        },
    };
    proof {
        if complete {
            crate::jsonout::lemma_subrange_split(s@, o3, cur4 as int, s@.len() as int);
            crate::jsonout::lemma_subrange_split(s@, o3, o4, s@.len() as int);
            crate::jsonout::lemma_json_string_same_end(
                message@,
                s@.subrange(cur4 as int, s@.len() as int),
                gv.message@,
                s@.subrange(o4, s@.len() as int),
            );
            assert(cur4 == o4);
        }
    }
    let cur5 = match match_lit(s, cur4, "}") {
        Some(c) => c,
        None => {
            proof {
                assert(!complete);
            }
            return None;
        },
    };
    let status = Status { is_up, message };
    proof {
        crate::jsonout::lemma_subrange_join5(
            s@,
            pos as int,
            cur as int,
            cur2 as int,
            cur3 as int,
            cur4 as int,
            cur5 as int,
        );
    }
    Some((status, cur5))
}

/// Read a JSON timestamped status at `pos`; wherever one with a
/// renderable timestamp stands, the read succeeds.
#[verifier::rlimit(100)]
pub fn parse_timed(s: &Vec<char>, pos: usize) -> (r: Option<(TimeStampedStatus, usize)>)
    ensures
        match r {
            Some((v, end)) => pos <= end <= s@.len() && s@.subrange(pos as int, end as int)
                == json_timed(v) && v.time.well_formed(),
            None => !starts_json_timed(s@, pos as int),
        },
{
    let ghost complete = starts_json_timed(s@, pos as int);
    let ghost (gv, gend): (TimeStampedStatus, int) = if complete {
        choose|v: TimeStampedStatus, end: int|
            pos <= end <= s@.len() && s@.subrange(pos as int, end) == json_timed(v)
                && v.time.well_formed()
    } else {
        (vstd::pervasive::arbitrary(), 0int)
    };
    let ghost l1 = "[\""@;
    let ghost l2 = "\","@;
    let ghost l3 = "]"@;
    let ghost tstext = spec_rfc3339(gv.time);
    let ghost sstat = json_status(gv.status);
    let ghost o1 = pos + l1.len();
    let ghost o2 = o1 + 35;
    let ghost o3 = o2 + l2.len();
    let ghost o4 = o3 + sstat.len();
    proof {
        if complete {
            crate::time::lemma_rfc3339_len(gv.time);
            crate::jsonout::lemma_assoc5(l1, tstext, l2, sstat, l3);
            crate::jsonout::lemma_subrange_parts(
                s@,
                pos as int,
                gend,
                l1,
                tstext + (l2 + (sstat + l3)),
            );
            crate::jsonout::lemma_subrange_parts(s@, o1, gend, tstext, l2 + (sstat + l3));
            crate::jsonout::lemma_subrange_parts(s@, o2, gend, l2, sstat + l3);
            crate::jsonout::lemma_subrange_parts(s@, o3, gend, sstat, l3);
        }
    }
    let cur = match match_lit(s, pos, "[\"") {
        Some(c) => c,
        None => {
            proof {
                assert(!complete);
            }
            return None;
        },
    };
    let total = s.len();
    let time = match read_rfc3339(s, cur) {
        Some(t) => t,
        None => {
            proof {
                if complete {
                    crate::time::lemma_rfc3339_round_trip(gv.time);
                    assert(s@.subrange(o1, o2) == spec_rfc3339(gv.time));
                    assert(false);
                }
            }
            return None;
        },
    };
    proof {
        assert(cur + 35 <= total);
    }
    let cur2 = cur + 35;
    proof {
        lemma_rfc3339_canonical(s@.subrange(cur as int, cur2 as int), time);
    }
    let cur3 = match match_lit(s, cur2, "\",") {
        Some(c) => c,
        None => {
            proof {
                assert(!complete);
            }
            return None;
        },
    };
    let (status, cur4) = match parse_status(s, cur3) {
        Some(p) => p,
        None => {
            proof {
                if complete {
                    assert(starts_json_status(s@, o3));
                    assert(false);
                }
            }
            return None;
        },
    };
    proof {
        if complete {
            crate::jsonout::lemma_subrange_split(s@, o3, cur4 as int, s@.len() as int);
            crate::jsonout::lemma_subrange_split(s@, o3, o4, s@.len() as int);
            crate::jsonout::lemma_json_status_same_end(
                status,
                s@.subrange(cur4 as int, s@.len() as int),
                gv.status,
                s@.subrange(o4, s@.len() as int),
            );
            assert(cur4 == o4);
        }
    }
    let cur5 = match match_lit(s, cur4, "]") {
        Some(c) => c,
        None => {
            proof {
                assert(!complete);
            }
            return None;
        },
    };
    let ts = TimeStampedStatus { time, status };
    proof {
        crate::jsonout::lemma_subrange_join5(
            s@,
            pos as int,
            cur as int,
            cur2 as int,
            cur3 as int,
            cur4 as int,
            cur5 as int,
        );
    }
    Some((ts, cur5))
}

/// Appending one element's text extends the join text.
proof fn lemma_join_append(
    t: Seq<char>,
    pos: int,
    item_start: int,
    next: int,
    old_items: Seq<TimeStampedStatus>,
    ts: TimeStampedStatus,
)
    requires
        0 <= pos,
        pos + 1 <= item_start <= next <= t.len(),
        old_items.len() > 0 ==> t.subrange(pos + 1, item_start) == json_timed_seq(old_items)
            + ","@,
        old_items.len() == 0 ==> item_start == pos + 1,
        t.subrange(item_start, next) == json_timed(ts),
    ensures
        t.subrange(pos + 1, next) == json_timed_seq(old_items.push(ts)),
{
    assert(old_items.push(ts).drop_last() =~= old_items);
    if old_items.len() == 0 {
        assert(json_timed_seq(old_items.push(ts)) == json_timed(ts));
        assert(t.subrange(pos + 1, next) =~= json_timed_seq(old_items.push(ts)));
    } else {
        assert(json_timed_seq(old_items.push(ts)) == json_timed_seq(old_items) + ","@
            + json_timed(ts));
        assert(t.subrange(pos + 1, next) =~= t.subrange(pos + 1, item_start) + t.subrange(
            item_start,
            next,
        ));
        assert(t.subrange(pos + 1, next) =~= json_timed_seq(old_items.push(ts)));
    }
}

/// Where a status history's text stands with elements still to read, the
/// next element and its separator stand at the cursor.
proof fn lemma_statuses_element_at(
    t: Seq<char>,
    cur: int,
    gend: int,
    gxs: Seq<TimeStampedStatus>,
    k: int,
)
    requires
        0 <= cur <= gend <= t.len(),
        0 <= k < gxs.len(),
        t.subrange(cur, gend) == json_timed_seq(gxs.skip(k)) + "]"@,
    ensures
        cur + json_timed(gxs[k]).len() <= gend,
        t.subrange(cur, cur + json_timed(gxs[k]).len()) == json_timed(gxs[k]),
        gxs.skip(k).len() == 1 ==> t.subrange(cur + json_timed(gxs[k]).len(), gend) == "]"@
            && gend == cur + json_timed(gxs[k]).len() + 1,
        gxs.skip(k).len() > 1 ==> t.subrange(
            cur + json_timed(gxs[k]).len(),
            cur + json_timed(gxs[k]).len() + 1,
        ) == ","@ && t.subrange(cur + json_timed(gxs[k]).len() + 1, gend) == json_timed_seq(
            gxs.skip(k + 1),
        ) + "]"@ && cur + json_timed(gxs[k]).len() + 1 <= gend,
{
    reveal_strlit("]");
    reveal_strlit(",");
    crate::jsonout::lemma_timed_seq_front(gxs.skip(k));
    assert(gxs.skip(k)[0] == gxs[k]);
    let m = cur + json_timed(gxs[k]).len();
    if gxs.skip(k).len() == 1 {
        crate::jsonout::lemma_subrange_parts(t, cur, gend, json_timed(gxs[k]), "]"@);
    } else {
        let rest = ","@ + json_timed_seq(gxs.skip(k).skip(1));
        crate::jsonout::lemma_assoc3(json_timed(gxs[k]), rest, "]"@);
        crate::jsonout::lemma_subrange_parts(t, cur, gend, json_timed(gxs[k]), rest + "]"@);
        crate::jsonout::lemma_assoc3(","@, json_timed_seq(gxs.skip(k).skip(1)), "]"@);
        crate::jsonout::lemma_subrange_parts(
            t,
            m,
            gend,
            ","@,
            json_timed_seq(gxs.skip(k).skip(1)) + "]"@,
        );
        assert(gxs.skip(k).skip(1) =~= gxs.skip(k + 1));
    }
}

/// Whether a JSON status history with renderable timestamps stands at
/// `pos` of `t`.
pub open spec fn starts_json_statuses(t: Seq<char>, pos: int) -> bool {
    exists|xs: Seq<TimeStampedStatus>, end: int|
        pos <= end <= t.len() && t.subrange(pos, end) == json_statuses(xs)
            && crate::jsonout::timed_seq_wf(xs)
}

/// Read a JSON status history at `pos`, oldest first; wherever one with
/// renderable timestamps stands, the read succeeds.
#[verifier::loop_isolation(false)]
#[verifier::rlimit(100)]
pub fn parse_statuses(s: &Vec<char>, pos: usize) -> (r: Option<(Vec<TimeStampedStatus>, usize)>)
    ensures
        match r {
            Some((v, end)) => pos <= end <= s@.len() && s@.subrange(pos as int, end as int)
                == json_statuses(v@) && crate::jsonout::timed_seq_wf(v@),
            None => !starts_json_statuses(s@, pos as int),
        },
{
    let ghost complete = starts_json_statuses(s@, pos as int);
    let ghost (gxs, gend): (Seq<TimeStampedStatus>, int) = if complete {
        choose|xs: Seq<TimeStampedStatus>, end: int|
            pos <= end <= s@.len() && s@.subrange(pos as int, end) == json_statuses(xs)
                && crate::jsonout::timed_seq_wf(xs)
    } else {
        (Seq::empty(), 0int)
    };
    proof {
        reveal_strlit("[");
        reveal_strlit("]");
        reveal_strlit(",");
        if complete {
            crate::jsonout::lemma_assoc3("["@, json_timed_seq(gxs), "]"@);
            crate::jsonout::lemma_subrange_parts(
                s@,
                pos as int,
                gend,
                "["@,
                json_timed_seq(gxs) + "]"@,
            );
        }
    }
    let cur = match match_lit(s, pos, "[") {
        Some(c) => c,
        None => {
            proof {
                assert(!complete);
            }
            return None;
        },
    };
    match match_lit(s, cur, "]") {
        Some(end) => {
            let items: Vec<TimeStampedStatus> = Vec::new();
            proof {
                assert(json_timed_seq(items@) =~= Seq::<char>::empty());
                crate::jsonout::lemma_subrange_split(s@, pos as int, cur as int, end as int);
                assert(s@.subrange(pos as int, cur as int) + json_timed_seq(items@) =~= s@.subrange(
                    pos as int,
                    cur as int,
                ));
            }
            return Some((items, end));
        },
        None => {},
    }
    proof {
        if complete && gxs.len() == 0 {
            assert(json_timed_seq(gxs) + "]"@ =~= "]"@);
            assert(s@.subrange(cur as int, cur + 1) == "]"@);
            assert(false);
        }
    }
    let mut items: Vec<TimeStampedStatus> = Vec::new();
    let mut cur = cur;
    let ghost mut k: int = 0;
    proof {
        if complete {
            assert(gxs.skip(0) =~= gxs);
            assert(s@.subrange(cur as int, gend) == json_timed_seq(gxs.skip(0)) + "]"@);
        }
    }
    loop
        invariant
            pos + 1 <= cur <= s@.len(),
            items@.len() == 0 ==> cur == pos + 1,
            items@.len() > 0 ==> s@.subrange(pos + 1, cur as int) == json_timed_seq(items@)
                + ","@,
            crate::jsonout::timed_seq_wf(items@),
            complete ==> 0 <= k < gxs.len() && cur <= gend && s@.subrange(cur as int, gend)
                == json_timed_seq(gxs.skip(k)) + "]"@,
        decreases s@.len() - cur,
    {
        let ghost m = cur + json_timed(gxs[k]).len();
        proof {
            if complete {
                lemma_statuses_element_at(s@, cur as int, gend, gxs, k);
                assert(starts_json_timed(s@, cur as int)) by {
                    assert(s@.subrange(cur as int, m) == json_timed(gxs[k])
                        && gxs[k].time.well_formed() && cur <= m <= s@.len());
                }
            }
        }
        let ghost old_items = items@;
        let ghost item_start = cur as int;
        let (ts, next) = match parse_timed(s, cur) {
            Some(p) => p,
            None => {
                proof {
                    assert(!complete);
                }
                return None;
            },
        };
        proof {
            reveal_strlit("[\"");
            assert(json_timed(ts).len() >= 2);
            if complete {
                crate::jsonout::lemma_subrange_split(s@, cur as int, next as int, s@.len() as int);
                crate::jsonout::lemma_subrange_split(s@, cur as int, m, s@.len() as int);
                crate::jsonout::lemma_json_timed_same_end(
                    ts,
                    s@.subrange(next as int, s@.len() as int),
                    gxs[k],
                    s@.subrange(m, s@.len() as int),
                );
                assert(next == m);
            }
        }
        items.push(ts);
        proof {
            lemma_join_append(s@, pos as int, item_start, next as int, old_items, ts);
            assert(items@ =~= old_items.push(ts));
        }
        cur = next;
        match match_lit(s, cur, "]") {
            Some(end) => {
                proof {
                    reveal_strlit("[");
                    reveal_strlit("]");
                    crate::jsonout::lemma_subrange_join3(
                        s@,
                        pos as int,
                        pos + 1,
                        cur as int,
                        end as int,
                    );
                }
                return Some((items, end));
            },
            None => {},
        }
        proof {
            if complete && gxs.skip(k).len() == 1 {
                assert(s@.subrange(cur as int, gend) == "]"@);
                assert(s@.subrange(cur as int, cur + 1) == "]"@);
                assert(false);
            }
        }
        match match_lit(s, cur, ",") {
            Some(c) => {
                proof {
                    reveal_strlit(",");
                    crate::jsonout::lemma_subrange_split(s@, pos + 1, cur as int, c as int);
                    if complete {
                        assert(s@.subrange(c as int, gend) == json_timed_seq(gxs.skip(k + 1))
                            + "]"@);
                    }
                }
                cur = c;
                proof {
                    if complete {
                        k = k + 1;
                    }
                }
            },
            None => {
                proof {
                    if complete {
                        assert(s@.subrange(cur as int, cur + 1) == ","@);
                        assert(false);
                    }
                }
                return None;
            },
        }
    }
}

/// Whether every checker of an entry list is well formed and its history
/// capacity equals its length, as a freshly reloaded history has it.
pub open spec fn entry_seq_reloaded(s: Seq<(String, Checker)>) -> bool {
    forall|i: int|
        0 <= i < s.len() ==> (#[trigger] s[i]).1.wf() && s[i].1.statuses.spec_capacity()
            == s[i].1.statuses@.len()
}

/// Whether every entry's history carries renderable timestamps.
pub open spec fn entries_timed_wf(s: Seq<(String, Checker)>) -> bool {
    crate::jsonout::entries_histories_wf(s)
}

/// Whether a JSON checker object with renderable timestamps stands at
/// `pos` of `t`.
pub open spec fn starts_json_checker(t: Seq<char>, pos: int) -> bool {
    exists|c: Checker, end: int|
        pos <= end <= t.len() && t.subrange(pos, end) == json_checker(c)
            && crate::jsonout::timed_seq_wf(c.statuses@)
}

/// Whether a whole registry dump with renderable timestamps stands at
/// `pos` of `t`.
pub open spec fn starts_json_checker_map(t: Seq<char>, pos: int) -> bool {
    exists|orig: Seq<(String, Checker)>, end: int|
        pos <= end <= t.len() && t.subrange(pos, end) == json_checker_map(orig)
            && entries_timed_wf(orig)
}

/// Read a JSON checker object at `pos`.  The history of the returned
/// checker has capacity equal to its length; the caller reconciles it with
/// the configured bound.  Wherever a checker object with renderable
/// timestamps stands, the read succeeds.
#[verifier::rlimit(100)]
pub fn parse_checker(s: &Vec<char>, pos: usize) -> (r: Option<(Checker, usize)>)
    ensures
        match r {
            Some((c, end)) => pos <= end <= s@.len() && s@.subrange(pos as int, end as int)
                == json_checker(c) && c.wf() && c.statuses.spec_capacity() == c.statuses@.len(),
            None => !starts_json_checker(s@, pos as int),
        },
{
    let ghost complete = starts_json_checker(s@, pos as int);
    let ghost (gv, gend): (Checker, int) = if complete {
        choose|c: Checker, end: int|
            pos <= end <= s@.len() && s@.subrange(pos as int, end) == json_checker(c)
                && crate::jsonout::timed_seq_wf(c.statuses@)
    } else {
        (vstd::pervasive::arbitrary(), 0int)
    };
    let ghost l1 = "{\"spec\":"@;
    let ghost l2 = ",\"statuses\":"@;
    let ghost l3 = "}"@;
    let ghost sspec = json_spec(gv.spec);
    let ghost sstats = json_statuses(gv.statuses@);
    let ghost o1 = pos + l1.len();
    let ghost o2 = o1 + sspec.len();
    let ghost o3 = o2 + l2.len();
    let ghost o4 = o3 + sstats.len();
    proof {
        if complete {
            crate::jsonout::lemma_assoc5(l1, sspec, l2, sstats, l3);
            crate::jsonout::lemma_subrange_parts(
                s@,
                pos as int,
                gend,
                l1,
                sspec + (l2 + (sstats + l3)),
            );
            crate::jsonout::lemma_subrange_parts(s@, o1, gend, sspec, l2 + (sstats + l3));
            crate::jsonout::lemma_subrange_parts(s@, o2, gend, l2, sstats + l3);
            crate::jsonout::lemma_subrange_parts(s@, o3, gend, sstats, l3);
        }
    }
    let cur = match match_lit(s, pos, "{\"spec\":") {
        Some(c) => c,
        None => {
            proof {
                assert(!complete);
            }
            return None;
        },
    };
    let (spec, cur2) = match parse_spec(s, cur) {
        Some(p) => p,
        None => {
            proof {
                if complete {
                    assert(starts_json_spec(s@, o1));
                    assert(false);
                }
            }
            return None;
        },
    };
    proof {
        if complete {
            crate::jsonout::lemma_subrange_split(s@, o1, cur2 as int, s@.len() as int);
            crate::jsonout::lemma_subrange_split(s@, o1, o2, s@.len() as int);
            crate::jsonout::lemma_json_spec_same_end(
                spec,
                s@.subrange(cur2 as int, s@.len() as int),
                gv.spec,
                s@.subrange(o2, s@.len() as int),
            );
            assert(cur2 == o2);
        }
    }
    let cur3 = match match_lit(s, cur2, ",\"statuses\":") {
        Some(c) => c,
        None => {
            proof {
                assert(!complete);
            }
            return None;
        },
    };
    let (items, cur4) = match parse_statuses(s, cur3) {
        Some(p) => p,
        None => {
            proof {
                if complete {
                    assert(starts_json_statuses(s@, o3)) by {
                        assert(s@.subrange(o3, o4) == json_statuses(gv.statuses@)
                            && crate::jsonout::timed_seq_wf(gv.statuses@) && o3 <= o4 <= s@.len());
                    }
                    assert(false);
                }
            }
            return None;
        },
    };
    proof {
        if complete {
            crate::jsonout::lemma_subrange_split(s@, o3, cur4 as int, s@.len() as int);
            crate::jsonout::lemma_subrange_split(s@, o3, o4, s@.len() as int);
            crate::jsonout::lemma_json_statuses_same_end(
                items@,
                s@.subrange(cur4 as int, s@.len() as int),
                gv.statuses@,
                s@.subrange(o4, s@.len() as int),
            );
            assert(cur4 == o4);
        }
    }
    let cur5 = match match_lit(s, cur4, "}") {
        Some(c) => c,
        None => {
            proof {
                assert(!complete);
            }
            return None;
        },
    };
    let checker = Checker { spec, statuses: RingBuffer::from_vec(items) };
    proof {
        crate::jsonout::lemma_subrange_join5(
            s@,
            pos as int,
            cur as int,
            cur2 as int,
            cur3 as int,
            cur4 as int,
            cur5 as int,
        );
    }
    Some((checker, cur5))
}

/// Where a registry dump's text stands with entries still to read, the
/// next entry's pieces and its separator stand at the cursor.
proof fn lemma_map_entry_at(
    t: Seq<char>,
    cur: int,
    gend: int,
    gxs: Seq<(String, Checker)>,
    k: int,
)
    requires
        0 <= cur <= gend <= t.len(),
        0 <= k < gxs.len(),
        t.subrange(cur, gend) == json_entry_seq(gxs.skip(k)) + "}"@,
    ensures
        cur + json_string(gxs[k].0@).len() + 1 + json_checker(gxs[k].1).len() <= gend,
        t.subrange(cur, cur + json_string(gxs[k].0@).len()) == json_string(gxs[k].0@),
        t.subrange(
            cur + json_string(gxs[k].0@).len(),
            cur + json_string(gxs[k].0@).len() + 1,
        ) == ":"@,
        t.subrange(
            cur + json_string(gxs[k].0@).len() + 1,
            cur + json_string(gxs[k].0@).len() + 1 + json_checker(gxs[k].1).len(),
        ) == json_checker(gxs[k].1),
        gxs.skip(k).len() == 1 ==> t.subrange(
            cur + json_string(gxs[k].0@).len() + 1 + json_checker(gxs[k].1).len(),
            gend,
        ) == "}"@ && gend == cur + json_string(gxs[k].0@).len() + 1 + json_checker(
            gxs[k].1,
        ).len() + 1,
        gxs.skip(k).len() > 1 ==> t.subrange(
            cur + json_string(gxs[k].0@).len() + 1 + json_checker(gxs[k].1).len(),
            cur + json_string(gxs[k].0@).len() + 1 + json_checker(gxs[k].1).len() + 1,
        ) == ","@ && t.subrange(
            cur + json_string(gxs[k].0@).len() + 1 + json_checker(gxs[k].1).len() + 1,
            gend,
        ) == json_entry_seq(gxs.skip(k + 1)) + "}"@ && cur + json_string(gxs[k].0@).len() + 1
            + json_checker(gxs[k].1).len() + 1 <= gend,
{
    reveal_strlit("}");
    reveal_strlit(",");
    reveal_strlit(":");
    crate::jsonout::lemma_entry_seq_front(gxs.skip(k));
    assert(gxs.skip(k)[0] == gxs[k]);
    let sname = json_string(gxs[k].0@);
    let sch = json_checker(gxs[k].1);
    let m1 = cur + sname.len();
    let m2 = m1 + 1;
    let m3 = m2 + sch.len();
    if gxs.skip(k).len() == 1 {
        crate::jsonout::lemma_assoc_graft3(sname, ":"@, sch, "}"@);
        crate::jsonout::lemma_subrange_parts(t, cur, gend, sname, ":"@ + (sch + "}"@));
        crate::jsonout::lemma_subrange_parts(t, m1, gend, ":"@, sch + "}"@);
        crate::jsonout::lemma_subrange_parts(t, m2, gend, sch, "}"@);
    } else {
        let erest = json_entry_seq(gxs.skip(k).skip(1));
        crate::jsonout::lemma_assoc_graft(sname, ":"@, sch, ","@, erest, "}"@);
        crate::jsonout::lemma_subrange_parts(
            t,
            cur,
            gend,
            sname,
            ":"@ + (sch + (","@ + (erest + "}"@))),
        );
        crate::jsonout::lemma_subrange_parts(t, m1, gend, ":"@, sch + (","@ + (erest + "}"@)));
        crate::jsonout::lemma_subrange_parts(t, m2, gend, sch, ","@ + (erest + "}"@));
        crate::jsonout::lemma_subrange_parts(t, m3, gend, ","@, erest + "}"@);
        assert(gxs.skip(k).skip(1) =~= gxs.skip(k + 1));
    }
}

/// Appending one entry's text extends the member join text.
proof fn lemma_entry_append(
    t: Seq<char>,
    pos: int,
    entry_start: int,
    n1: int,
    n2: int,
    next: int,
    old_entries: Seq<(String, Checker)>,
    name: String,
    checker: Checker,
)
    requires
        0 <= pos,
        pos + 1 <= entry_start <= n1 <= n2 <= next <= t.len(),
        old_entries.len() > 0 ==> t.subrange(pos + 1, entry_start) == json_entry_seq(old_entries)
            + ","@,
        old_entries.len() == 0 ==> entry_start == pos + 1,
        t.subrange(entry_start, n1) == json_string(name@),
        t.subrange(n1, n2) == ":"@,
        t.subrange(n2, next) == json_checker(checker),
    ensures
        t.subrange(pos + 1, next) == json_entry_seq(old_entries.push((name, checker))),
{
    assert(old_entries.push((name, checker)).drop_last() =~= old_entries);
    crate::jsonout::lemma_subrange_join3(t, entry_start, n1, n2, next);
    if old_entries.len() == 0 {
        assert(json_entry_seq(old_entries.push((name, checker))) == json_string(name@) + ":"@
            + json_checker(checker));
        assert(t.subrange(pos + 1, next) =~= t.subrange(entry_start, next));
    } else {
        assert(json_entry_seq(old_entries.push((name, checker))) == json_entry_seq(old_entries)
            + ","@ + json_string(name@) + ":"@ + json_checker(checker));
        assert(t.subrange(pos + 1, next) =~= t.subrange(pos + 1, entry_start) + t.subrange(
            entry_start,
            next,
        ));
        assert(json_entry_seq(old_entries) + ","@ + (json_string(name@) + ":"@ + json_checker(
            checker,
        )) =~= json_entry_seq(old_entries.push((name, checker))));
    }
}

/// Read a whole registry dump at `pos`: a JSON object from names to
/// checkers, in file order.  Wherever a dump with renderable timestamps
/// stands, the read succeeds.
#[verifier::loop_isolation(false)]
#[verifier::rlimit(100)]
pub fn parse_checker_map(s: &Vec<char>, pos: usize) -> (r: Option<
    (Vec<(String, Checker)>, usize),
>)
    ensures
        match r {
            Some((v, end)) => pos <= end <= s@.len() && s@.subrange(pos as int, end as int)
                == json_checker_map(v@) && entry_seq_reloaded(v@),
            None => !starts_json_checker_map(s@, pos as int),
        },
{
    let ghost complete = starts_json_checker_map(s@, pos as int);
    let ghost (gxs, gend): (Seq<(String, Checker)>, int) = if complete {
        choose|orig: Seq<(String, Checker)>, end: int|
            pos <= end <= s@.len() && s@.subrange(pos as int, end) == json_checker_map(orig)
                && entries_timed_wf(orig)
    } else {
        (Seq::empty(), 0int)
    };
    proof {
        reveal_strlit("{");
        reveal_strlit("}");
        reveal_strlit(",");
        reveal_strlit(":");
        if complete {
            crate::jsonout::lemma_assoc3("{"@, json_entry_seq(gxs), "}"@);
            crate::jsonout::lemma_subrange_parts(
                s@,
                pos as int,
                gend,
                "{"@,
                json_entry_seq(gxs) + "}"@,
            );
        }
    }
    let cur = match match_lit(s, pos, "{") {
        Some(c) => c,
        None => {
            proof {
                assert(!complete);
            }
            return None;
        },
    };
    match match_lit(s, cur, "}") {
        Some(end) => {
            let entries: Vec<(String, Checker)> = Vec::new();
            proof {
                assert(json_entry_seq(entries@) =~= Seq::<char>::empty());
                crate::jsonout::lemma_subrange_split(s@, pos as int, cur as int, end as int);
                assert(s@.subrange(pos as int, cur as int) + json_entry_seq(entries@)
                    =~= s@.subrange(pos as int, cur as int));
            }
            return Some((entries, end));
        },
        None => {},
    }
    proof {
        if complete && gxs.len() == 0 {
            assert(json_entry_seq(gxs) + "}"@ =~= "}"@);
            assert(s@.subrange(cur as int, cur + 1) == "}"@);
            assert(false);
        }
    }
    let mut entries: Vec<(String, Checker)> = Vec::new();
    let mut cur = cur;
    let ghost mut k: int = 0;
    proof {
        if complete {
            assert(gxs.skip(0) =~= gxs);
            assert(s@.subrange(cur as int, gend) == json_entry_seq(gxs.skip(0)) + "}"@);
        }
    }
    loop
        invariant
            pos + 1 <= cur <= s@.len(),
            entries@.len() == 0 ==> cur == pos + 1,
            entries@.len() > 0 ==> s@.subrange(pos + 1, cur as int) == json_entry_seq(entries@)
                + ","@,
            entry_seq_reloaded(entries@),
            complete ==> 0 <= k < gxs.len() && cur <= gend && s@.subrange(cur as int, gend)
                == json_entry_seq(gxs.skip(k)) + "}"@,
        decreases s@.len() - cur,
    {
        let ghost m1 = cur + json_string(gxs[k].0@).len();
        let ghost m2 = m1 + 1;
        let ghost m3 = m2 + json_checker(gxs[k].1).len();
        proof {
            if complete {
                lemma_map_entry_at(s@, cur as int, gend, gxs, k);
                assert(starts_json_string(s@, cur as int)) by {
                    assert(s@.subrange(cur as int, m1) == json_string(gxs[k].0@) && cur <= m1
                        <= s@.len());
                }
            }
        }
        let ghost old_entries = entries@;
        let ghost entry_start = cur as int;
        let (name, n1) = match parse_string(s, cur) {
            Some(p) => p,
            None => {
                proof {
                    assert(!complete);
                }
                return None;
            },
        };
        proof {
            if complete {
                crate::jsonout::lemma_subrange_split(s@, cur as int, n1 as int, s@.len() as int);
                crate::jsonout::lemma_subrange_split(s@, cur as int, m1, s@.len() as int);
                crate::jsonout::lemma_json_string_same_end(
                    name@,
                    s@.subrange(n1 as int, s@.len() as int),
                    gxs[k].0@,
                    s@.subrange(m1, s@.len() as int),
                );
                assert(n1 == m1);
            }
        }
        let n2 = match match_lit(s, n1, ":") {
            Some(c) => c,
            None => {
                proof {
                    assert(!complete);
                }
                return None;
            },
        };
        proof {
            if complete {
                assert(starts_json_checker(s@, n2 as int)) by {
                    assert(s@.subrange(m2, m3) == json_checker(gxs[k].1)
                        && crate::jsonout::timed_seq_wf(gxs[k].1.statuses@) && m2 <= m3
                        <= s@.len());
                }
            }
        }
        let (checker, next) = match parse_checker(s, n2) {
            Some(p) => p,
            None => {
                proof {
                    assert(!complete);
                }
                return None;
            },
        };
        proof {
            reveal_strlit("{\"spec\":");
            assert(json_checker(checker).len() >= 1);
            if complete {
                crate::jsonout::lemma_subrange_split(s@, n2 as int, next as int, s@.len() as int);
                crate::jsonout::lemma_subrange_split(s@, n2 as int, m3, s@.len() as int);
                crate::jsonout::lemma_json_checker_same_end(
                    checker,
                    s@.subrange(next as int, s@.len() as int),
                    gxs[k].1,
                    s@.subrange(m3, s@.len() as int),
                );
                assert(next == m3);
            }
        }
        proof {
            lemma_entry_append(
                s@,
                pos as int,
                entry_start,
                n1 as int,
                n2 as int,
                next as int,
                old_entries,
                name,
                checker,
            );
        }
        entries.push((name, checker));
        proof {
            assert(entries@ =~= old_entries.push(entries@.last()));
        }
        cur = next;
        match match_lit(s, cur, "}") {
            Some(end) => {
                proof {
                    crate::jsonout::lemma_subrange_join3(
                        s@,
                        pos as int,
                        pos + 1,
                        cur as int,
                        end as int,
                    );
                }
                return Some((entries, end));
            },
            None => {},
        }
        proof {
            if complete && gxs.skip(k).len() == 1 {
                assert(s@.subrange(cur as int, gend) == "}"@);
                assert(s@.subrange(cur as int, cur + 1) == "}"@);
                assert(false);
            }
        }
        match match_lit(s, cur, ",") {
            Some(c) => {
                proof {
                    crate::jsonout::lemma_subrange_split(s@, pos + 1, cur as int, c as int);
                    if complete {
                        assert(s@.subrange(c as int, gend) == json_entry_seq(gxs.skip(k + 1))
                            + "}"@);
                        k = k + 1;
                    }
                }
                cur = c;
            },
            None => {
                proof {
                    if complete {
                        assert(s@.subrange(cur as int, cur + 1) == ","@);
                        assert(false);
                    }
                }
                return None;
            },
        }
    }
}

/// Read a whole registry dump, demanding that it spans the entire text.
/// Where it returns entries, the text is exactly their rendering; and
/// wherever the text is exactly a dump with renderable timestamps, the
/// read succeeds.
pub fn checkers_from_json(text: &str) -> (r: Option<Vec<(String, Checker)>>)
    ensures
        match r {
            Some(v) => text@ == json_checker_map(v@) && entry_seq_reloaded(v@),
            None => !(exists|orig: Seq<(String, Checker)>|
                text@ == json_checker_map(orig) && entries_timed_wf(orig)),
        },
{
    let ghost complete = exists|orig: Seq<(String, Checker)>|
        text@ == json_checker_map(orig) && entries_timed_wf(orig);
    let ghost gxs: Seq<(String, Checker)> = if complete {
        choose|orig: Seq<(String, Checker)>|
            text@ == json_checker_map(orig) && entries_timed_wf(orig)
    } else {
        Seq::empty()
    };
    let chars = crate::text::str_chars(text);
    proof {
        if complete {
            assert(chars@.subrange(0, chars@.len() as int) =~= text@);
            assert(starts_json_checker_map(chars@, 0));
        }
    }
    match parse_checker_map(&chars, 0) {
        Some((entries, end)) => {
            if end == chars.len() {
                proof {
                    assert(chars@.subrange(0, end as int) =~= text@);
                }
                Some(entries)
            } else {
                proof {
                    if complete {
                        crate::jsonout::lemma_subrange_split(
                            chars@,
                            0,
                            end as int,
                            chars@.len() as int,
                        );
                        assert(chars@.subrange(0, chars@.len() as int) =~= text@);
                        assert(json_checker_map(gxs) + Seq::<char>::empty() =~= text@);
                        crate::jsonout::lemma_json_checker_map_same_end(
                            entries@,
                            chars@.subrange(end as int, chars@.len() as int),
                            gxs,
                            Seq::empty(),
                        );
                        assert(false);
                    }
                }
                None
            }
        },
        None => None,
    }
}

} // verus!
