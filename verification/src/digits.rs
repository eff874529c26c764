//! Decimal digit strings: writing numbers out and reading them back.

use vstd::arithmetic::div_mod::{
    lemma_div_decreases, lemma_fundamental_div_mod, lemma_fundamental_div_mod_converse_div,
    lemma_fundamental_div_mod_converse_mod,
};
use vstd::prelude::*;

verus! {

/// The character of one decimal digit value.
pub open spec fn digit_char(d: int) -> char {
    ((48 + d) as u8) as char
}

/// Whether `c` is a decimal digit.
pub open spec fn is_digit(c: char) -> bool {
    48 <= c as u32 <= 57
}

/// The value of one decimal digit character.
pub open spec fn digit_val(c: char) -> int {
    c as u32 - 48
}

/// Ten to the power `e`.
pub open spec fn pow10(e: nat) -> int
    decreases e,
{
    if e == 0 {
        1
    } else {
        10 * pow10((e - 1) as nat)
    }
}

/// `n` written with exactly `width` decimal digits, leading zeros included.
pub open spec fn fixed_digits(n: nat, width: nat) -> Seq<char>
    decreases width,
{
    if width == 0 {
        Seq::empty()
    } else {
        fixed_digits(n / 10, (width - 1) as nat).push(digit_char((n % 10) as int))
    }
}

/// The value of a digit string read in base ten.
pub open spec fn digits_val(s: Seq<char>) -> int
    decreases s.len(),
{
    if s.len() == 0 {
        0
    } else {
        10 * digits_val(s.drop_last()) + digit_val(s.last())
    }
}

/// Whether every character of `s` is a decimal digit.
pub open spec fn all_digits(s: Seq<char>) -> bool {
    forall|i: int| 0 <= i < s.len() ==> is_digit(#[trigger] s[i])
}

/// A digit value in range renders to a digit character that reads back to it.
pub proof fn lemma_digit_char(d: int)
    requires
        0 <= d < 10,
    ensures
        is_digit(digit_char(d)),
        digit_val(digit_char(d)) == d,
{
}

/// A digit character reads to a value in range that renders back to it.
pub proof fn lemma_digit_val(c: char)
    requires
        is_digit(c),
    ensures
        0 <= digit_val(c) < 10,
        digit_char(digit_val(c)) == c,
{
}

/// `pow10` is positive.
pub proof fn lemma_pow10_pos(e: nat)
    ensures
        pow10(e) >= 1,
    decreases e,
{
    if e > 0 {
        lemma_pow10_pos((e - 1) as nat);
    }
}

/// A fixed-width digit string has that width and holds digits alone.
pub proof fn lemma_fixed_digits_shape(n: nat, width: nat)
    ensures
        fixed_digits(n, width).len() == width,
        all_digits(fixed_digits(n, width)),
    decreases width,
{
    if width > 0 {
        lemma_fixed_digits_shape(n / 10, (width - 1) as nat);
        let s = fixed_digits(n, width);
        let t = fixed_digits(n / 10, (width - 1) as nat);
        lemma_digit_char((n % 10) as int);
        assert(forall|i: int| 0 <= i < s.len() ==> is_digit(#[trigger] s[i]) || i == s.len() - 1);
        assert(is_digit(s[s.len() - 1]));
    }
}

/// Reading a fixed-width rendering of `n` gives `n` back, provided `n` fits
/// in that many digits.
pub proof fn lemma_fixed_digits_val(n: nat, width: nat)
    requires
        n < pow10(width),
    ensures
        digits_val(fixed_digits(n, width)) == n,
    decreases width,
{
    if width == 0 {
    } else {
        let s = fixed_digits(n, width);
        let t = fixed_digits(n / 10, (width - 1) as nat);
        lemma_fixed_digits_shape(n / 10, (width - 1) as nat);
        assert(s.last() == digit_char((n % 10) as int));
        assert(s.drop_last() =~= t);
        lemma_fundamental_div_mod(n as int, 10);
        assert(n / 10 < pow10((width - 1) as nat)) by {
            lemma_pow10_pos((width - 1) as nat);
        }
        lemma_fixed_digits_val(n / 10, (width - 1) as nat);
        lemma_digit_char((n % 10) as int);
    }
}

/// The value of a digit string fits in as many digits as it has.
pub proof fn lemma_digits_val_bound(s: Seq<char>)
    requires
        all_digits(s),
    ensures
        0 <= digits_val(s) < pow10(s.len()),
    decreases s.len(),
{
    if s.len() == 0 {
    } else {
        assert(all_digits(s.drop_last())) by {
            assert(forall|i: int| 0 <= i < s.len() - 1 ==> s.drop_last()[i] == s[i]);
        }
        lemma_digits_val_bound(s.drop_last());
        assert(is_digit(s.last()));
    }
}

/// A digit string of the right width whose value is `n` is the fixed-width
/// rendering of `n`: reading is injective on fixed-width digit strings.
pub proof fn lemma_fixed_digits_unique(s: Seq<char>, n: nat)
    requires
        all_digits(s),
        digits_val(s) == n,
        n < pow10(s.len()),
    ensures
        s == fixed_digits(n, s.len()),
    decreases s.len(),
{
    if s.len() == 0 {
        assert(s =~= fixed_digits(n, 0));
    } else {
        let t = s.drop_last();
        assert(all_digits(t)) by {
            assert(forall|i: int| 0 <= i < s.len() - 1 ==> t[i] == s[i]);
        }
        lemma_digits_val_bound(t);
        lemma_digit_val(s.last());
        assert(n == 10 * digits_val(t) + digit_val(s.last()));
        lemma_fundamental_div_mod_converse_div(n as int, 10, digits_val(t), digit_val(s.last()));
        lemma_fundamental_div_mod_converse_mod(n as int, 10, digits_val(t), digit_val(s.last()));
        assert(digits_val(t) == n / 10);
        assert(digit_val(s.last()) == (n % 10) as int);
        lemma_fixed_digits_unique(t, (n / 10) as nat);
        assert(s =~= fixed_digits(n, s.len()));
    }
}

/// Append `n` to `out` as exactly `width` decimal digits.
#[verifier::loop_isolation(false)]
pub fn push_fixed_u64(out: &mut Vec<char>, n: u64, width: usize)
    requires
        n < pow10(width as nat),
    ensures
        final(out)@ == old(out)@ + fixed_digits(n as nat, width as nat),
{
    let mut rev: Vec<char> = Vec::new();
    let mut m = n;
    let mut i: usize = 0;
    proof {
        assert(fixed_digits(n as nat, width as nat)
            == fixed_digits(m as nat, (width - i) as nat) + rev@.reverse()) by {
            assert(rev@.reverse() =~= Seq::<char>::empty());
            assert(fixed_digits(n as nat, width as nat) + rev@.reverse() =~= fixed_digits(
                n as nat,
                width as nat,
            ));
        }
    }
    while i < width
        invariant
            i <= width,
            rev@.len() == i,
            fixed_digits(n as nat, width as nat) == fixed_digits(m as nat, (width - i) as nat)
                + rev@.reverse(),
        decreases width - i,
    {
        let ghost old_rev = rev@;
        let ghost old_m = m as nat;
        let d = (m % 10) as u8;
        rev.push((48 + d) as char);
        m = m / 10;
        i = i + 1;
        proof {
            assert(rev@.last() == digit_char((old_m % 10) as int));
            assert(fixed_digits(old_m, (width - i + 1) as nat) == fixed_digits(
                m as nat,
                (width - i) as nat,
            ).push(digit_char((old_m % 10) as int)));
            assert(rev@.reverse() =~= seq![rev@.last()] + old_rev.reverse());
            assert(fixed_digits(m as nat, (width - i) as nat).push(
                digit_char((old_m % 10) as int),
            ) + old_rev.reverse() =~= fixed_digits(m as nat, (width - i) as nat) + rev@.reverse());
        }
    }
    let ghost target = fixed_digits(n as nat, width as nat);
    proof {
        assert(target == rev@.reverse());
        lemma_fixed_digits_shape(n as nat, width as nat);
    }
    let mut k: usize = rev.len();
    while k > 0
        invariant
            k <= rev@.len(),
            out@ == old(out)@ + target.take(target.len() - k),
        decreases k,
    {
        k = k - 1;
        let c = rev[k];
        out.push(c);
        proof {
            assert(c == target[target.len() - k - 1]);
            assert(out@ =~= old(out)@ + target.take(target.len() - k));
        }
    }
    proof {
        assert(out@ =~= old(out)@ + target);
    }
}

/// Read exactly `width` decimal digits of `s` starting at `start`.
/// Returns the value they spell, or nothing where a character is no digit
/// or the input is too short.
#[verifier::loop_isolation(false)]
pub fn read_fixed_u64(s: &Vec<char>, start: usize, width: usize) -> (r: Option<u64>)
    requires
        width <= 9,
    ensures
        match r {
            Some(v) => start + width <= s@.len() && all_digits(
                s@.subrange(start as int, (start + width) as int),
            ) && v == digits_val(s@.subrange(start as int, (start + width) as int)) && v < pow10(
                width as nat,
            ),
            None => start + width > s@.len() || !all_digits(
                s@.subrange(start as int, (start + width) as int),
            ),
        },
{
    if start > s.len() || width > s.len() - start {
        return None;
    }
    let mut acc: u64 = 0;
    let mut j: usize = 0;
    proof {
        assert(s@.subrange(start as int, start as int) =~= Seq::<char>::empty());
    }
    while j < width
        invariant
            j <= width,
            start + width <= s@.len(),
            all_digits(s@.subrange(start as int, (start + j) as int)),
            acc == digits_val(s@.subrange(start as int, (start + j) as int)),
            acc < pow10(j as nat),
        decreases width - j,
    {
        let c = s[start + j];
        let code = c as u32;
        if code < 48 || code > 57 {
            proof {
                let whole = s@.subrange(start as int, (start + width) as int);
                assert(whole[j as int] == c);
                assert(!all_digits(whole));
            }
            return None;
        }
        let ghost pre = s@.subrange(start as int, (start + j) as int);
        proof {
            lemma_digits_val_bound(pre);
            assert(pow10(j as nat) <= pow10(8)) by {
                lemma_pow10_mono(j as nat, 8);
            }
            reveal_with_fuel(pow10, 10);
            assert(pow10(8) == 100000000);
        }
        acc = acc * 10 + ((code - 48) as u64);
        j = j + 1;
        proof {
            let cur = s@.subrange(start as int, (start + j) as int);
            assert(cur.drop_last() =~= pre);
            assert(cur.last() == c);
            assert(forall|i: int| 0 <= i < cur.len() ==> is_digit(#[trigger] cur[i]));
        }
    }
    proof {
        assert(s@.subrange(start as int, (start + j) as int) =~= s@.subrange(
            start as int,
            (start + width) as int,
        ));
    }
    Some(acc)
}

/// `n` written in decimal with no leading zero.
pub open spec fn dec_digits(n: nat) -> Seq<char>
    decreases n,
{
    if n < 10 {
        seq![digit_char(n as int)]
    } else {
        dec_digits(n / 10).push(digit_char((n % 10) as int))
    }
}

/// Append `n` to `out` in decimal.
#[verifier::loop_isolation(false)]
pub fn push_dec_u64(out: &mut Vec<char>, n: u64)
    ensures
        final(out)@ == old(out)@ + dec_digits(n as nat),
{
    let mut rev: Vec<char> = Vec::new();
    let mut m = n;
    loop
        invariant
            rev@.len() >= 0,
            dec_digits(n as nat) == if rev@.len() == 0 {
                dec_digits(m as nat)
            } else {
                dec_digits(m as nat).push(rev@.last()) + rev@.drop_last().reverse()
            },
        decreases m,
    {
        let d = (m % 10) as u8;
        let ghost old_rev = rev@;
        let ghost old_m = m as nat;
        rev.push((48 + d) as char);
        proof {
            assert(rev@.last() == digit_char((old_m % 10) as int));
            assert(rev@.drop_last() =~= old_rev);
        }
        if m < 10 {
            proof {
                assert(dec_digits(old_m) == seq![digit_char(old_m as int)]);
                assert(dec_digits(n as nat) =~= rev@.reverse()) by {
                    if old_rev.len() == 0 {
                        assert(rev@.reverse() =~= seq![digit_char(old_m as int)]);
                    } else {
                        assert(dec_digits(n as nat) == dec_digits(old_m).push(old_rev.last())
                            + old_rev.drop_last().reverse());
                        assert(rev@.reverse() =~= dec_digits(old_m).push(old_rev.last())
                            + old_rev.drop_last().reverse());
                    }
                }
            }
            break;
        }
        m = m / 10;
        proof {
            assert(dec_digits(old_m) == dec_digits(m as nat).push(digit_char(
                (old_m % 10) as int,
            )));
            if old_rev.len() == 0 {
                assert(dec_digits(n as nat) == dec_digits(m as nat).push(rev@.last())
                    + rev@.drop_last().reverse()) by {
                    assert(dec_digits(old_m) + old_rev.reverse() =~= dec_digits(old_m));
                    assert(dec_digits(m as nat).push(rev@.last()) + rev@.drop_last().reverse()
                        =~= dec_digits(old_m) + old_rev.reverse());
                }
            } else {
                assert(dec_digits(n as nat) == dec_digits(m as nat).push(rev@.last())
                    + rev@.drop_last().reverse()) by {
                    assert(dec_digits(m as nat).push(rev@.last()) + rev@.drop_last().reverse()
                        =~= dec_digits(old_m).push(old_rev.last()) + old_rev.drop_last().reverse());
                }
            }
        }
    }
    let ghost target = dec_digits(n as nat);
    proof {
        assert(target == rev@.reverse());
    }
    let mut k: usize = rev.len();
    proof {
        assert(out@ =~= old(out)@ + target.take(target.len() - k));
    }
    while k > 0
        invariant
            k <= rev@.len(),
            out@ == old(out)@ + target.take(target.len() - k),
        decreases k,
    {
        k = k - 1;
        let c = rev[k];
        out.push(c);
        proof {
            assert(rev@.reverse()[target.len() - k - 1] == rev@[k as int]);
            assert(out@ =~= old(out)@ + target.take(target.len() - k));
        }
    }
    proof {
        assert(out@ =~= old(out)@ + target);
    }
}

/// `pow10` is monotone in the exponent.
pub proof fn lemma_pow10_mono(a: nat, b: nat)
    requires
        a <= b,
    ensures
        pow10(a) <= pow10(b),
    decreases b,
{
    if a < b {
        lemma_pow10_mono(a, (b - 1) as nat);
        lemma_pow10_pos((b - 1) as nat);
    }
}

} // verus!
