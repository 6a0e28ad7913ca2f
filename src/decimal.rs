//! Decimal text for 256-bit values: the form in which the pool keeps its
//! invariant.

use crate::big::{limit, word, BigProduct};
use vstd::prelude::*;

verus! {

/// The character of a decimal digit.
pub open spec fn digit_char(d: nat) -> char {
    if d == 0 {
        '0'
    } else if d == 1 {
        '1'
    } else if d == 2 {
        '2'
    } else if d == 3 {
        '3'
    } else if d == 4 {
        '4'
    } else if d == 5 {
        '5'
    } else if d == 6 {
        '6'
    } else if d == 7 {
        '7'
    } else if d == 8 {
        '8'
    } else {
        '9'
    }
}

pub open spec fn is_digit(c: char) -> bool {
    '0' <= c && c <= '9'
}

/// The value of a digit character.
pub open spec fn char_value(c: char) -> nat {
    (c as int - '0' as int) as nat
}

pub open spec fn all_digits(s: Seq<char>) -> bool {
    forall|i: int| 0 <= i < s.len() ==> is_digit(#[trigger] s[i])
}

/// The canonical decimal form of `n`: no leading zeros, "0" for zero.
pub open spec fn dec_of(n: nat) -> Seq<char>
    decreases n,
{
    if n < 10 {
        seq![digit_char(n)]
    } else {
        dec_of(n / 10).push(digit_char(n % 10))
    }
}

/// The value of a string of digits, most significant first.
pub open spec fn dec_val(s: Seq<char>) -> nat
    decreases s.len(),
{
    if s.len() == 0 {
        0
    } else {
        dec_val(s.drop_last()) * 10 + char_value(s.last())
    }
}

/// What parsing yields: the value of a string of digits that fits in 256
/// bits; nothing for any other text. The empty string reads as zero.
pub open spec fn parse_decimal(s: Seq<char>) -> Option<nat> {
    if all_digits(s) && dec_val(s) < limit() {
        Some(dec_val(s))
    } else {
        None
    }
}

/// The digits of `ds` as characters, last digit first.
pub open spec fn rev_chars(ds: Seq<u8>) -> Seq<char> {
    Seq::new(ds.len(), |j: int| digit_char(ds[ds.len() - 1 - j] as nat))
}

proof fn lemma_digit(d: nat)
    requires
        d < 10,
    ensures
        is_digit(digit_char(d)),
        char_value(digit_char(d)) == d,
{
}

pub proof fn lemma_dec_round_trip(n: nat)
    ensures
        all_digits(dec_of(n)),
        dec_val(dec_of(n)) == n,
        dec_of(n).len() > 0,
    decreases n,
{
    if n < 10 {
        lemma_digit(n);
        let s = dec_of(n);
        assert(s.drop_last() =~= Seq::<char>::empty());
        assert(dec_val(s) == dec_val(s.drop_last()) * 10 + char_value(s.last()));
    } else {
        lemma_dec_round_trip(n / 10);
        lemma_digit(n % 10);
        let s = dec_of(n);
        assert(s.drop_last() =~= dec_of(n / 10));
        assert(s.last() == digit_char(n % 10));
        vstd::arithmetic::div_mod::lemma_fundamental_div_mod(n as int, 10);
        assert(dec_val(s) == dec_val(s.drop_last()) * 10 + char_value(s.last()));
        assert forall|i: int| 0 <= i < s.len() implies is_digit(#[trigger] s[i]) by {
            if i < s.len() - 1 {
                assert(s[i] == dec_of(n / 10)[i]);
            }
        }
    }
}

proof fn lemma_dec_prefix(s: Seq<char>, j: int)
    requires
        all_digits(s),
        0 <= j <= s.len(),
    ensures
        dec_val(s.subrange(0, j)) <= dec_val(s),
    decreases s.len(),
{
    if j < s.len() {
        let t = s.drop_last();
        assert(all_digits(t)) by {
            assert forall|i: int| 0 <= i < t.len() implies is_digit(#[trigger] t[i]) by {
                assert(t[i] == s[i]);
            }
        }
        lemma_dec_prefix(t, j);
        assert(t.subrange(0, j) =~= s.subrange(0, j));
    } else {
        assert(s.subrange(0, j) =~= s);
    }
}

/// The text of one digit.
fn digit_str(d: u8) -> (r: &'static str)
    requires
        d < 10,
    ensures
        r@ == seq![digit_char(d as nat)],
{
    proof {
        reveal_strlit("0");
        reveal_strlit("1");
        reveal_strlit("2");
        reveal_strlit("3");
        reveal_strlit("4");
        reveal_strlit("5");
        reveal_strlit("6");
        reveal_strlit("7");
        reveal_strlit("8");
        reveal_strlit("9");
    }
    if d == 0 {
        "0"
    } else if d == 1 {
        "1"
    } else if d == 2 {
        "2"
    } else if d == 3 {
        "3"
    } else if d == 4 {
        "4"
    } else if d == 5 {
        "5"
    } else if d == 6 {
        "6"
    } else if d == 7 {
        "7"
    } else if d == 8 {
        "8"
    } else {
        "9"
    }
}

/// The canonical decimal text of `v`.
pub fn to_decimal_string(v: &BigProduct) -> (r: String)
    ensures
        r@ == dec_of(v@),
{
    let mut digits: Vec<u8> = Vec::new();
    let mut cur = *v;
    loop
        invariant_except_break
            dec_of(v@) == dec_of(cur@) + rev_chars(digits@),
        invariant
            forall|i: int| 0 <= i < digits.len() ==> #[trigger] digits@[i] < 10,
        ensures
            dec_of(v@) == rev_chars(digits@),
            forall|i: int| 0 <= i < digits.len() ==> #[trigger] digits@[i] < 10,
        decreases cur@,
    {
        let (q, r) = cur.div_ten();
        let ghost old_digits = digits@;
        digits.push(r);
        proof {
            vstd::arithmetic::div_mod::lemma_fundamental_div_mod_converse(
                cur@ as int,
                10,
                q@ as int,
                r as int,
            );
            assert(rev_chars(digits@) =~= seq![digit_char(r as nat)] + rev_chars(old_digits));
        }
        if q.is_zero() {
            proof {
                assert(dec_of(cur@) =~= seq![digit_char(r as nat)]);
            }
            break;
        }
        proof {
            assert(dec_of(cur@) == dec_of(q@).push(digit_char(r as nat)));
            assert(dec_of(q@).push(digit_char(r as nat)) + rev_chars(old_digits) =~= dec_of(q@)
                + rev_chars(digits@));
        }
        cur = q;
    }
    let mut out = String::new();
    let mut i: usize = digits.len();
    while i > 0
        invariant
            i <= digits.len(),
            out@ == rev_chars(digits@).subrange(0, digits.len() - i),
            forall|k: int| 0 <= k < digits.len() ==> #[trigger] digits@[k] < 10,
        decreases i,
    {
        i = i - 1;
        out.append(digit_str(digits[i]));
        proof {
            assert(out@ =~= rev_chars(digits@).subrange(0, digits.len() - i));
        }
    }
    proof {
        assert(rev_chars(digits@).subrange(0, digits.len() as int) =~= rev_chars(digits@));
    }
    out
}

/// Reads decimal text: `Some` exactly where `parse_decimal` gives a value.
pub fn from_decimal_string(s: &str) -> (r: Option<BigProduct>)
    ensures
        match r {
            Some(v) => parse_decimal(s@) == Some(v@),
            None => parse_decimal(s@) is None,
        },
{
    let n = s.unicode_len();
    let mut acc = BigProduct::zero();
    let mut i: usize = 0;
    while i < n
        invariant
            n == s@.len(),
            i <= n,
            all_digits(s@.subrange(0, i as int)),
            acc@ == dec_val(s@.subrange(0, i as int)),
        decreases n - i,
    {
        let c = s.get_char(i);
        if !('0' <= c && c <= '9') {
            return None;
        }
        let d = (c as u32 - '0' as u32) as u8;
        let ghost next = s@.subrange(0, i + 1);
        proof {
            assert(next.drop_last() =~= s@.subrange(0, i as int));
            assert(next.last() == c);
        }
        match acc.times_ten_plus(d) {
            None => {
                proof {
                    if all_digits(s@) {
                        lemma_dec_prefix(s@, i + 1);
                    }
                }
                return None;
            },
            Some(v) => {
                acc = v;
            },
        }
        proof {
            assert forall|k: int| 0 <= k < next.len() implies is_digit(#[trigger] next[k]) by {
                if k < i {
                    assert(next[k] == s@.subrange(0, i as int)[k]);
                }
            }
        }
        i = i + 1;
    }
    proof {
        assert(s@.subrange(0, n as int) =~= s@);
    }
    Some(acc)
}

/// The invariant's text round-trips: for any product of two 128-bit values,
/// reading back its decimal form gives the product itself.
pub proof fn invariant_decimal_round_trip(a: u128, b: u128)
    ensures
        parse_decimal(dec_of(a as nat * b as nat)) == Some(a as nat * b as nat),
{
    let p = a as nat * b as nat;
    lemma_dec_round_trip(p);
    assert(word() == u128::MAX as nat + 1);
    assert(p < limit()) by (nonlinear_arith)
        requires
            a < word(),
            b < word(),
            p == a as nat * b as nat,
            limit() == word() * word(),
    ;
}

} // verus!
