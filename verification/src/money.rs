//! Currency amounts as signed integer cents, and their two-decimal text
//! form used when postings are submitted to the ledger.

use vstd::prelude::*;
use crate::date::digit_char;
use crate::date::digit_str;

verus! {

/// Decimal digit characters of `n`, most significant first, no leading
/// zeros (a single `'0'` for zero).
pub open spec fn dec_seq(n: nat) -> Seq<char>
    decreases n,
{
    if n < 10 {
        seq![digit_char(n as int)]
    } else {
        dec_seq(n / 10).push(digit_char((n % 10) as int))
    }
}

/// The `W.DD` text of an absolute amount of `cents`: the whole units in
/// decimal, a dot, then exactly two fractional digits.
pub open spec fn amount_seq(cents: nat) -> Seq<char> {
    dec_seq(cents / 100) + seq!['.', digit_char(((cents / 10) % 10) as int), digit_char(
        (cents % 10) as int,
    )]
}

/// Renders `n` in decimal with no leading zeros.
pub fn u64_to_dec_string(n: u64) -> (s: String)
    ensures
        s@ == dec_seq(n as nat),
{
    let mut s = String::from_str(digit_str((n % 10) as u16));
    let mut m: u64 = n / 10;
    proof {
        assert(s@ =~= seq![digit_char((n % 10) as int)]);
        if m > 0 {
            assert(dec_seq(n as nat) =~= dec_seq((m as nat)) + s@);
        }
    }
    while m > 0
        invariant
            m > 0 ==> dec_seq(n as nat) == dec_seq(m as nat) + s@,
            m == 0 ==> s@ == dec_seq(n as nat),
        decreases m,
    {
        let s2 = String::from_str(digit_str((m % 10) as u16)).concat(s.as_str());
        let m2: u64 = m / 10;
        proof {
            if m2 > 0 {
                assert(dec_seq(m as nat) == dec_seq(m2 as nat).push(
                    digit_char((m % 10) as int),
                ));
                assert(dec_seq(n as nat) =~= dec_seq(m2 as nat) + s2@);
            } else {
                assert(dec_seq(m as nat) =~= seq![digit_char((m % 10) as int)]);
                assert(dec_seq(n as nat) =~= s2@);
            }
        }
        s = s2;
        m = m2;
    }
    s
}

/// Renders an absolute amount of `cents` as `W.DD`, the fixed
/// two-decimal form the ledger expects.
pub fn amount_to_string(cents: u64) -> (s: String)
    ensures
        s@ == amount_seq(cents as nat),
{
    proof {
        reveal_strlit(".");
    }
    let mut s = u64_to_dec_string(cents / 100);
    s.append(".");
    s.append(digit_str(((cents / 10) % 10) as u16));
    s.append(digit_str((cents % 10) as u16));
    proof {
        assert(s@ =~= amount_seq(cents as nat));
    }
    s
}

} // verus!
