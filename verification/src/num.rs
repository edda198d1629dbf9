//! Decimal parsing and formatting over bytes, and the rounded division
//! used to express kilobyte and byte counts in larger units with two
//! decimal places.

use vstd::prelude::*;

use crate::bytes::is_ws;

verus! {

/// Whether `b` is an ASCII decimal digit.
pub open spec fn is_digit(b: u8) -> bool {
    48 <= b <= 57
}

/// Whether every byte of `s` is a decimal digit.
pub open spec fn all_digits(s: Seq<u8>) -> bool {
    forall|k: int| 0 <= k < s.len() ==> is_digit(#[trigger] s[k])
}

/// The value of a digit sequence read as a decimal number.
pub open spec fn dec_val(s: Seq<u8>) -> nat
    decreases s.len(),
{
    if s.len() == 0 {
        0
    } else {
        (dec_val(s.drop_last()) * 10 + (s.last() - 48)) as nat
    }
}

/// A digit sequence is worth at least any of its prefixes.
pub proof fn lemma_dec_val_mono(s: Seq<u8>, i: int)
    requires
        0 <= i <= s.len(),
        all_digits(s),
    ensures
        dec_val(s) >= dec_val(s.take(i)),
    decreases s.len() - i,
{
    if i < s.len() {
        assert(s.take(s.len() as int) =~= s);
        assert(s.take(i + 1).drop_last() =~= s.take(i));
        assert(dec_val(s.take(i + 1)) >= dec_val(s.take(i)));
        lemma_dec_val_mono(s, i + 1);
    } else {
        assert(s.take(i) =~= s);
    }
}

/// The digit body of an unsigned decimal literal: an optional leading
/// plus sign removed.
pub open spec fn unsigned_body(s: Seq<u8>) -> Seq<u8> {
    if s.len() > 0 && s[0] == 43 {
        s.drop_first()
    } else {
        s
    }
}

/// Whether `s` is a decimal literal whose value fits in `u64`: an
/// optional plus sign, then at least one digit.
pub open spec fn is_u64_literal(s: Seq<u8>) -> bool {
    let b = unsigned_body(s);
    b.len() > 0 && all_digits(b) && dec_val(b) <= u64::MAX
}

/// Parses `s` as an unsigned decimal number, as `u64::from_str` would:
/// an optional plus sign, then digits; anything else, or a value out of
/// range, is rejected.
pub fn parse_u64(s: &[u8]) -> (r: Option<u64>)
    ensures
        r == if is_u64_literal(s@) {
            Some(dec_val(unsigned_body(s@)) as u64)
        } else {
            None::<u64>
        },
{
    let start: usize = if s.len() > 0 && s[0] == 43 {
        1
    } else {
        0
    };
    proof {
        assert(unsigned_body(s@) =~= s@.skip(start as int));
    }
    let ghost body = s@.skip(start as int);
    if s.len() == start {
        proof {
            assert(body.len() == 0);
        }
        return None;
    }
    let mut acc: u128 = 0;
    let mut i: usize = start;
    while i < s.len()
        invariant
            start <= i <= s@.len(),
            start < s@.len(),
            start == if s@.len() > 0 && s@[0] == 43 {
                1int
            } else {
                0int
            },
            body == s@.skip(start as int),
            body == unsigned_body(s@),
            acc == dec_val(body.take(i - start)),
            acc <= u64::MAX,
            all_digits(body.take(i - start)),
        decreases s@.len() - i,
    {
        let b = s[i];
        if b < 48 || b > 57 {
            proof {
                assert(body[i - start] == b);
                assert(!is_digit(body[i - start]));
                assert(!all_digits(body));
            }
            return None;
        }
        acc = acc * 10 + ((b - 48) as u128);
        proof {
            assert(body.take(i - start + 1).drop_last() =~= body.take(i - start));
            assert(body.take(i - start + 1).last() == b);
        }
        if acc > u64::MAX as u128 {
            proof {
                if all_digits(body) {
                    lemma_dec_val_mono(body, i - start + 1);
                }
            }
            return None;
        }
        i = i + 1;
    }
    proof {
        assert(body.take(s@.len() - start) =~= body);
    }
    Some(acc as u64)
}

/// Whether every byte of `s` is a decimal digit.
pub fn check_all_digits(s: &[u8]) -> (r: bool)
    ensures
        r == all_digits(s@),
{
    let mut i: usize = 0;
    while i < s.len()
        invariant
            i <= s@.len(),
            forall|k: int| 0 <= k < i ==> is_digit(#[trigger] s@[k]),
        decreases s@.len() - i,
    {
        if s[i] < 48 || s[i] > 57 {
            return false;
        }
        i = i + 1;
    }
    true
}

/// The value of a digit run, saturating at `u64::MAX`.
pub fn dec_val_saturating(s: &[u8]) -> (r: u64)
    requires
        all_digits(s@),
    ensures
        r == if dec_val(s@) > u64::MAX {
            u64::MAX
        } else {
            dec_val(s@) as u64
        },
{
    let mut acc: u64 = 0;
    let mut sat = false;
    let mut i: usize = 0;
    while i < s.len()
        invariant
            i <= s@.len(),
            all_digits(s@),
            !sat ==> acc == dec_val(s@.take(i as int)),
            sat ==> dec_val(s@.take(i as int)) > u64::MAX,
        decreases s@.len() - i,
    {
        let d = s[i] - 48;
        proof {
            assert(s@.take(i + 1).drop_last() =~= s@.take(i as int));
            assert(s@.take(i + 1).last() == s@[i as int]);
        }
        if !sat {
            if acc > (u64::MAX - (d as u64)) / 10 {
                sat = true;
                proof {
                    let prev = dec_val(s@.take(i as int));
                    assert(prev * 10 + d > u64::MAX) by (nonlinear_arith)
                        requires
                            prev > (u64::MAX - d) / 10,
                            0 <= d <= 9,
                            u64::MAX - d == 10 * ((u64::MAX - d) / 10) + (u64::MAX - d) % 10,
                            0 <= (u64::MAX - d) % 10 < 10,
                    ;
                }
            } else {
                proof {
                    let prev = dec_val(s@.take(i as int));
                    assert(prev * 10 + d <= u64::MAX) by (nonlinear_arith)
                        requires
                            prev <= (u64::MAX - d) / 10,
                            0 <= d <= 9,
                            u64::MAX - d == 10 * ((u64::MAX - d) / 10) + (u64::MAX - d) % 10,
                            0 <= (u64::MAX - d) % 10 < 10,
                    ;
                }
                acc = acc * 10 + (d as u64);
            }
        } else {
            proof {
                let prev = dec_val(s@.take(i as int));
                assert(prev * 10 + (s@[i as int] - 48) >= prev) by (nonlinear_arith)
                    requires
                        prev >= 0,
                        s@[i as int] >= 48,
                ;
            }
        }
        i = i + 1;
    }
    proof {
        assert(s@.take(s@.len() as int) =~= s@);
    }
    if sat {
        u64::MAX
    } else {
        acc
    }
}

/// The decimal representation of `n`, most significant digit first.
pub open spec fn dec_rep(n: nat) -> Seq<u8>
    decreases n,
{
    if n < 10 {
        seq![(48 + n) as u8]
    } else {
        dec_rep(n / 10).push((48 + n % 10) as u8)
    }
}

/// Writes `n` in decimal.
pub fn u64_to_dec(n: u64) -> (r: Vec<u8>)
    ensures
        r@ == dec_rep(n as nat),
    decreases n,
{
    if n < 10 {
        let mut r: Vec<u8> = Vec::new();
        r.push(48 + (n as u8));
        proof {
            assert(r@ =~= dec_rep(n as nat));
        }
        r
    } else {
        let mut r = u64_to_dec(n / 10);
        r.push(48 + ((n % 10) as u8));
        r
    }
}

/// The decimal representation of `n`, zero-padded on the left to at
/// least two digits.
pub open spec fn dec_rep2(n: nat) -> Seq<u8> {
    if n < 10 {
        seq![48u8, (48 + n) as u8]
    } else {
        dec_rep(n)
    }
}

/// Writes `n` in decimal, zero-padded to at least two digits.
pub fn u64_to_dec2(n: u64) -> (r: Vec<u8>)
    ensures
        r@ == dec_rep2(n as nat),
{
    if n < 10 {
        let mut r: Vec<u8> = Vec::new();
        r.push(48);
        r.push(48 + (n as u8));
        proof {
            assert(r@ =~= dec_rep2(n as nat));
        }
        r
    } else {
        u64_to_dec(n)
    }
}

/// A count of hundredths written with two decimal places: the whole
/// part in decimal, a point, then the fraction zero-padded to width 2.
pub open spec fn fixed2_rep(centi: nat) -> Seq<u8> {
    dec_rep(centi / 100) + seq![46u8] + dec_rep2(centi % 100)
}

/// Writes a count of hundredths with two decimal places.
pub fn fixed2(centi: u64) -> (r: Vec<u8>)
    ensures
        r@ == fixed2_rep(centi as nat),
{
    let mut r = u64_to_dec(centi / 100);
    r.push(46);
    let frac = u64_to_dec2(centi % 100);
    crate::bytes::push_bytes(&mut r, frac.as_slice());
    proof {
        assert(r@ =~= fixed2_rep(centi as nat));
    }
    r
}

/// The quotient `a / b` rounded to the nearest integer, ties going to
/// the even neighbour.
pub open spec fn round_div(a: int, b: int) -> int
    recommends
        b > 0,
{
    let q = a / b;
    let r = a % b;
    if 2 * r > b || (2 * r == b && q % 2 == 1) {
        q + 1
    } else {
        q
    }
}

/// Divides with round-half-to-even.
pub fn div_round_half_even(a: u128, b: u128) -> (r: u128)
    requires
        1 <= b <= u128::MAX / 2,
    ensures
        r == round_div(a as int, b as int),
{
    let q = a / b;
    let rem = a % b;
    if 2 * rem > b || (2 * rem == b && q % 2 == 1) {
        proof {
            assert(q < u128::MAX) by {
                assert(rem >= 1);
                vstd::arithmetic::div_mod::lemma_fundamental_div_mod(a as int, b as int);
                assert(q * b == a - rem);
                if q == u128::MAX {
                    assert(q * b >= q) by (nonlinear_arith)
                        requires
                            b >= 1,
                            q >= 0,
                    ;
                }
            }
        }
        q + 1
    } else {
        q
    }
}

/// An upper bound for rounded division: the rounded quotient cannot
/// exceed the exact quotient by more than one.
pub proof fn lemma_round_div_le(a: int, b: int, c: int)
    requires
        b > 0,
        0 <= a,
        a < b * c,
    ensures
        round_div(a, b) <= c,
{
    vstd::arithmetic::div_mod::lemma_fundamental_div_mod(a, b);
    assert(a / b < c) by (nonlinear_arith)
        requires
            b > 0,
            0 <= a,
            a < b * c,
            a == b * (a / b) + a % b,
            0 <= a % b < b,
    ;
}

} // verus!
