//! Uptime handling: reading the seconds-since-boot counter out of the
//! uptime pseudo-file's text, and formatting a second count as
//! `"D days, HH:MM:SS"` (the day part only when there are days).

use vstd::prelude::*;

use crate::bytes::{ascii_bytes, ascii_lit, push_bytes, spec_find_byte, spec_split_ws, find_byte,
    split_ws};
use crate::num::{all_digits, check_all_digits, dec_rep, dec_rep2, dec_val, dec_val_saturating,
    u64_to_dec, u64_to_dec2};

verus! {

/// The uptime string for `s` seconds: days, then zero-padded hours,
/// minutes and seconds; the day part appears only when `s` reaches a
/// full day.
pub open spec fn spec_format_uptime(s: nat) -> Seq<u8> {
    let days = s / 86400;
    let hours = s % 86400 / 3600;
    let minutes = s % 3600 / 60;
    let seconds = s % 60;
    let clock = dec_rep2(hours) + seq![58u8] + dec_rep2(minutes) + seq![58u8] + dec_rep2(seconds);
    if days > 0 {
        dec_rep(days) + ascii_bytes(" days, "@) + clock
    } else {
        clock
    }
}

/// Formats a second count for display.
pub fn format_uptime(secs: u64) -> (r: Vec<u8>)
    ensures
        r@ == spec_format_uptime(secs as nat),
{
    let days = secs / 86400;
    let hours = secs % 86400 / 3600;
    let minutes = secs % 3600 / 60;
    let seconds = secs % 60;
    let mut r: Vec<u8> = Vec::new();
    if days > 0 {
        let d = u64_to_dec(days);
        push_bytes(&mut r, d.as_slice());
        proof {
            reveal_strlit(" days, ");
        }
        let sep = ascii_lit(" days, ");
        push_bytes(&mut r, sep.as_slice());
    }
    let h = u64_to_dec2(hours);
    push_bytes(&mut r, h.as_slice());
    r.push(58);
    let m = u64_to_dec2(minutes);
    push_bytes(&mut r, m.as_slice());
    r.push(58);
    let s = u64_to_dec2(seconds);
    push_bytes(&mut r, s.as_slice());
    proof {
        assert(r@ =~= spec_format_uptime(secs as nat));
    }
    r
}

/// The decomposition behind the uptime format: the displayed days,
/// hours, minutes and seconds rebuild the second count exactly, and the
/// clock fields lie in their usual ranges.
pub proof fn lemma_uptime_decomposition(s: nat)
    ensures
        s == (s / 86400) * 86400 + (s % 86400 / 3600) * 3600 + (s % 3600 / 60) * 60 + s % 60,
        s % 86400 / 3600 < 24,
        s % 3600 / 60 < 60,
        s % 60 < 60,
{
    let x = s % 86400;
    let y = s % 3600;
    vstd::arithmetic::div_mod::lemma_fundamental_div_mod(s as int, 86400);
    vstd::arithmetic::div_mod::lemma_fundamental_div_mod(x as int, 3600);
    vstd::arithmetic::div_mod::lemma_fundamental_div_mod(y as int, 60);
    vstd::arithmetic::div_mod::lemma_mod_mod(s as int, 3600, 24);
    assert(3600 * 24 == 86400);
    assert(x % 3600 == y);
    vstd::arithmetic::div_mod::lemma_mod_mod(s as int, 60, 60);
    assert(60 * 60 == 3600);
    assert(y % 60 == s % 60);
    assert(x / 3600 < 24 && y / 60 < 60) by (nonlinear_arith)
        requires
            0 <= x < 86400,
            0 <= y < 3600,
            x == 3600 * (x / 3600) + x % 3600,
            0 <= x % 3600 < 3600,
            y == 60 * (y / 60) + y % 60,
            0 <= y % 60 < 60,
    ;
}

/// The whole seconds named by the first field of the uptime
/// pseudo-file: the field must be a decimal number, digits with at most
/// one point; its integer part is the value, saturating at `u64::MAX`.
pub open spec fn spec_parse_uptime(content: Seq<u8>) -> Option<u64> {
    let toks = spec_split_ws(content);
    if toks.len() == 0 {
        None
    } else {
        let t = toks[0];
        let ip = match spec_find_byte(t, 46) {
            Some(p) => t.take(p),
            None => t,
        };
        let fp = match spec_find_byte(t, 46) {
            Some(p) => t.skip(p + 1),
            None => Seq::empty(),
        };
        if all_digits(ip) && all_digits(fp) && ip.len() + fp.len() >= 1 {
            if dec_val(ip) > u64::MAX {
                Some(u64::MAX)
            } else {
                Some(dec_val(ip) as u64)
            }
        } else {
            None
        }
    }
}

/// Reads the uptime pseudo-file's text and returns the whole seconds
/// since boot, or nothing when the leading field is not a number.
pub fn parse_uptime(content: &[u8]) -> (r: Option<u64>)
    ensures
        r == spec_parse_uptime(content@),
{
    let toks = split_ws(content);
    if toks.len() == 0 {
        return None;
    }
    let t = &toks[0];
    proof {
        assert(toks@.map_values(|v: Vec<u8>| v@)[0] == t@);
    }
    let (ipart, fpart): (Vec<u8>, Vec<u8>) = match find_byte(t.as_slice(), 46) {
        Some(p) => {
            let ip = vstd::slice::slice_to_vec(vstd::slice::slice_subrange(t.as_slice(), 0, p));
            let fp = vstd::slice::slice_to_vec(
                vstd::slice::slice_subrange(t.as_slice(), p + 1, t.len()),
            );
            proof {
                assert(t@.subrange(0, spec_find_byte(t@, 46)->Some_0) =~= t@.take(
                    spec_find_byte(t@, 46)->Some_0,
                ));
                assert(t@.subrange(spec_find_byte(t@, 46)->Some_0 + 1, t@.len() as int) =~= t@.skip(
                    spec_find_byte(t@, 46)->Some_0 + 1,
                ));
            }
            (ip, fp)
        },
        None => {
            let ip = vstd::slice::slice_to_vec(t.as_slice());
            let fp: Vec<u8> = Vec::new();
            proof {
                assert(fp@ =~= Seq::<u8>::empty());
            }
            (ip, fp)
        },
    };
    if !check_all_digits(ipart.as_slice()) || !check_all_digits(fpart.as_slice()) {
        return None;
    }
    if ipart.len() == 0 && fpart.len() == 0 {
        return None;
    }
    Some(dec_val_saturating(ipart.as_slice()))
}

} // verus!
