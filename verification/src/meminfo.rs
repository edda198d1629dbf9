//! Memory facts: scanning the memory pseudo-file for the total,
//! available and swap kilobyte counts, and reducing a (total, free)
//! pair to used/total hundredths of a gigabyte with a percentage.

use vstd::prelude::*;

use crate::bytes::{ascii_bytes, ascii_lit, bytes_eq, spec_lines, spec_split_ws, spec_trim,
    split_lines, split_ws, trim};
use crate::num::{dec_val, div_round_half_even, is_u64_literal, lemma_round_div_le, parse_u64,
    round_div, unsigned_body};

verus! {

/// The four kilobyte counts read from the memory pseudo-file, in
/// order: memory total, memory available, swap total, swap free.
pub struct MemFigures {
    pub mem_total: u64,
    pub mem_free: u64,
    pub swap_total: u64,
    pub swap_free: u64,
}

/// The value a counter line assigns: its second field read as a
/// number, or zero when it is not one.
pub open spec fn spec_field_value(tok: Seq<u8>) -> u64 {
    if is_u64_literal(tok) {
        dec_val(unsigned_body(tok)) as u64
    } else {
        0
    }
}

/// One line's effect on the four counters: a line of at least two
/// fields whose first field names a counter overwrites that counter.
pub open spec fn spec_mem_update(st: (u64, u64, u64, u64), line: Seq<u8>) -> (u64, u64, u64, u64) {
    let parts = spec_split_ws(line);
    if parts.len() < 2 {
        st
    } else {
        let v = spec_field_value(parts[1]);
        if parts[0] == ascii_bytes("MemTotal:"@) {
            (v, st.1, st.2, st.3)
        } else if parts[0] == ascii_bytes("MemAvailable:"@) {
            (st.0, v, st.2, st.3)
        } else if parts[0] == ascii_bytes("SwapTotal:"@) {
            (st.0, st.1, v, st.3)
        } else if parts[0] == ascii_bytes("SwapFree:"@) {
            (st.0, st.1, st.2, v)
        } else {
            st
        }
    }
}

/// The four counters after every line of the file has been applied.
pub open spec fn spec_mem_fold(ls: Seq<Seq<u8>>) -> (u64, u64, u64, u64)
    decreases ls.len(),
{
    if ls.len() == 0 {
        (0, 0, 0, 0)
    } else {
        spec_mem_update(spec_mem_fold(ls.drop_last()), ls.last())
    }
}

/// The fallback free-memory figure: the first line carrying the plain
/// free-memory prefix decides, its first following field read as a
/// number; a line with no such field, or one that is not a number,
/// yields nothing.
pub open spec fn spec_fallback_mem_free(ls: Seq<Seq<u8>>) -> Option<u64>
    decreases ls.len(),
{
    if ls.len() == 0 {
        None
    } else {
        let line = ls[0];
        let pre = ascii_bytes("MemFree:"@);
        if pre.len() <= line.len() && line.take(pre.len() as int) == pre {
            let toks = spec_split_ws(spec_trim(line.skip(pre.len() as int)));
            if toks.len() == 0 {
                None
            } else if is_u64_literal(toks[0]) {
                Some(dec_val(unsigned_body(toks[0])) as u64)
            } else {
                None
            }
        } else {
            spec_fallback_mem_free(ls.drop_first())
        }
    }
}

/// What the memory reader returns for a file's text: the folded
/// counters, with the free figure replaced by the fallback scan when it
/// came out zero.
pub open spec fn spec_parse_meminfo(content: Seq<u8>) -> (u64, u64, u64, u64) {
    let st = spec_mem_fold(spec_lines(content));
    if st.1 == 0 {
        let f = match spec_fallback_mem_free(spec_lines(content)) {
            Some(v) => v,
            None => 0,
        };
        (st.0, f, st.2, st.3)
    } else {
        st
    }
}

/// Scans the memory pseudo-file's text for the four kilobyte counters.
/// Unreadable or missing fields stay zero; a zero available figure
/// falls back to the plain free-memory line.
pub fn parse_meminfo(content: &[u8]) -> (r: MemFigures)
    ensures
        (r.mem_total, r.mem_free, r.swap_total, r.swap_free) == spec_parse_meminfo(content@),
{
    let lines = split_lines(content);
    let ghost lv = lines@.map_values(|t: Vec<u8>| t@);
    proof {
        reveal_strlit("MemTotal:");
        reveal_strlit("MemAvailable:");
        reveal_strlit("SwapTotal:");
        reveal_strlit("SwapFree:");
    }
    let key_mt = ascii_lit("MemTotal:");
    let key_ma = ascii_lit("MemAvailable:");
    let key_st = ascii_lit("SwapTotal:");
    let key_sf = ascii_lit("SwapFree:");
    let mut mem_total: u64 = 0;
    let mut mem_free: u64 = 0;
    let mut swap_total: u64 = 0;
    let mut swap_free: u64 = 0;
    let mut i: usize = 0;
    proof {
        assert(lv.take(0) =~= Seq::<Seq<u8>>::empty());
    }
    while i < lines.len()
        invariant
            i <= lines@.len(),
            lv == lines@.map_values(|t: Vec<u8>| t@),
            key_mt@ == ascii_bytes("MemTotal:"@),
            key_ma@ == ascii_bytes("MemAvailable:"@),
            key_st@ == ascii_bytes("SwapTotal:"@),
            key_sf@ == ascii_bytes("SwapFree:"@),
            (mem_total, mem_free, swap_total, swap_free) == spec_mem_fold(lv.take(i as int)),
        decreases lines@.len() - i,
    {
        let parts = split_ws(lines[i].as_slice());
        proof {
            assert(lv.take(i + 1).drop_last() =~= lv.take(i as int));
            assert(lv.take(i + 1).last() == lv[i as int]);
        }
        if parts.len() >= 2 {
            let ghost pv = spec_split_ws(lv[i as int]);
            proof {
                assert(parts@.map_values(|t: Vec<u8>| t@)[0] == pv[0]);
                assert(parts@.map_values(|t: Vec<u8>| t@)[1] == pv[1]);
            }
            let v = match parse_u64(parts[1].as_slice()) {
                Some(v) => v,
                None => 0,
            };
            if bytes_eq(parts[0].as_slice(), key_mt.as_slice()) {
                mem_total = v;
            } else if bytes_eq(parts[0].as_slice(), key_ma.as_slice()) {
                mem_free = v;
            } else if bytes_eq(parts[0].as_slice(), key_st.as_slice()) {
                swap_total = v;
            } else if bytes_eq(parts[0].as_slice(), key_sf.as_slice()) {
                swap_free = v;
            }
        }
        i = i + 1;
    }
    proof {
        assert(lv.take(lines@.len() as int) =~= lv);
    }
    if mem_free == 0 {
        mem_free = match fallback_mem_free(&lines) {
            Some(v) => v,
            None => 0,
        };
    }
    MemFigures { mem_total, mem_free, swap_total, swap_free }
}

/// Scans the memory pseudo-file's lines for the plain free-memory
/// line, the fallback when no available figure is present.
fn fallback_mem_free(lines: &Vec<Vec<u8>>) -> (r: Option<u64>)
    ensures
        r == spec_fallback_mem_free(lines@.map_values(|t: Vec<u8>| t@)),
{
    let ghost lv = lines@.map_values(|t: Vec<u8>| t@);
    proof {
        reveal_strlit("MemFree:");
    }
    let pre = ascii_lit("MemFree:");
    let mut i: usize = 0;
    proof {
        assert(lv.skip(0) =~= lv);
    }
    while i < lines.len()
        invariant
            i <= lines@.len(),
            lv == lines@.map_values(|t: Vec<u8>| t@),
            pre@ == ascii_bytes("MemFree:"@),
            spec_fallback_mem_free(lv) == spec_fallback_mem_free(lv.skip(i as int)),
        decreases lines@.len() - i,
    {
        let line = &lines[i];
        proof {
            assert(lv.skip(i as int)[0] == lv[i as int]);
            assert(lv.skip(i as int).drop_first() =~= lv.skip(i + 1));
        }
        if crate::bytes::starts_with(line.as_slice(), pre.as_slice()) {
            let rest = vstd::slice::slice_subrange(line.as_slice(), pre.len(), line.len());
            proof {
                assert(rest@ =~= lv[i as int].skip(pre@.len() as int));
            }
            let t = trim(rest);
            let toks = split_ws(t.as_slice());
            if toks.len() == 0 {
                return None;
            }
            proof {
                assert(toks@.map_values(|t: Vec<u8>| t@)[0] == spec_split_ws(
                    spec_trim(lv[i as int].skip(pre@.len() as int)),
                )[0]);
            }
            return parse_u64(toks[0].as_slice());
        }
        i = i + 1;
    }
    None
}

/// The kilobyte count `kb` in hundredths of a gigabyte, rounded to the
/// nearest with ties to even.
pub fn kb_to_centi_gb(kb: u64) -> (r: u64)
    ensures
        r == round_div(kb as int * 100, 0x100000),
{
    proof {
        lemma_round_div_le(kb as int * 100, 0x100000, 0x8000000000000);
    }
    let c = div_round_half_even((kb as u128) * 100, 0x100000);
    c as u64
}

/// The used kilobytes among `total_kb` when `free_kb` are free: the
/// difference, never below zero.
pub open spec fn spec_used_kb(total_kb: u64, free_kb: u64) -> u64 {
    if free_kb <= total_kb {
        (total_kb - free_kb) as u64
    } else {
        0
    }
}

/// The percentage `used / total`, in hundredths of a percent, rounded
/// with ties to even; zero when the total is zero.
pub open spec fn spec_pct_centi(used: u64, total: u64) -> int {
    if total == 0 {
        0
    } else {
        round_div(used as int * 10000, total as int)
    }
}

/// The zero-total invariant of the ratio reduction: with no memory at
/// all, the used figure, the total figure and the percentage are all
/// zero, whatever the free figure claims.
pub proof fn lemma_ratio_zero_total(free_kb: u64)
    ensures
        spec_used_kb(0, free_kb) == 0,
        round_div(spec_used_kb(0, free_kb) as int * 100, 0x100000) == 0,
        round_div(0, 0x100000) == 0,
        spec_pct_centi(spec_used_kb(0, free_kb), 0) == 0,
{
}

/// Reduces a (total, free) kilobyte pair to used and total hundredths
/// of a gigabyte and the used percentage in hundredths: zero percent
/// when the total is zero, and a free figure above the total counts as
/// nothing used.
pub fn to_gb_and_ratio(total_kb: u64, free_kb: u64) -> (r: (u64, u64, u64))
    ensures
        r.0 == round_div(spec_used_kb(total_kb, free_kb) as int * 100, 0x100000),
        r.1 == round_div(total_kb as int * 100, 0x100000),
        r.2 == spec_pct_centi(spec_used_kb(total_kb, free_kb), total_kb),
{
    let used_kb: u64 = if free_kb <= total_kb {
        total_kb - free_kb
    } else {
        0
    };
    let used_gb = kb_to_centi_gb(used_kb);
    let total_gb = kb_to_centi_gb(total_kb);
    let ratio: u64 = if total_kb == 0 {
        0
    } else {
        proof {
            assert((used_kb as int) * 10000 < (total_kb as int) * 10001) by (nonlinear_arith)
                requires
                    0 <= used_kb <= total_kb,
                    total_kb >= 1,
            ;
            lemma_round_div_le(used_kb as int * 10000, total_kb as int, 10001);
            assert(round_div(used_kb as int * 10000, total_kb as int) >= 0) by {
                vstd::arithmetic::div_mod::lemma_div_is_ordered(
                    0,
                    used_kb as int * 10000,
                    total_kb as int,
                );
            }
        }
        let p = div_round_half_even((used_kb as u128) * 10000, total_kb as u128);
        p as u64
    };
    (used_gb, total_gb, ratio)
}

} // verus!
