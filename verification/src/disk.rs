//! Disk usage: picking the mounts worth reporting out of the mount
//! table, turning filesystem-statistics block counts into byte totals,
//! and scaling a byte pair to the largest fitting power-of-1024 unit.

use vstd::prelude::*;

use crate::bytes::{ascii_bytes, ascii_lit, bytes_eq, push_bytes, spec_lines, spec_split_ws,
    split_lines, split_ws};
use crate::num::{div_round_half_even, fixed2, fixed2_rep, lemma_round_div_le, round_div};

verus! {

/// 1024 to the `k`.
pub open spec fn pow1024(k: nat) -> nat
    decreases k,
{
    if k == 0 {
        1
    } else {
        1024 * pow1024((k - 1) as nat)
    }
}

/// The unit exponent for a byte count: the largest power of 1024 not
/// above it, capped at the fifth (so 0 names bytes, 1 the kibi unit,
/// on up to the pebi unit).
pub open spec fn spec_best_unit(n: u64) -> nat {
    if n >= 0x4000000000000 {
        5
    } else if n >= 0x10000000000 {
        4
    } else if n >= 0x40000000 {
        3
    } else if n >= 0x100000 {
        2
    } else if n >= 0x400 {
        1
    } else {
        0
    }
}

pub proof fn lemma_pow1024_values()
    ensures
        pow1024(0) == 1,
        pow1024(1) == 0x400,
        pow1024(2) == 0x100000,
        pow1024(3) == 0x40000000,
        pow1024(4) == 0x10000000000,
        pow1024(5) == 0x4000000000000,
        pow1024(6) == 0x1000000000000000,
{
    assert(pow1024(0) == 1);
    assert(pow1024(1) == 1024 * pow1024(0));
    assert(pow1024(2) == 1024 * pow1024(1));
    assert(pow1024(3) == 1024 * pow1024(2));
    assert(pow1024(4) == 1024 * pow1024(3));
    assert(pow1024(5) == 1024 * pow1024(4));
    assert(pow1024(6) == 1024 * pow1024(5));
}

/// A byte count of exactly a power of 1024 selects that power's unit,
/// never the one below.
pub proof fn lemma_exact_power_selects_unit(k: nat)
    requires
        k <= 5,
    ensures
        pow1024(k) <= u64::MAX,
        spec_best_unit(pow1024(k) as u64) == k,
{
    lemma_pow1024_values();
}

/// Chooses the unit exponent for a byte count, largest fitting first.
pub fn best_unit_scale(bytes: u64) -> (r: u64)
    ensures
        r == spec_best_unit(bytes),
        r <= 5,
{
    if bytes >= 0x4000000000000 {
        5
    } else if bytes >= 0x10000000000 {
        4
    } else if bytes >= 0x40000000 {
        3
    } else if bytes >= 0x100000 {
        2
    } else if bytes >= 0x400 {
        1
    } else {
        0
    }
}

/// The display suffix of a unit exponent.
pub open spec fn spec_unit_suffix(k: nat) -> Seq<u8> {
    if k == 5 {
        ascii_bytes("PB"@)
    } else if k == 4 {
        ascii_bytes("TB"@)
    } else if k == 3 {
        ascii_bytes("GB"@)
    } else if k == 2 {
        ascii_bytes("MB"@)
    } else if k == 1 {
        ascii_bytes("KB"@)
    } else {
        ascii_bytes("B"@)
    }
}

/// Writes the display suffix of a unit exponent.
pub fn unit_suffix(k: u64) -> (r: Vec<u8>)
    ensures
        r@ == spec_unit_suffix(k as nat),
{
    proof {
        reveal_strlit("PB");
        reveal_strlit("TB");
        reveal_strlit("GB");
        reveal_strlit("MB");
        reveal_strlit("KB");
        reveal_strlit("B");
    }
    if k == 5 {
        ascii_lit("PB")
    } else if k == 4 {
        ascii_lit("TB")
    } else if k == 3 {
        ascii_lit("GB")
    } else if k == 2 {
        ascii_lit("MB")
    } else if k == 1 {
        ascii_lit("KB")
    } else {
        ascii_lit("B")
    }
}

/// A product of byte counts, saturating at `u64::MAX`.
pub open spec fn spec_sat_mul(a: u64, b: u64) -> u64 {
    if a * b > u64::MAX {
        u64::MAX
    } else {
        (a * b) as u64
    }
}

/// Multiplies, saturating at `u64::MAX`.
pub fn sat_mul(a: u64, b: u64) -> (r: u64)
    ensures
        r == spec_sat_mul(a, b),
{
    if a == 0 || b == 0 {
        return 0;
    }
    let q = u64::MAX / a;
    proof {
        vstd::arithmetic::div_mod::lemma_fundamental_div_mod(u64::MAX as int, a as int);
    }
    if b > q {
        proof {
            assert(a * b > u64::MAX) by (nonlinear_arith)
                requires
                    a >= 1,
                    b >= q + 1,
                    u64::MAX == a * q + (u64::MAX as int) % (a as int),
                    0 <= (u64::MAX as int) % (a as int) < a,
            ;
        }
        u64::MAX
    } else {
        proof {
            assert(a * b <= u64::MAX) by (nonlinear_arith)
                requires
                    a >= 1,
                    1 <= b <= q,
                    u64::MAX == a * q + (u64::MAX as int) % (a as int),
                    0 <= (u64::MAX as int) % (a as int),
            ;
        }
        a * b
    }
}

/// The total and used byte counts a filesystem-statistics answer names:
/// block size times total blocks, and block size times occupied blocks,
/// differences and products saturating.
pub fn mount_usage_from_stats(frsize: u64, blocks: u64, bfree: u64) -> (r: (u64, u64))
    ensures
        r.0 == spec_sat_mul(frsize, blocks),
        r.1 == spec_sat_mul(
            frsize,
            if bfree <= blocks {
                (blocks - bfree) as u64
            } else {
                0
            },
        ),
        r.1 <= r.0,
{
    let used_blocks: u64 = if bfree <= blocks {
        blocks - bfree
    } else {
        0
    };
    let total = sat_mul(frsize, blocks);
    let used = sat_mul(frsize, used_blocks);
    proof {
        assert(frsize * used_blocks <= frsize * blocks) by (nonlinear_arith)
            requires
                0 <= used_blocks <= blocks,
                frsize >= 0,
        ;
    }
    (total, used)
}

/// The used and total figures of a byte pair in the unit chosen for
/// the larger of them, in hundredths, with the used percentage in
/// hundredths (zero when the total is zero), each saturating at
/// `u64::MAX`.
pub open spec fn spec_usage_figures(used: u64, total: u64) -> (int, int, int) {
    let k = spec_best_unit(if used >= total {
        used
    } else {
        total
    });
    let uc = round_div(used as int * 100, pow1024(k) as int);
    let tc = round_div(total as int * 100, pow1024(k) as int);
    let pc = if total == 0 {
        0int
    } else {
        round_div(used as int * 10000, total as int)
    };
    (uc, tc, if pc > u64::MAX {
        u64::MAX as int
    } else {
        pc
    })
}

/// Scales a count of bytes into hundredths of the unit named by
/// exponent `k`.
fn unit_centi(x: u64, k: u64) -> (r: u64)
    requires
        k <= 5,
        k == 5 || x < pow1024((k + 1) as nat),
    ensures
        r == round_div(x as int * 100, pow1024(k as nat) as int),
{
    proof {
        lemma_pow1024_values();
    }
    let scale: u64 = if k == 5 {
        0x4000000000000
    } else if k == 4 {
        0x10000000000
    } else if k == 3 {
        0x40000000
    } else if k == 2 {
        0x100000
    } else if k == 1 {
        0x400
    } else {
        1
    };
    proof {
        if k == 5 {
            lemma_round_div_le(x as int * 100, scale as int, 1638500);
        } else {
            lemma_round_div_le(x as int * 100, scale as int, 102400);
        }
        vstd::arithmetic::div_mod::lemma_div_is_ordered(0, x as int * 100, scale as int);
    }
    let c = div_round_half_even((x as u128) * 100, scale as u128);
    c as u64
}

/// Renders a used/total byte pair in the unit fitting the larger one:
/// the two figures with two decimal places and the unit's suffix, and
/// the used percentage in hundredths.
pub fn human_readable_usage(used: u64, total: u64) -> (r: (Vec<u8>, Vec<u8>, u64))
    ensures
        ({
            let (uc, tc, pc) = spec_usage_figures(used, total);
            let k = spec_best_unit(if used >= total {
                used
            } else {
                total
            });
            &&& r.0@ == fixed2_rep(uc as nat) + seq![32u8] + spec_unit_suffix(k)
            &&& r.1@ == fixed2_rep(tc as nat) + seq![32u8] + spec_unit_suffix(k)
            &&& r.2 == pc
        }),
{
    let bigger = if used >= total {
        used
    } else {
        total
    };
    let k = best_unit_scale(bigger);
    proof {
        lemma_pow1024_values();
    }
    let uc = unit_centi(used, k);
    let tc = unit_centi(total, k);
    let suffix = unit_suffix(k);
    let mut us = fixed2(uc);
    us.push(32);
    push_bytes(&mut us, suffix.as_slice());
    let mut ts = fixed2(tc);
    ts.push(32);
    push_bytes(&mut ts, suffix.as_slice());
    let pc: u64 = if total == 0 {
        0
    } else {
        let p = div_round_half_even((used as u128) * 10000, total as u128);
        proof {
            vstd::arithmetic::div_mod::lemma_div_is_ordered(0, used as int * 10000, total as int);
            lemma_round_div_le(used as int * 10000, total as int, 0x100000000000000000000);
        }
        if p > u64::MAX as u128 {
            u64::MAX
        } else {
            p as u64
        }
    };
    proof {
        assert(us@ =~= fixed2_rep(spec_usage_figures(used, total).0 as nat) + seq![32u8]
            + spec_unit_suffix(spec_best_unit(bigger)));
        assert(ts@ =~= fixed2_rep(spec_usage_figures(used, total).1 as nat) + seq![32u8]
            + spec_unit_suffix(spec_best_unit(bigger)));
    }
    (us, ts, pc)
}

/// A mount chosen for the report: its path, and whether it was chosen
/// as a network filesystem rather than as the root.
pub struct MountSel {
    pub path: Vec<u8>,
    pub nfs: bool,
}

/// Whether a mount-table line is reported: its second field must be the
/// root path, or its third field a network-filesystem type.
pub open spec fn spec_sel_line(line: Seq<u8>) -> Option<(Seq<u8>, bool)> {
    let parts = spec_split_ws(line);
    if parts.len() < 3 {
        None
    } else if parts[1] == ascii_bytes("/"@) {
        Some((parts[1], false))
    } else if parts[2] == ascii_bytes("nfs"@) || parts[2] == ascii_bytes("nfs4"@) {
        Some((parts[1], true))
    } else {
        None
    }
}

pub open spec fn spec_select_mounts(ls: Seq<Seq<u8>>) -> Seq<(Seq<u8>, bool)>
    decreases ls.len(),
{
    if ls.len() == 0 {
        Seq::empty()
    } else {
        spec_select_mounts(ls.drop_last()) + (match spec_sel_line(ls.last()) {
            Some(p) => seq![p],
            None => Seq::empty(),
        })
    }
}

/// Picks out of the mount table's text the mounts the report covers:
/// every root mount and every network-filesystem mount, in table order.
pub fn select_mounts(content: &[u8]) -> (r: Vec<MountSel>)
    ensures
        r@.map_values(|m: MountSel| (m.path@, m.nfs)) == spec_select_mounts(spec_lines(content@)),
{
    let lines = split_lines(content);
    let ghost lv = lines@.map_values(|t: Vec<u8>| t@);
    proof {
        reveal_strlit("/");
        reveal_strlit("nfs");
        reveal_strlit("nfs4");
        assert(lv.take(0) =~= Seq::<Seq<u8>>::empty());
    }
    let root = ascii_lit("/");
    let nfs = ascii_lit("nfs");
    let nfs4 = ascii_lit("nfs4");
    let mut r: Vec<MountSel> = Vec::new();
    proof {
        assert(r@.map_values(|m: MountSel| (m.path@, m.nfs)) =~= Seq::<(Seq<u8>, bool)>::empty());
    }
    let mut i: usize = 0;
    while i < lines.len()
        invariant
            i <= lines@.len(),
            lv == lines@.map_values(|t: Vec<u8>| t@),
            root@ == ascii_bytes("/"@),
            nfs@ == ascii_bytes("nfs"@),
            nfs4@ == ascii_bytes("nfs4"@),
            r@.map_values(|m: MountSel| (m.path@, m.nfs)) == spec_select_mounts(lv.take(i as int)),
        decreases lines@.len() - i,
    {
        proof {
            assert(lv.take(i + 1).drop_last() =~= lv.take(i as int));
            assert(lv.take(i + 1).last() == lv[i as int]);
        }
        let mut parts = split_ws(lines[i].as_slice());
        if parts.len() >= 3 {
            let ghost pv = spec_split_ws(lv[i as int]);
            proof {
                assert(parts@.map_values(|t: Vec<u8>| t@)[1] == pv[1]);
                assert(parts@.map_values(|t: Vec<u8>| t@)[2] == pv[2]);
            }
            let chosen: Option<bool> = if bytes_eq(parts[1].as_slice(), root.as_slice()) {
                Some(false)
            } else if bytes_eq(parts[2].as_slice(), nfs.as_slice()) || bytes_eq(
                parts[2].as_slice(),
                nfs4.as_slice(),
            ) {
                Some(true)
            } else {
                None
            };
            if let Some(is_nfs) = chosen {
                let path = parts.remove(1);
                let m = MountSel { path, nfs: is_nfs };
                proof {
                    assert((r@.push(m)).map_values(|m: MountSel| (m.path@, m.nfs)) =~= r@.map_values(
                        |m: MountSel| (m.path@, m.nfs),
                    ).push((m.path@, m.nfs)));
                    assert(spec_select_mounts(lv.take(i + 1)) =~= spec_select_mounts(
                        lv.take(i as int),
                    ).push((m.path@, m.nfs)));
                }
                r.push(m);
            }
        }
        i = i + 1;
    }
    proof {
        assert(lv.take(lines@.len() as int) =~= lv);
    }
    r
}

/// One disk-usage report line (without its line break): the label, the
/// mount path, then used/total in the chosen unit and the percentage.
pub open spec fn spec_disk_usage_line(label: Seq<u8>, path: Seq<u8>, total: u64, used: u64) -> Seq<
    u8,
> {
    let (uc, tc, pc) = spec_usage_figures(used, total);
    let k = spec_best_unit(if used >= total {
        used
    } else {
        total
    });
    label + seq![32u8] + path + ascii_bytes(" => "@) + fixed2_rep(uc as nat) + seq![32u8]
        + spec_unit_suffix(k) + seq![47u8] + fixed2_rep(tc as nat) + seq![32u8] + spec_unit_suffix(
        k,
    ) + ascii_bytes(" ("@) + fixed2_rep(pc as nat) + ascii_bytes("%)"@)
}

/// Renders one disk-usage report line for a mount.
pub fn disk_usage_line(label: &[u8], path: &[u8], total: u64, used: u64) -> (r: Vec<u8>)
    ensures
        r@ == spec_disk_usage_line(label@, path@, total, used),
{
    let (us, ts, pc) = human_readable_usage(used, total);
    let mut r: Vec<u8> = Vec::new();
    push_bytes(&mut r, label);
    r.push(32);
    push_bytes(&mut r, path);
    proof {
        reveal_strlit(" => ");
        reveal_strlit(" (");
        reveal_strlit("%)");
    }
    let arrow = ascii_lit(" => ");
    push_bytes(&mut r, arrow.as_slice());
    push_bytes(&mut r, us.as_slice());
    r.push(47);
    push_bytes(&mut r, ts.as_slice());
    let open_p = ascii_lit(" (");
    push_bytes(&mut r, open_p.as_slice());
    let pcs = fixed2(pc);
    push_bytes(&mut r, pcs.as_slice());
    let close_p = ascii_lit("%)");
    push_bytes(&mut r, close_p.as_slice());
    proof {
        assert(r@ =~= spec_disk_usage_line(label@, path@, total, used));
    }
    r
}

} // verus!
