//! The report: a fixed-order list of labeled facts, aligned on the
//! longest label, wrapped by an optional banner, a welcome header,
//! disk-usage lines, an optional verbose line and a farewell.

use vstd::prelude::*;

use crate::bytes::{ascii_bytes, ascii_lit, push_bytes, spec_trim, trim};
use crate::config::MotdConfig;
use crate::meminfo::{spec_pct_centi, spec_used_kb, to_gb_and_ratio};
use crate::num::{dec_rep, dec_rep2, fixed2, fixed2_rep, round_div, u64_to_dec, u64_to_dec2};

verus! {

/// Everything gathered about the host, ready to render: strings are
/// display-ready, counters raw. An absent optional fact renders as its
/// placeholder.
pub struct HostFacts {
    pub now: Vec<u8>,
    pub uptime: Option<Vec<u8>>,
    pub os_name: Vec<u8>,
    pub os_version: Vec<u8>,
    pub kernel: Option<Vec<u8>>,
    pub hostname: Option<Vec<u8>>,
    pub cpu_brand: Vec<u8>,
    pub cpu_count: u64,
    pub mem_total_kb: u64,
    pub mem_free_kb: u64,
    pub swap_total_kb: u64,
    pub swap_free_kb: u64,
    pub user: Vec<u8>,
    pub from_ip: Vec<u8>,
    pub login_count: u64,
    pub disk_lines: Vec<Vec<u8>>,
}

/// `n` spaces.
pub open spec fn spec_spaces(n: nat) -> Seq<u8> {
    Seq::new(n, |i: int| 32u8)
}

/// Writes `n` spaces.
fn spaces(n: usize) -> (r: Vec<u8>)
    ensures
        r@ == spec_spaces(n as nat),
{
    let mut r: Vec<u8> = Vec::new();
    let mut i: usize = 0;
    while i < n
        invariant
            i <= n,
            r@ == spec_spaces(i as nat),
        decreases n - i,
    {
        r.push(32);
        proof {
            assert(r@ =~= spec_spaces((i + 1) as nat));
        }
        i = i + 1;
    }
    r
}

/// The longest label among the items.
pub open spec fn spec_max_key_len(items: Seq<(Seq<u8>, Seq<u8>)>) -> nat
    decreases items.len(),
{
    if items.len() == 0 {
        0
    } else {
        let rest = spec_max_key_len(items.drop_last());
        if items.last().0.len() > rest {
            items.last().0.len()
        } else {
            rest
        }
    }
}

/// One aligned line: the label padded to the common width, a space,
/// the value, a line break.
pub open spec fn spec_aligned_line(kv: (Seq<u8>, Seq<u8>), w: nat) -> Seq<u8> {
    let key = if kv.0.len() >= w {
        kv.0
    } else {
        kv.0 + spec_spaces((w - kv.0.len()) as nat)
    };
    key + seq![32u8] + kv.1 + seq![10u8]
}

/// The aligned block for the items at width `w`.
pub open spec fn spec_aligned_at(items: Seq<(Seq<u8>, Seq<u8>)>, w: nat) -> Seq<u8>
    decreases items.len(),
{
    if items.len() == 0 {
        Seq::empty()
    } else {
        spec_aligned_line(items[0], w) + spec_aligned_at(items.drop_first(), w)
    }
}

/// The aligned block: every item on its own line, labels padded to the
/// longest one.
pub open spec fn spec_aligned(items: Seq<(Seq<u8>, Seq<u8>)>) -> Seq<u8> {
    spec_aligned_at(items, spec_max_key_len(items))
}

/// The view of an item list.
pub open spec fn items_view(items: Seq<(Vec<u8>, Vec<u8>)>) -> Seq<(Seq<u8>, Seq<u8>)> {
    items.map_values(|p: (Vec<u8>, Vec<u8>)| (p.0@, p.1@))
}

/// Renders label/value pairs in aligned form, labels left-justified to
/// the longest label's width.
pub fn render_aligned(items: &Vec<(Vec<u8>, Vec<u8>)>) -> (r: Vec<u8>)
    ensures
        r@ == spec_aligned(items_view(items@)),
{
    let ghost iv = items_view(items@);
    let mut w: usize = 0;
    let mut i: usize = 0;
    proof {
        assert(iv.take(0) =~= Seq::<(Seq<u8>, Seq<u8>)>::empty());
    }
    while i < items.len()
        invariant
            i <= items@.len(),
            iv == items_view(items@),
            w == spec_max_key_len(iv.take(i as int)),
        decreases items@.len() - i,
    {
        proof {
            assert(iv.take(i + 1).drop_last() =~= iv.take(i as int));
            assert(iv.take(i + 1).last() == iv[i as int]);
        }
        if items[i].0.len() > w {
            w = items[i].0.len();
        }
        i = i + 1;
    }
    proof {
        assert(iv.take(items@.len() as int) =~= iv);
    }
    let mut out: Vec<u8> = Vec::new();
    let mut i: usize = 0;
    proof {
        assert(iv.skip(0) =~= iv);
        assert(out@ + spec_aligned_at(iv, w as nat) =~= spec_aligned_at(iv, w as nat));
    }
    while i < items.len()
        invariant
            i <= items@.len(),
            iv == items_view(items@),
            spec_aligned_at(iv, w as nat) == out@ + spec_aligned_at(iv.skip(i as int), w as nat),
        decreases items@.len() - i,
    {
        proof {
            assert(iv.skip(i as int)[0] == iv[i as int]);
            assert(iv.skip(i as int).drop_first() =~= iv.skip(i + 1));
        }
        let key = &items[i].0;
        push_bytes(&mut out, key.as_slice());
        if key.len() < w {
            let pad = spaces(w - key.len());
            push_bytes(&mut out, pad.as_slice());
        }
        out.push(32);
        push_bytes(&mut out, items[i].1.as_slice());
        out.push(10);
        i = i + 1;
    }
    proof {
        assert(iv.skip(items@.len() as int) =~= Seq::<(Seq<u8>, Seq<u8>)>::empty());
        assert(out@ + Seq::<u8>::empty() =~= out@);
    }
    out
}

/// A memory or swap figure: used and total in hundredths of a
/// gigabyte, then the used percentage.
pub open spec fn spec_mem_value(total_kb: u64, free_kb: u64) -> Seq<u8> {
    let used = spec_used_kb(total_kb, free_kb);
    fixed2_rep(round_div(used as int * 100, 0x100000) as nat) + seq![47u8] + fixed2_rep(
        round_div(total_kb as int * 100, 0x100000) as nat,
    ) + ascii_bytes(" GB ("@) + fixed2_rep(spec_pct_centi(used, total_kb) as nat) + ascii_bytes(
        "%)"@,
    )
}

/// Renders a memory or swap figure.
fn mem_value(total_kb: u64, free_kb: u64) -> (r: Vec<u8>)
    ensures
        r@ == spec_mem_value(total_kb, free_kb),
{
    let (uc, tc, pc) = to_gb_and_ratio(total_kb, free_kb);
    let mut r = fixed2(uc);
    r.push(47);
    let t = fixed2(tc);
    push_bytes(&mut r, t.as_slice());
    proof {
        reveal_strlit(" GB (");
        reveal_strlit("%)");
    }
    let gb = ascii_lit(" GB (");
    push_bytes(&mut r, gb.as_slice());
    let p = fixed2(pc);
    push_bytes(&mut r, p.as_slice());
    let close = ascii_lit("%)");
    push_bytes(&mut r, close.as_slice());
    proof {
        assert(r@ =~= spec_mem_value(total_kb, free_kb));
    }
    r
}

/// An optional fact, or its placeholder.
pub open spec fn spec_or_else(o: Option<Vec<u8>>, fallback: Seq<u8>) -> Seq<u8> {
    match o {
        Some(v) => v@,
        None => fallback,
    }
}

/// The labeled fact list, in display order.
pub open spec fn spec_items(f: HostFacts) -> Seq<(Seq<u8>, Seq<u8>)> {
    seq![
        (ascii_bytes("Current time (TZ):"@), f.now@),
        (ascii_bytes("System uptime:"@), spec_or_else(f.uptime, ascii_bytes("unknown"@))),
        (ascii_bytes("Operating system:"@), f.os_name@ + seq![32u8] + f.os_version@),
        (ascii_bytes("Kernel version:"@), spec_or_else(f.kernel, ascii_bytes("Unknown kernel"@))),
        (ascii_bytes("Host name:"@), spec_or_else(f.hostname, ascii_bytes("Unknown host"@))),
        (
            ascii_bytes("CPU:"@),
            f.cpu_brand@ + ascii_bytes(" ("@) + dec_rep(f.cpu_count as nat) + ascii_bytes(
                " cores)"@,
            ),
        ),
        (ascii_bytes("Memory used/total:"@), spec_mem_value(f.mem_total_kb, f.mem_free_kb)),
        (ascii_bytes("Swap used/total:"@), spec_mem_value(f.swap_total_kb, f.swap_free_kb)),
        (
            ascii_bytes("Current user:"@),
            f.user@ + ascii_bytes(" (from "@) + f.from_ip@ + seq![41u8],
        ),
        (ascii_bytes("Login user count:"@), dec_rep(f.login_count as nat)),
    ]
}

/// Builds the labeled fact list.
fn build_items(f: &HostFacts) -> (r: Vec<(Vec<u8>, Vec<u8>)>)
    ensures
        items_view(r@) == spec_items(*f),
{
    proof {
        reveal_strlit("Current time (TZ):");
        reveal_strlit("System uptime:");
        reveal_strlit("Operating system:");
        reveal_strlit("Kernel version:");
        reveal_strlit("Host name:");
        reveal_strlit("CPU:");
        reveal_strlit("Memory used/total:");
        reveal_strlit("Swap used/total:");
        reveal_strlit("Current user:");
        reveal_strlit("Login user count:");
        reveal_strlit("unknown");
        reveal_strlit("Unknown kernel");
        reveal_strlit("Unknown host");
        reveal_strlit(" (");
        reveal_strlit(" cores)");
        reveal_strlit(" (from ");
    }
    let mut items: Vec<(Vec<u8>, Vec<u8>)> = Vec::new();
    let now = vstd::slice::slice_to_vec(f.now.as_slice());
    items.push((ascii_lit("Current time (TZ):"), now));
    let uptime = match &f.uptime {
        Some(u) => vstd::slice::slice_to_vec(u.as_slice()),
        None => ascii_lit("unknown"),
    };
    items.push((ascii_lit("System uptime:"), uptime));
    let mut os_val = vstd::slice::slice_to_vec(f.os_name.as_slice());
    os_val.push(32);
    push_bytes(&mut os_val, f.os_version.as_slice());
    items.push((ascii_lit("Operating system:"), os_val));
    let kernel = match &f.kernel {
        Some(k) => vstd::slice::slice_to_vec(k.as_slice()),
        None => ascii_lit("Unknown kernel"),
    };
    items.push((ascii_lit("Kernel version:"), kernel));
    let host = match &f.hostname {
        Some(h) => vstd::slice::slice_to_vec(h.as_slice()),
        None => ascii_lit("Unknown host"),
    };
    items.push((ascii_lit("Host name:"), host));
    let mut cpu_val = vstd::slice::slice_to_vec(f.cpu_brand.as_slice());
    let open_p = ascii_lit(" (");
    push_bytes(&mut cpu_val, open_p.as_slice());
    let count = u64_to_dec(f.cpu_count);
    push_bytes(&mut cpu_val, count.as_slice());
    let cores = ascii_lit(" cores)");
    push_bytes(&mut cpu_val, cores.as_slice());
    items.push((ascii_lit("CPU:"), cpu_val));
    items.push((ascii_lit("Memory used/total:"), mem_value(f.mem_total_kb, f.mem_free_kb)));
    items.push((ascii_lit("Swap used/total:"), mem_value(f.swap_total_kb, f.swap_free_kb)));
    let mut user_val = vstd::slice::slice_to_vec(f.user.as_slice());
    let from = ascii_lit(" (from ");
    push_bytes(&mut user_val, from.as_slice());
    push_bytes(&mut user_val, f.from_ip.as_slice());
    user_val.push(41);
    items.push((ascii_lit("Current user:"), user_val));
    items.push((ascii_lit("Login user count:"), u64_to_dec(f.login_count)));
    proof {
        assert(items_view(items@) =~~= spec_items(*f));
    }
    items
}

/// The banner part: blank line, banner, two line breaks; nothing when
/// no banner is configured.
pub open spec fn spec_banner(art: Option<Seq<u8>>) -> Seq<u8> {
    match art {
        Some(a) => seq![10u8] + a + seq![10u8, 10u8],
        None => Seq::empty(),
    }
}

/// The disk block: each line followed by a line break.
pub open spec fn spec_disk_block(dl: Seq<Seq<u8>>) -> Seq<u8>
    decreases dl.len(),
{
    if dl.len() == 0 {
        Seq::empty()
    } else {
        spec_disk_block(dl.drop_last()) + dl.last() + seq![10u8]
    }
}

/// The farewell shown: the configured text when it holds more than
/// whitespace, else the fixed default.
pub open spec fn spec_farewell(fw: Option<Seq<u8>>) -> Seq<u8> {
    match fw {
        Some(s) => if spec_trim(s).len() > 0 {
            s
        } else {
            ascii_bytes("Have a nice day!"@)
        },
        None => ascii_bytes("Have a nice day!"@),
    }
}

/// The verbose placeholder part.
pub open spec fn spec_verbose(verbose: bool) -> Seq<u8> {
    if verbose {
        ascii_bytes("Verbose mode: put extra info here."@) + seq![10u8]
    } else {
        Seq::empty()
    }
}

/// The whole report for a configuration and a host snapshot: banner,
/// welcome header, the aligned fact list, disk lines, the verbose
/// line, a blank line and the farewell.
pub open spec fn spec_render(
    cfg: (Option<Seq<u8>>, Option<Seq<u8>>),
    verbose: bool,
    f: HostFacts,
) -> Seq<u8> {
    spec_banner(cfg.0) + ascii_bytes("Welcome!"@) + seq![10u8, 10u8] + spec_aligned(spec_items(f))
        + spec_disk_block(f.disk_lines@.map_values(|l: Vec<u8>| l@)) + spec_verbose(verbose)
        + seq![10u8] + spec_farewell(cfg.1) + seq![10u8]
}

/// Renders the whole report.
pub fn render_report(cfg: &MotdConfig, verbose: bool, f: &HostFacts) -> (r: Vec<u8>)
    ensures
        r@ == spec_render(cfg@, verbose, *f),
{
    let mut out: Vec<u8> = Vec::new();
    if let Some(art) = &cfg.ascii_art {
        out.push(10);
        push_bytes(&mut out, art.as_slice());
        out.push(10);
        out.push(10);
    }
    proof {
        reveal_strlit("Welcome!");
        reveal_strlit("Verbose mode: put extra info here.");
        reveal_strlit("Have a nice day!");
    }
    let welcome = ascii_lit("Welcome!");
    push_bytes(&mut out, welcome.as_slice());
    out.push(10);
    out.push(10);
    let items = build_items(f);
    let block = render_aligned(&items);
    push_bytes(&mut out, block.as_slice());
    let ghost dl = f.disk_lines@.map_values(|l: Vec<u8>| l@);
    let ghost out_before_disk = out@;
    let mut i: usize = 0;
    proof {
        assert(dl.take(0) =~= Seq::<Seq<u8>>::empty());
    }
    while i < f.disk_lines.len()
        invariant
            i <= f.disk_lines@.len(),
            dl == f.disk_lines@.map_values(|l: Vec<u8>| l@),
            out@ == out_before_disk + spec_disk_block(dl.take(i as int)),
        decreases f.disk_lines@.len() - i,
    {
        proof {
            assert(dl.take(i + 1).drop_last() =~= dl.take(i as int));
            assert(dl.take(i + 1).last() == dl[i as int]);
        }
        push_bytes(&mut out, f.disk_lines[i].as_slice());
        out.push(10);
        i = i + 1;
    }
    proof {
        assert(dl.take(f.disk_lines@.len() as int) =~= dl);
    }
    if verbose {
        let v = ascii_lit("Verbose mode: put extra info here.");
        push_bytes(&mut out, v.as_slice());
        out.push(10);
    }
    out.push(10);
    match &cfg.farewell {
        Some(s) => {
            let t = trim(s.as_slice());
            if t.len() > 0 {
                push_bytes(&mut out, s.as_slice());
            } else {
                let d = ascii_lit("Have a nice day!");
                push_bytes(&mut out, d.as_slice());
            }
        },
        None => {
            let d = ascii_lit("Have a nice day!");
            push_bytes(&mut out, d.as_slice());
        },
    }
    out.push(10);
    proof {
        assert(out@ =~= spec_render(cfg@, verbose, *f));
    }
    out
}

proof fn lemma_max_key_len_eq(a: Seq<(Seq<u8>, Seq<u8>)>, b: Seq<(Seq<u8>, Seq<u8>)>)
    requires
        a.len() == b.len(),
        forall|k: int| 0 <= k < a.len() ==> a[k].0 == b[k].0,
    ensures
        spec_max_key_len(a) == spec_max_key_len(b),
    decreases a.len(),
{
    if a.len() > 0 {
        lemma_max_key_len_eq(a.drop_last(), b.drop_last());
    }
}

/// Rendering is a function of the configuration and snapshot alone,
/// and the clock enters it only through the time line: for two
/// snapshots that differ in nothing but the clock string, the aligned
/// block opens with the two time lines at one common width, everything
/// after that line is byte-identical, and every part of the report
/// around the aligned block is byte-identical too.
pub proof fn lemma_render_differs_only_in_time_line(
    cfg: (Option<Seq<u8>>, Option<Seq<u8>>),
    verbose: bool,
    f1: HostFacts,
    f2: HostFacts,
)
    requires
        f1.uptime == f2.uptime,
        f1.os_name == f2.os_name,
        f1.os_version == f2.os_version,
        f1.kernel == f2.kernel,
        f1.hostname == f2.hostname,
        f1.cpu_brand == f2.cpu_brand,
        f1.cpu_count == f2.cpu_count,
        f1.mem_total_kb == f2.mem_total_kb,
        f1.mem_free_kb == f2.mem_free_kb,
        f1.swap_total_kb == f2.swap_total_kb,
        f1.swap_free_kb == f2.swap_free_kb,
        f1.user == f2.user,
        f1.from_ip == f2.from_ip,
        f1.login_count == f2.login_count,
        f1.disk_lines == f2.disk_lines,
    ensures
        spec_max_key_len(spec_items(f1)) == spec_max_key_len(spec_items(f2)),
        spec_aligned(spec_items(f1)) == spec_aligned_line(
            (ascii_bytes("Current time (TZ):"@), f1.now@),
            spec_max_key_len(spec_items(f1)),
        ) + spec_aligned_at(spec_items(f1).drop_first(), spec_max_key_len(spec_items(f1))),
        spec_aligned(spec_items(f2)) == spec_aligned_line(
            (ascii_bytes("Current time (TZ):"@), f2.now@),
            spec_max_key_len(spec_items(f1)),
        ) + spec_aligned_at(spec_items(f1).drop_first(), spec_max_key_len(spec_items(f1))),
        spec_render(cfg, verbose, f1) == spec_banner(cfg.0) + ascii_bytes("Welcome!"@) + seq![
            10u8,
            10u8,
        ] + spec_aligned(spec_items(f1)) + spec_disk_block(
            f1.disk_lines@.map_values(|l: Vec<u8>| l@),
        ) + spec_verbose(verbose) + seq![10u8] + spec_farewell(cfg.1) + seq![10u8],
        spec_render(cfg, verbose, f2) == spec_banner(cfg.0) + ascii_bytes("Welcome!"@) + seq![
            10u8,
            10u8,
        ] + spec_aligned(spec_items(f2)) + spec_disk_block(
            f1.disk_lines@.map_values(|l: Vec<u8>| l@),
        ) + spec_verbose(verbose) + seq![10u8] + spec_farewell(cfg.1) + seq![10u8],
{
    let i1 = spec_items(f1);
    let i2 = spec_items(f2);
    assert(forall|k: int| 0 <= k < i1.len() ==> i1[k].0 == i2[k].0);
    lemma_max_key_len_eq(i1, i2);
    let w = spec_max_key_len(i1);
    assert(i1.drop_first() =~~= i2.drop_first());
    assert(spec_aligned_at(i1, w) == spec_aligned_line(i1[0], w) + spec_aligned_at(
        i1.drop_first(),
        w,
    ));
    assert(spec_aligned_at(i2, w) == spec_aligned_line(i2[0], w) + spec_aligned_at(
        i2.drop_first(),
        w,
    ));
}

/// The decimal representation of `n`, zero-padded to at least four
/// digits.
pub open spec fn dec_rep4(n: nat) -> Seq<u8> {
    if n < 10 {
        seq![48u8, 48u8, 48u8] + dec_rep(n)
    } else if n < 100 {
        seq![48u8, 48u8] + dec_rep(n)
    } else if n < 1000 {
        seq![48u8] + dec_rep(n)
    } else {
        dec_rep(n)
    }
}

/// The clock line's text: date, time and UTC offset.
pub open spec fn spec_timestamp(
    year: u64,
    month: u64,
    day: u64,
    hour: u64,
    minute: u64,
    second: u64,
    off_neg: bool,
    off_hour: u64,
    off_minute: u64,
) -> Seq<u8> {
    dec_rep4(year as nat) + seq![45u8] + dec_rep2(month as nat) + seq![45u8] + dec_rep2(day as nat)
        + seq![32u8] + dec_rep2(hour as nat) + seq![58u8] + dec_rep2(minute as nat) + seq![58u8]
        + dec_rep2(second as nat) + seq![32u8] + seq![if off_neg {
        45u8
    } else {
        43u8
    }] + dec_rep2(off_hour as nat) + seq![58u8] + dec_rep2(off_minute as nat)
}

/// Writes the wall-clock timestamp with its UTC offset, fields
/// zero-padded.
pub fn timestamp_string(
    year: u64,
    month: u64,
    day: u64,
    hour: u64,
    minute: u64,
    second: u64,
    off_neg: bool,
    off_hour: u64,
    off_minute: u64,
) -> (r: Vec<u8>)
    ensures
        r@ == spec_timestamp(year, month, day, hour, minute, second, off_neg, off_hour, off_minute),
{
    let mut r: Vec<u8> = Vec::new();
    if year < 10 {
        r.push(48);
        r.push(48);
        r.push(48);
    } else if year < 100 {
        r.push(48);
        r.push(48);
    } else if year < 1000 {
        r.push(48);
    }
    let y = u64_to_dec(year);
    push_bytes(&mut r, y.as_slice());
    r.push(45);
    let mo = u64_to_dec2(month);
    push_bytes(&mut r, mo.as_slice());
    r.push(45);
    let d = u64_to_dec2(day);
    push_bytes(&mut r, d.as_slice());
    r.push(32);
    let h = u64_to_dec2(hour);
    push_bytes(&mut r, h.as_slice());
    r.push(58);
    let mi = u64_to_dec2(minute);
    push_bytes(&mut r, mi.as_slice());
    r.push(58);
    let s = u64_to_dec2(second);
    push_bytes(&mut r, s.as_slice());
    r.push(32);
    r.push(if off_neg {
        45
    } else {
        43
    });
    let oh = u64_to_dec2(off_hour);
    push_bytes(&mut r, oh.as_slice());
    r.push(58);
    let om = u64_to_dec2(off_minute);
    push_bytes(&mut r, om.as_slice());
    proof {
        assert(r@ =~= spec_timestamp(
            year,
            month,
            day,
            hour,
            minute,
            second,
            off_neg,
            off_hour,
            off_minute,
        ));
    }
    r
}

} // verus!
