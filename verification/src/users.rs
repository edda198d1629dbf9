//! Current-user facts: the logged-in-user count parsed out of the
//! "list logged-in users" utility's summary output, and the
//! user-name/origin-address fallback chains over environment values.

use vstd::prelude::*;

use crate::bytes::{ascii_bytes, ascii_lit, find_sub, spec_find_sub, spec_lines, spec_split_ws,
    spec_trim, split_lines, split_ws, trim};
use crate::num::{dec_val, is_u64_literal, parse_u64, unsigned_body};

verus! {

/// The count named after a line's user-count marker: the trimmed tail
/// read as a number, or zero when it is not one.
pub open spec fn spec_count_after_marker(line: Seq<u8>, p: int) -> u64 {
    let tail = spec_trim(line.skip(p + ascii_bytes("# users="@).len()));
    if is_u64_literal(tail) {
        dec_val(unsigned_body(tail)) as u64
    } else {
        0
    }
}

/// The logged-in-user count read from the utility's output: the first
/// line holding the user-count marker decides; no such line means zero.
pub open spec fn spec_login_count(ls: Seq<Seq<u8>>) -> u64
    decreases ls.len(),
{
    if ls.len() == 0 {
        0
    } else {
        match spec_find_sub(ls[0], ascii_bytes("# users="@)) {
            Some(p) => spec_count_after_marker(ls[0], p),
            None => spec_login_count(ls.drop_first()),
        }
    }
}

/// Parses the "list logged-in users" utility's output for the
/// user count; any failure reads as zero.
pub fn parse_login_count(output: &[u8]) -> (r: u64)
    ensures
        r == spec_login_count(spec_lines(output@)),
{
    let lines = split_lines(output);
    let ghost lv = lines@.map_values(|t: Vec<u8>| t@);
    proof {
        reveal_strlit("# users=");
        assert(lv.skip(0) =~= lv);
    }
    let marker = ascii_lit("# users=");
    let mut i: usize = 0;
    while i < lines.len()
        invariant
            i <= lines@.len(),
            lv == lines@.map_values(|t: Vec<u8>| t@),
            lv == spec_lines(output@),
            marker@ == ascii_bytes("# users="@),
            spec_login_count(lv) == spec_login_count(lv.skip(i as int)),
        decreases lines@.len() - i,
    {
        let line = &lines[i];
        proof {
            assert(lv.skip(i as int)[0] == lv[i as int]);
            assert(lv.skip(i as int).drop_first() =~= lv.skip(i + 1));
        }
        if let Some(p) = find_sub(line.as_slice(), marker.as_slice()) {
            let tail = vstd::slice::slice_subrange(line.as_slice(), p + marker.len(), line.len());
            proof {
                assert(tail@ =~= lv[i as int].skip(p + ascii_bytes("# users="@).len()));
            }
            let t = trim(tail);
            return match parse_u64(t.as_slice()) {
                Some(v) => v,
                None => 0,
            };
        }
        i = i + 1;
    }
    0
}

/// The view of an optional byte string.
pub open spec fn opt_view(o: Option<Vec<u8>>) -> Option<Seq<u8>> {
    match o {
        Some(v) => Some(v@),
        None => None,
    }
}

/// The displayed user name: the primary identity value, else the legacy
/// one, else a placeholder.
pub open spec fn spec_user_name(user: Option<Seq<u8>>, logname: Option<Seq<u8>>) -> Seq<u8> {
    match user {
        Some(u) => u,
        None => match logname {
            Some(l) => l,
            None => ascii_bytes("unknown"@),
        },
    }
}

/// The displayed origin address: the first field of the SSH session
/// value, else a placeholder.
pub open spec fn spec_from_ip(ssh: Option<Seq<u8>>) -> Seq<u8> {
    let s = match ssh {
        Some(v) => v,
        None => Seq::empty(),
    };
    let toks = spec_split_ws(s);
    if toks.len() > 0 {
        toks[0]
    } else {
        ascii_bytes("unknown"@)
    }
}

/// Resolves the displayed user name and origin address from the three
/// environment values, absent ones falling back as documented.
pub fn get_current_user_and_ip(
    user: Option<Vec<u8>>,
    logname: Option<Vec<u8>>,
    ssh: Option<Vec<u8>>,
) -> (r: (Vec<u8>, Vec<u8>))
    ensures
        r.0@ == spec_user_name(opt_view(user), opt_view(logname)),
        r.1@ == spec_from_ip(opt_view(ssh)),
{
    proof {
        reveal_strlit("unknown");
    }
    let name = match user {
        Some(u) => u,
        None => match logname {
            Some(l) => l,
            None => ascii_lit("unknown"),
        },
    };
    let s: Vec<u8> = match ssh {
        Some(v) => v,
        None => {
            let e: Vec<u8> = Vec::new();
            proof {
                assert(e@ =~= Seq::<u8>::empty());
            }
            e
        },
    };
    let mut toks = split_ws(s.as_slice());
    let ip = if toks.len() > 0 {
        proof {
            assert(toks@.map_values(|t: Vec<u8>| t@)[0] == toks@[0]@);
        }
        let first = toks.remove(0);
        first
    } else {
        ascii_lit("unknown")
    };
    (name, ip)
}

} // verus!
