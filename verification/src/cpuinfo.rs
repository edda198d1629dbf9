//! CPU facts: counting processor records in the CPU pseudo-file and
//! picking the first model-name value as the brand string.

use vstd::prelude::*;

use crate::bytes::{ascii_bytes, ascii_lit, bytes_eq, find_byte, spec_find_byte, spec_lines,
    spec_trim, split_lines, starts_with, trim};

verus! {

/// The brand named on a model-name line: the text between the first
/// and second colon of the line's tail (to the end when there is no
/// second colon), trimmed; nothing without a colon.
pub open spec fn spec_model_value(rest: Seq<u8>) -> Option<Seq<u8>> {
    match spec_find_byte(rest, 58) {
        Some(p) => {
            let after = rest.skip(p + 1);
            match spec_find_byte(after, 58) {
                Some(q) => Some(spec_trim(after.take(q))),
                None => Some(spec_trim(after)),
            }
        },
        None => None,
    }
}

/// One line's effect on (brand, core count): a processor line bumps the
/// count; a model-name line sets the brand when it is still the
/// placeholder.
pub open spec fn spec_cpu_update(st: (Seq<u8>, nat), line: Seq<u8>) -> (Seq<u8>, nat) {
    let pp = ascii_bytes("processor"@);
    let pm = ascii_bytes("model name"@);
    if pp.len() <= line.len() && line.take(pp.len() as int) == pp {
        (st.0, st.1 + 1)
    } else if pm.len() <= line.len() && line.take(pm.len() as int) == pm {
        match spec_model_value(line.skip(pm.len() as int)) {
            Some(b) => if st.0 == ascii_bytes("Unknown CPU"@) {
                (b, st.1)
            } else {
                st
            },
            None => st,
        }
    } else {
        st
    }
}

pub open spec fn spec_cpu_fold(ls: Seq<Seq<u8>>) -> (Seq<u8>, nat)
    decreases ls.len(),
{
    if ls.len() == 0 {
        (ascii_bytes("Unknown CPU"@), 0)
    } else {
        spec_cpu_update(spec_cpu_fold(ls.drop_last()), ls.last())
    }
}

/// The brand and core count read from the CPU pseudo-file's text.
pub open spec fn spec_parse_cpuinfo(content: Seq<u8>) -> (Seq<u8>, nat) {
    spec_cpu_fold(spec_lines(content))
}

/// Scans the CPU pseudo-file's text for the brand string and the core
/// count. Unreadable text reads as a placeholder brand and zero cores.
pub fn parse_cpuinfo(content: &[u8]) -> (r: (Vec<u8>, u64))
    ensures
        (r.0@, r.1 as nat) == spec_parse_cpuinfo(content@),
{
    let lines = split_lines(content);
    let ghost lv = lines@.map_values(|t: Vec<u8>| t@);
    proof {
        reveal_strlit("processor");
        reveal_strlit("model name");
        reveal_strlit("Unknown CPU");
        assert(lv.take(0) =~= Seq::<Seq<u8>>::empty());
    }
    let pp = ascii_lit("processor");
    let pm = ascii_lit("model name");
    let unknown = ascii_lit("Unknown CPU");
    let mut brand = ascii_lit("Unknown CPU");
    let mut count: u64 = 0;
    let mut i: usize = 0;
    while i < lines.len()
        invariant
            i <= lines@.len(),
            lv == lines@.map_values(|t: Vec<u8>| t@),
            pp@ == ascii_bytes("processor"@),
            pm@ == ascii_bytes("model name"@),
            unknown@ == ascii_bytes("Unknown CPU"@),
            count <= i,
            (brand@, count as nat) == spec_cpu_fold(lv.take(i as int)),
        decreases lines@.len() - i,
    {
        let line = &lines[i];
        proof {
            assert(lv.take(i + 1).drop_last() =~= lv.take(i as int));
            assert(lv.take(i + 1).last() == lv[i as int]);
        }
        if starts_with(line.as_slice(), pp.as_slice()) {
            count = count + 1;
        } else if starts_with(line.as_slice(), pm.as_slice()) {
            let rest = vstd::slice::slice_subrange(line.as_slice(), pm.len(), line.len());
            proof {
                assert(rest@ =~= lv[i as int].skip(pm@.len() as int));
            }
            if let Some(p) = find_byte(rest, 58) {
                let after = vstd::slice::slice_subrange(rest, p + 1, rest.len());
                proof {
                    assert(after@ =~= rest@.skip(p + 1));
                }
                let seg = match find_byte(after, 58) {
                    Some(q) => {
                        let s = vstd::slice::slice_subrange(after, 0, q);
                        proof {
                            assert(s@ =~= after@.take(q as int));
                        }
                        trim(s)
                    },
                    None => trim(after),
                };
                if bytes_eq(brand.as_slice(), unknown.as_slice()) {
                    brand = seg;
                }
            }
        }
        i = i + 1;
    }
    proof {
        assert(lv.take(lines@.len() as int) =~= lv);
    }
    (brand, count)
}

} // verus!
