//! Operating-system identity: the distro-release one-liner, the
//! KEY=VALUE OS-release file, and the kernel-name fallback, tried in
//! that order; also the generic first-line reader they share.

use vstd::prelude::*;

use crate::bytes::{ascii_bytes, ascii_lit, find_byte, find_sub, spec_find_byte, spec_find_sub,
    spec_lines, spec_trim, split_lines, starts_with, trim};

verus! {

/// `s` with every leading and trailing double-quote removed.
pub open spec fn spec_strip_quotes_start(s: Seq<u8>) -> Seq<u8>
    decreases s.len(),
{
    if s.len() > 0 && s[0] == 34 {
        spec_strip_quotes_start(s.drop_first())
    } else {
        s
    }
}

pub open spec fn spec_strip_quotes_end(s: Seq<u8>) -> Seq<u8>
    decreases s.len(),
{
    if s.len() > 0 && s.last() == 34 {
        spec_strip_quotes_end(s.drop_last())
    } else {
        s
    }
}

pub open spec fn spec_strip_quotes(s: Seq<u8>) -> Seq<u8> {
    spec_strip_quotes_end(spec_strip_quotes_start(s))
}

proof fn lemma_strip_quotes_start_char(s: Seq<u8>, a: int)
    requires
        0 <= a <= s.len(),
        forall|k: int| 0 <= k < a ==> s[k] == 34,
        a == s.len() || s[a] != 34,
    ensures
        spec_strip_quotes_start(s) == s.skip(a),
    decreases a,
{
    if a == 0 {
        assert(s.skip(0) =~= s);
    } else {
        lemma_strip_quotes_start_char(s.drop_first(), a - 1);
        assert(s.drop_first().skip(a - 1) =~= s.skip(a));
    }
}

proof fn lemma_strip_quotes_end_char(s: Seq<u8>, b: int)
    requires
        0 <= b <= s.len(),
        forall|k: int| b <= k < s.len() ==> s[k] == 34,
        b == 0 || s[b - 1] != 34,
    ensures
        spec_strip_quotes_end(s) == s.take(b),
    decreases s.len() - b,
{
    if b == s.len() {
        assert(s.take(b) =~= s);
    } else {
        lemma_strip_quotes_end_char(s.drop_last(), b);
        assert(s.drop_last().take(b) =~= s.take(b));
    }
}

/// Strips the double-quotes around `s`.
pub fn strip_quotes(s: &[u8]) -> (r: Vec<u8>)
    ensures
        r@ == spec_strip_quotes(s@),
{
    let mut a: usize = 0;
    while a < s.len() && s[a] == 34
        invariant
            a <= s@.len(),
            forall|k: int| 0 <= k < a ==> s@[k] == 34,
        decreases s@.len() - a,
    {
        a = a + 1;
    }
    let mut b: usize = s.len();
    while b > a && s[b - 1] == 34
        invariant
            a <= b <= s@.len(),
            forall|k: int| b <= k < s@.len() ==> s@[k] == 34,
        decreases b,
    {
        b = b - 1;
    }
    let r = vstd::slice::slice_to_vec(vstd::slice::slice_subrange(s, a, b));
    proof {
        lemma_strip_quotes_start_char(s@, a as int);
        let t = s@.skip(a as int);
        if b == a {
            lemma_strip_quotes_end_char(t, 0);
        } else {
            lemma_strip_quotes_end_char(t, b - a);
        }
        assert(t.take(b - a) =~= s@.subrange(a as int, b as int));
    }
    r
}

/// The first line of a file's text, trimmed; nothing when the text is
/// empty.
pub open spec fn spec_first_line(content: Seq<u8>) -> Option<Seq<u8>> {
    if content.len() == 0 {
        None
    } else {
        match spec_find_byte(content, 10) {
            Some(p) => Some(spec_trim(content.take(p))),
            None => Some(spec_trim(content)),
        }
    }
}

/// Reads the first line of a file's text, trimmed.
pub fn first_line(content: &[u8]) -> (r: Option<Vec<u8>>)
    ensures
        match r {
            Some(v) => spec_first_line(content@) == Some(v@),
            None => spec_first_line(content@) is None,
        },
{
    if content.len() == 0 {
        return None;
    }
    let end = match find_byte(content, 10) {
        Some(p) => p,
        None => content.len(),
    };
    let head = vstd::slice::slice_subrange(content, 0, end);
    proof {
        assert(head@ =~= content@.take(end as int));
        if spec_find_byte(content@, 10) is None {
            assert(content@.take(content@.len() as int) =~= content@);
        }
    }
    Some(trim(head))
}

/// The name and version read from a distro-release one-liner: the
/// trimmed text split at its first `" release "`; nothing without that
/// marker.
pub open spec fn spec_parse_redhat_release(content: Seq<u8>) -> Option<(Seq<u8>, Seq<u8>)> {
    let line = spec_trim(content);
    match spec_find_sub(line, ascii_bytes(" release "@)) {
        Some(p) => Some((line.take(p), line.skip(p + ascii_bytes(" release "@).len()))),
        None => None,
    }
}

/// Splits a distro-release one-liner into name and version.
pub fn parse_redhat_release(content: &[u8]) -> (r: Option<(Vec<u8>, Vec<u8>)>)
    ensures
        match r {
            Some(p) => spec_parse_redhat_release(content@) == Some((p.0@, p.1@)),
            None => spec_parse_redhat_release(content@) is None,
        },
{
    let line = trim(content);
    proof {
        reveal_strlit(" release ");
    }
    let needle = ascii_lit(" release ");
    match find_sub(line.as_slice(), needle.as_slice()) {
        Some(p) => {
            let llen = line.len();
            proof {
                assert(p + needle@.len() <= line@.len());
            }
            let name = vstd::slice::slice_to_vec(vstd::slice::slice_subrange(line.as_slice(), 0, p));
            let start = p + needle.len();
            let ver = vstd::slice::slice_to_vec(
                vstd::slice::slice_subrange(line.as_slice(), start, llen),
            );
            proof {
                assert(name@ =~= line@.take(p as int));
                assert(ver@ =~= line@.skip(p + ascii_bytes(" release "@).len()));
            }
            Some((name, ver))
        },
        None => None,
    }
}

/// One line's effect on the two OS-release fields: a `NAME=` or
/// `VERSION_ID=` line overwrites its field with the trimmed, unquoted
/// remainder.
pub open spec fn spec_osrel_update(
    st: (Option<Seq<u8>>, Option<Seq<u8>>),
    line: Seq<u8>,
) -> (Option<Seq<u8>>, Option<Seq<u8>>) {
    let pn = ascii_bytes("NAME="@);
    let pv = ascii_bytes("VERSION_ID="@);
    if pn.len() <= line.len() && line.take(pn.len() as int) == pn {
        (Some(spec_strip_quotes(spec_trim(line.skip(pn.len() as int)))), st.1)
    } else if pv.len() <= line.len() && line.take(pv.len() as int) == pv {
        (st.0, Some(spec_strip_quotes(spec_trim(line.skip(pv.len() as int)))))
    } else {
        st
    }
}

pub open spec fn spec_osrel_fold(ls: Seq<Seq<u8>>) -> (Option<Seq<u8>>, Option<Seq<u8>>)
    decreases ls.len(),
{
    if ls.len() == 0 {
        (None, None)
    } else {
        spec_osrel_update(spec_osrel_fold(ls.drop_last()), ls.last())
    }
}

/// The name and version read from a KEY=VALUE OS-release file: both the
/// name and version keys must occur, the last occurrence of each
/// winning.
pub open spec fn spec_parse_os_release(content: Seq<u8>) -> Option<(Seq<u8>, Seq<u8>)> {
    match spec_osrel_fold(spec_lines(content)) {
        (Some(n), Some(v)) => Some((n, v)),
        _ => None,
    }
}

/// Extracts the name and version from a KEY=VALUE OS-release file.
pub fn parse_os_release(content: &[u8]) -> (r: Option<(Vec<u8>, Vec<u8>)>)
    ensures
        match r {
            Some(p) => spec_parse_os_release(content@) == Some((p.0@, p.1@)),
            None => spec_parse_os_release(content@) is None,
        },
{
    let lines = split_lines(content);
    let ghost lv = lines@.map_values(|t: Vec<u8>| t@);
    proof {
        reveal_strlit("NAME=");
        reveal_strlit("VERSION_ID=");
        assert(lv.take(0) =~= Seq::<Seq<u8>>::empty());
    }
    let pn = ascii_lit("NAME=");
    let pv = ascii_lit("VERSION_ID=");
    let mut name: Option<Vec<u8>> = None;
    let mut ver: Option<Vec<u8>> = None;
    let mut i: usize = 0;
    while i < lines.len()
        invariant
            i <= lines@.len(),
            lv == lines@.map_values(|t: Vec<u8>| t@),
            pn@ == ascii_bytes("NAME="@),
            pv@ == ascii_bytes("VERSION_ID="@),
            ({
                let st = spec_osrel_fold(lv.take(i as int));
                &&& (name is Some <==> st.0 is Some)
                &&& (name matches Some(n) ==> st.0 == Some(n@))
                &&& (ver is Some <==> st.1 is Some)
                &&& (ver matches Some(v) ==> st.1 == Some(v@))
            }),
        decreases lines@.len() - i,
    {
        let line = &lines[i];
        proof {
            assert(lv.take(i + 1).drop_last() =~= lv.take(i as int));
            assert(lv.take(i + 1).last() == lv[i as int]);
        }
        if starts_with(line.as_slice(), pn.as_slice()) {
            let rest = vstd::slice::slice_subrange(line.as_slice(), pn.len(), line.len());
            proof {
                assert(rest@ =~= lv[i as int].skip(pn@.len() as int));
            }
            let t = trim(rest);
            name = Some(strip_quotes(t.as_slice()));
        } else if starts_with(line.as_slice(), pv.as_slice()) {
            let rest = vstd::slice::slice_subrange(line.as_slice(), pv.len(), line.len());
            proof {
                assert(rest@ =~= lv[i as int].skip(pv@.len() as int));
            }
            let t = trim(rest);
            ver = Some(strip_quotes(t.as_slice()));
        }
        i = i + 1;
    }
    proof {
        assert(lv.take(lines@.len() as int) =~= lv);
    }
    match (name, ver) {
        (Some(n), Some(v)) => Some((n, v)),
        _ => None,
    }
}

/// The OS identity shown in the report, tried in order: the
/// distro-release one-liner, then the KEY=VALUE OS-release file, then a
/// fixed name with the kernel type's first line (or the fixed name
/// again) as version.
pub open spec fn spec_os_info(rh: Seq<u8>, osrel: Seq<u8>, ostype: Seq<u8>) -> (Seq<u8>, Seq<u8>) {
    match spec_parse_redhat_release(rh) {
        Some(p) => p,
        None => match spec_parse_os_release(osrel) {
            Some(p) => p,
            None => (
                ascii_bytes("Linux"@),
                match spec_first_line(ostype) {
                    Some(l) => l,
                    None => ascii_bytes("Linux"@),
                },
            ),
        },
    }
}

/// Chooses the OS name and version from the three identity sources,
/// first success winning. An unreadable source is given as empty text.
pub fn get_os_info(rh: &[u8], osrel: &[u8], ostype: &[u8]) -> (r: (Vec<u8>, Vec<u8>))
    ensures
        (r.0@, r.1@) == spec_os_info(rh@, osrel@, ostype@),
{
    if let Some(p) = parse_redhat_release(rh) {
        return p;
    }
    if let Some(p) = parse_os_release(osrel) {
        return p;
    }
    proof {
        reveal_strlit("Linux");
    }
    let name = ascii_lit("Linux");
    match first_line(ostype) {
        Some(l) => (name, l),
        None => {
            let v = ascii_lit("Linux");
            (name, v)
        },
    }
}

} // verus!
