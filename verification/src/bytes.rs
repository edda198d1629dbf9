//! Byte-sequence utilities shared by the parsers and formatters:
//! whitespace splitting, line splitting, trimming, substring search,
//! and ASCII literal handling.

use vstd::prelude::*;

verus! {

/// ASCII whitespace, as recognized by the parsers in this crate.
pub open spec fn is_ws(b: u8) -> bool {
    b == 32 || b == 9 || b == 10 || b == 13 || b == 11 || b == 12
}

/// The bytes of an ASCII character sequence, one byte per character.
pub open spec fn ascii_bytes(s: Seq<char>) -> Seq<u8> {
    Seq::new(s.len(), |i: int| s[i] as u8)
}

/// Executable check matching `is_ws`.
pub fn byte_is_ws(b: u8) -> (r: bool)
    ensures
        r == is_ws(b),
{
    b == 32 || b == 9 || b == 10 || b == 13 || b == 11 || b == 12
}

/// The bytes of an ASCII string literal.
pub fn ascii_lit(s: &str) -> (r: Vec<u8>)
    requires
        s.is_ascii(),
    ensures
        r@ == ascii_bytes(s@),
{
    broadcast use vstd::string::is_ascii_spec_bytes;

    let r = s.as_bytes_vec();
    assert(r@ =~= ascii_bytes(s@));
    r
}

/// Appends all of `src` to `dst`.
pub fn push_bytes(dst: &mut Vec<u8>, src: &[u8])
    ensures
        final(dst)@ == old(dst)@ + src@,
{
    let mut i: usize = 0;
    while i < src.len()
        invariant
            i <= src@.len(),
            dst@ == old(dst)@ + src@.take(i as int),
        decreases src@.len() - i,
    {
        dst.push(src[i]);
        assert(src@.take(i + 1) =~= src@.take(i as int).push(src@[i as int]));
        i = i + 1;
    }
    assert(src@.take(src@.len() as int) =~= src@);
}

/// Whether two byte slices hold the same bytes.
pub fn bytes_eq(a: &[u8], b: &[u8]) -> (r: bool)
    ensures
        r == (a@ == b@),
{
    if a.len() != b.len() {
        assert(a@ != b@);
        return false;
    }
    let mut i: usize = 0;
    while i < a.len()
        invariant
            i <= a@.len(),
            a@.len() == b@.len(),
            forall|j: int| 0 <= j < i ==> a@[j] == b@[j],
        decreases a@.len() - i,
    {
        if a[i] != b[i] {
            return false;
        }
        i = i + 1;
    }
    assert(a@ =~= b@);
    true
}

/// Length of the longest prefix of `s` free of whitespace.
pub open spec fn nonws_prefix_len(s: Seq<u8>) -> nat
    decreases s.len(),
{
    if s.len() == 0 || is_ws(s[0]) {
        0
    } else {
        (1 + nonws_prefix_len(s.drop_first())) as nat
    }
}

/// Length of the longest prefix of `s` free of line feeds.
pub open spec fn nl_prefix_len(s: Seq<u8>) -> nat
    decreases s.len(),
{
    if s.len() == 0 || s[0] == 10 {
        0
    } else {
        (1 + nl_prefix_len(s.drop_first())) as nat
    }
}

pub proof fn lemma_nonws_prefix_char(s: Seq<u8>, i: int)
    requires
        0 <= i <= s.len(),
        forall|k: int| 0 <= k < i ==> !is_ws(s[k]),
        i == s.len() || is_ws(s[i]),
    ensures
        nonws_prefix_len(s) == i,
    decreases i,
{
    if i == 0 {
    } else {
        assert(!is_ws(s[0]));
        lemma_nonws_prefix_char(s.drop_first(), i - 1);
    }
}

pub proof fn lemma_nl_prefix_char(s: Seq<u8>, i: int)
    requires
        0 <= i <= s.len(),
        forall|k: int| 0 <= k < i ==> s[k] != 10,
        i == s.len() || s[i] == 10,
    ensures
        nl_prefix_len(s) == i,
    decreases i,
{
    if i == 0 {
    } else {
        lemma_nl_prefix_char(s.drop_first(), i - 1);
    }
}

pub proof fn lemma_nonws_prefix_le(s: Seq<u8>)
    ensures
        nonws_prefix_len(s) <= s.len(),
    decreases s.len(),
{
    if s.len() > 0 && !is_ws(s[0]) {
        lemma_nonws_prefix_le(s.drop_first());
    }
}

/// The maximal runs of non-whitespace bytes in `s`, in order.
pub open spec fn spec_split_ws(s: Seq<u8>) -> Seq<Seq<u8>>
    decreases s.len(),
{
    if s.len() == 0 {
        Seq::empty()
    } else if is_ws(s[0]) {
        spec_split_ws(s.drop_first())
    } else {
        let n = if nonws_prefix_len(s) <= s.len() {
            nonws_prefix_len(s) as int
        } else {
            s.len() as int
        };
        seq![s.take(n)] + spec_split_ws(s.skip(n))
    }
}

pub proof fn lemma_split_ws_ws(s: Seq<u8>)
    requires
        s.len() > 0,
        is_ws(s[0]),
    ensures
        spec_split_ws(s) == spec_split_ws(s.skip(1)),
{
    assert(s.drop_first() =~= s.skip(1));
}

pub proof fn lemma_split_ws_step(s: Seq<u8>, j: int)
    requires
        0 < j <= s.len(),
        forall|k: int| 0 <= k < j ==> !is_ws(s[k]),
        j == s.len() || is_ws(s[j]),
    ensures
        spec_split_ws(s) == seq![s.take(j)] + spec_split_ws(s.skip(j)),
{
    lemma_nonws_prefix_char(s, j);
    lemma_nonws_prefix_le(s);
}

/// `s` with a single trailing carriage return removed.
pub open spec fn strip_cr(s: Seq<u8>) -> Seq<u8> {
    if s.len() > 0 && s.last() == 13 {
        s.drop_last()
    } else {
        s
    }
}

/// The lines of `s`: segments split at each line feed, a carriage
/// return before the line feed dropped, and no empty segment after a
/// final line feed.
pub open spec fn spec_lines(s: Seq<u8>) -> Seq<Seq<u8>>
    decreases s.len(),
{
    if s.len() == 0 {
        Seq::empty()
    } else {
        let n = if nl_prefix_len(s) <= s.len() {
            nl_prefix_len(s) as int
        } else {
            s.len() as int
        };
        if n == s.len() {
            seq![s]
        } else {
            seq![strip_cr(s.take(n))] + spec_lines(s.skip(n + 1))
        }
    }
}

pub proof fn lemma_lines_last(s: Seq<u8>)
    requires
        s.len() > 0,
        forall|k: int| 0 <= k < s.len() ==> s[k] != 10,
    ensures
        spec_lines(s) == seq![s],
{
    lemma_nl_prefix_char(s, s.len() as int);
}

pub proof fn lemma_lines_step(s: Seq<u8>, j: int)
    requires
        0 <= j < s.len(),
        forall|k: int| 0 <= k < j ==> s[k] != 10,
        s[j] == 10,
    ensures
        spec_lines(s) == seq![strip_cr(s.take(j))] + spec_lines(s.skip(j + 1)),
{
    lemma_nl_prefix_char(s, j);
}

/// `s` without leading whitespace.
pub open spec fn spec_trim_start(s: Seq<u8>) -> Seq<u8>
    decreases s.len(),
{
    if s.len() > 0 && is_ws(s[0]) {
        spec_trim_start(s.drop_first())
    } else {
        s
    }
}

/// `s` without trailing whitespace.
pub open spec fn spec_trim_end(s: Seq<u8>) -> Seq<u8>
    decreases s.len(),
{
    if s.len() > 0 && is_ws(s.last()) {
        spec_trim_end(s.drop_last())
    } else {
        s
    }
}

/// `s` without leading or trailing whitespace.
pub open spec fn spec_trim(s: Seq<u8>) -> Seq<u8> {
    spec_trim_end(spec_trim_start(s))
}

pub proof fn lemma_trim_start_char(s: Seq<u8>, a: int)
    requires
        0 <= a <= s.len(),
        forall|k: int| 0 <= k < a ==> is_ws(s[k]),
        a == s.len() || !is_ws(s[a]),
    ensures
        spec_trim_start(s) == s.skip(a),
    decreases a,
{
    if a == 0 {
        assert(s.skip(0) =~= s);
    } else {
        lemma_trim_start_char(s.drop_first(), a - 1);
        assert(s.drop_first().skip(a - 1) =~= s.skip(a));
    }
}

pub proof fn lemma_trim_end_char(s: Seq<u8>, b: int)
    requires
        0 <= b <= s.len(),
        forall|k: int| b <= k < s.len() ==> is_ws(s[k]),
        b == 0 || !is_ws(s[b - 1]),
    ensures
        spec_trim_end(s) == s.take(b),
    decreases s.len() - b,
{
    if b == s.len() {
        assert(s.take(b) =~= s);
    } else {
        lemma_trim_end_char(s.drop_last(), b);
        assert(s.drop_last().take(b) =~= s.take(b));
    }
}

/// Splits `s` at whitespace into its maximal non-whitespace runs.
pub fn split_ws(s: &[u8]) -> (r: Vec<Vec<u8>>)
    ensures
        r@.map_values(|t: Vec<u8>| t@) == spec_split_ws(s@),
{
    let mut r: Vec<Vec<u8>> = Vec::new();
    let mut i: usize = 0;
    proof {
        assert(s@.skip(0) =~= s@);
        assert(r@.map_values(|t: Vec<u8>| t@) + spec_split_ws(s@) =~= spec_split_ws(s@));
    }
    while i < s.len()
        invariant
            i <= s@.len(),
            r@.map_values(|t: Vec<u8>| t@) + spec_split_ws(s@.skip(i as int)) == spec_split_ws(
                s@,
            ),
        decreases s@.len() - i,
    {
        if byte_is_ws(s[i]) {
            proof {
                lemma_split_ws_ws(s@.skip(i as int));
                assert(s@.skip(i as int).skip(1) =~= s@.skip(i + 1));
            }
            i = i + 1;
        } else {
            let start = i;
            let mut j: usize = i + 1;
            while j < s.len() && !byte_is_ws(s[j])
                invariant
                    start < j <= s@.len(),
                    forall|k: int| start <= k < j ==> !is_ws(s@[k]),
                decreases s@.len() - j,
            {
                j = j + 1;
            }
            let tok = vstd::slice::slice_to_vec(vstd::slice::slice_subrange(s, start, j));
            proof {
                let suf = s@.skip(start as int);
                lemma_split_ws_step(suf, j - start);
                assert(suf.take(j - start) =~= s@.subrange(start as int, j as int));
                assert(suf.skip(j - start) =~= s@.skip(j as int));
                assert((r@.push(tok)).map_values(|t: Vec<u8>| t@) =~= r@.map_values(
                    |t: Vec<u8>| t@,
                ).push(tok@));
            }
            r.push(tok);
            i = j;
        }
    }
    proof {
        assert(s@.skip(s@.len() as int) =~= Seq::<u8>::empty());
        assert(r@.map_values(|t: Vec<u8>| t@) + Seq::<Seq<u8>>::empty() =~= r@.map_values(
            |t: Vec<u8>| t@,
        ));
    }
    r
}

/// Splits `s` into lines, as `spec_lines` describes.
pub fn split_lines(s: &[u8]) -> (r: Vec<Vec<u8>>)
    ensures
        r@.map_values(|t: Vec<u8>| t@) == spec_lines(s@),
{
    let mut r: Vec<Vec<u8>> = Vec::new();
    let mut i: usize = 0;
    proof {
        assert(s@.skip(0) =~= s@);
        assert(r@.map_values(|t: Vec<u8>| t@) + spec_lines(s@) =~= spec_lines(s@));
    }
    while i < s.len()
        invariant
            i <= s@.len(),
            r@.map_values(|t: Vec<u8>| t@) + spec_lines(s@.skip(i as int)) == spec_lines(s@),
        decreases s@.len() - i,
    {
        let start = i;
        let mut j: usize = i;
        while j < s.len() && s[j] != 10
            invariant
                start <= j <= s@.len(),
                forall|k: int| start <= k < j ==> s@[k] != 10,
            decreases s@.len() - j,
        {
            j = j + 1;
        }
        let end = if j < s.len() && j > start && s[j - 1] == 13 {
            j - 1
        } else {
            j
        };
        let line = vstd::slice::slice_to_vec(vstd::slice::slice_subrange(s, start, end));
        proof {
            let suf = s@.skip(start as int);
            assert(suf.len() == s@.len() - start);
            if j == s@.len() {
                lemma_lines_last(suf);
                assert(suf =~= s@.subrange(start as int, j as int));
                assert(line@ =~= suf);
                assert(s@.skip(s@.len() as int) =~= Seq::<u8>::empty());
            } else {
                lemma_lines_step(suf, j - start);
                assert(suf.take(j - start) =~= s@.subrange(start as int, j as int));
                assert(suf.skip(j - start + 1) =~= s@.skip(j + 1));
                assert(line@ =~= strip_cr(s@.subrange(start as int, j as int)));
            }
            assert((r@.push(line)).map_values(|t: Vec<u8>| t@) =~= r@.map_values(
                |t: Vec<u8>| t@,
            ).push(line@));
        }
        r.push(line);
        if j == s.len() {
            i = j;
        } else {
            i = j + 1;
        }
    }
    proof {
        assert(s@.skip(s@.len() as int) =~= Seq::<u8>::empty());
        assert(r@.map_values(|t: Vec<u8>| t@) + Seq::<Seq<u8>>::empty() =~= r@.map_values(
            |t: Vec<u8>| t@,
        ));
    }
    r
}

/// The trimmed copy of `s`: leading and trailing whitespace removed.
pub fn trim(s: &[u8]) -> (r: Vec<u8>)
    ensures
        r@ == spec_trim(s@),
{
    let mut a: usize = 0;
    while a < s.len() && byte_is_ws(s[a])
        invariant
            a <= s@.len(),
            forall|k: int| 0 <= k < a ==> is_ws(s@[k]),
        decreases s@.len() - a,
    {
        a = a + 1;
    }
    let mut b: usize = s.len();
    while b > a && byte_is_ws(s[b - 1])
        invariant
            a <= b <= s@.len(),
            forall|k: int| b <= k < s@.len() ==> is_ws(s@[k]),
        decreases b,
    {
        b = b - 1;
    }
    let r = vstd::slice::slice_to_vec(vstd::slice::slice_subrange(s, a, b));
    proof {
        lemma_trim_start_char(s@, a as int);
        let t = s@.skip(a as int);
        if b == a {
            lemma_trim_end_char(t, 0);
        } else {
            lemma_trim_end_char(t, b - a);
        }
        assert(t.take(b - a) =~= s@.subrange(a as int, b as int));
    }
    r
}

/// Whether `pat` occurs in `s` at index `i`.
pub open spec fn is_match_at(s: Seq<u8>, pat: Seq<u8>, i: int) -> bool {
    0 <= i && i + pat.len() <= s.len() && s.subrange(i, i + pat.len()) == pat
}

/// The least index at which `pat` occurs in `s`, if any.
pub open spec fn spec_find_sub(s: Seq<u8>, pat: Seq<u8>) -> Option<int>
    decreases s.len(),
{
    if s.len() < pat.len() {
        None
    } else if s.take(pat.len() as int) == pat {
        Some(0)
    } else if s.len() == 0 {
        None
    } else {
        match spec_find_sub(s.drop_first(), pat) {
            Some(i) => Some(i + 1),
            None => None,
        }
    }
}

pub proof fn lemma_find_sub_char_some(s: Seq<u8>, pat: Seq<u8>, i: int)
    requires
        is_match_at(s, pat, i),
        forall|k: int| 0 <= k < i ==> !is_match_at(s, pat, k),
    ensures
        spec_find_sub(s, pat) == Some(i),
    decreases i,
{
    if i == 0 {
        assert(s.take(pat.len() as int) =~= s.subrange(0, pat.len() as int));
    } else {
        assert(is_match_at(s, pat, 0) ==> is_match_at(s, pat, 0));
        assert(!is_match_at(s, pat, 0));
        assert(s.take(pat.len() as int) =~= s.subrange(0, pat.len() as int));
        assert(s.take(pat.len() as int) != pat);
        assert(s.len() > 0);
        let t = s.drop_first();
        assert(is_match_at(t, pat, i - 1)) by {
            assert(t.subrange(i - 1, i - 1 + pat.len()) =~= s.subrange(i, i + pat.len()));
        }
        assert forall|k: int| 0 <= k < i - 1 implies !is_match_at(t, pat, k) by {
            assert(t.subrange(k, k + pat.len()) =~= s.subrange(k + 1, k + 1 + pat.len()));
            assert(!is_match_at(s, pat, k + 1));
        }
        lemma_find_sub_char_some(t, pat, i - 1);
    }
}

pub proof fn lemma_find_sub_char_none(s: Seq<u8>, pat: Seq<u8>)
    requires
        forall|k: int| 0 <= k ==> !is_match_at(s, pat, k),
    ensures
        spec_find_sub(s, pat) is None,
    decreases s.len(),
{
    if s.len() >= pat.len() {
        assert(!is_match_at(s, pat, 0));
        assert(s.take(pat.len() as int) =~= s.subrange(0, pat.len() as int));
        if s.len() > 0 {
            let t = s.drop_first();
            assert forall|k: int| 0 <= k implies !is_match_at(t, pat, k) by {
                if k + pat.len() <= t.len() {
                    assert(t.subrange(k, k + pat.len()) =~= s.subrange(k + 1, k + 1 + pat.len()));
                    assert(!is_match_at(s, pat, k + 1));
                }
            }
            lemma_find_sub_char_none(t, pat);
        }
    }
}

/// Finds the first occurrence of `pat` in `s`.
pub fn find_sub(s: &[u8], pat: &[u8]) -> (r: Option<usize>)
    ensures
        match r {
            Some(i) => spec_find_sub(s@, pat@) == Some(i as int) && is_match_at(s@, pat@, i as int)
                && forall|k: int| 0 <= k < i ==> !is_match_at(s@, pat@, k),
            None => spec_find_sub(s@, pat@) is None && forall|k: int| !is_match_at(s@, pat@, k),
        },
{
    if pat.len() > s.len() {
        proof {
            lemma_find_sub_char_none(s@, pat@);
        }
        return None;
    }
    if pat.len() == 0 {
        proof {
            assert(s@.take(0) =~= pat@);
        }
        return Some(0);
    }
    let mut i: usize = 0;
    while i <= s.len() - pat.len()
        invariant
            1 <= pat@.len() <= s@.len(),
            i <= s@.len() - pat@.len() + 1,
            forall|k: int| 0 <= k < i ==> !is_match_at(s@, pat@, k),
        decreases s@.len() - pat@.len() + 1 - i,
    {
        let cand = vstd::slice::slice_subrange(s, i, i + pat.len());
        if bytes_eq(cand, pat) {
            proof {
                lemma_find_sub_char_some(s@, pat@, i as int);
            }
            return Some(i);
        }
        i = i + 1;
    }
    proof {
        lemma_find_sub_char_none(s@, pat@);
    }
    None
}

/// Whether `s` starts with `pat`.
pub fn starts_with(s: &[u8], pat: &[u8]) -> (r: bool)
    ensures
        r == (pat@.len() <= s@.len() && s@.take(pat@.len() as int) == pat@),
{
    if pat.len() > s.len() {
        return false;
    }
    let head = vstd::slice::slice_subrange(s, 0, pat.len());
    let r = bytes_eq(head, pat);
    proof {
        assert(s@.subrange(0, pat@.len() as int) =~= s@.take(pat@.len() as int));
    }
    r
}

/// The first index of byte `b` in `s`, if any.
pub open spec fn spec_find_byte(s: Seq<u8>, b: u8) -> Option<int>
    decreases s.len(),
{
    if s.len() == 0 {
        None
    } else if s[0] == b {
        Some(0)
    } else {
        match spec_find_byte(s.drop_first(), b) {
            Some(i) => Some(i + 1),
            None => None,
        }
    }
}

pub proof fn lemma_find_byte_char(s: Seq<u8>, b: u8, i: int)
    requires
        0 <= i <= s.len(),
        forall|k: int| 0 <= k < i ==> s[k] != b,
        i == s.len() || s[i] == b,
    ensures
        spec_find_byte(s, b) == if i == s.len() {
            None::<int>
        } else {
            Some(i)
        },
    decreases i,
{
    if s.len() == 0 {
    } else if i == 0 {
    } else {
        lemma_find_byte_char(s.drop_first(), b, i - 1);
    }
}

/// Finds the first occurrence of byte `b` in `s`.
pub fn find_byte(s: &[u8], b: u8) -> (r: Option<usize>)
    ensures
        match r {
            Some(i) => spec_find_byte(s@, b) == Some(i as int) && i < s@.len() && s@[i as int]
                == b && forall|k: int| 0 <= k < i ==> s@[k] != b,
            None => spec_find_byte(s@, b) is None && forall|k: int|
                0 <= k < s@.len() ==> s@[k] != b,
        },
{
    let mut i: usize = 0;
    while i < s.len()
        invariant
            i <= s@.len(),
            forall|k: int| 0 <= k < i ==> s@[k] != b,
        decreases s@.len() - i,
    {
        if s[i] == b {
            proof {
                lemma_find_byte_char(s@, b, i as int);
            }
            return Some(i);
        }
        i = i + 1;
    }
    proof {
        lemma_find_byte_char(s@, b, s@.len() as int);
    }
    None
}

} // verus!
