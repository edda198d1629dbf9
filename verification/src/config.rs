//! Layered configuration: a key = "value" file format with two
//! recognized keys (a banner and a farewell), loaded once system-wide
//! and once per user, the user layer overriding field by field.
//!
//! A configuration file holds lines of `key = value`. Blank lines and
//! lines opening with `#` are skipped. A key is one or more letters,
//! digits, hyphens or underscores. A value is a double-quoted string
//! with backslash escapes (`\b \t \n \f \r \" \\`), or a single-quoted
//! string taken verbatim. A malformed line, or a recognized key given
//! twice, makes the whole file read as no configuration.

use vstd::prelude::*;

use crate::bytes::{ascii_bytes, ascii_lit, bytes_eq, find_byte, spec_find_byte, spec_lines,
    spec_trim, split_lines, trim};

verus! {

/// The merged configuration the report renders with: an optional
/// banner and an optional farewell.
pub struct MotdConfig {
    pub ascii_art: Option<Vec<u8>>,
    pub farewell: Option<Vec<u8>>,
}

impl View for MotdConfig {
    type V = (Option<Seq<u8>>, Option<Seq<u8>>);

    open spec fn view(&self) -> (Option<Seq<u8>>, Option<Seq<u8>>) {
        (
            match self.ascii_art {
                Some(ref v) => Some(v@),
                None => None,
            },
            match self.farewell {
                Some(ref v) => Some(v@),
                None => None,
            },
        )
    }
}

/// The view of an optional configuration layer.
pub open spec fn opt_cfg_view(o: Option<MotdConfig>) -> Option<(Option<Seq<u8>>, Option<Seq<u8>>)> {
    match o {
        Some(c) => Some(c@),
        None => None,
    }
}

/// The merge of the two layers: the user layer's present fields
/// overwrite; everything else keeps the system layer's value, and an
/// absent system layer counts as all-empty.
pub open spec fn spec_merge(
    sys: Option<(Option<Seq<u8>>, Option<Seq<u8>>)>,
    usr: Option<(Option<Seq<u8>>, Option<Seq<u8>>)>,
) -> (Option<Seq<u8>>, Option<Seq<u8>>) {
    let base = match sys {
        Some(c) => c,
        None => (None, None),
    };
    match usr {
        Some(u) => (
            if u.0 is Some {
                u.0
            } else {
                base.0
            },
            if u.1 is Some {
                u.1
            } else {
                base.1
            },
        ),
        None => base,
    }
}

/// Merges the system and user configuration layers, the user layer
/// overriding field by field where present.
pub fn merge_config(sys: Option<MotdConfig>, usr: Option<MotdConfig>) -> (r: MotdConfig)
    ensures
        r@ == spec_merge(opt_cfg_view(sys), opt_cfg_view(usr)),
{
    let mut base = match sys {
        Some(c) => c,
        None => MotdConfig { ascii_art: None, farewell: None },
    };
    if let Some(u) = usr {
        if let Some(art) = u.ascii_art {
            base.ascii_art = Some(art);
        }
        if let Some(fw) = u.farewell {
            base.farewell = Some(fw);
        }
    }
    base
}

/// An absent user layer leaves the system layer unchanged.
pub proof fn lemma_merge_absent_user(sys: (Option<Seq<u8>>, Option<Seq<u8>>))
    ensures
        spec_merge(Some(sys), None) == sys,
{
}

/// Two absent layers merge to the all-empty configuration.
pub proof fn lemma_merge_both_absent()
    ensures
        spec_merge(None, None) == (None::<Seq<u8>>, None::<Seq<u8>>),
{
}

/// The user path with a leading tilde expanded to the home directory;
/// without a home value, or without a leading tilde, the path stands.
pub open spec fn spec_expand_tilde(path: Seq<u8>, home: Option<Seq<u8>>) -> Seq<u8> {
    if path.len() > 0 && path[0] == 126 {
        match home {
            Some(h) => h + path.skip(1),
            None => path,
        }
    } else {
        path
    }
}

/// Expands a leading tilde in `path` to the home directory.
pub fn expand_tilde(path: &[u8], home: Option<&[u8]>) -> (r: Vec<u8>)
    ensures
        r@ == spec_expand_tilde(path@, match home {
            Some(h) => Some(h@),
            None => None,
        }),
{
    if path.len() > 0 && path[0] == 126 {
        if let Some(h) = home {
            let mut r = vstd::slice::slice_to_vec(h);
            let rest = vstd::slice::slice_subrange(path, 1, path.len());
            crate::bytes::push_bytes(&mut r, rest);
            proof {
                assert(rest@ =~= path@.skip(1));
            }
            return r;
        }
    }
    vstd::slice::slice_to_vec(path)
}

/// Whether `b` may stand in a bare key.
pub open spec fn is_key_byte(b: u8) -> bool {
    (65 <= b <= 90) || (97 <= b <= 122) || (48 <= b <= 57) || b == 45 || b == 95
}

/// Whether `s` is a bare key: nonempty, of key bytes only.
pub open spec fn spec_bare_key(s: Seq<u8>) -> bool {
    s.len() > 0 && forall|k: int| 0 <= k < s.len() ==> is_key_byte(#[trigger] s[k])
}

/// Whether `b` may stand raw inside a quoted string: a tab or any
/// non-control byte.
pub open spec fn is_raw_string_byte(b: u8) -> bool {
    b == 9 || b >= 32
}

/// The text a double-quoted string body denotes: backslash escapes
/// decoded, raw quotes, backslashes and control bytes refused.
pub open spec fn spec_unescape(s: Seq<u8>) -> Option<Seq<u8>>
    decreases s.len(),
{
    if s.len() == 0 {
        Some(Seq::empty())
    } else if s[0] == 92 {
        if s.len() < 2 {
            None
        } else {
            let e: Option<u8> = if s[1] == 98 {
                Some(8u8)
            } else if s[1] == 116 {
                Some(9u8)
            } else if s[1] == 110 {
                Some(10u8)
            } else if s[1] == 102 {
                Some(12u8)
            } else if s[1] == 114 {
                Some(13u8)
            } else if s[1] == 34 {
                Some(34u8)
            } else if s[1] == 92 {
                Some(92u8)
            } else {
                None
            };
            match e {
                Some(b) => match spec_unescape(s.skip(2)) {
                    Some(t) => Some(seq![b] + t),
                    None => None,
                },
                None => None,
            }
        }
    } else if s[0] == 34 || !is_raw_string_byte(s[0]) {
        None
    } else {
        match spec_unescape(s.skip(1)) {
            Some(t) => Some(seq![s[0]] + t),
            None => None,
        }
    }
}

/// Decodes a double-quoted string body.
fn unescape(s: &[u8]) -> (r: Option<Vec<u8>>)
    ensures
        match r {
            Some(v) => spec_unescape(s@) == Some(v@),
            None => spec_unescape(s@) is None,
        },
    decreases s@.len(),
{
    if s.len() == 0 {
        let e: Vec<u8> = Vec::new();
        proof {
            assert(e@ =~= Seq::<u8>::empty());
        }
        return Some(e);
    }
    if s[0] == 92 {
        if s.len() < 2 {
            return None;
        }
        let c = s[1];
        let b: u8 = if c == 98 {
            8
        } else if c == 116 {
            9
        } else if c == 110 {
            10
        } else if c == 102 {
            12
        } else if c == 114 {
            13
        } else if c == 34 {
            34
        } else if c == 92 {
            92
        } else {
            return None;
        };
        let rest = vstd::slice::slice_subrange(s, 2, s.len());
        proof {
            assert(rest@ =~= s@.skip(2));
        }
        match unescape(rest) {
            Some(t) => {
                let mut v: Vec<u8> = Vec::new();
                v.push(b);
                crate::bytes::push_bytes(&mut v, t.as_slice());
                proof {
                    assert(v@ =~= seq![b] + t@);
                }
                Some(v)
            },
            None => None,
        }
    } else if s[0] == 34 || !(s[0] == 9 || s[0] >= 32) {
        None
    } else {
        let rest = vstd::slice::slice_subrange(s, 1, s.len());
        proof {
            assert(rest@ =~= s@.skip(1));
        }
        match unescape(rest) {
            Some(t) => {
                let mut v: Vec<u8> = Vec::new();
                v.push(s[0]);
                crate::bytes::push_bytes(&mut v, t.as_slice());
                proof {
                    assert(v@ =~= seq![s@[0]] + t@);
                }
                Some(v)
            },
            None => None,
        }
    }
}

/// The text a value denotes: a double-quoted string with escapes, or a
/// single-quoted string verbatim.
pub open spec fn spec_parse_string(v: Seq<u8>) -> Option<Seq<u8>> {
    if v.len() >= 2 && v[0] == 34 && v.last() == 34 {
        spec_unescape(v.subrange(1, v.len() - 1))
    } else if v.len() >= 2 && v[0] == 39 && v.last() == 39 {
        let mid = v.subrange(1, v.len() - 1);
        if forall|k: int|
            0 <= k < mid.len() ==> is_raw_string_byte(#[trigger] mid[k]) && mid[k] != 39 {
            Some(mid)
        } else {
            None
        }
    } else {
        None
    }
}

/// Reads a quoted string value.
fn parse_string(v: &[u8]) -> (r: Option<Vec<u8>>)
    ensures
        match r {
            Some(t) => spec_parse_string(v@) == Some(t@),
            None => spec_parse_string(v@) is None,
        },
{
    if v.len() >= 2 && v[0] == 34 && v[v.len() - 1] == 34 {
        let mid = vstd::slice::slice_subrange(v, 1, v.len() - 1);
        proof {
            assert(mid@ =~= v@.subrange(1, v@.len() - 1));
        }
        unescape(mid)
    } else if v.len() >= 2 && v[0] == 39 && v[v.len() - 1] == 39 {
        let mid = vstd::slice::slice_subrange(v, 1, v.len() - 1);
        proof {
            assert(mid@ =~= v@.subrange(1, v@.len() - 1));
        }
        let mut i: usize = 0;
        while i < mid.len()
            invariant
                i <= mid@.len(),
                v@.len() >= 2,
                v@[0] == 39,
                v@.last() == 39,
                mid@ == v@.subrange(1, v@.len() - 1),
                forall|k: int|
                    0 <= k < i ==> is_raw_string_byte(#[trigger] mid@[k]) && mid@[k] != 39,
            decreases mid@.len() - i,
        {
            let b = mid[i];
            if !(b == 9 || b >= 32) || b == 39 {
                proof {
                    assert(!(is_raw_string_byte(mid@[i as int]) && mid@[i as int] != 39));
                }
                return None;
            }
            i = i + 1;
        }
        Some(vstd::slice::slice_to_vec(mid))
    } else {
        None
    }
}

/// Whether `s` is a bare key.
fn check_bare_key(s: &[u8]) -> (r: bool)
    ensures
        r == spec_bare_key(s@),
{
    if s.len() == 0 {
        return false;
    }
    let mut j: usize = 0;
    while j < s.len()
        invariant
            j <= s@.len(),
            forall|k: int| 0 <= k < j ==> is_key_byte(#[trigger] s@[k]),
        decreases s@.len() - j,
    {
        let b = s[j];
        if !((65 <= b && b <= 90) || (97 <= b && b <= 122) || (48 <= b && b <= 57) || b == 45 || b
            == 95) {
            proof {
                assert(!is_key_byte(s@[j as int]));
            }
            return false;
        }
        j = j + 1;
    }
    true
}

/// Whether a configuration line is skipped: blank, or a comment.
pub open spec fn spec_line_skip(line: Seq<u8>) -> bool {
    let t = spec_trim(line);
    t.len() == 0 || t[0] == 35
}

/// The key/value pair a configuration line carries: the trimmed text
/// split at its first equals sign, the key bare and the value a quoted
/// string; anything else is a malformed line.
pub open spec fn spec_line_entry(line: Seq<u8>) -> Option<(Seq<u8>, Seq<u8>)> {
    let t = spec_trim(line);
    match spec_find_byte(t, 61) {
        Some(e) => {
            let key = spec_trim(t.take(e));
            let vtext = spec_trim(t.skip(e + 1));
            if spec_bare_key(key) {
                match spec_parse_string(vtext) {
                    Some(v) => Some((key, v)),
                    None => None,
                }
            } else {
                None
            }
        },
        None => None,
    }
}

/// The configuration named by a file's lines: both recognized fields
/// gathered in order; a malformed line or a repeated recognized key
/// spoils the whole file.
pub open spec fn spec_cfg_lines(ls: Seq<Seq<u8>>) -> Option<(Option<Seq<u8>>, Option<Seq<u8>>)>
    decreases ls.len(),
{
    if ls.len() == 0 {
        Some((None, None))
    } else {
        match spec_cfg_lines(ls.drop_last()) {
            None => None,
            Some(st) => {
                let line = ls.last();
                if spec_line_skip(line) {
                    Some(st)
                } else {
                    match spec_line_entry(line) {
                        None => None,
                        Some(kv) => if kv.0 == ascii_bytes("ascii_art"@) {
                            if st.0 is Some {
                                None
                            } else {
                                Some((Some(kv.1), st.1))
                            }
                        } else if kv.0 == ascii_bytes("farewell"@) {
                            if st.1 is Some {
                                None
                            } else {
                                Some((st.0, Some(kv.1)))
                            }
                        } else {
                            Some(st)
                        },
                    }
                }
            },
        }
    }
}

/// What a configuration file's text denotes, if anything.
pub open spec fn spec_parse_config(content: Seq<u8>) -> Option<(Option<Seq<u8>>, Option<Seq<u8>>)> {
    spec_cfg_lines(spec_lines(content))
}

proof fn lemma_cfg_bad_prefix(ls: Seq<Seq<u8>>, i: int)
    requires
        0 <= i <= ls.len(),
        spec_cfg_lines(ls.take(i)) is None,
    ensures
        spec_cfg_lines(ls) is None,
    decreases ls.len() - i,
{
    if i == ls.len() {
        assert(ls.take(i) =~= ls);
    } else {
        assert(ls.take(i + 1).drop_last() =~= ls.take(i));
        lemma_cfg_bad_prefix(ls, i + 1);
    }
}

/// Reads a configuration file's text. A malformed file reads as no
/// configuration; a well-formed one carries its two optional fields.
pub fn parse_config(content: &[u8]) -> (r: Option<MotdConfig>)
    ensures
        match r {
            Some(c) => spec_parse_config(content@) == Some(c@),
            None => spec_parse_config(content@) is None,
        },
{
    let lines = split_lines(content);
    let ghost lv = lines@.map_values(|t: Vec<u8>| t@);
    proof {
        reveal_strlit("ascii_art");
        reveal_strlit("farewell");
        assert(lv.take(0) =~= Seq::<Seq<u8>>::empty());
    }
    let key_art = ascii_lit("ascii_art");
    let key_fw = ascii_lit("farewell");
    let mut art: Option<Vec<u8>> = None;
    let mut fw: Option<Vec<u8>> = None;
    let mut i: usize = 0;
    while i < lines.len()
        invariant
            i <= lines@.len(),
            lv == lines@.map_values(|t: Vec<u8>| t@),
            lv == spec_lines(content@),
            key_art@ == ascii_bytes("ascii_art"@),
            key_fw@ == ascii_bytes("farewell"@),
            ({
                let st = spec_cfg_lines(lv.take(i as int));
                &&& st matches Some(p)
                &&& (art is Some <==> p.0 is Some)
                &&& (art matches Some(a) ==> p.0 == Some(a@))
                &&& (fw is Some <==> p.1 is Some)
                &&& (fw matches Some(f) ==> p.1 == Some(f@))
            }),
        decreases lines@.len() - i,
    {
        let line = &lines[i];
        proof {
            assert(lv.take(i + 1).drop_last() =~= lv.take(i as int));
            assert(lv.take(i + 1).last() == lv[i as int]);
        }
        let t = trim(line.as_slice());
        let skip_line = t.len() == 0 || t[0] == 35;
        if !skip_line {
            let kv: Option<(Vec<u8>, Vec<u8>)> = match find_byte(t.as_slice(), 61) {
                Some(e) => {
                    let key_raw = vstd::slice::slice_subrange(t.as_slice(), 0, e);
                    let val_raw = vstd::slice::slice_subrange(t.as_slice(), e + 1, t.len());
                    proof {
                        assert(key_raw@ =~= t@.take(e as int));
                        assert(val_raw@ =~= t@.skip(e + 1));
                    }
                    let key = trim(key_raw);
                    let vtext = trim(val_raw);
                    if check_bare_key(key.as_slice()) {
                        match parse_string(vtext.as_slice()) {
                            Some(v) => {
                                proof {
                                    assert(spec_line_entry(lv[i as int]) == Some((key@, v@)));
                                }
                                Some((key, v))
                            },
                            None => None,
                        }
                    } else {
                        None
                    }
                },
                None => None,
            };
            proof {
                if kv is None {
                    assert(spec_line_entry(lv[i as int]) is None);
                }
            }
            match kv {
                None => {
                    proof {
                        assert(spec_cfg_lines(lv.take(i + 1)) is None);
                        lemma_cfg_bad_prefix(lv, i + 1);
                    }
                    return None;
                },
                Some((key, v)) => {
                    if bytes_eq(key.as_slice(), key_art.as_slice()) {
                        if art.is_some() {
                            proof {
                                lemma_cfg_bad_prefix(lv, i + 1);
                            }
                            return None;
                        }
                        art = Some(v);
                    } else if bytes_eq(key.as_slice(), key_fw.as_slice()) {
                        if fw.is_some() {
                            proof {
                                lemma_cfg_bad_prefix(lv, i + 1);
                            }
                            return None;
                        }
                        fw = Some(v);
                    }
                },
            }
        }
        i = i + 1;
    }
    proof {
        assert(lv.take(lines@.len() as int) =~= lv);
    }
    Some(MotdConfig { ascii_art: art, farewell: fw })
}

} // verus!
