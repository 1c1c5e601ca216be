//! MIME reassembly: the accumulated headers and body joined into one
//! CRLF-canonical message, and the line-ending normalisation it rests on.

use vstd::prelude::*;
use vstd::string::StringSliceAdditionalSpecFns;

use crate::headers::{
    spec_apply_headers, spec_arrivals_for, HeaderMap, lemma_apply_headers_distinct,
    lemma_header_preservation, lemma_values_at,
};
use crate::util::append_bytes;

verus! {

/// Carriage return.
pub open spec fn cr() -> u8 {
    0x0d
}

/// Line feed.
pub open spec fn lf() -> u8 {
    0x0a
}

/// Every CRLF collapsed to a lone LF, left to right.
pub open spec fn spec_collapse_crlf(s: Seq<u8>) -> Seq<u8>
    decreases s.len(),
{
    if s.len() >= 2 && s[0] == cr() && s[1] == lf() {
        seq![lf()] + spec_collapse_crlf(s.skip(2))
    } else if s.len() > 0 {
        seq![s[0]] + spec_collapse_crlf(s.skip(1))
    } else {
        Seq::empty()
    }
}

/// Every LF expanded to CRLF.
pub open spec fn spec_expand_lf(s: Seq<u8>) -> Seq<u8>
    decreases s.len(),
{
    if s.len() > 0 {
        (if s[0] == lf() {
            seq![cr(), lf()]
        } else {
            seq![s[0]]
        }) + spec_expand_lf(s.skip(1))
    } else {
        Seq::empty()
    }
}

/// Line endings made canonical CRLF: every CRLF collapsed to LF, then every
/// LF expanded back to CRLF.
pub open spec fn spec_normalize_crlf(s: Seq<u8>) -> Seq<u8> {
    spec_expand_lf(spec_collapse_crlf(s))
}

/// The expansion never starts with a bare LF.
proof fn lemma_expand_first(s: Seq<u8>)
    ensures
        spec_expand_lf(s).len() > 0 ==> spec_expand_lf(s)[0] != lf(),
{
    if s.len() > 0 {
        if s[0] == lf() {
            assert(spec_expand_lf(s)[0] == cr());
        } else {
            assert(spec_expand_lf(s)[0] == s[0]);
        }
    }
}

/// Collapsing undoes expanding: expansion followed by collapse is identity.
pub proof fn lemma_collapse_expand(s: Seq<u8>)
    ensures
        spec_collapse_crlf(spec_expand_lf(s)) == s,
    decreases s.len(),
{
    if s.len() == 0 {
        assert(spec_collapse_crlf(spec_expand_lf(s)) =~= s);
    } else {
        let rest = s.skip(1);
        lemma_collapse_expand(rest);
        lemma_expand_first(rest);
        let e = spec_expand_lf(s);
        if s[0] == lf() {
            assert(e == seq![cr(), lf()] + spec_expand_lf(rest));
            assert(e[0] == cr() && e[1] == lf());
            assert(e.skip(2) =~= spec_expand_lf(rest));
            assert(spec_collapse_crlf(e) == seq![lf()] + spec_collapse_crlf(e.skip(2)));
            assert(spec_collapse_crlf(e) =~= s);
        } else {
            assert(e == seq![s[0]] + spec_expand_lf(rest));
            assert(e[0] == s[0]);
            if e.len() >= 2 && e[0] == cr() && e[1] == lf() {
                assert(e[1] == spec_expand_lf(rest)[0]);
                assert(false);
            }
            assert(e.skip(1) =~= spec_expand_lf(rest));
            assert(spec_collapse_crlf(e) == seq![s[0]] + spec_collapse_crlf(e.skip(1)));
            assert(spec_collapse_crlf(e) =~= s);
        }
    }
}

/// CRLF normalisation is idempotent.
pub proof fn lemma_normalize_idempotent(s: Seq<u8>)
    ensures
        spec_normalize_crlf(spec_normalize_crlf(s)) == spec_normalize_crlf(s),
{
    lemma_collapse_expand(spec_collapse_crlf(s));
}

/// No bare CR: every CR is immediately followed by LF.
pub open spec fn no_lone_cr(s: Seq<u8>) -> bool {
    forall|i: int| 0 <= i < s.len() && #[trigger] s[i] == cr() ==> i + 1 < s.len() && s[i + 1] == lf()
}

/// Only CRLF line endings: every LF is preceded by CR and every CR is
/// followed by LF.
pub open spec fn crlf_only(s: Seq<u8>) -> bool {
    &&& forall|i: int| 0 <= i < s.len() && #[trigger] s[i] == lf() ==> i > 0 && s[i - 1] == cr()
    &&& forall|i: int| 0 <= i < s.len() && #[trigger] s[i] == cr() ==> i + 1 < s.len() && s[i + 1] == lf()
}

/// Collapsing input without bare CRs leaves no CR at all.
proof fn lemma_collapse_no_cr(s: Seq<u8>)
    requires
        no_lone_cr(s),
    ensures
        forall|i: int|
            0 <= i < spec_collapse_crlf(s).len() ==> #[trigger] spec_collapse_crlf(s)[i] != cr(),
    decreases s.len(),
{
    if s.len() == 0 {
    } else if s.len() >= 2 && s[0] == cr() && s[1] == lf() {
        let t = s.skip(2);
        assert(no_lone_cr(t)) by {
            assert(forall|i: int| 0 <= i < t.len() ==> t[i] == s[i + 2]);
        }
        lemma_collapse_no_cr(t);
        assert forall|i: int|
            0 <= i < spec_collapse_crlf(s).len() implies #[trigger] spec_collapse_crlf(s)[i]
            != cr() by {
            if i > 0 {
                assert(spec_collapse_crlf(s)[i] == spec_collapse_crlf(t)[i - 1]);
            }
        }
    } else {
        assert(s[0] != cr());
        let t = s.skip(1);
        assert(no_lone_cr(t)) by {
            assert(forall|i: int| 0 <= i < t.len() ==> t[i] == s[i + 1]);
        }
        lemma_collapse_no_cr(t);
        assert forall|i: int|
            0 <= i < spec_collapse_crlf(s).len() implies #[trigger] spec_collapse_crlf(s)[i]
            != cr() by {
            if i > 0 {
                assert(spec_collapse_crlf(s)[i] == spec_collapse_crlf(t)[i - 1]);
            }
        }
    }
}

/// Expanding CR-free input yields text whose line endings are all CRLF.
proof fn lemma_expand_crlf_only(s: Seq<u8>)
    requires
        forall|i: int| 0 <= i < s.len() ==> #[trigger] s[i] != cr(),
    ensures
        crlf_only(spec_expand_lf(s)),
    decreases s.len(),
{
    if s.len() == 0 {
    } else {
        let t = s.skip(1);
        lemma_expand_crlf_only(t);
        lemma_expand_first(t);
        let e = spec_expand_lf(s);
        let et = spec_expand_lf(t);
        let b: Seq<u8> = if s[0] == lf() {
            seq![cr(), lf()]
        } else {
            seq![s[0]]
        };
        assert(e == b + et);
        assert(s[0] != cr());
        assert forall|i: int| 0 <= i < e.len() && #[trigger] e[i] == lf() implies i > 0 && e[i - 1]
            == cr() by {
            if i < b.len() {
                assert(s[0] == lf() && i == 1);
            } else {
                assert(e[i] == et[i - b.len()]);
                assert(i - b.len() > 0);
                assert(e[i - 1] == et[i - b.len() - 1]);
            }
        }
        assert forall|i: int| 0 <= i < e.len() && #[trigger] e[i] == cr() implies i + 1 < e.len() && e[i + 1]
            == lf() by {
            if i < b.len() {
                assert(s[0] == lf() && i == 0);
                assert(e[1] == lf());
            } else {
                assert(e[i] == et[i - b.len()]);
                assert(e[i + 1] == et[i - b.len() + 1]);
            }
        }
    }
}

/// Body CRLF canonicalisation: for body input whose line endings are LF,
/// CRLF or a mixture (no bare CR), the normalised body uses only CRLF.
pub proof fn lemma_normalize_crlf_only(s: Seq<u8>)
    requires
        no_lone_cr(s),
    ensures
        crlf_only(spec_normalize_crlf(s)),
{
    lemma_collapse_no_cr(s);
    lemma_expand_crlf_only(spec_collapse_crlf(s));
}

/// Normalises the line endings of `s` to canonical CRLF.
pub fn normalize_crlf(s: &[u8]) -> (r: Vec<u8>)
    ensures
        r@ == spec_normalize_crlf(s@),
{
    let mut collapsed: Vec<u8> = Vec::new();
    let mut i: usize = 0;
    proof {
        assert(s@.skip(0) =~= s@);
        assert(collapsed@ + spec_collapse_crlf(s@) =~= spec_collapse_crlf(s@));
    }
    while i < s.len()
        invariant
            i <= s.len(),
            spec_collapse_crlf(s@) == collapsed@ + spec_collapse_crlf(s@.skip(i as int)),
        decreases s.len() - i,
    {
        let ghost t = s@.skip(i as int);
        let ghost c0 = collapsed@;
        if i + 1 < s.len() && s[i] == 0x0d && s[i + 1] == 0x0a {
            collapsed.push(0x0a);
            proof {
                assert(t[0] == s@[i as int] && t[1] == s@[i + 1]);
                assert(t.skip(2) =~= s@.skip(i + 2));
                assert(collapsed@ + spec_collapse_crlf(s@.skip(i + 2)) =~= c0
                    + spec_collapse_crlf(t));
            }
            i += 2;
        } else {
            collapsed.push(s[i]);
            proof {
                assert(t[0] == s@[i as int]);
                if t.len() >= 2 && t[0] == cr() && t[1] == lf() {
                    assert(t[1] == s@[i + 1]);
                    assert(false);
                }
                assert(t.skip(1) =~= s@.skip(i + 1));
                assert(collapsed@ + spec_collapse_crlf(s@.skip(i + 1)) =~= c0
                    + spec_collapse_crlf(t));
            }
            i += 1;
        }
    }
    proof {
        assert(s@.skip(s@.len() as int).len() == 0);
        assert(collapsed@ + spec_collapse_crlf(s@.skip(s@.len() as int)) =~= collapsed@);
    }
    let mut out: Vec<u8> = Vec::new();
    let mut j: usize = 0;
    proof {
        assert(collapsed@.skip(0) =~= collapsed@);
        assert(out@ + spec_expand_lf(collapsed@) =~= spec_expand_lf(collapsed@));
    }
    while j < collapsed.len()
        invariant
            j <= collapsed.len(),
            spec_expand_lf(collapsed@) == out@ + spec_expand_lf(collapsed@.skip(j as int)),
            collapsed@ == spec_collapse_crlf(s@),
        decreases collapsed.len() - j,
    {
        let ghost t = collapsed@.skip(j as int);
        let ghost o0 = out@;
        let b = collapsed[j];
        if b == 0x0a {
            out.push(0x0d);
            out.push(0x0a);
        } else {
            out.push(b);
        }
        proof {
            assert(t[0] == collapsed@[j as int]);
            assert(t.skip(1) =~= collapsed@.skip(j + 1));
            assert(out@ + spec_expand_lf(collapsed@.skip(j + 1)) =~= o0 + spec_expand_lf(t));
        }
        j += 1;
    }
    proof {
        assert(collapsed@.skip(collapsed@.len() as int).len() == 0);
        assert(out@ + spec_expand_lf(collapsed@.skip(collapsed@.len() as int)) =~= out@);
    }
    out
}

/// One reassembled header line: `name || ": " || value || CRLF`.
pub open spec fn spec_header_line(n: Seq<u8>, v: Seq<u8>) -> Seq<u8> {
    n + seq![0x3au8, 0x20u8] + v + seq![cr(), lf()]
}

/// One entry's lines: each of its values on its own `name: value` line,
/// in arrival order.
pub open spec fn spec_value_lines(n: Seq<u8>, vs: Seq<Seq<u8>>) -> Seq<u8>
    decreases vs.len(),
{
    if vs.len() == 0 {
        Seq::empty()
    } else {
        spec_header_line(n, vs[0]) + spec_value_lines(n, vs.skip(1))
    }
}

/// The whole header section, entries in insertion order.
pub open spec fn spec_header_section(m: Seq<(Seq<u8>, Seq<Seq<u8>>)>) -> Seq<u8>
    decreases m.len(),
{
    if m.len() == 0 {
        Seq::empty()
    } else {
        spec_value_lines(m[0].0, m[0].1) + spec_header_section(m.skip(1))
    }
}

/// The reassembled message: header section, blank line, normalised body.
pub open spec fn spec_reassemble(m: Seq<(Seq<u8>, Seq<Seq<u8>>)>, body: Seq<u8>) -> Seq<u8> {
    spec_header_section(m) + seq![cr(), lf()] + spec_normalize_crlf(body)
}

/// Joins the accumulated headers and body into one RFC 5322 style message:
/// each header value on its own CRLF line, a blank separator line, and the
/// body with line endings normalised to CRLF.
pub fn reassemble_message(headers: &HeaderMap, body: &[u8]) -> (r: Vec<u8>)
    ensures
        r@ == spec_reassemble(headers@, body@),
{
    let ghost m = headers@;
    let mut out: Vec<u8> = Vec::new();
    let mut i: usize = 0;
    proof {
        assert(m.skip(0) =~= m);
        assert(out@ + spec_header_section(m) =~= spec_header_section(m));
    }
    while i < headers.entries.len()
        invariant
            i <= headers.entries.len(),
            m == headers@,
            spec_header_section(m) == out@ + spec_header_section(m.skip(i as int)),
        decreases headers.entries.len() - i,
    {
        let ghost t = m.skip(i as int);
        let ghost o0 = out@;
        proof {
            assert(t[0] == m[i as int]);
            assert(t.skip(1) =~= m.skip(i + 1));
        }
        let entry = &headers.entries[i];
        let ghost n = m[i as int].0;
        let ghost vs = m[i as int].1;
        proof {
            assert(entry@ == m[i as int]);
        }
        let mut j: usize = 0;
        proof {
            assert(vs.skip(0) =~= vs);
        }
        while j < entry.values.len()
            invariant
                j <= entry.values.len(),
                entry@ == (n, vs),
                vs.len() == entry.values.len(),
                forall|k: int| 0 <= k < vs.len() ==> #[trigger] entry.values@[k]@ == vs[k],
                spec_header_section(m) == out@ + spec_value_lines(n, vs.skip(j as int))
                    + spec_header_section(m.skip(i + 1)),
            decreases entry.values.len() - j,
        {
            let ghost o1 = out@;
            let ghost tv = vs.skip(j as int);
            append_bytes(&mut out, entry.name.as_slice());
            out.push(0x3a);
            out.push(0x20);
            append_bytes(&mut out, entry.values[j].as_slice());
            out.push(0x0d);
            out.push(0x0a);
            proof {
                assert(entry.name@ == n);
                assert(entry.values@[j as int]@ == vs[j as int]);
                assert(tv[0] == vs[j as int]);
                assert(tv.skip(1) =~= vs.skip(j + 1));
                assert(out@ =~= o1 + spec_header_line(n, vs[j as int]));
                assert(out@ + spec_value_lines(n, vs.skip(j + 1)) + spec_header_section(
                    m.skip(i + 1),
                ) =~= o1 + spec_value_lines(n, tv) + spec_header_section(m.skip(i + 1)));
            }
            j += 1;
        }
        proof {
            assert(vs.skip(vs.len() as int).len() == 0);
            assert(out@ + spec_value_lines(n, vs.skip(vs.len() as int)) + spec_header_section(
                m.skip(i + 1),
            ) =~= out@ + spec_header_section(m.skip(i + 1)));
        }
        i += 1;
    }
    proof {
        assert(m.skip(m.len() as int).len() == 0);
        assert(out@ + spec_header_section(m.skip(m.len() as int)) =~= out@);
    }
    out.push(0x0d);
    out.push(0x0a);
    let normalized = normalize_crlf(body);
    append_bytes(&mut out, normalized.as_slice());
    proof {
        assert(out@ =~= spec_reassemble(m, body@));
    }
    out
}

/// A byte sequence with every NUL made visible as the text `<NUL>`.
pub open spec fn spec_visualize_nul(s: Seq<u8>) -> Seq<u8>
    decreases s.len(),
{
    if s.len() == 0 {
        Seq::empty()
    } else {
        (if s[0] == 0 {
            "<NUL>".spec_bytes()
        } else {
            seq![s[0]]
        }) + spec_visualize_nul(s.skip(1))
    }
}

/// Replaces every NUL byte by the visible text `<NUL>`.
pub fn visualize_nul(s: &[u8]) -> (r: Vec<u8>)
    ensures
        r@ == spec_visualize_nul(s@),
{
    let mut out: Vec<u8> = Vec::new();
    let mut i: usize = 0;
    proof {
        assert(s@.skip(0) =~= s@);
        assert(out@ + spec_visualize_nul(s@) =~= spec_visualize_nul(s@));
    }
    while i < s.len()
        invariant
            i <= s.len(),
            spec_visualize_nul(s@) == out@ + spec_visualize_nul(s@.skip(i as int)),
        decreases s.len() - i,
    {
        let ghost t = s@.skip(i as int);
        let ghost o0 = out@;
        if s[i] == 0 {
            append_bytes(&mut out, "<NUL>".as_bytes());
        } else {
            out.push(s[i]);
        }
        proof {
            assert(t[0] == s@[i as int]);
            assert(t.skip(1) =~= s@.skip(i + 1));
            assert(out@ + spec_visualize_nul(s@.skip(i + 1)) =~= o0 + spec_visualize_nul(t));
        }
        i += 1;
    }
    proof {
        assert(s@.skip(s@.len() as int).len() == 0);
        assert(out@ + spec_visualize_nul(s@.skip(s@.len() as int)) =~= out@);
    }
    out
}

proof fn lemma_header_section_split(m: Seq<(Seq<u8>, Seq<Seq<u8>>)>, i: int) -> (r: (
    Seq<u8>,
    Seq<u8>,
))
    requires
        0 <= i < m.len(),
    ensures
        spec_header_section(m) == r.0 + spec_value_lines(m[i].0, m[i].1) + r.1,
    decreases i,
{
    if i == 0 {
        let r = (Seq::<u8>::empty(), spec_header_section(m.skip(1)));
        assert(spec_header_section(m) =~= r.0 + spec_value_lines(m[0].0, m[0].1) + r.1);
        r
    } else {
        let t = m.skip(1);
        assert(t[i - 1] == m[i]);
        let rr = lemma_header_section_split(t, i - 1);
        let r = (spec_value_lines(m[0].0, m[0].1) + rr.0, rr.1);
        assert(spec_header_section(m) =~= r.0 + spec_value_lines(m[i].0, m[i].1) + r.1);
        r
    }
}

/// Header preservation, stated of the reassembled message: after any arrival
/// sequence, the message's header section carries a contiguous block for the
/// name at each entry, holding exactly the values that arrived under that
/// name, in arrival order, each on a `name: value` CRLF line.
pub proof fn lemma_header_preservation_reassembled(
    pairs: Seq<(Seq<u8>, Seq<u8>)>,
    i: int,
    body: Seq<u8>,
) -> (r: (Seq<u8>, Seq<u8>))
    requires
        0 <= i < spec_apply_headers(pairs).len(),
    ensures
        spec_reassemble(spec_apply_headers(pairs), body) == r.0 + spec_value_lines(
            spec_apply_headers(pairs)[i].0,
            spec_arrivals_for(pairs, spec_apply_headers(pairs)[i].0),
        ) + r.1,
{
    let m = spec_apply_headers(pairs);
    let n = m[i].0;
    lemma_apply_headers_distinct(pairs);
    lemma_values_at(m, i);
    lemma_header_preservation(pairs, n);
    let rr = lemma_header_section_split(m, i);
    let pre = rr.0;
    let post = rr.1 + seq![cr(), lf()] + spec_normalize_crlf(body);
    assert(spec_reassemble(m, body) =~= pre + spec_value_lines(n, spec_arrivals_for(pairs, n))
        + post);
    (pre, post)
}

} // verus!
