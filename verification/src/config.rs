//! Server configuration: the listen address and the per-read client
//! timeout, parsed from the configuration file's text.

use vstd::prelude::*;
use vstd::string::StringSliceAdditionalSpecFns;

use crate::util::{
    append_bytes, bytes_eq, copy_bytes, find_byte, lemma_find_byte_props, spec_find_byte,
    spec_trim, trim_ascii,
};

verus! {

/// The server's settings: where to listen and how long a client read may
/// block, in seconds.
pub struct Config {
    pub address: Vec<u8>,
    pub client_timeout: u64,
}

/// The text split into lines at LF, a trailing CR stripped from each; a
/// final line needs no line ending.
pub open spec fn spec_lines(s: Seq<u8>) -> Seq<Seq<u8>>
    decreases s.len(),
    via spec_lines_dec
{
    if s.len() == 0 {
        Seq::empty()
    } else {
        let k = spec_find_byte(s, 0x0a);
        let raw = s.subrange(0, k);
        let line = if raw.len() > 0 && raw[raw.len() - 1] == 0x0d {
            raw.drop_last()
        } else {
            raw
        };
        let rest = if k < s.len() {
            spec_lines(s.subrange(k + 1, s.len() as int))
        } else {
            Seq::empty()
        };
        seq![line] + rest
    }
}

#[via_fn]
proof fn spec_lines_dec(s: Seq<u8>) {
    lemma_find_byte_props(s, 0x0a);
}

/// All bytes are ASCII decimal digits.
pub open spec fn all_digits(s: Seq<u8>) -> bool {
    forall|i: int| 0 <= i < s.len() ==> 0x30 <= #[trigger] s[i] <= 0x39
}

/// The number a digit string denotes, most significant digit first.
pub open spec fn spec_digits_value(s: Seq<u8>) -> int
    decreases s.len(),
{
    if s.len() == 0 {
        0
    } else {
        spec_digits_value(s.drop_last()) * 10 + (s.last() - 0x30)
    }
}

proof fn lemma_digits_value_nonneg(s: Seq<u8>)
    requires
        all_digits(s),
    ensures
        spec_digits_value(s) >= 0,
    decreases s.len(),
{
    if s.len() > 0 {
        assert(all_digits(s.drop_last())) by {
            assert(forall|i: int| 0 <= i < s.len() - 1 ==> s.drop_last()[i] == s[i]);
        }
        lemma_digits_value_nonneg(s.drop_last());
    }
}

proof fn lemma_digits_value_prefix_le(s: Seq<u8>, i: int)
    requires
        all_digits(s),
        0 <= i <= s.len(),
    ensures
        spec_digits_value(s.subrange(0, i)) <= spec_digits_value(s),
    decreases s.len() - i,
{
    if i == s.len() {
        assert(s.subrange(0, i) =~= s);
    } else {
        lemma_digits_value_prefix_le(s, i + 1);
        let p = s.subrange(0, i + 1);
        assert(p.drop_last() =~= s.subrange(0, i));
        assert(all_digits(s.subrange(0, i))) by {
            assert(forall|j: int| 0 <= j < i ==> s.subrange(0, i)[j] == s[j]);
        }
        lemma_digits_value_nonneg(s.subrange(0, i));
        assert(spec_digits_value(p) == spec_digits_value(s.subrange(0, i)) * 10 + (p.last()
            - 0x30));
    }
}

/// What `u64::from_str` accepts: an optional leading `+`, then only digits,
/// denoting a value that fits.
pub open spec fn spec_parse_u64(s: Seq<u8>) -> Option<u64> {
    let ds = if s.len() > 0 && s[0] == 0x2b {
        s.skip(1)
    } else {
        s
    };
    if ds.len() > 0 && all_digits(ds) && spec_digits_value(ds) <= u64::MAX {
        Some(spec_digits_value(ds) as u64)
    } else {
        None
    }
}

/// Parses a decimal `u64`, exactly as the standard parser accepts one.
pub fn parse_u64(s: &[u8]) -> (r: Option<u64>)
    ensures
        r == spec_parse_u64(s@),
{
    let ds: &[u8] = if s.len() > 0 && s[0] == 0x2b {
        &s[1..s.len()]
    } else {
        s
    };
    proof {
        assert(ds@ == if s@.len() > 0 && s@[0] == 0x2b {
            s@.skip(1)
        } else {
            s@
        });
    }
    if ds.len() == 0 {
        return None;
    }
    let mut acc: u64 = 0;
    let mut i: usize = 0;
    proof {
        assert(spec_digits_value(ds@.subrange(0, 0)) == 0);
    }
    while i < ds.len()
        invariant
            i <= ds.len(),
            ds@ == (if s@.len() > 0 && s@[0] == 0x2b {
                s@.skip(1)
            } else {
                s@
            }),
            ds@.len() > 0,
            all_digits(ds@.subrange(0, i as int)),
            acc as int == spec_digits_value(ds@.subrange(0, i as int)),
        decreases ds.len() - i,
    {
        let b = ds[i];
        if b < 0x30 || b > 0x39 {
            proof {
                assert(!all_digits(ds@));
            }
            return None;
        }
        let d: u64 = (b - 0x30) as u64;
        if acc > (u64::MAX - d) / 10 {
            proof {
                let p = ds@.subrange(0, i + 1);
                assert(p.drop_last() =~= ds@.subrange(0, i as int));
                assert(p.last() == b);
                assert(all_digits(p)) by {
                    assert(forall|j: int| 0 <= j < i ==> p[j] == ds@.subrange(0, i as int)[j]);
                }
                assert(spec_digits_value(p) == acc as int * 10 + d);
                assert(acc as int * 10 + d > u64::MAX) by (nonlinear_arith)
                    requires
                        acc > (u64::MAX - d) / 10,
                        d <= 9,
                ;
                if all_digits(ds@) {
                    lemma_digits_value_prefix_le(ds@, i + 1);
                    assert(spec_digits_value(ds@) > u64::MAX);
                }
            }
            return None;
        }
        proof {
            assert(acc as int * 10 + d <= u64::MAX) by (nonlinear_arith)
                requires
                    acc <= (u64::MAX - d) / 10,
                    d <= 9,
            ;
            let p = ds@.subrange(0, i + 1);
            assert(p.drop_last() =~= ds@.subrange(0, i as int));
            assert(p.last() == b);
            assert(all_digits(p)) by {
                assert(forall|j: int| 0 <= j < i ==> p[j] == ds@.subrange(0, i as int)[j]);
            }
            assert(spec_digits_value(p) == acc as int * 10 + d);
        }
        acc = acc * 10 + d;
        i += 1;
    }
    proof {
        assert(ds@.subrange(0, ds@.len() as int) =~= ds@);
    }
    Some(acc)
}

/// One configuration line applied to the (address, timeout) state: a
/// `Listen` directive replaces the address (a bare port becomes a
/// dual-stack `[::]:port`), a `Client_timeout` directive with a valid
/// number replaces the timeout, anything else is ignored.
pub open spec fn spec_apply_line(line: Seq<u8>, addr: Option<Seq<u8>>, to: u64) -> (
    Option<Seq<u8>>,
    u64,
) {
    let t = spec_trim(line);
    let lp = "Listen ".spec_bytes();
    let cp = "Client_timeout ".spec_bytes();
    if t.len() >= lp.len() && t.subrange(0, lp.len() as int) == lp {
        let a = spec_trim(t.subrange(lp.len() as int, t.len() as int));
        let new_addr = if spec_find_byte(a, 0x3a) < a.len() {
            a
        } else {
            "[::]:".spec_bytes() + a
        };
        (Some(new_addr), to)
    } else if t.len() >= cp.len() && t.subrange(0, cp.len() as int) == cp {
        match spec_parse_u64(spec_trim(t.subrange(cp.len() as int, t.len() as int))) {
            Some(v) => (addr, v),
            None => (addr, to),
        }
    } else {
        (addr, to)
    }
}

/// The configuration state after every line, in order.
pub open spec fn spec_config_fold(lines: Seq<Seq<u8>>, addr: Option<Seq<u8>>, to: u64) -> (
    Option<Seq<u8>>,
    u64,
)
    decreases lines.len(),
{
    if lines.len() == 0 {
        (addr, to)
    } else {
        let st = spec_apply_line(lines[0], addr, to);
        spec_config_fold(lines.skip(1), st.0, st.1)
    }
}

/// The parsed configuration: the last `Listen` line wins, defaulting to
/// `[::]:8898`; the last valid `Client_timeout` wins, defaulting to 30.
pub open spec fn spec_parse_config(text: Seq<u8>) -> (Seq<u8>, u64) {
    let st = spec_config_fold(spec_lines(text), None, 30);
    (
        match st.0 {
            Some(a) => a,
            None => "[::]:8898".spec_bytes(),
        },
        st.1,
    )
}

fn split_lines(text: &[u8]) -> (r: Vec<Vec<u8>>)
    ensures
        r.deep_view() == spec_lines(text@),
{
    let mut lines: Vec<Vec<u8>> = Vec::new();
    let mut pos: usize = 0;
    proof {
        assert(text@.skip(0) =~= text@);
        assert(lines.deep_view() + spec_lines(text@) =~= spec_lines(text@));
    }
    while pos < text.len()
        invariant
            pos <= text.len(),
            spec_lines(text@) == lines.deep_view() + spec_lines(text@.skip(pos as int)),
        decreases text.len() - pos,
    {
        let ghost t = text@.skip(pos as int);
        let mut k: usize = pos;
        while k < text.len() && text[k] != 0x0a
            invariant
                pos <= k <= text.len(),
                forall|j: int| pos <= j < k ==> text@[j] != 0x0a,
            decreases text.len() - k,
        {
            k += 1;
        }
        proof {
            assert forall|j: int| 0 <= j < k - pos implies t[j] != 0x0a by {
                assert(t[j] == text@[pos + j]);
            }
            if k < text.len() {
                assert(t[k - pos] == text@[k as int]);
            }
            crate::util::lemma_find_byte_at(t, 0x0a, k - pos as int);
            assert(t.subrange(0, k - pos as int) =~= text@.subrange(pos as int, k as int));
        }
        let end = if k > pos && text[k - 1] == 0x0d {
            k - 1
        } else {
            k
        };
        let line = copy_bytes(&text[pos..end]);
        proof {
            let raw = t.subrange(0, k - pos as int);
            if k > pos && text@[k - 1] == 0x0d {
                assert(raw.len() > 0 && raw[raw.len() - 1] == 0x0d);
                assert(raw.drop_last() =~= text@.subrange(pos as int, end as int));
            } else {
                assert(!(raw.len() > 0 && raw[raw.len() - 1] == 0x0d));
            }
        }
        let ghost lines0 = lines.deep_view();
        lines.push(line);
        proof {
            assert(lines.deep_view() =~~= lines0.push(line@));
        }
        if k < text.len() {
            proof {
                assert(t.subrange(k - pos + 1 as int, t.len() as int) =~= text@.skip(k + 1 as int));
                assert(lines.deep_view() + spec_lines(text@.skip(k + 1 as int)) =~= lines0
                    + spec_lines(t));
            }
            pos = k + 1;
        } else {
            proof {
                assert(text@.skip(text@.len() as int).len() == 0);
                assert(lines.deep_view() + spec_lines(text@.skip(text@.len() as int)) =~= lines0
                    + spec_lines(t));
            }
            pos = text.len();
        }
    }
    proof {
        assert(text@.skip(pos as int).len() == 0);
        assert(lines.deep_view() + spec_lines(text@.skip(pos as int)) =~= lines.deep_view());
    }
    lines
}

fn starts_with(s: &[u8], prefix: &[u8]) -> (r: bool)
    ensures
        r == (s@.len() >= prefix@.len() && s@.subrange(0, prefix@.len() as int) == prefix@),
{
    if s.len() < prefix.len() {
        return false;
    }
    let r = bytes_eq(&s[0..prefix.len()], prefix);
    r
}

/// Parses the configuration file's text. Every line is read in order; the
/// last `Listen` directive and the last valid `Client_timeout` directive
/// win, with defaults `[::]:8898` and 30 seconds.
pub fn parse_config(text: &[u8]) -> (c: Config)
    ensures
        c.address@ == spec_parse_config(text@).0,
        c.client_timeout == spec_parse_config(text@).1,
{
    let lines = split_lines(text);
    let ghost lv = spec_lines(text@);
    let mut addr: Option<Vec<u8>> = None;
    let mut to: u64 = 30;
    let mut i: usize = 0;
    proof {
        assert(lv.skip(0) =~= lv);
    }
    while i < lines.len()
        invariant
            i <= lines.len(),
            lines.deep_view() == lv,
            lv.len() == lines@.len(),
            spec_config_fold(lv, None, 30) == spec_config_fold(
                lv.skip(i as int),
                addr.deep_view(),
                to,
            ),
        decreases lines.len() - i,
    {
        let ghost rest = lv.skip(i as int);
        proof {
            assert(lines@[i as int]@ == lv[i as int]);
            assert(rest[0] == lv[i as int]);
            assert(rest.skip(1) =~= lv.skip(i + 1));
        }
        let ghost addr0 = addr.deep_view();
        let ghost to0 = to;
        let t = trim_ascii(lines[i].as_slice());
        let lp = "Listen ".as_bytes();
        let cp = "Client_timeout ".as_bytes();
        if starts_with(t.as_slice(), lp) {
            let a = trim_ascii(&t[lp.len()..t.len()]);
            if find_byte(a.as_slice(), 0x3a) < a.len() {
                proof {
                    assert(a.deep_view() =~= a@);
                }
                addr = Some(a);
            } else {
                let mut na = copy_bytes("[::]:".as_bytes());
                append_bytes(&mut na, a.as_slice());
                proof {
                    assert(na.deep_view() =~= na@);
                }
                addr = Some(na);
            }
            proof {
                assert(addr.deep_view() == spec_apply_line(lv[i as int], addr0, to0).0);
                assert(to == spec_apply_line(lv[i as int], addr0, to0).1);
            }
        } else if starts_with(t.as_slice(), cp) {
            let rest_t = trim_ascii(&t[cp.len()..t.len()]);
            match parse_u64(rest_t.as_slice()) {
                Some(v) => {
                    to = v;
                },
                None => (),
            }
            proof {
                assert(addr.deep_view() == spec_apply_line(lv[i as int], addr0, to0).0);
                assert(to == spec_apply_line(lv[i as int], addr0, to0).1);
            }
        } else {
            proof {
                assert(addr.deep_view() == spec_apply_line(lv[i as int], addr0, to0).0);
                assert(to == spec_apply_line(lv[i as int], addr0, to0).1);
            }
        }
        i += 1;
    }
    proof {
        assert(lv.skip(lv.len() as int).len() == 0);
    }
    let address = match addr {
        Some(a) => a,
        None => copy_bytes("[::]:8898".as_bytes()),
    };
    Config { address, client_timeout: to }
}

} // verus!
