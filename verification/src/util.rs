//! Byte-level helpers shared by the protocol modules: appending,
//! comparison, whitespace trimming, hex dumps and decimal rendering.

use vstd::prelude::*;

verus! {

/// Appends every byte of `src` to `dst`.
pub fn append_bytes(dst: &mut Vec<u8>, src: &[u8])
    ensures
        final(dst)@ == old(dst)@ + src@,
{
    let mut i: usize = 0;
    while i < src.len()
        invariant
            i <= src.len(),
            dst@ == old(dst)@ + src@.subrange(0, i as int),
        decreases src.len() - i,
    {
        dst.push(src[i]);
        proof {
            assert(dst@ =~= old(dst)@ + src@.subrange(0, i + 1 as int));
        }
        i += 1;
    }
    proof {
        assert(src@.subrange(0, src@.len() as int) =~= src@);
    }
}

/// Copies a slice into a fresh vector.
pub fn copy_bytes(src: &[u8]) -> (r: Vec<u8>)
    ensures
        r@ == src@,
{
    let mut r: Vec<u8> = Vec::new();
    append_bytes(&mut r, src);
    proof {
        assert(r@ =~= src@);
    }
    r
}

/// The index of the first occurrence of `b` in `s`, or `s.len()` if absent.
pub open spec fn spec_find_byte(s: Seq<u8>, b: u8) -> int
    decreases s.len(),
{
    if s.len() == 0 {
        0
    } else if s[0] == b {
        0
    } else {
        1 + spec_find_byte(s.skip(1), b)
    }
}

/// What the first-occurrence index satisfies: it is in range, nothing before
/// it is `b`, and it points at `b` unless `b` is absent.
pub proof fn lemma_find_byte_props(s: Seq<u8>, b: u8)
    ensures
        0 <= spec_find_byte(s, b) <= s.len(),
        forall|j: int| 0 <= j < spec_find_byte(s, b) ==> s[j] != b,
        spec_find_byte(s, b) < s.len() ==> s[spec_find_byte(s, b)] == b,
    decreases s.len(),
{
    if s.len() == 0 {
    } else if s[0] == b {
    } else {
        lemma_find_byte_props(s.skip(1), b);
        assert forall|j: int| 0 <= j < spec_find_byte(s, b) implies s[j] != b by {
            if j > 0 {
                assert(s.skip(1)[j - 1] == s[j]);
            }
        }
    }
}

pub proof fn lemma_find_byte_at(s: Seq<u8>, b: u8, k: int)
    requires
        0 <= k <= s.len(),
        forall|j: int| 0 <= j < k ==> s[j] != b,
        k < s.len() ==> s[k] == b,
    ensures
        spec_find_byte(s, b) == k,
    decreases k,
{
    if k == 0 {
        if s.len() > 0 && s[0] == b {
        }
    } else {
        assert(s[0] != b);
        let t = s.skip(1);
        assert(forall|j: int| 0 <= j < k - 1 ==> t[j] != b);
        assert(k - 1 < t.len() ==> t[k - 1] == b);
        lemma_find_byte_at(t, b, k - 1);
    }
}

/// Finds the first occurrence of `b` in `s`, or `s.len()` if absent.
pub fn find_byte(s: &[u8], b: u8) -> (k: usize)
    ensures
        k == spec_find_byte(s@, b),
{
    let mut i: usize = 0;
    while i < s.len()
        invariant
            i <= s.len(),
            forall|j: int| 0 <= j < i ==> s@[j] != b,
        decreases s.len() - i,
    {
        if s[i] == b {
            proof {
                lemma_find_byte_at(s@, b, i as int);
            }
            return i;
        }
        i += 1;
    }
    proof {
        lemma_find_byte_at(s@, b, s@.len() as int);
    }
    s.len()
}

/// Byte-wise equality of two slices.
pub fn bytes_eq(a: &[u8], b: &[u8]) -> (r: bool)
    ensures
        r == (a@ == b@),
{
    if a.len() != b.len() {
        proof {
            assert(a@.len() != b@.len());
        }
        return false;
    }
    let mut i: usize = 0;
    while i < a.len()
        invariant
            i <= a.len(),
            a@.len() == b@.len(),
            forall|j: int| 0 <= j < i ==> a@[j] == b@[j],
        decreases a.len() - i,
    {
        if a[i] != b[i] {
            return false;
        }
        i += 1;
    }
    proof {
        assert(a@ =~= b@);
    }
    true
}

/// ASCII whitespace, the bytes that `char::is_whitespace` accepts below 0x80.
pub open spec fn is_ascii_space(b: u8) -> bool {
    b == 0x20 || b == 0x09 || b == 0x0a || b == 0x0b || b == 0x0c || b == 0x0d
}

/// `s` without its leading ASCII whitespace.
pub open spec fn spec_trim_start(s: Seq<u8>) -> Seq<u8>
    decreases s.len(),
{
    if s.len() > 0 && is_ascii_space(s[0]) {
        spec_trim_start(s.skip(1))
    } else {
        s
    }
}

/// `s` without its trailing ASCII whitespace.
pub open spec fn spec_trim_end(s: Seq<u8>) -> Seq<u8>
    decreases s.len(),
{
    if s.len() > 0 && is_ascii_space(s[s.len() - 1]) {
        spec_trim_end(s.drop_last())
    } else {
        s
    }
}

/// `s` without its trailing NUL bytes.
pub open spec fn spec_trim_nul_end(s: Seq<u8>) -> Seq<u8>
    decreases s.len(),
{
    if s.len() > 0 && s[s.len() - 1] == 0 {
        spec_trim_nul_end(s.drop_last())
    } else {
        s
    }
}

/// A header field as stored: surrounding ASCII whitespace removed first,
/// then any trailing NUL bytes.
pub open spec fn spec_field_trim(s: Seq<u8>) -> Seq<u8> {
    spec_trim_nul_end(spec_trim_end(spec_trim_start(s)))
}

proof fn lemma_trim_start_range(s: Seq<u8>, lo: int)
    requires
        0 <= lo <= s.len(),
        forall|j: int| 0 <= j < lo ==> is_ascii_space(s[j]),
        lo < s.len() ==> !is_ascii_space(s[lo]),
    ensures
        spec_trim_start(s) == s.subrange(lo, s.len() as int),
    decreases lo,
{
    if lo == 0 {
        if s.len() > 0 && is_ascii_space(s[0]) {
            assert(false);
        }
        assert(s.subrange(0, s.len() as int) =~= s);
    } else {
        assert(is_ascii_space(s[0]));
        let t = s.skip(1);
        lemma_trim_start_range(t, lo - 1);
        assert(t.subrange(lo - 1, t.len() as int) =~= s.subrange(lo, s.len() as int));
    }
}

proof fn lemma_trim_end_range(s: Seq<u8>, hi: int)
    requires
        0 <= hi <= s.len(),
        forall|j: int| hi <= j < s.len() ==> is_ascii_space(s[j]),
        hi > 0 ==> !is_ascii_space(s[hi - 1]),
    ensures
        spec_trim_end(s) == s.subrange(0, hi),
    decreases s.len() - hi,
{
    if hi == s.len() {
        if s.len() > 0 && is_ascii_space(s[s.len() - 1]) {
            assert(false);
        }
        assert(s.subrange(0, s.len() as int) =~= s);
    } else {
        assert(is_ascii_space(s[s.len() - 1]));
        let t = s.drop_last();
        assert(t =~= s.subrange(0, s.len() - 1));
        lemma_trim_end_range(t, hi);
        assert(t.subrange(0, hi) =~= s.subrange(0, hi));
    }
}

proof fn lemma_trim_nul_range(s: Seq<u8>, hi: int)
    requires
        0 <= hi <= s.len(),
        forall|j: int| hi <= j < s.len() ==> s[j] == 0,
        hi > 0 ==> s[hi - 1] != 0,
    ensures
        spec_trim_nul_end(s) == s.subrange(0, hi),
    decreases s.len() - hi,
{
    if hi == s.len() {
        if s.len() > 0 && s[s.len() - 1] == 0 {
            assert(false);
        }
        assert(s.subrange(0, s.len() as int) =~= s);
    } else {
        assert(s[s.len() - 1] == 0);
        let t = s.drop_last();
        assert(t =~= s.subrange(0, s.len() - 1));
        lemma_trim_nul_range(t, hi);
        assert(t.subrange(0, hi) =~= s.subrange(0, hi));
    }
}

fn is_space_byte(b: u8) -> (r: bool)
    ensures
        r == is_ascii_space(b),
{
    b == 0x20 || b == 0x09 || b == 0x0a || b == 0x0b || b == 0x0c || b == 0x0d
}

/// `s` without surrounding ASCII whitespace.
pub open spec fn spec_trim(s: Seq<u8>) -> Seq<u8> {
    spec_trim_end(spec_trim_start(s))
}

/// Copies `s` with surrounding ASCII whitespace removed.
pub fn trim_ascii(s: &[u8]) -> (r: Vec<u8>)
    ensures
        r@ == spec_trim(s@),
{
    let mut lo: usize = 0;
    while lo < s.len() && is_space_byte(s[lo])
        invariant
            lo <= s.len(),
            forall|j: int| 0 <= j < lo ==> is_ascii_space(s@[j]),
        decreases s.len() - lo,
    {
        lo += 1;
    }
    proof {
        lemma_trim_start_range(s@, lo as int);
    }
    let mut hi: usize = s.len();
    while hi > lo && is_space_byte(s[hi - 1])
        invariant
            lo <= hi <= s.len(),
            forall|j: int| hi <= j < s.len() ==> is_ascii_space(s@[j]),
        decreases hi,
    {
        hi -= 1;
    }
    let ghost mid = s@.subrange(lo as int, s@.len() as int);
    proof {
        if hi == lo {
            assert(forall|j: int| 0 <= j < mid.len() ==> is_ascii_space(mid[j]));
            lemma_trim_end_range(mid, 0);
        } else {
            assert(!is_ascii_space(mid[hi - lo - 1]));
            lemma_trim_end_range(mid, hi - lo);
        }
        assert(spec_trim_end(mid) == s@.subrange(lo as int, hi as int));
    }
    let mut r: Vec<u8> = Vec::new();
    let mut i: usize = lo;
    while i < hi
        invariant
            lo <= i <= hi <= s.len(),
            r@ == s@.subrange(lo as int, i as int),
        decreases hi - i,
    {
        r.push(s[i]);
        proof {
            assert(r@ =~= s@.subrange(lo as int, i + 1 as int));
        }
        i += 1;
    }
    r
}

/// Copies `s` with surrounding ASCII whitespace and then trailing NULs removed.
pub fn field_trim(s: &[u8]) -> (r: Vec<u8>)
    ensures
        r@ == spec_field_trim(s@),
{
    let mut lo: usize = 0;
    while lo < s.len() && is_space_byte(s[lo])
        invariant
            lo <= s.len(),
            forall|j: int| 0 <= j < lo ==> is_ascii_space(s@[j]),
        decreases s.len() - lo,
    {
        lo += 1;
    }
    proof {
        lemma_trim_start_range(s@, lo as int);
    }
    let mut hi: usize = s.len();
    while hi > lo && is_space_byte(s[hi - 1])
        invariant
            lo <= hi <= s.len(),
            forall|j: int| hi <= j < s.len() ==> is_ascii_space(s@[j]),
        decreases hi,
    {
        hi -= 1;
    }
    let ghost mid = s@.subrange(lo as int, s@.len() as int);
    proof {
        if hi == lo {
            assert(forall|j: int| 0 <= j < mid.len() ==> is_ascii_space(mid[j]));
            lemma_trim_end_range(mid, 0);
        } else {
            assert(!is_ascii_space(mid[hi - lo - 1]));
            lemma_trim_end_range(mid, hi - lo);
        }
        assert(spec_trim_end(mid) == s@.subrange(lo as int, hi as int));
    }
    let ghost trimmed = s@.subrange(lo as int, hi as int);
    let mut hi2: usize = hi;
    while hi2 > lo && s[hi2 - 1] == 0
        invariant
            lo <= hi2 <= hi <= s.len(),
            forall|j: int| hi2 <= j < hi ==> s@[j] == 0,
        decreases hi2,
    {
        hi2 -= 1;
    }
    proof {
        if hi2 == lo {
            lemma_trim_nul_range(trimmed, 0);
        } else {
            lemma_trim_nul_range(trimmed, hi2 - lo);
        }
        assert(spec_trim_nul_end(trimmed) == s@.subrange(lo as int, hi2 as int));
    }
    let mut r: Vec<u8> = Vec::new();
    let mut i: usize = lo;
    while i < hi2
        invariant
            lo <= i <= hi2 <= s.len(),
            r@ == s@.subrange(lo as int, i as int),
        decreases hi2 - i,
    {
        r.push(s[i]);
        proof {
            assert(r@ =~= s@.subrange(lo as int, i + 1 as int));
        }
        i += 1;
    }
    r
}

/// ASCII lower-casing of one byte.
pub open spec fn spec_to_lower(b: u8) -> u8 {
    if 0x41 <= b <= 0x5a {
        (b + 0x20) as u8
    } else {
        b
    }
}

/// ASCII lower-casing of a byte sequence.
pub open spec fn spec_to_lower_seq(s: Seq<u8>) -> Seq<u8> {
    s.map_values(|b: u8| spec_to_lower(b))
}

/// ASCII case-insensitive equality.
pub open spec fn spec_ascii_eq_ci(a: Seq<u8>, b: Seq<u8>) -> bool {
    spec_to_lower_seq(a) == spec_to_lower_seq(b)
}

/// Copies `s` with every ASCII uppercase letter lowered.
pub fn to_lower_bytes(s: &[u8]) -> (r: Vec<u8>)
    ensures
        r@ == spec_to_lower_seq(s@),
{
    let mut r: Vec<u8> = Vec::new();
    let mut i: usize = 0;
    while i < s.len()
        invariant
            i <= s.len(),
            r@ == spec_to_lower_seq(s@.subrange(0, i as int)),
        decreases s.len() - i,
    {
        let b = s[i];
        if 0x41 <= b && b <= 0x5a {
            r.push(b + 0x20);
        } else {
            r.push(b);
        }
        proof {
            assert(r@ =~= spec_to_lower_seq(s@.subrange(0, i + 1 as int)));
        }
        i += 1;
    }
    proof {
        assert(spec_to_lower_seq(s@.subrange(0, s@.len() as int)) =~= spec_to_lower_seq(s@));
    }
    r
}

/// Compares two byte slices ASCII case-insensitively.
pub fn ascii_eq_ci(a: &[u8], b: &[u8]) -> (r: bool)
    ensures
        r == spec_ascii_eq_ci(a@, b@),
{
    let la = to_lower_bytes(a);
    let lb = to_lower_bytes(b);
    bytes_eq(la.as_slice(), lb.as_slice())
}

/// The first index in `names` that equals `key` ASCII case-insensitively,
/// or `names.len()` if none does.
pub open spec fn spec_find_ci(names: Seq<Seq<u8>>, key: Seq<u8>) -> int
    decreases names.len(),
{
    if names.len() == 0 {
        0
    } else if spec_ascii_eq_ci(names[0], key) {
        0
    } else {
        1 + spec_find_ci(names.skip(1), key)
    }
}

/// What the case-insensitive first match satisfies.
pub proof fn lemma_find_ci_props(names: Seq<Seq<u8>>, key: Seq<u8>)
    ensures
        0 <= spec_find_ci(names, key) <= names.len(),
        spec_find_ci(names, key) < names.len() ==> spec_ascii_eq_ci(
            names[spec_find_ci(names, key)],
            key,
        ),
    decreases names.len(),
{
    if names.len() == 0 {
    } else if spec_ascii_eq_ci(names[0], key) {
    } else {
        lemma_find_ci_props(names.skip(1), key);
    }
}

proof fn lemma_find_ci_at(names: Seq<Seq<u8>>, key: Seq<u8>, k: int)
    requires
        0 <= k <= names.len(),
        forall|j: int| 0 <= j < k ==> !spec_ascii_eq_ci(#[trigger] names[j], key),
        k < names.len() ==> spec_ascii_eq_ci(names[k], key),
    ensures
        spec_find_ci(names, key) == k,
    decreases k,
{
    if k == 0 {
    } else {
        assert(!spec_ascii_eq_ci(names[0], key));
        let t = names.skip(1);
        assert(forall|j: int| 0 <= j < k - 1 ==> !spec_ascii_eq_ci(#[trigger] t[j], key));
        assert(k - 1 < t.len() ==> spec_ascii_eq_ci(t[k - 1], key));
        lemma_find_ci_at(t, key, k - 1);
    }
}

/// Finds the first name equal to `key` ASCII case-insensitively.
pub fn find_ci(names: &Vec<Vec<u8>>, key: &[u8]) -> (k: usize)
    ensures
        k == spec_find_ci(names.deep_view(), key@),
{
    let ghost nv = names.deep_view();
    let mut i: usize = 0;
    while i < names.len()
        invariant
            i <= names.len(),
            nv == names.deep_view(),
            nv.len() == names@.len(),
            forall|j: int| 0 <= j < i ==> !spec_ascii_eq_ci(#[trigger] nv[j], key@),
        decreases names.len() - i,
    {
        proof {
            assert(names@[i as int]@ == nv[i as int]);
        }
        if ascii_eq_ci(names[i].as_slice(), key) {
            proof {
                lemma_find_ci_at(nv, key@, i as int);
            }
            return i;
        }
        i += 1;
    }
    proof {
        lemma_find_ci_at(nv, key@, nv.len() as int);
    }
    names.len()
}

/// The value of the first attribute named `key` ASCII case-insensitively.
pub open spec fn spec_attr_ci(attrs: Seq<(Seq<u8>, Seq<u8>)>, key: Seq<u8>) -> Option<Seq<u8>>
    decreases attrs.len(),
{
    if attrs.len() == 0 {
        None
    } else if spec_ascii_eq_ci(attrs[0].0, key) {
        Some(attrs[0].1)
    } else {
        spec_attr_ci(attrs.skip(1), key)
    }
}

/// Looks up the first attribute named `key` ASCII case-insensitively.
pub fn attr_ci(attrs: &Vec<(Vec<u8>, Vec<u8>)>, key: &[u8]) -> (r: Option<Vec<u8>>)
    ensures
        r.deep_view() == spec_attr_ci(attrs.deep_view(), key@),
{
    let ghost av = attrs.deep_view();
    let mut i: usize = 0;
    proof {
        assert(av.skip(0) =~= av);
    }
    while i < attrs.len()
        invariant
            i <= attrs.len(),
            av == attrs.deep_view(),
            av.len() == attrs@.len(),
            spec_attr_ci(av, key@) == spec_attr_ci(av.skip(i as int), key@),
        decreases attrs.len() - i,
    {
        let ghost t = av.skip(i as int);
        proof {
            assert(attrs@[i as int].0@ == av[i as int].0);
            assert(attrs@[i as int].1@ == av[i as int].1);
            assert(t[0] == av[i as int]);
            assert(t.skip(1) =~= av.skip(i + 1));
        }
        if ascii_eq_ci(attrs[i].0.as_slice(), key) {
            let v = copy_bytes(attrs[i].1.as_slice());
            return Some(v);
        }
        i += 1;
    }
    proof {
        assert(av.skip(av.len() as int).len() == 0);
    }
    None
}

/// The ASCII digit or uppercase letter for one hex nibble.
pub open spec fn spec_hex_digit(n: u8) -> u8 {
    if n < 10 {
        (0x30 + n) as u8
    } else {
        (0x41 + (n - 10)) as u8
    }
}

/// Two uppercase hex digits for one byte.
pub open spec fn spec_hex_byte(b: u8) -> Seq<u8> {
    seq![spec_hex_digit(b / 16), spec_hex_digit(b % 16)]
}

/// A space-separated uppercase hex dump, two digits per byte.
pub open spec fn spec_hex_dump(s: Seq<u8>) -> Seq<u8>
    decreases s.len(),
{
    if s.len() == 0 {
        Seq::empty()
    } else if s.len() == 1 {
        spec_hex_byte(s[0])
    } else {
        spec_hex_dump(s.drop_last()) + seq![0x20u8] + spec_hex_byte(s.last())
    }
}

fn hex_digit(n: u8) -> (r: u8)
    requires
        n < 16,
    ensures
        r == spec_hex_digit(n),
{
    if n < 10 {
        0x30 + n
    } else {
        0x41 + (n - 10)
    }
}

/// Renders `s` as a space-separated uppercase hex dump.
pub fn hex_dump(s: &[u8]) -> (r: Vec<u8>)
    ensures
        r@ == spec_hex_dump(s@),
{
    let mut r: Vec<u8> = Vec::new();
    let mut i: usize = 0;
    while i < s.len()
        invariant
            i <= s.len(),
            r@ == spec_hex_dump(s@.subrange(0, i as int)),
        decreases s.len() - i,
    {
        if i > 0 {
            r.push(0x20);
        }
        let b = s[i];
        r.push(hex_digit(b / 16));
        r.push(hex_digit(b % 16));
        proof {
            let pre = s@.subrange(0, i as int);
            let cur = s@.subrange(0, i + 1 as int);
            assert(cur.drop_last() =~= pre);
            assert(cur.last() == s@[i as int]);
            if i == 0 {
                assert(r@ =~= spec_hex_byte(s@[0]));
            } else {
                assert(r@ =~= spec_hex_dump(pre) + seq![0x20u8] + spec_hex_byte(s@[i as int]));
            }
        }
        i += 1;
    }
    proof {
        assert(s@.subrange(0, s@.len() as int) =~= s@);
    }
    r
}

/// The decimal digits of `n`, most significant first.
pub open spec fn spec_dec_u64(n: u64) -> Seq<u8>
    decreases n,
{
    if n < 10 {
        seq![(0x30 + n) as u8]
    } else {
        spec_dec_u64(n / 10) + seq![(0x30 + n % 10) as u8]
    }
}

/// Appends the decimal rendering of `n` to `out`.
pub fn push_dec_u64(out: &mut Vec<u8>, n: u64)
    ensures
        final(out)@ == old(out)@ + spec_dec_u64(n),
    decreases n,
{
    if n < 10 {
        out.push(0x30 + n as u8);
        proof {
            assert(out@ =~= old(out)@ + spec_dec_u64(n));
        }
    } else {
        proof {
            assert(n / 10 < n) by (nonlinear_arith)
                requires
                    n >= 10,
            ;
        }
        push_dec_u64(out, n / 10);
        out.push(0x30 + (n % 10) as u8);
        proof {
            assert(out@ =~= old(out)@ + spec_dec_u64(n));
        }
    }
}

} // verus!
