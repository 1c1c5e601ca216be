//! The per-transaction header store: an ordered mapping from header name to
//! the values received under it, names in first-arrival order and values in
//! arrival order, exactly as the MTA delivered them.

use vstd::prelude::*;

verus! {

/// One header name with every value received under it, in arrival order.
pub struct HeaderEntry {
    pub name: Vec<u8>,
    pub values: Vec<Vec<u8>>,
}

impl View for HeaderEntry {
    type V = (Seq<u8>, Seq<Seq<u8>>);

    open spec fn view(&self) -> (Seq<u8>, Seq<Seq<u8>>) {
        (self.name@, self.values.deep_view())
    }
}

/// Ordered header mapping; duplicate names extend the existing entry.
pub struct HeaderMap {
    pub entries: Vec<HeaderEntry>,
}

impl View for HeaderMap {
    type V = Seq<(Seq<u8>, Seq<Seq<u8>>)>;

    open spec fn view(&self) -> Seq<(Seq<u8>, Seq<Seq<u8>>)> {
        Seq::new(self.entries@.len(), |i: int| self.entries@[i]@)
    }
}

/// Each name appears in at most one entry.
pub open spec fn distinct_names(m: Seq<(Seq<u8>, Seq<Seq<u8>>)>) -> bool {
    forall|i: int, j: int| 0 <= i < j < m.len() ==> m[i].0 != m[j].0
}

/// `m` with `v` appended under `n`: the first entry named `n` gains the
/// value, or a new entry is added at the end.
pub open spec fn spec_add_header(
    m: Seq<(Seq<u8>, Seq<Seq<u8>>)>,
    n: Seq<u8>,
    v: Seq<u8>,
) -> Seq<(Seq<u8>, Seq<Seq<u8>>)>
    decreases m.len(),
{
    if m.len() == 0 {
        seq![(n, seq![v])]
    } else if m[0].0 == n {
        seq![(m[0].0, m[0].1.push(v))] + m.skip(1)
    } else {
        seq![m[0]] + spec_add_header(m.skip(1), n, v)
    }
}

/// The values stored under `n`, in arrival order; empty if `n` is absent.
pub open spec fn spec_values_of(m: Seq<(Seq<u8>, Seq<Seq<u8>>)>, n: Seq<u8>) -> Seq<Seq<u8>>
    decreases m.len(),
{
    if m.len() == 0 {
        Seq::empty()
    } else if m[0].0 == n {
        m[0].1
    } else {
        spec_values_of(m.skip(1), n)
    }
}

/// Adding under one name leaves every other name's values unchanged and
/// appends to that name's values.
pub proof fn lemma_add_header_values(
    m: Seq<(Seq<u8>, Seq<Seq<u8>>)>,
    n_add: Seq<u8>,
    v: Seq<u8>,
    n: Seq<u8>,
)
    ensures
        spec_values_of(spec_add_header(m, n_add, v), n) == if n == n_add {
            spec_values_of(m, n).push(v)
        } else {
            spec_values_of(m, n)
        },
    decreases m.len(),
{
    let r = spec_add_header(m, n_add, v);
    if m.len() == 0 {
        assert(r == seq![(n_add, seq![v])]);
        if n == n_add {
            assert(spec_values_of(r, n) == r[0].1);
            assert(spec_values_of(r, n) =~= spec_values_of(m, n).push(v));
        } else {
            assert(spec_values_of(r, n) == spec_values_of(r.skip(1), n));
            assert(r.skip(1).len() == 0);
        }
    } else if m[0].0 == n_add {
        assert(r == seq![(m[0].0, m[0].1.push(v))] + m.skip(1));
        assert(r[0].0 == m[0].0);
        assert(r.skip(1) =~= m.skip(1));
        if n == n_add {
            assert(spec_values_of(r, n) == r[0].1);
            assert(spec_values_of(m, n) == m[0].1);
        } else {
            assert(spec_values_of(r, n) == spec_values_of(r.skip(1), n));
            assert(spec_values_of(m, n) == spec_values_of(m.skip(1), n));
        }
    } else {
        assert(r == seq![m[0]] + spec_add_header(m.skip(1), n_add, v));
        assert(r[0] == m[0]);
        assert(r.skip(1) =~= spec_add_header(m.skip(1), n_add, v));
        lemma_add_header_values(m.skip(1), n_add, v, n);
        if m[0].0 == n {
            assert(spec_values_of(r, n) == r[0].1);
            assert(spec_values_of(m, n) == m[0].1);
        } else {
            assert(spec_values_of(r, n) == spec_values_of(r.skip(1), n));
            assert(spec_values_of(m, n) == spec_values_of(m.skip(1), n));
        }
    }
}

proof fn lemma_add_header_at_match(
    m: Seq<(Seq<u8>, Seq<Seq<u8>>)>,
    n: Seq<u8>,
    v: Seq<u8>,
    i: int,
)
    requires
        0 <= i < m.len(),
        m[i].0 == n,
        forall|j: int| 0 <= j < i ==> m[j].0 != n,
    ensures
        spec_add_header(m, n, v) == m.update(i, (m[i].0, m[i].1.push(v))),
    decreases i,
{
    if i == 0 {
        assert(spec_add_header(m, n, v) =~= m.update(0, (m[0].0, m[0].1.push(v))));
    } else {
        assert(m[0].0 != n);
        let t = m.skip(1);
        assert(t[i - 1].0 == n);
        assert(forall|j: int| 0 <= j < i - 1 ==> t[j].0 != n);
        lemma_add_header_at_match(t, n, v, i - 1);
        assert(spec_add_header(m, n, v) =~= m.update(i, (m[i].0, m[i].1.push(v))));
    }
}

proof fn lemma_add_header_absent(m: Seq<(Seq<u8>, Seq<Seq<u8>>)>, n: Seq<u8>, v: Seq<u8>)
    requires
        forall|j: int| 0 <= j < m.len() ==> m[j].0 != n,
    ensures
        spec_add_header(m, n, v) == m.push((n, seq![v])),
    decreases m.len(),
{
    if m.len() == 0 {
        assert(spec_add_header(m, n, v) =~= m.push((n, seq![v])));
    } else {
        lemma_add_header_absent(m.skip(1), n, v);
        assert(spec_add_header(m, n, v) =~= m.push((n, seq![v])));
    }
}

/// Adding a header keeps names distinct.
pub proof fn lemma_add_header_distinct(m: Seq<(Seq<u8>, Seq<Seq<u8>>)>, n: Seq<u8>, v: Seq<u8>)
    requires
        distinct_names(m),
    ensures
        distinct_names(spec_add_header(m, n, v)),
    decreases m.len(),
{
    if m.len() == 0 {
    } else if m[0].0 == n {
        let r = seq![(m[0].0, m[0].1.push(v))] + m.skip(1);
        assert forall|i: int, j: int| 0 <= i < j < r.len() implies r[i].0 != r[j].0 by {
            assert(m[i].0 == r[i].0 && m[j].0 == r[j].0);
        }
    } else {
        lemma_add_header_distinct(m.skip(1), n, v);
        let r = seq![m[0]] + spec_add_header(m.skip(1), n, v);
        let t = spec_add_header(m.skip(1), n, v);
        assert forall|i: int, j: int| 0 <= i < j < r.len() implies r[i].0 != r[j].0 by {
            if i == 0 {
                lemma_add_header_names(m.skip(1), n, v, j - 1);
            }
        }
    }
}

/// Every name in the result of an add is either an old name or the added one.
proof fn lemma_add_header_names(m: Seq<(Seq<u8>, Seq<Seq<u8>>)>, n: Seq<u8>, v: Seq<u8>, j: int)
    requires
        0 <= j < spec_add_header(m, n, v).len(),
    ensures
        spec_add_header(m, n, v)[j].0 == n || exists|k: int|
            0 <= k < m.len() && m[k].0 == spec_add_header(m, n, v)[j].0,
    decreases m.len(),
{
    if m.len() == 0 {
    } else if m[0].0 == n {
        if j > 0 {
            assert(spec_add_header(m, n, v)[j] == m[j]);
        }
    } else {
        if j > 0 {
            lemma_add_header_names(m.skip(1), n, v, j - 1);
            if spec_add_header(m.skip(1), n, v)[j - 1].0 != n {
                let k = choose|k: int|
                    0 <= k < m.skip(1).len() && m.skip(1)[k].0 == spec_add_header(
                        m.skip(1),
                        n,
                        v,
                    )[j - 1].0;
                assert(m[k + 1].0 == spec_add_header(m, n, v)[j].0);
            }
        }
    }
}

impl HeaderMap {
    /// Names are distinct, so lookups are unambiguous.
    pub open spec fn wf(&self) -> bool {
        distinct_names(self@)
    }

    /// An empty header store.
    pub fn new() -> (r: Self)
        ensures
            r@ == Seq::<(Seq<u8>, Seq<Seq<u8>>)>::empty(),
            r.wf(),
    {
        let r = HeaderMap { entries: Vec::new() };
        proof {
            assert(r@ =~= Seq::<(Seq<u8>, Seq<Seq<u8>>)>::empty());
        }
        r
    }

    /// Appends `value` under `name`, extending the existing entry if the
    /// name was seen before and adding a new entry at the end otherwise.
    pub fn add(&mut self, name: Vec<u8>, value: Vec<u8>)
        requires
            old(self).wf(),
        ensures
            final(self)@ == spec_add_header(old(self)@, name@, value@),
            final(self).wf(),
    {
        let ghost m = self@;
        let mut i: usize = 0;
        while i < self.entries.len()
            invariant
                i <= self.entries.len(),
                self@ == m,
                m == old(self)@,
                distinct_names(m),
                forall|j: int| 0 <= j < i ==> m[j].0 != name@,
            decreases self.entries.len() - i,
        {
            if crate::util::bytes_eq(self.entries[i].name.as_slice(), name.as_slice()) {
                proof {
                    lemma_add_header_at_match(m, name@, value@, i as int);
                    lemma_add_header_distinct(m, name@, value@);
                }
                let ghost entries0 = self.entries@;
                let mut e = self.entries.remove(i);
                e.values.push(value);
                proof {
                    assert(e.name@ == m[i as int].0);
                    assert(e.values.deep_view() =~~= m[i as int].1.push(value@));
                }
                self.entries.insert(i, e);
                proof {
                    assert(self.entries@ =~= entries0.update(i as int, e));
                    assert(e@ == (m[i as int].0, m[i as int].1.push(value@)));
                    assert(self@ =~= m.update(i as int, (m[i as int].0, m[i as int].1.push(
                        value@,
                    ))));
                    assert(self@ == spec_add_header(m, name@, value@));
                }
                return ;
            }
            i += 1;
        }
        proof {
            lemma_add_header_absent(m, name@, value@);
            lemma_add_header_distinct(m, name@, value@);
        }
        let e = HeaderEntry { name, values: vec![value] };
        proof {
            assert(e.values.deep_view() =~~= seq![value@]);
        }
        self.entries.push(e);
        proof {
            assert(self@ =~= m.push((name@, seq![value@])));
        }
    }

    /// Drops every entry, restoring the per-transaction initial state.
    pub fn clear(&mut self)
        ensures
            final(self)@ == Seq::<(Seq<u8>, Seq<Seq<u8>>)>::empty(),
            final(self).wf(),
    {
        self.entries.clear();
        proof {
            assert(self@ =~= Seq::<(Seq<u8>, Seq<Seq<u8>>)>::empty());
        }
    }

    /// The number of distinct header names stored.
    pub fn len(&self) -> (r: usize)
        ensures
            r == self@.len(),
    {
        self.entries.len()
    }
}

/// The header store after a whole sequence of (name, value) arrivals,
/// applied in order to an empty store.
pub open spec fn spec_apply_headers(pairs: Seq<(Seq<u8>, Seq<u8>)>) -> Seq<
    (Seq<u8>, Seq<Seq<u8>>),
>
    decreases pairs.len(),
{
    if pairs.len() == 0 {
        Seq::empty()
    } else {
        spec_add_header(
            spec_apply_headers(pairs.drop_last()),
            pairs.last().0,
            pairs.last().1,
        )
    }
}

/// A store built from any arrival sequence has distinct names.
pub proof fn lemma_apply_headers_distinct(pairs: Seq<(Seq<u8>, Seq<u8>)>)
    ensures
        distinct_names(spec_apply_headers(pairs)),
    decreases pairs.len(),
{
    if pairs.len() == 0 {
    } else {
        lemma_apply_headers_distinct(pairs.drop_last());
        lemma_add_header_distinct(
            spec_apply_headers(pairs.drop_last()),
            pairs.last().0,
            pairs.last().1,
        );
    }
}

/// Under distinct names, the values of the name at entry `i` are that
/// entry's values.
pub proof fn lemma_values_at(m: Seq<(Seq<u8>, Seq<Seq<u8>>)>, i: int)
    requires
        distinct_names(m),
        0 <= i < m.len(),
    ensures
        spec_values_of(m, m[i].0) == m[i].1,
    decreases i,
{
    if i == 0 {
    } else {
        assert(m[0].0 != m[i].0);
        let t = m.skip(1);
        assert(distinct_names(t)) by {
            assert(forall|a: int, b: int|
                0 <= a < b < t.len() ==> t[a] == m[a + 1] && t[b] == m[b + 1]);
        }
        lemma_values_at(t, i - 1);
        assert(t[i - 1] == m[i]);
    }
}

/// The values that arrived under `n`, in arrival order.
pub open spec fn spec_arrivals_for(pairs: Seq<(Seq<u8>, Seq<u8>)>, n: Seq<u8>) -> Seq<Seq<u8>> {
    pairs.filter(|p: (Seq<u8>, Seq<u8>)| p.0 == n).map_values(|p: (Seq<u8>, Seq<u8>)| p.1)
}

/// Header preservation: after any sequence of header arrivals, the values
/// stored under a name are exactly the values that arrived under that name,
/// in arrival order.
pub proof fn lemma_header_preservation(pairs: Seq<(Seq<u8>, Seq<u8>)>, n: Seq<u8>)
    ensures
        spec_values_of(spec_apply_headers(pairs), n) == spec_arrivals_for(pairs, n),
    decreases pairs.len(),
{
    reveal(Seq::filter);
    if pairs.len() == 0 {
        assert(spec_values_of(spec_apply_headers(pairs), n) =~= spec_arrivals_for(pairs, n));
    } else {
        let rest = pairs.drop_last();
        let last = pairs.last();
        lemma_header_preservation(rest, n);
        lemma_add_header_values(spec_apply_headers(rest), last.0, last.1, n);
        if last.0 == n {
            assert(spec_arrivals_for(pairs, n) =~= spec_arrivals_for(rest, n).push(last.1));
        } else {
            assert(spec_arrivals_for(pairs, n) =~= spec_arrivals_for(rest, n));
        }
    }
}

} // verus!
