//! A header map: an ordered multimap from lowercase header names to values,
//! both held as plain bytes. Lookups fold the queried name to lowercase, so
//! matching is case-insensitive as HTTP requires.

use vstd::prelude::*;
use crate::bytes::{
    bytes_eq, lower_bytes, spec_lower, spec_trim, split_commas, split_commas_vec, trim_bytes,
    views,
};

verus! {

/// One name-value pair of a header map, as mathematical sequences.
pub type HeaderEntry = (Seq<u8>, Seq<u8>);

/// The value of the first entry named `n`, scanning from the front.
pub open spec fn h_get(h: Seq<HeaderEntry>, n: Seq<u8>) -> Option<Seq<u8>>
    decreases h.len(),
{
    if h.len() == 0 {
        None
    } else if h[0].0 == n {
        Some(h[0].1)
    } else {
        h_get(h.skip(1), n)
    }
}

/// Whether some entry is named `n`.
pub open spec fn h_has(h: Seq<HeaderEntry>, n: Seq<u8>) -> bool {
    h_get(h, n) is Some
}

/// The values of every entry named `n`, in order.
pub open spec fn h_values(h: Seq<HeaderEntry>, n: Seq<u8>) -> Seq<Seq<u8>>
    decreases h.len(),
{
    if h.len() == 0 {
        Seq::empty()
    } else if h[0].0 == n {
        seq![h[0].1] + h_values(h.skip(1), n)
    } else {
        h_values(h.skip(1), n)
    }
}

/// `h` with every entry named `n` dropped.
pub open spec fn h_remove(h: Seq<HeaderEntry>, n: Seq<u8>) -> Seq<HeaderEntry>
    decreases h.len(),
{
    if h.len() == 0 {
        Seq::empty()
    } else if h[0].0 == n {
        h_remove(h.skip(1), n)
    } else {
        seq![h[0]] + h_remove(h.skip(1), n)
    }
}

/// Replacement: every old entry named `n` leaves, one new entry arrives at the end.
pub open spec fn h_insert(h: Seq<HeaderEntry>, n: Seq<u8>, v: Seq<u8>) -> Seq<HeaderEntry> {
    h_remove(h, n).push((n, v))
}

/// Every name in the map is already lowercase.
pub open spec fn wf_entries(h: Seq<HeaderEntry>) -> bool {
    forall|i: int| 0 <= i < h.len() ==> (#[trigger] h[i]).0 == spec_lower(h[i].0)
}

/// Each value of `ss`, trimmed.
pub open spec fn trim_all(ss: Seq<Seq<u8>>) -> Seq<Seq<u8>> {
    Seq::new(ss.len(), |i: int| spec_trim(ss[i]))
}

/// Every comma-separated token of every listed value, trimmed: the way the
/// engine reads multi-valued headers such as `Vary` or `Connection`.
pub open spec fn comma_tokens(vals: Seq<Seq<u8>>) -> Seq<Seq<u8>>
    decreases vals.len(),
{
    if vals.len() == 0 {
        Seq::empty()
    } else {
        trim_all(split_commas(vals[0])) + comma_tokens(vals.skip(1))
    }
}

/// The comma-separated tokens of every entry of `h` named `n`.
pub open spec fn h_tokens(h: Seq<HeaderEntry>, n: Seq<u8>) -> Seq<Seq<u8>> {
    comma_tokens(h_values(h, n))
}

/// Removing one name leaves lookups of every other name alone.
pub proof fn lemma_remove_other(h: Seq<HeaderEntry>, n: Seq<u8>, m: Seq<u8>)
    requires
        m != n,
    ensures
        h_get(h_remove(h, n), m) == h_get(h, m),
    decreases h.len(),
{
    if h.len() > 0 {
        lemma_remove_other(h.skip(1), n, m);
        if h[0].0 != n {
            assert((seq![h[0]] + h_remove(h.skip(1), n)).skip(1) =~= h_remove(h.skip(1), n));
        }
    }
}

/// Removing a name removes it.
pub proof fn lemma_remove_gone(h: Seq<HeaderEntry>, n: Seq<u8>)
    ensures
        h_get(h_remove(h, n), n) is None,
    decreases h.len(),
{
    if h.len() > 0 {
        lemma_remove_gone(h.skip(1), n);
        if h[0].0 != n {
            assert((seq![h[0]] + h_remove(h.skip(1), n)).skip(1) =~= h_remove(h.skip(1), n));
        }
    }
}

/// What remains after a removal was already there.
pub proof fn lemma_remove_subset(h: Seq<HeaderEntry>, n: Seq<u8>, i: int)
    requires
        0 <= i < h_remove(h, n).len(),
    ensures
        exists|j: int| 0 <= j < h.len() && h[j] == h_remove(h, n)[i],
    decreases h.len(),
{
    if h.len() > 0 {
        if h[0].0 == n {
            lemma_remove_subset(h.skip(1), n, i);
            let j = choose|j: int| 0 <= j < h.skip(1).len() && h.skip(1)[j] == h_remove(
                h.skip(1),
                n,
            )[i];
            assert(h[j + 1] == h_remove(h, n)[i]);
        } else {
            let t = seq![h[0]] + h_remove(h.skip(1), n);
            if i == 0 {
                assert(h[0] == h_remove(h, n)[0]);
            } else {
                assert(t[i] == h_remove(h.skip(1), n)[i - 1]);
                lemma_remove_subset(h.skip(1), n, i - 1);
                let j = choose|j: int| 0 <= j < h.skip(1).len() && h.skip(1)[j] == h_remove(
                    h.skip(1),
                    n,
                )[i - 1];
                assert(h[j + 1] == h_remove(h, n)[i]);
            }
        }
    }
}

/// What a lookup sees past an appended entry.
pub proof fn lemma_h_get_push(h: Seq<HeaderEntry>, n: Seq<u8>, v: Seq<u8>, m: Seq<u8>)
    ensures
        h_get(h.push((n, v)), m) == (if h_get(h, m) is Some {
            h_get(h, m)
        } else if m == n {
            Some(v)
        } else {
            Option::<Seq<u8>>::None
        }),
    decreases h.len(),
{
    if h.len() == 0 {
        assert(h.push((n, v))[0] == (n, v));
        assert(h.push((n, v)).skip(1) =~= h);
    } else {
        assert(h.push((n, v))[0] == h[0]);
        assert(h.push((n, v)).skip(1) =~= h.skip(1).push((n, v)));
        lemma_h_get_push(h.skip(1), n, v, m);
    }
}

/// After an insertion the inserted value is what the name resolves to.
pub proof fn lemma_h_insert_get(h: Seq<HeaderEntry>, n: Seq<u8>, v: Seq<u8>)
    ensures
        h_get(h_insert(h, n, v), n) == Some(v),
{
    lemma_remove_gone(h, n);
    lemma_h_get_push(h_remove(h, n), n, v, n);
}

/// An insertion leaves every other name's lookup alone.
pub proof fn lemma_h_insert_other(h: Seq<HeaderEntry>, n: Seq<u8>, v: Seq<u8>, m: Seq<u8>)
    requires
        m != n,
    ensures
        h_get(h_insert(h, n, v), m) == h_get(h, m),
{
    lemma_remove_other(h, n, m);
    lemma_h_get_push(h_remove(h, n), n, v, m);
}

/// Each entry after an insertion is the new pair or an old entry.
pub proof fn lemma_h_insert_entries(h: Seq<HeaderEntry>, n: Seq<u8>, v: Seq<u8>, i: int)
    requires
        0 <= i < h_insert(h, n, v).len(),
    ensures
        h_insert(h, n, v)[i] == (n, v) || exists|j: int| 0 <= j < h.len() && h[j] == h_insert(
            h,
            n,
            v,
        )[i],
{
    if i == h_insert(h, n, v).len() - 1 {
        assert(h_insert(h, n, v)[i] == (n, v));
    } else {
        assert(h_insert(h, n, v)[i] == h_remove(h, n)[i]);
        lemma_remove_subset(h, n, i);
    }
}

/// A sequence of name-value pairs, names folded to lowercase on entry.
pub struct HeaderMap {
    /// The raw storage; build maps through the methods, which keep names lowercase.
    pub entries: Vec<(Vec<u8>, Vec<u8>)>,
}

impl View for HeaderMap {
    type V = Seq<HeaderEntry>;

    open spec fn view(&self) -> Seq<HeaderEntry> {
        Seq::new(self.entries@.len(), |i: int| (self.entries@[i].0@, self.entries@[i].1@))
    }
}

impl HeaderMap {
    /// An empty header map.
    pub fn new() -> (r: HeaderMap)
        ensures
            r@ == Seq::<HeaderEntry>::empty(),
            wf_entries(r@),
    {
        let r = HeaderMap { entries: Vec::new() };
        proof {
            assert(r@ =~= Seq::<HeaderEntry>::empty());
        }
        r
    }

    /// Number of entries.
    pub fn len(&self) -> (r: usize)
        ensures
            r == self@.len(),
    {
        self.entries.len()
    }

    /// Adds an entry at the end, lowercasing the name, keeping other entries.
    pub fn append(&mut self, name: &[u8], value: &[u8])
        ensures
            final(self)@ == old(self)@.push((spec_lower(name@), value@)),
            wf_entries(old(self)@) ==> wf_entries(final(self)@),
    {
        let n = lower_bytes(name);
        let v = vstd::slice::slice_to_vec(value);
        self.entries.push((n, v));
        proof {
            assert(self@ =~= old(self)@.push((spec_lower(name@), value@)));
            crate::bytes::lemma_lower_idempotent(name@);
            if wf_entries(old(self)@) {
                assert forall|i: int| 0 <= i < self@.len() implies (#[trigger] self@[i]).0
                    == spec_lower(self@[i].0) by {
                    if i < old(self)@.len() {
                        assert(self@[i] == old(self)@[i]);
                    }
                }
            }
        }
    }

    /// Drops every entry of the given name.
    pub fn remove(&mut self, name: &[u8])
        ensures
            final(self)@ == h_remove(old(self)@, spec_lower(name@)),
            wf_entries(old(self)@) ==> wf_entries(final(self)@),
    {
        let n = lower_bytes(name);
        let mut out: Vec<(Vec<u8>, Vec<u8>)> = Vec::new();
        let mut i: usize = 0;
        let ghost h = self@;
        proof {
            assert(h.skip(0) =~= h);
            let e: Seq<HeaderEntry> = Seq::empty();
            assert(e + h_remove(h, n@) =~= h_remove(h, n@));
        }
        while i < self.entries.len()
            invariant
                i <= h.len(),
                h == self@,
                n@ == spec_lower(name@),
                self@.len() == self.entries@.len(),
                forall|k: int|
                    0 <= k < h.len() ==> #[trigger] h[k] == (
                    self.entries@[k].0@,
                    self.entries@[k].1@,
                ),
                h_remove(h, n@) == Seq::new(
                    out@.len(),
                    |k: int| (out@[k].0@, out@[k].1@),
                ) + h_remove(h.skip(i as int), n@),
            decreases h.len() - i,
        {
            let ghost out0 = Seq::new(out@.len(), |k: int| (out@[k].0@, out@[k].1@));
            let keep = !bytes_eq(self.entries[i].0.as_slice(), n.as_slice());
            proof {
                assert(h.skip(i as int)[0] == h[i as int]);
                assert(h.skip(i as int).skip(1) =~= h.skip(i + 1));
            }
            if keep {
                let nm = vstd::slice::slice_to_vec(self.entries[i].0.as_slice());
                let vv = vstd::slice::slice_to_vec(self.entries[i].1.as_slice());
                out.push((nm, vv));
                proof {
                    assert(Seq::new(out@.len(), |k: int| (out@[k].0@, out@[k].1@)) =~= out0.push(
                        h[i as int],
                    ));
                    assert(seq![h[i as int]] + h_remove(h.skip(i + 1), n@) =~= h_remove(
                        h.skip(i as int),
                        n@,
                    ));
                    assert(out0.push(h[i as int]) + h_remove(h.skip(i + 1), n@) =~= out0 + (
                    seq![h[i as int]] + h_remove(h.skip(i + 1), n@)));
                }
            }
            i = i + 1;
        }
        proof {
            assert(h.skip(h.len() as int) =~= Seq::<HeaderEntry>::empty());
            assert(Seq::new(out@.len(), |k: int| (out@[k].0@, out@[k].1@)) + Seq::<
                HeaderEntry,
            >::empty() =~= Seq::new(out@.len(), |k: int| (out@[k].0@, out@[k].1@)));
        }
        self.entries = out;
        proof {
            assert(self@ =~= h_remove(h, spec_lower(name@)));
            if wf_entries(h) {
                assert forall|i2: int| 0 <= i2 < self@.len() implies (#[trigger] self@[i2]).0
                    == spec_lower(self@[i2].0) by {
                    lemma_remove_subset(h, spec_lower(name@), i2);
                }
            }
        }
    }

    /// Replaces: every old entry of the name leaves, the new pair lands at the end.
    pub fn insert(&mut self, name: &[u8], value: &[u8])
        ensures
            final(self)@ == h_insert(old(self)@, spec_lower(name@), value@),
            wf_entries(old(self)@) ==> wf_entries(final(self)@),
    {
        self.remove(name);
        self.append(name, value);
    }

    /// Whether any entry has the given name.
    pub fn contains(&self, name: &[u8]) -> (r: bool)
        ensures
            r == h_has(self@, spec_lower(name@)),
    {
        let n = lower_bytes(name);
        let ghost h = self@;
        let mut i: usize = 0;
        proof {
            assert(h.skip(0) =~= h);
        }
        while i < self.entries.len()
            invariant
                i <= h.len(),
                h == self@,
                n@ == spec_lower(name@),
                self@.len() == self.entries@.len(),
                forall|k: int|
                    0 <= k < h.len() ==> #[trigger] h[k] == (
                    self.entries@[k].0@,
                    self.entries@[k].1@,
                ),
                h_get(h, n@) == h_get(h.skip(i as int), n@),
            decreases h.len() - i,
        {
            proof {
                assert(h.skip(i as int)[0] == h[i as int]);
                assert(h.skip(i as int).skip(1) =~= h.skip(i + 1));
            }
            if bytes_eq(self.entries[i].0.as_slice(), n.as_slice()) {
                return true;
            }
            i = i + 1;
        }
        proof {
            assert(h.skip(h.len() as int) =~= Seq::<HeaderEntry>::empty());
        }
        false
    }

    /// The value of the first entry of the name, copied out.
    pub fn get(&self, name: &[u8]) -> (r: Option<Vec<u8>>)
        ensures
            match r {
                Some(v) => h_get(self@, spec_lower(name@)) == Some(v@),
                None => h_get(self@, spec_lower(name@)) is None,
            },
    {
        let n = lower_bytes(name);
        let ghost h = self@;
        let mut i: usize = 0;
        proof {
            assert(h.skip(0) =~= h);
        }
        while i < self.entries.len()
            invariant
                i <= h.len(),
                h == self@,
                n@ == spec_lower(name@),
                self@.len() == self.entries@.len(),
                forall|k: int|
                    0 <= k < h.len() ==> #[trigger] h[k] == (
                    self.entries@[k].0@,
                    self.entries@[k].1@,
                ),
                h_get(h, n@) == h_get(h.skip(i as int), n@),
            decreases h.len() - i,
        {
            proof {
                assert(h.skip(i as int)[0] == h[i as int]);
                assert(h.skip(i as int).skip(1) =~= h.skip(i + 1));
            }
            if bytes_eq(self.entries[i].0.as_slice(), n.as_slice()) {
                return Some(vstd::slice::slice_to_vec(self.entries[i].1.as_slice()));
            }
            i = i + 1;
        }
        proof {
            assert(h.skip(h.len() as int) =~= Seq::<HeaderEntry>::empty());
        }
        None
    }

    /// Every value of the name, in order, copied out.
    pub fn get_all(&self, name: &[u8]) -> (r: Vec<Vec<u8>>)
        ensures
            views(r@) == h_values(self@, spec_lower(name@)),
    {
        let n = lower_bytes(name);
        let ghost h = self@;
        let mut out: Vec<Vec<u8>> = Vec::new();
        let mut i: usize = 0;
        proof {
            assert(h.skip(0) =~= h);
            assert(views(out@) + h_values(h, n@) =~= h_values(h, n@));
        }
        while i < self.entries.len()
            invariant
                i <= h.len(),
                h == self@,
                n@ == spec_lower(name@),
                self@.len() == self.entries@.len(),
                forall|k: int|
                    0 <= k < h.len() ==> #[trigger] h[k] == (
                    self.entries@[k].0@,
                    self.entries@[k].1@,
                ),
                h_values(h, n@) == views(out@) + h_values(h.skip(i as int), n@),
            decreases h.len() - i,
        {
            let ghost out0 = out@;
            proof {
                assert(h.skip(i as int)[0] == h[i as int]);
                assert(h.skip(i as int).skip(1) =~= h.skip(i + 1));
            }
            if bytes_eq(self.entries[i].0.as_slice(), n.as_slice()) {
                out.push(vstd::slice::slice_to_vec(self.entries[i].1.as_slice()));
                proof {
                    assert(views(out@) =~= views(out0).push(h[i as int].1));
                    assert(seq![h[i as int].1] + h_values(h.skip(i + 1), n@) =~= h_values(
                        h.skip(i as int),
                        n@,
                    ));
                    assert(views(out0).push(h[i as int].1) + h_values(h.skip(i + 1), n@) =~= views(
                        out0,
                    ) + (seq![h[i as int].1] + h_values(h.skip(i + 1), n@)));
                }
            }
            i = i + 1;
        }
        proof {
            assert(h.skip(h.len() as int) =~= Seq::<HeaderEntry>::empty());
            assert(views(out@) + Seq::<Seq<u8>>::empty() =~= views(out@));
        }
        out
    }

    /// A copy with the same entries.
    pub fn copy(&self) -> (r: HeaderMap)
        ensures
            r@ == self@,
    {
        let mut out: Vec<(Vec<u8>, Vec<u8>)> = Vec::new();
        let mut i: usize = 0;
        while i < self.entries.len()
            invariant
                i <= self@.len(),
                self@.len() == self.entries@.len(),
                forall|k: int|
                    0 <= k < self@.len() ==> #[trigger] self@[k] == (
                    self.entries@[k].0@,
                    self.entries@[k].1@,
                ),
                out@.len() == i,
                forall|k: int|
                    0 <= k < i ==> (#[trigger] out@[k].0@, out@[k].1@) == self@[k],
            decreases self@.len() - i,
        {
            let nm = vstd::slice::slice_to_vec(self.entries[i].0.as_slice());
            let vv = vstd::slice::slice_to_vec(self.entries[i].1.as_slice());
            out.push((nm, vv));
            i = i + 1;
        }
        let r = HeaderMap { entries: out };
        proof {
            assert(r@ =~= self@);
        }
        r
    }

    /// Every comma-separated token, trimmed, of every value of the name.
    pub fn get_comma_tokens(&self, name: &[u8]) -> (r: Vec<Vec<u8>>)
        ensures
            views(r@) == h_tokens(self@, spec_lower(name@)),
    {
        let vals = self.get_all(name);
        let ghost vv = views(vals@);
        let mut out: Vec<Vec<u8>> = Vec::new();
        let mut i: usize = 0;
        proof {
            assert(vv.skip(0) =~= vv);
            assert(views(out@) + comma_tokens(vv) =~= comma_tokens(vv));
        }
        while i < vals.len()
            invariant
                i <= vv.len(),
                vv == views(vals@),
                vals@.len() == vv.len(),
                comma_tokens(vv) == views(out@) + comma_tokens(vv.skip(i as int)),
            decreases vv.len() - i,
        {
            let parts = split_commas_vec(vals[i].as_slice());
            let ghost out_before = out@;
            let mut j: usize = 0;
            proof {
                assert(vv.skip(i as int)[0] == vv[i as int]);
                assert(vv.skip(i as int).skip(1) =~= vv.skip(i + 1));
                assert(views(out@) + trim_all(views(parts@)).take(0) =~= views(out@));
            }
            while j < parts.len()
                invariant
                    j <= parts@.len(),
                    views(parts@).len() == parts@.len(),
                    views(out@) == views(out_before) + trim_all(views(parts@)).take(j as int),
                decreases parts@.len() - j,
            {
                let ghost out0 = out@;
                let t = trim_bytes(parts[j].as_slice());
                out.push(t);
                proof {
                    assert(views(out@) =~= views(out0).push(spec_trim(parts@[j as int]@)));
                    assert(trim_all(views(parts@)).take(j + 1) =~= trim_all(views(parts@)).take(
                        j as int,
                    ).push(spec_trim(parts@[j as int]@)));
                    assert(views(out_before) + trim_all(views(parts@)).take(j as int).push(
                        spec_trim(parts@[j as int]@),
                    ) =~= (views(out_before) + trim_all(views(parts@)).take(j as int)).push(
                        spec_trim(parts@[j as int]@),
                    ));
                }
                j = j + 1;
            }
            proof {
                assert(trim_all(views(parts@)).take(parts@.len() as int) =~= trim_all(
                    split_commas(vv[i as int]),
                ));
                assert(comma_tokens(vv.skip(i as int)) == trim_all(split_commas(vv[i as int]))
                    + comma_tokens(vv.skip(i + 1)));
                assert(views(out_before) + trim_all(split_commas(vv[i as int])) + comma_tokens(
                    vv.skip(i + 1),
                ) =~= views(out_before) + (trim_all(split_commas(vv[i as int])) + comma_tokens(
                    vv.skip(i + 1),
                )));
            }
            i = i + 1;
        }
        proof {
            assert(vv.skip(vv.len() as int) =~= Seq::<Seq<u8>>::empty());
            assert(views(out@) + Seq::<Seq<u8>>::empty() =~= views(out@));
        }
        out
    }
}

} // verus!
