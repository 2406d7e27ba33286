//! `Cache-Control` directive sets: parsing the header's comma-separated
//! tokens into a map from lowercase directive name to optional argument,
//! detecting conflicting duplicates, and formatting a set back into a header
//! value.

use vstd::prelude::*;
use crate::bytes::{
    bytes_eq, find_byte, first_byte, is_alnum, is_alnum_byte, is_ws, lemma_first_byte_at,
    lemma_first_byte_props, lemma_trim_exact, lemma_trim_id, lower_byte, lower_bytes, push_all,
    spec_join, spec_lower, spec_trim, spec_unquote, split_commas, split_commas_vec, trim_bytes,
    unquote_bytes, views,
};
use crate::names::{must_revalidate_bytes, nm_must_revalidate};

verus! {

/// One directive: a lowercase name and an optional argument.
pub type Directive = (Seq<u8>, Option<Seq<u8>>);

/// The argument view of an optional byte vector.
pub open spec fn opt_view(o: Option<Vec<u8>>) -> Option<Seq<u8>> {
    match o {
        Some(v) => Some(v@),
        None => None,
    }
}

/// The views of a directive list.
pub open spec fn dir_views(es: Seq<(Vec<u8>, Option<Vec<u8>>)>) -> Seq<Directive> {
    Seq::new(es.len(), |i: int| (es[i].0@, opt_view(es[i].1)))
}

/// The first entry named `n`: present with its argument, or absent.
pub open spec fn cc_get(d: Seq<Directive>, n: Seq<u8>) -> Option<Option<Seq<u8>>>
    decreases d.len(),
{
    if d.len() == 0 {
        None
    } else if d[0].0 == n {
        Some(d[0].1)
    } else {
        cc_get(d.skip(1), n)
    }
}

/// Whether the directive is present.
pub open spec fn cc_has(d: Seq<Directive>, n: Seq<u8>) -> bool {
    cc_get(d, n) is Some
}

/// The argument of the directive, when present with one.
pub open spec fn cc_arg(d: Seq<Directive>, n: Seq<u8>) -> Option<Seq<u8>> {
    match cc_get(d, n) {
        Some(a) => a,
        None => None,
    }
}

/// Directive names are unique.
pub open spec fn wf_cc(d: Seq<Directive>) -> bool {
    forall|i: int, j: int| 0 <= i < j < d.len() ==> (#[trigger] d[i]).0 != (#[trigger] d[j]).0
}

/// Absence of a directive is absence of its name.
pub proof fn lemma_cc_get_none(d: Seq<Directive>, n: Seq<u8>)
    ensures
        (cc_get(d, n) is None) <==> (forall|i: int| 0 <= i < d.len() ==> (#[trigger] d[i]).0 != n),
    decreases d.len(),
{
    if d.len() > 0 {
        lemma_cc_get_none(d.skip(1), n);
        if cc_get(d, n) is None {
            assert forall|i: int| 0 <= i < d.len() implies (#[trigger] d[i]).0 != n by {
                if i > 0 {
                    assert(d.skip(1)[i - 1] == d[i]);
                }
            }
        } else {
            if d[0].0 != n {
                let i = choose|i: int| 0 <= i < d.skip(1).len() && (#[trigger] d.skip(1)[i]).0 == n;
                assert(d[i + 1].0 == n);
            }
        }
    }
}

/// `d` with the directive `n` dropped.
pub open spec fn cc_remove(d: Seq<Directive>, n: Seq<u8>) -> Seq<Directive>
    decreases d.len(),
{
    if d.len() == 0 {
        Seq::empty()
    } else if d[0].0 == n {
        cc_remove(d.skip(1), n)
    } else {
        seq![d[0]] + cc_remove(d.skip(1), n)
    }
}

/// `d` with the directive `n` set to `v`: replaced in place when present,
/// appended otherwise.
pub open spec fn cc_set(d: Seq<Directive>, n: Seq<u8>, v: Option<Seq<u8>>) -> Seq<Directive>
    decreases d.len(),
{
    if d.len() == 0 {
        seq![(n, v)]
    } else if d[0].0 == n {
        seq![(n, v)] + d.skip(1)
    } else {
        seq![d[0]] + cc_set(d.skip(1), n, v)
    }
}

/// What one comma-separated token contributes: `None` when it is skipped,
/// else the directive name (trimmed, unquoted, lowercased) and the argument
/// (trimmed, unquoted) when an `=` is present.
pub open spec fn token_kv(t: Seq<u8>) -> Option<Directive> {
    let e = first_byte(t, 61, 0);
    if e >= t.len() {
        let k0 = spec_trim(t);
        if k0.len() == 0 {
            None
        } else {
            Some((spec_lower(spec_unquote(k0)), None))
        }
    } else {
        let k0 = spec_trim(t.take(e as int));
        if k0.len() == 0 {
            None
        } else {
            Some(
                (
                    spec_lower(spec_unquote(k0)),
                    Some(spec_unquote(spec_trim(t.skip(e as int + 1)))),
                ),
            )
        }
    }
}

/// Folds one token into the set: a skipped token changes nothing; a repeated
/// name keeps the first value but poisons validity when the values differ;
/// a new name is appended.
pub open spec fn cc_add(d: Seq<Directive>, valid: bool, t: Seq<u8>) -> (Seq<Directive>, bool) {
    match token_kv(t) {
        None => (d, valid),
        Some((k, v)) => match cc_get(d, k) {
            Some(v0) => (d, valid && v0 == v),
            None => (d.push((k, v)), valid),
        },
    }
}

/// Folds a token list, front to back.
pub open spec fn cc_parse_tokens(d: Seq<Directive>, valid: bool, ts: Seq<Seq<u8>>) -> (
    Seq<Directive>,
    bool,
)
    decreases ts.len(),
{
    if ts.len() == 0 {
        (d, valid)
    } else {
        let st = cc_add(d, valid, ts[0]);
        cc_parse_tokens(st.0, st.1, ts.skip(1))
    }
}

/// All raw comma-separated tokens of a list of header values.
pub open spec fn cc_tokens(vals: Seq<Seq<u8>>) -> Seq<Seq<u8>>
    decreases vals.len(),
{
    if vals.len() == 0 {
        Seq::empty()
    } else {
        split_commas(vals[0]) + cc_tokens(vals.skip(1))
    }
}

/// The state after the whole token list, starting from nothing.
pub open spec fn cc_state_after(ts: Seq<Seq<u8>>) -> (Seq<Directive>, bool) {
    cc_parse_tokens(Seq::empty(), true, ts)
}

/// What a list of `Cache-Control` header values parses to: the folded set,
/// with `must-revalidate` forced in when a conflicting duplicate was seen.
pub open spec fn spec_parse_cc(vals: Seq<Seq<u8>>) -> Seq<Directive> {
    let st = cc_state_after(cc_tokens(vals));
    if st.1 {
        st.0
    } else {
        cc_set(st.0, nm_must_revalidate(), None)
    }
}

/// Folding a token after a list is folding the appended list.
pub proof fn lemma_parse_tokens_snoc(d: Seq<Directive>, valid: bool, ts: Seq<Seq<u8>>, t: Seq<u8>)
    ensures
        cc_parse_tokens(d, valid, ts.push(t)) == cc_add(
            cc_parse_tokens(d, valid, ts).0,
            cc_parse_tokens(d, valid, ts).1,
            t,
        ),
    decreases ts.len(),
{
    if ts.len() == 0 {
        assert(ts.push(t)[0] == t);
        assert(ts.push(t).skip(1) =~= Seq::<Seq<u8>>::empty());
        let st = cc_add(d, valid, t);
        assert(cc_parse_tokens(st.0, st.1, ts.push(t).skip(1)) == st);
    } else {
        assert(ts.push(t)[0] == ts[0]);
        assert(ts.push(t).skip(1) =~= ts.skip(1).push(t));
        let st = cc_add(d, valid, ts[0]);
        lemma_parse_tokens_snoc(st.0, st.1, ts.skip(1), t);
    }
}

/// The tokens of one more value are the tokens so far plus its own.
pub proof fn lemma_cc_tokens_snoc(vals: Seq<Seq<u8>>, v: Seq<u8>)
    ensures
        cc_tokens(vals.push(v)) == cc_tokens(vals) + split_commas(v),
    decreases vals.len(),
{
    if vals.len() == 0 {
        assert(vals.push(v)[0] == v);
        assert(vals =~= Seq::<Seq<u8>>::empty());
        assert(vals.push(v).skip(1) =~= vals);
        assert(cc_tokens(vals) == Seq::<Seq<u8>>::empty());
        assert(cc_tokens(vals.push(v)) == split_commas(v) + cc_tokens(vals));
        assert(split_commas(v) + Seq::<Seq<u8>>::empty() =~= split_commas(v));
        assert(Seq::<Seq<u8>>::empty() + split_commas(v) =~= split_commas(v));
    } else {
        assert(vals.push(v)[0] == vals[0]);
        assert(vals.push(v).skip(1) =~= vals.skip(1).push(v));
        lemma_cc_tokens_snoc(vals.skip(1), v);
        assert(split_commas(vals[0]) + (cc_tokens(vals.skip(1)) + split_commas(v)) =~= (
        split_commas(vals[0]) + cc_tokens(vals.skip(1))) + split_commas(v));
    }
}

/// Folding keeps names unique.
pub proof fn lemma_cc_add_wf(d: Seq<Directive>, valid: bool, t: Seq<u8>)
    requires
        wf_cc(d),
    ensures
        wf_cc(cc_add(d, valid, t).0),
{
    match token_kv(t) {
        None => {},
        Some((k, v)) => {
            if cc_get(d, k) is None {
                lemma_cc_get_none(d, k);
                let d2 = d.push((k, v));
                assert forall|i: int, j: int| 0 <= i < j < d2.len() implies (#[trigger] d2[i]).0
                    != (#[trigger] d2[j]).0 by {
                    if j < d.len() {
                        assert(d2[i] == d[i] && d2[j] == d[j]);
                    } else {
                        assert(d2[i] == d[i] && d2[j] == (k, v));
                    }
                }
            }
        },
    }
}

/// Folding a whole token list keeps names unique.
pub proof fn lemma_cc_parse_tokens_wf(d: Seq<Directive>, valid: bool, ts: Seq<Seq<u8>>)
    requires
        wf_cc(d),
    ensures
        wf_cc(cc_parse_tokens(d, valid, ts).0),
    decreases ts.len(),
{
    if ts.len() > 0 {
        lemma_cc_add_wf(d, valid, ts[0]);
        let st = cc_add(d, valid, ts[0]);
        lemma_cc_parse_tokens_wf(st.0, st.1, ts.skip(1));
    }
}

/// Setting a directive at its first occurrence is an update in place.
pub proof fn lemma_cc_set_at(d: Seq<Directive>, n: Seq<u8>, v: Option<Seq<u8>>, i: int)
    requires
        0 <= i < d.len(),
        d[i].0 == n,
        forall|j: int| 0 <= j < i ==> (#[trigger] d[j]).0 != n,
    ensures
        cc_set(d, n, v) == d.update(i, (n, v)),
    decreases d.len(),
{
    if i == 0 {
        assert(cc_set(d, n, v) =~= d.update(0, (n, v)));
    } else {
        assert(d.skip(1)[i - 1] == d[i]);
        assert(forall|j: int| 0 <= j < i - 1 ==> (#[trigger] d.skip(1)[j]).0 != n);
        lemma_cc_set_at(d.skip(1), n, v, i - 1);
        assert(seq![d[0]] + d.skip(1).update(i - 1, (n, v)) =~= d.update(i, (n, v)));
    }
}

/// Setting an absent directive appends it.
pub proof fn lemma_cc_set_absent(d: Seq<Directive>, n: Seq<u8>, v: Option<Seq<u8>>)
    requires
        forall|j: int| 0 <= j < d.len() ==> (#[trigger] d[j]).0 != n,
    ensures
        cc_set(d, n, v) == d.push((n, v)),
    decreases d.len(),
{
    if d.len() == 0 {
        assert(cc_set(d, n, v) =~= d.push((n, v)));
    } else {
        assert(forall|j: int| 0 <= j < d.skip(1).len() ==> (#[trigger] d.skip(1)[j]).0 != n);
        lemma_cc_set_absent(d.skip(1), n, v);
        assert(seq![d[0]] + d.skip(1).push((n, v)) =~= d.push((n, v)));
    }
}

/// A parsed `Cache-Control` directive set.
pub struct CacheControl {
    /// The directives, in first-occurrence order; build through the methods.
    pub entries: Vec<(Vec<u8>, Option<Vec<u8>>)>,
}

impl View for CacheControl {
    type V = Seq<Directive>;

    open spec fn view(&self) -> Seq<Directive> {
        dir_views(self.entries@)
    }
}

/// Finds the index of the first directive named `k`.
fn cc_find(entries: &Vec<(Vec<u8>, Option<Vec<u8>>)>, k: &[u8]) -> (r: Option<usize>)
    ensures
        match r {
            Some(i) => i < entries@.len() && dir_views(entries@)[i as int].0 == k@ && cc_get(
                dir_views(entries@),
                k@,
            ) == Some(dir_views(entries@)[i as int].1) && (forall|j: int|
                0 <= j < i ==> (#[trigger] dir_views(entries@)[j]).0 != k@),
            None => cc_get(dir_views(entries@), k@) is None,
        },
{
    let ghost d = dir_views(entries@);
    let mut i: usize = 0;
    proof {
        assert(d.skip(0) =~= d);
    }
    while i < entries.len()
        invariant
            i <= d.len(),
            d == dir_views(entries@),
            d.len() == entries@.len(),
            cc_get(d, k@) == cc_get(d.skip(i as int), k@),
            forall|j: int| 0 <= j < i ==> (#[trigger] d[j]).0 != k@,
        decreases d.len() - i,
    {
        proof {
            assert(d.skip(i as int)[0] == d[i as int]);
            assert(d.skip(i as int).skip(1) =~= d.skip(i + 1));
        }
        if bytes_eq(entries[i].0.as_slice(), k) {
            return Some(i);
        }
        i = i + 1;
    }
    proof {
        assert(d.skip(d.len() as int) =~= Seq::<Directive>::empty());
    }
    None
}

/// Equality of two optional byte vectors' contents.
fn opt_bytes_eq(a: &Option<Vec<u8>>, b: &Option<Vec<u8>>) -> (r: bool)
    ensures
        r == (opt_view(*a) == opt_view(*b)),
{
    match (a, b) {
        (None, None) => true,
        (Some(x), Some(y)) => bytes_eq(x.as_slice(), y.as_slice()),
        _ => false,
    }
}

/// Folds one raw token into the set under construction.
fn add_token(entries: &mut Vec<(Vec<u8>, Option<Vec<u8>>)>, valid: &mut bool, tok: &[u8])
    ensures
        dir_views(final(entries)@) == cc_add(dir_views(old(entries)@), *old(valid), tok@).0,
        *final(valid) == cc_add(dir_views(old(entries)@), *old(valid), tok@).1,
{
    proof {
        lemma_first_byte_props(tok@, 61, 0);
    }
    let e = find_byte(tok, 61);
    let key: Vec<u8>;
    let val: Option<Vec<u8>>;
    if e >= tok.len() {
        let k0 = trim_bytes(tok);
        if k0.len() == 0 {
            return ;
        }
        key = lower_bytes(unquote_bytes(k0.as_slice()).as_slice());
        val = None;
    } else {
        let left = crate::bytes::subrange_vec(tok, 0, e);
        proof {
            assert(tok@.take(e as int) =~= tok@.subrange(0, e as int));
        }
        let k0 = trim_bytes(left.as_slice());
        if k0.len() == 0 {
            return ;
        }
        key = lower_bytes(unquote_bytes(k0.as_slice()).as_slice());
        let right = crate::bytes::subrange_vec(tok, e + 1, tok.len());
        proof {
            assert(tok@.skip(e as int + 1) =~= tok@.subrange(e as int + 1, tok@.len() as int));
        }
        val = Some(unquote_bytes(trim_bytes(right.as_slice()).as_slice()));
    }
    proof {
        assert(token_kv(tok@) == Some((key@, opt_view(val))));
    }
    match cc_find(entries, key.as_slice()) {
        Some(i) => {
            let same = opt_bytes_eq(&entries[i].1, &val);
            proof {
                assert(dir_views(entries@)[i as int].1 == opt_view(entries@[i as int].1));
            }
            if !same {
                *valid = false;
            }
        },
        None => {
            let ghost d0 = dir_views(entries@);
            entries.push((key, val));
            proof {
                assert(dir_views(entries@) =~= d0.push((key@, opt_view(val))));
            }
        },
    }
}

impl CacheControl {
    /// An empty directive set.
    pub fn new() -> (r: CacheControl)
        ensures
            r@ == Seq::<Directive>::empty(),
            wf_cc(r@),
    {
        let r = CacheControl { entries: Vec::new() };
        proof {
            assert(r@ =~= Seq::<Directive>::empty());
        }
        r
    }

    /// Whether the directive is present.
    pub fn contains(&self, name: &[u8]) -> (r: bool)
        ensures
            r == cc_has(self@, name@),
    {
        match cc_find(&self.entries, name) {
            Some(_) => true,
            None => false,
        }
    }

    /// The argument of the directive, when present with one, copied out.
    pub fn arg(&self, name: &[u8]) -> (r: Option<Vec<u8>>)
        ensures
            opt_view(r) == cc_arg(self@, name@),
    {
        match cc_find(&self.entries, name) {
            Some(i) => match &self.entries[i].1 {
                Some(v) => Some(vstd::slice::slice_to_vec(v.as_slice())),
                None => None,
            },
            None => None,
        }
    }

    /// Sets the directive, replacing in place or appending.
    pub fn set(&mut self, name: &[u8], arg: Option<Vec<u8>>)
        ensures
            final(self)@ == cc_set(old(self)@, name@, opt_view(arg)),
            wf_cc(old(self)@) ==> wf_cc(final(self)@),
    {
        let ghost d0 = self@;
        match cc_find(&self.entries, name) {
            Some(i) => {
                let nm = vstd::slice::slice_to_vec(name);
                self.entries.set(i, (nm, arg));
                proof {
                    lemma_cc_set_at(d0, name@, opt_view(arg), i as int);
                    assert(self@ =~= d0.update(i as int, (name@, opt_view(arg))));
                    if wf_cc(d0) {
                        let d2 = self@;
                        assert forall|x: int, y: int| 0 <= x < y < d2.len() implies (
                        #[trigger] d2[x]).0 != (#[trigger] d2[y]).0 by {
                            assert(d2[x].0 == d0[x].0 && d2[y].0 == d0[y].0);
                        }
                    }
                }
            },
            None => {
                let nm = vstd::slice::slice_to_vec(name);
                self.entries.push((nm, arg));
                proof {
                    lemma_cc_get_none(d0, name@);
                    lemma_cc_set_absent(d0, name@, opt_view(arg));
                    assert(self@ =~= d0.push((name@, opt_view(arg))));
                    if wf_cc(d0) {
                        let d2 = self@;
                        assert forall|x: int, y: int| 0 <= x < y < d2.len() implies (
                        #[trigger] d2[x]).0 != (#[trigger] d2[y]).0 by {
                            if y < d0.len() {
                                assert(d2[x] == d0[x] && d2[y] == d0[y]);
                            } else {
                                assert(d2[x] == d0[x] && d2[y] == (name@, opt_view(arg)));
                            }
                        }
                    }
                }
            },
        }
    }

    /// A copy with the same directives.
    pub fn copy(&self) -> (r: CacheControl)
        ensures
            r@ == self@,
    {
        let mut out: Vec<(Vec<u8>, Option<Vec<u8>>)> = Vec::new();
        let mut i: usize = 0;
        while i < self.entries.len()
            invariant
                i <= self@.len(),
                self@.len() == self.entries@.len(),
                forall|k: int|
                    0 <= k < self@.len() ==> #[trigger] self@[k] == (
                    self.entries@[k].0@,
                    opt_view(self.entries@[k].1),
                ),
                out@.len() == i,
                forall|k: int|
                    0 <= k < i ==> (#[trigger] out@[k].0@, opt_view(out@[k].1)) == self@[k],
            decreases self@.len() - i,
        {
            let nm = vstd::slice::slice_to_vec(self.entries[i].0.as_slice());
            let vv: Option<Vec<u8>> = match &self.entries[i].1 {
                Some(v) => Some(vstd::slice::slice_to_vec(v.as_slice())),
                None => None,
            };
            out.push((nm, vv));
            i = i + 1;
        }
        let r = CacheControl { entries: out };
        proof {
            assert(r@ =~= self@);
        }
        r
    }

    /// Drops the directive when present.
    pub fn remove(&mut self, name: &[u8])
        ensures
            final(self)@ == cc_remove(old(self)@, name@),
            wf_cc(old(self)@) ==> wf_cc(final(self)@),
    {
        let ghost d = self@;
        let mut out: Vec<(Vec<u8>, Option<Vec<u8>>)> = Vec::new();
        let mut i: usize = 0;
        proof {
            assert(d.skip(0) =~= d);
            assert(dir_views(out@) + cc_remove(d, name@) =~= cc_remove(d, name@));
        }
        while i < self.entries.len()
            invariant
                i <= d.len(),
                d == self@,
                d.len() == self.entries@.len(),
                forall|k: int|
                    0 <= k < d.len() ==> #[trigger] d[k] == (
                    self.entries@[k].0@,
                    opt_view(self.entries@[k].1),
                ),
                cc_remove(d, name@) == dir_views(out@) + cc_remove(d.skip(i as int), name@),
                forall|x: int|
                    0 <= x < dir_views(out@).len() ==> exists|y: int|
                        0 <= y < d.len() && d[y] == #[trigger] dir_views(out@)[x],
            decreases d.len() - i,
        {
            let ghost out0 = dir_views(out@);
            proof {
                assert(d.skip(i as int)[0] == d[i as int]);
                assert(d.skip(i as int).skip(1) =~= d.skip(i + 1));
            }
            if !bytes_eq(self.entries[i].0.as_slice(), name) {
                let nm = vstd::slice::slice_to_vec(self.entries[i].0.as_slice());
                let vv: Option<Vec<u8>> = match &self.entries[i].1 {
                    Some(v) => Some(vstd::slice::slice_to_vec(v.as_slice())),
                    None => None,
                };
                out.push((nm, vv));
                proof {
                    assert(dir_views(out@) =~= out0.push(d[i as int]));
                    assert(seq![d[i as int]] + cc_remove(d.skip(i + 1), name@) =~= cc_remove(
                        d.skip(i as int),
                        name@,
                    ));
                    assert(out0.push(d[i as int]) + cc_remove(d.skip(i + 1), name@) =~= out0 + (
                    seq![d[i as int]] + cc_remove(d.skip(i + 1), name@)));
                    assert forall|x: int| 0 <= x < dir_views(out@).len() implies exists|y: int|
                        0 <= y < d.len() && d[y] == #[trigger] dir_views(out@)[x] by {
                        if x < out0.len() {
                            assert(dir_views(out@)[x] == out0[x]);
                        } else {
                            assert(dir_views(out@)[x] == d[i as int]);
                        }
                    }
                }
            }
            i = i + 1;
        }
        proof {
            assert(d.skip(d.len() as int) =~= Seq::<Directive>::empty());
            assert(dir_views(out@) + Seq::<Directive>::empty() =~= dir_views(out@));
        }
        self.entries = out;
        proof {
            if wf_cc(d) {
                let d2 = self@;
                assert forall|x: int, y: int| 0 <= x < y < d2.len() implies (#[trigger] d2[x]).0
                    != (#[trigger] d2[y]).0 by {
                    let ghost px = choose|p: int| 0 <= p < d.len() && d[p] == d2[x];
                    let ghost py = choose|p: int| 0 <= p < d.len() && d[p] == d2[y];
                    assert(d[px] == d2[x] && d[py] == d2[y]);
                    lemma_remove_keeps_order(d, name@, x, y);
                }
            }
        }
    }
}

/// Entries that survive a removal keep distinct names when names were unique.
proof fn lemma_remove_keeps_order(d: Seq<Directive>, n: Seq<u8>, x: int, y: int)
    requires
        wf_cc(d),
        0 <= x < y < cc_remove(d, n).len(),
    ensures
        cc_remove(d, n)[x].0 != cc_remove(d, n)[y].0,
    decreases d.len(),
{
    if d.len() > 0 {
        if d[0].0 == n {
            assert(wf_cc(d.skip(1))) by {
                assert(forall|p: int, q: int|
                    0 <= p < q < d.skip(1).len() ==> (#[trigger] d.skip(1)[p]).0 != (
                    #[trigger] d.skip(1)[q]).0) by {
                    assert(forall|p: int|
                        0 <= p < d.skip(1).len() ==> #[trigger] d.skip(1)[p] == d[p + 1]);
                }
            }
            lemma_remove_keeps_order(d.skip(1), n, x, y);
        } else {
            let t = seq![d[0]] + cc_remove(d.skip(1), n);
            assert(wf_cc(d.skip(1))) by {
                assert(forall|p: int|
                    0 <= p < d.skip(1).len() ==> #[trigger] d.skip(1)[p] == d[p + 1]);
            }
            if x == 0 {
                assert(t[y] == cc_remove(d.skip(1), n)[y - 1]);
                lemma_remove_in_source(d.skip(1), n, y - 1);
                let p = choose|p: int|
                    0 <= p < d.skip(1).len() && d.skip(1)[p] == cc_remove(d.skip(1), n)[y - 1];
                assert(d[p + 1] == t[y]);
                assert(d[0].0 != d[p + 1].0);
            } else {
                assert(t[x] == cc_remove(d.skip(1), n)[x - 1]);
                assert(t[y] == cc_remove(d.skip(1), n)[y - 1]);
                lemma_remove_keeps_order(d.skip(1), n, x - 1, y - 1);
            }
        }
    }
}

/// Every survivor of a removal stood in the source.
proof fn lemma_remove_in_source(d: Seq<Directive>, n: Seq<u8>, i: int)
    requires
        0 <= i < cc_remove(d, n).len(),
    ensures
        exists|j: int| 0 <= j < d.len() && #[trigger] d[j] == cc_remove(d, n)[i],
    decreases d.len(),
{
    if d.len() > 0 {
        if d[0].0 == n {
            lemma_remove_in_source(d.skip(1), n, i);
            let j = choose|j: int|
                0 <= j < d.skip(1).len() && #[trigger] d.skip(1)[j] == cc_remove(d.skip(1), n)[i];
            assert(d[j + 1] == cc_remove(d, n)[i]);
        } else {
            let t = seq![d[0]] + cc_remove(d.skip(1), n);
            if i == 0 {
                assert(d[0] == cc_remove(d, n)[0]);
            } else {
                assert(t[i] == cc_remove(d.skip(1), n)[i - 1]);
                lemma_remove_in_source(d.skip(1), n, i - 1);
                let j = choose|j: int|
                    0 <= j < d.skip(1).len() && #[trigger] d.skip(1)[j] == cc_remove(
                        d.skip(1),
                        n,
                    )[i - 1];
                assert(d[j + 1] == cc_remove(d, n)[i]);
            }
        }
    }
}

/// Parses the concatenation of `Cache-Control` header values into a directive
/// set, forcing `must-revalidate` when a name repeats with different values.
/// Values are read as plain bytes; UTF-8 validity plays no part here.
pub fn parse_cache_control(values: &Vec<Vec<u8>>) -> (r: CacheControl)
    ensures
        r@ == spec_parse_cc(views(values@)),
        wf_cc(r@),
{
    let ghost vv = views(values@);
    let mut entries: Vec<(Vec<u8>, Option<Vec<u8>>)> = Vec::new();
    let mut valid = true;
    let mut i: usize = 0;
    proof {
        assert(vv.take(0) =~= Seq::<Seq<u8>>::empty());
        assert(dir_views(entries@) =~= Seq::<Directive>::empty());
    }
    while i < values.len()
        invariant
            i <= vv.len(),
            vv == views(values@),
            vv.len() == values@.len(),
            dir_views(entries@) == cc_state_after(cc_tokens(vv.take(i as int))).0,
            valid == cc_state_after(cc_tokens(vv.take(i as int))).1,
        decreases vv.len() - i,
    {
        let toks = split_commas_vec(values[i].as_slice());
        let ghost base = cc_tokens(vv.take(i as int));
        let ghost tv = views(toks@);
        let mut j: usize = 0;
        proof {
            assert(base + tv.take(0) =~= base);
        }
        while j < toks.len()
            invariant
                j <= tv.len(),
                tv == views(toks@),
                tv.len() == toks@.len(),
                dir_views(entries@) == cc_state_after(base + tv.take(j as int)).0,
                valid == cc_state_after(base + tv.take(j as int)).1,
            decreases tv.len() - j,
        {
            let ghost st = cc_state_after(base + tv.take(j as int));
            add_token(&mut entries, &mut valid, toks[j].as_slice());
            proof {
                assert((base + tv.take(j as int)).push(tv[j as int]) =~= base + tv.take(j + 1));
                lemma_parse_tokens_snoc(
                    Seq::empty(),
                    true,
                    base + tv.take(j as int),
                    tv[j as int],
                );
            }
            j = j + 1;
        }
        proof {
            assert(tv.take(tv.len() as int) =~= split_commas(vv[i as int]));
            assert(vv.take(i + 1) =~= vv.take(i as int).push(vv[i as int]));
            lemma_cc_tokens_snoc(vv.take(i as int), vv[i as int]);
        }
        i = i + 1;
    }
    proof {
        assert(vv.take(vv.len() as int) =~= vv);
        lemma_cc_parse_tokens_wf(Seq::empty(), true, cc_tokens(vv));
    }
    let mut r = CacheControl { entries };
    if !valid {
        let mr = must_revalidate_bytes();
        r.set(mr.as_slice(), None);
    }
    r
}

/// Whether formatting must quote the argument: it is empty or holds a byte
/// that is not an ASCII letter or digit.
pub open spec fn needs_quote(v: Seq<u8>) -> bool {
    v.len() == 0 || exists|i: int| 0 <= i < v.len() && !is_alnum(#[trigger] v[i])
}

/// The argument as formatted: quoted when it needs to be.
pub open spec fn spec_quoted(v: Seq<u8>) -> Seq<u8> {
    if needs_quote(v) {
        seq![34u8] + v + seq![34u8]
    } else {
        v
    }
}

/// One directive as formatted.
pub open spec fn dir_token(e: Directive) -> Seq<u8> {
    match e.1 {
        None => e.0,
        Some(v) => e.0 + seq![61u8] + spec_quoted(v),
    }
}

/// A whole set as formatted: the tokens joined with `", "`.
pub open spec fn spec_format_cc(d: Seq<Directive>) -> Seq<u8> {
    spec_join(Seq::new(d.len(), |i: int| dir_token(d[i])))
}

/// Formats a directive set back into one `Cache-Control` header value.
pub fn format_cache_control(cc: &CacheControl) -> (r: Vec<u8>)
    ensures
        r@ == spec_format_cc(cc@),
{
    let ghost d = cc@;
    let mut toks: Vec<Vec<u8>> = Vec::new();
    let mut i: usize = 0;
    while i < cc.entries.len()
        invariant
            i <= d.len(),
            d == cc@,
            d.len() == cc.entries@.len(),
            forall|k: int|
                0 <= k < d.len() ==> #[trigger] d[k] == (
                cc.entries@[k].0@,
                opt_view(cc.entries@[k].1),
            ),
            views(toks@) =~= Seq::new(i as nat, |k: int| dir_token(d[k])),
        decreases d.len() - i,
    {
        let ghost t0 = views(toks@);
        let mut tok: Vec<u8> = Vec::new();
        push_all(&mut tok, cc.entries[i].0.as_slice());
        match &cc.entries[i].1 {
            None => {},
            Some(v) => {
                tok.push(61);
                let mut quote = v.len() == 0;
                let mut k: usize = 0;
                while k < v.len()
                    invariant
                        k <= v@.len(),
                        quote == (v@.len() == 0 || exists|p: int|
                            0 <= p < k && !is_alnum(#[trigger] v@[p])),
                    decreases v@.len() - k,
                {
                    if !is_alnum_byte(v[k]) {
                        quote = true;
                    }
                    k = k + 1;
                }
                proof {
                    assert(quote == needs_quote(v@));
                }
                if quote {
                    tok.push(34);
                    push_all(&mut tok, v.as_slice());
                    tok.push(34);
                    proof {
                        assert(tok@ =~= dir_token(d[i as int]));
                    }
                } else {
                    push_all(&mut tok, v.as_slice());
                    proof {
                        assert(tok@ =~= dir_token(d[i as int]));
                    }
                }
            },
        }
        proof {
            assert(tok@ == dir_token(d[i as int]));
        }
        toks.push(tok);
        proof {
            assert(views(toks@) =~= t0.push(dir_token(d[i as int])));
            assert(t0.push(dir_token(d[i as int])) =~= Seq::new(
                i as nat + 1,
                |k: int| dir_token(d[k]),
            ));
        }
        i = i + 1;
    }
    proof {
        assert(Seq::new(d.len(), |k: int| dir_token(d[k])) =~= views(toks@));
    }
    crate::bytes::join_bytes(&toks)
}


/// A directive name that formatting writes down exactly as parsing reads it
/// back: nonempty, free of commas, equals signs and whitespace at the ends,
/// already lowercase, and not wrapped in double quotes.
pub open spec fn wf_dir_name(n: Seq<u8>) -> bool {
    &&& n.len() > 0
    &&& !is_ws(n[0]) && !is_ws(n[n.len() - 1])
    &&& forall|i: int|
        0 <= i < n.len() ==> #[trigger] n[i] != 44 && n[i] != 61 && lower_byte(n[i]) == n[i]
    &&& !(n.len() >= 2 && n[0] == 34 && n[n.len() - 1] == 34)
}

/// A directive argument that survives the round trip: free of commas, on
/// which the top-level split cuts blindly.
pub open spec fn wf_dir_value(v: Seq<u8>) -> bool {
    forall|i: int| 0 <= i < v.len() ==> #[trigger] v[i] != 44
}

/// A directive set that a round trip reproduces: unique well-formed names
/// with comma-free arguments.
pub open spec fn wf_dir_set(d: Seq<Directive>) -> bool {
    &&& wf_cc(d)
    &&& forall|i: int|
        0 <= i < d.len() ==> wf_dir_name((#[trigger] d[i]).0) && (d[i].1 is Some
            ==> wf_dir_value(d[i].1.unwrap()))
}

/// The separated-token list that splitting the formatted set yields: the
/// first token bare, each later one behind the space of its `", "`.
pub open spec fn dir_token_list(d: Seq<Directive>) -> Seq<Seq<u8>> {
    Seq::new(
        d.len(),
        |i: int|
            if i == 0 {
                dir_token(d[i])
            } else {
                seq![32u8] + dir_token(d[i])
            },
    )
}

/// The tail of a join: `", "` before every part.
pub open spec fn join_tail(ps: Seq<Seq<u8>>) -> Seq<u8>
    decreases ps.len(),
{
    if ps.len() == 0 {
        Seq::empty()
    } else {
        join_tail(ps.drop_last()) + seq![44u8, 32u8] + ps.last()
    }
}

/// The same tail unrolled from the front.
pub open spec fn join_tail_left(ps: Seq<Seq<u8>>) -> Seq<u8>
    decreases ps.len(),
{
    if ps.len() == 0 {
        Seq::empty()
    } else {
        seq![44u8, 32u8] + ps[0] + join_tail_left(ps.skip(1))
    }
}

/// The two unrollings of the tail agree.
proof fn lemma_join_tails_agree(ps: Seq<Seq<u8>>)
    ensures
        join_tail(ps) == join_tail_left(ps),
    decreases ps.len(),
{
    if ps.len() == 0 {
    } else if ps.len() == 1 {
        let e: Seq<Seq<u8>> = Seq::empty();
        assert(ps.drop_last() =~= e);
        assert(ps.skip(1) =~= e);
        assert(join_tail(e) == Seq::<u8>::empty());
        assert(join_tail_left(e) == Seq::<u8>::empty());
        assert(join_tail(ps) == join_tail(e) + seq![44u8, 32u8] + ps.last());
        assert(join_tail_left(ps) == seq![44u8, 32u8] + ps[0] + join_tail_left(e));
        assert(join_tail(e) + seq![44u8, 32u8] + ps.last() =~= seq![44u8, 32u8] + ps[0]
            + join_tail_left(e));
    } else {
        lemma_join_tails_agree(ps.drop_last());
        lemma_join_tails_agree(ps.skip(1));
        lemma_join_tails_agree(ps.skip(1).drop_last());
        assert(ps.skip(1).drop_last() =~= ps.drop_last().skip(1));
        assert(ps.drop_last()[0] == ps[0]);
        assert(ps.skip(1).last() == ps.last());
        assert(join_tail_left(ps.drop_last()) == seq![44u8, 32u8] + ps[0] + join_tail_left(
            ps.drop_last().skip(1),
        ));
        assert((seq![44u8, 32u8] + ps[0] + join_tail_left(ps.drop_last().skip(1))) + seq![
            44u8,
            32u8,
        ] + ps.last() =~= seq![44u8, 32u8] + ps[0] + (join_tail_left(ps.drop_last().skip(1))
            + seq![44u8, 32u8] + ps.last()));
    }
}

/// A join of nonempty parts is the first part followed by the tail.
proof fn lemma_join_unfold_left(ps: Seq<Seq<u8>>)
    requires
        ps.len() > 0,
        forall|i: int| 0 <= i < ps.len() ==> (#[trigger] ps[i]).len() > 0,
    ensures
        spec_join(ps) == ps[0] + join_tail(ps.skip(1)),
    decreases ps.len(),
{
    if ps.len() == 1 {
        assert(ps.drop_last() =~= Seq::<Seq<u8>>::empty());
        assert(ps.skip(1) =~= Seq::<Seq<u8>>::empty());
        assert(ps[0] + join_tail(ps.skip(1)) =~= ps.last());
    } else {
        assert(ps.drop_last()[0] == ps[0]);
        lemma_join_unfold_left(ps.drop_last());
        assert(spec_join(ps.drop_last()).len() > 0);
        assert(spec_join(ps) == spec_join(ps.drop_last()) + seq![44u8, 32u8] + ps.last());
        assert(ps.skip(1).drop_last() =~= ps.drop_last().skip(1));
        assert(ps.skip(1).last() == ps.last());
        assert(join_tail(ps.skip(1)) == join_tail(ps.drop_last().skip(1)) + seq![44u8, 32u8]
            + ps.last());
        assert((ps[0] + join_tail(ps.drop_last().skip(1))) + seq![44u8, 32u8] + ps.last() =~= ps[0]
            + (join_tail(ps.drop_last().skip(1)) + seq![44u8, 32u8] + ps.last()));
    }
}

/// Splitting a comma-free head glued to a comma-separated tail.
proof fn lemma_split_chain(first: Seq<u8>, rest: Seq<Seq<u8>>)
    requires
        forall|i: int| 0 <= i < first.len() ==> #[trigger] first[i] != 44,
        forall|i: int, j: int|
            0 <= i < rest.len() && 0 <= j < rest[i].len() ==> #[trigger] rest[i][j] != 44,
    ensures
        split_commas(first + join_tail_left(rest)) == seq![first] + Seq::new(
            rest.len(),
            |i: int| seq![32u8] + rest[i],
        ),
    decreases rest.len(),
{
    let s = first + join_tail_left(rest);
    if rest.len() == 0 {
        assert(s =~= first);
        lemma_first_byte_at(first, 44, 0, first.len());
        assert(split_commas(first) == seq![first]);
        assert(seq![first] + Seq::new(0, |i: int| seq![32u8] + rest[i]) =~= seq![first]);
    } else {
        assert(join_tail_left(rest) == seq![44u8, 32u8] + rest[0] + join_tail_left(rest.skip(1)));
        assert(forall|k: int| 0 <= k < first.len() ==> s[k] == first[k]);
        assert(s[first.len() as int] == 44);
        lemma_first_byte_at(s, 44, 0, first.len());
        assert(split_commas(s) == seq![s.take(first.len() as int)] + split_commas(
            s.skip(first.len() as int + 1),
        ));
        assert(s.take(first.len() as int) =~= first);
        let first2 = seq![32u8] + rest[0];
        assert(s.skip(first.len() as int + 1) =~= first2 + join_tail_left(rest.skip(1)));
        assert(forall|i: int| 0 <= i < first2.len() ==> #[trigger] first2[i] != 44) by {
            assert(forall|j: int| 0 <= j < rest[0].len() ==> #[trigger] rest[0][j] != 44);
            assert(forall|i: int| 1 <= i < first2.len() ==> first2[i] == rest[0][i - 1]);
        }
        assert(forall|i: int, j: int|
            0 <= i < rest.skip(1).len() && 0 <= j < rest.skip(1)[i].len()
                ==> #[trigger] rest.skip(1)[i][j] != 44) by {
            assert(forall|i: int| 0 <= i < rest.skip(1).len() ==> rest.skip(1)[i] == rest[i + 1]);
        }
        lemma_split_chain(first2, rest.skip(1));
        assert(seq![first] + (seq![first2] + Seq::new(
            rest.skip(1).len(),
            |i: int| seq![32u8] + rest.skip(1)[i],
        )) =~= seq![first] + Seq::new(rest.len(), |i: int| seq![32u8] + rest[i]));
        assert(split_commas(s) =~= seq![first] + Seq::new(
            rest.len(),
            |i: int| seq![32u8] + rest[i],
        ));
    }
}

/// No comma stands in a well-formed directive's token.
proof fn lemma_dir_token_comma_free(e: Directive)
    requires
        wf_dir_name(e.0),
        e.1 is Some ==> wf_dir_value(e.1.unwrap()),
    ensures
        forall|i: int| 0 <= i < dir_token(e).len() ==> #[trigger] dir_token(e)[i] != 44,
        dir_token(e).len() > 0,
{
    match e.1 {
        None => {},
        Some(v) => {
            let t = e.0 + seq![61u8] + spec_quoted(v);
            assert forall|i: int| 0 <= i < t.len() implies #[trigger] t[i] != 44 by {
                if i < e.0.len() {
                    assert(t[i] == e.0[i]);
                } else if i == e.0.len() {
                    assert(t[i] == 61);
                } else {
                    let q = spec_quoted(v);
                    let k = i - e.0.len() - 1;
                    assert(t[i] == q[k]);
                    if needs_quote(v) {
                        if k == 0 || k == q.len() - 1 {
                            assert(q[k] == 34);
                        } else {
                            assert(q[k] == v[k - 1]);
                        }
                    } else {
                        assert(q[k] == v[k]);
                    }
                }
            }
        },
    }
}

/// An ASCII letter or digit is not whitespace and not a quote.
proof fn lemma_alnum_plain(b: u8)
    requires
        is_alnum(b),
    ensures
        !is_ws(b),
        b != 34,
{
}

/// What parsing makes of a formatted directive, with an optional leading
/// space from the `", "` separator.
proof fn lemma_token_round_trip(e: Directive, spaced: bool)
    requires
        wf_dir_name(e.0),
        e.1 is Some ==> wf_dir_value(e.1.unwrap()),
    ensures
        token_kv(
            if spaced {
                seq![32u8] + dir_token(e)
            } else {
                dir_token(e)
            },
        ) == Some(e),
{
    let off: int = if spaced { 1 } else { 0 };
    let t = if spaced {
        seq![32u8] + dir_token(e)
    } else {
        dir_token(e)
    };
    let n = e.0;
    assert(spec_unquote(n) == n);
    assert(spec_lower(n) =~= n);
    match e.1 {
        None => {
            assert(t.len() == off + n.len());
            assert(forall|k: int| 0 <= k < n.len() ==> t[k + off] == n[k]);
            assert(forall|k: int| 0 <= k < t.len() ==> #[trigger] t[k] != 61) by {
                assert(forall|k: int| off <= k < t.len() ==> t[k] == n[k - off]);
            }
            lemma_first_byte_at(t, 61, 0, t.len());
            lemma_trim_exact(t, off as nat, t.len());
            assert(t.subrange(off, t.len() as int) =~= n);
            assert(token_kv(t) == Some((spec_lower(spec_unquote(n)), Option::<Seq<u8>>::None)));
            assert((spec_lower(spec_unquote(n)), Option::<Seq<u8>>::None) == e);
        },
        Some(v) => {
            let q = spec_quoted(v);
            assert(dir_token(e) == n + seq![61u8] + q);
            assert(t.len() == off + n.len() + 1 + q.len());
            assert(forall|k: int| 0 <= k < n.len() ==> t[k + off] == n[k]);
            assert(t[off + n.len()] == 61);
            assert(forall|k: int| 0 <= k < q.len() ==> t[off + n.len() + 1 + k] == q[k]);
            assert(forall|k: int| 0 <= k < off + n.len() ==> #[trigger] t[k] != 61) by {
                assert(forall|k: int| off <= k < off + n.len() ==> t[k] == n[k - off]);
            }
            lemma_first_byte_at(t, 61, 0, (off + n.len()) as nat);
            let ei = off + n.len();
            assert(first_byte(t, 61, 0) == ei);
            assert(ei < t.len());
            let left = t.take(ei);
            assert(forall|k: int| 0 <= k < n.len() ==> left[k + off] == n[k]);
            lemma_trim_exact(left, off as nat, left.len());
            assert(left.subrange(off, left.len() as int) =~= n);
            assert(spec_trim(left) == n);
            let right = t.skip(ei + 1);
            assert(right =~= q);
            if needs_quote(v) {
                assert(q == seq![34u8] + v + seq![34u8]);
                assert(q[0] == 34 && q[q.len() - 1] == 34);
                lemma_trim_id(q);
                assert(spec_unquote(q) =~= v);
            } else {
                assert(v.len() > 0);
                assert(forall|i: int| 0 <= i < v.len() ==> is_alnum(#[trigger] v[i])) by {
                    assert(!needs_quote(v));
                }
                assert(q =~= v);
                lemma_alnum_plain(v[0]);
                lemma_alnum_plain(v[v.len() - 1]);
                lemma_trim_id(v);
                assert(spec_unquote(v) == v);
            }
            assert(token_kv(t) == Some((n, Some(v))));
            assert((n, Some(v)) == e);
        },
    }
}

/// Folding the token list of a well-formed set reproduces the set.
proof fn lemma_parse_dir_tokens(d: Seq<Directive>, k: int)
    requires
        wf_dir_set(d),
        0 <= k <= d.len(),
    ensures
        cc_parse_tokens(d.take(k), true, dir_token_list(d).skip(k)) == (d, true),
    decreases d.len() - k,
{
    let tl = dir_token_list(d);
    if k == d.len() {
        assert(tl.skip(k) =~= Seq::<Seq<u8>>::empty());
        assert(d.take(k) =~= d);
    } else {
        assert(tl.skip(k)[0] == tl[k]);
        lemma_token_round_trip(d[k], k > 0);
        assert(token_kv(tl[k]) == Some(d[k]));
        lemma_cc_get_none(d.take(k), d[k].0);
        assert(forall|j: int| 0 <= j < k ==> (#[trigger] d.take(k)[j]).0 != d[k].0) by {
            assert(forall|j: int| 0 <= j < k ==> d.take(k)[j] == d[j]);
        }
        assert(cc_get(d.take(k), d[k].0) is None);
        assert(cc_add(d.take(k), true, tl[k]) == (d.take(k).push(d[k]), true));
        assert(d.take(k).push(d[k]) =~= d.take(k + 1));
        assert(tl.skip(k).skip(1) =~= tl.skip(k + 1));
        lemma_parse_dir_tokens(d, k + 1);
    }
}

/// The directive round trip: parsing the formatted image of a well-formed
/// set yields that set back, entry for entry and in order. Well-formed means
/// the names are unique, lowercase, unquoted tokens without commas, equals
/// signs or whitespace at the ends, and the arguments hold no comma, which
/// the blind top-level split would cut.
pub proof fn lemma_directive_round_trip(d: Seq<Directive>)
    requires
        wf_dir_set(d),
    ensures
        spec_parse_cc(seq![spec_format_cc(d)]) == d,
{
    let f = spec_format_cc(d);
    let one = seq![f];
    assert(one[0] == f);
    assert(one.skip(1) =~= Seq::<Seq<u8>>::empty());
    assert(cc_tokens(one) == split_commas(f) + cc_tokens(one.skip(1)));
    assert(cc_tokens(one.skip(1)) =~= Seq::<Seq<u8>>::empty());
    assert(split_commas(f) + Seq::<Seq<u8>>::empty() =~= split_commas(f));
    if d.len() == 0 {
        assert(f =~= Seq::<u8>::empty());
        lemma_first_byte_at(f, 44, 0, 0);
        assert(split_commas(f) == seq![f]);
        lemma_first_byte_at(f, 61, 0, 0);
        lemma_trim_id(f);
        assert(token_kv(f) is None);
        assert(cc_add(Seq::<Directive>::empty(), true, f) == (Seq::<Directive>::empty(), true));
        assert(seq![f].skip(1) =~= Seq::<Seq<u8>>::empty());
        assert(cc_parse_tokens(Seq::<Directive>::empty(), true, Seq::<Seq<u8>>::empty()) == (
        Seq::<Directive>::empty(),
        true,
        ));
        assert(cc_parse_tokens(Seq::<Directive>::empty(), true, seq![f]) == (Seq::<
            Directive,
        >::empty(), true));
        assert(d =~= Seq::<Directive>::empty());
    } else {
        let js = Seq::new(d.len(), |i: int| dir_token(d[i]));
        assert forall|i: int| 0 <= i < js.len() implies (#[trigger] js[i]).len() > 0 by {
            lemma_dir_token_comma_free(d[i]);
        }
        lemma_join_unfold_left(js);
        lemma_join_tails_agree(js.skip(1));
        assert(f == js[0] + join_tail_left(js.skip(1)));
        assert(forall|i: int| 0 <= i < js[0].len() ==> #[trigger] js[0][i] != 44) by {
            lemma_dir_token_comma_free(d[0]);
        }
        assert forall|i: int, j: int|
            0 <= i < js.skip(1).len() && 0 <= j < js.skip(1)[i].len() implies #[trigger] js.skip(
            1,
        )[i][j] != 44 by {
            assert(js.skip(1)[i] == js[i + 1]);
            lemma_dir_token_comma_free(d[i + 1]);
        }
        lemma_split_chain(js[0], js.skip(1));
        assert(seq![js[0]] + Seq::new(js.skip(1).len(), |i: int| seq![32u8] + js.skip(1)[i])
            =~= dir_token_list(d));
        assert(split_commas(f) == dir_token_list(d));
        assert(d.take(0) =~= Seq::<Directive>::empty());
        assert(dir_token_list(d).skip(0) =~= dir_token_list(d));
        lemma_parse_dir_tokens(d, 0);
        assert(cc_state_after(dir_token_list(d)) == (d, true));
    }
}

} // verus!
