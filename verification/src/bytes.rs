//! Byte-level helpers shared by the header and directive machinery: ASCII
//! whitespace trimming, case folding, splitting on commas, decimal numbers,
//! substring search and joining.

use vstd::prelude::*;

verus! {

/// ASCII whitespace, the bytes that trimming removes.
pub open spec fn is_ws(b: u8) -> bool {
    b == 32 || b == 9 || b == 10 || b == 13 || b == 11 || b == 12
}

/// Executable whitespace test, usable in specifications as [`is_ws`].
#[verifier::when_used_as_spec(is_ws)]
pub fn is_ws_byte(b: u8) -> (r: bool)
    ensures
        r == is_ws(b),
{
    b == 32 || b == 9 || b == 10 || b == 13 || b == 11 || b == 12
}

/// The views of a sequence of byte vectors.
pub open spec fn views(vs: Seq<Vec<u8>>) -> Seq<Seq<u8>> {
    Seq::new(vs.len(), |i: int| vs[i]@)
}

/// Index of the first byte at or after `i` that is not whitespace, or `s.len()`.
pub open spec fn first_non_ws(s: Seq<u8>, i: nat) -> nat
    decreases s.len() - i when i <= s.len()
{
    if i >= s.len() {
        s.len()
    } else if !is_ws(s[i as int]) {
        i
    } else {
        first_non_ws(s, i + 1)
    }
}

/// Length of `s` once trailing whitespace is dropped.
pub open spec fn trimmed_end_len(s: Seq<u8>) -> nat
    decreases s.len()
{
    if s.len() == 0 || !is_ws(s[s.len() - 1]) {
        s.len()
    } else {
        trimmed_end_len(s.take(s.len() - 1))
    }
}

/// `s` with leading and trailing ASCII whitespace removed.
pub open spec fn spec_trim(s: Seq<u8>) -> Seq<u8> {
    let lo = first_non_ws(s, 0);
    let hi = trimmed_end_len(s);
    if lo >= hi {
        Seq::empty()
    } else {
        s.subrange(lo as int, hi as int)
    }
}

/// A run of whitespace from `i` to `p` pins down `first_non_ws`.
pub proof fn lemma_first_non_ws_at(s: Seq<u8>, i: nat, p: nat)
    requires
        i <= p <= s.len(),
        forall|k: int| i <= k < p ==> is_ws(s[k]),
        p == s.len() || !is_ws(s[p as int]),
    ensures
        first_non_ws(s, i) == p,
    decreases p - i,
{
    if i < p {
        lemma_first_non_ws_at(s, i + 1, p);
    }
}

/// A run of trailing whitespace from `h` on pins down `trimmed_end_len`.
pub proof fn lemma_trimmed_end_at(s: Seq<u8>, h: nat)
    requires
        h <= s.len(),
        forall|k: int| h <= k < s.len() ==> is_ws(s[k]),
        h == 0 || !is_ws(s[h - 1]),
    ensures
        trimmed_end_len(s) == h,
    decreases s.len() - h,
{
    if h < s.len() {
        assert(s.take(s.len() - 1).len() == s.len() - 1);
        assert(forall|k: int| h <= k < s.len() - 1 ==> is_ws(#[trigger] s.take(s.len() - 1)[k]));
        if h > 0 {
            assert(s.take(s.len() - 1)[h - 1] == s[h - 1]);
        }
        lemma_trimmed_end_at(s.take(s.len() - 1), h);
    }
}

/// Trimming a string whose whitespace lies exactly outside `[lo, hi)`.
pub proof fn lemma_trim_exact(s: Seq<u8>, lo: nat, hi: nat)
    requires
        lo <= hi <= s.len(),
        forall|k: int| 0 <= k < lo ==> is_ws(s[k]),
        forall|k: int| hi <= k < s.len() ==> is_ws(s[k]),
        lo < hi ==> !is_ws(s[lo as int]) && !is_ws(s[hi - 1]),
    ensures
        lo < hi ==> spec_trim(s) == s.subrange(lo as int, hi as int),
        lo >= hi ==> spec_trim(s) == Seq::<u8>::empty(),
{
    if lo < hi {
        lemma_first_non_ws_at(s, 0, lo);
        lemma_trimmed_end_at(s, hi);
    } else {
        lemma_first_non_ws_at(s, 0, s.len());
        lemma_trimmed_end_at(s, 0);
    }
}

/// A string without whitespace at either end trims to itself.
pub proof fn lemma_trim_id(s: Seq<u8>)
    requires
        s.len() > 0 ==> !is_ws(s[0]) && !is_ws(s[s.len() - 1]),
    ensures
        spec_trim(s) == s,
{
    lemma_trim_exact(s, 0, s.len());
    if s.len() > 0 {
        assert(s.subrange(0, s.len() as int) =~= s);
    } else {
        assert(spec_trim(s) =~= s);
    }
}

/// Trims ASCII whitespace from both ends.
pub fn trim_bytes(s: &[u8]) -> (r: Vec<u8>)
    ensures
        r@ == spec_trim(s@),
{
    let mut lo: usize = 0;
    while lo < s.len() && is_ws_byte(s[lo])
        invariant
            lo <= s@.len(),
            first_non_ws(s@, 0) == first_non_ws(s@, lo as nat),
        decreases s@.len() - lo,
    {
        lo = lo + 1;
    }
    let mut hi: usize = s.len();
    proof {
        assert(s@.take(s@.len() as int) =~= s@);
    }
    while hi > 0 && is_ws_byte(s[hi - 1])
        invariant
            hi <= s@.len(),
            trimmed_end_len(s@) == trimmed_end_len(s@.take(hi as int)),
        decreases hi,
    {
        proof {
            assert(s@.take(hi as int).take(hi - 1) =~= s@.take(hi - 1));
        }
        hi = hi - 1;
    }
    proof {
        assert(first_non_ws(s@, lo as nat) == lo || lo == s@.len());
        assert(s@.take(hi as int).len() == hi);
        if hi > 0 {
            assert(trimmed_end_len(s@.take(hi as int)) == hi);
        } else {
            assert(s@.take(0) =~= Seq::<u8>::empty());
        }
    }
    if lo >= hi {
        let r: Vec<u8> = Vec::new();
        proof {
            assert(r@ =~= spec_trim(s@));
        }
        return r;
    }
    subrange_vec(s, lo, hi)
}

/// Copies `s[a..b]` into a fresh vector.
pub fn subrange_vec(s: &[u8], a: usize, b: usize) -> (r: Vec<u8>)
    requires
        a <= b <= s@.len(),
    ensures
        r@ == s@.subrange(a as int, b as int),
{
    let mut r: Vec<u8> = Vec::new();
    let mut i: usize = a;
    while i < b
        invariant
            a <= i <= b <= s@.len(),
            r@ == s@.subrange(a as int, i as int),
        decreases b - i,
    {
        r.push(s[i]);
        proof {
            assert(r@ =~= s@.subrange(a as int, i + 1));
        }
        i = i + 1;
    }
    r
}

/// Appends all of `src` to `dst`.
pub fn push_all(dst: &mut Vec<u8>, src: &[u8])
    ensures
        final(dst)@ == old(dst)@ + src@,
{
    let mut i: usize = 0;
    while i < src.len()
        invariant
            i <= src@.len(),
            dst@ == old(dst)@ + src@.take(i as int),
        decreases src@.len() - i,
    {
        dst.push(src[i]);
        proof {
            assert(old(dst)@ + src@.take(i as int) + seq![src@[i as int]] =~= old(dst)@ + src@.take(
                i + 1,
            ));
        }
        i = i + 1;
    }
    proof {
        assert(src@.take(src@.len() as int) =~= src@);
    }
}

/// Byte equality of two slices.
pub fn bytes_eq(a: &[u8], b: &[u8]) -> (r: bool)
    ensures
        r == (a@ == b@),
{
    if a.len() != b.len() {
        return false;
    }
    let mut i: usize = 0;
    while i < a.len()
        invariant
            i <= a@.len(),
            a@.len() == b@.len(),
            forall|k: int| 0 <= k < i ==> a@[k] == b@[k],
        decreases a@.len() - i,
    {
        if a[i] != b[i] {
            return false;
        }
        i = i + 1;
    }
    proof {
        assert(a@ =~= b@);
    }
    true
}

/// Lowercases one ASCII byte.
pub open spec fn lower_byte(b: u8) -> u8 {
    if 65 <= b && b <= 90 {
        (b + 32) as u8
    } else {
        b
    }
}

/// ASCII-lowercases a whole byte string.
pub open spec fn spec_lower(s: Seq<u8>) -> Seq<u8> {
    Seq::new(s.len(), |i: int| lower_byte(s[i]))
}

/// Lowercases ASCII letters, leaving every other byte alone.
pub fn lower_bytes(s: &[u8]) -> (r: Vec<u8>)
    ensures
        r@ == spec_lower(s@),
{
    let mut r: Vec<u8> = Vec::new();
    let mut i: usize = 0;
    while i < s.len()
        invariant
            i <= s@.len(),
            r@.len() == i,
            forall|k: int| 0 <= k < i ==> r@[k] == lower_byte(s@[k]),
        decreases s@.len() - i,
    {
        let b = s[i];
        if 65 <= b && b <= 90 {
            r.push(b + 32);
        } else {
            r.push(b);
        }
        i = i + 1;
    }
    proof {
        assert(r@ =~= spec_lower(s@));
    }
    r
}

/// Lowercasing twice is lowercasing once.
pub proof fn lemma_lower_idempotent(s: Seq<u8>)
    ensures
        spec_lower(spec_lower(s)) == spec_lower(s),
{
    assert(spec_lower(spec_lower(s)) =~= spec_lower(s));
}

/// Strips at most one pair of surrounding double quotes.
pub open spec fn spec_unquote(s: Seq<u8>) -> Seq<u8> {
    if s.len() >= 2 && s[0] == 34 && s[s.len() - 1] == 34 {
        s.subrange(1, s.len() - 1)
    } else {
        s
    }
}

/// Strips at most one pair of surrounding double quotes.
pub fn unquote_bytes(s: &[u8]) -> (r: Vec<u8>)
    ensures
        r@ == spec_unquote(s@),
{
    if s.len() >= 2 && s[0] == 34 && s[s.len() - 1] == 34 {
        subrange_vec(s, 1, s.len() - 1)
    } else {
        vstd::slice::slice_to_vec(s)
    }
}

/// Index of the first occurrence of `c` at or after `i`, or `s.len()`.
pub open spec fn first_byte(s: Seq<u8>, c: u8, i: nat) -> nat
    decreases s.len() - i when i <= s.len()
{
    if i >= s.len() {
        s.len()
    } else if s[i as int] == c {
        i
    } else {
        first_byte(s, c, i + 1)
    }
}

/// A run without `c` from `i` to `p` pins down `first_byte`.
pub proof fn lemma_first_byte_at(s: Seq<u8>, c: u8, i: nat, p: nat)
    requires
        i <= p <= s.len(),
        forall|k: int| i <= k < p ==> s[k] != c,
        p == s.len() || s[p as int] == c,
    ensures
        first_byte(s, c, i) == p,
    decreases p - i,
{
    if i < p {
        lemma_first_byte_at(s, c, i + 1, p);
    }
}

/// What holds of `first_byte` by construction.
pub proof fn lemma_first_byte_props(s: Seq<u8>, c: u8, i: nat)
    requires
        i <= s.len(),
    ensures
        i <= first_byte(s, c, i) <= s.len(),
        first_byte(s, c, i) < s.len() ==> s[first_byte(s, c, i) as int] == c,
        forall|k: int| i <= k < first_byte(s, c, i) ==> s[k] != c,
    decreases s.len() - i,
{
    if i < s.len() && s[i as int] != c {
        lemma_first_byte_props(s, c, i + 1);
    }
}

/// Finds the first occurrence of `c`, or `s.len()` when there is none.
pub fn find_byte(s: &[u8], c: u8) -> (r: usize)
    ensures
        r == first_byte(s@, c, 0),
{
    let mut i: usize = 0;
    while i < s.len() && s[i] != c
        invariant
            i <= s@.len(),
            first_byte(s@, c, 0) == first_byte(s@, c, i as nat),
        decreases s@.len() - i,
    {
        i = i + 1;
    }
    i
}

/// An ASCII letter or digit.
pub open spec fn is_alnum(b: u8) -> bool {
    (48 <= b && b <= 57) || (65 <= b && b <= 90) || (97 <= b && b <= 122)
}

/// Executable twin of [`is_alnum`].
#[verifier::when_used_as_spec(is_alnum)]
pub fn is_alnum_byte(b: u8) -> (r: bool)
    ensures
        r == is_alnum(b),
{
    (48 <= b && b <= 57) || (65 <= b && b <= 90) || (97 <= b && b <= 122)
}

/// Splits on every comma; a comma-free string yields itself alone.
pub open spec fn split_commas(s: Seq<u8>) -> Seq<Seq<u8>>
    decreases s.len(),
{
    let c = first_byte(s, 44, 0);
    if c >= s.len() {
        seq![s]
    } else {
        seq![s.take(c as int)] + split_commas(s.skip(c as int + 1))
    }
}

/// Splits a byte string on every comma.
pub fn split_commas_vec(s: &[u8]) -> (r: Vec<Vec<u8>>)
    ensures
        views(r@) == split_commas(s@),
{
    let mut r: Vec<Vec<u8>> = Vec::new();
    let mut start: usize = 0;
    proof {
        assert(s@.skip(0) =~= s@);
        assert(views(r@) + split_commas(s@) =~= split_commas(s@));
    }
    loop
        invariant
            start <= s@.len(),
            split_commas(s@) == views(r@) + split_commas(s@.skip(start as int)),
        decreases s@.len() - start,
    {
        let ghost rest = s@.skip(start as int);
        let ghost r0 = r@;
        let mut j: usize = start;
        while j < s.len() && s[j] != 44
            invariant
                start <= j <= s@.len(),
                forall|k: int| start <= k < j ==> s@[k] != 44,
            decreases s@.len() - j,
        {
            j = j + 1;
        }
        proof {
            assert(forall|k: int| 0 <= k < j - start ==> rest[k] != 44) by {
                assert(forall|k: int| 0 <= k < j - start ==> rest[k] == s@[start + k]);
            }
            if j < s@.len() {
                assert(rest[j - start] == s@[j as int]);
            }
            lemma_first_byte_at(rest, 44, 0, (j - start) as nat);
        }
        if j < s.len() {
            let tok = subrange_vec(s, start, j);
            proof {
                assert(rest.take(j - start) =~= tok@);
                assert(rest.skip(j - start + 1) =~= s@.skip(j + 1));
                assert(split_commas(rest) == seq![tok@] + split_commas(s@.skip(j + 1)));
            }
            r.push(tok);
            proof {
                assert(views(r@) =~= views(r0) + seq![tok@]);
                assert(views(r0) + (seq![tok@] + split_commas(s@.skip(j + 1))) =~= (views(r0)
                    + seq![tok@]) + split_commas(s@.skip(j + 1)));
            }
            start = j + 1;
        } else {
            let tok = subrange_vec(s, start, s.len());
            proof {
                assert(tok@ =~= rest);
                assert(split_commas(rest) == seq![rest]);
            }
            r.push(tok);
            proof {
                assert(views(r@) =~= views(r0) + seq![rest]);
            }
            return r;
        }
    }
}

/// Whether `n` occurs as a contiguous run inside `h`.
pub open spec fn contains_seq(h: Seq<u8>, n: Seq<u8>) -> bool {
    exists|i: int| 0 <= i && i + n.len() <= h.len() && #[trigger] h.subrange(i, i + n.len()) == n
}

/// Whether `n` occurs in `h` starting at `i`.
fn matches_at(h: &[u8], n: &[u8], i: usize) -> (r: bool)
    requires
        i + n@.len() <= h@.len(),
    ensures
        r == (h@.subrange(i as int, i + n@.len()) == n@),
{
    let hl = h.len();
    let mut j: usize = 0;
    while j < n.len()
        invariant
            hl == h@.len() <= usize::MAX,
            i + n@.len() <= h@.len(),
            j <= n@.len(),
            forall|k: int| 0 <= k < j ==> h@[i + k] == n@[k],
        decreases n@.len() - j,
    {
        if h[i + j] != n[j] {
            proof {
                assert(h@.subrange(i as int, i + n@.len())[j as int] != n@[j as int]);
            }
            return false;
        }
        j = j + 1;
    }
    proof {
        assert(h@.subrange(i as int, i + n@.len()) =~= n@);
    }
    true
}

/// Substring search by brute force.
pub fn contains_bytes(h: &[u8], n: &[u8]) -> (r: bool)
    ensures
        r == contains_seq(h@, n@),
{
    if n.len() > h.len() {
        return false;
    }
    if n.len() == 0 {
        proof {
            assert(h@.subrange(0, 0 + n@.len() as int) =~= n@);
        }
        return true;
    }
    let hn = h.len() - n.len();
    let mut i: usize = 0;
    while i <= hn
        invariant
            1 <= n@.len() <= h@.len(),
            h@.len() <= usize::MAX,
            hn == h@.len() - n@.len(),
            i <= hn + 1,
            forall|ii: int| 0 <= ii < i ==> #[trigger] h@.subrange(ii, ii + n@.len()) != n@,
        decreases hn + 1 - i,
    {
        if matches_at(h, n, i) {
            return true;
        }
        i = i + 1;
    }
    proof {
        assert forall|ii: int| 0 <= ii && ii + n@.len() <= h@.len() implies #[trigger] h@.subrange(
            ii,
            ii + n@.len(),
        ) != n@ by {
            assert(ii < i);
        }
    }
    false
}

/// Whether `s` begins with `p`.
pub open spec fn starts_with_seq(s: Seq<u8>, p: Seq<u8>) -> bool {
    p.len() <= s.len() && s.take(p.len() as int) == p
}

/// Prefix test.
pub fn starts_with_bytes(s: &[u8], p: &[u8]) -> (r: bool)
    ensures
        r == starts_with_seq(s@, p@),
{
    if p.len() > s.len() {
        return false;
    }
    let mut i: usize = 0;
    while i < p.len()
        invariant
            p@.len() <= s@.len(),
            i <= p@.len(),
            forall|k: int| 0 <= k < i ==> s@[k] == p@[k],
        decreases p@.len() - i,
    {
        if s[i] != p[i] {
            proof {
                assert(s@.take(p@.len() as int)[i as int] != p@[i as int]);
            }
            return false;
        }
        i = i + 1;
    }
    proof {
        assert(s@.take(p@.len() as int) =~= p@);
    }
    true
}

/// Whether every byte is an ASCII decimal digit.
pub open spec fn all_digits(s: Seq<u8>) -> bool {
    forall|i: int| 0 <= i < s.len() ==> 48 <= #[trigger] s[i] <= 57
}

/// The number a digit string denotes.
pub open spec fn dec_value(s: Seq<u8>) -> int
    decreases s.len(),
{
    if s.len() == 0 {
        0
    } else {
        dec_value(s.drop_last()) * 10 + (s.last() - 48)
    }
}

/// Longer digit prefixes denote no smaller numbers.
proof fn lemma_dec_value_grows(s: Seq<u8>, i: int)
    requires
        all_digits(s),
        0 <= i <= s.len(),
    ensures
        0 <= dec_value(s.take(i)) <= dec_value(s),
    decreases s.len() - i,
{
    if i == s.len() {
        assert(s.take(i) =~= s);
        lemma_dec_value_nonneg(s);
    } else {
        lemma_dec_value_grows(s, i + 1);
        assert(s.take(i + 1).drop_last() =~= s.take(i));
        assert(all_digits(s.take(i + 1)));
        lemma_dec_value_nonneg(s.take(i));
        assert(dec_value(s.take(i + 1)) == dec_value(s.take(i)) * 10 + (s[i] - 48));
    }
}

/// A digit string denotes a non-negative number.
proof fn lemma_dec_value_nonneg(s: Seq<u8>)
    requires
        all_digits(s),
    ensures
        dec_value(s) >= 0,
    decreases s.len(),
{
    if s.len() > 0 {
        assert(all_digits(s.drop_last()));
        lemma_dec_value_nonneg(s.drop_last());
    }
}

/// What a byte string parses to as a non-negative decimal number, allowing a
/// leading `+` as Rust's `u64` parser does; `None` on anything else, including
/// overflow past `u64::MAX`.
pub open spec fn spec_parse_u64(s: Seq<u8>) -> Option<u64> {
    let t = if s.len() > 0 && s[0] == 43 {
        s.skip(1)
    } else {
        s
    };
    if t.len() > 0 && all_digits(t) && dec_value(t) <= u64::MAX {
        Some(dec_value(t) as u64)
    } else {
        None
    }
}

/// Parses a non-negative decimal number, allowing one leading `+`.
pub fn parse_u64(s: &[u8]) -> (r: Option<u64>)
    ensures
        r == spec_parse_u64(s@),
{
    let off: usize = if s.len() > 0 && s[0] == 43 {
        1
    } else {
        0
    };
    let ghost t = if off == 1 {
        s@.skip(1)
    } else {
        s@
    };
    proof {
        assert(t.len() == s@.len() - off);
        assert(forall|k: int| 0 <= k < t.len() ==> t[k] == s@[k + off]);
    }
    if s.len() == off {
        return None;
    }
    let mut i: usize = off;
    while i < s.len()
        invariant
            off <= i <= s@.len(),
            (off == 1) == (s@.len() > 0 && s@[0] == 43),
            off <= 1,
            t == (if off == 1 { s@.skip(1) } else { s@ }),
            t.len() == s@.len() - off,
            forall|k: int| 0 <= k < t.len() ==> t[k] == s@[k + off],
            forall|k: int| 0 <= k < i - off ==> 48 <= #[trigger] t[k] <= 57,
        decreases s@.len() - i,
    {
        let b = s[i];
        if b < 48 || b > 57 {
            proof {
                assert(t[i - off] == s@[i as int]);
            }
            return None;
        }
        i = i + 1;
    }
    proof {
        assert(all_digits(t));
    }
    let mut acc: u64 = 0;
    let mut i: usize = off;
    proof {
        assert(t.take(0) =~= Seq::<u8>::empty());
    }
    while i < s.len()
        invariant
            off <= i <= s@.len(),
            (off == 1) == (s@.len() > 0 && s@[0] == 43),
            off <= 1,
            t == (if off == 1 { s@.skip(1) } else { s@ }),
            t.len() == s@.len() - off,
            forall|k: int| 0 <= k < t.len() ==> t[k] == s@[k + off],
            all_digits(t),
            acc == dec_value(t.take(i - off)),
        decreases s@.len() - i,
    {
        let b = s[i];
        proof {
            assert(t[i - off] == s@[i as int]);
            assert(48 <= t[i - off] <= 57);
        }
        let wide: u128 = (acc as u128) * 10 + ((b - 48) as u128);
        proof {
            assert(t.take(i - off + 1).drop_last() =~= t.take(i - off));
            assert(t.take(i - off + 1).last() == t[i - off]);
            assert(dec_value(t.take(i - off + 1)) == acc * 10 + (b - 48));
        }
        if wide > u64::MAX as u128 {
            proof {
                lemma_dec_value_grows(t, i - off + 1);
            }
            return None;
        }
        acc = wide as u64;
        i = i + 1;
    }
    proof {
        assert(t.take(t.len() as int) =~= t);
    }
    Some(acc)
}

/// The shortest decimal digit string for `n`.
pub open spec fn dec_digits(n: nat) -> Seq<u8>
    decreases n,
{
    if n < 10 {
        seq![(n + 48) as u8]
    } else {
        dec_digits(n / 10) + seq![(n % 10 + 48) as u8]
    }
}

/// Formats `n` in decimal.
pub fn u64_to_dec(n: u64) -> (r: Vec<u8>)
    ensures
        r@ == dec_digits(n as nat),
    decreases n,
{
    if n < 10 {
        let r: Vec<u8> = vec![(n as u8) + 48];
        proof {
            assert(r@ =~= dec_digits(n as nat));
        }
        r
    } else {
        let mut r = u64_to_dec(n / 10);
        r.push((n % 10) as u8 + 48);
        proof {
            assert(r@ =~= dec_digits(n as nat));
        }
        r
    }
}

/// Joins parts as the header rewriters do: a `", "` separator is written
/// before a part only when something has been written already.
pub open spec fn spec_join(ps: Seq<Seq<u8>>) -> Seq<u8>
    decreases ps.len(),
{
    if ps.len() == 0 {
        Seq::empty()
    } else {
        let acc = spec_join(ps.drop_last());
        if acc.len() == 0 {
            ps.last()
        } else {
            acc + seq![44u8, 32u8] + ps.last()
        }
    }
}

/// Joins byte strings with `", "` between them.
pub fn join_bytes(parts: &Vec<Vec<u8>>) -> (r: Vec<u8>)
    ensures
        r@ == spec_join(views(parts@)),
{
    let mut r: Vec<u8> = Vec::new();
    let mut i: usize = 0;
    proof {
        assert(views(parts@).take(0) =~= Seq::<Seq<u8>>::empty());
    }
    while i < parts.len()
        invariant
            i <= parts@.len(),
            r@ == spec_join(views(parts@).take(i as int)),
        decreases parts@.len() - i,
    {
        let ghost prev = r@;
        if r.len() > 0 {
            r.push(44);
            r.push(32);
        }
        let part = &parts[i];
        push_all(&mut r, part.as_slice());
        proof {
            let vs = views(parts@);
            assert(vs.take(i + 1).drop_last() =~= vs.take(i as int));
            assert(vs.take(i + 1).last() == parts@[i as int]@);
            if prev.len() == 0 {
                assert(r@ =~= spec_join(vs.take(i + 1)));
            } else {
                assert(prev + seq![44u8, 32u8] + parts@[i as int]@ =~= r@);
            }
        }
        i = i + 1;
    }
    proof {
        assert(views(parts@).take(parts@.len() as int) =~= views(parts@));
    }
    r
}

/// Repeatedly strips a leading weak-validator prefix `W/`.
pub open spec fn spec_strip_weak(s: Seq<u8>) -> Seq<u8>
    decreases s.len(),
{
    if s.len() >= 2 && s[0] == 87 && s[1] == 47 {
        spec_strip_weak(s.skip(2))
    } else {
        s
    }
}

/// Strips every leading `W/`, as `trim_start_matches` would.
pub fn strip_weak_prefix(s: &[u8]) -> (r: Vec<u8>)
    ensures
        r@ == spec_strip_weak(s@),
{
    let mut start: usize = 0;
    proof {
        assert(s@.skip(0) =~= s@);
    }
    while s.len() - start >= 2 && s[start] == 87 && s[start + 1] == 47
        invariant
            start <= s@.len(),
            spec_strip_weak(s@) == spec_strip_weak(s@.skip(start as int)),
        decreases s@.len() - start,
    {
        proof {
            assert(s@.skip(start as int)[0] == s@[start as int]);
            assert(s@.skip(start as int)[1] == s@[start + 1]);
            assert(s@.skip(start as int).skip(2) =~= s@.skip(start + 2));
        }
        start = start + 2;
    }
    proof {
        let rest = s@.skip(start as int);
        assert(!(rest.len() >= 2 && rest[0] == 87 && rest[1] == 47)) by {
            if rest.len() >= 2 {
                assert(rest[0] == s@[start as int]);
                assert(rest[1] == s@[start + 1]);
            }
        }
        assert(s@.subrange(start as int, s@.len() as int) =~= rest);
    }
    subrange_vec(s, start, s.len())
}

} // verus!
