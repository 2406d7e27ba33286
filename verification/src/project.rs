//! The cached-response projection: before a stored response is handed back,
//! hop-by-hop headers leave, the names listed in `Connection` leave, 1xx
//! `Warning` entries leave, and `Age` and `Date` are rewritten for the
//! current instant.

use vstd::prelude::*;
use crate::bytes::{spec_join, spec_lower, dec_digits, join_bytes, u64_to_dec, views};
use crate::dates::{fmt_http_date_bytes, http_date_string, HTTP_DATE_LIMIT};
use crate::headers::{
    h_get, h_insert, h_remove, h_tokens, lemma_h_insert_entries, lemma_h_insert_get,
    lemma_h_insert_other, lemma_remove_subset, wf_entries, HeaderEntry, HeaderMap,
};
use crate::names::{
    age_bytes, connection_bytes, date_bytes, lemma_names_lower, nm_age, nm_connection, nm_date,
    nm_keep_alive, nm_proxy_authenticate, nm_proxy_authorization, nm_te, nm_trailer,
    nm_transfer_encoding, nm_upgrade, nm_warning, nm_warning_113, warning_bytes,
    warning_113_bytes,
};
use crate::policy::{CachePolicy, Response};

verus! {

/// A hop-by-hop header name: one pertaining to a single transport connection,
/// and `date` beside them, because the projection rewrites it.
pub open spec fn is_hop_name(n: Seq<u8>) -> bool {
    n == nm_date() || n == nm_connection() || n == nm_keep_alive() || n == nm_proxy_authenticate()
        || n == nm_proxy_authorization() || n == nm_te() || n == nm_trailer() || n
        == nm_transfer_encoding() || n == nm_upgrade()
}

/// Executable twin of [`is_hop_name`].
pub fn is_hop_name_exec(n: &[u8]) -> (r: bool)
    ensures
        r == is_hop_name(n@),
{
    crate::bytes::bytes_eq(n, date_bytes().as_slice()) || crate::bytes::bytes_eq(
        n,
        connection_bytes().as_slice(),
    ) || crate::bytes::bytes_eq(n, crate::names::keep_alive_bytes().as_slice())
        || crate::bytes::bytes_eq(n, crate::names::proxy_authenticate_bytes().as_slice())
        || crate::bytes::bytes_eq(n, crate::names::proxy_authorization_bytes().as_slice())
        || crate::bytes::bytes_eq(n, crate::names::te_bytes().as_slice())
        || crate::bytes::bytes_eq(n, crate::names::trailer_bytes().as_slice())
        || crate::bytes::bytes_eq(n, crate::names::transfer_encoding_bytes().as_slice())
        || crate::bytes::bytes_eq(n, crate::names::upgrade_bytes().as_slice())
}

/// Copies the entries that are not hop-by-hop, each through a replacing
/// insertion, so repeated names collapse to their last value.
pub open spec fn copy_fold(acc: Seq<HeaderEntry>, h: Seq<HeaderEntry>) -> Seq<HeaderEntry>
    decreases h.len(),
{
    if h.len() == 0 {
        acc
    } else {
        copy_fold(
            if is_hop_name(h[0].0) {
                acc
            } else {
                h_insert(acc, h[0].0, h[0].1)
            },
            h.skip(1),
        )
    }
}

/// Removes, in order, each name a `Connection` header lists.
pub open spec fn remove_conn_fold(acc: Seq<HeaderEntry>, toks: Seq<Seq<u8>>) -> Seq<HeaderEntry>
    decreases toks.len(),
{
    if toks.len() == 0 {
        acc
    } else {
        remove_conn_fold(h_remove(acc, spec_lower(toks[0])), toks.skip(1))
    }
}

/// Whether a `Warning` entry survives: it does not open with the digit `1`.
pub open spec fn keeps_warning(t: Seq<u8>) -> bool {
    !(t.len() > 0 && t[0] == 49)
}

/// The `Warning` tokens that survive the 1xx filter, in order.
pub open spec fn kept_warnings(toks: Seq<Seq<u8>>) -> Seq<Seq<u8>>
    decreases toks.len(),
{
    if toks.len() == 0 {
        Seq::empty()
    } else if keeps_warning(toks[0]) {
        seq![toks[0]] + kept_warnings(toks.skip(1))
    } else {
        kept_warnings(toks.skip(1))
    }
}

/// The whole hop-by-hop strip of a header map.
pub open spec fn strip_hop(h: Seq<HeaderEntry>) -> Seq<HeaderEntry> {
    let step1 = copy_fold(Seq::empty(), h);
    let step2 = remove_conn_fold(step1, h_tokens(h, nm_connection()));
    let joined = spec_join(kept_warnings(h_tokens(h, nm_warning())));
    if joined.len() == 0 {
        h_remove(step2, nm_warning())
    } else {
        h_insert(step2, nm_warning(), joined)
    }
}

/// Every entry the copy keeps came from the accumulator or is a non-hop
/// entry of the source.
proof fn lemma_copy_fold_entries(acc: Seq<HeaderEntry>, h: Seq<HeaderEntry>, i: int)
    requires
        0 <= i < copy_fold(acc, h).len(),
    ensures
        (exists|j: int| 0 <= j < acc.len() && acc[j] == copy_fold(acc, h)[i]) || (exists|j: int|
            0 <= j < h.len() && h[j] == copy_fold(acc, h)[i] && !is_hop_name(h[j].0)),
    decreases h.len(),
{
    if h.len() == 0 {
        assert(acc[i] == copy_fold(acc, h)[i]);
    } else {
        let acc2 = if is_hop_name(h[0].0) {
            acc
        } else {
            h_insert(acc, h[0].0, h[0].1)
        };
        lemma_copy_fold_entries(acc2, h.skip(1), i);
        let e = copy_fold(acc, h)[i];
        if exists|j: int| 0 <= j < acc2.len() && acc2[j] == e {
            let j = choose|j: int| 0 <= j < acc2.len() && acc2[j] == e;
            if is_hop_name(h[0].0) {
            } else {
                lemma_h_insert_entries(acc, h[0].0, h[0].1, j);
                if acc2[j] == (h[0].0, h[0].1) {
                    assert(h[0] == e && !is_hop_name(h[0].0));
                }
            }
        } else {
            let j = choose|j: int|
                0 <= j < h.skip(1).len() && h.skip(1)[j] == e && !is_hop_name(h.skip(1)[j].0);
            assert(h[j + 1] == e && !is_hop_name(h[j + 1].0));
        }
    }
}

/// Every entry the `Connection` removals keep came from the accumulator.
proof fn lemma_remove_conn_entries(acc: Seq<HeaderEntry>, toks: Seq<Seq<u8>>, i: int)
    requires
        0 <= i < remove_conn_fold(acc, toks).len(),
    ensures
        exists|j: int| 0 <= j < acc.len() && acc[j] == remove_conn_fold(acc, toks)[i],
    decreases toks.len(),
{
    if toks.len() == 0 {
        assert(acc[i] == remove_conn_fold(acc, toks)[i]);
    } else {
        let acc2 = h_remove(acc, spec_lower(toks[0]));
        lemma_remove_conn_entries(acc2, toks.skip(1), i);
        let j = choose|j: int| 0 <= j < acc2.len() && acc2[j] == remove_conn_fold(acc, toks)[i];
        lemma_remove_subset(acc, spec_lower(toks[0]), j);
    }
}

/// No entry of the strip bears a hop-by-hop name.
pub proof fn lemma_strip_hop_no_hop(h: Seq<HeaderEntry>, i: int)
    requires
        0 <= i < strip_hop(h).len(),
    ensures
        !is_hop_name(strip_hop(h)[i].0),
{
    let step1 = copy_fold(Seq::<HeaderEntry>::empty(), h);
    let step2 = remove_conn_fold(step1, h_tokens(h, nm_connection()));
    let joined = spec_join(kept_warnings(h_tokens(h, nm_warning())));
    if joined.len() == 0 {
        lemma_remove_subset(step2, nm_warning(), i);
        let j = choose|j: int| 0 <= j < step2.len() && step2[j] == strip_hop(h)[i];
        lemma_remove_conn_entries(step1, h_tokens(h, nm_connection()), j);
        let k = choose|k: int| 0 <= k < step1.len() && step1[k] == step2[j];
        lemma_copy_fold_entries(Seq::<HeaderEntry>::empty(), h, k);
    } else {
        lemma_h_insert_entries(step2, nm_warning(), joined, i);
        if strip_hop(h)[i] == (nm_warning(), joined) {
        } else {
            let j = choose|j: int| 0 <= j < step2.len() && step2[j] == strip_hop(h)[i];
            lemma_remove_conn_entries(step1, h_tokens(h, nm_connection()), j);
            let k = choose|k: int| 0 <= k < step1.len() && step1[k] == step2[j];
            lemma_copy_fold_entries(Seq::<HeaderEntry>::empty(), h, k);
        }
    }
}

/// Strips hop-by-hop headers, `Connection`-listed names and 1xx warnings.
pub fn strip_hop_headers(m: &HeaderMap) -> (r: HeaderMap)
    requires
        wf_entries(m@),
    ensures
        r@ == strip_hop(m@),
        wf_entries(r@),
{
    proof {
        lemma_names_lower();
    }
    let ghost h = m@;
    let mut out = HeaderMap::new();
    let mut i: usize = 0;
    proof {
        assert(h.skip(0) =~= h);
    }
    while i < m.entries.len()
        invariant
            i <= h.len(),
            h == m@,
            wf_entries(h),
            h.len() == m.entries@.len(),
            forall|k: int|
                0 <= k < h.len() ==> #[trigger] h[k] == (m.entries@[k].0@, m.entries@[k].1@),
            wf_entries(out@),
            copy_fold(Seq::empty(), h) == copy_fold(out@, h.skip(i as int)),
        decreases h.len() - i,
    {
        proof {
            assert(h.skip(i as int)[0] == h[i as int]);
            assert(h.skip(i as int).skip(1) =~= h.skip(i + 1));
        }
        if !is_hop_name_exec(m.entries[i].0.as_slice()) {
            proof {
                assert(spec_lower(h[i as int].0) == h[i as int].0);
            }
            out.insert(m.entries[i].0.as_slice(), m.entries[i].1.as_slice());
        }
        i = i + 1;
    }
    proof {
        assert(h.skip(h.len() as int) =~= Seq::<HeaderEntry>::empty());
    }
    let conn_toks = m.get_comma_tokens(connection_bytes().as_slice());
    let ghost ct = views(conn_toks@);
    let ghost step1 = copy_fold(Seq::<HeaderEntry>::empty(), h);
    let mut j: usize = 0;
    proof {
        assert(ct.skip(0) =~= ct);
    }
    while j < conn_toks.len()
        invariant
            j <= ct.len(),
            ct == views(conn_toks@),
            ct.len() == conn_toks@.len(),
            wf_entries(out@),
            remove_conn_fold(step1, ct) == remove_conn_fold(out@, ct.skip(j as int)),
        decreases ct.len() - j,
    {
        proof {
            assert(ct.skip(j as int)[0] == ct[j as int]);
            assert(ct.skip(j as int).skip(1) =~= ct.skip(j + 1));
        }
        out.remove(conn_toks[j].as_slice());
        j = j + 1;
    }
    proof {
        assert(ct.skip(ct.len() as int) =~= Seq::<Seq<u8>>::empty());
    }
    let warn_toks = m.get_comma_tokens(warning_bytes().as_slice());
    let ghost wt = views(warn_toks@);
    let mut kept: Vec<Vec<u8>> = Vec::new();
    let mut k: usize = 0;
    proof {
        assert(wt.skip(0) =~= wt);
        assert(views(kept@) + kept_warnings(wt) =~= kept_warnings(wt));
    }
    while k < warn_toks.len()
        invariant
            k <= wt.len(),
            wt == views(warn_toks@),
            wt.len() == warn_toks@.len(),
            kept_warnings(wt) == views(kept@) + kept_warnings(wt.skip(k as int)),
        decreases wt.len() - k,
    {
        let ghost k0 = views(kept@);
        proof {
            assert(wt.skip(k as int)[0] == wt[k as int]);
            assert(wt.skip(k as int).skip(1) =~= wt.skip(k + 1));
        }
        let tok = &warn_toks[k];
        if !(tok.len() > 0 && tok[0] == 49) {
            kept.push(vstd::slice::slice_to_vec(tok.as_slice()));
            proof {
                assert(views(kept@) =~= k0.push(wt[k as int]));
                assert(seq![wt[k as int]] + kept_warnings(wt.skip(k + 1)) =~= kept_warnings(
                    wt.skip(k as int),
                ));
                assert(k0.push(wt[k as int]) + kept_warnings(wt.skip(k + 1)) =~= k0 + (
                seq![wt[k as int]] + kept_warnings(wt.skip(k + 1))));
            }
        }
        k = k + 1;
    }
    proof {
        assert(wt.skip(wt.len() as int) =~= Seq::<Seq<u8>>::empty());
        assert(views(kept@) + Seq::<Seq<u8>>::empty() =~= views(kept@));
    }
    let joined = join_bytes(&kept);
    if joined.len() == 0 {
        out.remove(warning_bytes().as_slice());
    } else {
        out.insert(warning_bytes().as_slice(), joined.as_slice());
    }
    out
}

impl CachePolicy {
    /// The headers of the cached-response projection at `now`.
    pub open spec fn spec_cached_headers(&self, now: u64) -> Seq<HeaderEntry> {
        let base = strip_hop(self.res@);
        let with_warning = if self.spec_age(now) > 86400 && !self.spec_has_explicit_expiration()
            && self.spec_max_age() > 86400 {
            base.push((nm_warning(), nm_warning_113()))
        } else {
            base
        };
        h_insert(
            h_insert(with_warning, nm_age(), dec_digits(self.spec_age(now) as nat)),
            nm_date(),
            http_date_string(now),
        )
    }

    /// Updates and filters the response headers for a cached response before
    /// returning it to a client: hop-by-hop headers leave, a 113 warning is
    /// appended when a heuristic lifetime beyond a day is already a day old,
    /// and `Age` and `Date` are rewritten for `now`. The projection carries
    /// the stored status, an `Age` of exactly `age(now)` seconds, a fresh
    /// `Date`, and no hop-by-hop header beside the rewritten `Date`.
    pub fn cached_response(&self, now: u64) -> (r: Response)
        requires
            self.wf(),
            now < HTTP_DATE_LIMIT,
        ensures
            r.status == self.status,
            r.headers@ == self.spec_cached_headers(now),
            r.wf(),
            h_get(r.headers@, nm_age()) == Some(dec_digits(self.spec_age(now) as nat)),
            h_get(r.headers@, nm_date()) == Some(http_date_string(now)),
            forall|i: int|
                0 <= i < r.headers@.len() ==> ((#[trigger] r.headers@[i]).0 == nm_date()
                    || r.headers@[i].0 == nm_age() || !is_hop_name(r.headers@[i].0)),
    {
        proof {
            lemma_names_lower();
        }
        let mut headers = strip_hop_headers(&self.res);
        let age = self.age(now);
        if age > 86400 && !self.has_explicit_expiration() && self.max_age() > 86400 {
            headers.append(warning_bytes().as_slice(), warning_113_bytes().as_slice());
        }
        let age_text = u64_to_dec(age);
        headers.insert(age_bytes().as_slice(), age_text.as_slice());
        let date_text = fmt_http_date_bytes(now);
        headers.insert(date_bytes().as_slice(), date_text.as_slice());
        proof {
            let base = strip_hop(self.res@);
            let with_warning = if self.spec_age(now) > 86400
                && !self.spec_has_explicit_expiration() && self.spec_max_age() > 86400 {
                base.push((nm_warning(), nm_warning_113()))
            } else {
                base
            };
            let after_age = h_insert(with_warning, nm_age(), dec_digits(self.spec_age(now) as nat));
            lemma_h_insert_get(with_warning, nm_age(), dec_digits(self.spec_age(now) as nat));
            lemma_h_insert_get(after_age, nm_date(), http_date_string(now));
            lemma_h_insert_other(after_age, nm_date(), http_date_string(now), nm_age());
            assert forall|i: int| 0 <= i < headers@.len() implies ((#[trigger] headers@[i]).0
                == nm_date() || headers@[i].0 == nm_age() || !is_hop_name(headers@[i].0)) by {
                lemma_h_insert_entries(after_age, nm_date(), http_date_string(now), i);
                if headers@[i] != (nm_date(), http_date_string(now)) {
                    let j = choose|j: int| 0 <= j < after_age.len() && after_age[j] == headers@[i];
                    lemma_h_insert_entries(
                        with_warning,
                        nm_age(),
                        dec_digits(self.spec_age(now) as nat),
                        j,
                    );
                    if after_age[j] != (nm_age(), dec_digits(self.spec_age(now) as nat)) {
                        let k = choose|k: int|
                            0 <= k < with_warning.len() && with_warning[k] == after_age[j];
                        if k < base.len() {
                            lemma_strip_hop_no_hop(self.res@, k);
                        }
                    }
                }
            }
        }
        Response { status: self.status, headers }
    }
}

} // verus!
