//! Updating a stored entry from a revalidation response: deciding whether a
//! `304 Not Modified` applies to this entry by comparing validators, merging
//! the new header fields over the stored ones, and producing the next policy.

use vstd::prelude::*;
use crate::bytes::{bytes_eq, spec_lower, spec_strip_weak, spec_trim, starts_with_bytes, starts_with_seq, strip_weak_prefix, trim_bytes};
use crate::dates::HTTP_DATE_LIMIT;
use crate::headers::{h_get, h_has, h_insert, wf_entries, HeaderEntry, HeaderMap, lemma_h_insert_get, lemma_h_insert_other};
use crate::names::{
    content_encoding_bytes, content_length_bytes, content_range_bytes, etag_bytes,
    last_modified_bytes, lemma_names_lower, nm_content_encoding, nm_content_length,
    nm_content_range, nm_etag, nm_last_modified, nm_transfer_encoding, nm_weak_prefix,
    transfer_encoding_bytes, weak_prefix_bytes,
};
use crate::policy::{from_details, normalized_res_cc, normalized_res_headers, CachePolicy, Request, Response};

verus! {

/// New policy and flags to act on after `after_response()`.
pub enum AfterResponse {
    /// The cached body can be used; these are the updated policy and headers.
    NotModified(CachePolicy, Response),
    /// The body changed: update the cache with the new response.
    Modified(CachePolicy, Response),
}

impl AfterResponse {
    /// Whether this is `AfterResponse::Modified(..)`.
    pub fn is_modified(&self) -> (r: bool)
        ensures
            r == (self is Modified),
    {
        matches!(self, AfterResponse::Modified(..))
    }
}

/// A trimmed optional header value.
pub open spec fn opt_trim(o: Option<Seq<u8>>) -> Option<Seq<u8>> {
    match o {
        Some(v) => Some(spec_trim(v)),
        None => None,
    }
}

/// A header whose value describes the stored body, which a 304 must not
/// rewrite: the body on hand is the old one.
pub open spec fn excluded_from_update(n: Seq<u8>) -> bool {
    n == nm_content_length() || n == nm_content_encoding() || n == nm_transfer_encoding() || n
        == nm_content_range()
}

/// The merge of the revalidation response over the stored headers: each
/// stored entry is replaced by the new response's value for its name, unless
/// the name is excluded from update or the new response lacks it.
pub open spec fn merge_fold(
    acc: Seq<HeaderEntry>,
    old_h: Seq<HeaderEntry>,
    new_h: Seq<HeaderEntry>,
) -> Seq<HeaderEntry>
    decreases old_h.len(),
{
    if old_h.len() == 0 {
        acc
    } else {
        let n = old_h[0].0;
        let v = if h_has(new_h, n) && !excluded_from_update(n) {
            h_get(new_h, n).unwrap()
        } else {
            old_h[0].1
        };
        merge_fold(h_insert(acc, n, v), old_h.skip(1), new_h)
    }
}

/// An insertion makes a name present and keeps every present name present.
proof fn lemma_h_insert_has(h: Seq<HeaderEntry>, n: Seq<u8>, v: Seq<u8>, m: Seq<u8>)
    ensures
        h_has(h_insert(h, n, v), m) == (m == n || h_has(h, m)),
{
    if m == n {
        lemma_h_insert_get(h, n, v);
    } else {
        lemma_h_insert_other(h, n, v, m);
    }
}

/// A name present in the accumulator or among the stored entries is present
/// after the merge.
proof fn lemma_merge_fold_has(
    acc: Seq<HeaderEntry>,
    old_h: Seq<HeaderEntry>,
    new_h: Seq<HeaderEntry>,
    n: Seq<u8>,
)
    requires
        h_has(acc, n) || exists|k: int| 0 <= k < old_h.len() && (#[trigger] old_h[k]).0 == n,
    ensures
        h_has(merge_fold(acc, old_h, new_h), n),
    decreases old_h.len(),
{
    if old_h.len() == 0 {
    } else {
        let v = if h_has(new_h, old_h[0].0) && !excluded_from_update(old_h[0].0) {
            h_get(new_h, old_h[0].0).unwrap()
        } else {
            old_h[0].1
        };
        let acc2 = h_insert(acc, old_h[0].0, v);
        lemma_h_insert_has(acc, old_h[0].0, v, n);
        if h_has(acc2, n) {
            lemma_merge_fold_has(acc2, old_h.skip(1), new_h, n);
        } else {
            let k = choose|k: int| 0 <= k < old_h.len() && (#[trigger] old_h[k]).0 == n;
            assert(old_h.skip(1)[k - 1].0 == n);
            lemma_merge_fold_has(acc2, old_h.skip(1), new_h, n);
        }
    }
}

impl CachePolicy {
    /// Whether the revalidation response's validators say the 304 applies to
    /// this stored entry: a strong new `ETag` must equal the stored one with
    /// any weak prefix dropped; a weak new `ETag` matches with both sides'
    /// prefixes dropped; otherwise a stored `Last-Modified` must equal the
    /// new one; with no validators anywhere the single stored entry matches.
    pub open spec fn spec_validator_match(&self, response: &Response) -> bool {
        let oe = opt_trim(h_get(self.res@, nm_etag()));
        let ne = opt_trim(h_get(response.headers@, nm_etag()));
        let ol = opt_trim(h_get(self.res@, nm_last_modified()));
        let nl = opt_trim(h_get(response.headers@, nm_last_modified()));
        if response.status != 304 {
            false
        } else if ne is Some && !starts_with_seq(ne.unwrap(), nm_weak_prefix()) {
            oe is Some && spec_strip_weak(oe.unwrap()) == ne.unwrap()
        } else if oe is Some && ne is Some {
            spec_strip_weak(oe.unwrap()) == spec_strip_weak(ne.unwrap())
        } else if ol is Some {
            ol == nl
        } else {
            oe is None && ne is None && nl is None
        }
    }

    /// The stored headers with every updatable name replaced by the
    /// revalidation response's value.
    pub open spec fn spec_merged_headers(&self, new_h: Seq<HeaderEntry>) -> Seq<HeaderEntry> {
        merge_fold(Seq::empty(), self.res@, new_h)
    }

    /// Whether the validators say the 304 applies to this entry.
    fn validator_match(&self, response: &Response) -> (r: bool)
        ensures
            r == self.spec_validator_match(response),
    {
        proof {
            lemma_names_lower();
        }
        if response.status != 304 {
            return false;
        }
        let oe: Option<Vec<u8>> = match self.res.get(etag_bytes().as_slice()) {
            Some(v) => Some(trim_bytes(v.as_slice())),
            None => None,
        };
        let ne: Option<Vec<u8>> = match response.headers.get(etag_bytes().as_slice()) {
            Some(v) => Some(trim_bytes(v.as_slice())),
            None => None,
        };
        let ol: Option<Vec<u8>> = match self.res.get(last_modified_bytes().as_slice()) {
            Some(v) => Some(trim_bytes(v.as_slice())),
            None => None,
        };
        let nl: Option<Vec<u8>> = match response.headers.get(last_modified_bytes().as_slice()) {
            Some(v) => Some(trim_bytes(v.as_slice())),
            None => None,
        };
        let new_is_strong = match &ne {
            Some(e) => !starts_with_bytes(e.as_slice(), weak_prefix_bytes().as_slice()),
            None => false,
        };
        if new_is_strong {
            match (&oe, &ne) {
                (Some(o), Some(n)) => {
                    let stripped = strip_weak_prefix(o.as_slice());
                    bytes_eq(stripped.as_slice(), n.as_slice())
                },
                _ => false,
            }
        } else if oe.is_some() && ne.is_some() {
            match (&oe, &ne) {
                (Some(o), Some(n)) => {
                    let so = strip_weak_prefix(o.as_slice());
                    let sn = strip_weak_prefix(n.as_slice());
                    bytes_eq(so.as_slice(), sn.as_slice())
                },
                _ => false,
            }
        } else if ol.is_some() {
            match (&ol, &nl) {
                (Some(o), Some(n)) => bytes_eq(o.as_slice(), n.as_slice()),
                (Some(_), None) => false,
                _ => false,
            }
        } else {
            oe.is_none() && ne.is_none() && nl.is_none()
        }
    }

    /// The merged header map, built over the stored entries.
    fn merged_headers(&self, response: &Response) -> (r: HeaderMap)
        requires
            self.wf(),
        ensures
            r@ == self.spec_merged_headers(response.headers@),
            wf_entries(r@),
    {
        proof {
            lemma_names_lower();
        }
        let ghost old_h = self.res@;
        let ghost new_h = response.headers@;
        let mut out = HeaderMap::new();
        let mut i: usize = 0;
        proof {
            assert(old_h.skip(0) =~= old_h);
        }
        while i < self.res.entries.len()
            invariant
                i <= old_h.len(),
                old_h == self.res@,
                new_h == response.headers@,
                wf_entries(old_h),
                old_h.len() == self.res.entries@.len(),
                forall|k: int|
                    0 <= k < old_h.len() ==> #[trigger] old_h[k] == (
                    self.res.entries@[k].0@,
                    self.res.entries@[k].1@,
                ),
                wf_entries(out@),
                merge_fold(Seq::empty(), old_h, new_h) == merge_fold(
                    out@,
                    old_h.skip(i as int),
                    new_h,
                ),
            decreases old_h.len() - i,
        {
            proof {
                assert(old_h.skip(i as int)[0] == old_h[i as int]);
                assert(old_h.skip(i as int).skip(1) =~= old_h.skip(i + 1));
                assert(spec_lower(old_h[i as int].0) == old_h[i as int].0);
            }
            let name = &self.res.entries[i].0;
            let excluded = bytes_eq(name.as_slice(), content_length_bytes().as_slice())
                || bytes_eq(name.as_slice(), content_encoding_bytes().as_slice()) || bytes_eq(
                name.as_slice(),
                transfer_encoding_bytes().as_slice(),
            ) || bytes_eq(name.as_slice(), content_range_bytes().as_slice());
            let fresh_value: Option<Vec<u8>> = if excluded {
                None
            } else {
                response.headers.get(name.as_slice())
            };
            match fresh_value {
                Some(v) => {
                    out.insert(name.as_slice(), v.as_slice());
                },
                None => {
                    out.insert(name.as_slice(), self.res.entries[i].1.as_slice());
                },
            }
            i = i + 1;
        }
        proof {
            assert(old_h.skip(old_h.len() as int) =~= Seq::<HeaderEntry>::empty());
        }
        out
    }

    /// Creates a `CachePolicy` with information combined from the previous
    /// response and the revalidation response. On a 304 whose validator
    /// matches this entry, the stored headers are updated in place, the
    /// stored status is kept, and `NotModified` says the cached body can be
    /// reused; anything else makes a policy of the new response as it stands,
    /// under `Modified`. Both carry the new policy's projected response at
    /// `response_time`.
    pub fn after_response(
        &self,
        request: &Request,
        response: &Response,
        response_time: u64,
    ) -> (r: AfterResponse)
        requires
            self.wf(),
            request.wf(),
            response.wf(),
            response_time < HTTP_DATE_LIMIT,
        ensures
            match r {
                AfterResponse::NotModified(p, parts) => {
                    &&& self.spec_validator_match(response)
                    &&& p.status == self.status
                    &&& p.opts == self.opts
                    &&& p.response_time == response_time
                    &&& p.uri@ == request.uri@
                    &&& p.method@ == request.method@
                    &&& p.req@ == request.headers@
                    &&& p.res@ == normalized_res_headers(
                        self.spec_merged_headers(response.headers@),
                        self.opts,
                    )
                    &&& p.res_cc@ == normalized_res_cc(
                        self.spec_merged_headers(response.headers@),
                        self.opts,
                    )
                    &&& p.wf()
                    &&& parts.status == self.status
                    &&& parts.headers@ == p.spec_cached_headers(response_time)
                    &&& parts.wf()
                },
                AfterResponse::Modified(p, parts) => {
                    &&& !self.spec_validator_match(response)
                    &&& p.status == response.status
                    &&& p.opts == self.opts
                    &&& p.response_time == response_time
                    &&& p.uri@ == request.uri@
                    &&& p.method@ == request.method@
                    &&& p.req@ == request.headers@
                    &&& p.res@ == normalized_res_headers(response.headers@, self.opts)
                    &&& p.res_cc@ == normalized_res_cc(response.headers@, self.opts)
                    &&& p.wf()
                    &&& parts.status == response.status
                    &&& parts.headers@ == p.spec_cached_headers(response_time)
                    &&& parts.wf()
                },
            },
    {
        let matches = self.validator_match(response);
        let status: u16;
        let headers: HeaderMap;
        if matches {
            status = self.status;
            headers = self.merged_headers(response);
        } else {
            status = response.status;
            headers = response.headers.copy();
        }
        let uri = vstd::slice::slice_to_vec(request.uri.as_slice());
        let method = vstd::slice::slice_to_vec(request.method.as_slice());
        let req_headers = request.headers.copy();
        let new_policy = from_details(
            uri,
            method,
            status,
            req_headers,
            headers,
            response_time,
            self.opts,
        );
        let parts = new_policy.cached_response(response_time);
        if matches {
            AfterResponse::NotModified(new_policy, parts)
        } else {
            AfterResponse::Modified(new_policy, parts)
        }
    }
}

/// An identity-preserving merge: every header name present in the stored
/// response is present in the merged map that a matching 304 produces.
pub proof fn lemma_merge_preserves_names(
    p: &CachePolicy,
    new_h: Seq<HeaderEntry>,
    k: int,
)
    requires
        0 <= k < p.res@.len(),
    ensures
        h_has(p.spec_merged_headers(new_h), p.res@[k].0),
{
    lemma_merge_fold_has(Seq::empty(), p.res@, new_h, p.res@[k].0);
}

/// The same, carried through to the policy a matching 304 yields: where the
/// cargo-cult purge is off, construction keeps the merged headers as they
/// are, so every stored header name stands in the new policy's response
/// headers.
pub proof fn lemma_not_modified_keeps_names(p: &CachePolicy, new_h: Seq<HeaderEntry>, k: int)
    requires
        !p.opts.ignore_cargo_cult,
        0 <= k < p.res@.len(),
    ensures
        h_has(
            crate::policy::normalized_res_headers(p.spec_merged_headers(new_h), p.opts),
            p.res@[k].0,
        ),
{
    lemma_merge_preserves_names(p, new_h, k);
}

} // verus!
