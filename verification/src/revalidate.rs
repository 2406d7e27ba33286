//! Serving from the cache: request matching under `Vary`, the freshness
//! check against the new request's directives, and construction of the
//! revalidation request for stale entries.

use vstd::prelude::*;
use crate::bytes::{
    bytes_eq, spec_join, spec_lower, spec_parse_u64, starts_with_bytes, starts_with_seq,
    join_bytes, parse_u64, views,
};
use crate::cache_control::{cc_arg, cc_has, parse_cache_control, spec_parse_cc};
use crate::dates::HTTP_DATE_LIMIT;
use crate::headers::{
    h_get, h_has, h_insert, h_remove, h_tokens, h_values, wf_entries, HeaderEntry, HeaderMap,
};
use crate::names::{
    accept_ranges_bytes, cache_control_bytes, etag_bytes, get_bytes, head_bytes, host_bytes,
    if_match_bytes, if_modified_since_bytes, if_none_match_bytes, if_range_bytes,
    if_unmodified_since_bytes, last_modified_bytes, lemma_names_lower, max_age_bytes,
    max_stale_bytes, min_fresh_bytes, nm_accept_ranges, nm_cache_control, nm_etag, nm_get,
    nm_head, nm_host, nm_if_match, nm_if_modified_since, nm_if_none_match, nm_if_range,
    nm_if_unmodified_since, nm_last_modified, nm_max_age, nm_max_stale, nm_min_fresh,
    nm_must_revalidate, nm_no_cache, nm_star, nm_vary, nm_weak_prefix, no_cache_bytes,
    pragma_bytes, must_revalidate_bytes, vary_bytes, weak_prefix_bytes,
};
use crate::policy::{pragma_no_cache, CachePolicy, Request, Response};
use crate::project::{strip_hop, strip_hop_headers};

verus! {

/// Next action suggested after `before_request()`.
pub enum BeforeRequest {
    /// The cached response can be used with its stored body; no need to
    /// contact the server.
    Fresh(Response),
    /// The request must go to the server first.
    Stale {
        /// Send this request to the server; it carries revalidation headers
        /// when they apply.
        request: Request,
        /// `false` when the request was for some other resource than the
        /// stored exchange.
        matches: bool,
    },
}

impl BeforeRequest {
    /// Whether this is `BeforeRequest::Fresh(..)`.
    pub fn is_fresh(&self) -> (r: bool)
        ensures
            r == (self is Fresh),
    {
        matches!(self, BeforeRequest::Fresh(_))
    }
}

/// Equality of two optional byte vectors' contents.
fn opt_value_eq(a: &Option<Vec<u8>>, b: &Option<Vec<u8>>) -> (r: bool)
    ensures
        r == (match (a, b) {
            (Some(x), Some(y)) => x@ == y@,
            (None, None) => true,
            _ => false,
        }),
{
    match (a, b) {
        (None, None) => true,
        (Some(x), Some(y)) => bytes_eq(x.as_slice(), y.as_slice()),
        _ => false,
    }
}

/// The entry-tag tokens that are not weak, in order.
pub open spec fn strong_etags(toks: Seq<Seq<u8>>) -> Seq<Seq<u8>>
    decreases toks.len(),
{
    if toks.len() == 0 {
        Seq::empty()
    } else if !starts_with_seq(toks[0], nm_weak_prefix()) {
        seq![toks[0]] + strong_etags(toks.skip(1))
    } else {
        strong_etags(toks.skip(1))
    }
}

impl CachePolicy {
    /// Selection under `Vary`: every nominated field of the new request must
    /// equal the original's, and a `*` never matches.
    pub open spec fn spec_vary_matches(&self, h_new: Seq<HeaderEntry>) -> bool {
        let toks = h_tokens(self.res@, nm_vary());
        &&& forall|i: int| 0 <= i < toks.len() ==> #[trigger] toks[i] != nm_star()
        &&& forall|i: int|
            0 <= i < toks.len() ==> h_get(h_new, spec_lower(#[trigger] toks[i])) == h_get(
                self.req@,
                spec_lower(toks[i]),
            )
    }

    /// The new request asks for the stored resource: same URI, same `Host`,
    /// and the `Vary` selection holds.
    pub open spec fn spec_request_matches(&self, r: &Request) -> bool {
        r.uri@ == self.uri@ && h_get(self.req@, nm_host()) == h_get(r.headers@, nm_host())
            && self.spec_vary_matches(r.headers@)
    }

    /// An exact match also has the same method.
    pub open spec fn spec_exact_match(&self, r: &Request) -> bool {
        self.spec_request_matches(r) && r.method@ == self.method@
    }

    /// Whether the stored response may satisfy the request without
    /// revalidation: no `no-cache` from the client, the client's `max-age`
    /// and `min-fresh` bounds hold, and the response is fresh or the client
    /// allows the staleness.
    pub open spec fn spec_satisfies(&self, rh: Seq<HeaderEntry>, now: u64) -> bool {
        let rcc = spec_parse_cc(h_values(rh, nm_cache_control()));
        &&& !cc_has(rcc, nm_no_cache())
        &&& !pragma_no_cache(rh)
        &&& (match cc_arg(rcc, nm_max_age()) {
            Some(v) => match spec_parse_u64(v) {
                Some(ma) => self.spec_age(now) <= ma,
                None => true,
            },
            None => true,
        })
        &&& (match cc_arg(rcc, nm_min_fresh()) {
            Some(v) => match spec_parse_u64(v) {
                Some(mf) => self.spec_time_to_live(now) >= mf,
                None => true,
            },
            None => true,
        })
        &&& (!self.spec_is_stale(now) || self.spec_allows_stale(rcc, now))
    }

    /// Whether the client's `max-stale` permits serving this stale response:
    /// the response must not demand revalidation, and a valued `max-stale`
    /// must cover the whole excess of the age over the freshness lifetime.
    pub open spec fn spec_allows_stale(&self, rcc: Seq<crate::cache_control::Directive>, now: u64) -> bool {
        &&& !cc_has(self.res_cc@, nm_must_revalidate())
        &&& cc_has(rcc, nm_max_stale())
        &&& (match cc_arg(rcc, nm_max_stale()) {
            Some(v) => match spec_parse_u64(v) {
                Some(ms) => ms >= self.spec_age(now) - self.spec_max_age(),
                None => true,
            },
            None => true,
        })
    }

    /// The headers of the revalidation request built from the new request's
    /// headers: hop-by-hop headers and `If-Range` leave; a response that may
    /// not be stored sheds the validators; otherwise the stored `ETag` joins
    /// `If-None-Match`, weak validators leave where they are forbidden, and
    /// the stored `Last-Modified` becomes `If-Modified-Since`.
    pub open spec fn spec_revalidation_headers(&self, rh: Seq<HeaderEntry>) -> Seq<HeaderEntry> {
        let base = h_remove(strip_hop(rh), nm_if_range());
        if !self.spec_storable() {
            h_remove(h_remove(base, nm_if_none_match()), nm_if_modified_since())
        } else {
            let b2 = match h_get(self.res@, nm_etag()) {
                Some(e) => h_insert(
                    base,
                    nm_if_none_match(),
                    spec_join(h_tokens(base, nm_if_none_match()).push(e)),
                ),
                None => base,
            };
            let forbids = self.method@ != nm_get() || h_has(b2, nm_accept_ranges()) || h_has(
                b2,
                nm_if_match(),
            ) || h_has(b2, nm_if_unmodified_since());
            if forbids {
                let b3 = h_remove(b2, nm_if_modified_since());
                let etags = spec_join(strong_etags(h_tokens(b3, nm_if_none_match())));
                if etags.len() == 0 {
                    h_remove(b3, nm_if_none_match())
                } else {
                    h_insert(b3, nm_if_none_match(), etags)
                }
            } else if !h_has(b2, nm_if_modified_since()) {
                match h_get(self.res@, nm_last_modified()) {
                    Some(lm) => h_insert(b2, nm_if_modified_since(), lm),
                    None => b2,
                }
            } else {
                b2
            }
        }
    }

    /// Whether the `Vary` selection matches the new request.
    fn vary_matches(&self, req: &Request) -> (r: bool)
        ensures
            r == self.spec_vary_matches(req.headers@),
    {
        proof {
            lemma_names_lower();
        }
        let toks = self.res.get_comma_tokens(vary_bytes().as_slice());
        let ghost tv = views(toks@);
        let mut i: usize = 0;
        while i < toks.len()
            invariant
                i <= tv.len(),
                tv == views(toks@),
                tv.len() == toks@.len(),
                tv == h_tokens(self.res@, nm_vary()),
                forall|k: int| 0 <= k < i ==> #[trigger] tv[k] != nm_star(),
                forall|k: int|
                    0 <= k < i ==> h_get(req.headers@, spec_lower(#[trigger] tv[k])) == h_get(
                        self.req@,
                        spec_lower(tv[k]),
                    ),
            decreases tv.len() - i,
        {
            let tok = &toks[i];
            proof {
                assert(tv[i as int] == toks@[i as int]@);
            }
            if bytes_eq(tok.as_slice(), star_slice().as_slice()) {
                proof {
                    assert(h_tokens(self.res@, nm_vary())[i as int] == nm_star());
                }
                return false;
            }
            let mine = self.req.get(tok.as_slice());
            let theirs = req.headers.get(tok.as_slice());
            if !opt_value_eq(&mine, &theirs) {
                proof {
                    let n = spec_lower(h_tokens(self.res@, nm_vary())[i as int]);
                    assert(h_get(req.headers@, n) != h_get(self.req@, n));
                }
                return false;
            }
            i = i + 1;
        }
        true
    }

    /// Whether the new request matches exactly, and whether it may at least
    /// revalidate (an exact match, or a `HEAD` request).
    fn request_matches(&self, req: &Request) -> (r: (bool, bool))
        ensures
            r.0 == self.spec_exact_match(req),
            r.1 == (r.0 || req.method@ == nm_head()),
    {
        proof {
            lemma_names_lower();
        }
        let matches = bytes_eq(req.uri.as_slice(), self.uri.as_slice()) && opt_value_eq(
            &self.req.get(host_bytes().as_slice()),
            &req.headers.get(host_bytes().as_slice()),
        ) && self.vary_matches(req);
        let exact = matches && bytes_eq(req.method.as_slice(), self.method.as_slice());
        (exact, exact || bytes_eq(req.method.as_slice(), head_bytes().as_slice()))
    }

    /// Whether the stored response satisfies the request without revalidation.
    fn satisfies_without_revalidation(&self, req: &Request, now: u64) -> (r: bool)
        ensures
            r == self.spec_satisfies(req.headers@, now),
    {
        proof {
            lemma_names_lower();
        }
        let vals = req.headers.get_all(cache_control_bytes().as_slice());
        let rcc = parse_cache_control(&vals);
        if rcc.contains(no_cache_bytes().as_slice()) {
            return false;
        }
        let pragma = match req.headers.get(pragma_bytes().as_slice()) {
            Some(p) => crate::bytes::contains_bytes(p.as_slice(), no_cache_bytes().as_slice()),
            None => false,
        };
        if pragma {
            return false;
        }
        match rcc.arg(max_age_bytes().as_slice()) {
            Some(v) => match parse_u64(v.as_slice()) {
                Some(ma) => {
                    if self.age(now) > ma {
                        return false;
                    }
                },
                None => {},
            },
            None => {},
        }
        match rcc.arg(min_fresh_bytes().as_slice()) {
            Some(v) => match parse_u64(v.as_slice()) {
                Some(mf) => {
                    if self.time_to_live(now) < mf {
                        return false;
                    }
                },
                None => {},
            },
            None => {},
        }
        if self.is_stale(now) {
            if self.res_cc.contains(must_revalidate_bytes().as_slice()) {
                return false;
            }
            if !rcc.contains(max_stale_bytes().as_slice()) {
                return false;
            }
            match rcc.arg(max_stale_bytes().as_slice()) {
                Some(v) => match parse_u64(v.as_slice()) {
                    Some(ms) => {
                        let slack = self.age(now) - self.max_age();
                        if ms < slack {
                            return false;
                        }
                    },
                    None => {},
                },
                None => {},
            }
        }
        true
    }

    /// A request with the stored method and URI around the given headers.
    fn request_from_headers(&self, headers: HeaderMap) -> (r: Request)
        ensures
            r.method@ == self.method@,
            r.uri@ == self.uri@,
            r.headers@ == headers@,
    {
        Request {
            method: vstd::slice::slice_to_vec(self.method.as_slice()),
            uri: vstd::slice::slice_to_vec(self.uri.as_slice()),
            headers,
        }
    }

    /// Headers for sending to the origin server to revalidate a stale
    /// response, allowing the server to answer 304 so the stored response
    /// can be reused.
    fn revalidation_request(&self, req: &Request) -> (r: Request)
        requires
            self.wf(),
            req.wf(),
        ensures
            r.method@ == self.method@,
            r.uri@ == self.uri@,
            r.headers@ == self.spec_revalidation_headers(req.headers@),
            wf_entries(r.headers@),
    {
        proof {
            lemma_names_lower();
        }
        let mut headers = strip_hop_headers(&req.headers);
        headers.remove(if_range_bytes().as_slice());
        if !self.is_storable() {
            headers.remove(if_none_match_bytes().as_slice());
            headers.remove(if_modified_since_bytes().as_slice());
            return self.request_from_headers(headers);
        }
        match self.res.get(etag_bytes().as_slice()) {
            Some(e) => {
                let ghost base = headers@;
                let mut toks = headers.get_comma_tokens(if_none_match_bytes().as_slice());
                let ghost before = views(toks@);
                toks.push(vstd::slice::slice_to_vec(e.as_slice()));
                proof {
                    assert(views(toks@) =~= before.push(e@));
                }
                let joined = join_bytes(&toks);
                headers.insert(if_none_match_bytes().as_slice(), joined.as_slice());
            },
            None => {},
        }
        let forbids = !bytes_eq(self.method.as_slice(), get_bytes().as_slice())
            || headers.contains(accept_ranges_bytes().as_slice()) || headers.contains(
            if_match_bytes().as_slice(),
        ) || headers.contains(if_unmodified_since_bytes().as_slice());
        if forbids {
            headers.remove(if_modified_since_bytes().as_slice());
            let toks = headers.get_comma_tokens(if_none_match_bytes().as_slice());
            let ghost tv = views(toks@);
            let mut strong: Vec<Vec<u8>> = Vec::new();
            let mut i: usize = 0;
            proof {
                assert(tv.skip(0) =~= tv);
                assert(views(strong@) + strong_etags(tv) =~= strong_etags(tv));
            }
            while i < toks.len()
                invariant
                    i <= tv.len(),
                    tv == views(toks@),
                    tv.len() == toks@.len(),
                    strong_etags(tv) == views(strong@) + strong_etags(tv.skip(i as int)),
                decreases tv.len() - i,
            {
                let ghost s0 = views(strong@);
                proof {
                    assert(tv.skip(i as int)[0] == tv[i as int]);
                    assert(tv.skip(i as int).skip(1) =~= tv.skip(i + 1));
                }
                if !starts_with_bytes(toks[i].as_slice(), weak_prefix_bytes().as_slice()) {
                    strong.push(vstd::slice::slice_to_vec(toks[i].as_slice()));
                    proof {
                        assert(views(strong@) =~= s0.push(tv[i as int]));
                        assert(seq![tv[i as int]] + strong_etags(tv.skip(i + 1)) =~= strong_etags(
                            tv.skip(i as int),
                        ));
                        assert(s0.push(tv[i as int]) + strong_etags(tv.skip(i + 1)) =~= s0 + (
                        seq![tv[i as int]] + strong_etags(tv.skip(i + 1))));
                    }
                }
                i = i + 1;
            }
            proof {
                assert(tv.skip(tv.len() as int) =~= Seq::<Seq<u8>>::empty());
                assert(views(strong@) + Seq::<Seq<u8>>::empty() =~= views(strong@));
            }
            let etags = join_bytes(&strong);
            if etags.len() == 0 {
                headers.remove(if_none_match_bytes().as_slice());
            } else {
                headers.insert(if_none_match_bytes().as_slice(), etags.as_slice());
            }
        } else if !headers.contains(if_modified_since_bytes().as_slice()) {
            match self.res.get(last_modified_bytes().as_slice()) {
                Some(lm) => {
                    headers.insert(if_modified_since_bytes().as_slice(), lm.as_slice());
                },
                None => {},
            }
        }
        self.request_from_headers(headers)
    }

    /// Returns whether the cached response is still fresh in the context of
    /// the new request. `Fresh` carries the projected response; it comes
    /// exactly when the request matches this entry in URI, `Host`, `Vary`
    /// selection and method, and the stored response satisfies the request's
    /// freshness demands. Anything else is `Stale`, whose request carries
    /// revalidation headers when the entry may be revalidated, and the
    /// stripped headers of the new request otherwise.
    pub fn before_request(&self, req: &Request, now: u64) -> (r: BeforeRequest)
        requires
            self.wf(),
            req.wf(),
            now < HTTP_DATE_LIMIT,
        ensures
            match r {
                BeforeRequest::Fresh(parts) => {
                    &&& self.spec_exact_match(req)
                    &&& self.spec_satisfies(req.headers@, now)
                    &&& parts.status == self.status
                    &&& parts.headers@ == self.spec_cached_headers(now)
                    &&& parts.wf()
                },
                BeforeRequest::Stale { request, matches } => {
                    &&& !(self.spec_exact_match(req) && self.spec_satisfies(req.headers@, now))
                    &&& matches == self.spec_exact_match(req)
                    &&& request.method@ == self.method@
                    &&& request.uri@ == self.uri@
                    &&& request.headers@ == if self.spec_exact_match(req) || req.method@
                        == nm_head() {
                        self.spec_revalidation_headers(req.headers@)
                    } else {
                        strip_hop(req.headers@)
                    }
                    &&& request.wf()
                },
            },
    {
        let (exact, may_revalidate) = self.request_matches(req);
        if exact && self.satisfies_without_revalidation(req, now) {
            BeforeRequest::Fresh(self.cached_response(now))
        } else if may_revalidate {
            BeforeRequest::Stale { request: self.revalidation_request(req), matches: exact }
        } else {
            let headers = strip_hop_headers(&req.headers);
            BeforeRequest::Stale { request: self.request_from_headers(headers), matches: exact }
        }
    }
}

/// Allocates the byte string `"*"`.
fn star_slice() -> (r: Vec<u8>)
    ensures
        r@ == nm_star(),
{
    crate::names::star_bytes()
}

/// A fresh answer owes its storability: where the client did not send
/// `max-stale`, a response that satisfies the request without revalidation
/// can always be stored. (With `max-stale` the client may accept responses
/// that were never storable, whose freshness lifetime is zero.)
pub proof fn lemma_fresh_is_storable(p: &CachePolicy, rh: Seq<HeaderEntry>, now: u64)
    requires
        !cc_has(spec_parse_cc(h_values(rh, nm_cache_control())), nm_max_stale()),
        p.spec_satisfies(rh, now),
    ensures
        p.spec_storable(),
{
    if !p.spec_storable() {
        crate::policy::lemma_unstorable_has_no_freshness(p);
        assert(p.spec_is_stale(now));
    }
}

} // verus!
