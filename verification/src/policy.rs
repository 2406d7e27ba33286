//! The policy evaluator: a value object built from a request/response pair at
//! a wall-clock instant, answering the RFC 7234 storability, freshness and
//! revalidation questions. Times are whole seconds since the Unix epoch;
//! durations are whole seconds.

use vstd::prelude::*;
use crate::bytes::{bytes_eq, contains_bytes, contains_seq, parse_u64, spec_parse_u64, spec_trim, trim_bytes};
use crate::cache_control::{
    cc_arg, cc_has, cc_remove, cc_set, format_cache_control, parse_cache_control, spec_format_cc,
    spec_parse_cc, wf_cc, CacheControl, Directive,
};
use crate::dates::{http_date_value, parse_http_date_bytes};
use crate::headers::{h_get, h_has, h_values, wf_entries, HeaderEntry, HeaderMap};
use crate::names::{
    age_bytes, authorization_bytes, cache_control_bytes, date_bytes, expires_bytes, get_bytes,
    head_bytes, immutable_bytes, last_modified_bytes, max_age_bytes, must_revalidate_bytes,
    nm_cache_control, nm_age, nm_authorization, nm_date, nm_expires, nm_get, nm_head,
    nm_immutable, nm_last_modified, nm_max_age, nm_must_revalidate, nm_no_cache, nm_no_store,
    nm_post, nm_post_check, nm_pragma, nm_pre_check, nm_private, nm_proxy_revalidate, nm_public,
    nm_s_maxage, nm_set_cookie, nm_star, nm_vary, no_cache_bytes, no_store_bytes,
    post_bytes, post_check_bytes, pragma_bytes, pre_check_bytes, private_bytes,
    proxy_revalidate_bytes, public_bytes, s_maxage_bytes, set_cookie_bytes, star_bytes,
    vary_bytes, lemma_names_lower,
};

verus! {

/// Indicates the privacy of the cache.
///
/// This influences the impact of things like the `private` or `s-maxage`
/// directives or the `Authorization` header on storability.
#[derive(Clone, Copy, Debug, PartialEq, Eq, Hash, Structural)]
pub enum Privacy {
    /// A shared cache (default) e.g. for a proxy or some other multi-user cache.
    Shared,
    /// A private cache e.g. for a web browser.
    Private,
}

impl Privacy {
    /// The default privacy, [`Privacy::Shared`].
    pub fn default() -> (r: Self)
        ensures
            r == Privacy::Shared,
    {
        Privacy::Shared
    }

    /// If the privacy is [`Privacy::Shared`].
    pub fn is_shared(self) -> (r: bool)
        ensures
            r == (self == Privacy::Shared),
    {
        match self {
            Privacy::Shared => true,
            Privacy::Private => false,
        }
    }

    /// If the privacy is [`Privacy::Private`].
    pub fn is_private(self) -> (r: bool)
        ensures
            r == (self == Privacy::Private),
    {
        match self {
            Privacy::Shared => false,
            Privacy::Private => true,
        }
    }
}

/// Configuration options which control behavior of the cache. Use with
/// `CachePolicy::new_options()`.
#[derive(Clone, Copy, Debug)]
pub struct CacheOptions {
    /// If [`Privacy::Shared`] (default), the response is evaluated from the
    /// perspective of a shared cache: `private` is not cacheable and
    /// `s-maxage` is respected. If [`Privacy::Private`], from the perspective
    /// of a single-user cache: `private` is cacheable and `s-maxage` ignored.
    pub privacy: Privacy,
    /// The fraction of a response's age since `Last-Modified` used as a
    /// fallback cache duration, in thousandths. The default is 100 (a tenth):
    /// a file not modified for 100 days is cached for 10 days.
    pub cache_heuristic: u64,
    /// Seconds granted as the default time to cache responses with
    /// `Cache-Control: immutable`. Per RFC these can still become stale, so
    /// `max-age` overrides the default.
    pub immutable_min_time_to_live: u64,
    /// If `true`, common anti-cache directives are completely ignored when
    /// the non-standard `pre-check` and `post-check` directives are present.
    pub ignore_cargo_cult: bool,
}

/// The default options: a shared cache, a tenth of the age since last
/// modification, 24 hours of minimum `immutable` freshness, no purge.
pub open spec fn default_options() -> CacheOptions {
    CacheOptions {
        privacy: Privacy::Shared,
        cache_heuristic: 100u64,
        immutable_min_time_to_live: 86400u64,
        ignore_cargo_cult: false,
    }
}

impl CacheOptions {
    /// The default cache options: a shared cache, a tenth of the age since
    /// last modification, 24 hours of minimum `immutable` freshness, no purge.
    pub fn default() -> (r: Self)
        ensures
            r == default_options(),
    {
        CacheOptions {
            privacy: Privacy::Shared,
            cache_heuristic: 100,
            immutable_min_time_to_live: 86400,
            ignore_cargo_cult: false,
        }
    }

    /// Sets the cache privacy.
    #[must_use]
    pub fn privacy(self, privacy: Privacy) -> (r: Self)
        ensures
            r == (CacheOptions { privacy, ..self }),
    {
        CacheOptions { privacy, ..self }
    }

    /// Sets the last-modified freshness heuristic, in thousandths.
    #[must_use]
    pub fn cache_heuristic(self, heuristic: u64) -> (r: Self)
        ensures
            r == (CacheOptions { cache_heuristic: heuristic, ..self }),
    {
        CacheOptions { cache_heuristic: heuristic, ..self }
    }

    /// Sets the default time-to-live for `immutable`, in seconds.
    #[must_use]
    pub fn immutable_min_time_to_live(self, ttl: u64) -> (r: Self)
        ensures
            r == (CacheOptions { immutable_min_time_to_live: ttl, ..self }),
    {
        CacheOptions { immutable_min_time_to_live: ttl, ..self }
    }

    /// Ignores the effect of some ill-advised directive usage.
    #[must_use]
    pub fn ignore_cargo_cult(self, ignore: bool) -> (r: Self)
        ensures
            r == (CacheOptions { ignore_cargo_cult: ignore, ..self }),
    {
        CacheOptions { ignore_cargo_cult: ignore, ..self }
    }
}

impl core::default::Default for CacheOptions {
    /// The default cache options.
    fn default() -> (r: Self)
        ensures
            r == default_options(),
    {
        CacheOptions::default()
    }
}

/// A request as the evaluator sees it: method, effective URI and headers,
/// all plain bytes.
pub struct Request {
    /// The HTTP method, an uppercase token such as `GET`.
    pub method: Vec<u8>,
    /// The effective request URI; matching compares it byte for byte.
    pub uri: Vec<u8>,
    /// The request headers.
    pub headers: HeaderMap,
}

impl Request {
    /// The headers are well formed.
    pub open spec fn wf(&self) -> bool {
        wf_entries(self.headers@)
    }

    /// A request from its parts.
    pub fn new(method: &[u8], uri: &[u8], headers: HeaderMap) -> (r: Request)
        ensures
            r.method@ == method@,
            r.uri@ == uri@,
            r.headers@ == headers@,
    {
        Request {
            method: vstd::slice::slice_to_vec(method),
            uri: vstd::slice::slice_to_vec(uri),
            headers,
        }
    }
}

/// A response as the evaluator sees it: status code and headers.
pub struct Response {
    /// The response status code.
    pub status: u16,
    /// The response headers.
    pub headers: HeaderMap,
}

impl Response {
    /// The headers are well formed.
    pub open spec fn wf(&self) -> bool {
        wf_entries(self.headers@)
    }

    /// A response from its parts.
    pub fn new(status: u16, headers: HeaderMap) -> (r: Response)
        ensures
            r.status == status,
            r.headers@ == headers@,
    {
        Response { status, headers }
    }
}

/// Clamps a mathematical count of seconds into a `u64`.
pub open spec fn clamp_u64(x: int) -> u64 {
    if x > u64::MAX {
        u64::MAX
    } else if x < 0 {
        0
    } else {
        x as u64
    }
}

/// A status code this cache understands.
pub open spec fn understood_status(s: u16) -> bool {
    s == 200 || s == 203 || s == 204 || s == 300 || s == 301 || s == 302 || s == 303 || s == 307
        || s == 308 || s == 404 || s == 405 || s == 410 || s == 414 || s == 501
}

/// Executable twin of [`understood_status`].
#[verifier::when_used_as_spec(understood_status)]
pub fn understood_status_exec(s: u16) -> (r: bool)
    ensures
        r == understood_status(s),
{
    s == 200 || s == 203 || s == 204 || s == 300 || s == 301 || s == 302 || s == 303 || s == 307
        || s == 308 || s == 404 || s == 405 || s == 410 || s == 414 || s == 501
}

/// A status code cacheable by default (RFC 7231 section 6.1).
pub open spec fn default_cacheable_status(s: u16) -> bool {
    s == 200 || s == 203 || s == 204 || s == 206 || s == 300 || s == 301 || s == 308 || s == 404
        || s == 405 || s == 410 || s == 414 || s == 501
}

/// Executable twin of [`default_cacheable_status`].
#[verifier::when_used_as_spec(default_cacheable_status)]
pub fn default_cacheable_status_exec(s: u16) -> (r: bool)
    ensures
        r == default_cacheable_status(s),
{
    s == 200 || s == 203 || s == 204 || s == 206 || s == 300 || s == 301 || s == 308 || s == 404
        || s == 405 || s == 410 || s == 414 || s == 501
}

/// Whether the purge of cargo-cult directives applies.
pub open spec fn purge_applies(cc0: Seq<Directive>, opts: CacheOptions) -> bool {
    opts.ignore_cargo_cult && cc_has(cc0, nm_pre_check()) && cc_has(cc0, nm_post_check())
}

/// The directive set with the cargo-cult and anti-cache directives removed.
pub open spec fn purged_cc(cc0: Seq<Directive>) -> Seq<Directive> {
    cc_remove(
        cc_remove(
            cc_remove(cc_remove(cc_remove(cc0, nm_pre_check()), nm_post_check()), nm_no_cache()),
            nm_no_store(),
        ),
        nm_must_revalidate(),
    )
}

/// Whether the header map's `Pragma` holds `no-cache` somewhere, read as
/// plain bytes.
pub open spec fn pragma_no_cache(h: Seq<HeaderEntry>) -> bool {
    match h_get(h, nm_pragma()) {
        Some(p) => contains_seq(p, nm_no_cache()),
        None => false,
    }
}

/// The response headers after construction-time normalization: under the
/// purge, the residual directive set is written back and `Expires` and
/// `Pragma` leave.
pub open spec fn normalized_res_headers(res_h: Seq<HeaderEntry>, opts: CacheOptions) -> Seq<
    HeaderEntry,
> {
    let cc0 = spec_parse_cc(h_values(res_h, nm_cache_control()));
    if purge_applies(cc0, opts) {
        crate::headers::h_remove(
            crate::headers::h_remove(
                crate::headers::h_insert(res_h, nm_cache_control(), spec_format_cc(purged_cc(cc0))),
                nm_expires(),
            ),
            nm_pragma(),
        )
    } else {
        res_h
    }
}

/// The response directive set after normalization: purged when the purge
/// applies, and with `no-cache` inserted under the `Pragma` fallback.
pub open spec fn normalized_res_cc(res_h: Seq<HeaderEntry>, opts: CacheOptions) -> Seq<Directive> {
    let cc0 = spec_parse_cc(h_values(res_h, nm_cache_control()));
    let cc1 = if purge_applies(cc0, opts) {
        purged_cc(cc0)
    } else {
        cc0
    };
    let res1 = normalized_res_headers(res_h, opts);
    if !h_has(res1, nm_cache_control()) && pragma_no_cache(res1) {
        cc_set(cc1, nm_no_cache(), None)
    } else {
        cc1
    }
}

/// Identifies when responses can be reused from a cache, taking into account
/// HTTP RFC 7234 rules for user agents and shared caches. It's aware of many
/// tricky details such as the `Vary` header, proxy revalidation, and
/// authenticated responses. Build it with `new` or `new_options`.
pub struct CachePolicy {
    /// Headers of the originating request.
    pub req: HeaderMap,
    /// Headers of the response, after normalization.
    pub res: HeaderMap,
    /// Effective URI of the originating request.
    pub uri: Vec<u8>,
    /// The response status code.
    pub status: u16,
    /// Method of the originating request.
    pub method: Vec<u8>,
    /// The configuration the policy was built with.
    pub opts: CacheOptions,
    /// Parsed `Cache-Control` of the response, after normalization.
    pub res_cc: CacheControl,
    /// Parsed `Cache-Control` of the originating request.
    pub req_cc: CacheControl,
    /// Seconds since the epoch at which the response was received.
    pub response_time: u64,
}

/// Builds a policy from its separate details, normalizing the response
/// headers and directive set.
pub(crate) fn from_details(
    uri: Vec<u8>,
    method: Vec<u8>,
    status: u16,
    req: HeaderMap,
    res: HeaderMap,
    response_time: u64,
    opts: CacheOptions,
) -> (r: CachePolicy)
    requires
        wf_entries(req@),
        wf_entries(res@),
    ensures
        r.uri@ == uri@,
        r.method@ == method@,
        r.status == status,
        r.opts == opts,
        r.response_time == response_time,
        r.req@ == req@,
        r.req_cc@ == spec_parse_cc(h_values(req@, nm_cache_control())),
        r.res@ == normalized_res_headers(res@, opts),
        r.res_cc@ == normalized_res_cc(res@, opts),
        r.wf(),
{
    proof {
        lemma_names_lower();
    }
    let ghost res0 = res@;
    let mut res = res;
    let ccn = cache_control_bytes();
    let res_vals = res.get_all(ccn.as_slice());
    let mut res_cc = parse_cache_control(&res_vals);
    let req_vals = req.get_all(ccn.as_slice());
    let req_cc = parse_cache_control(&req_vals);
    if opts.ignore_cargo_cult && res_cc.contains(pre_check_bytes().as_slice())
        && res_cc.contains(post_check_bytes().as_slice()) {
        res_cc.remove(pre_check_bytes().as_slice());
        res_cc.remove(post_check_bytes().as_slice());
        res_cc.remove(no_cache_bytes().as_slice());
        res_cc.remove(no_store_bytes().as_slice());
        res_cc.remove(must_revalidate_bytes().as_slice());
        let formatted = format_cache_control(&res_cc);
        res.insert(ccn.as_slice(), formatted.as_slice());
        res.remove(expires_bytes().as_slice());
        res.remove(pragma_bytes().as_slice());
    }
    proof {
        assert(res@ == normalized_res_headers(res0, opts));
    }
    let fallback = !res.contains(ccn.as_slice()) && match res.get(pragma_bytes().as_slice()) {
        Some(p) => contains_bytes(p.as_slice(), no_cache_bytes().as_slice()),
        None => false,
    };
    if fallback {
        res_cc.set(no_cache_bytes().as_slice(), None);
    }
    CachePolicy { req, res, uri, status, method, opts, res_cc, req_cc, response_time }
}

impl CachePolicy {
    /// The maps are well formed and the directive sets hold unique names.
    pub open spec fn wf(&self) -> bool {
        wf_entries(self.req@) && wf_entries(self.res@) && wf_cc(self.res_cc@) && wf_cc(
            self.req_cc@,
        )
    }

    /// The response names an explicit expiration: `s-maxage` for a shared
    /// cache, `max-age`, or an `Expires` header.
    pub open spec fn spec_has_explicit_expiration(&self) -> bool {
        (self.opts.privacy == Privacy::Shared && cc_has(self.res_cc@, nm_s_maxage())) || cc_has(
            self.res_cc@,
            nm_max_age(),
        ) || h_has(self.res@, nm_expires())
    }

    /// The response carries a directive that permits storing authenticated
    /// exchanges: `must-revalidate`, `public` or `s-maxage`.
    pub open spec fn spec_allows_storing_authenticated(&self) -> bool {
        cc_has(self.res_cc@, nm_must_revalidate()) || cc_has(self.res_cc@, nm_public()) || cc_has(
            self.res_cc@,
            nm_s_maxage(),
        )
    }

    /// Storability under RFC 7234 section 3.
    pub open spec fn spec_storable(&self) -> bool {
        &&& !cc_has(self.req_cc@, nm_no_store())
        &&& (self.method@ == nm_get() || self.method@ == nm_head() || (self.method@ == nm_post()
            && self.spec_has_explicit_expiration()))
        &&& understood_status(self.status)
        &&& !cc_has(self.res_cc@, nm_no_store())
        &&& (self.opts.privacy == Privacy::Private || !cc_has(self.res_cc@, nm_private()))
        &&& (self.opts.privacy == Privacy::Private || !h_has(self.req@, nm_authorization())
            || self.spec_allows_storing_authenticated())
        &&& (h_has(self.res@, nm_expires()) || cc_has(self.res_cc@, nm_max_age())
            || (self.opts.privacy == Privacy::Shared && cc_has(self.res_cc@, nm_s_maxage()))
            || cc_has(self.res_cc@, nm_public()) || default_cacheable_status(self.status))
    }

    /// The server's own date: the parsed `Date` header, or the reception time
    /// where it is absent or malformed.
    pub open spec fn spec_server_date(&self) -> u64 {
        match h_get(self.res@, nm_date()) {
            Some(v) => match http_date_value(v) {
                Some(t) => t,
                None => self.response_time,
            },
            None => self.response_time,
        }
    }

    /// The non-negative seconds of the `Age` header; 0 on absence or failure.
    pub open spec fn spec_age_header(&self) -> u64 {
        match h_get(self.res@, nm_age()) {
            Some(v) => match spec_parse_u64(v) {
                Some(n) => n,
                None => 0,
            },
            None => 0,
        }
    }

    /// Age at `now`: the `Age` header plus the resident time, which clamps at
    /// zero when the clock moved backwards and saturates on overflow.
    pub open spec fn spec_age(&self, now: u64) -> u64 {
        clamp_u64(
            self.spec_age_header() + if now >= self.response_time {
                now - self.response_time
            } else {
                0
            },
        )
    }

    /// The freshness lifetime granted by the `Last-Modified` heuristic.
    pub open spec fn spec_heuristic_freshness(&self) -> u64 {
        clamp_u64(
            (self.spec_server_date() - http_date_value(
                h_get(self.res@, nm_last_modified()).unwrap(),
            ).unwrap()) * self.opts.cache_heuristic / 1000,
        )
    }

    /// The applicable freshness lifetime in seconds, evaluated in the RFC's
    /// order: anti-cache conditions first, then `s-maxage` and `max-age`,
    /// then `Expires`, then the `Last-Modified` heuristic, each with the
    /// `immutable` minimum where it applies.
    pub open spec fn spec_max_age(&self) -> u64 {
        if !self.spec_storable() || cc_has(self.res_cc@, nm_no_cache()) {
            0
        } else if self.opts.privacy == Privacy::Shared && h_has(self.res@, nm_set_cookie())
            && !cc_has(self.res_cc@, nm_public()) && !cc_has(self.res_cc@, nm_immutable()) {
            0
        } else if match h_get(self.res@, nm_vary()) {
            Some(v) => spec_trim(v) == nm_star(),
            None => false,
        } {
            0
        } else if self.opts.privacy == Privacy::Shared && cc_has(
            self.res_cc@,
            nm_proxy_revalidate(),
        ) {
            0
        } else if self.opts.privacy == Privacy::Shared && cc_arg(self.res_cc@, nm_s_maxage())
            is Some {
            match spec_parse_u64(cc_arg(self.res_cc@, nm_s_maxage()).unwrap()) {
                Some(n) => n,
                None => 0,
            }
        } else if cc_arg(self.res_cc@, nm_max_age()) is Some {
            match spec_parse_u64(cc_arg(self.res_cc@, nm_max_age()).unwrap()) {
                Some(n) => n,
                None => 0,
            }
        } else {
            let min_ttl = if cc_has(self.res_cc@, nm_immutable()) {
                self.opts.immutable_min_time_to_live
            } else {
                0
            };
            if h_has(self.res@, nm_expires()) {
                match http_date_value(h_get(self.res@, nm_expires()).unwrap()) {
                    None => 0,
                    Some(exp) => {
                        let fresh = if exp >= self.spec_server_date() {
                            (exp - self.spec_server_date()) as u64
                        } else {
                            0
                        };
                        if min_ttl >= fresh {
                            min_ttl
                        } else {
                            fresh
                        }
                    },
                }
            } else if h_get(self.res@, nm_last_modified()) is Some && http_date_value(
                h_get(self.res@, nm_last_modified()).unwrap(),
            ) is Some && http_date_value(h_get(self.res@, nm_last_modified()).unwrap()).unwrap()
                <= self.spec_server_date() {
                let fresh = self.spec_heuristic_freshness();
                if min_ttl >= fresh {
                    min_ttl
                } else {
                    fresh
                }
            } else {
                min_ttl
            }
        }
    }

    /// Seconds of freshness left at `now`; zero once stale.
    pub open spec fn spec_time_to_live(&self, now: u64) -> u64 {
        if self.spec_max_age() >= self.spec_age(now) {
            (self.spec_max_age() - self.spec_age(now)) as u64
        } else {
            0
        }
    }

    /// Stale means the age has reached the freshness lifetime.
    pub open spec fn spec_is_stale(&self, now: u64) -> bool {
        self.spec_age(now) >= self.spec_max_age()
    }

    /// Cacheability of an HTTP response depends on how it was requested, so
    /// both request and response are required to create the policy. `now` is
    /// the instant the response was received, in seconds since the epoch;
    /// default options apply.
    pub fn new(req: &Request, res: &Response, now: u64) -> (r: CachePolicy)
        requires
            req.wf(),
            res.wf(),
        ensures
            policy_of(&r, req, res, now, default_options()),
            r.wf(),
    {
        Self::new_options(req, res, now, CacheOptions::default())
    }

    /// Caching with customized behavior; `response_time` is the instant the
    /// response has been received, in seconds since the epoch.
    pub fn new_options(
        req: &Request,
        res: &Response,
        response_time: u64,
        opts: CacheOptions,
    ) -> (r: CachePolicy)
        requires
            req.wf(),
            res.wf(),
        ensures
            policy_of(&r, req, res, response_time, opts),
            r.wf(),
    {
        let uri = vstd::slice::slice_to_vec(req.uri.as_slice());
        let method = vstd::slice::slice_to_vec(req.method.as_slice());
        let req_headers = req.headers.copy();
        let res_headers = res.headers.copy();
        from_details(uri, method, res.status, req_headers, res_headers, response_time, opts)
    }

    /// Returns `true` if the response can be stored in a cache. If it's
    /// `false` then you MUST NOT store either the request or the response.
    pub fn is_storable(&self) -> (r: bool)
        ensures
            r == self.spec_storable(),
    {
        proof {
            lemma_names_lower();
        }
        let shared = matches!(self.opts.privacy, Privacy::Shared);
        !self.req_cc.contains(no_store_bytes().as_slice()) && (bytes_eq(
            self.method.as_slice(),
            get_bytes().as_slice(),
        ) || bytes_eq(self.method.as_slice(), head_bytes().as_slice()) || (bytes_eq(
            self.method.as_slice(),
            post_bytes().as_slice(),
        ) && self.has_explicit_expiration())) && understood_status_exec(self.status)
            && !self.res_cc.contains(no_store_bytes().as_slice()) && (!shared
            || !self.res_cc.contains(private_bytes().as_slice())) && (!shared
            || !self.req.contains(authorization_bytes().as_slice())
            || self.allows_storing_authenticated()) && (self.res.contains(
            expires_bytes().as_slice(),
        ) || self.res_cc.contains(max_age_bytes().as_slice()) || (shared && self.res_cc.contains(
            s_maxage_bytes().as_slice(),
        )) || self.res_cc.contains(public_bytes().as_slice()) || default_cacheable_status_exec(
            self.status,
        ))
    }

    /// Whether the response names an explicit expiration.
    pub fn has_explicit_expiration(&self) -> (r: bool)
        ensures
            r == self.spec_has_explicit_expiration(),
    {
        proof {
            lemma_names_lower();
        }
        let shared = matches!(self.opts.privacy, Privacy::Shared);
        (shared && self.res_cc.contains(s_maxage_bytes().as_slice())) || self.res_cc.contains(
            max_age_bytes().as_slice(),
        ) || self.res.contains(expires_bytes().as_slice())
    }

    /// Whether authenticated exchanges may be stored anyway.
    fn allows_storing_authenticated(&self) -> (r: bool)
        ensures
            r == self.spec_allows_storing_authenticated(),
    {
        proof {
            lemma_names_lower();
        }
        self.res_cc.contains(must_revalidate_bytes().as_slice()) || self.res_cc.contains(
            public_bytes().as_slice(),
        ) || self.res_cc.contains(s_maxage_bytes().as_slice())
    }

    /// The server's date: the `Date` header, or the reception time.
    pub(crate) fn server_date(&self) -> (r: u64)
        ensures
            r == self.spec_server_date(),
    {
        proof {
            lemma_names_lower();
        }
        match self.res.get(date_bytes().as_slice()) {
            Some(v) => match parse_http_date_bytes(v.as_slice()) {
                Some(t) => t,
                None => self.response_time,
            },
            None => self.response_time,
        }
    }

    /// Tells how long the response has been sitting in cache(s): the value of
    /// the `Age` header, updated for the current time.
    pub fn age(&self, now: u64) -> (r: u64)
        ensures
            r == self.spec_age(now),
    {
        proof {
            lemma_names_lower();
        }
        let hdr: u64 = match self.res.get(age_bytes().as_slice()) {
            Some(v) => match parse_u64(v.as_slice()) {
                Some(n) => n,
                None => 0,
            },
            None => 0,
        };
        let resident: u64 = if now >= self.response_time {
            now - self.response_time
        } else {
            0
        };
        if hdr > u64::MAX - resident {
            u64::MAX
        } else {
            hdr + resident
        }
    }

    /// Value of the applicable `max-age` (or heuristic equivalent) in
    /// seconds, counted since the response's date. For an up-to-date value
    /// see `time_to_live`.
    pub fn max_age(&self) -> (r: u64)
        ensures
            r == self.spec_max_age(),
    {
        proof {
            lemma_names_lower();
        }
        let shared = matches!(self.opts.privacy, Privacy::Shared);
        if !self.is_storable() || self.res_cc.contains(no_cache_bytes().as_slice()) {
            return 0;
        }
        if shared && self.res.contains(set_cookie_bytes().as_slice()) && !self.res_cc.contains(
            public_bytes().as_slice(),
        ) && !self.res_cc.contains(immutable_bytes().as_slice()) {
            return 0;
        }
        let star_vary = match self.res.get(vary_bytes().as_slice()) {
            Some(v) => {
                let t = trim_bytes(v.as_slice());
                bytes_eq(t.as_slice(), star_bytes().as_slice())
            },
            None => false,
        };
        if star_vary {
            return 0;
        }
        if shared {
            if self.res_cc.contains(proxy_revalidate_bytes().as_slice()) {
                return 0;
            }
            match self.res_cc.arg(s_maxage_bytes().as_slice()) {
                Some(v) => {
                    return match parse_u64(v.as_slice()) {
                        Some(n) => n,
                        None => 0,
                    };
                },
                None => {},
            }
        }
        match self.res_cc.arg(max_age_bytes().as_slice()) {
            Some(v) => {
                return match parse_u64(v.as_slice()) {
                    Some(n) => n,
                    None => 0,
                };
            },
            None => {},
        }
        let min_ttl: u64 = if self.res_cc.contains(immutable_bytes().as_slice()) {
            self.opts.immutable_min_time_to_live
        } else {
            0
        };
        let sd = self.server_date();
        match self.res.get(expires_bytes().as_slice()) {
            Some(e) => {
                return match parse_http_date_bytes(e.as_slice()) {
                    None => 0,
                    Some(exp) => {
                        let fresh: u64 = if exp >= sd {
                            exp - sd
                        } else {
                            0
                        };
                        if min_ttl >= fresh {
                            min_ttl
                        } else {
                            fresh
                        }
                    },
                };
            },
            None => {},
        }
        match self.res.get(last_modified_bytes().as_slice()) {
            Some(lm) => match parse_http_date_bytes(lm.as_slice()) {
                Some(l) => {
                    if l <= sd {
                        let diff = sd - l;
                        proof {
                            assert((diff as u128) * (self.opts.cache_heuristic as u128)
                                <= u128::MAX) by (nonlinear_arith)
                                requires
                                    diff <= u64::MAX,
                                    self.opts.cache_heuristic <= u64::MAX,
                            ;
                        }
                        let wide: u128 = (diff as u128) * (self.opts.cache_heuristic as u128)
                            / 1000;
                        let fresh: u64 = if wide > u64::MAX as u128 {
                            u64::MAX
                        } else {
                            wide as u64
                        };
                        proof {
                            assert(fresh == self.spec_heuristic_freshness());
                        }
                        if min_ttl >= fresh {
                            min_ttl
                        } else {
                            fresh
                        }
                    } else {
                        min_ttl
                    }
                },
                None => min_ttl,
            },
            None => min_ttl,
        }
    }

    /// Returns the approximate seconds until the response becomes stale:
    /// exactly `max(0, max_age() - age(now))`, saturating at zero.
    pub fn time_to_live(&self, now: u64) -> (r: u64)
        ensures
            r == self.spec_time_to_live(now),
            r == if self.spec_max_age() >= self.spec_age(now) {
                (self.spec_max_age() - self.spec_age(now)) as u64
            } else {
                0u64
            },
    {
        let ma = self.max_age();
        let ag = self.age(now);
        if ma >= ag {
            ma - ag
        } else {
            0
        }
    }

    /// Stale responses shouldn't be used without contacting the server
    /// (revalidation). Stale holds exactly when `age(now) >= max_age()`.
    pub fn is_stale(&self, now: u64) -> (r: bool)
        ensures
            r == self.spec_is_stale(now),
            r == (self.spec_age(now) >= self.spec_max_age()),
    {
        self.max_age() <= self.age(now)
    }
}

/// What construction promises: every field of the policy is the stated
/// function of the request, the response, the instant and the options.
pub open spec fn policy_of(
    r: &CachePolicy,
    req: &Request,
    res: &Response,
    response_time: u64,
    opts: CacheOptions,
) -> bool {
    &&& r.uri@ == req.uri@
    &&& r.method@ == req.method@
    &&& r.status == res.status
    &&& r.opts == opts
    &&& r.response_time == response_time
    &&& r.req@ == req.headers@
    &&& r.req_cc@ == spec_parse_cc(h_values(req.headers@, nm_cache_control()))
    &&& r.res@ == normalized_res_headers(res.headers@, opts)
    &&& r.res_cc@ == normalized_res_cc(res.headers@, opts)
}

/// A policy that may not be stored grants no freshness at all.
pub proof fn lemma_unstorable_has_no_freshness(p: &CachePolicy)
    requires
        !p.spec_storable(),
    ensures
        p.spec_max_age() == 0,
{
}

/// Age never shrinks as the clock advances.
pub proof fn lemma_age_monotone(p: &CachePolicy, t1: u64, t2: u64)
    requires
        t1 <= t2,
    ensures
        p.spec_age(t1) <= p.spec_age(t2),
{
}

} // verus!

