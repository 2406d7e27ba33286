use http_cache_semantics::{
    BeforeRequest, CacheOptions, CachePolicy, HeaderMap, Privacy, Request, Response,
};

const NOW: u64 = 1_700_000_000;

fn headers(pairs: &[(&str, &str)]) -> HeaderMap {
    let mut h = HeaderMap::new();
    for (k, v) in pairs {
        h.append(k.as_bytes(), v.as_bytes());
    }
    h
}

fn request(method: &str, uri: &str, pairs: &[(&str, &str)]) -> Request {
    Request::new(method.as_bytes(), uri.as_bytes(), headers(pairs))
}

fn get(pairs: &[(&str, &str)]) -> Request {
    request("GET", "/", pairs)
}

fn response(status: u16, pairs: &[(&str, &str)]) -> Response {
    Response::new(status, headers(pairs))
}

fn header_str(map: &HeaderMap, name: &str) -> Option<String> {
    map.get(name.as_bytes()).map(|v| String::from_utf8(v).unwrap())
}

fn date_header(secs: u64) -> String {
    httpdate::fmt_http_date(std::time::UNIX_EPOCH + std::time::Duration::from_secs(secs))
}

#[test]
fn simple_miss() {
    let policy = CachePolicy::new(&get(&[]), &response(200, &[]), NOW);
    assert!(policy.is_stale(NOW));
}

#[test]
fn simple_hit() {
    let policy = CachePolicy::new(
        &get(&[]),
        &response(200, &[("cache-control", "public, max-age=999999")]),
        NOW,
    );
    assert!(!policy.is_stale(NOW));
    assert!(policy.is_storable());
    assert_eq!(policy.time_to_live(NOW), 999999);
    assert!(policy.before_request(&get(&[]), NOW).is_fresh());
}

#[test]
fn quoted_syntax() {
    let policy = CachePolicy::new(
        &get(&[]),
        &response(200, &[("cache-control", "  max-age = \"678\"      ")]),
        NOW,
    );
    assert!(!policy.is_stale(NOW));
    assert_eq!(policy.time_to_live(NOW), 678);
}

#[test]
fn iis() {
    let policy = CachePolicy::new_options(
        &get(&[]),
        &response(200, &[("cache-control", "private, public, max-age=259200")]),
        NOW,
        CacheOptions::default().privacy(Privacy::Private),
    );
    assert!(!policy.is_stale(NOW));
    assert_eq!(policy.time_to_live(NOW), 259200);
}

#[test]
fn pre_check_tolerated() {
    let cc = "pre-check=0, post-check=0, no-store, no-cache, max-age=100";
    let policy = CachePolicy::new(&get(&[]), &response(200, &[("cache-control", cc)]), NOW);
    assert!(policy.is_stale(NOW));
    assert!(!policy.is_storable());
    assert_eq!(policy.time_to_live(NOW), 0);
    match policy.before_request(&get(&[("cache-control", "max-stale")]), NOW) {
        BeforeRequest::Fresh(parts) => {
            assert_eq!(header_str(&parts.headers, "cache-control").as_deref(), Some(cc));
        },
        BeforeRequest::Stale { .. } => {
            panic!("a valueless max-stale accepts even this response")
        },
    }
}

#[test]
fn pre_check_poison() {
    let original_cc = "pre-check=0, post-check=0, no-cache, no-store, max-age=100, custom, foo=bar";
    let policy = CachePolicy::new_options(
        &get(&[]),
        &response(200, &[("cache-control", original_cc), ("pragma", "no-cache")]),
        NOW,
        CacheOptions::default().ignore_cargo_cult(true),
    );
    assert!(!policy.is_stale(NOW));
    assert!(policy.is_storable());
    assert_eq!(policy.time_to_live(NOW), 100);
    let parts = policy.cached_response(NOW);
    let cc = header_str(&parts.headers, "cache-control").unwrap();
    assert!(!cc.contains("pre-check"));
    assert!(!cc.contains("post-check"));
    assert!(!cc.contains("no-store"));
    assert!(!cc.contains("no-cache"));
    assert!(cc.contains("max-age=100"));
    assert!(cc.contains("custom"));
    assert!(cc.contains("foo=bar"));
    assert!(header_str(&parts.headers, "pragma").is_none());
}

#[test]
fn age_can_make_stale() {
    let policy = CachePolicy::new(
        &get(&[]),
        &response(200, &[("cache-control", "max-age=100"), ("age", "101")]),
        NOW,
    );
    assert!(policy.is_stale(NOW));
    assert!(policy.is_storable());
}

#[test]
fn age_not_always_stale() {
    let policy = CachePolicy::new(
        &get(&[]),
        &response(200, &[("cache-control", "max-age=20"), ("age", "15")]),
        NOW,
    );
    assert!(!policy.is_stale(NOW));
    assert!(policy.is_storable());
}

#[test]
fn bogus_age_ignored() {
    let policy = CachePolicy::new(
        &get(&[]),
        &response(200, &[("cache-control", "max-age=20"), ("age", "golden")]),
        NOW,
    );
    assert!(!policy.is_stale(NOW));
    assert!(policy.is_storable());
}

#[test]
fn cache_old_files() {
    let policy = CachePolicy::new(
        &get(&[]),
        &response(
            200,
            &[
                ("date", &date_header(NOW)),
                ("last-modified", "Mon, 07 Mar 2016 11:52:56 GMT"),
            ],
        ),
        NOW,
    );
    assert!(!policy.is_stale(NOW));
    assert!(policy.time_to_live(NOW) > 100);
}

#[test]
fn immutable_simple_hit() {
    let policy = CachePolicy::new(
        &get(&[]),
        &response(200, &[("cache-control", "immutable, max-age=999999")]),
        NOW,
    );
    assert!(!policy.is_stale(NOW));
    assert_eq!(policy.time_to_live(NOW), 999999);
}

#[test]
fn immutable_can_expire() {
    let policy = CachePolicy::new(
        &get(&[]),
        &response(200, &[("cache-control", "immutable, max-age=0")]),
        NOW,
    );
    assert!(policy.is_stale(NOW));
    assert_eq!(policy.time_to_live(NOW), 0);
}

#[test]
fn pragma_no_cache() {
    let policy = CachePolicy::new(
        &get(&[]),
        &response(
            200,
            &[("pragma", "no-cache"), ("last-modified", "Mon, 07 Mar 2016 11:52:56 GMT")],
        ),
        NOW,
    );
    assert!(policy.is_stale(NOW));
    assert!(policy.is_storable());
}

#[test]
fn blank_cache_control_and_pragma_no_cache() {
    let policy = CachePolicy::new(
        &get(&[]),
        &response(
            200,
            &[
                ("cache-control", ""),
                ("pragma", "no-cache"),
                ("last-modified", "Mon, 07 Mar 2016 11:52:56 GMT"),
            ],
        ),
        NOW,
    );
    assert!(!policy.is_stale(NOW));
}

#[test]
fn no_store() {
    let policy = CachePolicy::new(
        &get(&[]),
        &response(200, &[("cache-control", "no-store, public, max-age=1")]),
        NOW,
    );
    assert!(policy.is_stale(NOW));
    assert!(!policy.is_storable());
    assert_eq!(policy.time_to_live(NOW), 0);
}

#[test]
fn observe_private_cache() {
    let private_header = &[("cache-control", "private, max-age=1234")];
    let request = get(&[]);
    let shared_policy = CachePolicy::new(&request, &response(200, private_header), NOW);
    let ua_policy = CachePolicy::new_options(
        &request,
        &response(200, private_header),
        NOW,
        CacheOptions::default().privacy(Privacy::Private),
    );
    assert!(shared_policy.is_stale(NOW));
    assert!(!shared_policy.is_storable());
    assert!(!ua_policy.is_stale(NOW));
    assert!(ua_policy.is_storable());
    assert_eq!(ua_policy.time_to_live(NOW), 1234);
}

#[test]
fn do_not_share_cookies() {
    let cookie_header = &[("set-cookie", "foo=bar"), ("cache-control", "max-age=99")];
    let request = get(&[]);
    let shared_policy = CachePolicy::new(&request, &response(200, cookie_header), NOW);
    let ua_policy = CachePolicy::new_options(
        &request,
        &response(200, cookie_header),
        NOW,
        CacheOptions::default().privacy(Privacy::Private),
    );
    assert!(shared_policy.is_stale(NOW));
    assert!(shared_policy.is_storable());
    assert!(!ua_policy.is_stale(NOW));
    assert!(ua_policy.is_storable());
    assert_eq!(ua_policy.time_to_live(NOW), 99);
}

#[test]
fn do_share_cookies_if_immutable() {
    let policy = CachePolicy::new(
        &get(&[]),
        &response(
            200,
            &[("set-cookie", "foo=bar"), ("cache-control", "immutable, max-age=99")],
        ),
        NOW,
    );
    assert!(!policy.is_stale(NOW));
    assert_eq!(policy.time_to_live(NOW), 99);
}

#[test]
fn cache_explicitly_public_cookie() {
    let policy = CachePolicy::new(
        &get(&[]),
        &response(
            200,
            &[("set-cookie", "foo=bar"), ("cache-control", "max-age=5, public")],
        ),
        NOW,
    );
    assert!(!policy.is_stale(NOW));
    assert_eq!(policy.time_to_live(NOW), 5);
}

#[test]
fn miss_max_age_equals_zero() {
    let policy = CachePolicy::new(
        &get(&[]),
        &response(200, &[("cache-control", "public, max-age=0")]),
        NOW,
    );
    assert!(policy.is_stale(NOW));
}

#[test]
fn uncacheable_503_service_unavailable() {
    let policy = CachePolicy::new(
        &get(&[]),
        &response(503, &[("cache-control", "public, max-age=0")]),
        NOW,
    );
    assert!(policy.is_stale(NOW));
    assert!(!policy.is_storable());
}

#[test]
fn cacheable_301_moved_permanently() {
    let policy = CachePolicy::new(
        &get(&[]),
        &response(301, &[("last-modified", "Mon, 07 Mar 2016 11:52:56 GMT")]),
        NOW,
    );
    assert!(!policy.is_stale(NOW));
}

#[test]
fn uncacheable_303_see_other() {
    let policy = CachePolicy::new(
        &get(&[]),
        &response(303, &[("last-modified", "Mon, 07 Mar 2016 11:52:56 GMT")]),
        NOW,
    );
    assert!(policy.is_stale(NOW));
    assert!(!policy.is_storable());
}

#[test]
fn cacheable_303_see_other() {
    let policy = CachePolicy::new(
        &get(&[]),
        &response(303, &[("cache-control", "max-age=1000")]),
        NOW,
    );
    assert!(!policy.is_stale(NOW));
}

#[test]
fn uncacheable_412_precondition_failed() {
    let policy = CachePolicy::new(
        &get(&[]),
        &response(412, &[("cache-control", "public, max-age=1000")]),
        NOW,
    );
    assert!(policy.is_stale(NOW));
    assert!(!policy.is_storable());
}

#[test]
fn expired_expires_cache_with_max_age() {
    let policy = CachePolicy::new(
        &get(&[]),
        &response(
            200,
            &[
                ("cache-control", "public, max-age=9999"),
                ("expires", "Sat, 07 May 2016 15:35:18 GMT"),
            ],
        ),
        NOW,
    );
    assert!(!policy.is_stale(NOW));
    assert_eq!(policy.time_to_live(NOW), 9999);
}

#[test]
fn request_mismatches() {
    let policy = CachePolicy::new(
        &request("GET", "/test", &[]),
        &response(
            200,
            &[
                ("cache-control", "public, max-age=9999"),
                ("expires", "Sat, 07 May 2016 15:35:18 GMT"),
            ],
        ),
        NOW,
    );
    let mismatch = policy.before_request(&request("POST", "/test", &[]), NOW);
    assert!(matches!(mismatch, BeforeRequest::Stale { matches: false, .. }));
}

#[test]
fn request_matches() {
    let policy = CachePolicy::new(
        &request("GET", "/test", &[]),
        &response(200, &[("cache-control", "public, max-age=0")]),
        NOW,
    );
    let matched = policy.before_request(&request("GET", "/test", &[]), NOW);
    assert!(matches!(matched, BeforeRequest::Stale { matches: true, .. }));
}

#[test]
fn expired_expires_cached_with_s_maxage() {
    let s_maxage_headers = &[
        ("cache-control", "public, s-maxage=9999"),
        ("expires", "Sat, 07 May 2016 15:35:18 GMT"),
    ];
    let request = get(&[]);
    let shared_policy = CachePolicy::new(&request, &response(200, s_maxage_headers), NOW);
    let ua_policy = CachePolicy::new_options(
        &request,
        &response(200, s_maxage_headers),
        NOW,
        CacheOptions::default().privacy(Privacy::Private),
    );
    assert!(!shared_policy.is_stale(NOW));
    assert_eq!(shared_policy.time_to_live(NOW), 9999);
    assert!(ua_policy.is_stale(NOW));
    assert_eq!(ua_policy.time_to_live(NOW), 0);
}

#[test]
fn max_age_wins_over_future_expires() {
    let policy = CachePolicy::new(
        &get(&[]),
        &response(
            200,
            &[
                ("cache-control", "public, max-age=333"),
                ("expires", &date_header(NOW + 3600)),
            ],
        ),
        NOW,
    );
    assert!(!policy.is_stale(NOW));
    assert_eq!(policy.time_to_live(NOW), 333);
}
