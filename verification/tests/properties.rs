//! Exercises the library's stated guarantees on concrete values: the
//! freshness arithmetic, the storability rules, the header projections, the
//! 304 merge and the directive round trip.

use http_cache_semantics::{
    format_cache_control, parse_cache_control, AfterResponse, BeforeRequest, CachePolicy,
    HeaderMap, Request, Response,
};

const NOW: u64 = 1_700_000_000;

fn headers(pairs: &[(&str, &str)]) -> HeaderMap {
    let mut h = HeaderMap::new();
    for (k, v) in pairs {
        h.append(k.as_bytes(), v.as_bytes());
    }
    h
}

fn request(method: &str, uri: &str, pairs: &[(&str, &str)]) -> Request {
    Request::new(method.as_bytes(), uri.as_bytes(), headers(pairs))
}

fn get(pairs: &[(&str, &str)]) -> Request {
    request("GET", "/", pairs)
}

fn response(status: u16, pairs: &[(&str, &str)]) -> Response {
    Response::new(status, headers(pairs))
}

fn header_str(map: &HeaderMap, name: &str) -> Option<String> {
    map.get(name.as_bytes()).map(|v| String::from_utf8(v).unwrap())
}

fn date_header(secs: u64) -> String {
    httpdate::fmt_http_date(std::time::UNIX_EPOCH + std::time::Duration::from_secs(secs))
}

#[test]
fn ttl_is_lifetime_minus_age() {
    let policy = CachePolicy::new(
        &get(&[]),
        &response(200, &[("cache-control", "max-age=100"), ("age", "30")]),
        NOW,
    );
    assert_eq!(policy.age(NOW), 30);
    assert_eq!(policy.time_to_live(NOW), 70);
    assert_eq!(policy.age(NOW + 80), 110);
    assert_eq!(policy.time_to_live(NOW + 80), 0);
}

#[test]
fn stale_exactly_at_lifetime() {
    let policy = CachePolicy::new(
        &get(&[]),
        &response(200, &[("cache-control", "max-age=100")]),
        NOW,
    );
    assert!(!policy.is_stale(NOW + 99));
    assert!(policy.is_stale(NOW + 100));
}

#[test]
fn unstorable_grants_no_freshness() {
    let policy = CachePolicy::new(
        &get(&[]),
        &response(200, &[("cache-control", "no-store, max-age=100")]),
        NOW,
    );
    assert!(!policy.is_storable());
    assert_eq!(policy.time_to_live(NOW), 0);
    assert_eq!(policy.time_to_live(NOW + 1000), 0);
    assert!(policy.is_stale(NOW));
}

#[test]
fn age_grows_with_clock() {
    let policy = CachePolicy::new(
        &get(&[]),
        &response(200, &[("cache-control", "max-age=100"), ("age", "5")]),
        NOW,
    );
    assert_eq!(policy.age(NOW), 5);
    assert_eq!(policy.age(NOW + 10), 15);
    assert!(policy.age(NOW + 10) <= policy.age(NOW + 20));
    assert_eq!(policy.age(NOW - 10), 5, "a clock gone backwards adds nothing");
}

#[test]
fn heuristic_freshness_is_a_tenth() {
    let hundred_days: u64 = 100 * 86400;
    let policy = CachePolicy::new(
        &get(&[]),
        &response(
            200,
            &[
                ("date", &date_header(NOW)),
                ("last-modified", &date_header(NOW - hundred_days)),
            ],
        ),
        NOW,
    );
    assert_eq!(policy.time_to_live(NOW), 10 * 86400);
}

#[test]
fn merge_304_updates_and_keeps_headers() {
    let policy = CachePolicy::new(
        &get(&[]),
        &response(
            200,
            &[
                ("cache-control", "max-age=0"),
                ("etag", "\"v1\""),
                ("x-foo", "old"),
                ("x-keep", "only-old"),
                ("content-length", "10"),
            ],
        ),
        NOW,
    );
    let outcome = policy.after_response(
        &get(&[]),
        &response(
            304,
            &[("etag", "\"v1\""), ("x-foo", "new"), ("content-length", "0")],
        ),
        NOW + 10,
    );
    match outcome {
        AfterResponse::NotModified(_, parts) => {
            assert_eq!(header_str(&parts.headers, "x-foo").as_deref(), Some("new"));
            assert_eq!(header_str(&parts.headers, "x-keep").as_deref(), Some("only-old"));
            assert_eq!(
                header_str(&parts.headers, "content-length").as_deref(),
                Some("10"),
                "the stored body's description survives the merge"
            );
            assert_eq!(header_str(&parts.headers, "etag").as_deref(), Some("\"v1\""));
        },
        AfterResponse::Modified(..) => panic!("expected the 304 to apply"),
    }
}

#[test]
fn mismatched_validator_means_modified() {
    let policy = CachePolicy::new(
        &get(&[]),
        &response(200, &[("cache-control", "max-age=0"), ("etag", "\"v1\"")]),
        NOW,
    );
    let outcome = policy.after_response(
        &get(&[]),
        &response(304, &[("etag", "\"v2\"")]),
        NOW + 10,
    );
    assert!(outcome.is_modified());
}

#[test]
fn weak_etag_matches_stripped() {
    let policy = CachePolicy::new(
        &get(&[]),
        &response(200, &[("cache-control", "max-age=0"), ("etag", "W/\"v1\"")]),
        NOW,
    );
    let outcome = policy.after_response(
        &get(&[]),
        &response(304, &[("etag", "W/\"v1\"")]),
        NOW + 10,
    );
    assert!(!outcome.is_modified());
}

#[test]
fn directive_round_trip() {
    let mut values: Vec<Vec<u8>> = Vec::new();
    values.push(b"public, max-age=100, foo=\"a b\", custom".to_vec());
    let parsed = parse_cache_control(&values);
    let formatted = format_cache_control(&parsed);
    let mut again_values: Vec<Vec<u8>> = Vec::new();
    again_values.push(formatted);
    let again = parse_cache_control(&again_values);
    assert_eq!(parsed.entries.len(), again.entries.len());
    assert!(again.contains(b"public"));
    assert!(again.contains(b"custom"));
    assert_eq!(again.arg(b"max-age"), Some(b"100".to_vec()));
    assert_eq!(again.arg(b"foo"), Some(b"a b".to_vec()));
}

#[test]
fn conflicting_directives_force_must_revalidate() {
    let policy = CachePolicy::new(
        &get(&[]),
        &response(200, &[("cache-control", "max-age=100, max-age=200")]),
        NOW,
    );
    assert_eq!(policy.time_to_live(NOW), 100, "the first value is kept");
    let later = policy.before_request(&get(&[("cache-control", "max-stale")]), NOW + 150);
    assert!(!later.is_fresh(), "the forced must-revalidate suppresses max-stale");
}

#[test]
fn max_stale_covers_the_excess_inclusively() {
    let policy = CachePolicy::new(
        &get(&[]),
        &response(200, &[("cache-control", "max-age=100")]),
        NOW,
    );
    assert!(policy.is_stale(NOW + 150));
    let covered = policy.before_request(&get(&[("cache-control", "max-stale=50")]), NOW + 150);
    assert!(covered.is_fresh(), "fifty seconds stale is within max-stale=50");
    let uncovered = policy.before_request(&get(&[("cache-control", "max-stale=49")]), NOW + 150);
    assert!(!uncovered.is_fresh());
}

#[test]
fn projection_rewrites_age_and_date() {
    let policy = CachePolicy::new(
        &get(&[]),
        &response(
            200,
            &[("cache-control", "max-age=100"), ("connection", "close"), ("date", &date_header(NOW))],
        ),
        NOW,
    );
    let parts = policy.cached_response(NOW + 5);
    assert_eq!(parts.status, 200);
    assert_eq!(header_str(&parts.headers, "age").as_deref(), Some("5"));
    assert_eq!(header_str(&parts.headers, "date").as_deref(), Some(date_header(NOW + 5).as_str()));
    assert!(header_str(&parts.headers, "connection").is_none());
}

#[test]
fn heuristic_warning_appended_after_a_day() {
    let policy = CachePolicy::new(
        &get(&[]),
        &response(
            200,
            &[
                ("date", &date_header(NOW)),
                ("last-modified", &date_header(NOW - 100 * 86400)),
            ],
        ),
        NOW,
    );
    let parts = policy.cached_response(NOW + 2 * 86400);
    let warning = header_str(&parts.headers, "warning").unwrap();
    assert!(warning.contains("113"), "{}", warning);
    let early = policy.cached_response(NOW + 3600);
    assert!(header_str(&early.headers, "warning").is_none());
}

#[test]
fn revalidation_request_carries_validators() {
    let lm = date_header(NOW - 5000);
    let policy = CachePolicy::new(
        &get(&[]),
        &response(
            200,
            &[("cache-control", "max-age=0"), ("etag", "\"v1\""), ("last-modified", &lm)],
        ),
        NOW,
    );
    let outcome = policy.before_request(&get(&[("connection", "close")]), NOW + 10);
    match outcome {
        BeforeRequest::Stale { request, matches } => {
            assert!(matches);
            assert_eq!(header_str(&request.headers, "if-none-match").as_deref(), Some("\"v1\""));
            assert_eq!(header_str(&request.headers, "if-modified-since").as_deref(), Some(lm.as_str()));
            assert!(header_str(&request.headers, "connection").is_none());
        },
        BeforeRequest::Fresh(_) => panic!("a max-age=0 response cannot be fresh"),
    }
}

#[test]
fn weak_validators_forbidden_outside_get() {
    let lm = date_header(NOW - 5000);
    let policy = CachePolicy::new(
        &request("POST", "/", &[]),
        &response(
            200,
            &[("cache-control", "max-age=0, public"), ("etag", "W/\"v1\""), ("last-modified", &lm)],
        ),
        NOW,
    );
    let outcome = policy.before_request(&request("POST", "/", &[]), NOW + 10);
    match outcome {
        BeforeRequest::Stale { request, matches } => {
            assert!(matches);
            assert!(header_str(&request.headers, "if-none-match").is_none());
            assert!(header_str(&request.headers, "if-modified-since").is_none());
        },
        BeforeRequest::Fresh(_) => panic!("a max-age=0 response cannot be fresh"),
    }
}

#[test]
fn unstorable_revalidation_sheds_validators() {
    let policy = CachePolicy::new(
        &get(&[]),
        &response(200, &[("cache-control", "no-store"), ("etag", "\"v1\"")]),
        NOW,
    );
    let outcome = policy.before_request(&get(&[("if-none-match", "\"w\"")]), NOW);
    match outcome {
        BeforeRequest::Stale { request, .. } => {
            assert!(header_str(&request.headers, "if-none-match").is_none());
            assert!(header_str(&request.headers, "if-modified-since").is_none());
        },
        BeforeRequest::Fresh(_) => panic!("no-store cannot be fresh without max-stale"),
    }
}

#[test]
fn vary_selects_the_variant() {
    let policy = CachePolicy::new(
        &get(&[("weather", "nice")]),
        &response(200, &[("cache-control", "max-age=5"), ("vary", "weather")]),
        NOW,
    );
    assert!(policy.before_request(&get(&[("weather", "nice")]), NOW).is_fresh());
    assert!(!policy.before_request(&get(&[("weather", "bad")]), NOW).is_fresh());
    assert!(!policy.before_request(&get(&[]), NOW).is_fresh());
}

#[test]
fn vary_star_never_matches() {
    let policy = CachePolicy::new(
        &get(&[]),
        &response(200, &[("cache-control", "max-age=5"), ("vary", "*")]),
        NOW,
    );
    assert!(policy.is_stale(NOW));
    assert!(!policy.before_request(&get(&[]), NOW).is_fresh());
}

#[test]
fn numbers_parse_as_rust_does() {
    let plus = CachePolicy::new(
        &get(&[]),
        &response(200, &[("cache-control", "max-age=+30")]),
        NOW,
    );
    assert_eq!(plus.time_to_live(NOW), 30);
    let huge = CachePolicy::new(
        &get(&[]),
        &response(200, &[("cache-control", "max-age=99999999999999999999999")]),
        NOW,
    );
    assert_eq!(huge.time_to_live(NOW), 0);
    assert!(huge.is_stale(NOW));
}

#[test]
fn head_may_revalidate_a_get_entry() {
    let policy = CachePolicy::new(
        &get(&[]),
        &response(200, &[("cache-control", "max-age=0"), ("etag", "\"v1\"")]),
        NOW,
    );
    let outcome = policy.before_request(&request("HEAD", "/", &[]), NOW);
    match outcome {
        BeforeRequest::Stale { request, matches } => {
            assert!(!matches, "HEAD is not an exact method match");
            assert_eq!(header_str(&request.headers, "if-none-match").as_deref(), Some("\"v1\""));
        },
        BeforeRequest::Fresh(_) => panic!("a HEAD cannot be served the cached GET body"),
    }
}
