use http_cache_semantics::{BeforeRequest, CachePolicy, HeaderMap, Request, Response};

const NOW: u64 = 1_700_000_000;

fn headers(pairs: &[(&str, &str)]) -> HeaderMap {
    let mut h = HeaderMap::new();
    for (k, v) in pairs {
        h.append(k.as_bytes(), v.as_bytes());
    }
    h
}

fn request(method: &str, uri: &str, pairs: &[(&str, &str)]) -> Request {
    Request::new(method.as_bytes(), uri.as_bytes(), headers(pairs))
}

fn response(status: u16, pairs: &[(&str, &str)]) -> Response {
    Response::new(status, headers(pairs))
}

#[test]
fn proxy_cacheable_auth_is_ok() {
    let policy = CachePolicy::new(
        &request("GET", "/", &[("authorization", "test")]),
        &response(200, &[("cache-control", "max-age=0,s-maxage=12")]),
        NOW,
    );
    assert!(!policy.is_stale(NOW));
    assert!(policy.is_storable());
}

#[test]
fn not_when_urls_mismatch() {
    let policy = CachePolicy::new(
        &request("GET", "/foo", &[]),
        &response(200, &[("cache-control", "max-age=2")]),
        NOW,
    );
    let other = policy.before_request(&request("GET", "/foo?bar", &[]), NOW);
    assert!(matches!(other, BeforeRequest::Stale { matches: false, .. }));
}

#[test]
fn not_when_methods_mismatch() {
    let policy = CachePolicy::new(
        &request("POST", "/", &[]),
        &response(200, &[("cache-control", "max-age=2")]),
        NOW,
    );
    let other = policy.before_request(&request("GET", "/", &[]), NOW);
    assert!(matches!(other, BeforeRequest::Stale { matches: false, .. }));
}

#[test]
fn not_when_methods_mismatch_head() {
    let policy = CachePolicy::new(
        &request("HEAD", "/", &[]),
        &response(200, &[("cache-control", "max-age=2")]),
        NOW,
    );
    let other = policy.before_request(&request("GET", "/", &[]), NOW);
    assert!(matches!(other, BeforeRequest::Stale { matches: false, .. }));
}
