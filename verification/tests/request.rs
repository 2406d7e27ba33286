use http_cache_semantics::{CacheOptions, CachePolicy, HeaderMap, Privacy, Request, Response};

const NOW: u64 = 1_700_000_000;

fn headers(pairs: &[(&str, &str)]) -> HeaderMap {
    let mut h = HeaderMap::new();
    for (k, v) in pairs {
        h.append(k.as_bytes(), v.as_bytes());
    }
    h
}

fn request(method: &str, uri: &str, pairs: &[(&str, &str)]) -> Request {
    Request::new(method.as_bytes(), uri.as_bytes(), headers(pairs))
}

fn response(status: u16, pairs: &[(&str, &str)]) -> Response {
    Response::new(status, headers(pairs))
}

#[test]
fn no_store_kills_cache() {
    let policy = CachePolicy::new(
        &request("GET", "/", &[("cache-control", "no-store")]),
        &response(200, &[("cache-control", "public, max-age=222")]),
        NOW,
    );
    assert!(policy.is_stale(NOW));
    assert!(!policy.is_storable());
}

#[test]
fn post_not_cacheable_by_default() {
    let policy = CachePolicy::new(
        &request("POST", "/", &[]),
        &response(200, &[("cache-control", "public")]),
        NOW,
    );
    assert!(policy.is_stale(NOW));
    assert!(!policy.is_storable());
}

#[test]
fn post_cacheable_explicitly() {
    let policy = CachePolicy::new(
        &request("POST", "/", &[]),
        &response(200, &[("cache-control", "public, max-age=222")]),
        NOW,
    );
    assert!(!policy.is_stale(NOW));
    assert!(policy.is_storable());
}

#[test]
fn public_cacheable_auth_is_ok() {
    let policy = CachePolicy::new(
        &request("GET", "/", &[("authorization", "test")]),
        &response(200, &[("cache-control", "max-age=333, public")]),
        NOW,
    );
    assert!(!policy.is_stale(NOW));
    assert!(policy.is_storable());
}

#[test]
fn private_auth_is_ok() {
    let policy = CachePolicy::new_options(
        &request("GET", "/", &[("authorization", "test")]),
        &response(200, &[("cache-control", "max-age=111")]),
        NOW,
        CacheOptions::default().privacy(Privacy::Private),
    );
    assert!(!policy.is_stale(NOW));
    assert!(policy.is_storable());
}

#[test]
fn revalidate_auth_is_ok() {
    let policy = CachePolicy::new(
        &request("GET", "/", &[("authorization", "test")]),
        &response(200, &[("cache-control", "max-age=80, must-revalidate")]),
        NOW,
    );
    assert!(policy.is_storable());
}

#[test]
fn auth_prevents_caching_by_default() {
    let policy = CachePolicy::new(
        &request("GET", "/", &[("authorization", "test")]),
        &response(200, &[("cache-control", "max-age=111")]),
        NOW,
    );
    assert!(policy.is_stale(NOW));
    assert!(!policy.is_storable());
}

#[test]
fn no_cache_bypasses_cache() {
    let policy = CachePolicy::new(
        &request("GET", "/", &[("cache-control", "no-transform")]),
        &response(200, &[("cache-control", "immutable, max-age=3600")]),
        NOW,
    );
    assert!(policy.is_storable());
    assert!(!policy.is_stale(NOW));
    let fresh = policy.before_request(&request("GET", "/", &[("cache-control", "no-transform")]), NOW);
    assert!(fresh.is_fresh());
    let bypass = policy.before_request(&request("GET", "/", &[("cache-control", "no-cache")]), NOW);
    assert!(!bypass.is_fresh());
}
