use http_cache_semantics::{BeforeRequest, CacheOptions, CachePolicy, HeaderMap, Privacy, Request, Response};

const NOW: u64 = 1_700_000_000;

fn headers(pairs: &[(&str, &str)]) -> HeaderMap {
    let mut h = HeaderMap::new();
    for (k, v) in pairs {
        h.append(k.as_bytes(), v.as_bytes());
    }
    h
}

fn request(method: &str, uri: &str, pairs: &[(&str, &str)]) -> Request {
    Request::new(method.as_bytes(), uri.as_bytes(), headers(pairs))
}

fn get(pairs: &[(&str, &str)]) -> Request {
    request("GET", "/", pairs)
}

fn response(status: u16, pairs: &[(&str, &str)]) -> Response {
    Response::new(status, headers(pairs))
}

fn date_header(secs: u64) -> String {
    httpdate::fmt_http_date(std::time::UNIX_EPOCH + std::time::Duration::from_secs(secs))
}

#[test]
fn when_expires_is_present() {
    let policy = CachePolicy::new(
        &get(&[]),
        &response(302, &[("expires", &date_header(NOW + 2000))]),
        NOW,
    );
    assert!(policy.before_request(&get(&[]), NOW).is_fresh());
}

#[test]
fn must_revalidate_allows_not_revalidating_fresh() {
    let policy = CachePolicy::new(
        &get(&[]),
        &response(200, &[("cache-control", "max-age=200, must-revalidate")]),
        NOW,
    );
    assert!(policy.before_request(&get(&[]), NOW).is_fresh());
}

#[test]
fn must_revalidate_disallows_stale() {
    let policy = CachePolicy::new(
        &get(&[]),
        &response(200, &[("cache-control", "max-age=200, must-revalidate")]),
        NOW,
    );
    let later = policy.before_request(&get(&[("cache-control", "max-stale")]), NOW + 300);
    assert!(!later.is_fresh());
    assert!(matches!(later, BeforeRequest::Stale { matches: true, .. }));
}

#[test]
fn not_when_hosts_mismatch() {
    let policy = CachePolicy::new(
        &get(&[("host", "foo")]),
        &response(200, &[("cache-control", "max-age=2")]),
        NOW,
    );
    assert!(policy.before_request(&get(&[("host", "foo")]), NOW).is_fresh());
    let other = policy.before_request(&get(&[("host", "foofoo")]), NOW);
    assert!(matches!(other, BeforeRequest::Stale { matches: false, .. }));
}

#[test]
fn when_methods_match_head() {
    let policy = CachePolicy::new(
        &request("HEAD", "/", &[]),
        &response(200, &[("cache-control", "max-age=2")]),
        NOW,
    );
    assert!(policy.before_request(&request("HEAD", "/", &[]), NOW).is_fresh());
}

#[test]
fn not_when_proxy_revalidating() {
    let policy = CachePolicy::new(
        &get(&[]),
        &response(200, &[("cache-control", "max-age=2, proxy-revalidate")]),
        NOW,
    );
    assert!(!policy.before_request(&get(&[]), NOW).is_fresh());
}

#[test]
fn when_not_a_proxy_revalidating() {
    let policy = CachePolicy::new_options(
        &get(&[]),
        &response(200, &[("cache-control", "max-age=2, proxy-revalidate")]),
        NOW,
        CacheOptions::default().privacy(Privacy::Private),
    );
    assert!(policy.before_request(&get(&[]), NOW).is_fresh());
}

#[test]
fn not_when_no_cache_requesting() {
    let policy = CachePolicy::new(
        &get(&[]),
        &response(200, &[("cache-control", "max-age=2")]),
        NOW,
    );
    assert!(policy.before_request(&get(&[("cache-control", "fine")]), NOW).is_fresh());
    assert!(!policy.before_request(&get(&[("cache-control", "no-cache")]), NOW).is_fresh());
    assert!(!policy.before_request(&get(&[("pragma", "no-cache")]), NOW).is_fresh());
}
