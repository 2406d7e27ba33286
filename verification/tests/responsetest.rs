use http_cache_semantics::{CacheOptions, CachePolicy, HeaderMap, Request, Response};

const NOW: u64 = 1_700_000_000;

fn headers(pairs: &[(&str, &str)]) -> HeaderMap {
    let mut h = HeaderMap::new();
    for (k, v) in pairs {
        h.append(k.as_bytes(), v.as_bytes());
    }
    h
}

fn request(method: &str, uri: &str, pairs: &[(&str, &str)]) -> Request {
    Request::new(method.as_bytes(), uri.as_bytes(), headers(pairs))
}

fn get(pairs: &[(&str, &str)]) -> Request {
    request("GET", "/", pairs)
}

fn response(status: u16, pairs: &[(&str, &str)]) -> Response {
    Response::new(status, headers(pairs))
}

fn header_str(map: &HeaderMap, name: &str) -> Option<String> {
    map.get(name.as_bytes()).map(|v| String::from_utf8(v).unwrap())
}

fn date_header(secs: u64) -> String {
    httpdate::fmt_http_date(std::time::UNIX_EPOCH + std::time::Duration::from_secs(secs))
}

#[test]
fn weird_syntax() {
    let policy = CachePolicy::new(
        &get(&[]),
        &response(200, &[("cache-control", ",,,,max-age =  456      ,")]),
        NOW,
    );
    assert!(!policy.is_stale(NOW));
    assert_eq!(policy.time_to_live(NOW), 456);
}

#[test]
fn pre_check_poison_undefined_header() {
    let policy = CachePolicy::new_options(
        &request("GET", "http://test.example.com/", &[("cache-control", "max-stale")]),
        &response(
            200,
            &[
                ("cache-control", "pre-check=0, post-check=0, no-cache, no-store"),
                ("expires", "yesterday!"),
            ],
        ),
        NOW,
        CacheOptions::default().ignore_cargo_cult(true),
    );
    assert!(policy.is_storable());
    let parts = policy.cached_response(NOW);
    assert_eq!(header_str(&parts.headers, "cache-control").as_deref(), Some(""));
    assert!(header_str(&parts.headers, "expires").is_none());
}

#[test]
fn cache_with_expires() {
    let policy = CachePolicy::new(
        &get(&[]),
        &response(
            200,
            &[("date", &date_header(NOW)), ("expires", &date_header(NOW + 2001))],
        ),
        NOW,
    );
    assert!(!policy.is_stale(NOW));
    assert_eq!(policy.time_to_live(NOW), 2001);
}

#[test]
fn cache_with_expires_relative_to_date() {
    let policy = CachePolicy::new(
        &get(&[]),
        &response(
            200,
            &[("date", &date_header(NOW - 30)), ("expires", &date_header(NOW))],
        ),
        NOW,
    );
    assert_eq!(policy.time_to_live(NOW), 30);
}

#[test]
fn cache_with_expires_always_relative_to_date() {
    let policy = CachePolicy::new(
        &get(&[]),
        &response(
            200,
            &[("date", &date_header(NOW - 3)), ("expires", &date_header(NOW))],
        ),
        NOW,
    );
    assert_eq!(policy.time_to_live(NOW), 3);
}

#[test]
fn cache_expires_no_date() {
    let policy = CachePolicy::new(
        &get(&[]),
        &response(
            200,
            &[("cache-control", "public"), ("expires", &date_header(NOW + 3600))],
        ),
        NOW,
    );
    assert!(!policy.is_stale(NOW));
    let ttl = policy.time_to_live(NOW);
    assert!(ttl > 3595, "{}", ttl);
    assert!(ttl < 3605, "{}", ttl);
}

#[test]
fn ages() {
    let policy = CachePolicy::new(
        &get(&[]),
        &response(200, &[("cache-control", "max-age=100"), ("age", "50")]),
        NOW,
    );
    assert_eq!(policy.time_to_live(NOW), 50);
    assert!(!policy.is_stale(NOW + 48));
    assert_eq!(policy.time_to_live(NOW + 48), 2);
    assert!(policy.is_stale(NOW + 53));
    assert_eq!(policy.time_to_live(NOW + 53), 0);
}

#[test]
fn remove_hop_headers() {
    let policy = CachePolicy::new(
        &get(&[]),
        &response(
            200,
            &[
                ("te", "deflate"),
                ("date", &date_header(NOW)),
                ("custom", "header"),
                ("oompa", "lumpa"),
                ("connection", "close, oompa, header"),
                ("cache-control", "public, max-age=333"),
            ],
        ),
        NOW,
    );
    let parts = policy.cached_response(NOW + 1);
    assert!(header_str(&parts.headers, "connection").is_none());
    assert!(header_str(&parts.headers, "te").is_none());
    assert!(header_str(&parts.headers, "oompa").is_none());
    assert_eq!(header_str(&parts.headers, "cache-control").as_deref(), Some("public, max-age=333"));
    assert_eq!(header_str(&parts.headers, "custom").as_deref(), Some("header"));
    assert_eq!(header_str(&parts.headers, "age").as_deref(), Some("1"));
    assert_eq!(
        header_str(&parts.headers, "date").as_deref(),
        Some(date_header(NOW + 1).as_str()),
        "updated age requires updated date"
    );
}
