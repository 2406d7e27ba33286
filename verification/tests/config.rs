use http_cache_semantics::{CacheOptions, Config, LastModifiedHeuristic, Mode, Privacy};

#[test]
fn mode_queries() {
    assert!(Mode::default().is_shared());
    assert!(!Mode::default().is_private());
    assert!(Mode::Private.is_private());
    assert!(!Mode::Private.is_shared());
}

#[test]
fn privacy_queries() {
    assert!(Privacy::default().is_shared());
    assert!(!Privacy::default().is_private());
    assert!(Privacy::Private.is_private());
    assert!(!Privacy::Private.is_shared());
}

#[test]
fn heuristic_bounds() {
    assert_eq!(
        LastModifiedHeuristic::new(250),
        Some(LastModifiedHeuristic { per_mille: 250 })
    );
    assert_eq!(LastModifiedHeuristic::new(1001), None);
    assert_eq!(LastModifiedHeuristic::default().per_mille, 100);
}

#[test]
fn config_builders() {
    let config = Config::default()
        .mode(Mode::Private)
        .last_modified_heuristic(LastModifiedHeuristic::new(200).unwrap())
        .ignore_cargo_cult(true);
    assert_eq!(config.mode, Mode::Private);
    assert_eq!(config.last_modified.per_mille, 200);
    assert!(config.ignore_cargo_cult);
    assert_eq!(Config::default().mode, Mode::Shared);
    assert!(!Config::default().ignore_cargo_cult);
}

#[test]
fn options_builders() {
    let options = CacheOptions::default()
        .privacy(Privacy::Private)
        .cache_heuristic(200)
        .immutable_min_time_to_live(3600)
        .ignore_cargo_cult(true);
    assert_eq!(options.privacy, Privacy::Private);
    assert_eq!(options.cache_heuristic, 200);
    assert_eq!(options.immutable_min_time_to_live, 3600);
    assert!(options.ignore_cargo_cult);
    assert_eq!(CacheOptions::default().immutable_min_time_to_live, 86400);
}
