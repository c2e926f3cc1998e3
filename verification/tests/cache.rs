use fung_preng_app::cache::{CacheManager, URL_TTL_NANOS};

#[test]
fn default_cache_directory() {
    let c = CacheManager::default_dir();
    assert_eq!(c.cache_dir(), "./cache");
}

#[test]
fn saved_url_is_found_while_fresh() {
    let mut c = CacheManager::default_dir();
    c.save_url_cache("abc".to_string(), "https://x/1".to_string(), 1_000);
    assert_eq!(c.get_cached_url("abc", 1_000), Some("https://x/1".to_string()));
    assert_eq!(c.get_cached_url("abc", 1_000 + URL_TTL_NANOS - 1), Some("https://x/1".to_string()));
    assert_eq!(c.get_cached_url("abc", 1_000 + URL_TTL_NANOS), None);
    assert_eq!(c.get_cached_url("abd", 1_000), None);
    // A clock reading before the fetch counts as no time passed.
    assert_eq!(c.get_cached_url("abc", 0), Some("https://x/1".to_string()));
}

#[test]
fn saving_replaces_and_keeps_others() {
    let mut c = CacheManager::new("/tmp/c".to_string());
    c.save_url_cache("a".to_string(), "u1".to_string(), 0);
    c.save_url_cache("b".to_string(), "u2".to_string(), 0);
    c.save_url_cache("a".to_string(), "u3".to_string(), 10);
    assert_eq!(c.get_cached_url("a", 10), Some("u3".to_string()));
    assert_eq!(c.get_cached_url("b", 10), Some("u2".to_string()));
}

#[test]
fn cache_file_paths() {
    let c = CacheManager::default_dir();
    assert_eq!(c.audio_path("vid"), "./cache/vid.wav");
    assert_eq!(c.analysis_path("vid"), "./cache/vid.json");
    assert_eq!(c.get_audio_path("vid", true), Some("./cache/vid.wav".to_string()));
    assert_eq!(c.get_audio_path("vid", false), None);
    let d = CacheManager::new("/var/cache/".to_string());
    assert_eq!(d.audio_path("x"), "/var/cache/x.wav");
}

#[test]
fn paths_agree_with_std_join() {
    for (dir, id) in [("./cache", "a"), ("/tmp/", "b"), ("", "c"), ("d", "/abs")] {
        let c = CacheManager::new(dir.to_string());
        let expected = std::path::Path::new(dir).join(format!("{id}.wav"));
        assert_eq!(c.audio_path(id), expected.to_str().unwrap());
    }
}
