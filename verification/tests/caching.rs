use std::path::PathBuf;
use twitterapi_cli::cache::{entry_is_fresh, Cache, CacheResource};

#[test]
fn search_keys_are_truncated_sha256_hex() {
    assert_eq!(Cache::search_cache_key("AI agents", "Latest", 20), "205fadb209754fd3");
    assert_eq!(Cache::search_cache_key("from:elonmusk", "Latest", 10), "f8c512d2adc61506");
    assert_eq!(Cache::search_cache_key("", "Top", 0), "1d788d093d817904");
}

#[test]
fn search_key_depends_on_every_part() {
    let a = Cache::search_cache_key("rust", "Latest", 20);
    assert_ne!(a, Cache::search_cache_key("rust", "Top", 20));
    assert_ne!(a, Cache::search_cache_key("rust", "Latest", 21));
    assert_ne!(a, Cache::search_cache_key("rust ", "Latest", 20));
    assert_eq!(a.len(), 16);
    assert!(a.chars().all(|c| c.is_ascii_hexdigit() && !c.is_ascii_uppercase()));
}

#[test]
fn file_names_per_resource() {
    let user = CacheResource::UserProfile { username: "ElonMusk".to_string() };
    assert_eq!(user.file_name(), "user_elonmusk.json");
    assert_eq!(user.ttl_secs(), 86400);
    let tweet = CacheResource::Tweet { tweet_id: "1234567890".to_string() };
    assert_eq!(tweet.file_name(), "tweet_1234567890.json");
    assert_eq!(tweet.ttl_secs(), 7 * 86400);
    let search = CacheResource::Search { key: "205fadb209754fd3".to_string() };
    assert_eq!(search.file_name(), "search_205fadb209754fd3.json");
    assert_eq!(search.ttl_secs(), 3600);
    let trends = CacheResource::Trends { woeid: 23424977 };
    assert_eq!(trends.file_name(), "trends_23424977.json");
    assert_eq!(trends.ttl_secs(), 300);
    let list = CacheResource::UserList { username: "GitHub".to_string(), list_type: "followers".to_string() };
    assert_eq!(list.file_name(), "followers_github.json");
    assert_eq!(list.ttl_secs(), 3600);
}

#[test]
fn user_file_names_ignore_case() {
    let a = CacheResource::UserProfile { username: "GitHub".to_string() };
    let b = CacheResource::UserProfile { username: "github".to_string() };
    assert_eq!(a.file_name(), b.file_name());
}

#[test]
fn no_cache_disables_reads_only() {
    let enabled = Cache::new(PathBuf::from("/tmp/c"), false);
    let disabled = Cache::new(PathBuf::from("/tmp/c"), true);
    let r = CacheResource::Trends { woeid: 1 };
    assert!(enabled.read_enabled());
    assert!(!disabled.read_enabled());
    assert_eq!(disabled.dir(), &PathBuf::from("/tmp/c"));
    assert!(disabled.read_slot(&r).is_none());
    let slot = enabled.read_slot(&r).unwrap();
    assert_eq!(slot.file_name, "trends_1.json");
    assert_eq!(slot.ttl_secs, 300);
    let w = disabled.write_slot(&r);
    assert_eq!(w.file_name, "trends_1.json");
}

#[test]
fn read_slot_is_write_slot() {
    let cache = Cache::new(PathBuf::from("dir"), false);
    let r = CacheResource::UserList { username: "Bob".to_string(), list_type: "following".to_string() };
    let read = cache.read_slot(&r).unwrap();
    let write = cache.write_slot(&r);
    assert_eq!(read.file_name, write.file_name);
    assert_eq!(read.ttl_secs, write.ttl_secs);
}

#[test]
fn freshness_at_the_limit() {
    assert!(entry_is_fresh(Some((0, 0)), 300));
    assert!(entry_is_fresh(Some((299, 999_999_999)), 300));
    assert!(entry_is_fresh(Some((300, 0)), 300));
    assert!(!entry_is_fresh(Some((300, 1)), 300));
    assert!(!entry_is_fresh(Some((301, 0)), 300));
    assert!(!entry_is_fresh(None, 300));
}
