use prompt_codec::cache::{
    disk_cache, prune_excess, resolve_cache_path, row_count, PruneGate, RewriteCache, WarnOnce,
};
use prompt_codec::config::CacheConfig;

fn ratio(r: f64) -> String {
    format!("{r:.3}")
}

#[test]
fn key_is_deterministic_and_input_sensitive() {
    let a = RewriteCache::key("content", &ratio(0.45), "gemma3:4b");
    assert_eq!(a, RewriteCache::key("content", &ratio(0.45), "gemma3:4b"));
    assert_ne!(a, RewriteCache::key("content2", &ratio(0.45), "gemma3:4b"));
    assert_ne!(a, RewriteCache::key("content", &ratio(0.50), "gemma3:4b"));
    assert_ne!(a, RewriteCache::key("content", &ratio(0.45), "other"));
}

#[test]
fn key_is_the_digest_in_hexadecimal() {
    assert_eq!(
        RewriteCache::key("content", "0.450", "gemma3:4b"),
        "5a132890847ab22299a966f4bc8311db21e65f149644966d6ab62b2054d96986"
    );
}

#[test]
fn get_after_put() {
    let mut c = RewriteCache::new(16);
    let k = RewriteCache::key("x", &ratio(0.45), "m");
    assert!(c.get(&k).is_none());
    c.put(k.clone(), "compressed".into());
    assert_eq!(c.get(&k).as_deref(), Some("compressed"));
    c.put(k.clone(), "again".into());
    assert_eq!(c.get(&k).as_deref(), Some("again"));
}

#[test]
fn entry_count_is_accurate_after_sync() {
    let mut c = RewriteCache::new(16);
    c.put("k1".into(), "v1".into());
    c.put("k2".into(), "v2".into());
    c.sync();
    assert_eq!(c.entry_count(), 2);
}

#[test]
fn cache_with_room_gives_everything_back() {
    let mut c = RewriteCache::new(1000);
    assert_eq!(c.entry_count(), 0);
    for round in 0..3 {
        for i in 0..1000 {
            c.put(format!("k{i}"), format!("v{i}-{round}"));
            assert_eq!(c.get(&format!("k{i}")), Some(format!("v{i}-{round}")));
            assert!(c.get(&format!("other{i}")).is_none());
        }
    }
    for i in 0..1000 {
        assert_eq!(c.get(&format!("k{i}")), Some(format!("v{i}-2")));
    }
    assert!(c.entry_count() <= 1000);
    c.sync();
    assert_eq!(c.entry_count(), 1000);
}

#[test]
fn count_never_exceeds_the_keys_put() {
    let mut c = RewriteCache::new(4);
    for i in 0..100 {
        c.put(format!("k{}", i % 10), "v".into());
        c.sync();
        assert!(c.entry_count() <= 10);
    }
}

#[test]
fn cache_without_room_keeps_nothing() {
    let mut c = RewriteCache::new(0);
    c.put("k".into(), "v".into());
    assert!(c.get("k").is_none());
}

#[test]
fn durable_hits_are_promoted() {
    let mut c = RewriteCache::new(16);
    assert_eq!(c.promote("k", None), None);
    assert!(c.get("k").is_none());
    assert_eq!(c.promote("k", Some("v".to_string())).as_deref(), Some("v"));
    assert_eq!(c.get("k").as_deref(), Some("v"));
}

#[test]
fn prunes_are_due_now_and_then() {
    let mut g = PruneGate::new();
    let due: Vec<usize> = (0..2050).filter(|_| g.count_put()).collect();
    assert_eq!(due, vec![0, 1024, 2048]);
    assert_eq!(prune_excess(20, 8), Some(12));
    assert_eq!(prune_excess(8, 8), None);
    assert_eq!(prune_excess(-5, 0), None);
    assert_eq!(prune_excess(i64::MAX, 0), Some(i64::MAX));
    assert_eq!(prune_excess(1, u64::MAX), None);
    assert_eq!(row_count(-1), 0);
    assert_eq!(row_count(7), 7);
}

#[test]
fn durable_tier_is_where_it_is_told_to_be() {
    let dir = || Some("/home/u/.cache".to_string());
    assert_eq!(resolve_cache_path(Some("/x/y.db".to_string()), dir()), "/x/y.db");
    assert_eq!(
        resolve_cache_path(None, dir()),
        "/home/u/.cache/prompt-codec/rewrites.sqlite3"
    );
    assert_eq!(resolve_cache_path(None, None), "./prompt-codec-cache.sqlite3");
    // A directory is joined as paths are.
    for dir in ["/tmp/c/", "/tmp/c", "", "/"] {
        let joined = std::path::PathBuf::from(dir)
            .join("prompt-codec")
            .join("rewrites.sqlite3");
        assert_eq!(
            resolve_cache_path(None, Some(dir.to_string())),
            joined.display().to_string()
        );
    }
    let mut cfg = CacheConfig::default();
    let disk = disk_cache(&cfg, dir()).unwrap();
    assert_eq!(disk.path, "/home/u/.cache/prompt-codec/rewrites.sqlite3");
    assert_eq!(disk.max_disk_entries, 100_000);
    cfg.path = Some("z".to_string());
    assert_eq!(disk_cache(&cfg, None).unwrap().path, "z");
    cfg.persist = false;
    assert!(disk_cache(&cfg, dir()).is_none());
}

#[test]
fn warnings_are_given_once() {
    let mut w = WarnOnce::new();
    assert!(w.is_first());
    assert!(!w.is_first());
    assert!(!w.is_first());
}
