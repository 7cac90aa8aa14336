use proton_prefix_manager::cache;
use proton_prefix_manager::cache::{FileCache, TtlCache, CACHE_DURATION_MS};

#[test]
fn fresh_entry_is_served_without_recomputation() {
    let mut c: TtlCache<u32> = TtlCache::new();
    assert!(c.get(0).is_none());
    c.put(41, 1000);
    assert_eq!(c.get(1000).copied(), Some(41));
    assert_eq!(c.get(1000 + CACHE_DURATION_MS - 1).copied(), Some(41));
}

#[test]
fn aged_entry_triggers_one_recomputation() {
    let mut c: TtlCache<u32> = TtlCache::new();
    c.put(41, 1000);
    let now = 1000 + CACHE_DURATION_MS;
    let mut recomputations = 0;
    let value = match c.get(now) {
        Some(v) => *v,
        None => {
            recomputations += 1;
            c.put(42, now);
            *c.get(now).unwrap()
        }
    };
    assert_eq!(recomputations, 1);
    assert_eq!(value, 42);
    assert_eq!(c.get(now).copied(), Some(42));
}

#[test]
fn clock_moving_backwards_is_not_fresh() {
    let mut c: TtlCache<u32> = TtlCache::new();
    c.put(41, 1000);
    assert!(c.get(999).is_none());
}

#[test]
fn advanced_modification_time_is_never_served() {
    let mut c = FileCache::new(10);
    c.update("/cfg", "old contents".to_string(), 5);
    assert_eq!(c.lookup("/cfg", 5), Some("old contents".to_string()));
    assert_eq!(c.lookup("/cfg", 4), Some("old contents".to_string()));
    assert_eq!(c.lookup("/cfg", 6), None);
    c.update("/cfg", "new contents".to_string(), 6);
    assert_eq!(c.lookup("/cfg", 6), Some("new contents".to_string()));
}

#[test]
fn oldest_entry_is_evicted_past_the_bound() {
    let mut c = FileCache::new(2);
    c.update("/a", "a".to_string(), 1);
    c.update("/b", "b".to_string(), 1);
    c.update("/c", "c".to_string(), 1);
    assert_eq!(c.lookup("/a", 1), None);
    assert_eq!(c.lookup("/b", 1), Some("b".to_string()));
    assert_eq!(c.lookup("/c", 1), Some("c".to_string()));
}

#[test]
fn rewriting_a_path_keeps_one_entry_for_it() {
    let mut c = FileCache::new(2);
    c.update("/a", "a1".to_string(), 1);
    c.update("/a", "a2".to_string(), 2);
    c.update("/b", "b".to_string(), 1);
    assert_eq!(c.lookup("/a", 2), Some("a2".to_string()));
    assert_eq!(c.lookup("/b", 1), Some("b".to_string()));
}

#[test]
fn invalidate_all_forgets_everything() {
    let mut c = FileCache::new(4);
    c.update("/a", "a".to_string(), 1);
    c.invalidate_all();
    assert_eq!(c.lookup("/a", 1), None);
}

#[test]
fn named_cache_wrappers_update_and_clear() {
    let mut mc = FileCache::new(cache::MANIFEST_CACHE_LIMIT);
    cache::update_manifest_cache(&mut mc, "/m", "manifest".to_string(), 3);
    assert_eq!(mc.lookup("/m", 3), Some("manifest".to_string()));
    cache::clear_manifest_cache(&mut mc);
    assert_eq!(mc.lookup("/m", 3), None);

    let mut lc = FileCache::new(cache::LOCALCONFIG_CACHE_LIMIT);
    cache::update_localconfig_cache(&mut lc, "/l", "settings".to_string(), 3);
    assert_eq!(lc.lookup("/l", 3), Some("settings".to_string()));
    cache::clear_localconfig_cache(&mut lc);
    assert_eq!(lc.lookup("/l", 3), None);
}

#[test]
fn ttl_clear_forces_recomputation() {
    let mut c: TtlCache<u32> = TtlCache::new();
    c.put(41, 1000);
    c.clear();
    assert!(c.get(1000).is_none());
}
