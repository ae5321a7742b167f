use tc_otel::symbol_handle::{CachedSymbolHandle, SymbolHandleCache, SymbolHandleKey};

#[test]
fn test_cache_insert_and_get() {
    let mut cache = SymbolHandleCache::new();
    let key = SymbolHandleKey {
        ams_net_id: "192.168.1.1.1.1".to_string(),
        ams_port: 851,
        symbol: "GVL.temperature".to_string(),
    };
    let handle = CachedSymbolHandle { handle: 42 };

    cache.insert(key.clone(), handle);
    assert_eq!(cache.get(&key), Some(handle));
}

#[test]
fn test_cache_remove() {
    let mut cache = SymbolHandleCache::new();
    let key = SymbolHandleKey {
        ams_net_id: "192.168.1.1.1.1".to_string(),
        ams_port: 851,
        symbol: "GVL.temperature".to_string(),
    };
    let handle = CachedSymbolHandle { handle: 42 };

    cache.insert(key.clone(), handle);
    assert!(cache.get(&key).is_some());

    cache.remove(&key);
    assert!(cache.get(&key).is_none());
}

#[test]
fn test_cache_clear_target() {
    let mut cache = SymbolHandleCache::new();
    let key1 = SymbolHandleKey {
        ams_net_id: "192.168.1.1.1.1".to_string(),
        ams_port: 851,
        symbol: "GVL.temp1".to_string(),
    };
    let key2 = SymbolHandleKey {
        ams_net_id: "192.168.1.2.1.1".to_string(),
        ams_port: 851,
        symbol: "GVL.temp2".to_string(),
    };

    cache
        .insert(key1.clone(), CachedSymbolHandle { handle: 1 });
    cache
        .insert(key2.clone(), CachedSymbolHandle { handle: 2 });

    cache.clear_target("192.168.1.1.1.1", 851);

    assert!(cache.get(&key1).is_none());
    assert!(cache.get(&key2).is_some());
}

#[test]
fn clearing_forgets_everything() {
    let mut cache = SymbolHandleCache::default();
    let key = SymbolHandleKey { ams_net_id: "1.1.1.1.1.1".to_string(), ams_port: 851, symbol: "A".to_string() };
    cache.insert(key.clone(), CachedSymbolHandle { handle: 1 });
    cache.clear_target("1.1.1.1.1.1", 852);
    assert_eq!(cache.get(&key), Some(CachedSymbolHandle { handle: 1 }));
    cache.clear();
    assert_eq!(cache.get(&key), None);
}
