use chrono::{TimeZone, Utc};
use tc_otel::client::browse::{SymbolNode, SymbolTree};
use tc_otel::client::cache::{SymbolTreeCache, TargetKey};
use tc_otel::time::Timestamp;

fn tree_with(names: &[&str]) -> SymbolTree {
    let mut nodes = Vec::with_capacity(names.len());
    for (i, n) in names.iter().enumerate() {
        nodes.push(SymbolNode {
            name: (*n).to_string(),
            data_type_name: "BOOL".into(),
            comment: String::new(),
            igroup: 0x4040,
            ioffset: i as u32,
            size: 1,
            datatype: 33,
            flags: 0,
        });
    }
    let mut tree = SymbolTree::default();
    for n in nodes {
        tree.nodes.push(n);
    }
    tree
}

fn tk(a: u8) -> TargetKey {
    TargetKey([a, 0, 0, 0, 1, 1])
}

#[test]
fn insert_then_get_returns_same_len() {
    let mut cache = SymbolTreeCache::new();
    let t = tree_with(&["A", "B"]);
    cache.insert(tk(1), t);
    let got = cache.get(tk(1)).expect("present");
    assert_eq!(got.nodes.len(), 2);
}

#[test]
fn get_missing_returns_none() {
    let cache = SymbolTreeCache::new();
    assert!(cache.get(tk(1)).is_none());
}

#[test]
fn invalidate_drops_entry() {
    let mut cache = SymbolTreeCache::new();
    cache.insert(tk(1), tree_with(&["A"]));
    cache.insert(tk(2), tree_with(&["B"]));
    cache.invalidate(tk(1));
    assert!(cache.get(tk(1)).is_none());
    assert!(cache.get(tk(2)).is_some());
    assert_eq!(cache.len(), 1);
}

#[test]
fn invalidate_all_drops_everything() {
    let mut cache = SymbolTreeCache::new();
    cache.insert(tk(1), tree_with(&["A"]));
    cache.insert(tk(2), tree_with(&["B"]));
    cache.invalidate_all();
    assert!(cache.is_empty());
    assert!(cache.get(tk(1)).is_none());
    assert!(cache.get(tk(2)).is_none());
}

#[test]
fn insert_replaces_existing_entry() {
    let mut cache = SymbolTreeCache::new();
    cache.insert(tk(1), tree_with(&["A"]));
    cache.insert(tk(1), tree_with(&["A", "B", "C"]));
    assert_eq!(cache.get(tk(1)).unwrap().nodes.len(), 3);
    assert_eq!(cache.len(), 1);
}

#[test]
fn insert_with_time_records_fixed_timestamp() {
    let mut cache = SymbolTreeCache::new();
    let at = Utc.with_ymd_and_hms(2026, 1, 2, 3, 4, 5).unwrap();
    let ts = Timestamp { secs: at.timestamp(), nanos: 0 };
    cache.insert_with_time(tk(1), tree_with(&["A"]), ts);
    assert_eq!(cache.fetched_at(tk(1)).unwrap(), ts);
}

#[test]
fn targets_listing_is_complete() {
    let mut cache = SymbolTreeCache::new();
    cache.insert(tk(1), tree_with(&["A"]));
    cache.insert(tk(2), tree_with(&["B"]));
    let mut targets = cache.targets();
    targets.sort_by_key(|k| k.0[0]);
    assert_eq!(targets, vec![tk(1), tk(2)]);
}

#[test]
fn ams_netid_conversion_roundtrips() {
    let src = ads::AmsNetId::new(10, 20, 30, 40, 1, 1);
    let key: TargetKey = src.0.into();
    assert_eq!(key, TargetKey([10, 20, 30, 40, 1, 1]));
    assert_eq!(key.to_string(), "10.20.30.40.1.1");
}

#[test]
fn inserting_stamps_the_present() {
    let mut cache = SymbolTreeCache::new();
    let before = Utc::now().timestamp();
    cache.insert(tk(1), tree_with(&["A"]));
    let after = Utc::now().timestamp();
    let at = cache.fetched_at(tk(1)).unwrap();
    assert!(before <= at.secs && at.secs <= after);
    assert!(at.nanos < 2_000_000_000);
    assert!(cache.fetched_at(tk(2)).is_none());
}
