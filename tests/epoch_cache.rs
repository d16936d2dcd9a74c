use std::sync::atomic::{AtomicU64, Ordering};
use std::sync::Arc;

use hummock_core::{new_unbounded, new_unbounded_with_metrics, MetricsInfo};

#[test]
fn put_get_and_touch_order() {
    let wm = Arc::new(AtomicU64::new(0));
    let mut cache = new_unbounded(wm.clone());
    cache.update_epoch(1);
    assert_eq!(cache.put(1, vec![10]), None);
    assert_eq!(cache.put(2, vec![20]), None);
    assert_eq!(cache.put(1, vec![11]), Some(vec![10]));
    assert_eq!(cache.len(), 2);
    assert_eq!(cache.peek(1), Some(&vec![11]));
    assert_eq!(cache.peek(3), None);
    cache.update_epoch(5);
    assert_eq!(cache.get(2), Some(&vec![20]));
    assert_eq!(cache.get(9), None);
    // key 1 stays tagged with epoch 1, key 2 was touched in epoch 5
    wm.store(3, Ordering::Relaxed);
    cache.evict();
    assert_eq!(cache.len(), 1);
    assert_eq!(cache.peek(1), None);
    assert_eq!(cache.peek(2), Some(&vec![20]));
}

#[test]
fn eviction_removes_exactly_the_entries_touched_before_the_bound() {
    let wm = Arc::new(AtomicU64::new(0));
    let mut cache = new_unbounded(wm);
    cache.update_epoch(1);
    cache.put(1, vec![1]);
    cache.put(2, vec![2]);
    cache.update_epoch(2);
    cache.put(3, vec![3]);
    cache.update_epoch(4);
    // touching key 1 moves it to epoch 4
    assert_eq!(cache.get(1), Some(&vec![1]));
    cache.evict_below(3);
    assert_eq!(cache.len(), 1);
    assert_eq!(cache.peek(1), Some(&vec![1]));
    assert_eq!(cache.peek(2), None);
    assert_eq!(cache.peek(3), None);
}

#[test]
fn evict_below_except_cur_epoch_clamps_the_watermark() {
    let wm = Arc::new(AtomicU64::new(0));
    let metrics = MetricsInfo {
        table_id: "t".to_string(),
        actor_id: "a".to_string(),
        desc: "d".to_string(),
        lru_evicted_watermark_time_ms: 0,
    };
    let mut cache = new_unbounded_with_metrics(wm, metrics);
    cache.update_epoch(2 << 16);
    cache.put(1, vec![1]);
    cache.update_epoch(5 << 16);
    cache.put(2, vec![2]);
    cache.evict_below_except_cur_epoch(9 << 16);
    assert_eq!(cache.len(), 1);
    assert_eq!(cache.peek(2), Some(&vec![2]));
    assert_eq!(cache.evicted_watermark_time_ms(), Some(5));
    cache.evict_below(6 << 16);
    assert_eq!(cache.len(), 0);
    assert_eq!(cache.evicted_watermark_time_ms(), Some(6));
}

#[test]
fn current_epoch_survives_high_watermark() {
    let wm = Arc::new(AtomicU64::new(0));
    let metrics = MetricsInfo {
        table_id: "t".to_string(),
        actor_id: "a".to_string(),
        desc: "d".to_string(),
        lru_evicted_watermark_time_ms: 0,
    };
    let mut cache = new_unbounded_with_metrics(wm.clone(), metrics);
    cache.update_epoch(3 << 16);
    cache.put(1, vec![1]);
    cache.update_epoch(7 << 16);
    cache.put(2, vec![2]);
    cache.put(3, vec![3]);
    wm.store(100 << 16, Ordering::Relaxed);
    cache.evict_except_cur_epoch();
    assert_eq!(cache.len(), 2);
    assert_eq!(cache.peek(1), None);
    assert_eq!(cache.peek(2), Some(&vec![2]));
    assert_eq!(cache.peek(3), Some(&vec![3]));
    // the reported watermark is the clamped one, as physical time
    assert_eq!(cache.evicted_watermark_time_ms(), Some(7));
    cache.evict();
    assert_eq!(cache.len(), 0);
    assert_eq!(cache.evicted_watermark_time_ms(), Some(100));
}

#[test]
fn cache_without_metrics_reports_nothing() {
    let wm = Arc::new(AtomicU64::new(10));
    let mut cache = new_unbounded(wm);
    cache.evict();
    assert_eq!(cache.evicted_watermark_time_ms(), None);
    assert_eq!(cache.current_epoch(), 0);
}

#[test]
fn cache_with_given_hasher() {
    let wm = Arc::new(AtomicU64::new(2 << 16));
    let metrics = MetricsInfo {
        table_id: "t".to_string(),
        actor_id: "a".to_string(),
        desc: "d".to_string(),
        lru_evicted_watermark_time_ms: 0,
    };
    let mut cache = hummock_core::new_with_hasher(
        wm,
        metrics,
        std::collections::hash_map::RandomState::new(),
    );
    cache.update_epoch(1 << 16);
    cache.put(4, vec![4]);
    cache.evict_except_cur_epoch();
    assert_eq!(cache.len(), 1);
    assert_eq!(cache.evicted_watermark_time_ms(), Some(1));
    cache.evict();
    assert_eq!(cache.len(), 0);
    assert_eq!(cache.evicted_watermark_time_ms(), Some(2));
}
