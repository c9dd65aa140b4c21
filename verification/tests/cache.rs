use fractal_tribute::render_cache::{RenderCache, DEFAULT_CAPACITY};

fn text(s: &str) -> String {
    s.to_string()
}

#[test]
fn new_cache_is_empty() {
    let mut cache = RenderCache::new(100);
    assert_eq!(cache.len(), 0);
    assert_eq!(cache.capacity(), 100);
    assert_eq!(cache.get(1), None);
}

#[test]
fn cache_of_any_capacity_can_be_made() {
    let mut cache = RenderCache::new(usize::MAX);
    assert_eq!(cache.capacity(), usize::MAX);
    cache.insert(1, text("a"));
    assert_eq!(cache.get(1), Some(text("a")));
}

#[test]
fn get_after_put_returns_the_value() {
    let mut cache = RenderCache::new(3);
    cache.insert(7, text("seven"));
    assert_eq!(cache.get(7), Some(text("seven")));
    cache.insert(8, text("eight"));
    assert_eq!(cache.get(7), Some(text("seven")));
    assert_eq!(cache.get(8), Some(text("eight")));
    assert_eq!(cache.get(9), None);
}

#[test]
fn put_under_a_held_key_replaces_the_value() {
    let mut cache = RenderCache::new(2);
    cache.insert(1, text("a"));
    cache.insert(2, text("b"));
    cache.insert(1, text("c"));
    assert_eq!(cache.len(), 2);
    assert_eq!(cache.get(1), Some(text("c")));
    assert_eq!(cache.get(2), Some(text("b")));
}

#[test]
fn one_more_than_capacity_evicts_the_first() {
    let capacity = DEFAULT_CAPACITY;
    assert_eq!(capacity, 100);
    let mut cache = RenderCache::new(capacity);
    for k in 0..=(capacity as u64) {
        cache.insert(k, k.to_string());
    }
    assert_eq!(cache.len(), capacity);
    assert_eq!(cache.get(0), None);
    for k in 1..=(capacity as u64) {
        assert_eq!(cache.get(k), Some(k.to_string()));
    }
}

#[test]
fn a_hit_protects_an_entry_from_eviction() {
    let mut cache = RenderCache::new(3);
    cache.insert(1, text("a"));
    cache.insert(2, text("b"));
    cache.insert(3, text("c"));
    assert_eq!(cache.get(1), Some(text("a")));
    cache.insert(4, text("d"));
    assert_eq!(cache.get(2), None);
    assert_eq!(cache.get(1), Some(text("a")));
    assert_eq!(cache.get(3), Some(text("c")));
    assert_eq!(cache.get(4), Some(text("d")));
}

#[test]
fn a_replaced_entry_becomes_the_most_recent() {
    let mut cache = RenderCache::new(2);
    cache.insert(1, text("a"));
    cache.insert(2, text("b"));
    cache.insert(1, text("a2"));
    cache.insert(3, text("c"));
    assert_eq!(cache.get(2), None);
    assert_eq!(cache.get(1), Some(text("a2")));
    assert_eq!(cache.get(3), Some(text("c")));
}

#[test]
fn a_miss_changes_nothing() {
    let mut cache = RenderCache::new(2);
    cache.insert(1, text("a"));
    cache.insert(2, text("b"));
    assert_eq!(cache.get(5), None);
    cache.insert(3, text("c"));
    assert_eq!(cache.get(1), None);
    assert_eq!(cache.get(2), Some(text("b")));
}

#[test]
fn a_cache_without_capacity_keeps_the_last_entry() {
    let mut cache = RenderCache::new(0);
    cache.insert(1, text("a"));
    assert_eq!(cache.len(), 1);
    assert_eq!(cache.get(1), Some(text("a")));
    cache.insert(2, text("b"));
    assert_eq!(cache.len(), 1);
    assert_eq!(cache.get(1), None);
    assert_eq!(cache.get(2), Some(text("b")));
}
