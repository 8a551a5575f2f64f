use rich_py::render_cache::RenderCache;

#[test]
fn a_render_is_reused_within_the_refresh_period() {
    let mut cache: RenderCache<&str> = RenderCache::new();
    assert_eq!(cache.cached(3, 0, Some(5), 0), None);
    cache.store(3, 10, "first");
    assert_eq!(cache.cached(3, 0, Some(5), 14), Some(&"first"));
    assert_eq!(cache.cached(3, 0, Some(5), 15), None);
}

#[test]
fn no_reuse_without_a_period_or_once_work_is_done() {
    let mut cache: RenderCache<&str> = RenderCache::new();
    cache.store(1, 10, "r");
    assert_eq!(cache.cached(1, 0, None, 10), None);
    assert_eq!(cache.cached(1, 2, Some(5), 11), None);
    assert_eq!(cache.cached(2, 0, Some(5), 11), None);
}

#[test]
fn storing_again_replaces_the_render() {
    let mut cache: RenderCache<&str> = RenderCache::new();
    cache.store(1, 10, "old");
    cache.store(1, 20, "new");
    assert_eq!(cache.cached(1, 0, Some(5), 21), Some(&"new"));
}
