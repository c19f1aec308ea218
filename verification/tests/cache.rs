use codeowners_perf::cache::noop::NoopCache;
use codeowners_perf::cache::Caching;

#[test]
fn noop_cache_holds_nothing() {
    let cache = NoopCache::default();
    cache.write_file_owner("app/models/user.rb", Some("Payroll".to_string()));
    assert!(matches!(cache.get_file_owner("app/models/user.rb"), Ok(None)));
    assert!(cache.persist_cache().is_ok());
    assert!(matches!(cache.get_file_owner("app/models/user.rb"), Ok(None)));
    assert!(cache.delete_cache().is_ok());
    assert!(matches!(cache.get_file_owner(""), Ok(None)));
}
