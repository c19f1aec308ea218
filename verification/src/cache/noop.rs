//! The cache that is used when caching is switched off.
use vstd::prelude::*;

use super::{Caching, Error, FileOwnerCacheEntry};

verus! {

/// A cache that holds nothing, whatever is handed to it, and never fails.
pub struct NoopCache {}

impl Default for NoopCache {
    fn default() -> (cache: Self)
        ensures
            cache == (NoopCache {}),
    {
        NoopCache {}
    }
}

impl Caching for NoopCache {
    /// Finds nothing, for any file and after any write.
    fn get_file_owner(&self, _path: &str) -> (found: Result<Option<FileOwnerCacheEntry>, Error>)
        ensures
            found == Ok::<Option<FileOwnerCacheEntry>, Error>(None),
    {
        Ok(None)
    }

    /// Forgets the owner at once.
    fn write_file_owner(&self, _path: &str, _owner: Option<String>) {
    }

    /// There is nothing to store.
    fn persist_cache(&self) -> (done: Result<(), Error>)
        ensures
            done == Ok::<(), Error>(()),
    {
        Ok(())
    }

    /// There is nothing to remove.
    fn delete_cache(&self) -> (done: Result<(), Error>)
        ensures
            done == Ok::<(), Error>(()),
    {
        Ok(())
    }
}

/// The cache has no state: whatever was written, persisted or deleted through one, it
/// is the same as a new one.
pub proof fn law_noop_cache_has_no_state(a: NoopCache, b: NoopCache)
    ensures
        a == b,
{
}

} // verus!
