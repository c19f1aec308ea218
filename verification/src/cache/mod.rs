//! Caching of file owners between runs.
use vstd::prelude::*;

pub mod noop;

verus! {

/// What a cache holds of a file.
pub struct FileOwnerCacheEntry {
    pub owner: Option<String>,
}

/// Why a cache could not be read, stored or removed.
pub struct Error {
    pub message: String,
}

/// A cache of the owners of files, which are named by their paths.
pub trait Caching {
    /// What the cache holds of a file, if it holds anything that is still valid.
    fn get_file_owner(&self, path: &str) -> Result<Option<FileOwnerCacheEntry>, Error>;

    /// Hands the owner of a file to the cache.
    fn write_file_owner(&self, path: &str, owner: Option<String>);

    /// Stores the cache.
    fn persist_cache(&self) -> Result<(), Error>;

    /// Removes what was stored.
    fn delete_cache(&self) -> Result<(), Error>;
}

} // verus!
