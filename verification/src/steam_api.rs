//! The remote repository client's verified state: its caches, its rate
//! limiter, and the cache keys it files records under.  The network calls
//! themselves live in the driver.

use vstd::prelude::*;
use crate::cache::Cache;
use crate::metadata::WorkshopFileDetails;
use crate::rate::RateLimiter;

verus! {

/// One hour, in milliseconds: how long remote records stay cached.
pub const DETAILS_TTL_MS: u64 = 3600000;

/// Two seconds, in milliseconds: the least delay between page scrapes.
pub const SCRAPE_DELAY_MS: u64 = 2000;

/// The remote repository client's state.
pub struct SteamApi {
    pub file_details_cache: Cache<WorkshopFileDetails>,
    pub is_collection_cache: Cache<bool>,
    pub collection_details_cache: Cache<Vec<WorkshopFileDetails>>,
    pub scraping_rate_limiter: RateLimiter,
}

impl SteamApi {
    /// A client with empty caches that keep records for an hour, and a
    /// scrape limiter of two seconds.
    pub fn new() -> (r: SteamApi)
        ensures
            r.file_details_cache.wf(),
            r.file_details_cache.entries_seq().len() == 0,
            r.file_details_cache.default_ttl() == DETAILS_TTL_MS,
            r.is_collection_cache.wf(),
            r.is_collection_cache.entries_seq().len() == 0,
            r.is_collection_cache.default_ttl() == DETAILS_TTL_MS,
            r.collection_details_cache.wf(),
            r.collection_details_cache.entries_seq().len() == 0,
            r.collection_details_cache.default_ttl() == DETAILS_TTL_MS,
            r.scraping_rate_limiter.min_delay() == SCRAPE_DELAY_MS,
    {
        SteamApi {
            file_details_cache: Cache::new(DETAILS_TTL_MS),
            is_collection_cache: Cache::new(DETAILS_TTL_MS),
            collection_details_cache: Cache::new(DETAILS_TTL_MS),
            scraping_rate_limiter: RateLimiter::new(SCRAPE_DELAY_MS),
        }
    }

    /// The cache key of an item's record.
    pub fn file_details_cache_key(mod_id: &str) -> (r: String)
        ensures
            r@ == "file-details-"@ + mod_id@,
    {
        let mut r = String::from_str("file-details-");
        r.append(mod_id);
        r
    }
}

} // verus!
