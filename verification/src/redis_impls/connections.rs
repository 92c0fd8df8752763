//! Shared Redis connections, one per host.
//!
//! What a connection is (`C`) is left to the caller, who opens it; a connection can be cloned to
//! share it.
use vstd::prelude::*;

use crate::keyed_map::{lookup, KeyedMap};

verus! {

/// Connections by host.
pub type ConnectionCache<C> = KeyedMap<String, C>;

/// Returns a clone of the connection to a host, if there is one.
pub fn get_connection<C: Clone>(cache: &ConnectionCache<C>, host: &str) -> (connection: Option<C>)
    ensures
        match lookup(cache@, host@) {
            Some(kept) => connection matches Some(copy) && cloned(kept, copy),
            None => connection is None,
        },
{
    match cache.get(&host.to_string()) {
        Some(kept) => Some(kept.clone()),
        None => None,
    }
}

/// Keeps a clone of a connection that was just opened, for those who ask for the host later. A
/// connection that could not be opened leaves the cache as it is.
pub fn store_connection<C: Clone>(
    cache: &mut ConnectionCache<C>,
    host: &str,
    opened: Result<C, redis::RedisError>,
) -> (connection: Result<C, redis::RedisError>)
    ensures
        connection == opened,
        match opened {
            Ok(fresh) => exists|copy: C|
                #[trigger] cloned(fresh, copy) && final(cache)@ == old(cache)@.insert(host@, copy),
            Err(_) => final(cache)@ == old(cache)@,
        },
{
    match opened {
        Ok(fresh) => {
            let copy = fresh.clone();
            cache.insert(host.to_string(), copy);
            assert(cloned(fresh, copy));
            Ok(fresh)
        },
        Err(err) => Err(err),
    }
}

/// Forgets the connection to a host, so that the next request opens a new one.
pub fn evict_connection<C>(cache: &mut ConnectionCache<C>, host: &str)
    ensures
        final(cache)@ == old(cache)@.remove(host@),
{
    cache.remove(&host.to_string());
}

/// A connection that was opened is handed to the one who opened it and kept for its host, whatever
/// the host is: the next request for the host gets a clone of what was kept, which is itself a clone
/// of it. Connections to other hosts stay as they are.
pub proof fn law_opened_connection_is_kept<C: Clone>(
    cache: &mut ConnectionCache<C>,
    host: &str,
    fresh: C,
    stored: Result<C, redis::RedisError>,
    got: Option<C>,
    other: Seq<char>,
)
    requires
        call_ensures(store_connection::<C>, (cache, host, Ok(fresh)), stored),
        call_ensures(get_connection::<C>, (final(cache), host), got),
    ensures
        stored == Ok::<C, redis::RedisError>(fresh),
        got matches Some(copy) && exists|kept: C| #[trigger] cloned(fresh, kept) && cloned(
            kept,
            copy,
        ),
        other != host@ ==> lookup(final(cache)@, other) == lookup(old(cache)@, other),
{
}

/// A connection that could not be opened gives its error back and changes nothing.
pub proof fn law_failed_connection_changes_nothing<C: Clone>(
    cache: &mut ConnectionCache<C>,
    host: &str,
    err: redis::RedisError,
    stored: Result<C, redis::RedisError>,
)
    requires
        call_ensures(store_connection::<C>, (cache, host, Err(err)), stored),
    ensures
        stored == Err::<C, redis::RedisError>(err),
        final(cache)@ == old(cache)@,
{
}

/// After an eviction the next request for the host finds no connection, whatever was there before.
/// Connections to other hosts stay as they are.
pub proof fn law_evicted_connection_is_gone<C: Clone>(
    cache: &mut ConnectionCache<C>,
    host: &str,
    got: Option<C>,
    other: Seq<char>,
)
    requires
        call_ensures(evict_connection::<C>, (cache, host), ()),
        call_ensures(get_connection::<C>, (final(cache), host), got),
    ensures
        got is None,
        other != host@ ==> lookup(final(cache)@, other) == lookup(old(cache)@, other),
{
}

} // verus!
