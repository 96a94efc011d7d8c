//! The table of live streams, kept in a `tokio_stream::StreamMap`.
//!
//! A server's runtime keeps its running streams in a map of this kind and
//! polls them there. This table holds, under the protocol keys, the number of
//! each key's stream, so that what happens to streams is decided here and
//! only carried out there.
//!
//! A `StreamMap` keeps its entries in a vector and looks a key up by going
//! through it. `insert` first removes what the key held, so a map that is
//! built by `new` and `insert` holds each key once, and what it holds is a
//! map from keys to values.

use tokio_stream::StreamMap;
use vstd::prelude::*;

verus! {

/// `tokio_stream::StreamMap`, as a type whose inside is not looked at.
#[verifier::external_type_specification]
#[verifier::external_body]
#[verifier::reject_recursive_types(K)]
#[verifier::reject_recursive_types(V)]
pub struct ExStreamMap<K, V>(StreamMap<K, V>);

/// What a table of streams holds: for each key that has a stream, the
/// number of that stream.
pub uninterp spec fn stream_numbers(table: StreamMap<u32, u64>) -> Map<u32, u64>;

/// `StreamMap::new`: a map that holds nothing.
#[verifier::external_body]
pub(crate) fn new_table() -> (table: StreamMap<u32, u64>)
    ensures
        stream_numbers(table) == (Map::<u32, u64>::empty()),
{
    StreamMap::new()
}

/// `StreamMap::insert`: puts `stream` under `key` in place of what the key
/// held, and returns what it held.
#[verifier::external_body]
pub(crate) fn table_insert(table: &mut StreamMap<u32, u64>, key: u32, stream: u64) -> (held: Option<
    u64,
>)
    ensures
        stream_numbers(*final(table)) == stream_numbers(*old(table)).insert(key, stream),
        held == if stream_numbers(*old(table)).contains_key(key) {
            Some(stream_numbers(*old(table))[key])
        } else {
            None
        },
{
    table.insert(key, stream)
}

/// `StreamMap::remove`: takes `key` out of the map and returns what it
/// held.
#[verifier::external_body]
pub(crate) fn table_remove(table: &mut StreamMap<u32, u64>, key: u32) -> (held: Option<u64>)
    ensures
        stream_numbers(*final(table)) == stream_numbers(*old(table)).remove(key),
        held == if stream_numbers(*old(table)).contains_key(key) {
            Some(stream_numbers(*old(table))[key])
        } else {
            None
        },
{
    table.remove(&key)
}

/// `StreamMap::contains_key`: whether the map holds something under `key`.
#[verifier::external_body]
pub(crate) fn table_contains_key(table: &StreamMap<u32, u64>, key: u32) -> (held: bool)
    ensures
        held == stream_numbers(*table).contains_key(key),
{
    table.contains_key(&key)
}

/// `StreamMap::clear`: takes every key out of the map.
#[verifier::external_body]
pub(crate) fn table_clear(table: &mut StreamMap<u32, u64>)
    ensures
        stream_numbers(*final(table)) == (Map::<u32, u64>::empty()),
{
    table.clear()
}

} // verus!
