//! What a request holds where the client leaves a parameter out.

use vstd::prelude::*;

verus! {

/// The number of hits of a search.
pub fn default_limit() -> (r: usize)
    ensures
        r == 20,
{
    20
}

/// The number of bytes of a read: 64 KiB.
pub fn default_max_bytes() -> (r: usize)
    ensures
        r == 65536,
{
    64 * 1024
}

/// The view of a metadata query.
pub fn default_view() -> (r: String)
    ensures
        r@ == "dennou_tracks"@,
{
    "dennou_tracks".to_owned()
}

/// The order of a metadata query.
pub fn default_order_by() -> (r: String)
    ensures
        r@ == "issue_asc"@,
{
    "issue_asc".to_owned()
}

/// The number of rows of a metadata query.
pub fn default_query_limit() -> (r: usize)
    ensures
        r == 5000,
{
    5000
}

/// The format of a metadata query.
pub fn default_format() -> (r: String)
    ensures
        r@ == "json"@,
{
    "json".to_owned()
}

/// The partition of a request: the one it names, or the first.
pub fn partition_index(partition: Option<usize>) -> (r: usize)
    ensures
        r == (match partition {
            Some(p) => p,
            None => 0,
        }),
{
    match partition {
        Some(p) => p,
        None => 0,
    }
}

} // verus!
