//! The manual-paging strategy for the saved-track fetcher: fixed-size pages
//! are requested at an advancing offset until a request fails or a page
//! comes back empty. The requests themselves are the caller's business; this
//! module decides the next offset.
use vstd::prelude::*;

verus! {

/// The page size the manual fetcher requests.
pub const PAGE_SIZE: u32 = 100;

/// Where to request the next page after a page of `received` items came back
/// from `offset`: one past the items seen so far, or nowhere when the page
/// was empty, which ends the walk.
pub fn next_offset(offset: u32, received: u32) -> (r: Option<u32>)
    requires
        offset + received <= u32::MAX,
    ensures
        received == 0 ==> r is None,
        received > 0 ==> r == Some((offset + received) as u32),
{
    if received == 0 {
        None
    } else {
        Some(offset + received)
    }
}

} // verus!
