//! Plain records of the service's responses.

use vstd::prelude::*;

verus! {

/// The position of a page in a paginated collection.
#[derive(Clone, Copy, Debug, PartialEq, Eq, Structural)]
pub struct Pagination {
    /// the number of items in the whole collection
    pub total_items: usize,
    /// the current page of the collection
    pub page: usize,
    /// the number of items per page
    pub page_size: usize,
}

} // verus!
