//! Server configuration values and the pagination parameters common to most
//! queries, with the rule that picks the effective page size.

use vstd::prelude::*;

verus! {

/// Stores the server's configuration variables.
pub struct Configs {
    /// Maximum amount of resources a single request can return.
    pub page_size: u32,
}

impl Configs {
    pub fn new(page_size: u32) -> (r: Configs)
        ensures
            r.page_size == page_size,
    {
        Configs { page_size }
    }

    pub fn get_page_size(&self) -> (r: u32)
        ensures
            r == self.page_size,
    {
        self.page_size
    }
}

/// Common query parameters most routes support, like the `offset` and
/// `limit`.
pub struct CommonQueryParams {
    pub offset: u32,
    pub page_size: u32,
}

impl CommonQueryParams {
    /// Builds the parameters from what the request carried: a missing
    /// offset is zero, and the page size is the requested limit when it is
    /// below the configured page size, else the configured page size.
    pub fn new(offset: Option<u32>, limit: Option<u32>, configs: &Configs) -> (r:
        CommonQueryParams)
        ensures
            r.offset == (match offset {
                Option::Some(o) => o,
                Option::None => 0u32,
            }),
            r.page_size == (match limit {
                Option::Some(l) => if l < configs.page_size {
                    l
                } else {
                    configs.page_size
                },
                Option::None => configs.page_size,
            }),
    {
        let page_size = match limit {
            Option::Some(l) => if l < configs.page_size {
                l
            } else {
                configs.page_size
            },
            Option::None => configs.page_size,
        };
        CommonQueryParams {
            offset: match offset {
                Option::Some(o) => o,
                Option::None => 0,
            },
            page_size,
        }
    }

    /// The maximum amount of elements that can be present in a response,
    /// akin to the SQL LIMIT clause.
    pub fn page_size(&self) -> (r: i64)
        ensures
            r == self.page_size,
            0 <= r <= u32::MAX,
    {
        self.page_size as i64
    }

    /// The amount of elements that should be skipped from a response, akin
    /// to the SQL OFFSET clause.
    pub fn offset(&self) -> (r: i64)
        ensures
            r == self.offset,
            0 <= r <= u32::MAX,
    {
        self.offset as i64
    }
}

} // verus!
