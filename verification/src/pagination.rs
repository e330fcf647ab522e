//! Paging of list requests.

use vstd::prelude::*;

verus! {

/// The page that is shown where a request names none.
pub const DEFAULT_PAGE: i64 = 1;

/// The number of items on a page where a request names none.
pub const DEFAULT_PER_PAGE: i64 = 20;

/// The page and the page size that a list request asks for.
pub struct PaginationParams {
    /// The page, counted from 1.
    pub page: Option<i64>,
    /// The number of items on a page.
    pub per_page: Option<i64>,
}

impl Default for PaginationParams {
    /// The first page, at the default page size.
    fn default() -> (params: PaginationParams)
        ensures
            params.page == Some(DEFAULT_PAGE),
            params.per_page == Some(DEFAULT_PER_PAGE),
    {
        PaginationParams { page: Some(DEFAULT_PAGE), per_page: Some(DEFAULT_PER_PAGE) }
    }
}

impl PaginationParams {
    /// The page asked for, or the default.
    pub open spec fn spec_page(&self) -> int {
        match self.page {
            Some(page) => page as int,
            None => DEFAULT_PAGE as int,
        }
    }

    /// The page size asked for, or the default.
    pub open spec fn spec_page_size(&self) -> int {
        match self.per_page {
            Some(per_page) => per_page as int,
            None => DEFAULT_PER_PAGE as int,
        }
    }

    /// The number of items that stand before the page.
    pub open spec fn spec_offset(&self) -> int {
        (self.spec_page() - 1) * self.spec_page_size()
    }

    /// The page asked for, or the default.
    pub fn page(&self) -> (page: i64)
        ensures
            page == self.spec_page(),
    {
        match self.page {
            Some(page) => page,
            None => DEFAULT_PAGE,
        }
    }

    /// The page size asked for, or the default.
    pub fn page_size(&self) -> (size: i64)
        ensures
            size == self.spec_page_size(),
    {
        match self.per_page {
            Some(per_page) => per_page,
            None => DEFAULT_PER_PAGE,
        }
    }

    /// The number of items that stand before the page, where it fits an `i64`.
    pub fn offset(&self) -> (offset: Option<i64>)
        ensures
            match offset {
                Some(n) => n == self.spec_offset(),
                None => self.spec_offset() < i64::MIN || self.spec_offset() > i64::MAX,
            },
    {
        let size = self.page_size();
        match self.page().checked_sub(1) {
            Some(before) => before.checked_mul(size),
            None => {
                if size == 0 {
                    Some(0)
                } else {
                    assert(self.spec_offset() < i64::MIN || self.spec_offset() > i64::MAX)
                        by (nonlinear_arith)
                        requires
                            self.spec_offset() == (self.spec_page() - 1) * self.spec_page_size(),
                            self.spec_page() - 1 < i64::MIN,
                            self.spec_page_size() != 0,
                    {}
                    None
                }
            },
        }
    }
}

} // verus!
