//! Pages of a long list: which page, how large, and where it sits in the whole.
use vstd::prelude::*;

verus! {

/// The number of items on a page when none is asked for.
pub const DEFAULT_PAGE_SIZE: u32 = 20;

/// A page asked for: its number, counted from one, and its size.
#[derive(Debug, Clone, Copy, PartialEq, Eq, Structural)]
pub struct Page {
    number: u32,
    size: u32,
}

/// The number of pages `total` items fill, `size` to a page; never fewer than one.
pub open spec fn pages_for(total: int, size: int) -> int {
    if total <= 0 {
        1
    } else {
        (total - 1) / size + 1
    }
}

impl Page {
    #[verifier::type_invariant]
    spec fn well_formed(self) -> bool {
        self.number >= 1 && self.size >= 1
    }

    /// The number of the page, counted from one.
    pub closed spec fn number_spec(self) -> u32 {
        self.number
    }

    /// How many items the page holds at most.
    pub closed spec fn size_spec(self) -> u32 {
        self.size
    }

    /// A page: refused when its number or its size is zero.
    pub fn parse(number: u32, size: u32) -> (r: Option<Page>)
        ensures
            r is Some <==> number >= 1 && size >= 1,
            r is Some ==> r->0.number_spec() == number && r->0.size_spec() == size,
    {
        if number >= 1 && size >= 1 {
            Some(Page { number, size })
        } else {
            None
        }
    }

    /// The first page, of the default size.
    pub fn first() -> (r: Page)
        ensures
            r.number_spec() == 1,
            r.size_spec() == DEFAULT_PAGE_SIZE,
    {
        Page { number: 1, size: DEFAULT_PAGE_SIZE }
    }

    /// The number of the page, counted from one.
    pub fn number(&self) -> (r: u32)
        ensures
            r == self.number_spec(),
            r >= 1,
    {
        proof { use_type_invariant(self); }
        self.number
    }

    /// How many items the page holds at most.
    pub fn size(&self) -> (r: u32)
        ensures
            r == self.size_spec(),
            r >= 1,
    {
        proof { use_type_invariant(self); }
        self.size
    }

    /// How many items come before this page.
    pub fn offset(&self) -> (r: u64)
        ensures
            r == (self.number_spec() - 1) * self.size_spec(),
    {
        proof { use_type_invariant(self); }
        let n = (self.number - 1) as u64;
        let s = self.size as u64;
        assert(n * s <= 0xffff_ffff * 0xffff_ffff) by (nonlinear_arith)
            requires n <= 0xffff_ffff, s <= 0xffff_ffff;
        n * s
    }

    /// How many pages `total` items fill; at least one, even when there are none.
    pub fn total_pages(&self, total: u64) -> (r: u64)
        ensures
            r == pages_for(total as int, self.size_spec() as int),
    {
        proof { use_type_invariant(self); }
        if total == 0 {
            1
        } else {
            let s = self.size as u64;
            assert((total - 1) / (s as int) <= total - 1) by (nonlinear_arith)
                requires s >= 1, total >= 1;
            (total - 1) / s + 1
        }
    }

    /// Whether a page follows this one in a list of `total` items.
    pub fn has_next(&self, total: u64) -> (r: bool)
        ensures
            r == (self.number_spec() < pages_for(total as int, self.size_spec() as int)),
    {
        (self.number as u64) < self.total_pages(total)
    }
}

/// One page of a list, with the number of items in the whole list.
pub struct Paged<T> {
    pub items: Vec<T>,
    pub page: Page,
    pub total: u64,
}

impl<T> Paged<T> {
    /// A page of items out of `total`.
    pub fn new(items: Vec<T>, page: Page, total: u64) -> (r: Paged<T>)
        ensures
            r.items == items,
            r.page == page,
            r.total == total,
    {
        Paged { items, page, total }
    }

    /// How many pages the whole list fills.
    pub fn total_pages(&self) -> (r: u64)
        ensures
            r == pages_for(self.total as int, self.page.size_spec() as int),
    {
        self.page.total_pages(self.total)
    }

    /// Whether a page follows this one.
    pub fn has_next(&self) -> (r: bool)
        ensures
            r == (self.page.number_spec() < pages_for(self.total as int, self.page.size_spec() as int)),
    {
        self.page.has_next(self.total)
    }

    /// Whether a page comes before this one.
    pub fn has_previous(&self) -> (r: bool)
        ensures
            r == (self.page.number_spec() > 1),
    {
        self.page.number() > 1
    }
}

/// The pages of a list hold every item and no page is left empty: there is
/// always at least one page, the pages before the last are full, and the last
/// holds at least one item when there are any.
pub proof fn pages_hold_the_list(total: int, size: int)
    requires
        total >= 0,
        size >= 1,
    ensures
        pages_for(total, size) >= 1,
        total <= pages_for(total, size) * size,
        total > 0 ==> (pages_for(total, size) - 1) * size < total,
{
    if total > 0 {
        let q = (total - 1) / size;
        assert(q * size <= total - 1 < (q + 1) * size) by (nonlinear_arith)
            requires
                q == (total - 1) / size,
                size >= 1,
                total > 0,
        ;
        assert(q >= 0) by (nonlinear_arith)
            requires
                q == (total - 1) / size,
                size >= 1,
                total > 0,
        ;
    }
}

} // verus!
