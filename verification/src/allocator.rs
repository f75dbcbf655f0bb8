//! A bump allocator over pages handed out by a page provider.
//!
//! Allocations are carved from the current run of pages, moving a cursor
//! forward; a request that does not fit asks the provider for enough new
//! pages and continues there. Memory is never given back.
//!
//! Addresses are plain integers here, 0 standing for "no memory"; turning
//! them into pointers is the caller's business.

use vstd::prelude::*;

verus! {

/// A source of fresh pages.
///
/// Implementations hand out each page once, at a nonzero address aligned
/// to the page size, and always report the same page size.
pub trait PageProvider {
    /// The page size this provider reports.
    spec fn page_size_spec(&self) -> usize;

    /// Whether this provider may run out of pages. Only a provider that
    /// may run out answers `None`; unless a provider says otherwise, it
    /// may.
    open spec fn may_run_out(&self) -> bool {
        true
    }

    /// The address of a newly mapped page, or `None` when no page is left.
    fn allocate_page(&self) -> (r: Option<usize>)
        ensures
            r matches Some(p) ==> p != 0 && (self.page_size_spec() > 0 ==> p % self.page_size_spec() == 0),
            r is None ==> self.may_run_out(),
    ;

    /// The size of a page in bytes.
    fn page_size(&self) -> (r: usize)
        ensures
            r == self.page_size_spec(),
    ;
}

impl<P: PageProvider> PageProvider for &P {
    open spec fn page_size_spec(&self) -> usize {
        (**self).page_size_spec()
    }

    open spec fn may_run_out(&self) -> bool {
        (**self).may_run_out()
    }

    fn allocate_page(&self) -> (r: Option<usize>) {
        (**self).allocate_page()
    }

    fn page_size(&self) -> (r: usize) {
        (**self).page_size()
    }
}

/// The allocator's bookkeeping.
#[derive(Debug, Clone, Copy, PartialEq, Eq, Structural)]
pub struct AllocatorState {
    /// One past the last byte of the current run of pages.
    pub current_page_end: usize,
    /// The first byte of the current run of pages.
    pub current_page_start: usize,
    /// Where the next allocation may start.
    pub next: usize,
    /// Pages obtained from the provider so far.
    pub pages_allocated: usize,
    /// Bytes handed out so far (saturating).
    pub total_allocated: usize,
}

/// `a` is a power of two.
pub open spec fn is_pow2(a: usize) -> bool {
    a != 0 && a & ((a - 1) as usize) == 0
}

/// The mask of the bits below a power-of-two alignment: `align - 1`,
/// wrapping to all ones for 0.
pub open spec fn align_mask(align: usize) -> usize {
    if align == 0 {
        usize::MAX
    } else {
        (align - 1) as usize
    }
}

/// `a + b` wrapping around at `usize::MAX + 1`.
pub open spec fn wrap_add(a: usize, b: usize) -> usize {
    if a + b > usize::MAX {
        (a + b - usize::MAX - 1) as usize
    } else {
        (a + b) as usize
    }
}

/// `addr` rounded up to a multiple of `align` by masking, with wrapping
/// arithmetic.
pub open spec fn align_up_spec(addr: usize, align: usize) -> usize {
    wrap_add(addr, align_mask(align)) & !align_mask(align)
}

/// `a + b`, or `usize::MAX` if that does not fit.
pub open spec fn sat_add(a: usize, b: int) -> usize {
    if a + b > usize::MAX {
        usize::MAX
    } else {
        (a + b) as usize
    }
}

proof fn lemma_mask_clear(x: usize, m: usize)
    by (bit_vector)
    ensures
        (x & !m) & m == 0,
{
}

proof fn lemma_round_up(addr: usize, m: usize, x: usize)
    by (bit_vector)
    requires
        x == addr + m,
        m & ((m + 1) as usize) == 0,
    ensures
        addr <= x & !m,
        x & !m <= x,
{
}

/// `addr` rounded up to a multiple of `align` (a power of two), computed
/// with wrapping arithmetic as a mask. The result's bits below the
/// alignment are always clear.
pub fn align_up(addr: usize, align: usize) -> (r: usize)
    ensures
        r == align_up_spec(addr, align),
        r & align_mask(align) == 0,
        is_pow2(align) && addr + align - 1 <= usize::MAX ==> addr <= r <= addr + align - 1,
{
    let mask = align.wrapping_sub(1);
    let x = addr.wrapping_add(mask);
    let r = x & !mask;
    proof {
        lemma_mask_clear(x, mask);
        if is_pow2(align) && addr + align - 1 <= usize::MAX {
            assert(mask & ((mask + 1) as usize) == 0) by (bit_vector)
                requires
                    mask == (align - 1) as usize,
                    align != 0,
                    align & ((align - 1) as usize) == 0,
            ;
            lemma_round_up(addr, mask, x);
        }
    }
    r
}

/// A rounded-up address has its bits below the alignment clear.
proof fn lemma_align_up_clear(addr: usize, align: usize)
    ensures
        align_up_spec(addr, align) & align_mask(align) == 0,
{
    lemma_mask_clear(wrap_add(addr, align_mask(align)), align_mask(align));
}

/// `a * b`, or `usize::MAX` if that does not fit.
pub open spec fn sat_mul(a: usize, b: usize) -> usize {
    if a * b > usize::MAX {
        usize::MAX
    } else {
        (a * b) as usize
    }
}

/// `a * b`, saturating at `usize::MAX`.
fn saturating_mul(a: usize, b: usize) -> (r: usize)
    ensures
        r == sat_mul(a, b),
{
    match a.checked_mul(b) {
        Some(x) => x,
        None => usize::MAX,
    }
}

/// What a request can be served from.
pub enum Bump {
    /// It cannot be served.
    Fail,
    /// It fits in the current pages: the new state and the address.
    Fits(AllocatorState, usize),
    /// It needs this many fresh pages.
    NeedPages(usize),
}

/// The first step of serving `size` bytes aligned to `align` with pages of
/// `page_size` bytes: place them after the cursor if they fit before the
/// end of the current pages, else count the pages a fresh run needs.
pub fn bump(s: AllocatorState, size: usize, align: usize, page_size: usize) -> (r: Bump)
    ensures
        ({
            let start = align_up_spec(s.next, align);
            match r {
                Bump::Fail => start + size > usize::MAX || (start + size > s.current_page_end && (page_size == 0
                    || (sat_add(size, page_size - 1) as int) / (page_size as int) == 0)),
                Bump::Fits(s2, addr) => {
                    &&& start + size <= s.current_page_end
                    &&& addr == start
                    &&& s2 == AllocatorState { next: (start + size) as usize, total_allocated: sat_add(s.total_allocated, size as int), ..s }
                },
                Bump::NeedPages(n) => {
                    &&& start + size <= usize::MAX
                    &&& start + size > s.current_page_end
                    &&& page_size > 0
                    &&& n == (sat_add(size, page_size - 1) as int) / (page_size as int)
                    &&& n > 0
                },
            }
        }),
{
    let start = align_up(s.next, align);
    let end = match start.checked_add(size) {
        Some(e) => e,
        None => return Bump::Fail,
    };
    if end <= s.current_page_end {
        let s2 = AllocatorState { next: end, total_allocated: s.total_allocated.saturating_add(size), ..s };
        return Bump::Fits(s2, start);
    }
    if page_size == 0 {
        return Bump::Fail;
    }
    let pages_needed = size.saturating_add(page_size - 1) / page_size;
    if pages_needed == 0 {
        return Bump::Fail;
    }
    Bump::NeedPages(pages_needed)
}

/// Serving `size` bytes aligned to `align` from a fresh run of `pages`
/// pages of `page_size` bytes at `first_page` takes state `s` to `t` and
/// gives `addr`: the run becomes current and the request is placed at its
/// start, or `addr` is 0 (the run still current) when it does not fit.
pub open spec fn placed(
    s: AllocatorState,
    first_page: usize,
    pages: usize,
    page_size: usize,
    size: usize,
    align: usize,
    t: AllocatorState,
    addr: usize,
) -> bool {
    let end = sat_add(first_page, sat_mul(pages, page_size) as int);
    let start = align_up_spec(first_page, align);
    let alloc_end = sat_add(start, size as int);
    &&& t.current_page_start == first_page
    &&& t.current_page_end == end
    &&& t.pages_allocated == s.pages_allocated
    &&& alloc_end > end ==> addr == 0 && t.next == s.next && t.total_allocated == s.total_allocated
    &&& alloc_end <= end ==> addr == start && t.next == alloc_end && t.total_allocated == sat_add(
        s.total_allocated,
        size as int,
    )
}

/// The number of pages of `page_size` bytes that `size` bytes need.
pub open spec fn pages_for(size: usize, page_size: usize) -> int {
    (sat_add(size, page_size - 1) as int) / (page_size as int)
}

/// `s` with `k` more pages counted as obtained (saturating).
pub open spec fn with_pages(s: AllocatorState, k: int) -> AllocatorState {
    AllocatorState { pages_allocated: sat_add(s.pages_allocated, k), ..s }
}

/// What serving `size` bytes aligned to `align` may do to state `s`, with
/// pages of `page_size` bytes: the new state `t` and the address `addr`
/// (0 for none). A request that fits after the cursor is placed there. One
/// that does not, and cannot be served from fresh pages, gives 0 and
/// changes nothing. Otherwise fresh pages are asked for one by one: if the
/// provider runs out after `k` of them, 0 is given and the `k` pages are
/// counted; if it hands out all of them, the request is placed in the run
/// that starts at the first.
pub open spec fn served(
    s: AllocatorState,
    size: usize,
    align: usize,
    page_size: usize,
    t: AllocatorState,
    addr: usize,
) -> bool {
    let start = align_up_spec(s.next, align);
    if start + size > usize::MAX {
        addr == 0 && t == s
    } else if start + size <= s.current_page_end {
        &&& addr == start
        &&& t == AllocatorState {
            next: (start + size) as usize,
            total_allocated: sat_add(s.total_allocated, size as int),
            ..s
        }
    } else if page_size == 0 || pages_for(size, page_size) == 0 {
        addr == 0 && t == s
    } else {
        let n = pages_for(size, page_size);
        ||| (addr == 0 && exists|k: int| 0 <= k < n && t == #[trigger] with_pages(s, k))
        ||| exists|first: usize|
            first != 0 && #[trigger] placed(with_pages(s, n), first, n as usize, page_size, size, align, t, addr)
    }
}

/// A request for `size` bytes aligned to `align` cannot be placed after
/// the cursor of `s` and needs fresh pages of `page_size` bytes.
pub open spec fn needs_fresh_pages(s: AllocatorState, size: usize, align: usize, page_size: usize) -> bool {
    let start = align_up_spec(s.next, align);
    &&& start + size <= usize::MAX
    &&& start + size > s.current_page_end
    &&& page_size != 0
    &&& pages_for(size, page_size) != 0
}

/// All the fresh pages the request needs were had, the first at a nonzero
/// address, and the request was placed in the run they make.
pub open spec fn fresh_pages_served(
    s: AllocatorState,
    size: usize,
    align: usize,
    page_size: usize,
    t: AllocatorState,
    addr: usize,
) -> bool {
    let n = pages_for(size, page_size);
    exists|first: usize|
        first != 0 && #[trigger] placed(with_pages(s, n), first, n as usize, page_size, size, align, t, addr)
}

/// A block handed out ends where the cursor now stands, inside the current
/// run of pages; one placed in the run that was current starts at or
/// after the old cursor (for a power-of-two alignment that does not wrap).
/// So the blocks served from one run follow each other without overlap.
pub proof fn law_blocks_follow_cursor(
    s: AllocatorState,
    size: usize,
    align: usize,
    page_size: usize,
    t: AllocatorState,
    addr: usize,
)
    requires
        served(s, size, align, page_size, t, addr),
        addr != 0,
    ensures
        t.next == sat_add(addr, size as int),
        t.next <= t.current_page_end,
        align_up_spec(s.next, align) + size <= s.current_page_end ==> addr == align_up_spec(s.next, align)
            && t.current_page_end == s.current_page_end,
        align_up_spec(s.next, align) + size <= s.current_page_end && is_pow2(align) && s.next + align - 1
            <= usize::MAX ==> s.next <= addr,
{
    let start = align_up_spec(s.next, align);
    if start + size <= s.current_page_end {
        if is_pow2(align) && s.next + align - 1 <= usize::MAX {
            align_up_facts(s.next, align);
        }
    } else if start + size <= usize::MAX && page_size > 0 && pages_for(size, page_size) != 0 {
        let n = pages_for(size, page_size);
        if !(addr == 0) {
            let first = choose|first: usize|
                first != 0 && #[trigger] placed(with_pages(s, n), first, n as usize, page_size, size, align, t, addr);
        }
    }
}

/// What rounding up gives for a power-of-two alignment that does not wrap.
proof fn align_up_facts(addr: usize, align: usize)
    requires
        is_pow2(align),
        addr + align - 1 <= usize::MAX,
    ensures
        addr <= align_up_spec(addr, align),
{
    let mask = (align - 1) as usize;
    assert(mask & ((mask + 1) as usize) == 0) by (bit_vector)
        requires
            mask == (align - 1) as usize,
            align != 0,
            align & ((align - 1) as usize) == 0,
    ;
    lemma_round_up(addr, mask, (addr + mask) as usize);
}

/// The last step of serving `size` bytes aligned to `align` from a fresh
/// run of `pages` pages of `page_size` bytes starting at `first_page`:
/// the run becomes current and the request is placed at its start, or 0
/// is returned (with the run still current) when it does not fit.
pub fn place_in_pages(
    s: AllocatorState,
    first_page: usize,
    pages: usize,
    page_size: usize,
    size: usize,
    align: usize,
) -> (r: (AllocatorState, usize))
    ensures
        placed(s, first_page, pages, page_size, size, align, r.0, r.1),
{
    let total = saturating_mul(pages, page_size);
    let end = first_page.saturating_add(total);
    let mut s2 = AllocatorState { current_page_start: first_page, current_page_end: end, ..s };
    let start = align_up(first_page, align);
    let alloc_end = start.saturating_add(size);
    if alloc_end > end {
        return (s2, 0);
    }
    s2.next = alloc_end;
    s2.total_allocated = s.total_allocated.saturating_add(size);
    (s2, start)
}

/// A bump allocator over the pages of `P`.
pub struct Allocator<P: PageProvider> {
    provider: P,
    state: AllocatorState,
}

/// What the allocator reports of its use.
#[derive(Debug, Clone, Copy)]
#[non_exhaustive]
pub struct Stats {
    /// The provider's page size.
    pub page_size: usize,
    /// Pages obtained from the provider.
    pub pages_allocated: usize,
    /// Bytes handed out (saturating).
    pub total_allocated: usize,
}

impl Stats {
    /// The bytes of all pages obtained (saturating).
    pub fn total_reserved(&self) -> (r: usize)
        ensures
            r == sat_mul(self.pages_allocated, self.page_size),
    {
        saturating_mul(self.pages_allocated, self.page_size)
    }
}

impl<P: PageProvider> Allocator<P> {
    /// The page provider.
    pub closed spec fn source(self) -> P {
        self.provider
    }

    /// The bookkeeping.
    pub closed spec fn bookkeeping(self) -> AllocatorState {
        self.state
    }

    /// An allocator that has obtained no page yet.
    pub fn new(provider: P) -> (r: Self)
        ensures
            r.source() == provider,
            r.bookkeeping() == (AllocatorState {
                current_page_end: 0,
                current_page_start: 0,
                next: 0,
                pages_allocated: 0,
                total_allocated: 0,
            }),
    {
        let s = AllocatorState {
            current_page_end: 0,
            current_page_start: 0,
            next: 0,
            pages_allocated: 0,
            total_allocated: 0,
        };
        Allocator { provider, state: s }
    }

    /// The address of `size` fresh bytes aligned to `align`, or 0 when
    /// they cannot be had. Aligned addresses are promised for power-of-two
    /// alignments.
    pub fn alloc_addr(&mut self, size: usize, align: usize) -> (r: usize)
        ensures
            final(self).source() == old(self).source(),
            served(
                old(self).bookkeeping(),
                size,
                align,
                old(self).source().page_size_spec(),
                final(self).bookkeeping(),
                r,
            ),
            r != 0 ==> r & align_mask(align) == 0,
            !old(self).source().may_run_out() && needs_fresh_pages(
                old(self).bookkeeping(),
                size,
                align,
                old(self).source().page_size_spec(),
            ) ==> fresh_pages_served(
                old(self).bookkeeping(),
                size,
                align,
                old(self).source().page_size_spec(),
                final(self).bookkeeping(),
                r,
            ),
    {
        let s = self.state;
        let page_size = self.provider.page_size();
        match bump(s, size, align, page_size) {
            Bump::Fail => 0,
            Bump::Fits(s2, addr) => {
                self.state = s2;
                proof {
                    lemma_align_up_clear(s.next, align);
                }
                addr
            },
            Bump::NeedPages(pages_needed) => {
                let first = match self.provider.allocate_page() {
                    Some(p) => p,
                    None => {
                        proof {
                            assert(s == with_pages(s, 0));
                        }
                        return 0;
                    },
                };
                let mut s2 = s;
                s2.pages_allocated = s2.pages_allocated.saturating_add(1);
                self.state = s2;
                let mut i: usize = 1;
                #[verifier::loop_isolation(false)]
                while i < pages_needed
                    invariant
                        1 <= i <= pages_needed,
                        s2 == with_pages(s, i as int),
                        self.state == s2,
                        self.provider == old(self).provider,
                    decreases pages_needed - i,
                {
                    if self.provider.allocate_page().is_none() {
                        proof {
                            assert(self.state == with_pages(s, i as int));
                        }
                        return 0;
                    }
                    s2.pages_allocated = s2.pages_allocated.saturating_add(1);
                    self.state = s2;
                    i = i + 1;
                }
                let (s3, addr) = place_in_pages(s2, first, pages_needed, page_size, size, align);
                self.state = s3;
                proof {
                    lemma_align_up_clear(first, align);
                    let n = pages_for(size, page_size);
                    assert(n == pages_needed as int);
                    assert(s2 == with_pages(s, n));
                    assert(first != 0);
                    assert(placed(with_pages(s, n), first, n as usize, page_size, size, align, s3, addr));
                }
                addr
            },
        }
    }

    /// The page size and what has been obtained and handed out so far.
    pub fn stats(&self) -> (r: Stats)
        ensures
            r.page_size == self.source().page_size_spec(),
            r.pages_allocated == self.bookkeeping().pages_allocated,
            r.total_allocated == self.bookkeeping().total_allocated,
    {
        Stats {
            page_size: self.provider.page_size(),
            pages_allocated: self.state.pages_allocated,
            total_allocated: self.state.total_allocated,
        }
    }
}

} // verus!
