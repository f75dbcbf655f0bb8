use lona::allocator::{align_up, bump, place_in_pages, Allocator, AllocatorState, Bump, PageProvider};
use std::cell::Cell;

#[test]
fn test_align_up() {
    assert_eq!(align_up(0, 8), 0);
    assert_eq!(align_up(1, 8), 8);
    assert_eq!(align_up(7, 8), 8);
    assert_eq!(align_up(8, 8), 8);
    assert_eq!(align_up(9, 8), 16);
    assert_eq!(align_up(4095, 4096), 4096);
    assert_eq!(align_up(4096, 4096), 4096);
}

/// Hands out pages from a fixed list of addresses.
struct ListProvider {
    pages: Vec<usize>,
    next: Cell<usize>,
}

impl PageProvider for ListProvider {
    fn page_size_spec(&self) -> usize {
        4096
    }

    fn allocate_page(&self) -> Option<usize> {
        let i = self.next.get();
        self.next.set(i + 1);
        self.pages.get(i).copied()
    }

    fn page_size(&self) -> usize {
        4096
    }
}

fn empty_state() -> AllocatorState {
    AllocatorState {
        current_page_end: 0,
        current_page_start: 0,
        next: 0,
        pages_allocated: 0,
        total_allocated: 0,
    }
}

#[test]
fn bump_fits_in_current_page() {
    let s = AllocatorState {
        current_page_end: 0x2000,
        current_page_start: 0x1000,
        next: 0x1001,
        pages_allocated: 1,
        total_allocated: 1,
    };
    match bump(s, 16, 8, 4096) {
        Bump::Fits(s2, addr) => {
            assert_eq!(addr, 0x1008);
            assert_eq!(s2.next, 0x1018);
            assert_eq!(s2.total_allocated, 17);
        },
        _ => panic!("expected the request to fit"),
    }
}

#[test]
fn bump_counts_pages_needed() {
    match bump(empty_state(), 6144, 8, 4096) {
        Bump::NeedPages(n) => assert_eq!(n, 2),
        _ => panic!("expected pages to be needed"),
    }
}

#[test]
fn bump_fails_on_zero_page_size() {
    assert!(matches!(bump(empty_state(), 16, 8, 0), Bump::Fail));
}

#[test]
fn place_in_fresh_pages() {
    let (s, addr) = place_in_pages(empty_state(), 0x4000, 2, 4096, 100, 16);
    assert_eq!(addr, 0x4000);
    assert_eq!(s.current_page_start, 0x4000);
    assert_eq!(s.current_page_end, 0x6000);
    assert_eq!(s.next, 0x4064);
    assert_eq!(s.total_allocated, 100);
}

#[test]
fn place_refuses_what_does_not_fit() {
    let (s, addr) = place_in_pages(empty_state(), 0x4000, 1, 4096, 5000, 16);
    assert_eq!(addr, 0);
    assert_eq!(s.next, 0);
}

#[test]
fn allocator_serves_from_pages() {
    let provider = ListProvider { pages: vec![0x10000, 0x11000], next: Cell::new(0) };
    let mut allocator = Allocator::new(provider);
    let a = allocator.alloc_addr(100, 8);
    let b = allocator.alloc_addr(100, 8);
    assert_eq!(a, 0x10000);
    assert_eq!(b, 0x10068);
    let stats = allocator.stats();
    assert_eq!(stats.pages_allocated, 1);
    assert_eq!(stats.total_allocated, 200);
    assert_eq!(stats.total_reserved(), 4096);
}

#[test]
fn allocator_fails_when_out_of_pages() {
    let provider = ListProvider { pages: vec![0x10000], next: Cell::new(0) };
    let mut allocator = Allocator::new(provider);
    assert_eq!(allocator.alloc_addr(8192, 8), 0);
}
