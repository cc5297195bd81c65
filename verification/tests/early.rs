use bump_allocator::{AllocError, EarlyAllocator};

const PAGE: usize = 0x1000;

fn region(start: usize, size: usize) -> EarlyAllocator<PAGE> {
    let mut a = EarlyAllocator::<PAGE>::new();
    a.init(start, size);
    a
}

#[test]
fn one_page_region_serves_bytes() {
    let mut a = region(0x1000, 0x1000);
    assert_eq!(a.total_bytes(), 4096);
    assert_eq!(a.total_pages(), 1);
    assert_eq!(a.alloc_bytes(64, 8), Ok(0x1000));
    assert_eq!(a.used_bytes(), 64);
    assert_eq!(a.available_bytes(), 4032);
}

#[test]
fn page_that_would_reach_into_bytes_is_refused() {
    let mut a = region(0x1000, 0x1000);
    assert_eq!(a.alloc_bytes(64, 8), Ok(0x1000));
    assert_eq!(a.alloc_pages(1, 0x1000), Err(AllocError::NoMemory));
    assert_eq!(a.used_bytes(), 64);
    assert_eq!(a.available_bytes(), 4032);
    assert_eq!(a.used_pages(), 0);
}

#[test]
fn two_page_region_serves_two_pages() {
    let mut a = region(0x2000, 0x2000);
    assert_eq!(a.total_pages(), 2);
    assert_eq!(a.alloc_pages(1, 0x1000), Ok(0x3000));
    assert_eq!(a.alloc_pages(1, 0x1000), Ok(0x2000));
    assert_eq!(a.alloc_pages(1, 0x1000), Err(AllocError::NoMemory));
    assert_eq!(a.used_pages(), 2);
    assert_eq!(a.available_pages(), 0);
    assert_eq!(a.available_bytes(), 0);
}

#[test]
fn bytes_are_refused_once_the_gap_is_too_small() {
    let mut a = region(0x1000, 100);
    assert_eq!(a.alloc_bytes(30, 8), Ok(0x1000));
    assert_eq!(a.alloc_bytes(30, 8), Ok(0x1020));
    assert_eq!(a.alloc_bytes(30, 8), Ok(0x1040));
    // 0x105e rounds up to 0x1060, and 0x1060 + 30 lies past 0x1064.
    assert_eq!(a.alloc_bytes(30, 8), Err(AllocError::NoMemory));
    assert_eq!(a.used_bytes(), 0x5e);
    assert_eq!(a.available_bytes(), 6);
    // What still fits is served from where the last grant ended.
    assert_eq!(a.alloc_bytes(6, 1), Ok(0x105e));
    assert_eq!(a.available_bytes(), 0);
    assert_eq!(a.alloc_bytes(1, 1), Err(AllocError::NoMemory));
}

#[test]
fn new_allocator_manages_nothing() {
    let mut a = EarlyAllocator::<PAGE>::new();
    assert_eq!(a.total_bytes(), 0);
    assert_eq!(a.used_bytes(), 0);
    assert_eq!(a.available_bytes(), 0);
    assert_eq!(a.total_pages(), 0);
    assert_eq!(a.used_pages(), 0);
    assert_eq!(a.available_pages(), 0);
    assert_eq!(a.alloc_bytes(1, 1), Err(AllocError::NoMemory));
    assert_eq!(a.alloc_pages(1, PAGE), Err(AllocError::NoMemory));
}

#[test]
fn init_again_forgets_all_grants() {
    let mut a = region(0x1000, 0x3000);
    assert_eq!(a.alloc_bytes(100, 4), Ok(0x1000));
    assert_eq!(a.alloc_pages(1, PAGE), Ok(0x3000));
    a.init(0x8000, 0x2000);
    assert_eq!(a.total_bytes(), 0x2000);
    assert_eq!(a.used_bytes(), 0);
    assert_eq!(a.available_bytes(), 0x2000);
    assert_eq!(a.alloc_bytes(1, 1), Ok(0x8000));
    assert_eq!(a.alloc_pages(1, PAGE), Ok(0x9000));
}

#[test]
fn init_accepts_a_region_up_to_the_last_address() {
    let mut a = EarlyAllocator::<PAGE>::new();
    a.init(usize::MAX - 0x10, 0x10);
    assert_eq!(a.total_bytes(), 0x10);
    assert_eq!(a.alloc_bytes(0x10, 1), Ok(usize::MAX - 0x10));
    assert_eq!(a.available_bytes(), 0);
}

#[test]
fn add_memory_is_always_refused() {
    let mut a = region(0x1000, 0x1000);
    assert_eq!(a.add_memory(0x2000, 0x1000), Err(AllocError::NoMemory));
    assert_eq!(a.add_memory(0, 0), Err(AllocError::NoMemory));
    assert_eq!(a.total_bytes(), 0x1000);
    assert_eq!(a.available_bytes(), 0x1000);
    assert_eq!(a.used_bytes(), 0);
}

#[test]
fn bytes_start_at_the_next_multiple_of_the_alignment() {
    let mut a = region(0x1001, 0x1000);
    assert_eq!(a.alloc_bytes(1, 16), Ok(0x1010));
    assert_eq!(a.alloc_bytes(3, 1), Ok(0x1011));
    assert_eq!(a.alloc_bytes(8, 8), Ok(0x1018));
    assert_eq!(a.alloc_bytes(1, 0x100), Ok(0x1100));
    // Padding counts as used.
    assert_eq!(a.used_bytes(), 0x100);
}

#[test]
fn bytes_may_fill_the_gap_to_the_last_one() {
    let mut a = region(0x1000, 0x40);
    assert_eq!(a.alloc_bytes(0x41, 1), Err(AllocError::NoMemory));
    assert_eq!(a.alloc_bytes(0x40, 1), Ok(0x1000));
    assert_eq!(a.available_bytes(), 0);
    assert_eq!(a.used_bytes(), 0x40);
}

#[test]
fn empty_grant_at_the_end_of_a_full_region() {
    let mut a = region(0x1000, 0x40);
    assert_eq!(a.alloc_bytes(0x40, 1), Ok(0x1000));
    // An empty grant succeeds even there, at the first address past the region.
    assert_eq!(a.alloc_bytes(0, 1), Ok(0x1040));
    assert_eq!(a.alloc_bytes(0, 0x40), Ok(0x1040));
    assert_eq!(a.alloc_bytes(0, 0x80), Err(AllocError::NoMemory));
    assert_eq!(a.used_bytes(), 0x40);
}

#[test]
fn bytes_whose_end_leaves_the_address_space_are_refused() {
    let mut a = region(0x1000, 0x1000);
    assert_eq!(a.alloc_bytes(usize::MAX, 1), Err(AllocError::NoMemory));
    assert_eq!(a.alloc_bytes(usize::MAX - 0xfff, 1), Err(AllocError::NoMemory));
    assert_eq!(a.used_bytes(), 0);
    assert_eq!(a.alloc_bytes(1, 1), Ok(0x1000));
}

#[test]
fn bytes_whose_aligned_start_leaves_the_address_space_are_refused() {
    let mut a = EarlyAllocator::<PAGE>::new();
    a.init(usize::MAX - 0x10, 0x10);
    assert_eq!(a.alloc_bytes(1, 1), Ok(usize::MAX - 0x10));
    assert_eq!(a.alloc_bytes(0, 0x1000), Err(AllocError::NoMemory));
    assert_eq!(a.alloc_bytes(1, 0x20), Err(AllocError::NoMemory));
    assert_eq!(a.used_bytes(), 1);
    assert_eq!(a.alloc_bytes(1, 1), Ok(usize::MAX - 0xf));
}

#[test]
fn pages_end_at_a_multiple_of_the_alignment() {
    let mut a = region(0x1000, 0x2800);
    assert_eq!(a.alloc_pages(1, 0x1000), Ok(0x2000));
    // The half page above the grant is lost to the page area.
    assert_eq!(a.used_bytes(), 0x1800);
    assert_eq!(a.used_pages(), 2);
    assert_eq!(a.available_bytes(), 0x1000);
    assert_eq!(a.available_pages(), 1);
}

#[test]
fn pages_with_byte_alignment_end_at_the_page_cursor() {
    let mut a = region(0x1000, 0x1800);
    assert_eq!(a.alloc_pages(1, 1), Ok(0x1800));
    assert_eq!(a.used_pages(), 1);
    assert_eq!(a.available_bytes(), 0x800);
    assert_eq!(a.available_pages(), 0);
}

#[test]
fn pages_below_a_wide_alignment() {
    let mut a = region(0x2000, 0x2000);
    // Only the top of the grant is aligned, not its first address.
    assert_eq!(a.alloc_pages(1, 0x2000), Ok(0x3000));
    // The next top is 0x2000, and two pages below it lie before the region.
    assert_eq!(a.alloc_pages(2, 0x2000), Err(AllocError::NoMemory));
    assert_eq!(a.alloc_pages(0, 0x2000), Ok(0x2000));
    assert_eq!(a.available_bytes(), 0);
}

#[test]
fn no_pages_is_a_grant_that_may_repeat() {
    let mut a = region(0x2000, 0x2000);
    assert_eq!(a.alloc_pages(0, 0x1000), Ok(0x4000));
    assert_eq!(a.alloc_pages(0, 0x1000), Ok(0x4000));
    assert_eq!(a.used_pages(), 0);
    assert_eq!(a.available_pages(), 2);
}

#[test]
fn pages_whose_size_leaves_the_address_space_are_refused() {
    let mut a = region(0x2000, 0x2000);
    assert_eq!(a.alloc_pages(usize::MAX, 0x1000), Err(AllocError::NoMemory));
    assert_eq!(a.alloc_pages(usize::MAX / PAGE + 1, 0x1000), Err(AllocError::NoMemory));
    assert_eq!(a.alloc_pages(usize::MAX / PAGE, 0x1000), Err(AllocError::NoMemory));
    assert_eq!(a.alloc_pages(5, 0x1000), Err(AllocError::NoMemory));
    assert_eq!(a.available_pages(), 2);
    assert_eq!(a.alloc_pages(2, 0x1000), Ok(0x2000));
}

#[test]
fn pages_whose_aligned_top_is_zero_are_refused() {
    let mut a = region(0x800, 0x400);
    assert_eq!(a.alloc_pages(1, 0x1000), Err(AllocError::NoMemory));
    assert_eq!(a.alloc_pages(0, 0x1000), Err(AllocError::NoMemory));
    assert_eq!(a.available_bytes(), 0x400);
}

#[test]
fn page_addresses_descend() {
    let mut a = region(0x10000, 0x8000);
    let first = a.alloc_pages(2, 0x1000).unwrap();
    let second = a.alloc_pages(1, 0x2000).unwrap();
    let third = a.alloc_pages(3, 0x1000).unwrap();
    assert_eq!(first, 0x16000);
    assert_eq!(second, 0x15000);
    assert_eq!(third, 0x12000);
    assert!(second + PAGE <= first);
    assert!(third + 3 * PAGE <= second);
    for addr in [first, second, third] {
        assert_eq!(addr % PAGE, 0);
    }
}

#[test]
fn bytes_and_pages_never_overlap() {
    let mut a = region(0x10000, 0x4000);
    let mut grants: Vec<(usize, usize)> = Vec::new();
    let requests: [(bool, usize, usize); 8] = [
        (false, 24, 8),
        (true, 1, 0x1000),
        (false, 100, 64),
        (false, 0x1000, 0x1000),
        (true, 1, 0x1000),
        (false, 0x2000, 1),
        (true, 1, 0x1000),
        (false, 7, 2),
    ];
    for (pages, amount, align) in requests {
        let granted = if pages {
            a.alloc_pages(amount, align).map(|base| (base, amount * PAGE))
        } else {
            a.alloc_bytes(amount, align).map(|base| (base, amount))
        };
        if let Ok((base, len)) = granted {
            assert_eq!(base % align, 0);
            assert!(0x10000 <= base && base + len <= 0x14000);
            for &(other, other_len) in &grants {
                assert!(base + len <= other || other + other_len <= base);
            }
            grants.push((base, len));
        }
        assert_eq!(a.available_bytes() + a.used_bytes(), a.total_bytes());
    }
    assert_eq!(
        grants,
        vec![
            (0x10000, 24),
            (0x13000, 0x1000),
            (0x10040, 100),
            (0x11000, 0x1000),
            (0x12000, 0x1000),
        ]
    );
}

#[test]
fn refusal_leaves_every_count_as_it_was() {
    let mut a = region(0x1000, 0x3000);
    assert_eq!(a.alloc_bytes(0x10, 0x10), Ok(0x1000));
    assert_eq!(a.alloc_pages(1, 0x1000), Ok(0x3000));
    let before = (a.used_bytes(), a.available_bytes(), a.used_pages(), a.available_pages());
    assert_eq!(before, (0x1010, 0x1ff0, 1, 1));
    assert_eq!(a.alloc_bytes(0x2000, 1), Err(AllocError::NoMemory));
    assert_eq!(a.alloc_pages(2, 0x1000), Err(AllocError::NoMemory));
    let after = (a.used_bytes(), a.available_bytes(), a.used_pages(), a.available_pages());
    assert_eq!(after, before);
    // The cursors have not moved either.
    assert_eq!(a.alloc_bytes(1, 1), Ok(0x1010));
    assert_eq!(a.alloc_pages(1, 0x1000), Ok(0x2000));
}

#[test]
fn nothing_is_ever_taken_back() {
    let mut a = region(0x1000, 0x3000);
    let bytes = a.alloc_bytes(0x20, 8).unwrap();
    let pages = a.alloc_pages(1, 0x1000).unwrap();
    let before = (a.used_bytes(), a.available_bytes(), a.used_pages(), a.available_pages());
    a.dealloc_pages(pages, 1);
    a.dealloc(bytes, 0x20);
    a.dealloc(bytes, 0x20);
    a.dealloc_pages(0, 77);
    a.dealloc(0xdead_0000, 1);
    let after = (a.used_bytes(), a.available_bytes(), a.used_pages(), a.available_pages());
    assert_eq!(after, before);
    assert_eq!(a.total_bytes(), 0x3000);
    assert_eq!(a.alloc_bytes(1, 1), Ok(0x1020));
    assert_eq!(a.alloc_pages(1, 0x1000), Ok(0x2000));
}

#[test]
fn page_counts_round_as_stated() {
    let mut a = EarlyAllocator::<PAGE>::new();
    a.init(0x1000, 0x2fff);
    // A region one byte short of three pages holds two whole pages.
    assert_eq!(a.total_pages(), 2);
    assert_eq!(a.available_pages(), 2);
    assert_eq!(a.used_pages(), 0);
    assert_eq!(a.alloc_pages(1, 1), Ok(0x2fff));
    assert_eq!(a.used_pages(), 1);
    assert_eq!(a.alloc_pages(0, 0x1000), Ok(0x2000));
    // 0x1fff bytes of page area touch two pages.
    assert_eq!(a.used_pages(), 2);
    assert_eq!(a.available_pages(), 1);
    assert_eq!(a.alloc_bytes(1, 1), Ok(0x1000));
    assert_eq!(a.available_pages(), 0);
    assert_eq!(a.total_pages(), 2);
}

#[test]
fn page_size_is_a_parameter_of_the_type() {
    let mut a = EarlyAllocator::<0x200>::new();
    a.init(0x1000, 0x1000);
    assert_eq!(a.total_pages(), 8);
    assert_eq!(a.alloc_pages(3, 0x200), Ok(0x1a00));
    assert_eq!(a.used_pages(), 3);
    assert_eq!(a.available_pages(), 5);
    let mut one = EarlyAllocator::<1>::new();
    one.init(0x1000, 5);
    assert_eq!(one.total_pages(), 5);
    assert_eq!(one.alloc_pages(2, 1), Ok(0x1003));
    assert_eq!(one.used_pages(), 2);
}

#[test]
fn count_follows_the_byte_grants() {
    let mut a = region(0x1000, 0x100);
    assert_eq!(a.count(), 0);
    assert_eq!(a.alloc_bytes(0x10, 1), Ok(0x1000));
    assert_eq!(a.alloc_bytes(0, 1), Ok(0x1010));
    assert_eq!(a.count(), 2);
    // A refusal, a grant of pages and a release are not counted.
    assert_eq!(a.alloc_bytes(0x1000, 1), Err(AllocError::NoMemory));
    assert_eq!(a.alloc_pages(0, 1), Ok(0x1100));
    a.dealloc(0x1000, 0x10);
    assert_eq!(a.count(), 2);
    a.init(0x1000, 0x100);
    assert_eq!(a.count(), 0);
}

#[test]
fn error_can_be_copied_and_printed() {
    let e = AllocError::NoMemory;
    let copy = e;
    assert_eq!(e, copy);
    assert_eq!(format!("{:?}", e), "NoMemory");
}
