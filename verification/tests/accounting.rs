use bump_allocator::AllocError;
use bump_allocator::EarlyAllocator;

const PAGE: usize = 4096;

#[test]
fn new_has_no_region() {
    let a: EarlyAllocator<PAGE> = EarlyAllocator::new();
    assert_eq!(a.total_bytes(), 0);
    assert_eq!(a.used_bytes(), 0);
    assert_eq!(a.available_bytes(), 0);
    assert_eq!(a.total_pages(), 0);
    assert_eq!(a.used_pages(), 0);
    assert_eq!(a.available_pages(), 0);
}

#[test]
fn init_makes_everything_available() {
    let mut a: EarlyAllocator<PAGE> = EarlyAllocator::new();
    let size: usize = 3 * PAGE + 100;
    a.init(PAGE, size);
    assert_eq!(a.used_bytes(), 0);
    assert_eq!(a.available_bytes(), size);
    assert_eq!(a.total_bytes(), size);
    assert_eq!(a.used_pages(), 0);
    assert_eq!(a.total_pages(), 3);
}

#[test]
fn init_of_an_empty_region() {
    let mut a: EarlyAllocator<PAGE> = EarlyAllocator::new();
    a.init(0x1000, 0);
    assert_eq!(a.total_bytes(), 0);
    assert_eq!(a.available_bytes(), 0);
    assert_eq!(a.allocate(0, 1), Ok(0x1000));
    assert_eq!(a.allocate(1, 1), Err(AllocError::NoMemory));
    assert_eq!(a.alloc_pages(0, PAGE), Ok(0x1000));
    assert_eq!(a.alloc_pages(1, PAGE), Err(AllocError::NoMemory));
}

#[test]
fn init_up_to_the_last_address() {
    let mut a: EarlyAllocator<PAGE> = EarlyAllocator::new();
    a.init(usize::MAX - 100, 100);
    assert_eq!(a.total_bytes(), 100);
    assert_eq!(a.available_bytes(), 100);
}

#[test]
fn init_again_forgets_allocations() {
    let mut a: EarlyAllocator<PAGE> = EarlyAllocator::new();
    a.init(0, 2 * PAGE);
    assert_eq!(a.allocate(100, 4), Ok(0));
    assert_eq!(a.alloc_pages(1, PAGE), Ok(PAGE));
    a.init(PAGE, PAGE);
    assert_eq!(a.used_bytes(), 0);
    assert_eq!(a.used_pages(), 0);
    assert_eq!(a.total_bytes(), PAGE);
    assert_eq!(a.available_bytes(), PAGE);
    assert_eq!(a.allocate(1, 1), Ok(PAGE));
}

#[test]
fn add_memory_is_unsupported() {
    let mut a: EarlyAllocator<PAGE> = EarlyAllocator::new();
    assert_eq!(a.add_memory(0, PAGE), Err(AllocError::Unsupported));
    a.init(0, 2 * PAGE);
    assert_eq!(a.allocate(10, 2), Ok(0));
    assert_eq!(a.add_memory(2 * PAGE, PAGE), Err(AllocError::Unsupported));
    assert_eq!(a.add_memory(0, 0), Err(AllocError::Unsupported));
    assert_eq!(a.total_bytes(), 2 * PAGE);
    assert_eq!(a.used_bytes(), 10);
    assert_eq!(a.available_bytes(), 2 * PAGE - 10);
    assert_eq!(a.total_pages(), 2);
    assert_eq!(a.used_pages(), 0);
}

#[test]
fn the_three_errors_differ() {
    assert_ne!(AllocError::Unsupported, AllocError::NoMemory);
    assert_ne!(AllocError::Unsupported, AllocError::InvalidParam);
    assert_ne!(AllocError::NoMemory, AllocError::InvalidParam);
}

#[test]
fn available_pages_counts_from_address_zero() {
    let mut a: EarlyAllocator<PAGE> = EarlyAllocator::new();
    a.init(2 * PAGE, 2 * PAGE);
    assert_eq!(a.total_pages(), 2);
    assert_eq!(a.available_pages(), 4);
    assert_eq!(a.alloc_pages(1, PAGE), Ok(3 * PAGE));
    assert_eq!(a.available_pages(), 3);
    assert_eq!(a.used_pages(), 1);
}

#[test]
fn available_pages_ignores_byte_allocations() {
    let mut a: EarlyAllocator<PAGE> = EarlyAllocator::new();
    a.init(0, 4 * PAGE);
    assert_eq!(a.available_pages(), 4);
    assert_eq!(a.allocate(PAGE + 1, 1), Ok(0));
    assert_eq!(a.available_pages(), 4);
    assert_eq!(a.alloc_pages(2, PAGE), Ok(2 * PAGE));
    assert_eq!(a.available_pages(), 2);
    assert_eq!(a.alloc_pages(1, PAGE), Err(AllocError::NoMemory));
}

#[test]
fn page_counts_round_down() {
    let mut a: EarlyAllocator<PAGE> = EarlyAllocator::new();
    a.init(100, 2 * PAGE - 1);
    assert_eq!(a.total_pages(), 1);
    assert_eq!(a.available_pages(), 2);
    assert_eq!(a.used_pages(), 0);
    a.init(0, PAGE - 1);
    assert_eq!(a.total_pages(), 0);
    assert_eq!(a.available_pages(), 0);
}

#[test]
fn areas_add_up_to_the_region() {
    let mut a: EarlyAllocator<PAGE> = EarlyAllocator::new();
    a.init(PAGE, 8 * PAGE);
    assert_eq!(a.allocate(33, 16), Ok(PAGE));
    assert_eq!(a.allocate(7, 64), Ok(PAGE + 64));
    assert_eq!(a.alloc_pages(3, 2 * PAGE), Ok(6 * PAGE));
    assert_eq!(a.used_bytes(), 71);
    assert_eq!(a.used_pages(), 3);
    assert_eq!(a.available_bytes(), 5 * PAGE - 71);
    assert_eq!(
        a.used_bytes() + a.available_bytes() + a.used_pages() * PAGE,
        a.total_bytes()
    );
}

#[test]
fn dealloc_changes_nothing() {
    let mut a: EarlyAllocator<PAGE> = EarlyAllocator::new();
    a.init(0, 4 * PAGE);
    assert_eq!(a.allocate(24, 8), Ok(0));
    assert_eq!(a.alloc_pages(1, PAGE), Ok(3 * PAGE));
    let before: [usize; 6] = [
        a.total_bytes(),
        a.used_bytes(),
        a.available_bytes(),
        a.total_pages(),
        a.used_pages(),
        a.available_pages(),
    ];
    a.dealloc(0, 24, 8);
    a.dealloc(0, 24, 8);
    a.dealloc(12345, 1, 1);
    let after: [usize; 6] = [
        a.total_bytes(),
        a.used_bytes(),
        a.available_bytes(),
        a.total_pages(),
        a.used_pages(),
        a.available_pages(),
    ];
    assert_eq!(before, after);
    assert_eq!(a.allocate(8, 8), Ok(24));
}

#[test]
fn dealloc_pages_changes_nothing() {
    let mut a: EarlyAllocator<PAGE> = EarlyAllocator::new();
    a.init(0, 4 * PAGE);
    assert_eq!(a.allocate(24, 8), Ok(0));
    assert_eq!(a.alloc_pages(1, PAGE), Ok(3 * PAGE));
    let before: [usize; 6] = [
        a.total_bytes(),
        a.used_bytes(),
        a.available_bytes(),
        a.total_pages(),
        a.used_pages(),
        a.available_pages(),
    ];
    a.dealloc_pages(3 * PAGE, 1);
    a.dealloc_pages(3 * PAGE, 1);
    a.dealloc_pages(0, 100);
    let after: [usize; 6] = [
        a.total_bytes(),
        a.used_bytes(),
        a.available_bytes(),
        a.total_pages(),
        a.used_pages(),
        a.available_pages(),
    ];
    assert_eq!(before, after);
    assert_eq!(a.alloc_pages(1, PAGE), Ok(2 * PAGE));
}
