use atl_thunk::provider::{AllocationError, ExecutableMemoryProvider};

const REGION: u64 = 0x4000;

#[test]
fn new_provider_has_every_block_free() {
    let provider = ExecutableMemoryProvider::new(REGION, 3).unwrap();
    assert_eq!(provider.capacity(), 3);
    assert_eq!(provider.available(), 3);
    assert!(!provider.holds(REGION));
    assert!(!provider.holds(REGION + 32));
    assert!(!provider.holds(REGION + 64));
}

#[test]
fn new_rejects_what_is_no_region() {
    assert!(ExecutableMemoryProvider::new(0, 1).is_none());
    assert!(ExecutableMemoryProvider::new(0, 0).is_none());
    assert!(ExecutableMemoryProvider::new(REGION + 8, 1).is_none());
    assert!(ExecutableMemoryProvider::new(REGION + 31, 0).is_none());
    assert!(ExecutableMemoryProvider::new(u64::MAX - 31, 1).is_none());
    assert!(ExecutableMemoryProvider::new(u64::MAX - 63, 2).is_none());
    assert!(ExecutableMemoryProvider::new(u64::MAX - 63, 1).is_some());
    assert!(ExecutableMemoryProvider::new(u64::MAX - 31, 0).is_some());
    assert!(ExecutableMemoryProvider::new(32, 1).is_some());
}

#[test]
fn allocate_hands_out_the_lowest_free_block() {
    let mut provider = ExecutableMemoryProvider::new(REGION, 3).unwrap();
    let first = provider.allocate().unwrap();
    let second = provider.allocate().unwrap();
    let third = provider.allocate().unwrap();
    assert_eq!(first.address(), REGION);
    assert_eq!(second.address(), REGION + 32);
    assert_eq!(third.address(), REGION + 64);
    assert_eq!(provider.available(), 0);

    provider.release(second);
    assert_eq!(provider.available(), 1);
    provider.release(first);
    assert_eq!(provider.available(), 2);
    assert_eq!(provider.allocate().unwrap().address(), REGION);
    assert_eq!(provider.allocate().unwrap().address(), REGION + 32);
    assert!(provider.holds(third.address()));
}

#[test]
fn allocate_fails_when_every_block_is_in_use() {
    let mut provider = ExecutableMemoryProvider::new(REGION, 2).unwrap();
    let first = provider.allocate().unwrap();
    let _second = provider.allocate().unwrap();
    assert_eq!(provider.allocate().unwrap_err(), AllocationError {});
    assert_eq!(provider.allocate().unwrap_err(), AllocationError {});
    assert_eq!(provider.available(), 0);
    assert!(provider.holds(REGION));
    assert!(provider.holds(REGION + 32));

    provider.release(first);
    assert_eq!(provider.allocate().unwrap().address(), REGION);
}

#[test]
fn release_then_allocate_reuses_the_address() {
    let mut provider = ExecutableMemoryProvider::new(REGION, 4).unwrap();
    let _kept = provider.allocate().unwrap();
    let released = provider.allocate().unwrap();
    let address = released.address();
    provider.release(released);
    assert!(!provider.holds(address));
    assert_eq!(provider.allocate().unwrap().address(), address);
    assert!(provider.holds(address));
}

#[test]
fn holds_knows_block_addresses_only() {
    let mut provider = ExecutableMemoryProvider::new(REGION, 2).unwrap();
    let _first = provider.allocate().unwrap();
    let _second = provider.allocate().unwrap();
    assert!(provider.holds(REGION));
    assert!(provider.holds(REGION + 32));
    assert!(!provider.holds(REGION + 1));
    assert!(!provider.holds(REGION + 16));
    assert!(!provider.holds(REGION - 32));
    assert!(!provider.holds(REGION + 64));
    assert!(!provider.holds(0));
    assert!(!provider.holds(u64::MAX));
}
