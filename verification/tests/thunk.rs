use atl_thunk::machine::{execute, Outcome, Registers};
use atl_thunk::{AllocationError, AtlThunk, Binding, EntryPointer, ExecutableMemoryProvider};

const REGION: u64 = 0x7f00_0000_0000;
const STACK: u64 = 0x7ffd_0000_1000;

type Callback = fn(u64, u32, u64, u64) -> u64;

fn callback_1(first_parameter: u64, message: u32, w_param: u64, l_param: u64) -> u64 {
    assert_eq!(first_parameter, 2);
    assert_eq!(message, 3);
    assert_eq!(w_param, 5);
    assert_eq!(l_param, 7);

    11
}

fn callback_2(first_parameter: u64, message: u32, w_param: u64, l_param: u64) -> u64 {
    assert_eq!(first_parameter, 13);
    assert_eq!(message, 17);
    assert_eq!(w_param, 19);
    assert_eq!(l_param, 23);

    29
}

fn address_of(callback: Callback) -> u64 {
    callback as usize as u64
}

/// Enters the thunk as a caller of its entry point would, and calls the
/// callback that the jump arrives at with the registers it arrives with.
fn call(thunk: &AtlThunk, window: u64, message: u32, w_param: u64, l_param: u64) -> u64 {
    let entry = thunk.as_window_procedure().unwrap();
    let registers = Registers {
        rip: entry.address,
        rsp: STACK,
        rcx: window,
        rdx: u64::from(message),
        r8: w_param,
        r9: l_param,
    };
    match execute(thunk.block(), registers) {
        Outcome::Transfer(arrived) => {
            assert_eq!(arrived.rsp, STACK);
            let callbacks: [Callback; 2] = [callback_1, callback_2];
            for callback in callbacks {
                if address_of(callback) == arrived.rip {
                    return callback(arrived.rcx, arrived.rdx as u32, arrived.r8, arrived.r9);
                }
            }
            panic!("the thunk jumped to {:#x}", arrived.rip)
        }
        Outcome::Fault => panic!("the thunk faulted"),
    }
}

#[test]
fn test_thunk_try_new_with() {
    let mut provider = ExecutableMemoryProvider::new(REGION, 4).unwrap();
    let mut thunk = AtlThunk::try_new_with(&mut provider, address_of(callback_1), 2).unwrap();

    assert_eq!(call(&thunk, 0, 3, 5, 7), 11);

    thunk.set_data(address_of(callback_2), 13);

    assert_eq!(call(&thunk, 0, 17, 19, 23), 29);
}

#[test]
fn create_binds_target_and_constant() {
    let mut provider = ExecutableMemoryProvider::new(REGION, 1).unwrap();
    let thunk = AtlThunk::try_new_with(&mut provider, 0x1122_3344_5566_7788, 0xfedc_ba98_7654_3210)
        .unwrap();
    assert_eq!(
        thunk.binding(),
        Some(Binding { target: 0x1122_3344_5566_7788, constant: 0xfedc_ba98_7654_3210 })
    );
    assert_eq!(thunk.as_window_procedure(), Some(EntryPointer { address: REGION }));
}

#[test]
fn invocation_delivers_constant_and_keeps_arguments() {
    let mut provider = ExecutableMemoryProvider::new(REGION, 1).unwrap();
    let thunk = AtlThunk::try_new_with(&mut provider, 0x4010_2030, u64::MAX).unwrap();
    let entry = Registers { rip: REGION, rsp: STACK, rcx: 1, rdx: 2, r8: 3, r9: 4 };
    assert_eq!(
        execute(thunk.block(), entry),
        Outcome::Transfer(Registers {
            rip: 0x4010_2030,
            rsp: STACK,
            rcx: u64::MAX,
            rdx: 2,
            r8: 3,
            r9: 4
        })
    );
}

#[test]
fn rebind_replaces_both_fields() {
    let mut provider = ExecutableMemoryProvider::new(REGION, 1).unwrap();
    let mut thunk = AtlThunk::try_new_with(&mut provider, 0xaaaa_aaaa_aaaa_aaaa, 0xbbbb).unwrap();
    let before = thunk.as_window_procedure();
    thunk.set_data(0x1111, 0x2222_2222_2222_2222);
    assert_eq!(thunk.binding(), Some(Binding { target: 0x1111, constant: 0x2222_2222_2222_2222 }));
    assert_eq!(thunk.as_window_procedure(), before);
    let entry = Registers { rip: REGION, rsp: STACK, rcx: 9, rdx: 8, r8: 7, r9: 6 };
    assert_eq!(
        execute(thunk.block(), entry),
        Outcome::Transfer(Registers { rip: 0x1111, rcx: 0x2222_2222_2222_2222, ..entry })
    );
}

#[test]
fn rebind_to_the_same_binding_changes_nothing() {
    let mut provider = ExecutableMemoryProvider::new(REGION, 1).unwrap();
    let mut thunk = AtlThunk::try_new_with(&mut provider, 0x1000, 7).unwrap();
    let before = thunk.block().code().clone();
    thunk.set_data(0x1000, 7);
    assert_eq!(thunk.block().code(), &before);
}

#[test]
fn handles_do_not_share_a_block() {
    let mut provider = ExecutableMemoryProvider::new(REGION, 2).unwrap();
    let mut first = AtlThunk::try_new_with(&mut provider, 0x1000, 1).unwrap();
    let second = AtlThunk::try_new_with(&mut provider, 0x2000, 2).unwrap();
    let first_entry = first.as_window_procedure().unwrap();
    let second_entry = second.as_window_procedure().unwrap();
    assert_eq!(first_entry.address, REGION);
    assert_eq!(second_entry.address, REGION + 32);

    let second_code = second.block().code().clone();
    first.set_data(0x3000, 3);
    assert_eq!(first.as_window_procedure(), Some(first_entry));
    assert_eq!(second.as_window_procedure(), Some(second_entry));
    assert_eq!(second.block().code(), &second_code);
    assert_eq!(second.binding(), Some(Binding { target: 0x2000, constant: 2 }));
    assert_eq!(first.binding(), Some(Binding { target: 0x3000, constant: 3 }));
}

#[test]
fn release_returns_the_block() {
    let mut provider = ExecutableMemoryProvider::new(REGION, 2).unwrap();
    assert_eq!(provider.available(), 2);
    let first = AtlThunk::try_new_with(&mut provider, 0x1000, 1).unwrap();
    let second = AtlThunk::try_new_with(&mut provider, 0x2000, 2).unwrap();
    assert_eq!(provider.available(), 0);
    assert!(provider.holds(REGION));
    assert!(provider.holds(REGION + 32));

    first.release(&mut provider);
    assert_eq!(provider.available(), 1);
    assert!(!provider.holds(REGION));
    assert!(provider.holds(REGION + 32));

    let third = AtlThunk::try_new(&mut provider).unwrap();
    assert_eq!(third.block().address(), REGION);
    assert_eq!(provider.available(), 0);

    second.release(&mut provider);
    third.release(&mut provider);
    assert_eq!(provider.available(), 2);
}

#[test]
fn exhausted_provider_fails_creation() {
    let mut provider = ExecutableMemoryProvider::new(REGION, 1).unwrap();
    let only = AtlThunk::try_new_with(&mut provider, 0x1000, 1).unwrap();
    assert_eq!(
        AtlThunk::try_new_with(&mut provider, 0x2000, 2).unwrap_err(),
        AllocationError {}
    );
    assert_eq!(AtlThunk::try_new(&mut provider).unwrap_err(), AllocationError {});
    assert_eq!(provider.available(), 0);
    assert_eq!(provider.capacity(), 1);
    assert!(provider.holds(REGION));
    assert_eq!(only.binding(), Some(Binding { target: 0x1000, constant: 1 }));
}

#[test]
fn provider_without_blocks_fails_every_creation() {
    let mut provider = ExecutableMemoryProvider::new(REGION, 0).unwrap();
    assert_eq!(AtlThunk::try_new_with(&mut provider, 0x1000, 1).unwrap_err(), AllocationError {});
    assert_eq!(provider.available(), 0);
    assert_eq!(provider.capacity(), 0);
}

#[test]
fn unbound_handle_has_no_entry_point() {
    let mut provider = ExecutableMemoryProvider::new(REGION, 1).unwrap();
    let mut thunk = AtlThunk::try_new(&mut provider).unwrap();
    assert_eq!(thunk.as_window_procedure(), None);
    assert_eq!(thunk.binding(), None);
    let entry = Registers { rip: REGION, rsp: STACK, rcx: 0, rdx: 0, r8: 0, r9: 0 };
    assert_eq!(execute(thunk.block(), entry), Outcome::Fault);

    thunk.set_data(0x1000, 1);
    assert_eq!(thunk.as_window_procedure(), Some(EntryPointer { address: REGION }));
}

#[test]
fn null_target_is_encoded_like_any_other() {
    let mut provider = ExecutableMemoryProvider::new(REGION, 1).unwrap();
    let thunk = AtlThunk::try_new_with(&mut provider, 0, 5).unwrap();
    assert_eq!(thunk.binding(), Some(Binding { target: 0, constant: 5 }));
    let entry = Registers { rip: REGION, rsp: STACK, rcx: 1, rdx: 2, r8: 3, r9: 4 };
    assert_eq!(
        execute(thunk.block(), entry),
        Outcome::Transfer(Registers { rip: 0, rcx: 5, ..entry })
    );
}

fn assert_send_and_sync<T: Send + Sync>(_: &T) {}

#[test]
fn handle_can_be_shared_across_threads() {
    let mut provider = ExecutableMemoryProvider::new(REGION, 1).unwrap();
    let thunk = AtlThunk::try_new_with(&mut provider, 0x1000, 1).unwrap();
    assert_send_and_sync(&thunk);
    assert_send_and_sync(&provider);
    assert_send_and_sync(&thunk.as_window_procedure());
}
