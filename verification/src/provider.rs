//! The executable memory provider: it hands out the blocks of one region of
//! executable memory, one trampoline each, and takes them back.
//!
//! The region itself comes from the operating system; the provider is told
//! where it starts and how many blocks it holds, and keeps account of which
//! of them are in use.  `allocate` always takes the lowest free block, so
//! that what it returns is a function of the account alone.

use crate::encoder::{unbound_image, TrampolineBlock, BLOCK_ALIGNMENT, BLOCK_SIZE};
use vstd::prelude::*;

verus! {

/// The provider has no free block left.
#[derive(Clone, Copy, Debug, PartialEq, Eq, Structural)]
pub struct AllocationError {}

/// The provider as contracts see it: where its region starts, and which of
/// its blocks are in use.
pub struct ProviderView {
    pub base: u64,
    pub in_use: Seq<bool>,
}

/// How many entries of `in_use` are `false`.
pub open spec fn free_among(in_use: Seq<bool>) -> nat
    decreases in_use.len(),
{
    if in_use.len() == 0 {
        0
    } else {
        free_among(in_use.drop_last()) + if in_use.last() {
            0nat
        } else {
            1nat
        }
    }
}

impl ProviderView {
    /// The region starts at a non-null, aligned address and ends inside the
    /// address space.
    pub open spec fn wf(self) -> bool {
        &&& self.base != 0
        &&& self.base % BLOCK_ALIGNMENT == 0
        &&& self.base + BLOCK_SIZE * self.in_use.len() <= u64::MAX
    }

    /// Number of blocks in the region.
    pub open spec fn capacity(self) -> nat {
        self.in_use.len()
    }

    /// Number of blocks that are free.
    pub open spec fn available(self) -> nat {
        free_among(self.in_use)
    }

    /// Address of the block with number `slot`.
    pub open spec fn block_address(self, slot: int) -> int {
        self.base + BLOCK_SIZE * slot
    }

    /// Number of the block at `address`.
    pub open spec fn slot_of(self, address: u64) -> int {
        (address - self.base) / (BLOCK_SIZE as int)
    }

    /// `address` is the address of a block of the region.
    pub open spec fn manages(self, address: u64) -> bool {
        &&& self.base <= address
        &&& (address - self.base) % (BLOCK_SIZE as int) == 0
        &&& self.slot_of(address) < self.in_use.len()
    }

    /// `address` is the address of a block that is in use.
    pub open spec fn holds(self, address: u64) -> bool {
        self.manages(address) && self.in_use[self.slot_of(address)]
    }

    /// Block `slot` is free and no block below it is.
    pub open spec fn is_lowest_free(self, slot: int) -> bool {
        &&& 0 <= slot < self.in_use.len()
        &&& !self.in_use[slot]
        &&& forall|below: int| 0 <= below < slot ==> self.in_use[below]
    }

    /// Number of the lowest free block, if there is a free block.
    pub open spec fn lowest_free(self) -> Option<int> {
        if exists|slot: int| self.is_lowest_free(slot) {
            Some(choose|slot: int| self.is_lowest_free(slot))
        } else {
            None
        }
    }

    /// Every block is in use.
    pub open spec fn exhausted(self) -> bool {
        forall|slot: int| 0 <= slot < self.in_use.len() ==> self.in_use[slot]
    }

    /// The provider after block `slot` was handed out.
    pub open spec fn take(self, slot: int) -> ProviderView {
        ProviderView { base: self.base, in_use: self.in_use.update(slot, true) }
    }

    /// The provider after the block at `address` came back.
    pub open spec fn release(self, address: u64) -> ProviderView {
        ProviderView { base: self.base, in_use: self.in_use.update(self.slot_of(address), false) }
    }
}

/// The provider of one region of executable memory.
#[derive(Debug)]
pub struct ExecutableMemoryProvider {
    base: u64,
    in_use: Vec<bool>,
}

impl View for ExecutableMemoryProvider {
    type V = ProviderView;

    closed spec fn view(&self) -> ProviderView {
        ProviderView { base: self.base, in_use: self.in_use@ }
    }
}

impl ExecutableMemoryProvider {
    /// The invariant of a provider: that of its view.
    pub open spec fn wf(&self) -> bool {
        self@.wf()
    }

    /// A provider for the region of `blocks` blocks that starts at `base`,
    /// all of them free; `None` if that is no region: `base` null or not
    /// aligned, or the end beyond the address space.
    pub fn new(base: u64, blocks: usize) -> (provider: Option<ExecutableMemoryProvider>)
        ensures
            match provider {
                Some(provider) => provider.wf() && provider@ == (ProviderView {
                    base,
                    in_use: Seq::new(blocks as nat, |slot: int| false),
                }),
                None => !(ProviderView {
                    base,
                    in_use: Seq::new(blocks as nat, |slot: int| false),
                }).wf(),
            },
    {
        if base == 0 || base % BLOCK_ALIGNMENT != 0 {
            return None;
        }
        if blocks as u64 > (u64::MAX - base) / BLOCK_ALIGNMENT {
            return None;
        }
        let in_use: Vec<bool> = vec![false; blocks];
        assert(in_use@ =~= Seq::new(blocks as nat, |slot: int| false));
        Some(ExecutableMemoryProvider { base, in_use })
    }

    /// Number of blocks in the region.
    pub fn capacity(&self) -> (capacity: usize)
        ensures
            capacity == self@.capacity(),
    {
        self.in_use.len()
    }

    /// Number of blocks that are free.
    pub fn available(&self) -> (available: usize)
        ensures
            available == self@.available(),
    {
        let mut count: usize = 0;
        let mut slot: usize = 0;
        while slot < self.in_use.len()
            invariant
                slot <= self.in_use.len(),
                count == free_among(self.in_use@.take(slot as int)),
                count <= slot,
            decreases self.in_use.len() - slot,
        {
            assert(self.in_use@.take(slot + 1).drop_last() =~= self.in_use@.take(slot as int));
            if !self.in_use[slot] {
                count = count + 1;
            }
            slot = slot + 1;
        }
        assert(self.in_use@.take(slot as int) =~= self.in_use@);
        count
    }

    /// Whether `address` is the address of a block that is in use.
    pub fn holds(&self, address: u64) -> (held: bool)
        ensures
            held == self@.holds(address),
    {
        if address < self.base {
            return false;
        }
        let offset: u64 = address - self.base;
        if offset % BLOCK_ALIGNMENT != 0 {
            return false;
        }
        let slot: u64 = offset / BLOCK_ALIGNMENT;
        if slot >= self.in_use.len() as u64 {
            return false;
        }
        self.in_use[slot as usize]
    }

    /// Hands out the lowest free block, unbound.  Fails when every block is
    /// in use, and then changes nothing.
    pub fn allocate(&mut self) -> (result: Result<TrampolineBlock, AllocationError>)
        requires
            old(self).wf(),
        ensures
            final(self).wf(),
            match result {
                Ok(block) => {
                    &&& old(self)@.lowest_free() matches Some(slot)
                    &&& block.wf()
                    &&& block@.address == old(self)@.block_address(slot)
                    &&& block@.code == unbound_image()
                    &&& final(self)@ == old(self)@.take(slot)
                    &&& !old(self)@.holds(block@.address)
                    &&& final(self)@.holds(block@.address)
                },
                Err(_) => {
                    &&& old(self)@.lowest_free() is None
                    &&& old(self)@.exhausted()
                    &&& final(self)@ == old(self)@
                },
            },
    {
        let mut slot: usize = 0;
        while slot < self.in_use.len()
            invariant
                slot <= self.in_use.len(),
                forall|below: int| 0 <= below < slot ==> self.in_use@[below],
                *self == *old(self),
                self.wf(),
            decreases self.in_use.len() - slot,
        {
            if !self.in_use[slot] {
                let address: u64 = self.base + BLOCK_ALIGNMENT * (slot as u64);
                assert(address == 32 * (self.base / 32 + slot));
                proof {
                    lemma_lowest_free(self@);
                }
                self.in_use.set(slot, true);
                return Ok(TrampolineBlock::unbound(address));
            }
            slot = slot + 1;
        }
        proof {
            lemma_lowest_free(self@);
        }
        Err(AllocationError {})
    }

    /// Takes back a block that this provider handed out and that has not
    /// come back since.
    pub fn release(&mut self, block: TrampolineBlock)
        requires
            old(self).wf(),
            old(self)@.holds(block@.address),
        ensures
            final(self).wf(),
            final(self)@ == old(self)@.release(block@.address),
    {
        let slot: u64 = (block.address() - self.base) / BLOCK_ALIGNMENT;
        let capacity: usize = self.in_use.len();
        assert(slot == self@.slot_of(block@.address) && slot < capacity);
        self.in_use.set(slot as usize, false);
    }
}

/// Among the blocks up to a free one there is a lowest free one.
proof fn lemma_free_block_has_lowest(provider: ProviderView, free: int)
    requires
        0 <= free < provider.in_use.len(),
        !provider.in_use[free],
    ensures
        exists|slot: int| provider.is_lowest_free(slot),
    decreases free,
{
    if exists|below: int| 0 <= below < free && !provider.in_use[below] {
        let below = choose|below: int| 0 <= below < free && !provider.in_use[below];
        lemma_free_block_has_lowest(provider, below);
    } else {
        assert(provider.is_lowest_free(free));
    }
}

/// `lowest_free` names the one block that is free with no free block below
/// it, and it names none exactly when every block is in use.
pub proof fn lemma_lowest_free(provider: ProviderView)
    ensures
        forall|slot: int|
            provider.is_lowest_free(slot) <==> provider.lowest_free() == Some(slot),
        provider.lowest_free() is None <==> provider.exhausted(),
{
    if provider.lowest_free() is None && !provider.exhausted() {
        let free = choose|slot: int| 0 <= slot < provider.in_use.len() && !provider.in_use[slot];
        lemma_free_block_has_lowest(provider, free);
    }
    assert forall|slot: int| provider.is_lowest_free(slot) implies provider.lowest_free() == Some(
        slot,
    ) by {
        let chosen = choose|slot: int| provider.is_lowest_free(slot);
        assert(provider.is_lowest_free(chosen));
        if chosen < slot {
            assert(provider.in_use[chosen]);
        } else if slot < chosen {
            assert(provider.in_use[slot]);
        }
    }
}

/// Writing one entry of the account changes the number of free blocks by
/// that entry alone.
pub proof fn lemma_free_among_update(in_use: Seq<bool>, slot: int, value: bool)
    requires
        0 <= slot < in_use.len(),
    ensures
        free_among(in_use.update(slot, value)) + (if in_use[slot] {
            0nat
        } else {
            1nat
        }) == free_among(in_use) + (if value {
            0nat
        } else {
            1nat
        }),
    decreases in_use.len(),
{
    if slot == in_use.len() - 1 {
        assert(in_use.update(slot, value).drop_last() =~= in_use.drop_last());
    } else {
        lemma_free_among_update(in_use.drop_last(), slot, value);
        assert(in_use.update(slot, value).drop_last() =~= in_use.drop_last().update(slot, value));
    }
}

/// Two blocks that are in use at the same time share no byte.
pub proof fn lemma_held_blocks_are_disjoint(provider: ProviderView, first: u64, second: u64)
    requires
        provider.wf(),
        provider.holds(first),
        provider.holds(second),
        first != second,
    ensures
        first + BLOCK_SIZE <= second || second + BLOCK_SIZE <= first,
{
    let a = provider.slot_of(first);
    let b = provider.slot_of(second);
    assert(first == provider.base + BLOCK_SIZE * a);
    assert(second == provider.base + BLOCK_SIZE * b);
}

/// The block that an allocation hands out was in use by nobody, lies in
/// the region, and is apart from every block in use; and every block that
/// was in use still is.
pub proof fn lemma_allocation_is_fresh(provider: ProviderView, held: u64)
    requires
        provider.wf(),
        provider.lowest_free() is Some,
        provider.holds(held),
    ensures
        ({
            let slot = provider.lowest_free().unwrap();
            let address = provider.block_address(slot) as u64;
            &&& address == provider.block_address(slot)
            &&& !provider.holds(address)
            &&& provider.take(slot).holds(address)
            &&& provider.take(slot).holds(held)
            &&& address + BLOCK_SIZE <= held || held + BLOCK_SIZE <= address
        }),
{
    lemma_lowest_free(provider);
    let slot = provider.lowest_free().unwrap();
    let address = provider.block_address(slot) as u64;
    assert(provider.slot_of(address) == slot);
    assert(held == provider.base + BLOCK_SIZE * provider.slot_of(held));
    lemma_held_blocks_are_disjoint(provider.take(slot), address, held);
}

/// Releasing the block that an allocation handed out undoes the
/// allocation: the account is what it was, one more block is free than
/// while it was out, and the next allocation hands out the same address.
pub proof fn lemma_release_undoes_allocation(provider: ProviderView)
    requires
        provider.wf(),
        provider.lowest_free() is Some,
    ensures
        ({
            let slot = provider.lowest_free().unwrap();
            let address = provider.block_address(slot) as u64;
            &&& provider.take(slot).release(address) == provider
            &&& provider.take(slot).available() + 1 == provider.available()
            &&& provider.take(slot).release(address).lowest_free() == Some(slot)
        }),
{
    lemma_lowest_free(provider);
    let slot = provider.lowest_free().unwrap();
    let address = provider.block_address(slot) as u64;
    assert(provider.slot_of(address) == slot);
    assert(provider.in_use.update(slot, true).update(slot, false) =~= provider.in_use);
    lemma_free_among_update(provider.in_use, slot, true);
}

/// A released block is free again and nothing else changes: one more block
/// is available, and an allocation can hand the address out again.
pub proof fn lemma_release_frees(provider: ProviderView, address: u64)
    requires
        provider.wf(),
        provider.holds(address),
    ensures
        provider.release(address).wf(),
        !provider.release(address).holds(address),
        provider.release(address).available() == provider.available() + 1,
        provider.release(address).lowest_free() is Some,
        provider.release(address).lowest_free().unwrap() <= provider.slot_of(address),
        forall|other: u64|
            other != address ==> provider.release(address).holds(other) == provider.holds(other),
{
    let slot = provider.slot_of(address);
    let after = provider.release(address);
    lemma_free_among_update(provider.in_use, slot, false);
    lemma_lowest_free(after);
    assert(!after.in_use[slot]);
    assert forall|other: u64| other != address implies after.holds(other) == provider.holds(
        other,
    ) by {
        if provider.manages(other) {
            assert(other == provider.base + BLOCK_SIZE * provider.slot_of(other));
            assert(address == provider.base + BLOCK_SIZE * slot);
        }
    }
}

} // verus!
