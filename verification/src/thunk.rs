//! The trampoline handle: it owns one block from allocation to release,
//! binds it, and gives out its entry point.

use crate::encoder::{
    decode, encode, image, lemma_decode_image, lemma_unbound_image_holds_nothing, unbound_image,
    Binding, BlockView, TrampolineBlock,
};
use crate::machine::{forwards, lemma_bound_block_forwards_always};
use crate::provider::{AllocationError, ExecutableMemoryProvider};
use vstd::prelude::*;

verus! {

/// The address at which a bound trampoline is entered.  It is an address
/// and no more: it keeps nothing alive, and it is good for a call only
/// while the handle it came from exists.
#[derive(Clone, Copy, Debug, PartialEq, Eq, Structural)]
pub struct EntryPointer {
    pub address: u64,
}

/// A window procedure with a first parameter bound into it.
///
/// The handle is seen in contracts as the block it owns: `thunk@.address`
/// is where the block lies, `thunk@.code` what it holds, and
/// `thunk@.binding()` the binding encoded there, `None` before the first.
#[derive(Debug)]
pub struct AtlThunk {
    block: TrampolineBlock,
}

impl View for AtlThunk {
    type V = BlockView;

    closed spec fn view(&self) -> BlockView {
        self.block@
    }
}

impl AtlThunk {
    /// The invariant of a handle: that of its block.
    pub open spec fn wf(&self) -> bool {
        self@.wf()
    }

    /// Takes a block from `provider` and leaves it unbound.  Fails when the
    /// provider has no block left, and then takes nothing.
    pub fn try_new(provider: &mut ExecutableMemoryProvider) -> (result: Result<
        AtlThunk,
        AllocationError,
    >)
        requires
            old(provider).wf(),
        ensures
            final(provider).wf(),
            match result {
                Ok(thunk) => {
                    &&& old(provider)@.lowest_free() matches Some(slot)
                    &&& thunk.wf()
                    &&& thunk@.address == old(provider)@.block_address(slot)
                    &&& thunk@.code == unbound_image()
                    &&& thunk@.binding() is None
                    &&& final(provider)@ == old(provider)@.take(slot)
                    &&& !old(provider)@.holds(thunk@.address)
                    &&& final(provider)@.holds(thunk@.address)
                },
                Err(_) => {
                    &&& old(provider)@.lowest_free() is None
                    &&& old(provider)@.exhausted()
                    &&& final(provider)@ == old(provider)@
                },
            },
    {
        proof {
            lemma_unbound_image_holds_nothing();
        }
        match provider.allocate() {
            Ok(block) => Ok(AtlThunk { block }),
            Err(error) => Err(error),
        }
    }

    /// Takes a block from `provider` and binds it to `window_procedure`
    /// with `first_parameter`.  Fails when the provider has no block left,
    /// and then takes nothing.
    pub fn try_new_with(
        provider: &mut ExecutableMemoryProvider,
        window_procedure: u64,
        first_parameter: u64,
    ) -> (result: Result<AtlThunk, AllocationError>)
        requires
            old(provider).wf(),
        ensures
            final(provider).wf(),
            match result {
                Ok(thunk) => {
                    let binding = Binding { target: window_procedure, constant: first_parameter };
                    &&& old(provider)@.lowest_free() matches Some(slot)
                    &&& thunk.wf()
                    &&& thunk@.address == old(provider)@.block_address(slot)
                    &&& thunk@.code == image(binding)
                    &&& thunk@.binding() == Some(binding)
                    &&& forwards(thunk@, binding)
                    &&& final(provider)@ == old(provider)@.take(slot)
                    &&& !old(provider)@.holds(thunk@.address)
                    &&& final(provider)@.holds(thunk@.address)
                },
                Err(_) => {
                    &&& old(provider)@.lowest_free() is None
                    &&& old(provider)@.exhausted()
                    &&& final(provider)@ == old(provider)@
                },
            },
    {
        match AtlThunk::try_new(provider) {
            Ok(mut thunk) => {
                thunk.set_data(window_procedure, first_parameter);
                Ok(thunk)
            },
            Err(error) => Err(error),
        }
    }

    /// The entry point, once the handle is bound; `None` before.
    pub fn as_window_procedure(&self) -> (entry: Option<EntryPointer>)
        requires
            self.wf(),
        ensures
            entry == if self@.binding() is Some {
                Some(EntryPointer { address: self@.address })
            } else {
                None
            },
    {
        match decode(&self.block) {
            Some(_) => Some(EntryPointer { address: self.block.address() }),
            None => None,
        }
    }

    /// Binds the handle to `window_procedure` with `first_parameter`, in
    /// place of whatever it was bound to.  The block stays where it is.
    pub fn set_data(&mut self, window_procedure: u64, first_parameter: u64)
        requires
            old(self).wf(),
        ensures
            final(self).wf(),
            final(self)@ == old(self)@.bind(
                Binding { target: window_procedure, constant: first_parameter },
            ),
            final(self)@.binding() == Some(
                Binding { target: window_procedure, constant: first_parameter },
            ),
            forwards(final(self)@, Binding { target: window_procedure, constant: first_parameter }),
    {
        encode(&mut self.block, window_procedure, first_parameter);
        proof {
            lemma_decode_image(Binding { target: window_procedure, constant: first_parameter });
            lemma_bound_block_forwards_always(self@);
        }
    }

    /// What the handle is bound to; `None` before the first binding.
    pub fn binding(&self) -> (binding: Option<Binding>)
        requires
            self.wf(),
        ensures
            binding == self@.binding(),
    {
        decode(&self.block)
    }

    /// The block that the handle owns.
    pub fn block(&self) -> (block: &TrampolineBlock)
        ensures
            block@ == self@,
    {
        &self.block
    }

    /// Ends the handle and gives its block back to the provider it came
    /// from.  The handle is gone after this: no entry point can be asked of
    /// it, and it cannot be released again.
    pub fn release(self, provider: &mut ExecutableMemoryProvider)
        requires
            old(provider).wf(),
            old(provider)@.holds(self@.address),
        ensures
            final(provider).wf(),
            final(provider)@ == old(provider)@.release(self@.address),
    {
        provider.release(self.block);
    }
}

} // verus!
