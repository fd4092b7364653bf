//! What a processor does when it enters a block: a model of the two
//! instructions a trampoline is made of, and of nothing else.
//!
//! The model knows the registers that carry the four arguments of a window
//! procedure (`rcx`, `rdx`, `r8`, `r9`), the stack pointer and the
//! instruction pointer, and it knows the memory of one block.  Whatever it
//! does not know faults: an unknown instruction, a trap, a fetch or a load
//! that leaves the block.

use crate::encoder::{
    lemma_decode_image, load_word, prologue, unbound_image, word_at, Binding, BlockView, TrampolineBlock, BLOCK_SIZE,
    CONSTANT_OFFSET, PROLOGUE_SIZE, TARGET_OFFSET,
};
use vstd::prelude::*;

verus! {

/// The registers that a trampoline can see or change.
#[derive(Clone, Copy, Debug, PartialEq, Eq, Structural)]
pub struct Registers {
    /// Address of the next instruction.
    pub rip: u64,
    /// Stack pointer; the caller's return address lies there.
    pub rsp: u64,
    /// First argument.
    pub rcx: u64,
    /// Second argument.
    pub rdx: u64,
    /// Third argument.
    pub r8: u64,
    /// Fourth argument.
    pub r9: u64,
}

/// What one instruction does.
#[derive(Clone, Copy, Debug, PartialEq, Eq, Structural)]
pub enum Step {
    /// It completed, and the next instruction follows it.
    Next(Registers),
    /// It jumped: the registers are those that the jump's destination sees.
    Transfer(Registers),
    /// The model cannot execute it.
    Fault,
}

/// How the execution of a block ends.
#[derive(Clone, Copy, Debug, PartialEq, Eq, Structural)]
pub enum Outcome {
    /// Control left the block by a jump, with these registers.  Nothing was
    /// pushed and nothing called, so the destination returns to whoever
    /// entered the block.
    Transfer(Registers),
    /// Execution stopped at something the model cannot execute.
    Fault,
}

/// The `length` bytes from `address` on lie inside `block`.
pub open spec fn covers(block: BlockView, address: int, length: int) -> bool {
    block.address <= address && address + length <= block.address + block.code.len()
}

/// The signed 32-bit number spelled by the four bytes of `code` from
/// `offset` on, least significant first.
pub open spec fn displacement_at(code: Seq<u8>, offset: int) -> int {
    let raw = code[offset] + 0x100 * code[offset + 1] + 0x1_0000 * code[offset + 2] + 0x100_0000
        * code[offset + 3];
    if raw < 0x8000_0000 {
        raw
    } else {
        raw - 0x1_0000_0000
    }
}

/// The word that a load from `address` yields, if the block holds it.
pub open spec fn load(block: BlockView, address: int) -> Option<u64> {
    if covers(block, address, 8) {
        Some(word_at(block.code, address - block.address))
    } else {
        None
    }
}

/// The instruction at `registers.rip`, executed.
///
/// `48 8B 0D disp32` is `mov rcx, [rip + disp32]` and `FF 25 disp32` is
/// `jmp [rip + disp32]`; in both, `rip` is the address of the instruction
/// that follows.
pub open spec fn step(block: BlockView, registers: Registers) -> Step {
    let at = registers.rip - block.address;
    if covers(block, registers.rip as int, 7) && block.code[at] == 0x48 && block.code[at + 1]
        == 0x8B && block.code[at + 2] == 0x0D {
        let next = registers.rip + 7;
        match load(block, next + displacement_at(block.code, at + 3)) {
            Some(word) => Step::Next(Registers { rip: next as u64, rcx: word, ..registers }),
            None => Step::Fault,
        }
    } else if covers(block, registers.rip as int, 6) && block.code[at] == 0xFF && block.code[at + 1]
        == 0x25 {
        let next = registers.rip + 6;
        match load(block, next + displacement_at(block.code, at + 2)) {
            Some(word) => Step::Transfer(Registers { rip: word, ..registers }),
            None => Step::Fault,
        }
    } else {
        Step::Fault
    }
}

/// Execution from `registers.rip` on, until control leaves the block or
/// the model faults.
pub open spec fn run(block: BlockView, registers: Registers) -> Outcome
    decreases block.address + block.code.len() - registers.rip,
    when block.wf()
{
    match step(block, registers) {
        Step::Next(next) => run(block, next),
        Step::Transfer(registers) => Outcome::Transfer(registers),
        Step::Fault => Outcome::Fault,
    }
}

/// Entering `block` at its start forwards to `binding`: whatever the
/// arguments and the stack pointer, execution ends in a jump to the target
/// with the constant as first argument and everything else as it was.
pub open spec fn forwards(block: BlockView, binding: Binding) -> bool {
    forall|entry: Registers|
        entry.rip == block.address ==> #[trigger] run(block, entry) == Outcome::Transfer(
            Registers { rip: binding.target, rcx: binding.constant, ..entry },
        )
}

fn load_displacement(code: &Vec<u8>, offset: usize) -> (displacement: i64)
    requires
        offset + 4 <= code.len(),
    ensures
        displacement == displacement_at(code@, offset as int),
{
    let b0: i64 = code[offset] as i64;
    let b1: i64 = code[offset + 1] as i64;
    let b2: i64 = code[offset + 2] as i64;
    let b3: i64 = code[offset + 3] as i64;
    let raw: i64 = b0 + 0x100 * b1 + 0x1_0000 * b2 + 0x100_0000 * b3;
    if raw < 0x8000_0000 {
        raw
    } else {
        raw - 0x1_0000_0000
    }
}

/// Loads the word at `offset` bytes from the start of `block`, as `load`
/// does with the address there.
fn load_at(block: &TrampolineBlock, offset: i64) -> (word: Option<u64>)
    requires
        block.wf(),
    ensures
        word == load(block@, block@.address + offset),
{
    if 0 <= offset && offset <= 24 {
        Some(load_word(block.code(), offset as usize))
    } else {
        None
    }
}

/// Executes the instruction at `registers.rip`.
pub fn execute_step(block: &TrampolineBlock, registers: Registers) -> (result: Step)
    requires
        block.wf(),
    ensures
        result == step(block@, registers),
{
    let base: u64 = block.address();
    let code = block.code();
    if registers.rip < base || registers.rip - base >= BLOCK_SIZE as u64 {
        return Step::Fault;
    }
    let at: usize = (registers.rip - base) as usize;
    if at + 7 <= BLOCK_SIZE && code[at] == 0x48 && code[at + 1] == 0x8B && code[at + 2] == 0x0D {
        let displacement: i64 = load_displacement(code, at + 3);
        match load_at(block, at as i64 + 7 + displacement) {
            Some(word) => Step::Next(Registers { rip: registers.rip + 7, rcx: word, ..registers }),
            None => Step::Fault,
        }
    } else if at + 6 <= BLOCK_SIZE && code[at] == 0xFF && code[at + 1] == 0x25 {
        let displacement: i64 = load_displacement(code, at + 2);
        match load_at(block, at as i64 + 6 + displacement) {
            Some(word) => Step::Transfer(Registers { rip: word, ..registers }),
            None => Step::Fault,
        }
    } else {
        Step::Fault
    }
}

/// Enters `block` with `entry` in the registers and executes until control
/// leaves the block or the model faults.
pub fn execute(block: &TrampolineBlock, entry: Registers) -> (outcome: Outcome)
    requires
        block.wf(),
    ensures
        outcome == run(block@, entry),
{
    let mut registers: Registers = entry;
    loop
        invariant
            block.wf(),
            run(block@, registers) == run(block@, entry),
        decreases block@.address + BLOCK_SIZE - registers.rip,
    {
        match execute_step(block, registers) {
            Step::Next(next) => {
                registers = next;
            },
            Step::Transfer(registers) => {
                return Outcome::Transfer(registers);
            },
            Step::Fault => {
                return Outcome::Fault;
            },
        }
    }
}

/// Entering a bound block at its start, with any arguments in the
/// registers, ends in a jump to the bound target.  The target finds the
/// bound constant as its first argument and the other three arguments as
/// they were passed.  The stack pointer is as it was on entry, so the
/// target's return goes to the caller, with the target's own result.
pub proof fn lemma_bound_block_forwards(block: BlockView, binding: Binding, entry: Registers)
    requires
        block.wf(),
        block.binding() == Some(binding),
        entry.rip == block.address,
    ensures
        run(block, entry) == Outcome::Transfer(
            Registers { rip: binding.target, rcx: binding.constant, ..entry },
        ),
{
    let code = block.code;
    let fixed = code.subrange(0, PROLOGUE_SIZE as int);
    assert(fixed == prologue());
    assert(code[0] == fixed[0] && code[1] == fixed[1] && code[2] == fixed[2]);
    assert(code[3] == fixed[3] && code[4] == fixed[4] && code[5] == fixed[5] && code[6]
        == fixed[6]);
    assert(code[7] == fixed[7] && code[8] == fixed[8]);
    assert(code[9] == fixed[9] && code[10] == fixed[10] && code[11] == fixed[11] && code[12]
        == fixed[12]);
    let loaded = Registers { rip: (block.address + 7) as u64, rcx: binding.constant, ..entry };
    assert(displacement_at(code, 3) == 9);
    assert(load(block, block.address + CONSTANT_OFFSET) == Some(binding.constant));
    assert(step(block, entry) == Step::Next(loaded));
    assert(displacement_at(code, 9) == 11);
    assert(load(block, block.address + TARGET_OFFSET) == Some(binding.target));
    assert(step(block, loaded) == Step::Transfer(Registers { rip: binding.target, ..loaded }));
    assert(run(block, loaded) == Outcome::Transfer(Registers { rip: binding.target, ..loaded }));
}

/// A block forwards to the binding it holds.
pub proof fn lemma_bound_block_forwards_always(block: BlockView)
    requires
        block.wf(),
        block.binding() is Some,
    ensures
        forwards(block, block.binding().unwrap()),
{
    assert forall|entry: Registers| entry.rip == block.address implies #[trigger] run(block, entry)
        == Outcome::Transfer(
        Registers {
            rip: block.binding().unwrap().target,
            rcx: block.binding().unwrap().constant,
            ..entry
        },
    ) by {
        lemma_bound_block_forwards(block, block.binding().unwrap(), entry);
    }
}

/// After a block was bound again, entering it forwards to the later
/// binding alone: to its target, with its constant.
pub proof fn lemma_rebound_block_forwards_to_later(
    block: BlockView,
    earlier: Binding,
    later: Binding,
)
    requires
        block.wf(),
    ensures
        forwards(block.bind(earlier).bind(later), later),
{
    lemma_decode_image(later);
    lemma_bound_block_forwards_always(block.bind(earlier).bind(later));
}

/// Entering a block that was never bound faults at once.
pub proof fn lemma_unbound_block_traps(block: BlockView, entry: Registers)
    requires
        block.wf(),
        block.code == unbound_image(),
        entry.rip == block.address,
    ensures
        run(block, entry) == Outcome::Fault,
{
    assert(block.code[0] == 0xCC);
    assert(step(block, entry) == Step::Fault);
}

} // verus!
