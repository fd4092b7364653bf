//! The trampoline encoder: the byte image of one binding, for x86-64 and the
//! calling convention of window procedures (first argument in `rcx`).
//!
//! A block is 32 bytes.  Its first half is code that never changes, its
//! second half holds the two words of the binding, each in an aligned slot
//! of its own:
//!
//! ```text
//!  0: 48 8B 0D 09 00 00 00    mov rcx, [rip + 9]     ; rcx <- constant slot
//!  7: FF 25 0B 00 00 00       jmp [rip + 11]         ; rip <- target slot
//! 13: CC CC CC                int3 (padding)
//! 16: constant, 8 bytes, least significant first
//! 24: target,   8 bytes, least significant first
//! ```
//!
//! The code pushes nothing and calls nothing: the target runs on the
//! caller's stack frame and returns to the caller directly.

use vstd::prelude::*;

verus! {

/// Size in bytes of one trampoline block.
pub const BLOCK_SIZE: usize = 32;

/// Alignment of a block's address: the size of a block, so that blocks lie
/// side by side and no slot straddles a machine word.
pub const BLOCK_ALIGNMENT: u64 = 32;

/// Length of the fixed code at the start of a block.
pub const PROLOGUE_SIZE: usize = 16;

/// Offset of the slot that holds the constant.
pub const CONSTANT_OFFSET: usize = 16;

/// Offset of the slot that holds the target address.
pub const TARGET_OFFSET: usize = 24;

/// The `int3` instruction: every byte of a block that was never bound.
pub const TRAP: u8 = 0xCC;

/// What a trampoline is bound to: the function it forwards to, and the word
/// it hands that function as first parameter.
#[derive(Clone, Copy, Debug, PartialEq, Eq, Structural)]
pub struct Binding {
    pub target: u64,
    pub constant: u64,
}

/// The eight bytes of `word`, least significant first.
pub open spec fn word_bytes(word: u64) -> Seq<u8> {
    seq![
        (word % 0x100) as u8,
        (word / 0x100 % 0x100) as u8,
        (word / 0x1_0000 % 0x100) as u8,
        (word / 0x100_0000 % 0x100) as u8,
        (word / 0x1_0000_0000 % 0x100) as u8,
        (word / 0x100_0000_0000 % 0x100) as u8,
        (word / 0x1_0000_0000_0000 % 0x100) as u8,
        (word / 0x100_0000_0000_0000 % 0x100) as u8,
    ]
}

/// The word spelled by the eight bytes of `code` from `offset` on, least
/// significant first.
pub open spec fn word_at(code: Seq<u8>, offset: int) -> u64 {
    (code[offset] + 0x100 * code[offset + 1] + 0x1_0000 * code[offset + 2] + 0x100_0000 * code[offset
        + 3] + 0x1_0000_0000 * code[offset + 4] + 0x100_0000_0000 * code[offset + 5]
        + 0x1_0000_0000_0000 * code[offset + 6] + 0x100_0000_0000_0000 * code[offset + 7]) as u64
}

/// The fixed code of every bound block.
pub open spec fn prologue() -> Seq<u8> {
    seq![
        0x48u8, 0x8B, 0x0D, 0x09, 0x00, 0x00, 0x00,
        0xFF, 0x25, 0x0B, 0x00, 0x00, 0x00,
        0xCC, 0xCC, 0xCC,
    ]
}

/// The content of a block bound to `binding`.
pub open spec fn image(binding: Binding) -> Seq<u8> {
    prologue() + word_bytes(binding.constant) + word_bytes(binding.target)
}

/// The content of a block that was never bound: traps throughout.
pub open spec fn unbound_image() -> Seq<u8> {
    Seq::new(BLOCK_SIZE as nat, |i: int| TRAP)
}

/// The binding that `code` holds, if it is the content of a bound block.
pub open spec fn decode_spec(code: Seq<u8>) -> Option<Binding> {
    if code.len() == BLOCK_SIZE && code.subrange(0, PROLOGUE_SIZE as int) == prologue() {
        Some(
            Binding {
                target: word_at(code, TARGET_OFFSET as int),
                constant: word_at(code, CONSTANT_OFFSET as int),
            },
        )
    } else {
        None
    }
}

/// A block as contracts see it: where it lies and what it holds.
pub struct BlockView {
    pub address: u64,
    pub code: Seq<u8>,
}

impl BlockView {
    /// The block lies at a non-null, aligned address, ends inside the
    /// address space, and has the size of a trampoline.
    pub open spec fn wf(self) -> bool {
        &&& self.address != 0
        &&& self.address % BLOCK_ALIGNMENT == 0
        &&& self.address + BLOCK_SIZE <= u64::MAX
        &&& self.code.len() == BLOCK_SIZE
    }

    /// The binding encoded in the block, if any.
    pub open spec fn binding(self) -> Option<Binding> {
        decode_spec(self.code)
    }

    /// The block after `binding` was encoded into it.
    pub open spec fn bind(self, binding: Binding) -> BlockView {
        BlockView { address: self.address, code: image(binding) }
    }
}

/// One block of executable memory: its address, which never changes, and
/// the bytes that belong there.
#[derive(Debug)]
pub struct TrampolineBlock {
    address: u64,
    code: Vec<u8>,
}

impl View for TrampolineBlock {
    type V = BlockView;

    closed spec fn view(&self) -> BlockView {
        BlockView { address: self.address, code: self.code@ }
    }
}

fn prologue_byte(index: usize) -> (byte: u8)
    requires
        index < PROLOGUE_SIZE,
    ensures
        byte == prologue()[index as int],
{
    match index {
        0 => 0x48,
        1 => 0x8B,
        2 => 0x0D,
        3 => 0x09,
        7 => 0xFF,
        8 => 0x25,
        9 => 0x0B,
        13 | 14 | 15 => TRAP,
        _ => 0x00,
    }
}

fn store_word(code: &mut Vec<u8>, offset: usize, word: u64)
    requires
        offset + 8 <= old(code).len(),
    ensures
        final(code)@.len() == old(code)@.len(),
        final(code)@.subrange(offset as int, offset + 8) == word_bytes(word),
        forall|i: int|
            0 <= i < old(code)@.len() && !(offset <= i < offset + 8) ==> final(code)@[i] == old(
                code,
            )@[i],
{
    code.set(offset, (word % 0x100) as u8);
    code.set(offset + 1, (word / 0x100 % 0x100) as u8);
    code.set(offset + 2, (word / 0x1_0000 % 0x100) as u8);
    code.set(offset + 3, (word / 0x100_0000 % 0x100) as u8);
    code.set(offset + 4, (word / 0x1_0000_0000 % 0x100) as u8);
    code.set(offset + 5, (word / 0x100_0000_0000 % 0x100) as u8);
    code.set(offset + 6, (word / 0x1_0000_0000_0000 % 0x100) as u8);
    code.set(offset + 7, (word / 0x100_0000_0000_0000 % 0x100) as u8);
}

pub(crate) fn load_word(code: &Vec<u8>, offset: usize) -> (word: u64)
    requires
        offset + 8 <= code.len(),
    ensures
        word == word_at(code@, offset as int),
{
    let b0: u64 = code[offset] as u64;
    let b1: u64 = code[offset + 1] as u64;
    let b2: u64 = code[offset + 2] as u64;
    let b3: u64 = code[offset + 3] as u64;
    let b4: u64 = code[offset + 4] as u64;
    let b5: u64 = code[offset + 5] as u64;
    let b6: u64 = code[offset + 6] as u64;
    let b7: u64 = code[offset + 7] as u64;
    b0 + 0x100 * b1 + 0x1_0000 * b2 + 0x100_0000 * b3 + 0x1_0000_0000 * b4 + 0x100_0000_0000 * b5
        + 0x1_0000_0000_0000 * b6 + 0x100_0000_0000_0000 * b7
}

impl TrampolineBlock {
    /// The invariant of a block: that of its view.
    pub open spec fn wf(&self) -> bool {
        self@.wf()
    }

    /// A block at `address` that holds no binding yet.
    pub(crate) fn unbound(address: u64) -> (block: TrampolineBlock)
        requires
            address != 0,
            address % BLOCK_ALIGNMENT == 0,
            address + BLOCK_SIZE <= u64::MAX,
        ensures
            block.wf(),
            block@ == (BlockView { address, code: unbound_image() }),
    {
        let code: Vec<u8> = vec![TRAP; BLOCK_SIZE];
        assert(code@ =~= unbound_image());
        TrampolineBlock { address, code }
    }

    /// Where the block lies.
    pub fn address(&self) -> (address: u64)
        ensures
            address == self@.address,
    {
        self.address
    }

    /// The bytes that belong at the block's address.
    pub fn code(&self) -> (code: &Vec<u8>)
        ensures
            code@ == self@.code,
    {
        &self.code
    }
}

/// Writes into `block` the trampoline that hands `constant` to `target` as
/// first parameter.  Whatever the block held before is gone: its content
/// depends on the two arguments alone.
pub fn encode(block: &mut TrampolineBlock, target: u64, constant: u64)
    requires
        old(block).wf(),
    ensures
        final(block).wf(),
        final(block)@ == old(block)@.bind(Binding { target, constant }),
{
    let mut index: usize = 0;
    while index < PROLOGUE_SIZE
        invariant
            index <= PROLOGUE_SIZE,
            block.address == old(block).address,
            block.code@.len() == BLOCK_SIZE,
            forall|i: int| 0 <= i < index ==> block.code@[i] == prologue()[i],
        decreases PROLOGUE_SIZE - index,
    {
        let byte: u8 = prologue_byte(index);
        block.code.set(index, byte);
        index = index + 1;
    }
    store_word(&mut block.code, CONSTANT_OFFSET, constant);
    store_word(&mut block.code, TARGET_OFFSET, target);
    proof {
        let written = block.code@;
        let wanted = image(Binding { target, constant });
        assert forall|i: int| 0 <= i < BLOCK_SIZE implies written[i] == wanted[i] by {
            if i >= TARGET_OFFSET {
                assert(written[i] == written.subrange(TARGET_OFFSET as int, TARGET_OFFSET + 8)[i
                    - TARGET_OFFSET]);
            } else if i >= CONSTANT_OFFSET {
                assert(written[i] == written.subrange(CONSTANT_OFFSET as int, CONSTANT_OFFSET + 8)[i
                    - CONSTANT_OFFSET]);
            }
        }
        assert(written =~= wanted);
    }
}

/// Reads back the binding that `block` holds: `None` for a block whose
/// content is no trampoline, as that of a block that was never bound.
pub fn decode(block: &TrampolineBlock) -> (binding: Option<Binding>)
    requires
        block.wf(),
    ensures
        binding == block@.binding(),
{
    let mut index: usize = 0;
    while index < PROLOGUE_SIZE
        invariant
            index <= PROLOGUE_SIZE,
            block.code@.len() == BLOCK_SIZE,
            forall|i: int| 0 <= i < index ==> block.code@[i] == prologue()[i],
        decreases PROLOGUE_SIZE - index,
    {
        let byte: u8 = prologue_byte(index);
        if block.code[index] != byte {
            assert(block.code@.subrange(0, PROLOGUE_SIZE as int)[index as int] != prologue()[index as int]);
            return None;
        }
        index = index + 1;
    }
    assert(block.code@.subrange(0, PROLOGUE_SIZE as int) =~= prologue());
    let constant: u64 = load_word(&block.code, CONSTANT_OFFSET);
    let target: u64 = load_word(&block.code, TARGET_OFFSET);
    Some(Binding { target, constant })
}

/// A word is read back from its own eight bytes.
pub proof fn lemma_word_round_trip(word: u64)
    ensures
        word_bytes(word).len() == 8,
        word_at(word_bytes(word), 0) == word,
{
    let q1 = word / 0x100;
    let q2 = q1 / 0x100;
    let q3 = q2 / 0x100;
    let q4 = q3 / 0x100;
    let q5 = q4 / 0x100;
    let q6 = q5 / 0x100;
    let q7 = q6 / 0x100;
    assert(q2 == word / 0x1_0000);
    assert(q3 == word / 0x100_0000);
    assert(q4 == word / 0x1_0000_0000);
    assert(q5 == word / 0x100_0000_0000);
    assert(q6 == word / 0x1_0000_0000_0000);
    assert(q7 == word / 0x100_0000_0000_0000);
    assert(q7 < 0x100);
}

/// Eight bytes are the bytes of the word they spell.
pub proof fn lemma_bytes_round_trip(code: Seq<u8>, offset: int)
    requires
        0 <= offset,
        offset + 8 <= code.len(),
    ensures
        word_bytes(word_at(code, offset)) == code.subrange(offset, offset + 8),
{
    let word = word_at(code, offset);
    let r7: int = code[offset + 7] as int;
    let r6: int = code[offset + 6] + 0x100 * r7;
    let r5: int = code[offset + 5] + 0x100 * r6;
    let r4: int = code[offset + 4] + 0x100 * r5;
    let r3: int = code[offset + 3] + 0x100 * r4;
    let r2: int = code[offset + 2] + 0x100 * r3;
    let r1: int = code[offset + 1] + 0x100 * r2;
    let r0: int = code[offset] + 0x100 * r1;
    assert(word == r0);
    assert(r0 / 0x100 == r1 && r0 % 0x100 == code[offset]);
    assert(r1 / 0x100 == r2 && r1 % 0x100 == code[offset + 1]);
    assert(r2 / 0x100 == r3 && r2 % 0x100 == code[offset + 2]);
    assert(r3 / 0x100 == r4 && r3 % 0x100 == code[offset + 3]);
    assert(r4 / 0x100 == r5 && r4 % 0x100 == code[offset + 4]);
    assert(r5 / 0x100 == r6 && r5 % 0x100 == code[offset + 5]);
    assert(r6 / 0x100 == r7 && r6 % 0x100 == code[offset + 6]);
    assert(r7 % 0x100 == code[offset + 7]);
    assert(r2 == word / 0x1_0000);
    assert(r3 == word / 0x100_0000);
    assert(r4 == word / 0x1_0000_0000);
    assert(r5 == word / 0x100_0000_0000);
    assert(r6 == word / 0x1_0000_0000_0000);
    assert(r7 == word / 0x100_0000_0000_0000);
    assert(word_bytes(word) =~= code.subrange(offset, offset + 8));
}

/// Decoding is the inverse of encoding: the image of a binding holds that
/// binding and no other.
pub proof fn lemma_decode_image(binding: Binding)
    ensures
        image(binding).len() == BLOCK_SIZE,
        decode_spec(image(binding)) == Some(binding),
{
    let code = image(binding);
    lemma_word_round_trip(binding.constant);
    lemma_word_round_trip(binding.target);
    assert(code.subrange(0, PROLOGUE_SIZE as int) =~= prologue());
    assert(code.subrange(CONSTANT_OFFSET as int, CONSTANT_OFFSET + 8) =~= word_bytes(
        binding.constant,
    ));
    assert(code.subrange(TARGET_OFFSET as int, TARGET_OFFSET + 8) =~= word_bytes(binding.target));
    lemma_word_at_subrange(code, CONSTANT_OFFSET as int);
    lemma_word_at_subrange(code, TARGET_OFFSET as int);
}

/// Encoding is the inverse of decoding: a block that holds a binding holds
/// exactly the image of that binding.
pub proof fn lemma_image_of_decoded(code: Seq<u8>)
    requires
        decode_spec(code) is Some,
    ensures
        code == image(decode_spec(code).unwrap()),
{
    let binding = decode_spec(code).unwrap();
    lemma_bytes_round_trip(code, CONSTANT_OFFSET as int);
    lemma_bytes_round_trip(code, TARGET_OFFSET as int);
    assert(code =~= code.subrange(0, PROLOGUE_SIZE as int) + code.subrange(
        CONSTANT_OFFSET as int,
        CONSTANT_OFFSET + 8,
    ) + code.subrange(TARGET_OFFSET as int, TARGET_OFFSET + 8));
}

/// A block that was never bound holds no binding.
pub proof fn lemma_unbound_image_holds_nothing()
    ensures
        unbound_image().len() == BLOCK_SIZE,
        decode_spec(unbound_image()) is None,
{
    assert(unbound_image().subrange(0, PROLOGUE_SIZE as int)[0] == TRAP);
    assert(prologue()[0] == 0x48);
}

/// Binding a block again overwrites the earlier binding whole: the block is
/// as if only the later binding had ever been encoded, and it reads back as
/// that binding, with no field of the earlier one.
pub proof fn lemma_rebind_overwrites(block: BlockView, earlier: Binding, later: Binding)
    ensures
        block.bind(earlier).bind(later) == block.bind(later),
        block.bind(earlier).bind(later).binding() == Some(later),
{
    lemma_decode_image(later);
}

/// Binding a block again changes nothing but its two slots, and each slot is
/// one aligned machine word: a byte that differs between two bindings lies
/// in a slot, and a store to a slot is one aligned store of eight bytes.
pub proof fn lemma_rebind_writes_aligned_slots(block: BlockView, earlier: Binding, later: Binding)
    requires
        block.wf(),
    ensures
        (block.address + CONSTANT_OFFSET) % 8 == 0,
        (block.address + TARGET_OFFSET) % 8 == 0,
        forall|i: int|
            0 <= i < BLOCK_SIZE && block.bind(earlier).code[i] != block.bind(later).code[i]
                ==> CONSTANT_OFFSET <= i,
{
    assert(block.address == 32 * (block.address / 32));
}

proof fn lemma_word_at_subrange(code: Seq<u8>, offset: int)
    requires
        0 <= offset,
        offset + 8 <= code.len(),
    ensures
        word_at(code, offset) == word_at(code.subrange(offset, offset + 8), 0),
{
}

} // verus!
