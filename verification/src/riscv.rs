//! Instruction decoding: the instructions that the hypervisor emulates, as
//! plain values.

use vstd::prelude::*;

verus! {

/// The width and signedness of a load.
#[derive(Clone, Copy, Debug, PartialEq, Eq, Structural)]
pub enum LoadKind {
    Lb,
    Lh,
    Lw,
    Lbu,
    Lhu,
    Lwu,
    Ld,
}

/// The width of a store.
#[derive(Clone, Copy, Debug, PartialEq, Eq, Structural)]
pub enum StoreKind {
    Sb,
    Sh,
    Sw,
    Sd,
}

/// The six CSR access instructions.
#[derive(Clone, Copy, Debug, PartialEq, Eq, Structural)]
pub enum CsrKind {
    Csrrw,
    Csrrs,
    Csrrc,
    Csrrwi,
    Csrrsi,
    Csrrci,
}

/// The privileged instructions without a CSR operand. `SfenceVma` carries
/// the instruction word in its 32-bit form.
#[derive(Clone, Copy, Debug, PartialEq, Eq, Structural)]
pub enum SystemOp {
    Sret,
    Wfi,
    SfenceVma(u32),
}

/// A decoded instruction, as far as the hypervisor tells instructions apart.
/// Each word is the instruction in its 32-bit form, from which the register
/// and CSR fields are read; for a compressed instruction it is the expanded
/// form. `Other` stands for every other instruction and for every word that
/// is no instruction.
#[derive(Clone, Copy, Debug, PartialEq, Eq, Structural)]
pub enum Decoded {
    Load(LoadKind, u32),
    Store(StoreKind, u32),
    Csr(CsrKind, u32),
    System(SystemOp),
    Other,
}

/// What the decoder makes of an instruction word.
pub uninterp spec fn decoded(instruction: u32) -> Decoded;

/// The load that an instruction is, if it is one.
pub open spec fn load_part(d: Decoded) -> Option<(LoadKind, u32)> {
    match d {
        Decoded::Load(kind, word) => Some((kind, word)),
        _ => None,
    }
}

/// The store that an instruction is, if it is one.
pub open spec fn store_part(d: Decoded) -> Option<(StoreKind, u32)> {
    match d {
        Decoded::Store(kind, word) => Some((kind, word)),
        _ => None,
    }
}

/// The CSR access that an instruction is, if it is one.
pub open spec fn csr_part(d: Decoded) -> Option<(CsrKind, u32)> {
    match d {
        Decoded::Csr(kind, word) => Some((kind, word)),
        _ => None,
    }
}

/// The privileged instruction without a CSR operand that an instruction
/// is, if it is one.
pub open spec fn system_part(d: Decoded) -> Option<SystemOp> {
    match d {
        Decoded::System(op) => Some(op),
        _ => None,
    }
}

/// `riscv_decode::decode`, for the seven loads: the load's kind with its
/// word, `None` for any other instruction and for a decoding error.
#[verifier::external_body]
fn decode_load(instruction: u32) -> (r: Option<(LoadKind, u32)>)
    ensures
        r == load_part(decoded(instruction)),
{
    match riscv_decode::decode(instruction) {
        Ok(riscv_decode::Instruction::Lb(i)) => Some((LoadKind::Lb, i.0)),
        Ok(riscv_decode::Instruction::Lh(i)) => Some((LoadKind::Lh, i.0)),
        Ok(riscv_decode::Instruction::Lw(i)) => Some((LoadKind::Lw, i.0)),
        Ok(riscv_decode::Instruction::Lbu(i)) => Some((LoadKind::Lbu, i.0)),
        Ok(riscv_decode::Instruction::Lhu(i)) => Some((LoadKind::Lhu, i.0)),
        Ok(riscv_decode::Instruction::Lwu(i)) => Some((LoadKind::Lwu, i.0)),
        Ok(riscv_decode::Instruction::Ld(i)) => Some((LoadKind::Ld, i.0)),
        _ => None,
    }
}

/// `riscv_decode::decode`, for the four stores: the store's kind with its
/// word, `None` for any other instruction and for a decoding error.
#[verifier::external_body]
fn decode_store(instruction: u32) -> (r: Option<(StoreKind, u32)>)
    ensures
        r == store_part(decoded(instruction)),
{
    match riscv_decode::decode(instruction) {
        Ok(riscv_decode::Instruction::Sb(i)) => Some((StoreKind::Sb, i.0)),
        Ok(riscv_decode::Instruction::Sh(i)) => Some((StoreKind::Sh, i.0)),
        Ok(riscv_decode::Instruction::Sw(i)) => Some((StoreKind::Sw, i.0)),
        Ok(riscv_decode::Instruction::Sd(i)) => Some((StoreKind::Sd, i.0)),
        _ => None,
    }
}

/// `riscv_decode::decode`, for the six CSR accesses: the access's kind with
/// its word, `None` for any other instruction and for a decoding error.
#[verifier::external_body]
fn decode_csr(instruction: u32) -> (r: Option<(CsrKind, u32)>)
    ensures
        r == csr_part(decoded(instruction)),
{
    match riscv_decode::decode(instruction) {
        Ok(riscv_decode::Instruction::Csrrw(i)) => Some((CsrKind::Csrrw, i.0)),
        Ok(riscv_decode::Instruction::Csrrs(i)) => Some((CsrKind::Csrrs, i.0)),
        Ok(riscv_decode::Instruction::Csrrc(i)) => Some((CsrKind::Csrrc, i.0)),
        Ok(riscv_decode::Instruction::Csrrwi(i)) => Some((CsrKind::Csrrwi, i.0)),
        Ok(riscv_decode::Instruction::Csrrsi(i)) => Some((CsrKind::Csrrsi, i.0)),
        Ok(riscv_decode::Instruction::Csrrci(i)) => Some((CsrKind::Csrrci, i.0)),
        _ => None,
    }
}

/// `riscv_decode::decode`, for `sret`, `wfi` and `sfence.vma`: `None` for
/// any other instruction and for a decoding error.
#[verifier::external_body]
fn decode_system(instruction: u32) -> (r: Option<SystemOp>)
    ensures
        r == system_part(decoded(instruction)),
{
    match riscv_decode::decode(instruction) {
        Ok(riscv_decode::Instruction::Sret) => Some(SystemOp::Sret),
        Ok(riscv_decode::Instruction::Wfi) => Some(SystemOp::Wfi),
        Ok(riscv_decode::Instruction::SfenceVma(i)) => Some(SystemOp::SfenceVma(i.0)),
        _ => None,
    }
}

/// Decodes an instruction word.
pub fn decode(instruction: u32) -> (d: Decoded)
    ensures
        d == decoded(instruction),
{
    if let Some((kind, word)) = decode_load(instruction) {
        return Decoded::Load(kind, word);
    }
    if let Some((kind, word)) = decode_store(instruction) {
        return Decoded::Store(kind, word);
    }
    if let Some((kind, word)) = decode_csr(instruction) {
        return Decoded::Csr(kind, word);
    }
    if let Some(op) = decode_system(instruction) {
        return Decoded::System(op);
    }
    Decoded::Other
}

/// The length in bytes of the instruction whose low halfword is `i`.
pub open spec fn length_of(i: u16) -> usize {
    if i & 0b11 != 0b11 {
        2
    } else if i & 0b11100 != 0b11100 {
        4
    } else if i & 0b111111 == 0b011111 {
        6
    } else if i & 0b1111111 == 0b011111 {
        8
    } else {
        (10 + 2 * ((i >> 12) & 0b111)) as usize
    }
}

/// `riscv_decode::instruction_length`: the length in bytes that the low
/// halfword of an instruction announces.
#[verifier::external_body]
fn length_from_low_bits(i: u16) -> (n: usize)
    ensures
        n == length_of(i),
{
    riscv_decode::instruction_length(i)
}

/// The length in bytes of the instruction whose low halfword is `i`.
pub fn instruction_length(i: u16) -> (n: usize)
    ensures
        n == length_of(i),
{
    length_from_low_bits(i)
}

/// The destination register of an instruction word.
pub open spec fn rd_of(word: u32) -> u32 {
    (word >> 7) & 0x1f
}

/// The first source register of an instruction word; the immediate of a CSR
/// access by immediate lies in the same bits.
pub open spec fn rs1_of(word: u32) -> u32 {
    (word >> 15) & 0x1f
}

/// The second source register of an instruction word.
pub open spec fn rs2_of(word: u32) -> u32 {
    (word >> 20) & 0x1f
}

/// The CSR number of a CSR access.
pub open spec fn csr_of(word: u32) -> u32 {
    word >> 20
}

/// Every register field names one of the 32 registers.
pub proof fn lemma_register_fields(word: u32)
    ensures
        rd_of(word) < 32,
        rs1_of(word) < 32,
        rs2_of(word) < 32,
{
    assert(((word >> 7) & 0x1f) < 32 && ((word >> 15) & 0x1f) < 32 && ((word >> 20) & 0x1f) < 32)
        by (bit_vector);
}

/// The destination register of an instruction word.
pub fn rd(word: u32) -> (r: u32)
    ensures
        r == rd_of(word),
        r < 32,
{
    proof {
        lemma_register_fields(word);
    }
    (word >> 7) & 0x1f
}

/// The first source register of an instruction word, or the immediate of
/// a CSR access by immediate.
pub fn rs1(word: u32) -> (r: u32)
    ensures
        r == rs1_of(word),
        r < 32,
{
    proof {
        lemma_register_fields(word);
    }
    (word >> 15) & 0x1f
}

/// The second source register of an instruction word.
pub fn rs2(word: u32) -> (r: u32)
    ensures
        r == rs2_of(word),
        r < 32,
{
    proof {
        lemma_register_fields(word);
    }
    (word >> 20) & 0x1f
}

/// The CSR number of a CSR access.
pub fn csr(word: u32) -> (r: u32)
    ensures
        r == csr_of(word),
{
    word >> 20
}

} // verus!
