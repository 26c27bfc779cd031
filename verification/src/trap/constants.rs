//! Bit positions and cause numbers of the supervisor architecture.

use vstd::prelude::*;

verus! {

pub const TVEC_MODE: u64 = 0x3;
pub const TVEC_BASE: u64 = !0x3u64;

pub const STATUS_UIE: u64 = 1 << 0;
pub const STATUS_SIE: u64 = 1 << 1;
pub const STATUS_UPIE: u64 = 1 << 4;
pub const STATUS_SPIE: u64 = 1 << 5;
pub const STATUS_SPP: u64 = 1 << 8;
pub const STATUS_FS: u64 = 3 << 13;
pub const STATUS_XS: u64 = 3 << 15;
pub const STATUS_SUM: u64 = 1 << 18;
pub const STATUS_MXR: u64 = 1 << 19;
pub const STATUS_SD: u64 = 1 << 63;

pub const STATUS_MPP_M: u64 = 3 << 11;
pub const STATUS_MPP_S: u64 = 1 << 11;
pub const STATUS_MPP_U: u64 = 0 << 11;

/// The bits of `sstatus` that a guest write can change.
pub const SSTATUS_WRITABLE_MASK: u64 = STATUS_MXR | STATUS_SUM | STATUS_FS | STATUS_SPP
    | STATUS_SPIE | STATUS_SIE;

/// The bits of `sstatus` that the hardware changes on its own.
pub const SSTATUS_DYNAMIC_MASK: u64 = STATUS_SD | STATUS_FS;

pub const IP_SSIP: u64 = 1 << 1;
pub const IP_STIP: u64 = 1 << 5;
pub const IP_SEIP: u64 = 1 << 9;

pub const IE_SSIE: u64 = 1 << 1;
pub const IE_STIE: u64 = 1 << 5;
pub const IE_SEIE: u64 = 1 << 9;

pub const SATP_MODE: u64 = 0xf << 60;
pub const SATP_ASID: u64 = 0xffff << 44;
pub const SATP_PPN: u64 = 0xfff_ffffffff;

pub const SSTACK_BASE: u64 = 0xffffffffc0a00000 - 32 * 8;

pub const SCAUSE_INSN_MISALIGNED: u64 = 0;
pub const SCAUSE_INSN_ACCESS_FAULT: u64 = 1;
pub const SCAUSE_ILLEGAL_INSN: u64 = 2;
pub const SCAUSE_BREAKPOINT: u64 = 3;
pub const SCAUSE_LOAD_ACCESS_FAULT: u64 = 5;
pub const SCAUSE_ATOMIC_MISALIGNED: u64 = 6;
pub const SCAUSE_STORE_ACCESS_FAULT: u64 = 7;
pub const SCAUSE_ENV_CALL: u64 = 8;
pub const SCAUSE_INSN_PAGE_FAULT: u64 = 12;
pub const SCAUSE_LOAD_PAGE_FAULT: u64 = 13;
pub const SCAUSE_STORE_PAGE_FAULT: u64 = 15;

/// The top bit of `scause`, set when the trap is an interrupt.
pub const SCAUSE_INTERRUPT: u64 = 1 << 63;

/// What `cause_to_str` answers for each value of `scause`.
pub open spec fn cause_name(cause: u64) -> Seq<char> {
    if cause >= SCAUSE_INTERRUPT {
        "Interrupt"@
    } else if cause >= 16 {
        "Reserved (>=16)"@
    } else if cause == 0 {
        "Instruction address misaligned"@
    } else if cause == 1 {
        "Instruction access fault"@
    } else if cause == 2 {
        "Illegal instruction"@
    } else if cause == 3 {
        "Breakpoint"@
    } else if cause == 4 {
        "Load address misaligned"@
    } else if cause == 5 {
        "Load access fault"@
    } else if cause == 6 {
        "Store/AMO address misaligned"@
    } else if cause == 7 {
        "Store/AMO access fault"@
    } else if cause == 8 {
        "Environment call from U-mode"@
    } else if cause == 9 {
        "Environment call from S-mode"@
    } else if cause == 10 {
        "Reserved (10)"@
    } else if cause == 11 {
        "Environment call from M-mode"@
    } else if cause == 12 {
        "Instruction page fault"@
    } else if cause == 13 {
        "Load page fault"@
    } else if cause == 14 {
        "Reserved (13)"@
    } else {
        "Store/AMO page fault"@
    }
}

/// The name of a trap cause: "Interrupt" when the top bit is set, the
/// exception's name below 16, and "Reserved (>=16)" for the rest.
pub fn cause_to_str(cause: u64) -> (name: &'static str)
    ensures
        name@ == cause_name(cause),
{
    if cause >= SCAUSE_INTERRUPT {
        "Interrupt"
    } else if cause >= 16 {
        "Reserved (>=16)"
    } else if cause == 0 {
        "Instruction address misaligned"
    } else if cause == 1 {
        "Instruction access fault"
    } else if cause == 2 {
        "Illegal instruction"
    } else if cause == 3 {
        "Breakpoint"
    } else if cause == 4 {
        "Load address misaligned"
    } else if cause == 5 {
        "Load access fault"
    } else if cause == 6 {
        "Store/AMO address misaligned"
    } else if cause == 7 {
        "Store/AMO access fault"
    } else if cause == 8 {
        "Environment call from U-mode"
    } else if cause == 9 {
        "Environment call from S-mode"
    } else if cause == 10 {
        "Reserved (10)"
    } else if cause == 11 {
        "Environment call from M-mode"
    } else if cause == 12 {
        "Instruction page fault"
    } else if cause == 13 {
        "Load page fault"
    } else if cause == 14 {
        "Reserved (13)"
    } else {
        "Store/AMO page fault"
    }
}

} // verus!
