//! Trap dispatch, privileged-instruction emulation and interrupt routing.

use vstd::prelude::*;
use crate::context::{
    Context, ContextView, Csrs, Effect, Fatal, Hart, PlicView, csr_value, has_bits,
    interrupt_pending, lemma_merge_twice, popped_sie, pushed_sie, well_formed, with_bits,
    with_csr,
};
use crate::riscv::{
    CsrKind, Decoded, SystemOp, csr_of, decode, decoded, instruction_length, length_of, rd_of,
    rs1_of, rs2_of,
};
use crate::trap::constants::{
    IP_SEIP, IP_SSIP, IP_STIP, SCAUSE_ENV_CALL, SCAUSE_ILLEGAL_INSN, SCAUSE_INSN_PAGE_FAULT,
    SCAUSE_INTERRUPT, SCAUSE_LOAD_PAGE_FAULT, SCAUSE_STORE_PAGE_FAULT, STATUS_SIE, STATUS_SPIE,
    STATUS_SPP, TVEC_BASE, TVEC_MODE,
};

pub mod constants;

verus! {

/// Single-mask bit access on a machine word.
pub trait U64Bits: Sized {
    /// The word as a plain integer.
    spec fn bits(&self) -> u64;

    /// Whether any bit of `mask` is set.
    fn get(&self, mask: Self) -> (r: bool)
        ensures
            r == (self.bits() & mask.bits() != 0),
    ;

    /// Sets every bit of `mask` when `value` holds, clears them otherwise.
    fn set(&mut self, mask: Self, value: bool)
        ensures
            final(self).bits() == if value {
                old(self).bits() | mask.bits()
            } else {
                old(self).bits() & !mask.bits()
            },
    ;
}

impl U64Bits for u64 {
    open spec fn bits(&self) -> u64 {
        *self
    }

    #[inline(always)]
    fn get(&self, mask: Self) -> (r: bool) {
        *self & mask != 0
    }

    #[inline(always)]
    fn set(&mut self, mask: Self, value: bool) {
        if value {
            *self = *self | mask;
        } else {
            *self = *self & !mask;
        }
    }
}

/// A state together with the verdict of the function that produced it.
pub struct Outcome {
    pub state: ContextView,
    pub result: Result<(), Fatal>,
}

/// What the guest's register `reg` holds: zero for x0, the physical
/// `sscratch` for x2, the saved value for the rest.
pub open spec fn register_value(s: ContextView, reg: u32) -> u64 {
    if reg == 0 {
        0
    } else if reg == 2 {
        s.hart.sscratch
    } else {
        s.saved_registers[reg as int]
    }
}

/// The state after the guest's register `reg` takes `value`. A write to x0
/// changes nothing.
pub open spec fn with_register(s: ContextView, reg: u32, value: u64) -> ContextView {
    if reg == 0 {
        s
    } else if reg == 2 {
        ContextView { hart: Hart { sscratch: value, ..s.hart }, ..s }
    } else {
        ContextView { saved_registers: s.saved_registers.update(reg as int, value), ..s }
    }
}

/// Writes one of the guest's registers.
pub fn set_register(state: &mut Context, reg: u32, value: u64)
    requires
        well_formed(old(state)@),
        reg < 32,
    ensures
        final(state)@ == with_register(old(state)@, reg, value),
        well_formed(final(state)@),
{
    if reg == 0 {
    } else if reg == 2 {
        state.hart.sscratch = value;
    } else {
        state.saved_registers[reg as usize] = value;
    }
}

/// Reads one of the guest's registers.
pub fn get_register(state: &Context, reg: u32) -> (value: u64)
    requires
        well_formed(state@),
        reg < 32,
    ensures
        value == register_value(state@, reg),
{
    if reg == 0 {
        0
    } else if reg == 2 {
        state.hart.sscratch
    } else {
        state.saved_registers[reg as usize]
    }
}

/// The guest's CSRs after a trap into its S-mode is built: the
/// interrupt-enable stack pushed, SPP set to the mode it came from, and
/// `sepc`, `scause` and `stval` as given.
pub open spec fn trap_entered(csrs: Csrs, smode: bool, sepc: u64, cause: u64, stval: u64) -> Csrs {
    Csrs {
        sstatus: with_bits(pushed_sie(csrs.sstatus), STATUS_SPP, smode),
        sepc: sepc,
        scause: cause,
        stval: stval,
        ..csrs
    }
}

/// The state after an exception is forwarded to the guest: a trap into the
/// guest's S-mode with the hart's own `stval`, and the hart set to resume
/// at the base of the guest's `stvec`.
pub open spec fn exception_forwarded(s: ContextView, cause: u64, sepc: u64) -> ContextView {
    ContextView {
        csrs: trap_entered(s.csrs, s.smode, sepc, cause, s.hart.stval),
        smode: true,
        hart: Hart { sepc: s.csrs.stvec & TVEC_BASE, ..s.hart },
        ..s
    }
}

/// Forwards an exception to the guest.
pub fn forward_exception(state: &mut Context, cause: u64, sepc: u64)
    ensures
        final(state)@ == exception_forwarded(old(state)@, cause, sepc),
{
    state.csrs.push_sie();
    state.csrs.sepc = sepc;
    state.csrs.scause = cause;
    state.csrs.sstatus.set(STATUS_SPP, state.smode);
    state.csrs.stval = state.hart.stval;
    state.smode = true;
    state.hart.sepc = state.csrs.stvec & TVEC_BASE;
}

/// The guest's `sip` once the virtual interrupt controller is consulted:
/// SEIP is raised when it is clear and a source is pending.
pub open spec fn sip_with_plic(sip: u64, plic: PlicView) -> u64 {
    if !has_bits(sip, IP_SEIP) && interrupt_pending(plic) {
        sip | IP_SEIP
    } else {
        sip
    }
}

/// Whether an interrupt can be delivered to the guest now: it runs in
/// U-mode or has SIE set, and an enabled interrupt is pending.
pub open spec fn pending_delivery(smode: bool, sstatus: u64, sie: u64, sip: u64) -> bool {
    (!smode || has_bits(sstatus, STATUS_SIE)) && (sie & sip != 0)
}

/// The cause number of the interrupt that is delivered first: external
/// before timer before software. `None` when none of the three is pending.
pub open spec fn interrupt_cause(sip: u64) -> Option<u64> {
    if has_bits(sip, IP_SEIP) {
        Some(9)
    } else if has_bits(sip, IP_STIP) {
        Some(5)
    } else if has_bits(sip, IP_SSIP) {
        Some(1)
    } else {
        None
    }
}

/// Where the guest's trap handler for an interrupt starts: the base of
/// `stvec` in direct mode, four bytes further for each cause number in
/// vectored mode. `None` for any other mode.
pub open spec fn interrupt_vector(stvec: u64, cause: u64) -> Option<u64> {
    if stvec & TVEC_MODE == 0 {
        Some(stvec & TVEC_BASE)
    } else if stvec & TVEC_MODE == 1 {
        Some((stvec & TVEC_BASE).wrapping_add(cause.wrapping_mul(4)))
    } else {
        None
    }
}

/// The state after a pending interrupt is forwarded to the guest, if one
/// can be. With `no_interrupt` set nothing happens. Otherwise SEIP follows
/// the virtual interrupt controller; then either a trap into the guest's
/// S-mode is built for the first pending cause, with `stval` zero, or
/// `no_interrupt` is set. Where no cause or no vector can be found, the
/// result is fatal and only SEIP has changed.
pub open spec fn interrupt_forwarded(s: ContextView, sepc: u64) -> Outcome {
    if s.no_interrupt {
        Outcome { state: s, result: Ok(()) }
    } else {
        let sip = sip_with_plic(s.csrs.sip, s.plic);
        let polled = ContextView { csrs: Csrs { sip: sip, ..s.csrs }, ..s };
        if pending_delivery(s.smode, s.csrs.sstatus, s.csrs.sie, sip) {
            match interrupt_cause(sip) {
                None => Outcome { state: polled, result: Err(Fatal::NoPendingCause) },
                Some(cause) => match interrupt_vector(s.csrs.stvec, cause) {
                    None => Outcome { state: polled, result: Err(Fatal::BadVectorMode) },
                    Some(vector) => Outcome {
                        state: ContextView {
                            csrs: trap_entered(
                                polled.csrs,
                                s.smode,
                                sepc,
                                SCAUSE_INTERRUPT | cause,
                                0,
                            ),
                            smode: true,
                            hart: Hart { sepc: vector, ..s.hart },
                            ..polled
                        },
                        result: Ok(()),
                    },
                },
            }
        } else {
            Outcome { state: ContextView { no_interrupt: true, ..polled }, result: Ok(()) }
        }
    }
}

/// Forwards a pending interrupt to the guest, if one can be delivered.
pub fn maybe_forward_interrupt(state: &mut Context, sepc: u64) -> (result: Result<(), Fatal>)
    ensures
        final(state)@ == interrupt_forwarded(old(state)@, sepc).state,
        result == interrupt_forwarded(old(state)@, sepc).result,
{
    if state.no_interrupt {
        return Ok(());
    }
    if !state.csrs.sip.get(IP_SEIP) && state.plic.interrupt_pending() {
        state.csrs.sip.set(IP_SEIP, true);
    }
    if (!state.smode || state.csrs.sstatus.get(STATUS_SIE)) && (state.csrs.sie & state.csrs.sip
        != 0) {
        let cause: u64 = if state.csrs.sip.get(IP_SEIP) {
            9
        } else if state.csrs.sip.get(IP_STIP) {
            5
        } else if state.csrs.sip.get(IP_SSIP) {
            1
        } else {
            return Err(Fatal::NoPendingCause);
        };
        let mode = state.csrs.stvec & TVEC_MODE;
        let vector = if mode == 0 {
            state.csrs.stvec & TVEC_BASE
        } else if mode == 1 {
            (state.csrs.stvec & TVEC_BASE).wrapping_add(cause.wrapping_mul(4))
        } else {
            return Err(Fatal::BadVectorMode);
        };
        state.csrs.push_sie();
        state.csrs.sepc = sepc;
        state.csrs.scause = SCAUSE_INTERRUPT | cause;
        state.csrs.sstatus.set(STATUS_SPP, state.smode);
        state.csrs.stval = 0;
        state.smode = true;
        state.hart.sepc = vector;
        Ok(())
    } else {
        state.no_interrupt = true;
        Ok(())
    }
}

/// The state with one more piece of work left to the caller.
pub open spec fn with_effect(s: ContextView, effect: Effect) -> ContextView {
    ContextView { effects: s.effects.push(effect), ..s }
}

/// The earliest of the console's and the guest's timer deadlines that lie
/// after `time`, if either does.
pub open spec fn next_wakeup(console: u64, guest: u64, time: u64) -> Option<u64> {
    if console > time && guest > time {
        Some(if console <= guest { console } else { guest })
    } else if console > time {
        Some(console)
    } else if guest > time {
        Some(guest)
    } else {
        None
    }
}

/// The state after a software interrupt, by which the machine mode relays
/// the timer: the hart's SSIP is cleared; if the guest's timer is due, STIP
/// is raised and `no_interrupt` cleared; and the host timer is programmed
/// for the next deadline, if there is one.
pub open spec fn timer_interrupt_handled(s: ContextView, mtime: u64) -> ContextView {
    let due = s.csrs.mtimecmp <= mtime;
    let armed = match next_wakeup(s.uart_next_interrupt_time, s.csrs.mtimecmp, mtime) {
        Some(next) => s.effects.push(Effect::SetTimer(next)),
        None => s.effects,
    };
    ContextView {
        hart: Hart { sip: s.hart.sip & !IP_SSIP, ..s.hart },
        csrs: Csrs { sip: if due { s.csrs.sip | IP_STIP } else { s.csrs.sip }, ..s.csrs },
        no_interrupt: if due { false } else { s.no_interrupt },
        effects: armed,
        ..s
    }
}

/// Handles a software interrupt at host time `mtime`.
pub fn handle_timer_interrupt(state: &mut Context, mtime: u64)
    ensures
        final(state)@ == timer_interrupt_handled(old(state)@, mtime),
{
    state.hart.sip = state.hart.sip & !IP_SSIP;
    let guest = state.csrs.mtimecmp;
    let console = state.uart.next_interrupt_time;
    if guest <= mtime {
        state.csrs.sip = state.csrs.sip | IP_STIP;
        state.no_interrupt = false;
    }
    if console > mtime && guest > mtime {
        let next = if console <= guest { console } else { guest };
        state.effects.push(Effect::SetTimer(next));
    } else if console > mtime {
        state.effects.push(Effect::SetTimer(console));
    } else if guest > mtime {
        state.effects.push(Effect::SetTimer(guest));
    }
}

/// The state after an external interrupt for which the host's interrupt
/// controller handed out `claimed_irq`. The guest's interrupt number comes
/// from the interrupt map; if it is not zero it becomes pending, and if the
/// virtual interrupt controller then has an interrupt for the guest, SEIP
/// is raised and `no_interrupt` cleared. A claim that the map does not
/// know is fatal.
pub open spec fn external_interrupt_handled(s: ContextView, claimed_irq: u32) -> Outcome {
    if claimed_irq >= s.irq_map.len() {
        Outcome { state: s, result: Err(Fatal::UnknownHostIrq) }
    } else {
        let guest_irq = s.irq_map[claimed_irq as int];
        if guest_irq == 0 {
            Outcome { state: s, result: Ok(()) }
        } else {
            let plic = PlicView { pending: s.plic.pending.update(guest_irq as int, true), ..s.plic };
            if interrupt_pending(plic) {
                Outcome {
                    state: ContextView {
                        plic: plic,
                        no_interrupt: false,
                        csrs: Csrs { sip: s.csrs.sip | IP_SEIP, ..s.csrs },
                        ..s
                    },
                    result: Ok(()),
                }
            } else {
                Outcome { state: ContextView { plic: plic, ..s }, result: Ok(()) }
            }
        }
    }
}

/// Handles an external interrupt for which the host's interrupt controller
/// handed out `claimed_irq`.
pub fn handle_external_interrupt(state: &mut Context, claimed_irq: u32) -> (result: Result<
    (),
    Fatal,
>)
    requires
        well_formed(old(state)@),
    ensures
        final(state)@ == external_interrupt_handled(old(state)@, claimed_irq).state,
        result == external_interrupt_handled(old(state)@, claimed_irq).result,
        well_formed(final(state)@),
{
    if claimed_irq as usize >= state.irq_map.len() {
        return Err(Fatal::UnknownHostIrq);
    }
    let guest_irq = state.irq_map[claimed_irq as usize];
    if guest_irq != 0 {
        state.plic.set_pending(guest_irq, true);
        if state.plic.interrupt_pending() {
            state.no_interrupt = false;
            state.csrs.sip = state.csrs.sip | IP_SEIP;
        }
    }
    Ok(())
}

/// What the caller of the dispatcher has gathered outside: each field is
/// read only for the kind of trap that needs it.
#[derive(Clone, Copy, Debug)]
pub struct TrapInput {
    /// The instruction at the guest PC with its length in bytes, for an
    /// illegal instruction.
    pub instruction: Option<(u32, u64)>,
    /// The host's time, for a software interrupt.
    pub mtime: u64,
    /// What the host's interrupt controller handed out, for an external
    /// interrupt.
    pub claimed_irq: u32,
    /// Whether the shadow page-table engine has served the fault, for a
    /// page fault.
    pub page_fault_handled: bool,
    /// The guest PC at which the trap was taken, for a page fault: where
    /// the engine has served it by emulating the instruction, the hart has
    /// moved on since.
    pub sepc: u64,
}

/// Where an interrupt comes from.
#[derive(Clone, Copy, Debug, PartialEq, Eq, Structural)]
pub enum InterruptSource {
    /// The software interrupt, by which the machine mode relays the timer.
    Software,
    /// The external interrupt.
    External,
    /// Any other source, none of which is ever delivered.
    Other,
}

/// The source of an interrupt, which the low byte of `cause` names: 1 is
/// the software interrupt, 9 the external interrupt.
pub open spec fn source_of(cause: u64) -> InterruptSource {
    if cause & 0xff == 1 {
        InterruptSource::Software
    } else if cause & 0xff == 9 {
        InterruptSource::External
    } else {
        InterruptSource::Other
    }
}

/// Tells the source of an interrupt, so that the caller knows whether to
/// read the time or to claim an interrupt for `strap`.
pub fn interrupt_source(cause: u64) -> (source: InterruptSource)
    ensures
        source == source_of(cause),
{
    let interrupt = cause & 0xff;
    if interrupt == 1 {
        InterruptSource::Software
    } else if interrupt == 9 {
        InterruptSource::External
    } else {
        InterruptSource::Other
    }
}

/// Whether the instruction at the guest PC has to do with a trap of this
/// cause: it has with a load or store page fault and with an illegal
/// instruction.
pub open spec fn instruction_wanted(cause: u64) -> bool {
    cause == SCAUSE_LOAD_PAGE_FAULT || cause == SCAUSE_STORE_PAGE_FAULT || cause
        == SCAUSE_ILLEGAL_INSN
}

/// Tells whether the caller has to fetch the instruction at the guest PC.
pub fn needs_instruction(cause: u64) -> (r: bool)
    ensures
        r == instruction_wanted(cause),
{
    cause == SCAUSE_LOAD_PAGE_FAULT || cause == SCAUSE_STORE_PAGE_FAULT || cause
        == SCAUSE_ILLEGAL_INSN
}

/// The state after an interrupt: the software interrupt relays the timer,
/// the external interrupt is routed to the virtual interrupt controller.
/// Any other source is fatal.
pub open spec fn interrupt_handled(s: ContextView, cause: u64, input: TrapInput) -> Outcome {
    match source_of(cause) {
        InterruptSource::Software => Outcome {
            state: timer_interrupt_handled(s, input.mtime),
            result: Ok(()),
        },
        InterruptSource::External => external_interrupt_handled(s, input.claimed_irq),
        InterruptSource::Other => Outcome { state: s, result: Err(Fatal::UnexpectedInterrupt) },
    }
}

/// Routes an interrupt of the host to the guest's virtual devices.
pub fn handle_interrupt(state: &mut Context, cause: u64, input: &TrapInput) -> (result: Result<
    (),
    Fatal,
>)
    requires
        well_formed(old(state)@),
    ensures
        final(state)@ == interrupt_handled(old(state)@, cause, *input).state,
        result == interrupt_handled(old(state)@, cause, *input).result,
        well_formed(final(state)@),
{
    match interrupt_source(cause) {
        InterruptSource::Software => {
            handle_timer_interrupt(state, input.mtime);
            Ok(())
        },
        InterruptSource::External => handle_external_interrupt(state, input.claimed_irq),
        InterruptSource::Other => Err(Fatal::UnexpectedInterrupt),
    }
}

/// The instruction that starts with the halfword `low` and goes on with
/// `high`, and its length in bytes: `low` alone for a compressed
/// instruction, both halfwords for one of four bytes. A longer
/// instruction is fatal.
pub open spec fn instruction_of(low: u16, high: u16) -> Result<(u32, u64), Fatal> {
    if length_of(low) == 2 {
        Ok((low as u32, 2))
    } else if length_of(low) == 4 {
        Ok((low as u32 | ((high as u32) << 16), 4))
    } else {
        Err(Fatal::InstructionLength)
    }
}

/// Puts together the instruction at the guest PC from the two halfwords
/// found there. `high` is read only where the instruction has four bytes.
pub fn load_instruction_at_address(low: u16, high: u16) -> (r: Result<(u32, u64), Fatal>)
    ensures
        r == instruction_of(low, high),
{
    let length = instruction_length(low);
    if length == 2 {
        Ok((low as u32, 2))
    } else if length == 4 {
        Ok((low as u32 | ((high as u32) << 16), 4))
    } else {
        Err(Fatal::InstructionLength)
    }
}

/// The state after `sret`: `no_interrupt` is cleared if interrupts become
/// enabled; the interrupt-enable stack is popped; the guest's mode is what
/// SPP held, and SPP is cleared; the hart resumes at the guest's `sepc`. A
/// return to U-mode clears `no_interrupt` too.
pub open spec fn sret_executed(s: ContextView) -> ContextView {
    let enabling = !has_bits(s.csrs.sstatus, STATUS_SIE) && has_bits(s.csrs.sstatus, STATUS_SPIE);
    let popped = popped_sie(s.csrs.sstatus);
    let smode = has_bits(popped, STATUS_SPP);
    ContextView {
        csrs: Csrs { sstatus: popped & !STATUS_SPP, ..s.csrs },
        smode: smode,
        no_interrupt: if enabling || !smode { false } else { s.no_interrupt },
        hart: Hart { sepc: s.csrs.sepc, ..s.hart },
        ..s
    }
}

/// The operand of a CSR access: the register `rs1` for the three forms by
/// register, the five-bit immediate in the same place for the others.
pub open spec fn csr_operand(s: ContextView, kind: CsrKind, word: u32) -> u64 {
    match kind {
        CsrKind::Csrrw | CsrKind::Csrrs | CsrKind::Csrrc => register_value(s, rs1_of(word)),
        _ => rs1_of(word) as u64,
    }
}

/// What a CSR access writes, given what it read: the operand for a write,
/// the old value with the operand's bits set or cleared for the others.
/// `None` where a set or a clear has an operand of zero, which writes
/// nothing.
pub open spec fn csr_written(kind: CsrKind, previous: u64, operand: u64) -> Option<u64> {
    match kind {
        CsrKind::Csrrw | CsrKind::Csrrwi => Some(operand),
        CsrKind::Csrrs | CsrKind::Csrrsi => if operand != 0 {
            Some(previous | operand)
        } else {
            None
        },
        CsrKind::Csrrc | CsrKind::Csrrci => if operand != 0 {
            Some(previous & !operand)
        } else {
            None
        },
    }
}

/// The state after a CSR access. On a CSR that the guest does not see
/// nothing happens. Otherwise the CSR is read, written as `csr_written`
/// says, and `rd` takes what was read.
pub open spec fn csr_accessed(s: ContextView, kind: CsrKind, word: u32) -> ContextView {
    match csr_value(s, csr_of(word)) {
        None => s,
        Some(previous) => {
            let written = match csr_written(kind, previous, csr_operand(s, kind, word)) {
                Some(value) => with_csr(s, csr_of(word), value),
                None => s,
            };
            with_register(written, rd_of(word), previous)
        },
    }
}

/// The state with the hart set to resume `len` bytes after `pc`.
pub open spec fn resumed_after(s: ContextView, pc: u64, len: u64) -> ContextView {
    ContextView { hart: Hart { sepc: pc.wrapping_add(len), ..s.hart }, ..s }
}

/// The state after the instruction `d`, found at `pc` with a length of
/// `len` bytes, is emulated for a guest in S-mode. `sret` returns; a CSR
/// access, `sfence.vma` and `wfi` do their work and resume after the
/// instruction; for anything else an illegal-instruction exception is
/// forwarded to the guest.
pub open spec fn instruction_emulated(s: ContextView, d: Decoded, pc: u64, len: u64) -> ContextView {
    match d {
        Decoded::System(SystemOp::Sret) => sret_executed(s),
        Decoded::System(SystemOp::SfenceVma(word)) => resumed_after(
            with_effect(s, Effect::SfenceVma(rs1_of(word), rs2_of(word))),
            pc,
            len,
        ),
        Decoded::System(SystemOp::Wfi) => resumed_after(with_effect(s, Effect::Wfi), pc, len),
        Decoded::Csr(kind, word) => resumed_after(csr_accessed(s, kind, word), pc, len),
        _ => exception_forwarded(s, SCAUSE_ILLEGAL_INSN, pc),
    }
}

/// `with_csr` and `with_register` keep a state well formed.
pub proof fn lemma_access_well_formed(s: ContextView, csr: u32, reg: u32, value: u64)
    requires
        well_formed(s),
        reg < 32,
    ensures
        well_formed(with_csr(s, csr, value)),
        well_formed(with_register(s, reg, value)),
{
}

fn execute_sret(state: &mut Context)
    ensures
        final(state)@ == sret_executed(old(state)@),
{
    if !state.csrs.sstatus.get(STATUS_SIE) && state.csrs.sstatus.get(STATUS_SPIE) {
        state.no_interrupt = false;
    }
    state.csrs.pop_sie();
    state.smode = state.csrs.sstatus.get(STATUS_SPP);
    state.csrs.sstatus.set(STATUS_SPP, false);
    state.hart.sepc = state.csrs.sepc;
    if !state.smode {
        state.no_interrupt = false;
    }
}

fn access_csr(state: &mut Context, kind: CsrKind, word: u32)
    requires
        well_formed(old(state)@),
    ensures
        final(state)@ == csr_accessed(old(state)@, kind, word),
        well_formed(final(state)@),
{
    let csr = crate::riscv::csr(word);
    let rd = crate::riscv::rd(word);
    let rs1 = crate::riscv::rs1(word);
    if let Some(previous) = state.get_csr(csr) {
        let operand = match kind {
            CsrKind::Csrrw | CsrKind::Csrrs | CsrKind::Csrrc => get_register(state, rs1),
            _ => rs1 as u64,
        };
        proof {
            lemma_access_well_formed(state@, csr, rd, operand);
            lemma_access_well_formed(state@, csr, rd, previous | operand);
            lemma_access_well_formed(state@, csr, rd, previous & !operand);
        }
        match kind {
            CsrKind::Csrrw | CsrKind::Csrrwi => {
                state.set_csr(csr, operand);
            },
            CsrKind::Csrrs | CsrKind::Csrrsi => {
                if operand != 0 {
                    state.set_csr(csr, previous | operand);
                }
            },
            CsrKind::Csrrc | CsrKind::Csrrci => {
                if operand != 0 {
                    state.set_csr(csr, previous & !operand);
                }
            },
        }
        set_register(state, rd, previous);
    }
}

/// Emulates the instruction `d`, found at `pc` with a length of `len`
/// bytes, for a guest in S-mode.
pub fn emulate_instruction(state: &mut Context, d: Decoded, pc: u64, len: u64)
    requires
        well_formed(old(state)@),
    ensures
        final(state)@ == instruction_emulated(old(state)@, d, pc, len),
        well_formed(final(state)@),
{
    match d {
        Decoded::System(SystemOp::Sret) => {
            execute_sret(state);
        },
        Decoded::System(SystemOp::SfenceVma(word)) => {
            state.effects.push(Effect::SfenceVma(crate::riscv::rs1(word), crate::riscv::rs2(word)));
            state.hart.sepc = pc.wrapping_add(len);
        },
        Decoded::System(SystemOp::Wfi) => {
            state.effects.push(Effect::Wfi);
            state.hart.sepc = pc.wrapping_add(len);
        },
        Decoded::Csr(kind, word) => {
            access_csr(state, kind, word);
            state.hart.sepc = pc.wrapping_add(len);
        },
        _ => {
            forward_exception(state, SCAUSE_ILLEGAL_INSN, pc);
        },
    }
}

/// The state after the environment call that sets the guest's timer to
/// what a0 holds: STIP is cleared, the timer compare register takes the
/// value, and the host timer is programmed with it.
pub open spec fn timer_set(s: ContextView) -> ContextView {
    let deadline = register_value(s, 10);
    ContextView {
        csrs: Csrs { sip: s.csrs.sip & !IP_STIP, mtimecmp: deadline, ..s.csrs },
        effects: s.effects.push(Effect::SetTimer(deadline)),
        ..s
    }
}

fn sbi_set_timer(state: &mut Context)
    requires
        well_formed(old(state)@),
    ensures
        final(state)@ == timer_set(old(state)@),
        well_formed(final(state)@),
{
    let deadline = get_register(state, 10);
    state.csrs.sip = state.csrs.sip & !IP_STIP;
    state.csrs.mtimecmp = deadline;
    state.effects.push(Effect::SetTimer(deadline));
}

/// The low byte of a register.
pub open spec fn low_byte(value: u64) -> u8 {
    (value & 0xff) as u8
}

/// The state after an environment call of a guest in S-mode, by the
/// function number in a7: 0 sets the timer, 1 writes the low byte of a0 to
/// the console, 5 is `fence.i`, 6 and 7 drop the shadow page tables
/// whatever their arguments. The hart resumes four bytes further. Any
/// other number is fatal and changes nothing.
pub open spec fn sbi_called(s: ContextView) -> Outcome {
    let function = register_value(s, 17);
    let pc = s.hart.sepc;
    if function == 0 {
        Outcome { state: resumed_after(timer_set(s), pc, 4), result: Ok(()) }
    } else if function == 1 {
        Outcome {
            state: resumed_after(
                with_effect(s, Effect::ConsolePutchar(low_byte(register_value(s, 10)))),
                pc,
                4,
            ),
            result: Ok(()),
        }
    } else if function == 5 {
        Outcome { state: resumed_after(with_effect(s, Effect::FenceI), pc, 4), result: Ok(()) }
    } else if function == 6 || function == 7 {
        Outcome {
            state: resumed_after(with_effect(s, Effect::FlushShadowPageTables), pc, 4),
            result: Ok(()),
        }
    } else {
        Outcome { state: s, result: Err(Fatal::UnknownSbiCall) }
    }
}

/// Serves an environment call of a guest in S-mode.
pub fn handle_sbi_call(state: &mut Context) -> (result: Result<(), Fatal>)
    requires
        well_formed(old(state)@),
    ensures
        final(state)@ == sbi_called(old(state)@).state,
        result == sbi_called(old(state)@).result,
        well_formed(final(state)@),
{
    let function = get_register(state, 17);
    let pc = state.hart.sepc;
    if function == 0 {
        sbi_set_timer(state);
    } else if function == 1 {
        let value = get_register(state, 10);
        state.effects.push(Effect::ConsolePutchar((value & 0xff) as u8));
    } else if function == 5 {
        state.effects.push(Effect::FenceI);
    } else if function == 6 || function == 7 {
        state.effects.push(Effect::FlushShadowPageTables);
    } else {
        return Err(Fatal::UnknownSbiCall);
    }
    state.hart.sepc = pc.wrapping_add(4);
    Ok(())
}

/// The kinds of trap that the dispatcher tells apart.
#[derive(Clone, Copy, Debug, PartialEq, Eq, Structural)]
pub enum TrapKind {
    /// A trap out of the hypervisor itself.
    Hypervisor,
    /// An interrupt.
    Interrupt,
    /// An instruction, load or store page fault.
    PageFault,
    /// An illegal instruction of a guest in S-mode.
    PrivilegedInstruction,
    /// An environment call of a guest in S-mode.
    SbiCall,
    /// Any other exception.
    Exception,
}

/// The kind of the trap that the hart's CSRs describe.
pub open spec fn trap_kind(s: ContextView) -> TrapKind {
    let cause = s.hart.scause;
    if has_bits(s.hart.sstatus, STATUS_SPP) {
        TrapKind::Hypervisor
    } else if cause >= SCAUSE_INTERRUPT {
        TrapKind::Interrupt
    } else if cause == SCAUSE_INSN_PAGE_FAULT || cause == SCAUSE_LOAD_PAGE_FAULT || cause
        == SCAUSE_STORE_PAGE_FAULT {
        TrapKind::PageFault
    } else if cause == SCAUSE_ILLEGAL_INSN && s.smode {
        TrapKind::PrivilegedInstruction
    } else if cause == SCAUSE_ENV_CALL && s.smode {
        TrapKind::SbiCall
    } else {
        TrapKind::Exception
    }
}

/// Tells what kind of trap the hart's CSRs describe, so that the caller
/// knows what to gather for `strap`.
pub fn classify(state: &Context) -> (kind: TrapKind)
    ensures
        kind == trap_kind(state@),
{
    let cause = state.hart.scause;
    if state.hart.sstatus & STATUS_SPP != 0 {
        TrapKind::Hypervisor
    } else if cause >= SCAUSE_INTERRUPT {
        TrapKind::Interrupt
    } else if cause == SCAUSE_INSN_PAGE_FAULT || cause == SCAUSE_LOAD_PAGE_FAULT || cause
        == SCAUSE_STORE_PAGE_FAULT {
        TrapKind::PageFault
    } else if cause == SCAUSE_ILLEGAL_INSN && state.smode {
        TrapKind::PrivilegedInstruction
    } else if cause == SCAUSE_ENV_CALL && state.smode {
        TrapKind::SbiCall
    } else {
        TrapKind::Exception
    }
}

/// The state after a trap is dispatched, given the instruction at the
/// guest PC as the decoder sees it.
///
/// - An interrupt is routed, and then a pending interrupt is forwarded to
///   the guest if one can be.
/// - After a page fault that the shadow page-table engine has served, a
///   pending interrupt is forwarded if one can be; one that it has not
///   served is forwarded to the guest. Either is forwarded at the PC at
///   which the trap was taken.
/// - An illegal instruction of a guest in S-mode is emulated, and then a
///   pending interrupt is forwarded if one can be.
/// - An environment call of a guest in S-mode is served.
/// - Any other exception is forwarded to the guest.
///
/// A trap out of the hypervisor itself is fatal and changes nothing.
pub open spec fn dispatched(s: ContextView, input: TrapInput, d: Decoded) -> Outcome {
    let cause = s.hart.scause;
    let pc = s.hart.sepc;
    match trap_kind(s) {
        TrapKind::Hypervisor => Outcome { state: s, result: Err(Fatal::HypervisorTrap) },
        TrapKind::Interrupt => {
            let routed = interrupt_handled(s, cause, input);
            if routed.result is Ok {
                interrupt_forwarded(routed.state, pc)
            } else {
                routed
            }
        },
        TrapKind::PageFault => if input.page_fault_handled {
            interrupt_forwarded(s, input.sepc)
        } else {
            Outcome { state: exception_forwarded(s, cause, input.sepc), result: Ok(()) }
        },
        TrapKind::PrivilegedInstruction => match input.instruction {
            None => Outcome { state: s, result: Err(Fatal::MissingInstruction) },
            Some((_, len)) => {
                let emulated = instruction_emulated(s, d, pc, len);
                interrupt_forwarded(emulated, emulated.hart.sepc)
            },
        },
        TrapKind::SbiCall => sbi_called(s),
        TrapKind::Exception => Outcome { state: exception_forwarded(s, cause, pc), result: Ok(()) },
    }
}

/// The state after a whole trap: what `dispatched` says, and then, unless
/// that was fatal, the shadow page-table root is installed again.
pub open spec fn trap_handled(s: ContextView, input: TrapInput, d: Decoded) -> Outcome {
    let done = dispatched(s, input, d);
    if done.result is Ok {
        Outcome { state: with_effect(done.state, Effect::InstallRoot), result: Ok(()) }
    } else {
        done
    }
}

/// The instruction word in the input, or zero where there is none.
pub open spec fn input_word(input: TrapInput) -> u32 {
    match input.instruction {
        Some((word, _)) => word,
        None => 0,
    }
}

/// Dispatches a trap whose instruction at the guest PC, if it needs one,
/// has been decoded to `d`.
pub fn dispatch(state: &mut Context, input: &TrapInput, d: Decoded) -> (result: Result<(), Fatal>)
    requires
        well_formed(old(state)@),
    ensures
        final(state)@ == trap_handled(old(state)@, *input, d).state,
        result == trap_handled(old(state)@, *input, d).result,
        well_formed(final(state)@),
{
    let cause = state.hart.scause;
    let pc = state.hart.sepc;
    let result = match classify(state) {
        TrapKind::Hypervisor => Err(Fatal::HypervisorTrap),
        TrapKind::Interrupt => {
            match handle_interrupt(state, cause, input) {
                Ok(()) => maybe_forward_interrupt(state, pc),
                Err(fatal) => Err(fatal),
            }
        },
        TrapKind::PageFault => {
            if input.page_fault_handled {
                maybe_forward_interrupt(state, input.sepc)
            } else {
                forward_exception(state, cause, input.sepc);
                Ok(())
            }
        },
        TrapKind::PrivilegedInstruction => {
            match input.instruction {
                None => Err(Fatal::MissingInstruction),
                Some((_, len)) => {
                    emulate_instruction(state, d, pc, len);
                    let resume = state.hart.sepc;
                    maybe_forward_interrupt(state, resume)
                },
            }
        },
        TrapKind::SbiCall => handle_sbi_call(state),
        TrapKind::Exception => {
            forward_exception(state, cause, pc);
            Ok(())
        },
    };
    if result.is_ok() {
        state.effects.push(Effect::InstallRoot);
    }
    result
}

/// The trap handler. The hart's CSRs in `state` describe the trap, and
/// `input` holds what its kind needs from outside. On return the state
/// holds what the guest resumes with, and the work left to the caller.
pub fn strap(state: &mut Context, input: &TrapInput) -> (result: Result<(), Fatal>)
    requires
        well_formed(old(state)@),
    ensures
        final(state)@ == trap_handled(old(state)@, *input, decoded(input_word(*input))).state,
        result == trap_handled(old(state)@, *input, decoded(input_word(*input))).result,
        well_formed(final(state)@),
{
    let word = match input.instruction {
        Some((word, _)) => word,
        None => 0,
    };
    let d = decode(word);
    dispatch(state, input, d)
}

/// A CSR access that sets or clears bits with an operand of zero, as with
/// x0 for a source, leaves the state as it was but for `rd`, which takes
/// the CSR's value: the CSR reads as before, and `rd`, unless it is x0,
/// holds what it read.
pub proof fn law_csr_access_with_zero_mask(s: ContextView, kind: CsrKind, word: u32)
    requires
        well_formed(s),
        kind != CsrKind::Csrrw,
        kind != CsrKind::Csrrwi,
        csr_operand(s, kind, word) == 0,
        csr_value(s, csr_of(word)) is Some,
    ensures
        csr_accessed(s, kind, word) == with_register(
            s,
            rd_of(word),
            csr_value(s, csr_of(word))->0,
        ),
        csr_value(csr_accessed(s, kind, word), csr_of(word)) == csr_value(s, csr_of(word)),
        rd_of(word) != 0 ==> register_value(csr_accessed(s, kind, word), rd_of(word))
            == csr_value(s, csr_of(word))->0,
{
    crate::riscv::lemma_register_fields(word);
}

/// A source of x0 is an operand of zero for the three accesses by register.
pub proof fn law_x0_is_zero_mask(s: ContextView, kind: CsrKind, word: u32)
    requires
        kind == CsrKind::Csrrw || kind == CsrKind::Csrrs || kind == CsrKind::Csrrc,
        rs1_of(word) == 0,
    ensures
        csr_operand(s, kind, word) == 0,
{
}

/// A CSR write, followed by a CSR write of what the first one read back,
/// restores what the CSR reads as.
pub proof fn law_csr_write_round_trip(s: ContextView, first: u32, second: u32)
    requires
        well_formed(s),
        csr_value(s, csr_of(first)) is Some,
        csr_of(second) == csr_of(first),
        rd_of(first) != 0,
        rs1_of(second) == rd_of(first),
    ensures
        csr_value(
            csr_accessed(csr_accessed(s, CsrKind::Csrrw, first), CsrKind::Csrrw, second),
            csr_of(first),
        ) == csr_value(s, csr_of(first)),
{
    crate::riscv::lemma_register_fields(first);
    let csr = csr_of(first);
    let previous = csr_value(s, csr)->0;
    let value = register_value(s, rs1_of(first));
    let written = with_csr(s, csr, value);
    let one = csr_accessed(s, CsrKind::Csrrw, first);
    assert(one == with_register(written, rd_of(first), previous));
    assert(register_value(one, rs1_of(second)) == previous);
    assert(csr_value(one, csr) == csr_value(written, csr));
    let two = csr_accessed(one, CsrKind::Csrrw, second);
    assert(two == with_register(
        with_csr(one, csr, previous),
        rd_of(second),
        csr_value(one, csr)->0,
    ));
    lemma_merge_twice(s.csrs.sstatus, value, s.hart.sstatus);
    lemma_merge_twice(s.csrs.sie, value, 0);
    lemma_merge_twice(s.csrs.sip, value, 0);
}

/// `sret` with SPP and SPIE set and SIE clear leaves SIE and SPIE set and
/// SPP clear, keeps the guest in S-mode, and resumes at the guest's `sepc`.
pub proof fn law_sret_round_trip(s: ContextView)
    requires
        has_bits(s.csrs.sstatus, STATUS_SPP),
        has_bits(s.csrs.sstatus, STATUS_SPIE),
        !has_bits(s.csrs.sstatus, STATUS_SIE),
    ensures
        has_bits(sret_executed(s).csrs.sstatus, STATUS_SIE),
        has_bits(sret_executed(s).csrs.sstatus, STATUS_SPIE),
        !has_bits(sret_executed(s).csrs.sstatus, STATUS_SPP),
        sret_executed(s).smode,
        sret_executed(s).hart.sepc == s.csrs.sepc,
        !sret_executed(s).no_interrupt,
{
    let x = s.csrs.sstatus;
    assert(x & (1u64 << 8) != 0 && x & (1u64 << 5) != 0 ==> {
        let popped = (x | (1u64 << 1)) | (1u64 << 5);
        &&& popped & (1u64 << 8) != 0
        &&& (popped & !(1u64 << 8)) & (1u64 << 1) != 0
        &&& (popped & !(1u64 << 8)) & (1u64 << 5) != 0
        &&& (popped & !(1u64 << 8)) & (1u64 << 8) == 0
    }) by (bit_vector);
}

/// Whatever is pending, the interrupt that is forwarded is the external one
/// before the timer before the software interrupt: with all three enabled,
/// deliverable and a usable `stvec`, the guest's `scause` is the interrupt
/// bit with 9 if SEIP is pending, else with 5 if STIP is, else with 1 if
/// SSIP is.
pub proof fn law_interrupt_priority(s: ContextView, sepc: u64)
    requires
        !s.no_interrupt,
        !s.smode || has_bits(s.csrs.sstatus, STATUS_SIE),
        s.csrs.sie & (IP_SEIP | IP_STIP | IP_SSIP) == IP_SEIP | IP_STIP | IP_SSIP,
        s.csrs.stvec & TVEC_MODE <= 1,
    ensures
        ({
            let sip = sip_with_plic(s.csrs.sip, s.plic);
            let after = interrupt_forwarded(s, sepc);
            &&& has_bits(sip, IP_SEIP) ==> after.result is Ok && after.state.csrs.scause
                == SCAUSE_INTERRUPT | 9
            &&& !has_bits(sip, IP_SEIP) && has_bits(sip, IP_STIP) ==> after.result is Ok
                && after.state.csrs.scause == SCAUSE_INTERRUPT | 5
            &&& !has_bits(sip, IP_SEIP) && !has_bits(sip, IP_STIP) && has_bits(sip, IP_SSIP)
                ==> after.result is Ok && after.state.csrs.scause == SCAUSE_INTERRUPT | 1
        }),
{
    let sip = sip_with_plic(s.csrs.sip, s.plic);
    let sie = s.csrs.sie;
    assert(sie & ((1u64 << 9) | (1u64 << 5) | (1u64 << 1)) == (1u64 << 9) | (1u64 << 5) | (1u64
        << 1) ==> {
        &&& (sip & (1u64 << 9) != 0 ==> sie & sip != 0)
        &&& (sip & (1u64 << 5) != 0 ==> sie & sip != 0)
        &&& (sip & (1u64 << 1) != 0 ==> sie & sip != 0)
    }) by (bit_vector);
}

} // verus!
