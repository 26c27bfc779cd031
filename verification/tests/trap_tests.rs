use rvirt::context::{Context, Csrs, Effect, Fatal, GuestMemory, Plic};
use rvirt::trap::constants::{
    cause_to_str, IP_SEIP, IP_SSIP, IP_STIP, SCAUSE_ENV_CALL, SCAUSE_ILLEGAL_INSN,
    SCAUSE_INTERRUPT, SCAUSE_LOAD_PAGE_FAULT, SSTATUS_WRITABLE_MASK, STATUS_FS, STATUS_MXR,
    STATUS_SD, STATUS_SIE, STATUS_SPIE, STATUS_SPP,
};
use rvirt::trap::{
    classify, forward_exception, get_register, handle_interrupt, interrupt_source,
    load_instruction_at_address, maybe_forward_interrupt, needs_instruction, set_register, strap,
    InterruptSource, TrapInput, TrapKind, U64Bits,
};

const SRET: u32 = 0x1020_0073;
const WFI: u32 = 0x1050_0073;
const CSR_SSTATUS: u32 = 0x100;
const CSR_SIE: u32 = 0x104;
const CSR_SSCRATCH: u32 = 0x140;
const CSR_SATP: u32 = 0x180;

fn context() -> Context {
    Context::new(GuestMemory { base: 0x8000_0000, words: vec![0; 64] }, 0x4000_0000)
}

fn input() -> TrapInput {
    TrapInput { instruction: None, mtime: 0, claimed_irq: 0, page_fault_handled: false, sepc: 0 }
}

fn with_instruction(word: u32) -> TrapInput {
    TrapInput { instruction: Some((word, 4)), ..input() }
}

/// A CSR access: `funct3` tells which, `source` is a register or an
/// immediate.
fn csr_access(funct3: u32, rd: u32, csr: u32, source: u32) -> u32 {
    csr << 20 | source << 15 | funct3 << 12 | rd << 7 | 0x73
}

fn csrrw(rd: u32, csr: u32, rs1: u32) -> u32 {
    csr_access(1, rd, csr, rs1)
}

fn csrrs(rd: u32, csr: u32, rs1: u32) -> u32 {
    csr_access(2, rd, csr, rs1)
}

fn csrrc(rd: u32, csr: u32, rs1: u32) -> u32 {
    csr_access(3, rd, csr, rs1)
}

/// A guest in S-mode that has trapped on an illegal instruction at 0x1000.
fn illegal() -> Context {
    let mut state = context();
    state.hart.scause = SCAUSE_ILLEGAL_INSN;
    state.hart.sepc = 0x1000;
    state
}

#[test]
fn cause_names() {
    assert_eq!(cause_to_str(0), "Instruction address misaligned");
    assert_eq!(cause_to_str(2), "Illegal instruction");
    assert_eq!(cause_to_str(8), "Environment call from U-mode");
    assert_eq!(cause_to_str(15), "Store/AMO page fault");
    assert_eq!(cause_to_str(16), "Reserved (>=16)");
    assert_eq!(cause_to_str(1 << 63), "Interrupt");
    assert_eq!(cause_to_str(u64::MAX), "Interrupt");
}

#[test]
fn bits_of_a_word() {
    let mut word: u64 = 0b1010;
    assert!(word.get(0b1000));
    assert!(word.get(0b0110));
    assert!(!word.get(0b0101));
    word.set(0b0101, true);
    assert_eq!(word, 0b1111);
    word.set(0b0110, false);
    assert_eq!(word, 0b1001);
}

#[test]
fn push_and_pop_of_the_interrupt_enable_stack() {
    let mut csrs = Csrs::new();
    csrs.sstatus = STATUS_SIE | STATUS_FS;
    csrs.push_sie();
    assert_eq!(csrs.sstatus, STATUS_SPIE | STATUS_FS);
    csrs.push_sie();
    assert_eq!(csrs.sstatus, STATUS_FS);
    csrs.pop_sie();
    assert_eq!(csrs.sstatus, STATUS_SPIE | STATUS_FS);
    csrs.pop_sie();
    assert_eq!(csrs.sstatus, STATUS_SIE | STATUS_SPIE | STATUS_FS);
}

#[test]
fn registers_of_the_guest() {
    let mut state = context();
    set_register(&mut state, 0, 5);
    assert_eq!(get_register(&state, 0), 0);
    assert_eq!(state.saved_registers[0], 0);
    set_register(&mut state, 2, 0x8000_1000);
    assert_eq!(state.hart.sscratch, 0x8000_1000);
    assert_eq!(state.saved_registers[2], 0);
    assert_eq!(get_register(&state, 2), 0x8000_1000);
    set_register(&mut state, 31, 7);
    assert_eq!(state.saved_registers[31], 7);
    assert_eq!(get_register(&state, 31), 7);
    set_register(&mut state, 1, 9);
    assert_eq!(get_register(&state, 1), 9);
}

#[test]
fn csrs_of_the_guest() {
    let mut state = context();
    assert_eq!(state.get_csr(0x123), None);
    state.set_csr(0x123, 5);
    state.set_csr(CSR_SSCRATCH, 77);
    assert_eq!(state.get_csr(CSR_SSCRATCH), Some(77));
    assert_eq!(state.csrs.sscratch, 77);
    state.set_csr(CSR_SIE, u64::MAX);
    assert_eq!(state.get_csr(CSR_SIE), Some(IP_SEIP | IP_STIP | IP_SSIP));
    state.hart.sstatus = STATUS_SD | STATUS_FS;
    assert_eq!(state.get_csr(CSR_SSTATUS), Some(STATUS_SD | STATUS_FS));
    state.set_csr(CSR_SSTATUS, u64::MAX);
    assert_eq!(state.csrs.sstatus, SSTATUS_WRITABLE_MASK);
    assert!(state.effects.is_empty());
    state.set_csr(CSR_SATP, 0x8000_0000_0008_0000);
    assert_eq!(state.get_csr(CSR_SATP), Some(0x8000_0000_0008_0000));
    assert_eq!(state.effects, vec![Effect::FlushShadowPageTables]);
}

#[test]
fn instruction_from_its_halfwords() {
    assert_eq!(load_instruction_at_address(0x0073, 0x1020), Ok((SRET, 4)));
    assert_eq!(load_instruction_at_address(0x43b0, 0xffff), Ok((0x43b0, 2)));
    assert_eq!(load_instruction_at_address(0x001f, 0), Err(Fatal::InstructionLength));
}

#[test]
fn kinds_of_trap() {
    let mut state = context();
    state.hart.scause = SCAUSE_INTERRUPT | 1;
    assert_eq!(classify(&state), TrapKind::Interrupt);
    state.hart.scause = SCAUSE_LOAD_PAGE_FAULT;
    assert_eq!(classify(&state), TrapKind::PageFault);
    state.hart.scause = SCAUSE_ILLEGAL_INSN;
    assert_eq!(classify(&state), TrapKind::PrivilegedInstruction);
    state.hart.scause = SCAUSE_ENV_CALL;
    assert_eq!(classify(&state), TrapKind::SbiCall);
    state.smode = false;
    assert_eq!(classify(&state), TrapKind::Exception);
    state.hart.scause = SCAUSE_ILLEGAL_INSN;
    assert_eq!(classify(&state), TrapKind::Exception);
    state.hart.sstatus = STATUS_SPP;
    assert_eq!(classify(&state), TrapKind::Hypervisor);
}

#[test]
fn trap_out_of_the_hypervisor_is_fatal() {
    let mut state = context();
    state.hart.sstatus = STATUS_SPP;
    state.hart.scause = SCAUSE_ENV_CALL;
    assert_eq!(strap(&mut state, &input()), Err(Fatal::HypervisorTrap));
    assert!(state.effects.is_empty());
    assert_eq!(state.hart.sepc, 0);
}

#[test]
fn sbi_set_timer() {
    let mut state = context();
    state.csrs.sip = IP_STIP;
    state.csrs.mtimecmp = 100;
    state.hart.scause = SCAUSE_ENV_CALL;
    state.hart.sepc = 0x1000;
    state.saved_registers[17] = 0;
    state.saved_registers[10] = 500;
    assert_eq!(strap(&mut state, &input()), Ok(()));
    assert_eq!(state.csrs.sip & IP_STIP, 0);
    assert_eq!(state.csrs.mtimecmp, 500);
    assert_eq!(state.effects, vec![Effect::SetTimer(500), Effect::InstallRoot]);
    assert_eq!(state.hart.sepc, 0x1004);
}

#[test]
fn sbi_calls() {
    let mut state = context();
    state.hart.scause = SCAUSE_ENV_CALL;
    state.hart.sepc = 0x1000;
    state.saved_registers[17] = 1;
    state.saved_registers[10] = 0x1_0041;
    assert_eq!(strap(&mut state, &input()), Ok(()));
    state.saved_registers[17] = 5;
    assert_eq!(strap(&mut state, &input()), Ok(()));
    state.saved_registers[17] = 6;
    assert_eq!(strap(&mut state, &input()), Ok(()));
    state.saved_registers[17] = 7;
    assert_eq!(strap(&mut state, &input()), Ok(()));
    assert_eq!(
        state.effects,
        vec![
            Effect::ConsolePutchar(0x41),
            Effect::InstallRoot,
            Effect::FenceI,
            Effect::InstallRoot,
            Effect::FlushShadowPageTables,
            Effect::InstallRoot,
            Effect::FlushShadowPageTables,
            Effect::InstallRoot,
        ]
    );
    assert_eq!(state.hart.sepc, 0x1010);
}

#[test]
fn sbi_unknown_call_is_fatal() {
    let mut state = context();
    state.hart.scause = SCAUSE_ENV_CALL;
    state.hart.sepc = 0x1000;
    state.saved_registers[17] = 99;
    assert_eq!(strap(&mut state, &input()), Err(Fatal::UnknownSbiCall));
    assert!(state.effects.is_empty());
    assert_eq!(state.hart.sepc, 0x1000);
}

#[test]
fn external_interrupt_routing() {
    let mut state = context();
    state.no_interrupt = true;
    state.irq_map[3] = 7;
    let claimed = TrapInput { claimed_irq: 3, ..input() };
    assert_eq!(handle_interrupt(&mut state, SCAUSE_INTERRUPT | 9, &claimed), Ok(()));
    assert!(state.plic.pending[7]);
    assert_eq!(state.plic.pending.iter().filter(|p| **p).count(), 1);
    assert_eq!(state.csrs.sip, IP_SEIP);
    assert!(!state.no_interrupt);
}

#[test]
fn external_interrupt_that_is_not_mapped_or_not_enabled() {
    let mut state = context();
    state.no_interrupt = true;
    let claimed = TrapInput { claimed_irq: 3, ..input() };
    assert_eq!(handle_interrupt(&mut state, SCAUSE_INTERRUPT | 9, &claimed), Ok(()));
    assert_eq!(state.plic.pending.iter().filter(|p| **p).count(), 0);
    assert_eq!(state.csrs.sip, 0);
    assert!(state.no_interrupt);

    state.irq_map[3] = 7;
    state.plic.enabled[7] = false;
    assert_eq!(handle_interrupt(&mut state, SCAUSE_INTERRUPT | 9, &claimed), Ok(()));
    assert!(state.plic.pending[7]);
    assert!(!state.plic.interrupt_pending());
    assert_eq!(state.csrs.sip, 0);
    assert!(state.no_interrupt);
}

#[test]
fn interrupt_controller_of_the_guest() {
    let mut plic = Plic::new();
    assert_eq!(plic.pending.len(), 512);
    assert!(!plic.interrupt_pending());
    plic.set_pending(511, true);
    assert!(plic.interrupt_pending());
    plic.set_pending(511, false);
    assert!(!plic.interrupt_pending());
}

#[test]
fn interrupts_that_are_fatal() {
    let mut state = context();
    let beyond = TrapInput { claimed_irq: 512, ..input() };
    assert_eq!(
        handle_interrupt(&mut state, SCAUSE_INTERRUPT | 9, &beyond),
        Err(Fatal::UnknownHostIrq)
    );
    assert_eq!(
        handle_interrupt(&mut state, SCAUSE_INTERRUPT | 5, &input()),
        Err(Fatal::UnexpectedInterrupt)
    );
    state.hart.scause = SCAUSE_INTERRUPT | 7;
    assert_eq!(strap(&mut state, &input()), Err(Fatal::UnexpectedInterrupt));
    assert!(state.effects.is_empty());
}

#[test]
fn timer_interrupt_raises_the_guest_timer_and_arms_the_next_deadline() {
    let mut state = context();
    state.no_interrupt = true;
    state.hart.sip = IP_SSIP | IP_SEIP;
    state.csrs.mtimecmp = 900;
    state.uart.next_interrupt_time = 1500;
    let at = TrapInput { mtime: 1000, ..input() };
    assert_eq!(handle_interrupt(&mut state, SCAUSE_INTERRUPT | 1, &at), Ok(()));
    assert_eq!(state.hart.sip, IP_SEIP);
    assert_eq!(state.csrs.sip, IP_STIP);
    assert!(!state.no_interrupt);
    assert_eq!(state.effects, vec![Effect::SetTimer(1500)]);
}

#[test]
fn timer_interrupt_before_the_guest_timer_is_due() {
    let mut state = context();
    state.no_interrupt = true;
    state.csrs.mtimecmp = 1200;
    state.uart.next_interrupt_time = 1500;
    let at = TrapInput { mtime: 1000, ..input() };
    assert_eq!(handle_interrupt(&mut state, SCAUSE_INTERRUPT | 1, &at), Ok(()));
    assert_eq!(state.csrs.sip, 0);
    assert!(state.no_interrupt);
    assert_eq!(state.effects, vec![Effect::SetTimer(1200)]);

    state.uart.next_interrupt_time = 1000;
    state.csrs.mtimecmp = 0x1_0000_0000;
    assert_eq!(handle_interrupt(&mut state, SCAUSE_INTERRUPT | 1, &at), Ok(()));
    assert_eq!(state.effects, vec![Effect::SetTimer(1200), Effect::SetTimer(0x1_0000_0000)]);

    state.csrs.mtimecmp = 1000;
    assert_eq!(handle_interrupt(&mut state, SCAUSE_INTERRUPT | 1, &at), Ok(()));
    assert_eq!(state.csrs.sip, IP_STIP);
    assert_eq!(state.effects.len(), 2);
}

fn deliverable(sip: u64) -> Context {
    let mut state = context();
    state.csrs.sstatus = STATUS_SIE;
    state.csrs.sie = IP_SEIP | IP_STIP | IP_SSIP;
    state.csrs.sip = sip;
    state.csrs.stvec = 0x8000_0100;
    state.csrs.stval = 0x55;
    state
}

#[test]
fn interrupt_forwarding_priority() {
    let mut external = deliverable(IP_SEIP | IP_STIP | IP_SSIP);
    assert_eq!(maybe_forward_interrupt(&mut external, 0x2000), Ok(()));
    assert_eq!(external.csrs.scause, (1 << 63) | 9);
    let mut timer = deliverable(IP_STIP | IP_SSIP);
    assert_eq!(maybe_forward_interrupt(&mut timer, 0x2000), Ok(()));
    assert_eq!(timer.csrs.scause, (1 << 63) | 5);
    let mut software = deliverable(IP_SSIP);
    assert_eq!(maybe_forward_interrupt(&mut software, 0x2000), Ok(()));
    assert_eq!(software.csrs.scause, (1 << 63) | 1);
    assert_eq!(software.csrs.sepc, 0x2000);
    assert_eq!(software.csrs.stval, 0);
    assert_eq!(software.csrs.sstatus, STATUS_SPIE | STATUS_SPP);
    assert!(software.smode);
    assert_eq!(software.hart.sepc, 0x8000_0100);
    assert!(!software.no_interrupt);
}

#[test]
fn interrupt_forwarding_by_vector_and_from_user_mode() {
    let mut state = deliverable(IP_STIP);
    state.csrs.stvec = 0x8000_0101;
    state.csrs.sstatus = 0;
    state.smode = false;
    assert_eq!(maybe_forward_interrupt(&mut state, 0x2000), Ok(()));
    assert_eq!(state.hart.sepc, 0x8000_0100 + 4 * 5);
    assert_eq!(state.csrs.sstatus, 0);
    assert!(state.smode);
}

#[test]
fn interrupt_forwarding_follows_the_interrupt_controller() {
    let mut state = deliverable(0);
    state.plic.set_pending(4, true);
    assert_eq!(maybe_forward_interrupt(&mut state, 0x2000), Ok(()));
    assert_eq!(state.csrs.sip, IP_SEIP);
    assert_eq!(state.csrs.scause, (1 << 63) | 9);
}

#[test]
fn interrupt_forwarding_latches_when_nothing_can_be_delivered() {
    let mut masked = deliverable(IP_STIP);
    masked.csrs.sstatus = 0;
    let before = masked.csrs;
    assert_eq!(maybe_forward_interrupt(&mut masked, 0x2000), Ok(()));
    assert!(masked.no_interrupt);
    assert_eq!(masked.csrs, before);
    masked.csrs.sstatus = STATUS_SIE;
    assert_eq!(maybe_forward_interrupt(&mut masked, 0x2000), Ok(()));
    assert_eq!(masked.csrs, Csrs { sstatus: STATUS_SIE, ..before });
    assert_eq!(masked.hart.sepc, 0);
}

#[test]
fn interrupt_forwarding_that_is_fatal() {
    let mut mode = deliverable(IP_STIP);
    mode.csrs.stvec = 0x8000_0102;
    assert_eq!(maybe_forward_interrupt(&mut mode, 0x2000), Err(Fatal::BadVectorMode));
    assert_eq!(mode.csrs.scause, 0);
    let mut cause = deliverable(1 << 3);
    cause.csrs.sie = 1 << 3;
    assert_eq!(maybe_forward_interrupt(&mut cause, 0x2000), Err(Fatal::NoPendingCause));
}

#[test]
fn exception_forwarding() {
    let mut state = context();
    state.csrs.sstatus = STATUS_SIE | STATUS_SPIE;
    state.csrs.stvec = 0x8000_0103;
    state.hart.stval = 0xbad;
    forward_exception(&mut state, 13, 0x2000);
    assert_eq!(state.csrs.sstatus, STATUS_SPIE | STATUS_SPP);
    assert_eq!(state.csrs.sepc, 0x2000);
    assert_eq!(state.csrs.scause, 13);
    assert_eq!(state.csrs.stval, 0xbad);
    assert_eq!(state.hart.sepc, 0x8000_0100);
    assert!(state.smode);
}

#[test]
fn illegal_instruction_forwarded() {
    let mut state = context();
    state.smode = false;
    state.csrs.sstatus = STATUS_SIE | STATUS_SPP;
    state.csrs.stvec = 0x8000_0101;
    state.hart.scause = SCAUSE_ILLEGAL_INSN;
    state.hart.stval = 0xbad;
    state.hart.sepc = 0x2000;
    assert_eq!(strap(&mut state, &with_instruction(0xffff_ffff)), Ok(()));
    assert_eq!(state.csrs.scause, 2);
    assert_eq!(state.csrs.stval, 0xbad);
    assert_eq!(state.csrs.sepc, 0x2000);
    assert_eq!(state.csrs.sstatus, STATUS_SPIE);
    assert!(state.smode);
    assert_eq!(state.hart.sepc, 0x8000_0100);
    assert_eq!(state.effects, vec![Effect::InstallRoot]);
}

#[test]
fn instruction_that_is_not_emulated_is_forwarded_to_the_guest_in_s_mode() {
    for word in [0x0000_0073, 0x0005_a503, 0xffff_ffff, 0] {
        let mut state = illegal();
        state.csrs.stvec = 0x8000_0100;
        assert_eq!(strap(&mut state, &with_instruction(word)), Ok(()));
        assert_eq!(state.csrs.scause, 2);
        assert_eq!(state.csrs.sepc, 0x1000);
        assert_eq!(state.csrs.sstatus, STATUS_SPP);
        assert_eq!(state.hart.sepc, 0x8000_0100);
    }
}

#[test]
fn privileged_instruction_without_the_instruction_is_fatal() {
    let mut state = illegal();
    assert_eq!(strap(&mut state, &input()), Err(Fatal::MissingInstruction));
}

#[test]
fn csr_read_modify_write_on_sstatus() {
    let mut state = illegal();
    state.csrs.sstatus = STATUS_SPP;
    state.saved_registers[6] = STATUS_MXR | 0xdead_beef;
    let word = csrrs(5, CSR_SSTATUS, 6);
    assert_eq!(word, 0x1003_22f3);
    assert_eq!(strap(&mut state, &with_instruction(word)), Ok(()));
    assert_eq!(state.saved_registers[5], STATUS_SPP);
    assert_eq!(state.csrs.sstatus, 0xc2122);
    assert_eq!(state.csrs.sstatus, STATUS_SPP | (0xdead_beef & SSTATUS_WRITABLE_MASK));
    assert_eq!(state.hart.sepc, 0x1004);
    assert!(state.no_interrupt);
    assert_eq!(state.effects, vec![Effect::InstallRoot]);
}

#[test]
fn csr_read_shows_the_bits_of_the_hart() {
    let mut state = illegal();
    state.csrs.sstatus = STATUS_SPP;
    state.hart.sstatus = STATUS_SD | STATUS_FS;
    assert_eq!(strap(&mut state, &with_instruction(csrrs(5, CSR_SSTATUS, 0))), Ok(()));
    assert_eq!(state.saved_registers[5], STATUS_SD | STATUS_FS | STATUS_SPP);
    assert_eq!(state.csrs.sstatus, STATUS_SPP);
}

#[test]
fn csr_set_and_clear_with_a_mask_of_zero_only_read() {
    let mut state = illegal();
    state.csrs.sscratch = 0x1234;
    assert_eq!(strap(&mut state, &with_instruction(csrrs(5, CSR_SSCRATCH, 0))), Ok(()));
    assert_eq!(state.saved_registers[5], 0x1234);
    assert_eq!(state.csrs.sscratch, 0x1234);
    state.hart.sepc = 0x1000;
    state.saved_registers[7] = 0;
    assert_eq!(strap(&mut state, &with_instruction(csrrc(7, CSR_SSCRATCH, 7))), Ok(()));
    assert_eq!(state.saved_registers[7], 0x1234);
    assert_eq!(state.csrs.sscratch, 0x1234);
    state.hart.sepc = 0x1000;
    assert_eq!(strap(&mut state, &with_instruction(csr_access(6, 8, CSR_SATP, 0))), Ok(()));
    assert_eq!(state.effects, vec![Effect::InstallRoot; 3]);
}

#[test]
fn csr_write_and_write_back_restores_the_csr() {
    let mut state = illegal();
    state.csrs.sie = IP_STIP;
    state.saved_registers[6] = IP_SEIP | IP_SSIP | 0xf000;
    assert_eq!(strap(&mut state, &with_instruction(csrrw(5, CSR_SIE, 6))), Ok(()));
    assert_eq!(state.csrs.sie, IP_SEIP | IP_SSIP);
    assert_eq!(state.saved_registers[5], IP_STIP);
    state.hart.sepc = 0x1004;
    assert_eq!(strap(&mut state, &with_instruction(csrrw(0, CSR_SIE, 5))), Ok(()));
    assert_eq!(state.csrs.sie, IP_STIP);
    assert_eq!(state.hart.sepc, 0x1008);
}

#[test]
fn csr_accesses_by_immediate_and_by_clearing() {
    let mut state = illegal();
    state.csrs.sscratch = 0xff;
    assert_eq!(strap(&mut state, &with_instruction(csr_access(7, 5, CSR_SSCRATCH, 0x11))), Ok(()));
    assert_eq!(state.csrs.sscratch, 0xee);
    assert_eq!(state.saved_registers[5], 0xff);
    state.hart.sepc = 0x1000;
    assert_eq!(strap(&mut state, &with_instruction(csr_access(6, 5, CSR_SSCRATCH, 0x1))), Ok(()));
    assert_eq!(state.csrs.sscratch, 0xef);
    state.hart.sepc = 0x1000;
    assert_eq!(strap(&mut state, &with_instruction(csr_access(5, 5, CSR_SSCRATCH, 0x1f))), Ok(()));
    assert_eq!(state.csrs.sscratch, 0x1f);
    assert_eq!(state.saved_registers[5], 0xef);
    state.hart.sepc = 0x1000;
    state.saved_registers[6] = 0x0f;
    assert_eq!(strap(&mut state, &with_instruction(csrrc(0, CSR_SSCRATCH, 6))), Ok(()));
    assert_eq!(state.csrs.sscratch, 0x10);
}

#[test]
fn csr_that_the_guest_does_not_see_is_skipped() {
    let mut state = illegal();
    state.saved_registers[5] = 42;
    state.saved_registers[6] = 1;
    let before = state.csrs;
    assert_eq!(strap(&mut state, &with_instruction(csrrw(5, 0x7c0, 6))), Ok(()));
    assert_eq!(state.saved_registers[5], 42);
    assert_eq!(state.csrs, before);
    assert_eq!(state.hart.sepc, 0x1004);
}

#[test]
fn sret_round_trip() {
    let mut state = illegal();
    state.no_interrupt = true;
    state.csrs.sstatus = STATUS_SPP | STATUS_SPIE;
    state.csrs.sepc = 0x8020_0000;
    state.csrs.sie = IP_STIP;
    state.csrs.sip = IP_STIP;
    state.csrs.stvec = 0x8000_0100;
    assert_eq!(strap(&mut state, &with_instruction(SRET)), Ok(()));
    // The return enables interrupts, and the timer interrupt that was
    // pending is delivered at once, at the address of the return.
    assert_eq!(state.csrs.scause, (1 << 63) | 5);
    assert_eq!(state.csrs.sepc, 0x8020_0000);
    assert_eq!(state.csrs.sstatus, STATUS_SPIE | STATUS_SPP);
    assert_eq!(state.hart.sepc, 0x8000_0100);
}

#[test]
fn sret_to_supervisor_and_to_user_mode() {
    let mut state = illegal();
    state.csrs.sstatus = STATUS_SPP | STATUS_SPIE;
    state.csrs.sepc = 0x8020_0000;
    assert_eq!(strap(&mut state, &with_instruction(SRET)), Ok(()));
    assert_eq!(state.csrs.sstatus, STATUS_SIE | STATUS_SPIE);
    assert!(state.smode);
    assert_eq!(state.hart.sepc, 0x8020_0000);
    assert!(state.no_interrupt);

    let mut user = illegal();
    user.csrs.sstatus = STATUS_SIE;
    user.csrs.sepc = 0x1_0000;
    assert_eq!(strap(&mut user, &with_instruction(SRET)), Ok(()));
    assert_eq!(user.csrs.sstatus, STATUS_SPIE);
    assert!(!user.smode);
    assert_eq!(user.hart.sepc, 0x1_0000);
}

#[test]
fn wfi_and_sfence_vma_are_left_to_the_caller() {
    let mut state = illegal();
    assert_eq!(strap(&mut state, &with_instruction(WFI)), Ok(()));
    let sfence = 0b0001001 << 25 | 11 << 20 | 10 << 15 | 0x73;
    state.hart.sepc = 0x1004;
    assert_eq!(strap(&mut state, &with_instruction(sfence)), Ok(()));
    assert_eq!(
        state.effects,
        vec![Effect::Wfi, Effect::InstallRoot, Effect::SfenceVma(10, 11), Effect::InstallRoot]
    );
    assert_eq!(state.hart.sepc, 0x1008);
}

#[test]
fn page_fault_served_or_forwarded() {
    let mut served = deliverable(IP_SSIP);
    served.hart.scause = SCAUSE_LOAD_PAGE_FAULT;
    served.hart.sepc = 0x3004;
    let handled = TrapInput { page_fault_handled: true, sepc: 0x3000, ..input() };
    assert_eq!(strap(&mut served, &handled), Ok(()));
    assert_eq!(served.csrs.scause, (1 << 63) | 1);
    assert_eq!(served.csrs.sepc, 0x3000);
    assert_eq!(served.hart.sepc, 0x8000_0100);

    let mut quiet = context();
    quiet.hart.scause = SCAUSE_LOAD_PAGE_FAULT;
    quiet.hart.sepc = 0x3004;
    assert_eq!(strap(&mut quiet, &handled), Ok(()));
    assert_eq!(quiet.hart.sepc, 0x3004);
    assert_eq!(quiet.csrs, Csrs::new());
    assert!(quiet.no_interrupt);

    let mut forwarded = deliverable(IP_SSIP);
    forwarded.hart.scause = SCAUSE_LOAD_PAGE_FAULT;
    forwarded.hart.sepc = 0x3000;
    forwarded.hart.stval = 0x7000;
    let failed = TrapInput { sepc: 0x3000, ..input() };
    assert_eq!(strap(&mut forwarded, &failed), Ok(()));
    assert_eq!(forwarded.csrs.scause, SCAUSE_LOAD_PAGE_FAULT);
    assert_eq!(forwarded.csrs.sepc, 0x3000);
    assert_eq!(forwarded.csrs.stval, 0x7000);
    assert_eq!(forwarded.hart.sepc, 0x8000_0100);
}

#[test]
fn external_interrupt_is_routed_and_then_forwarded() {
    let mut state = deliverable(0);
    state.irq_map[3] = 7;
    state.hart.scause = SCAUSE_INTERRUPT | 9;
    state.hart.sepc = 0x4000;
    let claimed = TrapInput { claimed_irq: 3, ..input() };
    assert_eq!(strap(&mut state, &claimed), Ok(()));
    assert!(state.plic.pending[7]);
    assert_eq!(state.csrs.scause, (1 << 63) | 9);
    assert_eq!(state.csrs.sepc, 0x4000);
    assert_eq!(state.hart.sepc, 0x8000_0100);
    assert_eq!(state.effects, vec![Effect::InstallRoot]);
}

#[test]
fn what_the_caller_has_to_gather() {
    assert_eq!(interrupt_source(SCAUSE_INTERRUPT | 1), InterruptSource::Software);
    assert_eq!(interrupt_source(SCAUSE_INTERRUPT | 9), InterruptSource::External);
    assert_eq!(interrupt_source(SCAUSE_INTERRUPT | 5), InterruptSource::Other);
    assert_eq!(interrupt_source(SCAUSE_INTERRUPT | 0x109), InterruptSource::External);
    assert!(needs_instruction(SCAUSE_ILLEGAL_INSN));
    assert!(needs_instruction(SCAUSE_LOAD_PAGE_FAULT));
    assert!(needs_instruction(15));
    assert!(!needs_instruction(12));
    assert!(!needs_instruction(SCAUSE_ENV_CALL));
}

#[test]
fn well_formed_contexts() {
    let mut state = context();
    assert!(state.is_well_formed());
    state.irq_map[5] = 511;
    assert!(state.is_well_formed());
    state.irq_map[5] = 512;
    assert!(!state.is_well_formed());
    state.irq_map[5] = 0;
    state.saved_registers.pop();
    assert!(!state.is_well_formed());
    state.saved_registers.push(0);
    state.plic.enabled.push(true);
    assert!(!state.is_well_formed());
}
