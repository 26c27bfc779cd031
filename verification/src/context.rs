//! The state of one virtual hart: the guest's supervisor CSRs, the saved
//! registers, the interrupt controllers and the devices, as plain values.

use vstd::prelude::*;
use crate::trap::constants::{
    SSTATUS_DYNAMIC_MASK, SSTATUS_WRITABLE_MASK, STATUS_SIE, STATUS_SPIE, IP_SEIP, IP_SSIP,
    IP_STIP,
};
use crate::trap::U64Bits;
use crate::virtio::{Device, DeviceView, devices_view, MAX_DEVICES};

verus! {

/// The number of general-purpose registers.
pub const REGISTERS: usize = 32;

/// The number of interrupt sources that the interrupt controllers know.
pub const IRQS: usize = 512;

pub const CSR_SSTATUS: u32 = 0x100;
pub const CSR_SIE: u32 = 0x104;
pub const CSR_STVEC: u32 = 0x105;
pub const CSR_SSCRATCH: u32 = 0x140;
pub const CSR_SEPC: u32 = 0x141;
pub const CSR_SCAUSE: u32 = 0x142;
pub const CSR_STVAL: u32 = 0x143;
pub const CSR_SIP: u32 = 0x144;
pub const CSR_SATP: u32 = 0x180;

/// The interrupt bits that a guest write to `sie` or `sip` can change.
pub const INTERRUPT_WRITABLE_MASK: u64 = IP_SSIP | IP_STIP | IP_SEIP;

/// `x` with the bits of `mask` set when `value` holds, cleared otherwise.
pub open spec fn with_bits(x: u64, mask: u64, value: bool) -> u64 {
    if value {
        x | mask
    } else {
        x & !mask
    }
}

/// Whether any bit of `mask` is set in `x`.
pub open spec fn has_bits(x: u64, mask: u64) -> bool {
    x & mask != 0
}

/// `old` with the bits of `mask` taken from `new`.
pub open spec fn merge_bits(old: u64, new: u64, mask: u64) -> u64 {
    (old & !mask) | (new & mask)
}

/// Writing `new` and then `old` merged with `other` under one mask gives
/// back, under any second mask, what `old` merged with `other` was; and
/// writing `new` and then `old` itself gives back `old`.
pub proof fn lemma_merge_twice(old: u64, new: u64, other: u64)
    ensures
        forall|w: u64, d: u64|
            merge_bits(
                #[trigger] merge_bits(merge_bits(old, new, w), merge_bits(old, other, d), w),
                other,
                d,
            ) == merge_bits(old, other, d),
        forall|w: u64| #[trigger] merge_bits(merge_bits(old, new, w), old, w) == old,
{
    assert forall|w: u64, d: u64|
        merge_bits(
            #[trigger] merge_bits(merge_bits(old, new, w), merge_bits(old, other, d), w),
            other,
            d,
        ) == merge_bits(old, other, d) by {
        assert((((((old & !w) | (new & w)) & !w) | (((old & !d) | (other & d)) & w)) & !d) | (other
            & d) == (old & !d) | (other & d)) by (bit_vector);
    }
    assert forall|w: u64| #[trigger] merge_bits(merge_bits(old, new, w), old, w) == old by {
        assert((((old & !w) | (new & w)) & !w) | (old & w) == old) by (bit_vector);
    }
}

/// `sstatus` after the interrupt-enable stack is pushed: SPIE takes SIE,
/// and SIE is cleared.
pub open spec fn pushed_sie(sstatus: u64) -> u64 {
    with_bits(with_bits(sstatus, STATUS_SPIE, has_bits(sstatus, STATUS_SIE)), STATUS_SIE, false)
}

/// `sstatus` after the interrupt-enable stack is popped: SIE takes SPIE,
/// and SPIE is set.
pub open spec fn popped_sie(sstatus: u64) -> u64 {
    with_bits(with_bits(sstatus, STATUS_SIE, has_bits(sstatus, STATUS_SPIE)), STATUS_SPIE, true)
}

/// The guest's supervisor CSRs, and its timer compare register.
#[derive(Clone, Copy, Debug, PartialEq, Eq, Structural)]
pub struct Csrs {
    pub sstatus: u64,
    pub sie: u64,
    pub sip: u64,
    pub sepc: u64,
    pub scause: u64,
    pub stval: u64,
    pub stvec: u64,
    pub sscratch: u64,
    pub satp: u64,
    pub mtimecmp: u64,
}

impl Csrs {
    /// Every CSR zero.
    pub open spec fn zero() -> Csrs {
        Csrs {
            sstatus: 0,
            sie: 0,
            sip: 0,
            sepc: 0,
            scause: 0,
            stval: 0,
            stvec: 0,
            sscratch: 0,
            satp: 0,
            mtimecmp: 0,
        }
    }

    /// Every CSR zero.
    pub fn new() -> (csrs: Csrs)
        ensures
            csrs == Csrs::zero(),
    {
        Csrs {
            sstatus: 0,
            sie: 0,
            sip: 0,
            sepc: 0,
            scause: 0,
            stval: 0,
            stvec: 0,
            sscratch: 0,
            satp: 0,
            mtimecmp: 0,
        }
    }

    /// Pushes the interrupt-enable stack, as a trap into S-mode does.
    pub fn push_sie(&mut self)
        ensures
            *final(self) == (Csrs { sstatus: pushed_sie(old(self).sstatus), ..*old(self) }),
    {
        let enabled = self.sstatus.get(STATUS_SIE);
        self.sstatus.set(STATUS_SPIE, enabled);
        self.sstatus.set(STATUS_SIE, false);
    }

    /// Pops the interrupt-enable stack, as `sret` does.
    pub fn pop_sie(&mut self)
        ensures
            *final(self) == (Csrs { sstatus: popped_sie(old(self).sstatus), ..*old(self) }),
    {
        let previous = self.sstatus.get(STATUS_SPIE);
        self.sstatus.set(STATUS_SIE, previous);
        self.sstatus.set(STATUS_SPIE, true);
    }
}

/// The supervisor CSRs of the physical hart, as the trap left them. The
/// dispatcher works on this copy; its caller loads it on entry and writes
/// it back before returning to the guest.
#[derive(Clone, Copy, Debug, PartialEq, Eq, Structural)]
pub struct Hart {
    pub sstatus: u64,
    pub sepc: u64,
    pub scause: u64,
    pub stval: u64,
    pub sscratch: u64,
    pub sip: u64,
}

/// Work that the dispatcher leaves to its caller, in the order in which it
/// was decided.
#[derive(Clone, Copy, Debug, PartialEq, Eq, Structural)]
pub enum Effect {
    /// Program the host timer to fire at the given time.
    SetTimer(u64),
    /// Emit a byte on the console.
    ConsolePutchar(u8),
    /// Execute `fence.i`.
    FenceI,
    /// Execute `wfi`.
    Wfi,
    /// Drop every shadow page table.
    FlushShadowPageTables,
    /// Let the shadow page-table engine handle an `sfence.vma` with these
    /// two register numbers.
    SfenceVma(u32, u32),
    /// Install the shadow page-table root for the current mode.
    InstallRoot,
}

/// A condition that the hypervisor cannot recover from. Its caller reports
/// it and halts.
#[derive(Clone, Copy, Debug, PartialEq, Eq, Structural)]
pub enum Fatal {
    /// The trap came from the hypervisor itself.
    HypervisorTrap,
    /// An interrupt from a source that is never delivered to S-mode.
    UnexpectedInterrupt,
    /// The host claimed an interrupt that the interrupt map does not know.
    UnknownHostIrq,
    /// An interrupt is due, but none of the three pending bits is set.
    NoPendingCause,
    /// The guest's `stvec` asks for a mode that does not exist.
    BadVectorMode,
    /// An environment call with an unknown function number.
    UnknownSbiCall,
    /// The trap needs the faulting instruction, and none was given.
    MissingInstruction,
    /// The instruction at the guest PC is longer than four bytes.
    InstructionLength,
    /// A virtio access by an instruction that is not emulated.
    VirtioInstruction,
    /// A virtio access outside the register window kept for the device.
    VirtioOffset,
    /// The guest selected a queue that does not exist.
    QueueSelect,
    /// The guest set up a queue that is armed already, or released one.
    QueueRearmed,
    /// A descriptor holds an address outside guest memory.
    DescriptorAddress,
    /// An access to guest memory that lies outside of it, or is unaligned.
    GuestMemory,
}

/// The virtual interrupt controller, as far as the dispatcher uses it: one
/// pending bit and one enable bit for each source.
pub struct Plic {
    pub pending: Vec<bool>,
    pub enabled: Vec<bool>,
}

pub struct PlicView {
    pub pending: Seq<bool>,
    pub enabled: Seq<bool>,
}

impl View for Plic {
    type V = PlicView;

    open spec fn view(&self) -> PlicView {
        PlicView { pending: self.pending@, enabled: self.enabled@ }
    }
}

/// Whether a source is both pending and enabled.
pub open spec fn interrupt_pending(plic: PlicView) -> bool {
    exists|i: int|
        0 <= i < plic.pending.len() && i < plic.enabled.len() && plic.pending[i]
            && #[trigger] plic.enabled[i]
}

impl Plic {
    /// A controller with nothing pending and every source enabled.
    pub open spec fn new_view() -> PlicView {
        PlicView {
            pending: Seq::new(IRQS as nat, |i: int| false),
            enabled: Seq::new(IRQS as nat, |i: int| true),
        }
    }

    /// A controller with nothing pending and every source enabled.
    pub fn new() -> (plic: Plic)
        ensures
            plic@ == Plic::new_view(),
    {
        let mut pending: Vec<bool> = Vec::new();
        let mut enabled: Vec<bool> = Vec::new();
        let mut i: usize = 0;
        while i < IRQS
            invariant
                i <= IRQS,
                pending@ == Seq::new(i as nat, |i: int| false),
                enabled@ == Seq::new(i as nat, |i: int| true),
            decreases IRQS - i,
        {
            pending.push(false);
            enabled.push(true);
            i += 1;
        }
        Plic { pending, enabled }
    }

    /// Marks a source pending, or no longer pending.
    pub fn set_pending(&mut self, irq: u32, value: bool)
        requires
            irq < old(self).pending.len(),
        ensures
            final(self)@ == (PlicView {
                pending: old(self)@.pending.update(irq as int, value),
                ..old(self)@
            }),
    {
        self.pending[irq as usize] = value;
    }

    /// Whether a source is both pending and enabled.
    pub fn interrupt_pending(&self) -> (r: bool)
        ensures
            r == interrupt_pending(self@),
    {
        let mut i: usize = 0;
        while i < self.pending.len() && i < self.enabled.len()
            invariant
                forall|j: int|
                    0 <= j < i ==> !(self.pending[j] && #[trigger] self.enabled[j]),
            decreases self.pending.len() - i,
        {
            if self.pending[i] && self.enabled[i] {
                assert(self@.pending[i as int] && self@.enabled[i as int]);
                return true;
            }
            i += 1;
        }
        false
    }
}

/// Guest memory: 64-bit words from a base address on.
pub struct GuestMemory {
    pub base: u64,
    pub words: Vec<u64>,
}

pub struct MemoryView {
    pub base: u64,
    pub words: Seq<u64>,
}

impl View for GuestMemory {
    type V = MemoryView;

    open spec fn view(&self) -> MemoryView {
        MemoryView { base: self.base, words: self.words@ }
    }
}

/// Whether `addr` lies in the memory.
pub open spec fn in_region(m: MemoryView, addr: u64) -> bool {
    m.base <= addr && addr - m.base < 8 * m.words.len()
}

/// Whether `addr` is the address of a word of the memory.
pub open spec fn is_word(m: MemoryView, addr: u64) -> bool {
    in_region(m, addr) && (addr - m.base) % 8 == 0
}

/// The index of the word at `addr`.
pub open spec fn word_index(m: MemoryView, addr: u64) -> int {
    (addr - m.base) / 8
}

/// The word at `addr`.
pub open spec fn word_at(m: MemoryView, addr: u64) -> u64 {
    m.words[word_index(m, addr)]
}

/// The memory with the word at `addr` replaced.
pub open spec fn with_word(m: MemoryView, addr: u64, value: u64) -> MemoryView {
    MemoryView { words: m.words.update(word_index(m, addr), value), ..m }
}

impl GuestMemory {
    /// Whether `addr` lies in the memory.
    pub fn in_region(&self, addr: u64) -> (r: bool)
        ensures
            r == in_region(self@, addr),
    {
        addr >= self.base && (addr - self.base) / 8 < self.words.len() as u64
    }

    /// Whether `addr` is the address of a word of the memory.
    pub fn is_word(&self, addr: u64) -> (r: bool)
        ensures
            r == is_word(self@, addr),
    {
        self.in_region(addr) && (addr - self.base) % 8 == 0
    }

    /// The word at `addr`, if there is one.
    pub fn get(&self, addr: u64) -> (r: Option<u64>)
        ensures
            r == if is_word(self@, addr) {
                Some(word_at(self@, addr))
            } else {
                None
            },
    {
        if self.is_word(addr) {
            let index = (addr - self.base) / 8;
            assert(index < self.words.len());
            Some(self.words[index as usize])
        } else {
            None
        }
    }

    /// Replaces the word at `addr`.
    pub fn set(&mut self, addr: u64, value: u64)
        requires
            is_word(old(self)@, addr),
        ensures
            final(self)@ == with_word(old(self)@, addr, value),
    {
        let index = (addr - self.base) / 8;
        assert(index < self.words.len());
        self.words[index as usize] = value;
    }
}

/// The console, as far as the dispatcher reads it.
pub struct Uart {
    /// When the console next wants a timer interrupt.
    pub next_interrupt_time: u64,
}

/// The virtio devices and the guest pages that hold their queues.
pub struct Virtio {
    pub devices: Vec<Device>,
    pub queue_guest_pages: Vec<u64>,
}

/// The state of one virtual hart.
pub struct Context {
    /// The guest's supervisor CSRs.
    pub csrs: Csrs,
    /// The physical hart's supervisor CSRs.
    pub hart: Hart,
    /// The guest's registers x0 to x31 as the trap entry saved them. Entry 0
    /// and entry 2 are not used: x0 reads as zero, and x2 lives in the
    /// physical `sscratch`.
    pub saved_registers: Vec<u64>,
    /// Whether the guest believes itself to be in S-mode.
    pub smode: bool,
    /// Set once it is known that no interrupt can be forwarded until
    /// something changes.
    pub no_interrupt: bool,
    /// The virtual interrupt controller.
    pub plic: Plic,
    /// The guest's interrupt number for each host interrupt number, 0 for
    /// none.
    pub irq_map: Vec<u32>,
    pub uart: Uart,
    pub virtio: Virtio,
    pub guest_memory: GuestMemory,
    /// The distance from a guest-physical address to its host-physical one.
    pub guest_shift: u64,
    /// The work left to the caller.
    pub effects: Vec<Effect>,
}

pub struct ContextView {
    pub csrs: Csrs,
    pub hart: Hart,
    pub saved_registers: Seq<u64>,
    pub smode: bool,
    pub no_interrupt: bool,
    pub plic: PlicView,
    pub irq_map: Seq<u32>,
    pub uart_next_interrupt_time: u64,
    pub devices: Seq<DeviceView>,
    pub queue_guest_pages: Seq<u64>,
    pub guest_memory: MemoryView,
    pub guest_shift: u64,
    pub effects: Seq<Effect>,
}

impl View for Context {
    type V = ContextView;

    open spec fn view(&self) -> ContextView {
        ContextView {
            csrs: self.csrs,
            hart: self.hart,
            saved_registers: self.saved_registers@,
            smode: self.smode,
            no_interrupt: self.no_interrupt,
            plic: self.plic@,
            irq_map: self.irq_map@,
            uart_next_interrupt_time: self.uart.next_interrupt_time,
            devices: devices_view(self.virtio.devices@),
            queue_guest_pages: self.virtio.queue_guest_pages@,
            guest_memory: self.guest_memory@,
            guest_shift: self.guest_shift,
            effects: self.effects@,
        }
    }
}

/// What every function that takes a context relies on: 32 saved
/// registers, interrupt tables of the one size, guest interrupt numbers
/// that the virtual controller knows, and at most four devices, each well
/// formed.
pub open spec fn well_formed(s: ContextView) -> bool {
    &&& s.saved_registers.len() == REGISTERS
    &&& s.plic.pending.len() == IRQS
    &&& s.plic.enabled.len() == IRQS
    &&& s.irq_map.len() == IRQS
    &&& forall|i: int| 0 <= i < s.irq_map.len() ==> #[trigger] s.irq_map[i] < IRQS
    &&& s.devices.len() <= MAX_DEVICES
    &&& forall|i: int| 0 <= i < s.devices.len() ==> (#[trigger] s.devices[i]).well_formed()
}

/// What a read of a CSR returns, `None` for a CSR that the guest does not
/// see. `sstatus` shows the hart's own SD and FS bits.
pub open spec fn csr_value(s: ContextView, csr: u32) -> Option<u64> {
    if csr == CSR_SSTATUS {
        Some(merge_bits(s.csrs.sstatus, s.hart.sstatus, SSTATUS_DYNAMIC_MASK))
    } else if csr == CSR_SIE {
        Some(s.csrs.sie)
    } else if csr == CSR_STVEC {
        Some(s.csrs.stvec)
    } else if csr == CSR_SSCRATCH {
        Some(s.csrs.sscratch)
    } else if csr == CSR_SEPC {
        Some(s.csrs.sepc)
    } else if csr == CSR_SCAUSE {
        Some(s.csrs.scause)
    } else if csr == CSR_STVAL {
        Some(s.csrs.stval)
    } else if csr == CSR_SIP {
        Some(s.csrs.sip)
    } else if csr == CSR_SATP {
        Some(s.csrs.satp)
    } else {
        None
    }
}

/// The state after a write to a CSR. A write to `sstatus`, `sie` or `sip`
/// changes the writable bits only; a write to `satp` also asks for the
/// shadow page tables to be dropped; a write to a CSR that the guest does
/// not see changes nothing.
pub open spec fn with_csr(s: ContextView, csr: u32, value: u64) -> ContextView {
    if csr == CSR_SSTATUS {
        ContextView {
            csrs: Csrs {
                sstatus: merge_bits(s.csrs.sstatus, value, SSTATUS_WRITABLE_MASK),
                ..s.csrs
            },
            ..s
        }
    } else if csr == CSR_SIE {
        ContextView {
            csrs: Csrs { sie: merge_bits(s.csrs.sie, value, INTERRUPT_WRITABLE_MASK), ..s.csrs },
            ..s
        }
    } else if csr == CSR_STVEC {
        ContextView { csrs: Csrs { stvec: value, ..s.csrs }, ..s }
    } else if csr == CSR_SSCRATCH {
        ContextView { csrs: Csrs { sscratch: value, ..s.csrs }, ..s }
    } else if csr == CSR_SEPC {
        ContextView { csrs: Csrs { sepc: value, ..s.csrs }, ..s }
    } else if csr == CSR_SCAUSE {
        ContextView { csrs: Csrs { scause: value, ..s.csrs }, ..s }
    } else if csr == CSR_STVAL {
        ContextView { csrs: Csrs { stval: value, ..s.csrs }, ..s }
    } else if csr == CSR_SIP {
        ContextView {
            csrs: Csrs { sip: merge_bits(s.csrs.sip, value, INTERRUPT_WRITABLE_MASK), ..s.csrs },
            ..s
        }
    } else if csr == CSR_SATP {
        ContextView {
            csrs: Csrs { satp: value, ..s.csrs },
            effects: s.effects.push(Effect::FlushShadowPageTables),
            ..s
        }
    } else {
        s
    }
}

impl Context {
    /// A context for a guest that starts in S-mode with every CSR and
    /// register zero, nothing pending and no device.
    pub fn new(guest_memory: GuestMemory, guest_shift: u64) -> (state: Context)
        ensures
            well_formed(state@),
            state@.guest_memory == guest_memory@,
            state@.guest_shift == guest_shift,
            state@.devices.len() == 0,
            state@.queue_guest_pages.len() == 0,
            state@.effects.len() == 0,
            state@.smode,
            !state@.no_interrupt,
            state@.saved_registers == Seq::new(REGISTERS as nat, |i: int| 0u64),
            state@.irq_map == Seq::new(IRQS as nat, |i: int| 0u32),
            state@.csrs == Csrs::zero(),
            state@.hart == (Hart { sstatus: 0, sepc: 0, scause: 0, stval: 0, sscratch: 0, sip: 0 }),
            state@.plic == Plic::new_view(),
            state@.uart_next_interrupt_time == 0,
    {
        let mut saved_registers: Vec<u64> = Vec::new();
        while saved_registers.len() < REGISTERS
            invariant
                saved_registers.len() <= REGISTERS,
                saved_registers@ == Seq::new(saved_registers.len() as nat, |i: int| 0u64),
            decreases REGISTERS - saved_registers.len(),
        {
            saved_registers.push(0);
        }
        let mut irq_map: Vec<u32> = Vec::new();
        while irq_map.len() < IRQS
            invariant
                irq_map.len() <= IRQS,
                irq_map@ == Seq::new(irq_map.len() as nat, |i: int| 0u32),
            decreases IRQS - irq_map.len(),
        {
            irq_map.push(0);
        }
        let state = Context {
            csrs: Csrs::new(),
            hart: Hart { sstatus: 0, sepc: 0, scause: 0, stval: 0, sscratch: 0, sip: 0 },
            saved_registers,
            smode: true,
            no_interrupt: false,
            plic: Plic::new(),
            irq_map,
            uart: Uart { next_interrupt_time: 0 },
            virtio: Virtio { devices: Vec::new(), queue_guest_pages: Vec::new() },
            guest_memory,
            guest_shift,
            effects: Vec::new(),
        };
        assert(state@.devices =~= Seq::empty());
        state
    }

    /// Whether the context is well formed.
    pub fn is_well_formed(&self) -> (r: bool)
        ensures
            r == well_formed(self@),
    {
        if self.saved_registers.len() != REGISTERS || self.plic.pending.len() != IRQS
            || self.plic.enabled.len() != IRQS || self.irq_map.len() != IRQS
            || self.virtio.devices.len() > MAX_DEVICES {
            return false;
        }
        let mut i: usize = 0;
        while i < self.irq_map.len()
            invariant
                i <= self.irq_map.len(),
                forall|j: int| 0 <= j < i ==> #[trigger] self.irq_map[j] < IRQS,
            decreases self.irq_map.len() - i,
        {
            if self.irq_map[i] as usize >= IRQS {
                return false;
            }
            i += 1;
        }
        let mut d: usize = 0;
        while d < self.virtio.devices.len()
            invariant
                d <= self.virtio.devices.len(),
                forall|j: int| 0 <= j < d ==> (#[trigger] self@.devices[j]).well_formed(),
            decreases self.virtio.devices.len() - d,
        {
            if !self.virtio.devices[d].is_well_formed() {
                assert(!self@.devices[d as int].well_formed());
                return false;
            }
            assert(self@.devices[d as int].well_formed());
            d += 1;
        }
        true
    }

    /// Reads a CSR on behalf of the guest.
    pub fn get_csr(&self, csr: u32) -> (r: Option<u64>)
        ensures
            r == csr_value(self@, csr),
    {
        if csr == CSR_SSTATUS {
            Some(
                (self.csrs.sstatus & !SSTATUS_DYNAMIC_MASK) | (self.hart.sstatus
                    & SSTATUS_DYNAMIC_MASK),
            )
        } else if csr == CSR_SIE {
            Some(self.csrs.sie)
        } else if csr == CSR_STVEC {
            Some(self.csrs.stvec)
        } else if csr == CSR_SSCRATCH {
            Some(self.csrs.sscratch)
        } else if csr == CSR_SEPC {
            Some(self.csrs.sepc)
        } else if csr == CSR_SCAUSE {
            Some(self.csrs.scause)
        } else if csr == CSR_STVAL {
            Some(self.csrs.stval)
        } else if csr == CSR_SIP {
            Some(self.csrs.sip)
        } else if csr == CSR_SATP {
            Some(self.csrs.satp)
        } else {
            None
        }
    }

    /// Writes a CSR on behalf of the guest.
    pub fn set_csr(&mut self, csr: u32, value: u64)
        ensures
            final(self)@ == with_csr(old(self)@, csr, value),
    {
        if csr == CSR_SSTATUS {
            self.csrs.sstatus = (self.csrs.sstatus & !SSTATUS_WRITABLE_MASK) | (value
                & SSTATUS_WRITABLE_MASK);
        } else if csr == CSR_SIE {
            self.csrs.sie = (self.csrs.sie & !INTERRUPT_WRITABLE_MASK) | (value
                & INTERRUPT_WRITABLE_MASK);
        } else if csr == CSR_STVEC {
            self.csrs.stvec = value;
        } else if csr == CSR_SSCRATCH {
            self.csrs.sscratch = value;
        } else if csr == CSR_SEPC {
            self.csrs.sepc = value;
        } else if csr == CSR_SCAUSE {
            self.csrs.scause = value;
        } else if csr == CSR_STVAL {
            self.csrs.stval = value;
        } else if csr == CSR_SIP {
            self.csrs.sip = (self.csrs.sip & !INTERRUPT_WRITABLE_MASK) | (value
                & INTERRUPT_WRITABLE_MASK);
        } else if csr == CSR_SATP {
            self.csrs.satp = value;
            self.effects.push(Effect::FlushShadowPageTables);
        }
    }
}

} // verus!
