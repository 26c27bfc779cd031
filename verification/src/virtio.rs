//! Virtio MMIO interposition: the register window of each device, and the
//! descriptor rings of its queues.

use vstd::prelude::*;
use vstd::bytes::{
    lemma_auto_spec_u16_to_from_le_bytes, lemma_auto_spec_u32_to_from_le_bytes,
    lemma_auto_spec_u64_to_from_le_bytes, spec_u16_from_le_bytes, spec_u16_to_le_bytes,
    spec_u32_from_le_bytes, spec_u32_to_le_bytes, spec_u64_from_le_bytes, spec_u64_to_le_bytes,
    u64_from_le_bytes, u64_to_le_bytes,
};
use vstd::slice::slice_subrange;
use crate::context::{
    Context, ContextView, Effect, Fatal, GuestMemory, MemoryView, in_region, is_word, well_formed,
    word_at, word_index, with_word,
};
use crate::riscv::{
    Decoded, LoadKind, StoreKind, decode, decoded, instruction_length, length_of, rd_of, rs2_of,
};
use crate::trap::{Outcome, get_register, register_value, set_register, with_register};

verus! {

/// The guest-physical address of the first device's register window.
pub const DEVICE_BASE: u64 = 0x10001000;

/// The size in bytes of the register window of one device.
pub const DEVICE_SIZE: u64 = 0x1000;

/// The offset of the DeviceFeatures register.
pub const DEVICE_FEATURES: u64 = 0x10;

/// The offset of the QueueSel register.
pub const QUEUE_SEL: u64 = 0x30;

/// The offset of the QueueNumMax register.
pub const QUEUE_NUM_MAX: u64 = 0x34;

/// The offset of the QueueNum register.
pub const QUEUE_NUM: u64 = 0x38;

/// The offset of the QueuePFN register.
pub const QUEUE_PFN: u64 = 0x40;

/// The offset at which the configuration space of a device starts.
pub const CONFIG_SPACE: u64 = 0x100;

/// The feature bit for indirect descriptors, which the guest must not see.
pub const VIRTIO_F_INDIRECT_DESC: u32 = 1 << 28;

/// The largest queue that fits in one page.
pub const MAX_QUEUE_SIZE: u32 = 256;

pub const MAX_QUEUES: usize = 4;

pub const MAX_DEVICES: usize = 4;

/// The number of 32-bit registers in the window of one device.
pub const REGISTER_WORDS: usize = 1024;

/// One queue of a device. It is armed once `host_pa` is not zero.
#[derive(Clone, Copy, Debug, PartialEq, Eq, Structural)]
pub struct Queue {
    /// Address guest thinks queue is mapped at
    pub guest_pa: u64,
    /// Address queue is actually mapped at
    pub host_pa: u64,
    /// Number of entries in queue
    pub size: u64,
}

/// One virtio device.
pub struct Device {
    /// Virtual Queue Index, offset=0x30
    pub queue_sel: u32,
    pub queues: Vec<Queue>,
    /// The registers of the device's window, one entry for each 32-bit word.
    pub device_registers: Vec<u32>,
}

pub struct DeviceView {
    pub queue_sel: u32,
    pub queues: Seq<Queue>,
    pub device_registers: Seq<u32>,
}

impl DeviceView {
    /// Four queues, a selected queue among them, and a full window.
    pub open spec fn well_formed(self) -> bool {
        &&& self.queues.len() == MAX_QUEUES
        &&& self.queue_sel < MAX_QUEUES
        &&& self.device_registers.len() == REGISTER_WORDS
    }
}

impl View for Device {
    type V = DeviceView;

    open spec fn view(&self) -> DeviceView {
        DeviceView {
            queue_sel: self.queue_sel,
            queues: self.queues@,
            device_registers: self.device_registers@,
        }
    }
}

/// The views of a sequence of devices.
pub open spec fn devices_view(devices: Seq<Device>) -> Seq<DeviceView> {
    Seq::new(devices.len(), |i: int| devices[i]@)
}

impl Device {
    /// Whether the device has four queues, a selected queue among them,
    /// and a full window.
    pub fn is_well_formed(&self) -> (r: bool)
        ensures
            r == self@.well_formed(),
    {
        self.queues.len() == MAX_QUEUES && (self.queue_sel as usize) < MAX_QUEUES
            && self.device_registers.len() == REGISTER_WORDS
    }

    /// A device with queue 0 selected and no queue armed, over the given
    /// register window.
    pub fn new(device_registers: Vec<u32>) -> (device: Device)
        requires
            device_registers.len() == REGISTER_WORDS,
        ensures
            device@.well_formed(),
            device@.queue_sel == 0,
            device@.device_registers == device_registers@,
            device@.queues == Seq::new(
                MAX_QUEUES as nat,
                |i: int| (Queue { guest_pa: 0, host_pa: 0, size: 0 }),
            ),
    {
        let mut queues: Vec<Queue> = Vec::new();
        while queues.len() < MAX_QUEUES
            invariant
                queues.len() <= MAX_QUEUES,
                queues@ == Seq::new(
                    queues.len() as nat,
                    |i: int| (Queue { guest_pa: 0, host_pa: 0, size: 0 }),
                ),
            decreases MAX_QUEUES - queues.len(),
        {
            queues.push(Queue { guest_pa: 0, host_pa: 0, size: 0 });
        }
        Device { queue_sel: 0, queues, device_registers }
    }
}

/// What the guest reads from the register at `offset`: the word kept for
/// it, without the feature bit for indirect descriptors in DeviceFeatures,
/// and at most 256 in QueueNumMax.
pub open spec fn register_read(device: DeviceView, offset: u64) -> u32 {
    let raw = device.device_registers[(offset / 4) as int];
    if offset == DEVICE_FEATURES {
        raw & !VIRTIO_F_INDIRECT_DESC
    } else if offset == QUEUE_NUM_MAX {
        if raw < MAX_QUEUE_SIZE {
            raw
        } else {
            MAX_QUEUE_SIZE
        }
    } else {
        raw
    }
}

impl Device {
    /// What the guest reads from the register at `offset` of the window.
    pub fn read(&self, offset: u64) -> (value: u32)
        requires
            self@.well_formed(),
            offset < DEVICE_SIZE,
        ensures
            value == register_read(self@, offset),
            offset == DEVICE_FEATURES ==> value & VIRTIO_F_INDIRECT_DESC == 0,
            offset == QUEUE_NUM_MAX ==> value <= MAX_QUEUE_SIZE,
    {
        let raw = self.device_registers[(offset / 4) as usize];
        if offset == DEVICE_FEATURES {
            assert((raw & !(1u32 << 28)) & (1u32 << 28) == 0) by (bit_vector);
            raw & !VIRTIO_F_INDIRECT_DESC
        } else if offset == QUEUE_NUM_MAX {
            if raw < MAX_QUEUE_SIZE {
                raw
            } else {
                MAX_QUEUE_SIZE
            }
        } else {
            raw
        }
    }
}

/// Whether `guest_pa` lies in the register window of a device.
pub open spec fn is_device_address(s: ContextView, guest_pa: u64) -> bool {
    guest_pa >= DEVICE_BASE && guest_pa < DEVICE_BASE + DEVICE_SIZE * s.devices.len()
}

/// The device in whose register window `guest_pa` lies.
pub open spec fn device_of(guest_pa: u64) -> int {
    (guest_pa - DEVICE_BASE) / (DEVICE_SIZE as int)
}

/// Whether `guest_pa` lies in the register window of a device.
#[inline(always)]
pub fn is_device_access(state: &Context, guest_pa: u64) -> (r: bool)
    ensures
        r == is_device_address(state@, guest_pa),
{
    guest_pa >= DEVICE_BASE && (guest_pa - DEVICE_BASE) / DEVICE_SIZE
        < state.virtio.devices.len() as u64
}

/// The state with device `index` replaced.
pub open spec fn with_device(s: ContextView, index: int, device: DeviceView) -> ContextView {
    ContextView { devices: s.devices.update(index, device), ..s }
}

/// The state after a load from the register at `offset` of a device: `lw`
/// reads the register, `lb` the byte at `offset`, and that only in the
/// configuration space. Any other load is fatal.
pub open spec fn device_loaded(
    s: ContextView,
    index: int,
    offset: u64,
    kind: LoadKind,
    word: u32,
) -> Outcome {
    let current = register_read(s.devices[index], offset);
    match kind {
        LoadKind::Lw => Outcome {
            state: with_register(s, rd_of(word), current as u64),
            result: Ok(()),
        },
        LoadKind::Lb => if offset >= CONFIG_SPACE {
            Outcome {
                state: with_register(
                    s,
                    rd_of(word),
                    ((current >> (8 * (offset & 0x3))) & 0xff) as u64,
                ),
                result: Ok(()),
            }
        } else {
            Outcome { state: s, result: Err(Fatal::VirtioOffset) }
        },
        _ => Outcome { state: s, result: Err(Fatal::VirtioInstruction) },
    }
}

/// Whether the address fields of a ring of `size` descriptors at `base`
/// are words of the memory, at addresses of 64 bits.
pub open spec fn ring_in_memory(m: MemoryView, base: u64, size: u64) -> bool {
    size == 0 || (is_word(m, base) && word_index(m, base) + 2 * (size - 1) < m.words.len()
        && base + 16 * (size - 1) <= u64::MAX)
}

/// Whether word `k` of the memory is the address field of one of the `size`
/// descriptors of the ring at `base`. A descriptor has two words, and its
/// address is the first.
pub open spec fn is_ring_address(m: MemoryView, base: u64, size: u64, k: int) -> bool {
    let first = word_index(m, base);
    first <= k && k - first < 2 * size && (k - first) % 2 == 0
}

/// The memory after `shift` is added to the address field of each of the
/// `size` descriptors of the ring at `base`.
pub open spec fn ring_biased(m: MemoryView, base: u64, size: u64, shift: u64) -> MemoryView {
    MemoryView {
        words: Seq::new(
            m.words.len(),
            |k: int|
                if is_ring_address(m, base, size, k) {
                    m.words[k].wrapping_add(shift)
                } else {
                    m.words[k]
                },
        ),
        ..m
    }
}

/// The state after the guest writes `value` to QueuePFN of device `index`,
/// which arms the selected queue. The queue takes the guest's page and the
/// host's, the register keeps the host's page number, the shadow page
/// tables are dropped, the page is remembered as a queue page, and the
/// descriptors that the ring holds are moved to host addresses. It is
/// fatal to arm a queue twice or to release one, and to arm one whose ring
/// does not lie in guest memory.
pub open spec fn queue_armed(s: ContextView, index: int, value: u32) -> Outcome {
    let device = s.devices[index];
    let queue = device.queues[device.queue_sel as int];
    let guest_pa = (value as u64) << 12;
    if queue.host_pa != 0 || value == 0 {
        Outcome { state: s, result: Err(Fatal::QueueRearmed) }
    } else if !ring_in_memory(s.guest_memory, guest_pa, queue.size) {
        Outcome { state: s, result: Err(Fatal::GuestMemory) }
    } else {
        Outcome {
            state: ContextView {
                devices: s.devices.update(
                    index,
                    DeviceView {
                        queues: device.queues.update(
                            device.queue_sel as int,
                            Queue {
                                guest_pa: guest_pa,
                                host_pa: guest_pa.wrapping_add(s.guest_shift),
                                size: queue.size,
                            },
                        ),
                        device_registers: device.device_registers.update(
                            (QUEUE_PFN / 4) as int,
                            value.wrapping_add((s.guest_shift >> 12) as u32),
                        ),
                        ..device
                    },
                ),
                effects: s.effects.push(Effect::FlushShadowPageTables),
                queue_guest_pages: s.queue_guest_pages.push(guest_pa),
                guest_memory: ring_biased(s.guest_memory, guest_pa, queue.size, s.guest_shift),
                ..s
            },
            result: Ok(()),
        }
    }
}

/// The state after the guest stores `value` to the register at `offset` of
/// device `index`. The register keeps the value. A store to QueueSel also
/// selects a queue, and is fatal for a queue that does not exist; one to
/// QueueNum also sets the size of the selected queue, and is fatal once the
/// queue is armed; one to QueuePFN arms the selected queue. A store that is
/// not aligned is fatal.
pub open spec fn device_stored(s: ContextView, index: int, offset: u64, value: u32) -> Outcome {
    let device = s.devices[index];
    let queue = device.queues[device.queue_sel as int];
    let registers = device.device_registers.update((offset / 4) as int, value);
    if offset % 4 != 0 {
        Outcome { state: s, result: Err(Fatal::VirtioOffset) }
    } else if offset == QUEUE_SEL {
        if value < 4 {
            Outcome {
                state: with_device(
                    s,
                    index,
                    DeviceView { queue_sel: value, device_registers: registers, ..device },
                ),
                result: Ok(()),
            }
        } else {
            Outcome { state: s, result: Err(Fatal::QueueSelect) }
        }
    } else if offset == QUEUE_NUM {
        if queue.host_pa == 0 {
            Outcome {
                state: with_device(
                    s,
                    index,
                    DeviceView {
                        queues: device.queues.update(
                            device.queue_sel as int,
                            Queue { size: value as u64, ..queue },
                        ),
                        device_registers: registers,
                        ..device
                    },
                ),
                result: Ok(()),
            }
        } else {
            Outcome { state: s, result: Err(Fatal::QueueRearmed) }
        }
    } else if offset == QUEUE_PFN {
        queue_armed(s, index, value)
    } else {
        Outcome {
            state: with_device(s, index, DeviceView { device_registers: registers, ..device }),
            result: Ok(()),
        }
    }
}

/// The state after the hart is set to resume `len` bytes further, unless
/// the outcome is fatal.
pub open spec fn then_resumed(o: Outcome, len: u64) -> Outcome {
    if o.result is Ok {
        Outcome {
            state: ContextView {
                hart: crate::context::Hart {
                    sepc: o.state.hart.sepc.wrapping_add(len),
                    ..o.state.hart
                },
                ..o.state
            },
            result: Ok(()),
        }
    } else {
        o
    }
}

/// The state after the guest's access to the register window of a device
/// at `guest_pa`, by the instruction `d` of `len` bytes: `lw` and `lb`
/// load, `sw` stores the low half of its source register, and the hart
/// resumes after the instruction. Any other instruction is fatal. A fatal
/// access changes nothing.
pub open spec fn device_accessed(s: ContextView, guest_pa: u64, d: Decoded, len: u64) -> Outcome {
    let index = device_of(guest_pa);
    let offset = guest_pa & 0xfff;
    match d {
        Decoded::Load(kind, word) => then_resumed(device_loaded(s, index, offset, kind, word), len),
        Decoded::Store(StoreKind::Sw, word) => then_resumed(
            device_stored(s, index, offset, register_value(s, rs2_of(word)) as u32),
            len,
        ),
        _ => Outcome { state: s, result: Err(Fatal::VirtioInstruction) },
    }
}

/// Adds `shift` to the address field of each of the `size` descriptors of
/// the ring at `base`.
fn bias_ring(memory: &mut GuestMemory, base: u64, size: u64, shift: u64)
    requires
        ring_in_memory(old(memory)@, base, size),
    ensures
        final(memory)@ == ring_biased(old(memory)@, base, size, shift),
{
    if size == 0 {
        assert(memory@.words =~= ring_biased(memory@, base, size, shift).words);
        return ;
    }
    let first = (base - memory.base) / 8;
    let ghost before = memory@;
    let mut i: u64 = 0;
    while i < size
        invariant
            i <= size,
            first == word_index(before, base),
            first + 2 * (size - 1) < before.words.len(),
            base + 16 * (size - 1) <= u64::MAX,
            memory.base == before.base,
            memory.words.len() == before.words.len(),
            forall|k: int|
                0 <= k < before.words.len() ==> #[trigger] memory.words[k] == if first <= k && k
                    - first < 2 * i && (k - first) % 2 == 0 {
                    before.words[k].wrapping_add(shift)
                } else {
                    before.words[k]
                },
        decreases size - i,
    {
        let k = first + 2 * i;
        let word = memory.words[k as usize];
        memory.words[k as usize] = word.wrapping_add(shift);
        i += 1;
    }
    assert(memory@.words =~= ring_biased(before, base, size, shift).words);
}

fn load_register(state: &mut Context, index: usize, offset: u64, kind: LoadKind, word: u32) -> (result:
    Result<(), Fatal>)
    requires
        well_formed(old(state)@),
        index < old(state)@.devices.len(),
        offset < DEVICE_SIZE,
    ensures
        final(state)@ == device_loaded(old(state)@, index as int, offset, kind, word).state,
        result == device_loaded(old(state)@, index as int, offset, kind, word).result,
        well_formed(final(state)@),
{
    let current = state.virtio.devices[index].read(offset);
    let rd = crate::riscv::rd(word);
    match kind {
        LoadKind::Lw => {
            set_register(state, rd, current as u64);
            Ok(())
        },
        LoadKind::Lb => {
            if offset >= CONFIG_SPACE {
                assert(8 * (offset & 0x3) < 32) by (bit_vector);
                let value = (current >> (8 * (offset & 0x3))) & 0xff;
                set_register(state, rd, value as u64);
                Ok(())
            } else {
                Err(Fatal::VirtioOffset)
            }
        },
        _ => Err(Fatal::VirtioInstruction),
    }
}

fn arm_queue(state: &mut Context, index: usize, value: u32) -> (result: Result<(), Fatal>)
    requires
        well_formed(old(state)@),
        index < old(state)@.devices.len(),
    ensures
        final(state)@ == queue_armed(old(state)@, index as int, value).state,
        result == queue_armed(old(state)@, index as int, value).result,
        well_formed(final(state)@),
{
    let selected = state.virtio.devices[index].queue_sel as usize;
    let queue = state.virtio.devices[index].queues[selected];
    if queue.host_pa != 0 || value == 0 {
        return Err(Fatal::QueueRearmed);
    }
    let guest_pa = (value as u64) << 12;
    let size = queue.size;
    if size != 0 {
        if !state.guest_memory.is_word(guest_pa) {
            return Err(Fatal::GuestMemory);
        }
        let first = (guest_pa - state.guest_memory.base) / 8;
        let words = state.guest_memory.words.len() as u64;
        if size - 1 > (words - first - 1) / 2 || size - 1 > (u64::MAX - guest_pa) / 16 {
            return Err(Fatal::GuestMemory);
        }
    }
    let host_pa = guest_pa.wrapping_add(state.guest_shift);
    let stored = value.wrapping_add((state.guest_shift >> 12) as u32);
    state.virtio.devices[index].queues[selected] = Queue { guest_pa, host_pa, size };
    state.virtio.devices[index].device_registers[(QUEUE_PFN / 4) as usize] = stored;
    state.effects.push(Effect::FlushShadowPageTables);
    state.virtio.queue_guest_pages.push(guest_pa);
    bias_ring(&mut state.guest_memory, guest_pa, size, state.guest_shift);
    assert(state@.devices =~= queue_armed(old(state)@, index as int, value).state.devices);
    Ok(())
}

fn store_register(state: &mut Context, index: usize, offset: u64, value: u32) -> (result: Result<
    (),
    Fatal,
>)
    requires
        well_formed(old(state)@),
        index < old(state)@.devices.len(),
        offset < DEVICE_SIZE,
    ensures
        final(state)@ == device_stored(old(state)@, index as int, offset, value).state,
        result == device_stored(old(state)@, index as int, offset, value).result,
        well_formed(final(state)@),
{
    if offset % 4 != 0 {
        return Err(Fatal::VirtioOffset);
    }
    let selected = state.virtio.devices[index].queue_sel as usize;
    let register = (offset / 4) as usize;
    if offset == QUEUE_SEL {
        if value >= 4 {
            return Err(Fatal::QueueSelect);
        }
        state.virtio.devices[index].queue_sel = value;
    } else if offset == QUEUE_NUM {
        if state.virtio.devices[index].queues[selected].host_pa != 0 {
            return Err(Fatal::QueueRearmed);
        }
        state.virtio.devices[index].queues[selected].size = value as u64;
    } else if offset == QUEUE_PFN {
        return arm_queue(state, index, value);
    }
    state.virtio.devices[index].device_registers[register] = value;
    assert(state@.devices =~= device_stored(old(state)@, index as int, offset, value).state.devices);
    Ok(())
}

/// Serves the guest's access to the register window of a device at
/// `guest_pa`, by the instruction `d` of `len` bytes.
pub fn device_access(state: &mut Context, guest_pa: u64, d: Decoded, len: u64) -> (result: Result<
    (),
    Fatal,
>)
    requires
        well_formed(old(state)@),
        is_device_address(old(state)@, guest_pa),
    ensures
        final(state)@ == device_accessed(old(state)@, guest_pa, d, len).state,
        result == device_accessed(old(state)@, guest_pa, d, len).result,
        well_formed(final(state)@),
{
    let index = ((guest_pa - DEVICE_BASE) / DEVICE_SIZE) as usize;
    let offset = guest_pa & 0xfff;
    assert(guest_pa & 0xfff < 0x1000) by (bit_vector);
    let result = match d {
        Decoded::Load(kind, word) => load_register(state, index, offset, kind, word),
        Decoded::Store(StoreKind::Sw, word) => {
            let value = get_register(state, crate::riscv::rs2(word)) as u32;
            store_register(state, index, offset, value)
        },
        _ => Err(Fatal::VirtioInstruction),
    };
    if result.is_ok() {
        state.hart.sepc = state.hart.sepc.wrapping_add(len);
    }
    result
}

/// The low halfword of an instruction word.
pub open spec fn low_half(instruction: u32) -> u16 {
    (instruction & 0xffff) as u16
}

/// Serves the guest's access to the register window of a device at
/// `guest_pa`, by the instruction `instruction`.
pub fn handle_device_access(state: &mut Context, guest_pa: u64, instruction: u32) -> (result:
    Result<(), Fatal>)
    requires
        well_formed(old(state)@),
        is_device_address(old(state)@, guest_pa),
    ensures
        final(state)@ == device_accessed(
            old(state)@,
            guest_pa,
            decoded(instruction),
            length_of(low_half(instruction)) as u64,
        ).state,
        result == device_accessed(
            old(state)@,
            guest_pa,
            decoded(instruction),
            length_of(low_half(instruction)) as u64,
        ).result,
        well_formed(final(state)@),
{
    let d = decode(instruction);
    let len = instruction_length((instruction & 0xffff) as u16) as u64;
    device_access(state, guest_pa, d, len)
}

/// Whether `guest_page` holds the ring of an armed queue.
pub open spec fn is_queue_page(s: ContextView, guest_page: u64) -> bool {
    s.queue_guest_pages.contains(guest_page)
}

/// Whether `guest_page` holds the ring of an armed queue.
pub fn is_queue_access(state: &Context, guest_page: u64) -> (r: bool)
    ensures
        r == is_queue_page(state@, guest_page),
{
    let mut i: usize = 0;
    while i < state.virtio.queue_guest_pages.len()
        invariant
            forall|j: int| 0 <= j < i ==> state.virtio.queue_guest_pages[j] != guest_page,
        decreases state.virtio.queue_guest_pages.len() - i,
    {
        if state.virtio.queue_guest_pages[i] == guest_page {
            return true;
        }
        i += 1;
    }
    false
}

/// Whether `guest_pa` lies in the address field of a descriptor of the
/// queue: in the ring, and in the first half of a descriptor's 16 bytes.
pub open spec fn in_descriptor_address(queue: Queue, guest_pa: u64) -> bool {
    guest_pa >= queue.guest_pa && guest_pa - queue.guest_pa < queue.size * 16 && guest_pa & 0xf
        < 8
}

/// Whether `guest_pa` lies in the address field of a descriptor of a queue
/// of the device.
pub open spec fn device_hit(device: DeviceView, guest_pa: u64) -> bool {
    exists|q: int|
        0 <= q < device.queues.len() && in_descriptor_address(
            #[trigger] device.queues[q],
            guest_pa,
        )
}

/// Whether `guest_pa` lies in the address field of a descriptor of any
/// queue.
pub open spec fn hits_queue(s: ContextView, guest_pa: u64) -> bool {
    exists|d: int| 0 <= d < s.devices.len() && device_hit(#[trigger] s.devices[d], guest_pa)
}

fn hit_in_device(device: &Device, guest_pa: u64) -> (r: bool)
    ensures
        r == device_hit(device@, guest_pa),
{
    let mut q: usize = 0;
    while q < device.queues.len()
        invariant
            forall|j: int| 0 <= j < q ==> !in_descriptor_address(device.queues[j], guest_pa),
        decreases device.queues.len() - q,
    {
        let queue = device.queues[q];
        if guest_pa >= queue.guest_pa && (guest_pa - queue.guest_pa) / 16 < queue.size && guest_pa
            & 0xf < 8 {
            assert(in_descriptor_address(device@.queues[q as int], guest_pa));
            return true;
        }
        q += 1;
    }
    false
}

fn hit_queue(state: &Context, guest_pa: u64) -> (r: bool)
    ensures
        r == hits_queue(state@, guest_pa),
{
    let mut d: usize = 0;
    while d < state.virtio.devices.len()
        invariant
            forall|j: int| 0 <= j < d ==> !device_hit(#[trigger] state@.devices[j], guest_pa),
        decreases state.virtio.devices.len() - d,
    {
        if hit_in_device(&state.virtio.devices[d], guest_pa) {
            assert(device_hit(state@.devices[d as int], guest_pa));
            return true;
        }
        d += 1;
    }
    false
}

/// `bytes` with `patch` written over it from `offset` on.
pub open spec fn overlay(bytes: Seq<u8>, offset: int, patch: Seq<u8>) -> Seq<u8> {
    Seq::new(
        bytes.len(),
        |i: int|
            if offset <= i < offset + patch.len() {
                patch[i - offset]
            } else {
                bytes[i]
            },
    )
}

/// What a load of the given kind reads at byte `offset` of a memory word,
/// lowest byte first: the whole word for `ld`, otherwise as many bytes as
/// the kind has, extended by sign or by zeros. `None` where the bytes do
/// not lie in the word.
pub open spec fn value_loaded(kind: LoadKind, word: u64, offset: int) -> Option<u64> {
    let bytes = spec_u64_to_le_bytes(word);
    match kind {
        LoadKind::Ld => Some(word),
        LoadKind::Lwu => if offset + 4 <= 8 {
            Some(spec_u32_from_le_bytes(bytes.subrange(offset, offset + 4)) as u64)
        } else {
            None
        },
        LoadKind::Lhu => if offset + 2 <= 8 {
            Some(spec_u16_from_le_bytes(bytes.subrange(offset, offset + 2)) as u64)
        } else {
            None
        },
        LoadKind::Lbu => Some(bytes[offset] as u64),
        LoadKind::Lw => if offset + 4 <= 8 {
            Some(spec_u32_from_le_bytes(bytes.subrange(offset, offset + 4)) as i32 as i64 as u64)
        } else {
            None
        },
        LoadKind::Lh => if offset + 2 <= 8 {
            Some(spec_u16_from_le_bytes(bytes.subrange(offset, offset + 2)) as i16 as i64 as u64)
        } else {
            None
        },
        LoadKind::Lb => Some(bytes[offset] as i8 as i64 as u64),
    }
}

/// The memory word after a store of the given kind writes `value` at byte
/// `offset` of it: `value` for `sd`, otherwise the word with as many of its
/// bytes replaced by the low bytes of `value` as the kind has. `None`
/// where the bytes do not lie in the word.
pub open spec fn word_stored(kind: StoreKind, word: u64, offset: int, value: u64) -> Option<u64> {
    let bytes = spec_u64_to_le_bytes(word);
    match kind {
        StoreKind::Sd => Some(value),
        StoreKind::Sw => if offset + 4 <= 8 {
            Some(
                spec_u64_from_le_bytes(overlay(bytes, offset, spec_u32_to_le_bytes(value as u32))),
            )
        } else {
            None
        },
        StoreKind::Sh => if offset + 2 <= 8 {
            Some(
                spec_u64_from_le_bytes(overlay(bytes, offset, spec_u16_to_le_bytes(value as u16))),
            )
        } else {
            None
        },
        StoreKind::Sb => Some(spec_u64_from_le_bytes(bytes.update(offset, value as u8))),
    }
}

/// The state after an access to the address field of a descriptor at
/// `guest_pa`. `ld` reads the guest's own address back, which is what the
/// memory holds less the guest shift. `sd` stores zero for zero, and the
/// host's address for an address in guest memory; any other address is
/// fatal, and so are any other instruction and an address that is not that
/// of a memory word.
pub open spec fn descriptor_accessed(s: ContextView, guest_pa: u64, d: Decoded) -> Outcome {
    match d {
        Decoded::Load(LoadKind::Ld, word) => if is_word(s.guest_memory, guest_pa) {
            Outcome {
                state: with_register(
                    s,
                    rd_of(word),
                    word_at(s.guest_memory, guest_pa).wrapping_sub(s.guest_shift),
                ),
                result: Ok(()),
            }
        } else {
            Outcome { state: s, result: Err(Fatal::GuestMemory) }
        },
        Decoded::Store(StoreKind::Sd, word) => {
            let value = register_value(s, rs2_of(word));
            if !is_word(s.guest_memory, guest_pa) {
                Outcome { state: s, result: Err(Fatal::GuestMemory) }
            } else if value == 0 {
                Outcome {
                    state: ContextView { guest_memory: with_word(s.guest_memory, guest_pa, 0), ..s },
                    result: Ok(()),
                }
            } else if in_region(s.guest_memory, value) {
                Outcome {
                    state: ContextView {
                        guest_memory: with_word(
                            s.guest_memory,
                            guest_pa,
                            value.wrapping_add(s.guest_shift),
                        ),
                        ..s
                    },
                    result: Ok(()),
                }
            } else {
                Outcome { state: s, result: Err(Fatal::DescriptorAddress) }
            }
        },
        _ => Outcome { state: s, result: Err(Fatal::VirtioInstruction) },
    }
}

/// The state after an access to a queue page at `guest_pa` outside the
/// address fields of the descriptors: a load or a store on the bytes of
/// the memory word that holds `guest_pa`. It is fatal where the word is
/// not in guest memory or the access does not lie in the word, and for an
/// instruction that is neither a load nor a store.
pub open spec fn mirror_accessed(s: ContextView, guest_pa: u64, d: Decoded) -> Outcome {
    let index = guest_pa & !0x7u64;
    let offset = (guest_pa % 8) as int;
    let current = word_at(s.guest_memory, index);
    match d {
        Decoded::Load(kind, word) => if !is_word(s.guest_memory, index) {
            Outcome { state: s, result: Err(Fatal::GuestMemory) }
        } else {
            match value_loaded(kind, current, offset) {
                Some(value) => Outcome {
                    state: with_register(s, rd_of(word), value),
                    result: Ok(()),
                },
                None => Outcome { state: s, result: Err(Fatal::GuestMemory) },
            }
        },
        Decoded::Store(kind, word) => if !is_word(s.guest_memory, index) {
            Outcome { state: s, result: Err(Fatal::GuestMemory) }
        } else {
            match word_stored(kind, current, offset, register_value(s, rs2_of(word))) {
                Some(value) => Outcome {
                    state: ContextView {
                        guest_memory: with_word(s.guest_memory, index, value),
                        ..s
                    },
                    result: Ok(()),
                },
                None => Outcome { state: s, result: Err(Fatal::GuestMemory) },
            }
        },
        _ => Outcome { state: s, result: Err(Fatal::VirtioInstruction) },
    }
}

/// The state after the guest's access to a queue page at `guest_pa`, by
/// the instruction `d` of `len` bytes: an access to the address field of a
/// descriptor where `guest_pa` lies in one, a plain access to the memory
/// otherwise; then the hart resumes after the instruction. A fatal access
/// changes nothing.
pub open spec fn queue_accessed(s: ContextView, guest_pa: u64, d: Decoded, len: u64) -> Outcome {
    if hits_queue(s, guest_pa) {
        then_resumed(descriptor_accessed(s, guest_pa, d), len)
    } else {
        then_resumed(mirror_accessed(s, guest_pa, d), len)
    }
}

fn load_value(kind: LoadKind, word: u64, offset: usize) -> (r: Option<u64>)
    requires
        offset < 8,
    ensures
        r == value_loaded(kind, word, offset as int),
{
    proof {
        lemma_auto_spec_u64_to_from_le_bytes();
    }
    let bytes = u64_to_le_bytes(word);
    match kind {
        LoadKind::Ld => Some(word),
        LoadKind::Lwu => {
            if offset <= 4 {
                let part = slice_subrange(bytes.as_slice(), offset, offset + 4);
                assert(part@.subrange(0, 4) =~= part@);
                Some(crate::le::read_u32(part) as u64)
            } else {
                None
            }
        },
        LoadKind::Lhu => {
            if offset <= 6 {
                let part = slice_subrange(bytes.as_slice(), offset, offset + 2);
                assert(part@.subrange(0, 2) =~= part@);
                Some(crate::le::read_u16(part) as u64)
            } else {
                None
            }
        },
        LoadKind::Lbu => Some(bytes[offset] as u64),
        LoadKind::Lw => {
            if offset <= 4 {
                let part = slice_subrange(bytes.as_slice(), offset, offset + 4);
                assert(part@.subrange(0, 4) =~= part@);
                Some(crate::le::read_i32(part) as i64 as u64)
            } else {
                None
            }
        },
        LoadKind::Lh => {
            if offset <= 6 {
                let part = slice_subrange(bytes.as_slice(), offset, offset + 2);
                assert(part@.subrange(0, 2) =~= part@);
                Some(crate::le::read_i16(part) as i64 as u64)
            } else {
                None
            }
        },
        LoadKind::Lb => Some(bytes[offset] as i8 as i64 as u64),
    }
}

/// Writes `patch` over `bytes` from `offset` on.
fn write_over(bytes: &mut Vec<u8>, offset: usize, patch: &Vec<u8>)
    requires
        offset + patch.len() <= old(bytes).len(),
    ensures
        final(bytes)@ == overlay(old(bytes)@, offset as int, patch@),
{
    let mut i: usize = 0;
    while i < patch.len()
        invariant
            i <= patch.len(),
            offset + patch.len() <= bytes.len(),
            bytes.len() == old(bytes).len(),
            forall|k: int|
                0 <= k < bytes.len() ==> #[trigger] bytes[k] == if offset <= k < offset + i {
                    patch[k - offset]
                } else {
                    old(bytes)[k]
                },
        decreases patch.len() - i,
    {
        bytes[offset + i] = patch[i];
        i += 1;
    }
    assert(bytes@ =~= overlay(old(bytes)@, offset as int, patch@));
}

fn store_word(kind: StoreKind, word: u64, offset: usize, value: u64) -> (r: Option<u64>)
    requires
        offset < 8,
    ensures
        r == word_stored(kind, word, offset as int, value),
{
    proof {
        lemma_auto_spec_u64_to_from_le_bytes();
        lemma_auto_spec_u32_to_from_le_bytes();
        lemma_auto_spec_u16_to_from_le_bytes();
    }
    let mut bytes = u64_to_le_bytes(word);
    match kind {
        StoreKind::Sd => Some(value),
        StoreKind::Sw => {
            if offset <= 4 {
                let mut patch: Vec<u8> = Vec::new();
                patch.push(0);
                patch.push(0);
                patch.push(0);
                patch.push(0);
                crate::le::write_u32(&mut patch, value as u32);
                assert(patch@ =~= spec_u32_to_le_bytes(value as u32));
                write_over(&mut bytes, offset, &patch);
                Some(u64_from_le_bytes(bytes.as_slice()))
            } else {
                None
            }
        },
        StoreKind::Sh => {
            if offset <= 6 {
                let mut patch: Vec<u8> = Vec::new();
                patch.push(0);
                patch.push(0);
                crate::le::write_u16(&mut patch, value as u16);
                assert(patch@ =~= spec_u16_to_le_bytes(value as u16));
                write_over(&mut bytes, offset, &patch);
                Some(u64_from_le_bytes(bytes.as_slice()))
            } else {
                None
            }
        },
        StoreKind::Sb => {
            bytes[offset] = value as u8;
            Some(u64_from_le_bytes(bytes.as_slice()))
        },
    }
}

fn descriptor_access(state: &mut Context, guest_pa: u64, d: Decoded) -> (result: Result<(), Fatal>)
    requires
        well_formed(old(state)@),
    ensures
        final(state)@ == descriptor_accessed(old(state)@, guest_pa, d).state,
        result == descriptor_accessed(old(state)@, guest_pa, d).result,
        well_formed(final(state)@),
{
    match d {
        Decoded::Load(LoadKind::Ld, word) => {
            match state.guest_memory.get(guest_pa) {
                Some(current) => {
                    let value = current.wrapping_sub(state.guest_shift);
                    set_register(state, crate::riscv::rd(word), value);
                    Ok(())
                },
                None => Err(Fatal::GuestMemory),
            }
        },
        Decoded::Store(StoreKind::Sd, word) => {
            let value = get_register(state, crate::riscv::rs2(word));
            if !state.guest_memory.is_word(guest_pa) {
                Err(Fatal::GuestMemory)
            } else if value == 0 {
                state.guest_memory.set(guest_pa, 0);
                Ok(())
            } else if state.guest_memory.in_region(value) {
                let shifted = value.wrapping_add(state.guest_shift);
                state.guest_memory.set(guest_pa, shifted);
                Ok(())
            } else {
                Err(Fatal::DescriptorAddress)
            }
        },
        _ => Err(Fatal::VirtioInstruction),
    }
}

fn mirror_access(state: &mut Context, guest_pa: u64, d: Decoded) -> (result: Result<(), Fatal>)
    requires
        well_formed(old(state)@),
    ensures
        final(state)@ == mirror_accessed(old(state)@, guest_pa, d).state,
        result == mirror_accessed(old(state)@, guest_pa, d).result,
        well_formed(final(state)@),
{
    let index = guest_pa & !0x7u64;
    let offset = (guest_pa % 8) as usize;
    match d {
        Decoded::Load(kind, word) => {
            match state.guest_memory.get(index) {
                None => Err(Fatal::GuestMemory),
                Some(current) => match load_value(kind, current, offset) {
                    Some(value) => {
                        set_register(state, crate::riscv::rd(word), value);
                        Ok(())
                    },
                    None => Err(Fatal::GuestMemory),
                },
            }
        },
        Decoded::Store(kind, word) => {
            match state.guest_memory.get(index) {
                None => Err(Fatal::GuestMemory),
                Some(current) => {
                    let source = get_register(state, crate::riscv::rs2(word));
                    match store_word(kind, current, offset, source) {
                        Some(value) => {
                            state.guest_memory.set(index, value);
                            Ok(())
                        },
                        None => Err(Fatal::GuestMemory),
                    }
                },
            }
        },
        _ => Err(Fatal::VirtioInstruction),
    }
}

/// Serves the guest's access to a queue page at `guest_pa`, by the
/// instruction `d` of `len` bytes.
pub fn queue_access(state: &mut Context, guest_pa: u64, d: Decoded, len: u64) -> (result: Result<
    (),
    Fatal,
>)
    requires
        well_formed(old(state)@),
    ensures
        final(state)@ == queue_accessed(old(state)@, guest_pa, d, len).state,
        result == queue_accessed(old(state)@, guest_pa, d, len).result,
        well_formed(final(state)@),
{
    let result = if hit_queue(state, guest_pa) {
        descriptor_access(state, guest_pa, d)
    } else {
        mirror_access(state, guest_pa, d)
    };
    if result.is_ok() {
        state.hart.sepc = state.hart.sepc.wrapping_add(len);
    }
    result
}

/// Serves the guest's access to a queue page at `guest_pa`, by the
/// instruction `instruction`. `host_pa`, where the page lies for the host,
/// plays no part.
pub fn handle_queue_access(
    state: &mut Context,
    guest_pa: u64,
    host_pa: u64,
    instruction: u32,
) -> (result: Result<(), Fatal>)
    requires
        well_formed(old(state)@),
    ensures
        final(state)@ == queue_accessed(
            old(state)@,
            guest_pa,
            decoded(instruction),
            length_of(low_half(instruction)) as u64,
        ).state,
        result == queue_accessed(
            old(state)@,
            guest_pa,
            decoded(instruction),
            length_of(low_half(instruction)) as u64,
        ).result,
        well_formed(final(state)@),
{
    let d = decode(instruction);
    let len = instruction_length((instruction & 0xffff) as u16) as u64;
    queue_access(state, guest_pa, d, len)
}

/// A read of DeviceFeatures returns the word kept for it with the feature
/// bit for indirect descriptors forced to zero, and every other bit as it
/// is kept.
pub proof fn law_features_masked(device: DeviceView)
    ensures
        register_read(device, DEVICE_FEATURES) & VIRTIO_F_INDIRECT_DESC == 0,
        register_read(device, DEVICE_FEATURES) | (device.device_registers[4]
            & VIRTIO_F_INDIRECT_DESC) == device.device_registers[4],
{
    let raw = device.device_registers[4];
    assert((raw & !(1u32 << 28)) & (1u32 << 28) == 0 && (raw & !(1u32 << 28)) | (raw & (1u32
        << 28)) == raw) by (bit_vector);
}

/// A read of QueueNumMax returns the smaller of the word kept for it and
/// 256.
pub proof fn law_queue_num_max_clamped(device: DeviceView)
    ensures
        register_read(device, QUEUE_NUM_MAX) <= MAX_QUEUE_SIZE,
        register_read(device, QUEUE_NUM_MAX) <= device.device_registers[13],
        register_read(device, QUEUE_NUM_MAX) == MAX_QUEUE_SIZE || register_read(
            device,
            QUEUE_NUM_MAX,
        ) == device.device_registers[13],
{
}

/// After a store to QueuePFN that arms a queue at the guest page `value`:
/// the register reads back as `value` plus the page number of the guest
/// shift; the queue lies at the guest page for the guest and the guest
/// shift further for the host; the page is the last of the queue pages;
/// the address field of every descriptor of the ring holds the guest shift
/// more than before, and no other memory word has changed; and the last
/// effect is a flush of the shadow page tables.
pub proof fn law_queue_arming(s: ContextView, index: int, value: u32)
    requires
        well_formed(s),
        0 <= index < s.devices.len(),
        queue_armed(s, index, value).result is Ok,
    ensures
        ({
            let armed = queue_armed(s, index, value).state;
            let guest_pa = (value as u64) << 12;
            let selected = s.devices[index].queue_sel as int;
            let size = s.devices[index].queues[selected].size;
            &&& register_read(armed.devices[index], QUEUE_PFN) == value.wrapping_add(
                (s.guest_shift >> 12) as u32,
            )
            &&& armed.devices[index].queues[selected] == (Queue {
                guest_pa: guest_pa,
                host_pa: guest_pa.wrapping_add(s.guest_shift),
                size: size,
            })
            &&& armed.queue_guest_pages.last() == guest_pa
            &&& is_queue_page(armed, guest_pa)
            &&& armed.effects.last() == Effect::FlushShadowPageTables
            &&& armed.guest_memory.words.len() == s.guest_memory.words.len()
            &&& forall|i: int|
                0 <= i < size ==> is_word(s.guest_memory, (guest_pa + 16 * i) as u64) && word_at(
                    armed.guest_memory,
                    #[trigger] ((guest_pa + 16 * i) as u64),
                ) == word_at(s.guest_memory, (guest_pa + 16 * i) as u64).wrapping_add(
                    s.guest_shift,
                )
            &&& forall|k: int|
                0 <= k < s.guest_memory.words.len() && !is_ring_address(
                    s.guest_memory,
                    guest_pa,
                    size,
                    k,
                ) ==> #[trigger] armed.guest_memory.words[k] == s.guest_memory.words[k]
        }),
{
    let armed = queue_armed(s, index, value).state;
    let guest_pa = (value as u64) << 12;
    let selected = s.devices[index].queue_sel as int;
    let size = s.devices[index].queues[selected].size;
    assert(s.devices[index].well_formed());
    assert(armed.queue_guest_pages[armed.queue_guest_pages.len() - 1] == guest_pa);
    assert forall|i: int| 0 <= i < size implies is_word(
        s.guest_memory,
        (guest_pa + 16 * i) as u64,
    ) && word_at(armed.guest_memory, #[trigger] ((guest_pa + 16 * i) as u64)) == word_at(
        s.guest_memory,
        (guest_pa + 16 * i) as u64,
    ).wrapping_add(s.guest_shift) by {
        let first = word_index(s.guest_memory, guest_pa);
        let k = first + 2 * i;
        assert(is_ring_address(s.guest_memory, guest_pa, size, k));
    }
}

/// For a descriptor's address field at `guest_pa`, the guest reads back
/// what it wrote: after `sd` of an address in guest memory that is not
/// zero, the memory holds the address plus the guest shift, and `ld` then
/// delivers the address itself.
pub proof fn law_descriptor_round_trip(
    s: ContextView,
    guest_pa: u64,
    store: u32,
    load: u32,
    len: u64,
)
    requires
        well_formed(s),
        hits_queue(s, guest_pa),
        is_word(s.guest_memory, guest_pa),
        register_value(s, rs2_of(store)) != 0,
        in_region(s.guest_memory, register_value(s, rs2_of(store))),
        rd_of(load) != 0,
    ensures
        ({
            let value = register_value(s, rs2_of(store));
            let stored = queue_accessed(s, guest_pa, Decoded::Store(StoreKind::Sd, store), len);
            let loaded = queue_accessed(
                stored.state,
                guest_pa,
                Decoded::Load(LoadKind::Ld, load),
                len,
            );
            &&& stored.result is Ok
            &&& word_at(stored.state.guest_memory, guest_pa) == value.wrapping_add(s.guest_shift)
            &&& loaded.result is Ok
            &&& register_value(loaded.state, rd_of(load)) == value
        }),
{
    crate::riscv::lemma_register_fields(load);
    let stored = queue_accessed(s, guest_pa, Decoded::Store(StoreKind::Sd, store), len);
    assert(stored.state.devices == s.devices);
    assert(hits_queue(stored.state, guest_pa)) by {
        let d = choose|d: int| 0 <= d < s.devices.len() && device_hit(#[trigger] s.devices[d], guest_pa);
        assert(device_hit(stored.state.devices[d], guest_pa));
    }
}

/// After a queue is armed, `ld` of the address field of any of its
/// descriptors delivers what the guest had left there.
pub proof fn law_armed_descriptor_load(
    s: ContextView,
    index: int,
    value: u32,
    i: int,
    load: u32,
    len: u64,
)
    requires
        well_formed(s),
        0 <= index < s.devices.len(),
        queue_armed(s, index, value).result is Ok,
        0 <= i < s.devices[index].queues[s.devices[index].queue_sel as int].size,
        rd_of(load) != 0,
    ensures
        ({
            let armed = queue_armed(s, index, value).state;
            let guest_pa = (value as u64) << 12;
            let field = (guest_pa + 16 * i) as u64;
            let loaded = queue_accessed(armed, field, Decoded::Load(LoadKind::Ld, load), len);
            &&& hits_queue(armed, field)
            &&& loaded.result is Ok
            &&& register_value(loaded.state, rd_of(load)) == word_at(s.guest_memory, field)
        }),
{
    crate::riscv::lemma_register_fields(load);
    law_queue_arming(s, index, value);
    let armed = queue_armed(s, index, value).state;
    let guest_pa = (value as u64) << 12;
    let field = (guest_pa + 16 * i) as u64;
    let selected = s.devices[index].queue_sel as int;
    assert(s.devices[index].well_formed());
    let queue = armed.devices[index].queues[selected];
    assert(value as u64 <= 0xffff_ffff);
    assert(guest_pa & 0xf == 0 && guest_pa <= 0xffff_ffff_f000) by (bit_vector)
        requires
            guest_pa == (value as u64) << 12,
            value as u64 <= 0xffff_ffff,
    ;
    assert(guest_pa + 16 * i == field);
    assert(field & 0xf < 8) by (bit_vector)
        requires
            guest_pa & 0xf == 0,
            (field - guest_pa) % 16 == 0,
            field >= guest_pa,
    ;
    assert(in_descriptor_address(queue, field));
    assert(device_hit(armed.devices[index], field));
    assert(is_word(armed.guest_memory, field));
}

} // verus!
