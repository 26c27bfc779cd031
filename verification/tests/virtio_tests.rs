use rvirt::context::{Context, Effect, Fatal, GuestMemory};
use rvirt::riscv::{Decoded, LoadKind, StoreKind};
use rvirt::virtio::{
    device_access, handle_device_access, handle_queue_access, is_device_access, is_queue_access,
    queue_access, Device, Queue,
};

const SHIFT: u64 = 0x4000_0000;
const MEMORY: u64 = 0x8000_0000;
const RING: u64 = 0x8010_0000;

// Loads into x5 and stores from x6, at the address in x7.
const LB: u32 = 0x0003_8283;
const LH: u32 = 0x0003_9283;
const LW: u32 = 0x0003_a283;
const LD: u32 = 0x0003_b283;
const LBU: u32 = 0x0003_c283;
const LHU: u32 = 0x0003_d283;
const LWU: u32 = 0x0003_e283;
const SB: u32 = 0x0063_8023;
const SH: u32 = 0x0063_9023;
const SW: u32 = 0x0063_a023;
const SD: u32 = 0x0063_b023;

/// A guest with memory up to the end of a ring of 64 descriptors at
/// `RING`, and with `devices` devices.
fn context(devices: usize) -> Context {
    let words = ((RING - MEMORY) / 8 + 256) as usize;
    let mut state = Context::new(GuestMemory { base: MEMORY, words: vec![0; words] }, SHIFT);
    for _ in 0..devices {
        state.virtio.devices.push(Device::new(vec![0; 1024]));
    }
    state.hart.sepc = 0x1000;
    state
}

fn word_at(state: &Context, address: u64) -> u64 {
    state.guest_memory.words[((address - MEMORY) / 8) as usize]
}

fn set_word(state: &mut Context, address: u64, value: u64) {
    state.guest_memory.words[((address - MEMORY) / 8) as usize] = value;
}

fn store(state: &mut Context, address: u64, value: u64) -> Result<(), Fatal> {
    state.saved_registers[6] = value;
    handle_device_access(state, address, SW)
}

fn load(state: &mut Context, address: u64, instruction: u32) -> u64 {
    state.saved_registers[5] = 0xdead;
    assert_eq!(handle_device_access(state, address, instruction), Ok(()));
    state.saved_registers[5]
}

/// A guest whose first device has its first queue armed with 64
/// descriptors at `RING`, whose addresses are 0x8020_0000 and every 4 KiB
/// from there.
fn armed() -> Context {
    let mut state = context(2);
    for i in 0..64 {
        set_word(&mut state, RING + 16 * i, 0x8020_0000 + 0x1000 * i);
        set_word(&mut state, RING + 16 * i + 8, 0x1111_0000 + i);
    }
    assert_eq!(store(&mut state, 0x1000_1038, 64), Ok(()));
    assert_eq!(store(&mut state, 0x1000_1040, 0x8_0100), Ok(()));
    state
}

#[test]
fn device_window() {
    let mut state = context(2);
    assert!(!is_device_access(&state, 0x1000_0fff));
    assert!(is_device_access(&state, 0x1000_1000));
    assert!(is_device_access(&state, 0x1000_2fff));
    assert!(!is_device_access(&state, 0x1000_3000));
    state.virtio.devices.clear();
    assert!(!is_device_access(&state, 0x1000_1000));
}

#[test]
fn new_device() {
    let device = Device::new(vec![7; 1024]);
    assert_eq!(device.queue_sel, 0);
    assert_eq!(device.queues, vec![Queue { guest_pa: 0, host_pa: 0, size: 0 }; 4]);
    assert_eq!(device.device_registers, vec![7; 1024]);
}

#[test]
fn mmio_feature_masking() {
    let mut state = context(1);
    state.virtio.devices[0].device_registers[4] = 0xffff_ffff;
    assert_eq!(load(&mut state, 0x1000_1010, LW), 0xefff_ffff);
    assert_eq!(state.virtio.devices[0].read(0x10), 0xefff_ffff);
    assert_eq!(state.virtio.devices[0].device_registers[4], 0xffff_ffff);
    state.virtio.devices[0].device_registers[4] = 0x1000_0001;
    assert_eq!(load(&mut state, 0x1000_1010, LW), 1);
    state.virtio.devices[0].device_registers[5] = 0xffff_ffff;
    assert_eq!(load(&mut state, 0x1000_1014, LW), 0xffff_ffff);
}

#[test]
fn queue_num_max_clamp() {
    let mut state = context(1);
    state.virtio.devices[0].device_registers[13] = 1024;
    assert_eq!(load(&mut state, 0x1000_1034, LW), 256);
    state.virtio.devices[0].device_registers[13] = 256;
    assert_eq!(load(&mut state, 0x1000_1034, LW), 256);
    state.virtio.devices[0].device_registers[13] = 100;
    assert_eq!(load(&mut state, 0x1000_1034, LW), 100);
    assert_eq!(state.virtio.devices[0].read(0x34), 100);
}

#[test]
fn device_loads() {
    let mut state = context(2);
    state.virtio.devices[1].device_registers[0x40] = 0x4433_2211;
    assert_eq!(load(&mut state, 0x1000_2100, LW), 0x4433_2211);
    assert_eq!(load(&mut state, 0x1000_2102, LW), 0x4433_2211);
    assert_eq!(load(&mut state, 0x1000_2100, LB), 0x11);
    assert_eq!(load(&mut state, 0x1000_2101, LB), 0x22);
    assert_eq!(load(&mut state, 0x1000_2103, LB), 0x44);
    assert_eq!(state.hart.sepc, 0x1000 + 5 * 4);
    // c.lw a2,64(a5)
    assert_eq!(handle_device_access(&mut state, 0x1000_2100, 0x43b0), Ok(()));
    assert_eq!(state.saved_registers[12], 0x4433_2211);
    assert_eq!(state.hart.sepc, 0x1000 + 5 * 4 + 2);
}

#[test]
fn device_stores_write_through() {
    let mut state = context(1);
    assert_eq!(store(&mut state, 0x1000_1070, 0x1_0000_000f), Ok(()));
    assert_eq!(state.virtio.devices[0].device_registers[0x70 / 4], 0xf);
    assert_eq!(state.hart.sepc, 0x1004);
    assert_eq!(store(&mut state, 0x1000_1030, 3), Ok(()));
    assert_eq!(state.virtio.devices[0].queue_sel, 3);
    assert_eq!(state.virtio.devices[0].device_registers[0x30 / 4], 3);
    assert_eq!(store(&mut state, 0x1000_1038, 128), Ok(()));
    assert_eq!(state.virtio.devices[0].queues[3].size, 128);
    assert_eq!(state.virtio.devices[0].queues[0].size, 0);
    assert!(state.effects.is_empty());
}

#[test]
fn device_accesses_that_are_fatal() {
    let mut state = context(1);
    let before = state.virtio.devices[0].device_registers.clone();
    assert_eq!(store(&mut state, 0x1000_1030, 4), Err(Fatal::QueueSelect));
    assert_eq!(store(&mut state, 0x1000_1072, 1), Err(Fatal::VirtioOffset));
    assert_eq!(handle_device_access(&mut state, 0x1000_10ff, LB), Err(Fatal::VirtioOffset));
    assert_eq!(handle_device_access(&mut state, 0x1000_1100, LH), Err(Fatal::VirtioInstruction));
    assert_eq!(handle_device_access(&mut state, 0x1000_1100, SD), Err(Fatal::VirtioInstruction));
    assert_eq!(
        handle_device_access(&mut state, 0x1000_1100, 0x1020_0073),
        Err(Fatal::VirtioInstruction)
    );
    assert_eq!(
        handle_device_access(&mut state, 0x1000_1100, 0xffff_ffff),
        Err(Fatal::VirtioInstruction)
    );
    assert_eq!(store(&mut state, 0x1000_1040, 0), Err(Fatal::QueueRearmed));
    assert_eq!(state.virtio.devices[0].device_registers, before);
    assert_eq!(state.virtio.devices[0].queue_sel, 0);
    assert_eq!(state.hart.sepc, 0x1000);
}

#[test]
fn virtio_arming() {
    let state = armed();
    let queue = state.virtio.devices[0].queues[0];
    assert_eq!(queue.size, 64);
    assert_eq!(queue.guest_pa, 0x8010_0000);
    assert_eq!(queue.host_pa, 0xc010_0000);
    assert_eq!(state.virtio.devices[0].device_registers[0x40 / 4], 0xc_0100);
    assert_eq!(state.virtio.devices[0].device_registers[0x38 / 4], 64);
    for i in 0..64 {
        assert_eq!(word_at(&state, RING + 16 * i), 0xc020_0000 + 0x1000 * i);
        assert_eq!(word_at(&state, RING + 16 * i + 8), 0x1111_0000 + i);
    }
    assert_eq!(word_at(&state, RING + 16 * 64), 0);
    assert_eq!(word_at(&state, RING - 16), 0);
    assert_eq!(state.effects, vec![Effect::FlushShadowPageTables]);
    assert_eq!(state.virtio.queue_guest_pages, vec![0x8010_0000]);
    assert_eq!(state.hart.sepc, 0x1008);
    assert_eq!(state.virtio.devices[1].queues[0].host_pa, 0);
    assert!(is_queue_access(&state, 0x8010_0000));
    assert!(!is_queue_access(&state, 0x8010_1000));
}

#[test]
fn arming_twice_or_outside_memory_is_fatal() {
    let mut state = armed();
    assert_eq!(store(&mut state, 0x1000_1040, 0x8_0100), Err(Fatal::QueueRearmed));
    assert_eq!(store(&mut state, 0x1000_1038, 32), Err(Fatal::QueueRearmed));
    assert_eq!(state.virtio.devices[0].queues[0].size, 64);
    assert_eq!(state.virtio.queue_guest_pages.len(), 1);

    // The memory holds 256 words from the ring on: 128 descriptors.
    let mut inside = context(1);
    assert_eq!(store(&mut inside, 0x1000_1038, 128), Ok(()));
    assert_eq!(store(&mut inside, 0x1000_1040, 0x8_0100), Ok(()));
    let mut beyond = context(1);
    assert_eq!(store(&mut beyond, 0x1000_1038, 129), Ok(()));
    assert_eq!(store(&mut beyond, 0x1000_1040, 0x8_0100), Err(Fatal::GuestMemory));
    assert!(beyond.effects.is_empty());
    assert!(beyond.virtio.queue_guest_pages.is_empty());
    assert_eq!(beyond.virtio.devices[0].queues[0].host_pa, 0);
    let mut below = context(1);
    assert_eq!(store(&mut below, 0x1000_1038, 1), Ok(()));
    assert_eq!(store(&mut below, 0x1000_1040, 0x7_ffff), Err(Fatal::GuestMemory));
}

#[test]
fn arming_a_queue_without_descriptors() {
    let mut state = context(1);
    assert_eq!(store(&mut state, 0x1000_1040, 0x1), Ok(()));
    assert_eq!(state.virtio.devices[0].queues[0].guest_pa, 0x1000);
    assert_eq!(state.virtio.devices[0].queues[0].host_pa, 0x4000_1000);
    assert_eq!(state.virtio.devices[0].device_registers[0x40 / 4], 0x4_0001);
}

#[test]
fn virtio_queue_translation() {
    let mut state = armed();
    state.saved_registers[6] = 0x8003_0000;
    assert_eq!(handle_queue_access(&mut state, RING + 32, 0xc010_0020, SD), Ok(()));
    assert_eq!(word_at(&state, RING + 32), 0xc003_0000);
    assert_eq!(handle_queue_access(&mut state, RING + 32, 0xc010_0020, LD), Ok(()));
    assert_eq!(state.saved_registers[5], 0x8003_0000);
    assert_eq!(handle_queue_access(&mut state, RING + 48, 0xc010_0030, LD), Ok(()));
    assert_eq!(state.saved_registers[5], 0x8020_3000);
    assert_eq!(state.hart.sepc, 0x1008 + 12);
    // c.sd a0,0(a1) and c.ld a0,0(a1)
    state.saved_registers[10] = 0x8004_0000;
    assert_eq!(handle_queue_access(&mut state, RING, 0, 0xe188), Ok(()));
    assert_eq!(word_at(&state, RING), 0xc004_0000);
    state.saved_registers[10] = 0;
    assert_eq!(handle_queue_access(&mut state, RING, 0, 0x6188), Ok(()));
    assert_eq!(state.saved_registers[10], 0x8004_0000);
    assert_eq!(state.hart.sepc, 0x1008 + 12 + 4);
}

#[test]
fn descriptor_address_of_zero_is_stored_as_zero() {
    let mut state = armed();
    state.saved_registers[6] = 0;
    assert_eq!(handle_queue_access(&mut state, RING + 16, 0, SD), Ok(()));
    assert_eq!(word_at(&state, RING + 16), 0);
    assert_eq!(handle_queue_access(&mut state, RING + 16, 0, LD), Ok(()));
    assert_eq!(state.saved_registers[5], 0u64.wrapping_sub(SHIFT));
}

#[test]
fn descriptor_accesses_that_are_fatal() {
    let mut state = armed();
    state.saved_registers[6] = 0x7000_0000;
    assert_eq!(handle_queue_access(&mut state, RING, 0, SD), Err(Fatal::DescriptorAddress));
    state.saved_registers[6] = 0x9000_0000;
    assert_eq!(handle_queue_access(&mut state, RING, 0, SD), Err(Fatal::DescriptorAddress));
    assert_eq!(handle_queue_access(&mut state, RING, 0, LW), Err(Fatal::VirtioInstruction));
    assert_eq!(handle_queue_access(&mut state, RING, 0, SW), Err(Fatal::VirtioInstruction));
    assert_eq!(handle_queue_access(&mut state, RING + 4, 0, LD), Err(Fatal::GuestMemory));
    assert_eq!(word_at(&state, RING), 0xc020_0000);
    assert_eq!(state.hart.sepc, 0x1008);
}

#[test]
fn queue_page_outside_the_descriptor_addresses_is_plain_memory() {
    let mut state = armed();
    let at = RING + 8;
    set_word(&mut state, at, 0xffee_ddcc_bbaa_9988);
    let mut read = |address: u64, instruction: u32| {
        state.saved_registers[5] = 0;
        assert_eq!(handle_queue_access(&mut state, address, 0, instruction), Ok(()));
        state.saved_registers[5]
    };
    assert_eq!(read(at, LD), 0xffee_ddcc_bbaa_9988);
    assert_eq!(read(at + 3, LD), 0xffee_ddcc_bbaa_9988);
    assert_eq!(read(at, LWU), 0xbbaa_9988);
    assert_eq!(read(at + 4, LWU), 0xffee_ddcc);
    assert_eq!(read(at + 1, LWU), 0xccbb_aa99);
    assert_eq!(read(at, LW), 0xffff_ffff_bbaa_9988);
    assert_eq!(read(at + 2, LHU), 0xbbaa);
    assert_eq!(read(at + 6, LHU), 0xffee);
    assert_eq!(read(at + 2, LH), 0xffff_ffff_ffff_bbaa);
    assert_eq!(read(at + 1, LBU), 0x99);
    assert_eq!(read(at + 1, LB), 0xffff_ffff_ffff_ff99);
    assert_eq!(read(at + 7, LBU), 0xff);
    set_word(&mut state, at, 0x0011_2233_4455_6677);
    state.saved_registers[5] = 0;
    assert_eq!(handle_queue_access(&mut state, at, 0, LW), Ok(()));
    assert_eq!(state.saved_registers[5], 0x4455_6677);
    assert_eq!(handle_queue_access(&mut state, at + 6, 0, LH), Ok(()));
    assert_eq!(state.saved_registers[5], 0x0011);
    assert_eq!(handle_queue_access(&mut state, at + 3, 0, LB), Ok(()));
    assert_eq!(state.saved_registers[5], 0x44);
}

#[test]
fn stores_to_a_queue_page_outside_the_descriptor_addresses() {
    let mut state = armed();
    let at = RING + 8;
    set_word(&mut state, at, 0xffee_ddcc_bbaa_9988);
    state.saved_registers[6] = 0x1_2345_6789;
    assert_eq!(handle_queue_access(&mut state, at + 4, 0, SW), Ok(()));
    assert_eq!(word_at(&state, at), 0x2345_6789_bbaa_9988);
    assert_eq!(handle_queue_access(&mut state, at + 2, 0, SH), Ok(()));
    assert_eq!(word_at(&state, at), 0x2345_6789_6789_9988);
    assert_eq!(handle_queue_access(&mut state, at + 7, 0, SB), Ok(()));
    assert_eq!(word_at(&state, at), 0x8945_6789_6789_9988);
    assert_eq!(handle_queue_access(&mut state, at + 1, 0, SW), Ok(()));
    assert_eq!(word_at(&state, at), 0x8945_6723_4567_8988);
    assert_eq!(handle_queue_access(&mut state, at + 5, 0, SD), Ok(()));
    assert_eq!(word_at(&state, at), 0x1_2345_6789);
    assert_eq!(word_at(&state, RING), 0xc020_0000);
    assert_eq!(word_at(&state, RING + 16), 0xc020_1000);
}

#[test]
fn queue_accesses_outside_the_word_or_the_memory_are_fatal() {
    let mut state = armed();
    let at = RING + 8;
    assert_eq!(handle_queue_access(&mut state, at + 5, 0, LWU), Err(Fatal::GuestMemory));
    assert_eq!(handle_queue_access(&mut state, at + 5, 0, LW), Err(Fatal::GuestMemory));
    assert_eq!(handle_queue_access(&mut state, at + 7, 0, LHU), Err(Fatal::GuestMemory));
    assert_eq!(handle_queue_access(&mut state, at + 7, 0, LH), Err(Fatal::GuestMemory));
    assert_eq!(handle_queue_access(&mut state, at + 5, 0, SW), Err(Fatal::GuestMemory));
    assert_eq!(handle_queue_access(&mut state, at + 7, 0, SH), Err(Fatal::GuestMemory));
    assert_eq!(handle_queue_access(&mut state, 0x7000_0008, 0, LD), Err(Fatal::GuestMemory));
    assert_eq!(handle_queue_access(&mut state, 0x9000_0008, 0, SD), Err(Fatal::GuestMemory));
    assert_eq!(handle_queue_access(&mut state, at, 0, 0x1050_0073), Err(Fatal::VirtioInstruction));
    assert_eq!(state.hart.sepc, 0x1008);
}

#[test]
fn accesses_by_decoded_instruction() {
    let mut state = armed();
    assert_eq!(
        device_access(&mut state, 0x1000_2038, Decoded::Store(StoreKind::Sw, SW), 2),
        Ok(())
    );
    assert_eq!(state.hart.sepc, 0x100a);
    assert_eq!(state.virtio.devices[1].queues[0].size, 0x8_0100);
    assert_eq!(
        queue_access(&mut state, RING + 16, Decoded::Load(LoadKind::Ld, LD), 4),
        Ok(())
    );
    assert_eq!(state.saved_registers[5], 0x8020_1000);
    assert_eq!(queue_access(&mut state, RING, Decoded::Other, 4), Err(Fatal::VirtioInstruction));
}

#[test]
fn guest_memory_words() {
    let mut memory = GuestMemory { base: 0x1000, words: vec![1, 2, 3] };
    assert!(memory.in_region(0x1000));
    assert!(memory.in_region(0x1017));
    assert!(!memory.in_region(0x1018));
    assert!(!memory.in_region(0xfff));
    assert!(memory.is_word(0x1010));
    assert!(!memory.is_word(0x1011));
    assert_eq!(memory.get(0x1008), Some(2));
    assert_eq!(memory.get(0x1009), None);
    assert_eq!(memory.get(0x1018), None);
    memory.set(0x1010, 9);
    assert_eq!(memory.words, vec![1, 2, 9]);
}

#[test]
fn well_formed_devices() {
    let mut state = context(4);
    assert!(state.is_well_formed());
    state.virtio.devices[2].queue_sel = 4;
    assert!(!state.virtio.devices[2].is_well_formed());
    assert!(!state.is_well_formed());
    state.virtio.devices[2].queue_sel = 3;
    state.virtio.devices[3].device_registers.pop();
    assert!(!state.is_well_formed());
    state.virtio.devices[3].device_registers.push(0);
    state.virtio.devices.push(Device::new(vec![0; 1024]));
    assert!(!state.is_well_formed());
}
