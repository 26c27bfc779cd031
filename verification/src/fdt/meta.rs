//! What machine discovery yields.

use vstd::prelude::*;
use crate::fdt::bounded::{Devices, Harts};

verus! {

/// The kind of the console.
#[derive(Copy, Clone, Debug, PartialEq, Eq, Structural)]
pub enum UartType {
    Ns16550a,
    SiFive,
}

/// A virtio device: its register window, and its interrupt.
#[derive(Clone, Copy, Debug, PartialEq, Eq, Structural)]
pub struct Device {
    pub base_address: u64,
    pub size: u64,
    pub irq: u64,
}

/// A hart, and the context of the interrupt controller that stands for
/// its S-mode.
#[derive(Clone, Copy, Debug, PartialEq, Eq, Structural)]
pub struct Hart {
    pub hartid: u64,
    pub plic_context: u64,
}

/// What machine discovery yields.
#[derive(Debug)]
pub struct MachineMeta {
    pub physical_memory_offset: u64,
    pub physical_memory_size: u64,
    pub harts: Harts,
    pub uart_type: Option<UartType>,
    pub uart_address: u64,
    pub plic_address: u64,
    pub clint_address: u64,
    pub virtio: Devices,
    pub initrd_start: u64,
    pub initrd_end: u64,
}

pub struct MetaView {
    pub physical_memory_offset: u64,
    pub physical_memory_size: u64,
    pub harts: Seq<Hart>,
    pub uart_type: Option<UartType>,
    pub uart_address: u64,
    pub plic_address: u64,
    pub clint_address: u64,
    pub virtio: Seq<Device>,
    pub initrd_start: u64,
    pub initrd_end: u64,
}

impl View for MachineMeta {
    type V = MetaView;

    open spec fn view(&self) -> MetaView {
        MetaView {
            physical_memory_offset: self.physical_memory_offset,
            physical_memory_size: self.physical_memory_size,
            harts: self.harts@,
            uart_type: self.uart_type,
            uart_address: self.uart_address,
            plic_address: self.plic_address,
            clint_address: self.clint_address,
            virtio: self.virtio@,
            initrd_start: self.initrd_start,
            initrd_end: self.initrd_end,
        }
    }
}

} // verus!
