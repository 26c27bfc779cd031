//! The verified core of a thin RISC-V hypervisor: machine discovery from a
//! flattened device tree, trap dispatch with privileged-instruction
//! emulation, and virtio MMIO interposition, all on plain values.

pub mod context;
pub mod fdt;
mod le;
pub mod riscv;
pub mod trap;
pub mod virtio;
