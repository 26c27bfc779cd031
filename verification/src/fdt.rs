//! The flattened device tree: its header, its structure block as a stream
//! of tokens, and its properties.

use vstd::prelude::*;

pub use crate::fdt::meta::{Device, Hart, MachineMeta, UartType};

pub mod bounded;
pub mod found_laws;
pub mod laws;
pub mod mask;
pub mod meta;
pub mod parse;
pub mod rules;
pub mod sort;
pub mod table_laws;
pub mod values;
pub mod walk;

verus! {

/// The token that opens a node, as the big-endian word it is stored as.
pub const FDT_BEGIN_NODE: u32 = 0x0000_0001;

/// The token that closes a node.
pub const FDT_END_NODE: u32 = 0x0000_0002;

/// The token that opens a property.
pub const FDT_PROP: u32 = 0x0000_0003;

/// The token that stands for nothing.
pub const FDT_NOP: u32 = 0x0000_0004;

/// The token that ends the structure block.
pub const FDT_END: u32 = 0x0000_0009;

/// The magic number at the start of a blob.
pub const FDT_MAGIC: u32 = 0xd00d_feed;

/// The size of the header in bytes.
pub const HEADER_SIZE: usize = 40;

/// The 32-bit integer that the four bytes at `at` hold, highest byte
/// first; zero where they do not lie in `b`.
pub open spec fn be32(b: Seq<u8>, at: int) -> u32 {
    if 0 <= at && at + 4 <= b.len() {
        (b[at] as u32) << 24 | (b[at + 1] as u32) << 16 | (b[at + 2] as u32) << 8 | (b[at
            + 3] as u32)
    } else {
        0
    }
}

/// The 64-bit integer that the eight bytes at `at` hold, highest byte
/// first; zero where they do not lie in `b`.
pub open spec fn be64(b: Seq<u8>, at: int) -> u64 {
    if 0 <= at && at + 8 <= b.len() {
        (be32(b, at) as u64) << 32 | (be32(b, at + 4) as u64)
    } else {
        0
    }
}

/// The four bytes of `value`, highest byte first.
pub open spec fn be32_bytes(value: u32) -> Seq<u8> {
    seq![(value >> 24) as u8, (value >> 16) as u8, (value >> 8) as u8, value as u8]
}

/// The eight bytes of `value`, highest byte first.
pub open spec fn be64_bytes(value: u64) -> Seq<u8> {
    be32_bytes((value >> 32) as u32) + be32_bytes(value as u32)
}

/// `b` with `patch` written over it from `at` on, as far as it fits.
pub open spec fn patched(b: Seq<u8>, at: int, patch: Seq<u8>) -> Seq<u8> {
    Seq::new(
        b.len(),
        |i: int|
            if at <= i < at + patch.len() {
                patch[i - at]
            } else {
                b[i]
            },
    )
}

/// Reads the 32-bit big-endian integer at `at`.
pub fn read_be32(blob: &Vec<u8>, at: u64) -> (value: u32)
    ensures
        value == be32(blob@, at as int),
{
    let len = blob.len() as u64;
    if len >= 4 && at <= len - 4 {
        let i = at as usize;
        (blob[i] as u32) << 24 | (blob[i + 1] as u32) << 16 | (blob[i + 2] as u32) << 8 | (blob[i
            + 3] as u32)
    } else {
        0
    }
}

/// Reads the 64-bit big-endian integer at `at`.
pub fn read_be64(blob: &Vec<u8>, at: u64) -> (value: u64)
    ensures
        value == be64(blob@, at as int),
{
    let len = blob.len() as u64;
    if len >= 8 && at <= len - 8 {
        (read_be32(blob, at) as u64) << 32 | (read_be32(blob, at + 4) as u64)
    } else {
        0
    }
}

/// The deepest nesting of nodes that a walk follows.
pub const MAX_DEPTH: usize = 16;

/// Why a device tree is refused.
#[derive(Clone, Copy, Debug, PartialEq, Eq, Structural)]
pub enum FdtError {
    /// Nodes are nested deeper than a walk follows.
    TooDeep,
    /// A property that is read as an integer has neither 4 nor 8 bytes, or
    /// one that is read as a range has not 16.
    PropertyLength,
    /// The interrupt controller has more contexts than can be kept.
    TooManyContexts,
    /// A unit address is longer than can be kept.
    AddressTooLong,
    /// There are more unit addresses than can be kept.
    TooManyAddresses,
    /// The tree names no interrupt controller.
    MissingPlic,
    /// The tree names no interruptor for timers.
    MissingClint,
}

/// A property, as its header in the structure block describes it.
#[derive(Clone, Copy, Debug, PartialEq, Eq, Structural)]
pub struct Property {
    /// Where the header lies in the blob.
    pub offset: usize,
    /// The address of the header.
    pub address: u64,
    pub len: u32,
    pub name_offset: u32,
}

impl Property {
    /// The length of the value in bytes.
    pub fn len(&self) -> (r: u32)
        ensures
            r == self.len,
    {
        self.len
    }

    /// Where the name lies in the strings block.
    pub fn name_offset(&self) -> (r: u32)
        ensures
            r == self.name_offset,
    {
        self.name_offset
    }

    /// The address of the property's header.
    pub fn address(&self) -> (r: u64)
        ensures
            r == self.address,
    {
        self.address
    }
}

/// One entry of the memory reservation list, or the value of a `reg`
/// property of 16 bytes: a base address and a size.
#[derive(Clone, Copy, Debug, PartialEq, Eq, Structural)]
pub struct MemoryRegion {
    pub offset: u64,
    pub size: u64,
}

impl MemoryRegion {
    /// The base address.
    pub fn offset(&self) -> (r: u64)
        ensures
            r == self.offset,
    {
        self.offset
    }

    /// The size in bytes.
    pub fn size(&self) -> (r: u64)
        ensures
            r == self.size,
    {
        self.size
    }

    /// Gives the region another size.
    pub fn set_size(&mut self, size: u64)
        ensures
            *final(self) == (MemoryRegion { offset: old(self).offset, size: size }),
    {
        self.size = size;
    }
}

/// A flattened device tree: the bytes of the blob, and the address at
/// which they lie.
#[derive(Debug)]
pub struct Fdt {
    pub base: u64,
    pub blob: Vec<u8>,
}

impl View for Fdt {
    type V = Seq<u8>;

    open spec fn view(&self) -> Seq<u8> {
        self.blob@
    }
}

/// The entry `index` of the memory reservation list.
pub open spec fn reservation(b: Seq<u8>, index: int) -> MemoryRegion {
    MemoryRegion {
        offset: be64(b, be32(b, 16) + 16 * index),
        size: be64(b, be32(b, 16) + 16 * index + 8),
    }
}

/// Whether entry `index` of the memory reservation list lies in the blob
/// and is not the entry of two zeros that ends the list.
pub open spec fn reservation_present(b: Seq<u8>, index: int) -> bool {
    be32(b, 16) + 16 * index + 16 <= b.len() && reservation(b, index) != (MemoryRegion {
        offset: 0,
        size: 0,
    })
}

impl Fdt {
    /// The device tree whose bytes `blob` lie at the address `addr`.
    pub fn new(addr: u64, blob: Vec<u8>) -> (fdt: Fdt)
        ensures
            fdt@ == blob@,
            fdt.base == addr,
    {
        Fdt { base: addr, blob }
    }

    /// Whether the blob starts with the magic number of a device tree.
    pub fn magic_valid(&self) -> (r: bool)
        ensures
            r == (be32(self@, 0) == FDT_MAGIC),
    {
        read_be32(&self.blob, 0) == FDT_MAGIC
    }

    /// The size of the whole blob, as the header gives it.
    pub fn total_size(&self) -> (r: u32)
        ensures
            r == be32(self@, 4),
    {
        read_be32(&self.blob, 4)
    }

    /// Where the structure block starts.
    pub fn off_dt_struct(&self) -> (r: u32)
        ensures
            r == be32(self@, 8),
    {
        read_be32(&self.blob, 8)
    }

    /// Where the strings block starts.
    pub fn off_dt_strings(&self) -> (r: u32)
        ensures
            r == be32(self@, 12),
    {
        read_be32(&self.blob, 12)
    }

    /// Where the memory reservation list starts.
    pub fn off_mem_rsvmap(&self) -> (r: u32)
        ensures
            r == be32(self@, 16),
    {
        read_be32(&self.blob, 16)
    }

    /// The version of the format.
    pub fn version(&self) -> (r: u32)
        ensures
            r == be32(self@, 20),
    {
        read_be32(&self.blob, 20)
    }

    /// The oldest version that the blob is compatible with.
    pub fn last_comp_version(&self) -> (r: u32)
        ensures
            r == be32(self@, 24),
    {
        read_be32(&self.blob, 24)
    }

    /// The hart that boots.
    pub fn boot_cpuid_phys(&self) -> (r: u32)
        ensures
            r == be32(self@, 28),
    {
        read_be32(&self.blob, 28)
    }

    /// The size of the strings block.
    pub fn size_dt_strings(&self) -> (r: u32)
        ensures
            r == be32(self@, 32),
    {
        read_be32(&self.blob, 32)
    }

    /// The size of the structure block.
    pub fn size_dt_struct(&self) -> (r: u32)
        ensures
            r == be32(self@, 36),
    {
        read_be32(&self.blob, 36)
    }

    /// The address at which the blob lies.
    pub fn address(&self) -> (r: u64)
        ensures
            r == self.base,
    {
        self.base
    }

    /// The memory reservation list: the entries from `off_mem_rsvmap` on,
    /// up to the first entry of two zeros or the end of the blob.
    pub fn memory_reservations(&self) -> (list: Vec<MemoryRegion>)
        ensures
            forall|i: int| 0 <= i < list.len() ==> #[trigger] reservation_present(self@, i),
            forall|i: int| 0 <= i < list.len() ==> #[trigger] list[i] == reservation(self@, i),
            !reservation_present(self@, list.len() as int),
    {
        let start = self.off_mem_rsvmap() as u64;
        let len = self.blob.len() as u64;
        let mut list: Vec<MemoryRegion> = Vec::new();
        let mut at = start;
        while at <= len && len - at >= 16
            invariant
                start == be32(self@, 16),
                len == self@.len(),
                at == start + 16 * list.len(),
                forall|i: int| 0 <= i < list.len() ==> #[trigger] reservation_present(self@, i),
                forall|i: int| 0 <= i < list.len() ==> #[trigger] list[i] == reservation(self@, i),
            decreases len - at,
        {
            let region = MemoryRegion {
                offset: read_be64(&self.blob, at),
                size: read_be64(&self.blob, at + 8),
            };
            if region.offset == 0 && region.size == 0 {
                return list;
            }
            list.push(region);
            at = at + 16;
        }
        list
    }
}

} // verus!
