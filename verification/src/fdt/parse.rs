//! Machine discovery: what the device tree tells about the machine.

use vstd::prelude::*;
use crate::fdt::{Fdt, FdtError, Property};
use crate::fdt::mask::{path_matches, path_matches_2, path_matches_3, span_is};
use crate::fdt::bounded::{Devices, Harts, Spans};
use crate::fdt::meta::{Device, Hart, MachineMeta, MetaView, UartType};
use crate::fdt::rules::{path_is, path_is_2, path_is_3, text};
use crate::fdt::sort::{ascending, sorted_by_key};
use crate::fdt::values::{cells, int_value, range_value, text_value};
use crate::fdt::walk::{
    FdtVisit, Span, Visit, VisitView, VisitWhat, span_bytes, spans_bytes, spans_valid, visits_in,
    walk_of,
};

verus! {

/// How many unit addresses a table keeps.
pub const MAX_ADDRESSES: usize = 16;

/// The longest unit address that a table keeps, in bytes.
pub const MAX_ADDRESS_LEN: usize = 16;

/// How many contexts of the interrupt controller are kept.
pub const MAX_CONTEXTS: usize = 64;

/// The interrupt of a context that stands for the S-mode of a hart.
pub const SUPERVISOR_EXTERNAL: u32 = 9;

/// What has been found in a device tree so far.
pub struct Found {
    pub initrd_start: Option<u64>,
    pub initrd_end: Option<u64>,
    pub plic: Option<u64>,
    pub clint: Option<u64>,
    pub memory_offset: u64,
    pub memory_size: u64,
    pub uart_address: u64,
    pub uart_type: Option<UartType>,
    /// The unit addresses of the virtio devices, in the order in which
    /// they were found.
    pub virtio_keys: Seq<Seq<u8>>,
    /// The register window of each virtio device, by its place among the
    /// unit addresses.
    pub virtio_regs: Seq<Option<(u64, u64)>>,
    /// The interrupt of each virtio device.
    pub virtio_irqs: Seq<Option<u64>>,
    /// The unit addresses of the CPUs.
    pub cpu_keys: Seq<Seq<u8>>,
    /// The hart of each CPU.
    pub cpu_hartids: Seq<Option<u64>>,
    /// The handle of the interrupt controller of each CPU.
    pub cpu_phandles: Seq<Option<u64>>,
    /// For each context of the interrupt controller that stands for the
    /// S-mode of a hart, the handle of that hart's interrupt controller.
    pub contexts: Seq<Option<u32>>,
}

/// Nothing found yet.
pub open spec fn nothing_found() -> Found {
    Found {
        initrd_start: None,
        initrd_end: None,
        plic: None,
        clint: None,
        memory_offset: 0,
        memory_size: 0,
        uart_address: 0,
        uart_type: None,
        virtio_keys: Seq::empty(),
        virtio_regs: Seq::new(MAX_ADDRESSES as nat, |i: int| None),
        virtio_irqs: Seq::new(MAX_ADDRESSES as nat, |i: int| None),
        cpu_keys: Seq::empty(),
        cpu_hartids: Seq::new(MAX_ADDRESSES as nat, |i: int| None),
        cpu_phandles: Seq::new(MAX_ADDRESSES as nat, |i: int| None),
        contexts: Seq::new(MAX_CONTEXTS as nat, |i: int| None),
    }
}

/// The place of `key` in a table of unit addresses, which takes it up if
/// it is new, and the table after that. A new unit address of more than 16
/// bytes is refused, and so is one for which the table has no room.
pub open spec fn interned(keys: Seq<Seq<u8>>, key: Seq<u8>) -> Result<(int, Seq<Seq<u8>>), FdtError> {
    match keys.index_of_first(key) {
        Some(index) => Ok((index, keys)),
        None => if key.len() > MAX_ADDRESS_LEN {
            Err(FdtError::AddressTooLong)
        } else if keys.len() >= MAX_ADDRESSES {
            Err(FdtError::TooManyAddresses)
        } else {
            Ok((keys.len() as int, keys.push(key)))
        },
    }
}

/// Whether a value of 32-bit integers, read as pairs of a handle and an
/// interrupt, names a context for S-mode beyond those that are kept.
pub open spec fn contexts_overflow(pairs: Seq<u32>) -> bool {
    exists|i: int|
        MAX_CONTEXTS <= i < pairs.len() / 2 && #[trigger] pairs[2 * i + 1] == SUPERVISOR_EXTERNAL
}

/// The contexts after a value of 32-bit integers is read as pairs of a
/// handle and an interrupt: where pair `i` has the interrupt of S-mode,
/// context `i` takes its handle.
pub open spec fn contexts_recorded(contexts: Seq<Option<u32>>, pairs: Seq<u32>) -> Seq<Option<u32>> {
    Seq::new(
        contexts.len(),
        |i: int|
            if i < pairs.len() / 2 && pairs[2 * i + 1] == SUPERVISOR_EXTERNAL {
                Some(pairs[2 * i])
            } else {
                contexts[i]
            },
    )
}

/// Whether a path is that of a console.
pub open spec fn is_uart(path: Seq<Seq<u8>>) -> bool {
    path_is(path, "uart") || path_is_2(path, "soc", "uart") || path_is_2(path, "soc", "serial")
}

/// The kind of console that a `compatible` property names, if it names
/// one that is known.
pub open spec fn uart_named(value: Option<Seq<u8>>) -> Option<UartType> {
    if value == Some(text("ns16550a")) {
        Some(UartType::Ns16550a)
    } else if value == Some(text("sifive,uart0")) {
        Some(UartType::SiFive)
    } else {
        None
    }
}

/// What is found after the property `name` of the node at `path` is read,
/// its header at `offset` and its value of `len` bytes.
///
/// - `/chosen`: `linux,initrd-start` and `linux,initrd-end`, integers.
/// - `/memory`: `reg`, a range.
/// - a console: `reg`, a range whose base is the console's address, and
///   `compatible`, its kind; the first of each counts.
/// - `/soc/clint` and `/soc/interrupt-controller`: `reg`, a range whose
///   base is the address.
/// - `/soc/interrupt-controller`: `interrupts-extended`, the contexts.
/// - `/virtio_mmio`: `reg`, a range, and `interrupts`, an integer, kept by
///   the unit address of the node.
/// - `/cpus/cpu`: `reg`, an integer, and `phandle` of the
///   `interrupt-controller` below it, an integer, kept by the unit address
///   of the CPU.
///
/// Any other property changes nothing. An integer that has neither 4 nor
/// 8 bytes and a range that has not 16 are refused.
pub open spec fn property_found(
    b: Seq<u8>,
    f: Found,
    path: Seq<Seq<u8>>,
    units: Seq<Seq<u8>>,
    name: Seq<u8>,
    offset: int,
    len: u32,
) -> Result<Found, FdtError> {
    let integer = int_value(b, offset, len);
    let range = range_value(b, offset, len);
    if path_is(path, "chosen") && name == text("linux,initrd-end") {
        match integer {
            Some(value) => Ok(Found { initrd_end: Some(value), ..f }),
            None => Err(FdtError::PropertyLength),
        }
    } else if path_is(path, "chosen") && name == text("linux,initrd-start") {
        match integer {
            Some(value) => Ok(Found { initrd_start: Some(value), ..f }),
            None => Err(FdtError::PropertyLength),
        }
    } else if path_is(path, "memory") && name == text("reg") {
        match range {
            Some(value) => Ok(Found { memory_offset: value.0, memory_size: value.1, ..f }),
            None => Err(FdtError::PropertyLength),
        }
    } else if is_uart(path) && name == text("reg") {
        if f.uart_address == 0 {
            match range {
                Some(value) => Ok(Found { uart_address: value.0, ..f }),
                None => Err(FdtError::PropertyLength),
            }
        } else {
            Ok(f)
        }
    } else if is_uart(path) && name == text("compatible") {
        if f.uart_type is None {
            Ok(Found { uart_type: uart_named(text_value(b, offset, len)), ..f })
        } else {
            Ok(f)
        }
    } else if path_is_2(path, "soc", "clint") && name == text("reg") {
        match range {
            Some(value) => Ok(Found { clint: Some(value.0), ..f }),
            None => Err(FdtError::PropertyLength),
        }
    } else if path_is_2(path, "soc", "interrupt-controller") && name == text("reg") {
        match range {
            Some(value) => Ok(Found { plic: Some(value.0), ..f }),
            None => Err(FdtError::PropertyLength),
        }
    } else if path_is_2(path, "soc", "interrupt-controller") && name == text(
        "interrupts-extended",
    ) {
        if contexts_overflow(cells(b, offset, len)) {
            Err(FdtError::TooManyContexts)
        } else {
            Ok(Found { contexts: contexts_recorded(f.contexts, cells(b, offset, len)), ..f })
        }
    } else if path_is(path, "virtio_mmio") && name == text("reg") {
        match interned(f.virtio_keys, units[1]) {
            Err(e) => Err(e),
            Ok((index, keys)) => match range {
                Some(value) => Ok(
                    Found {
                        virtio_keys: keys,
                        virtio_regs: f.virtio_regs.update(index, Some(value)),
                        ..f
                    },
                ),
                None => Err(FdtError::PropertyLength),
            },
        }
    } else if path_is(path, "virtio_mmio") && name == text("interrupts") {
        match interned(f.virtio_keys, units[1]) {
            Err(e) => Err(e),
            Ok((index, keys)) => match integer {
                Some(value) => Ok(
                    Found {
                        virtio_keys: keys,
                        virtio_irqs: f.virtio_irqs.update(index, Some(value)),
                        ..f
                    },
                ),
                None => Err(FdtError::PropertyLength),
            },
        }
    } else if path_is_2(path, "cpus", "cpu") && name == text("reg") {
        match interned(f.cpu_keys, units[2]) {
            Err(e) => Err(e),
            Ok((index, keys)) => match integer {
                Some(value) => Ok(
                    Found {
                        cpu_keys: keys,
                        cpu_hartids: f.cpu_hartids.update(index, Some(value)),
                        ..f
                    },
                ),
                None => Err(FdtError::PropertyLength),
            },
        }
    } else if path_is_3(path, "cpus", "cpu", "interrupt-controller") && name == text("phandle") {
        match interned(f.cpu_keys, units[2]) {
            Err(e) => Err(e),
            Ok((index, keys)) => match integer {
                Some(value) => Ok(
                    Found {
                        cpu_keys: keys,
                        cpu_phandles: f.cpu_phandles.update(index, Some(value)),
                        ..f
                    },
                ),
                None => Err(FdtError::PropertyLength),
            },
        }
    } else {
        Ok(f)
    }
}

/// What is found after a visit.
pub open spec fn visit_found(b: Seq<u8>, f: Found, visit: VisitView) -> Result<Found, FdtError> {
    match visit.what {
        VisitWhat::Node => Ok(f),
        VisitWhat::Property { name, offset, len, name_offset } => property_found(
            b,
            f,
            visit.path,
            visit.units,
            name,
            offset,
            len,
        ),
    }
}

/// What is found after the visits from `from` on, one after the other, up
/// to the first that is refused.
pub open spec fn visits_found(b: Seq<u8>, visits: Seq<VisitView>, from: int, f: Found) -> Result<
    Found,
    FdtError,
>
    decreases visits.len() - from,
{
    if from < 0 || from >= visits.len() {
        Ok(f)
    } else {
        match visit_found(b, f, visits[from]) {
            Ok(next) => visits_found(b, visits, from + 1, next),
            Err(e) => Err(e),
        }
    }
}

/// The 32 low bits of a handle.
pub open spec fn handle_of(phandle: u64) -> u32 {
    phandle as u32
}

/// The hart of the CPU at place `index`, if its hart and the handle of its
/// interrupt controller are known and a context names that handle: the
/// first such context is the hart's.
pub open spec fn hart_at(f: Found, index: int) -> Option<Hart> {
    match (f.cpu_hartids[index], f.cpu_phandles[index]) {
        (Some(hartid), Some(phandle)) => match f.contexts.index_of_first(
            Some(handle_of(phandle)),
        ) {
            Some(context) => Some(Hart { hartid: hartid, plic_context: context as u64 }),
            None => None,
        },
        _ => None,
    }
}

/// The harts of the CPUs at the places before `count`, in their order.
pub open spec fn harts_before(f: Found, count: int) -> Seq<Hart>
    decreases count,
{
    if count <= 0 {
        Seq::empty()
    } else {
        match hart_at(f, count - 1) {
            Some(hart) => harts_before(f, count - 1).push(hart),
            None => harts_before(f, count - 1),
        }
    }
}

/// The virtio device at place `index`, if both its register window and its
/// interrupt are known.
pub open spec fn device_at(f: Found, index: int) -> Option<Device> {
    match (f.virtio_regs[index], f.virtio_irqs[index]) {
        (Some(reg), Some(irq)) => Some(Device { base_address: reg.0, size: reg.1, irq: irq }),
        _ => None,
    }
}

/// The virtio devices at the places before `count`, in their order.
pub open spec fn devices_before(f: Found, count: int) -> Seq<Device>
    decreases count,
{
    if count <= 0 {
        Seq::empty()
    } else {
        match device_at(f, count - 1) {
            Some(device) => devices_before(f, count - 1).push(device),
            None => devices_before(f, count - 1),
        }
    }
}

/// What is found in a whole device tree. A tree whose nodes are nested
/// too deep is refused, and so is one that names no interrupt controller,
/// and one that names no interruptor for timers.
pub open spec fn found_in(b: Seq<u8>) -> Result<Found, FdtError> {
    if walk_of(b).too_deep {
        Err(FdtError::TooDeep)
    } else {
        match visits_found(b, walk_of(b).visits, 0, nothing_found()) {
            Err(e) => Err(e),
            Ok(f) => if f.plic is None {
                Err(FdtError::MissingPlic)
            } else if f.clint is None {
                Err(FdtError::MissingClint)
            } else {
                Ok(f)
            },
        }
    }
}

/// Whether `meta` describes the machine of which `f` was found: the
/// addresses and sizes as found, the place of the initial RAM disk if both
/// its ends are known and zeros otherwise, and the harts and the virtio
/// devices that are known in full, ordered by hart and by base address.
pub open spec fn describes(meta: MetaView, f: Found) -> bool {
    &&& meta.physical_memory_offset == f.memory_offset
    &&& meta.physical_memory_size == f.memory_size
    &&& meta.uart_type == f.uart_type
    &&& meta.uart_address == f.uart_address
    &&& Some(meta.plic_address) == f.plic
    &&& Some(meta.clint_address) == f.clint
    &&& meta.initrd_start == if f.initrd_start is Some && f.initrd_end is Some {
        f.initrd_start->0
    } else {
        0
    }
    &&& meta.initrd_end == if f.initrd_start is Some && f.initrd_end is Some {
        f.initrd_end->0
    } else {
        0
    }
    &&& ascending(meta.harts)
    &&& meta.harts.to_multiset() == harts_before(f, MAX_ADDRESSES as int).to_multiset()
    &&& ascending(meta.virtio)
    &&& meta.virtio.to_multiset() == devices_before(f, MAX_ADDRESSES as int).to_multiset()
}

/// Whether two stretches of the blob hold the same bytes.
pub fn spans_equal(blob: &Vec<u8>, one: Span, other: Span) -> (r: bool)
    requires
        one.start <= one.end <= blob.len(),
        other.start <= other.end <= blob.len(),
    ensures
        r == (span_bytes(blob@, one) == span_bytes(blob@, other)),
{
    let len = one.end - one.start;
    assert(span_bytes(blob@, one).len() == one.end - one.start);
    assert(span_bytes(blob@, other).len() == other.end - other.start);
    if other.end - other.start != len {
        return false;
    }
    let mut i: usize = 0;
    while i < len
        invariant
            one.start <= one.end <= blob.len(),
            other.start <= other.end <= blob.len(),
            len == one.end - one.start,
            len == other.end - other.start,
            i <= len,
            forall|j: int|
                0 <= j < i ==> #[trigger] span_bytes(blob@, one)[j] == span_bytes(blob@, other)[j],
        decreases len - i,
    {
        assert(span_bytes(blob@, one)[i as int] == blob@[one.start + i]);
        assert(span_bytes(blob@, other)[i as int] == blob@[other.start + i]);
        if blob[one.start + i] != blob[other.start + i] {
            return false;
        }
        i += 1;
    }
    assert(span_bytes(blob@, one) =~= span_bytes(blob@, other));
    true
}

/// A table of unit addresses, each in the place in which it was first
/// seen. It keeps 16 of them, of 16 bytes at most.
pub struct AddressMap {
    pub keys: Spans,
}

impl AddressMap {
    /// The unit addresses that the table keeps, as the blob `b` holds
    /// them.
    pub open spec fn keys_in(&self, b: Seq<u8>) -> Seq<Seq<u8>> {
        spans_bytes(b, self.keys@)
    }

    /// Whether the table keeps no more than it can, and what it keeps lies
    /// in a blob of `len` bytes.
    pub open spec fn well_formed(&self, len: int) -> bool {
        spans_valid(self.keys@, len)
    }

    /// A table that keeps nothing.
    pub fn new() -> (map: AddressMap)
        ensures
            map.keys@.len() == 0,
    {
        AddressMap { keys: Spans::new() }
    }

    /// The place of a unit address in the table, which takes it up if it
    /// is new.
    pub fn index_of(&mut self, blob: &Vec<u8>, value: Span) -> (r: Result<usize, FdtError>)
        requires
            old(self).well_formed(blob.len() as int),
            value.start <= value.end <= blob.len(),
        ensures
            final(self).well_formed(blob.len() as int),
            match interned(old(self).keys_in(blob@), span_bytes(blob@, value)) {
                Ok((index, keys)) => r == Ok::<usize, FdtError>(index as usize) && 0 <= index
                    < MAX_ADDRESSES && final(self).keys_in(blob@) == keys,
                Err(e) => r == Err::<usize, FdtError>(e),
            },
    {
        let ghost keys = self.keys_in(blob@);
        let ghost key = span_bytes(blob@, value);
        proof {
            keys.index_of_first_ensures(key);
        }
        let mut i: usize = 0;
        while i < self.keys.len()
            invariant
                *self == *old(self),
                self.well_formed(blob.len() as int),
                value.start <= value.end <= blob.len(),
                keys == self.keys_in(blob@),
                key == span_bytes(blob@, value),
                i <= self.keys@.len(),
                forall|j: int| 0 <= j < i ==> keys[j] != key,
            decreases self.keys@.len() - i,
        {
            if spans_equal(blob, self.keys.as_slice()[i], value) {
                proof {
                    keys.index_of_first_ensures(key);
                    assert(keys[i as int] == key);
                }
                return Ok(i);
            }
            i += 1;
        }
        proof {
            keys.index_of_first_ensures(key);
            if keys.contains(key) {
                let j = choose|j: int| 0 <= j < keys.len() && keys[j] == key;
                assert(keys[j] != key);
            }
        }
        if value.end - value.start > MAX_ADDRESS_LEN {
            Err(FdtError::AddressTooLong)
        } else if self.keys.len() >= MAX_ADDRESSES {
            Err(FdtError::TooManyAddresses)
        } else {
            proof {
                crate::fdt::walk::lemma_spans_push(blob@, self.keys@, value);
            }
            self.keys.push(value);
            Ok(self.keys.len() - 1)
        }
    }
}

/// What has been found so far, with each unit address as the stretch of
/// the blob that holds it.
pub struct Discovery {
    pub initrd_start: Option<u64>,
    pub initrd_end: Option<u64>,
    pub plic: Option<u64>,
    pub clint: Option<u64>,
    pub memory_offset: u64,
    pub memory_size: u64,
    pub uart_address: u64,
    pub uart_type: Option<UartType>,
    pub virtio_keys: AddressMap,
    pub virtio_regs: Vec<Option<(u64, u64)>>,
    pub virtio_irqs: Vec<Option<u64>>,
    pub cpu_keys: AddressMap,
    pub cpu_hartids: Vec<Option<u64>>,
    pub cpu_phandles: Vec<Option<u64>>,
    pub contexts: Vec<Option<u32>>,
}

impl Discovery {
    /// What has been found, with the unit addresses that the blob `b`
    /// holds.
    pub open spec fn view_in(&self, b: Seq<u8>) -> Found {
        Found {
            initrd_start: self.initrd_start,
            initrd_end: self.initrd_end,
            plic: self.plic,
            clint: self.clint,
            memory_offset: self.memory_offset,
            memory_size: self.memory_size,
            uart_address: self.uart_address,
            uart_type: self.uart_type,
            virtio_keys: self.virtio_keys.keys_in(b),
            virtio_regs: self.virtio_regs@,
            virtio_irqs: self.virtio_irqs@,
            cpu_keys: self.cpu_keys.keys_in(b),
            cpu_hartids: self.cpu_hartids@,
            cpu_phandles: self.cpu_phandles@,
            contexts: self.contexts@,
        }
    }

    /// Whether every table has its size, for a blob of `len` bytes.
    pub open spec fn well_formed(&self, len: int) -> bool {
        &&& self.virtio_keys.well_formed(len)
        &&& self.cpu_keys.well_formed(len)
        &&& self.virtio_regs.len() == MAX_ADDRESSES
        &&& self.virtio_irqs.len() == MAX_ADDRESSES
        &&& self.cpu_hartids.len() == MAX_ADDRESSES
        &&& self.cpu_phandles.len() == MAX_ADDRESSES
        &&& self.contexts.len() == MAX_CONTEXTS
    }

    /// Nothing found yet.
    pub fn new() -> (found: Discovery)
        ensures
            forall|b: Seq<u8>| #[trigger] found.view_in(b) == nothing_found(),
            forall|len: int| 0 <= len ==> #[trigger] found.well_formed(len),
    {
        let mut virtio_regs: Vec<Option<(u64, u64)>> = Vec::new();
        let mut virtio_irqs: Vec<Option<u64>> = Vec::new();
        let mut cpu_hartids: Vec<Option<u64>> = Vec::new();
        let mut cpu_phandles: Vec<Option<u64>> = Vec::new();
        let mut contexts: Vec<Option<u32>> = Vec::new();
        let mut i: usize = 0;
        while i < MAX_ADDRESSES
            invariant
                i <= MAX_ADDRESSES,
                virtio_regs@ == Seq::new(i as nat, |i: int| None::<(u64, u64)>),
                virtio_irqs@ == Seq::new(i as nat, |i: int| None::<u64>),
                cpu_hartids@ == Seq::new(i as nat, |i: int| None::<u64>),
                cpu_phandles@ == Seq::new(i as nat, |i: int| None::<u64>),
            decreases MAX_ADDRESSES - i,
        {
            virtio_regs.push(None);
            virtio_irqs.push(None);
            cpu_hartids.push(None);
            cpu_phandles.push(None);
            i += 1;
        }
        let mut j: usize = 0;
        while j < MAX_CONTEXTS
            invariant
                j <= MAX_CONTEXTS,
                contexts@ == Seq::new(j as nat, |i: int| None::<u32>),
            decreases MAX_CONTEXTS - j,
        {
            contexts.push(None);
            j += 1;
        }
        let found = Discovery {
            initrd_start: None,
            initrd_end: None,
            plic: None,
            clint: None,
            memory_offset: 0,
            memory_size: 0,
            uart_address: 0,
            uart_type: None,
            virtio_keys: AddressMap::new(),
            virtio_regs,
            virtio_irqs,
            cpu_keys: AddressMap::new(),
            cpu_hartids,
            cpu_phandles,
            contexts,
        };
        assert forall|b: Seq<u8>| #[trigger] found.view_in(b) == nothing_found() by {
            assert(found.virtio_keys.keys_in(b) =~= Seq::empty());
            assert(found.cpu_keys.keys_in(b) =~= Seq::empty());
        }
        found
    }
}

fn uart_path(blob: &Vec<u8>, path: &[Span]) -> (r: bool)
    requires
        spans_valid(path@, blob.len() as int),
    ensures
        r == is_uart(spans_bytes(blob@, path@)),
{
    path_matches(blob, path, "uart") || path_matches_2(blob, path, "soc", "uart") || path_matches_2(
        blob,
        path,
        "soc",
        "serial",
    )
}

fn uart_kind(fdt: &Fdt, prop: &Property) -> (kind: Option<UartType>)
    ensures
        kind == uart_named(text_value(fdt@, prop.offset as int, prop.len)),
{
    match prop.value_str(fdt) {
        None => None,
        Some(value) => {
            if span_is(&fdt.blob, value, "ns16550a") {
                Some(UartType::Ns16550a)
            } else if span_is(&fdt.blob, value, "sifive,uart0") {
                Some(UartType::SiFive)
            } else {
                None
            }
        },
    }
}

fn record_contexts(contexts: &mut Vec<Option<u32>>, pairs: &Vec<u32>) -> (r: Result<(), FdtError>)
    requires
        old(contexts).len() == MAX_CONTEXTS,
    ensures
        final(contexts).len() == MAX_CONTEXTS,
        match r {
            Ok(()) => !contexts_overflow(pairs@) && final(contexts)@ == contexts_recorded(
                old(contexts)@,
                pairs@,
            ),
            Err(e) => e == FdtError::TooManyContexts && contexts_overflow(pairs@),
        },
{
    let count = pairs.len() / 2;
    let mut i: usize = 0;
    while i < count
        invariant
            i <= count,
            count == pairs.len() / 2,
            contexts.len() == MAX_CONTEXTS,
            forall|k: int|
                0 <= k < MAX_CONTEXTS ==> #[trigger] contexts[k] == if k < i && pairs[2 * k + 1]
                    == SUPERVISOR_EXTERNAL {
                    Some(pairs[2 * k])
                } else {
                    old(contexts)[k]
                },
            forall|k: int|
                MAX_CONTEXTS <= k < i ==> #[trigger] pairs[2 * k + 1] != SUPERVISOR_EXTERNAL,
        decreases count - i,
    {
        if pairs[2 * i + 1] == SUPERVISOR_EXTERNAL {
            if i >= MAX_CONTEXTS {
                return Err(FdtError::TooManyContexts);
            }
            contexts[i] = Some(pairs[2 * i]);
        }
        i += 1;
    }
    assert(contexts@ =~= contexts_recorded(old(contexts)@, pairs@));
    Ok(())
}

impl Discovery {
    /// Takes up what a property tells.
    pub fn record_property(
        &mut self,
        fdt: &Fdt,
        path: &[Span],
        units: &[Span],
        name: Span,
        prop: &Property,
    ) -> (r: Result<(), FdtError>)
        requires
            old(self).well_formed(fdt@.len() as int),
            spans_valid(path@, fdt@.len() as int),
            spans_valid(units@, fdt@.len() as int),
            units.len() == path.len(),
            name.start <= name.end <= fdt@.len(),
        ensures
            match property_found(
                fdt@,
                old(self).view_in(fdt@),
                spans_bytes(fdt@, path@),
                spans_bytes(fdt@, units@),
                span_bytes(fdt@, name),
                prop.offset as int,
                prop.len,
            ) {
                Ok(f) => r is Ok && final(self).view_in(fdt@) == f && final(self).well_formed(
                    fdt@.len() as int,
                ),
                Err(e) => r == Err::<(), FdtError>(e),
            },
    {
        let blob = &fdt.blob;
        if path_matches(blob, path, "chosen") && span_is(blob, name, "linux,initrd-end") {
            match prop.read_int(fdt) {
                Some(value) => {
                    self.initrd_end = Some(value);
                },
                None => {
                    return Err(FdtError::PropertyLength);
                },
            }
        } else if path_matches(blob, path, "chosen") && span_is(blob, name, "linux,initrd-start") {
            match prop.read_int(fdt) {
                Some(value) => {
                    self.initrd_start = Some(value);
                },
                None => {
                    return Err(FdtError::PropertyLength);
                },
            }
        } else if path_matches(blob, path, "memory") && span_is(blob, name, "reg") {
            match prop.read_range(fdt) {
                Some(value) => {
                    self.memory_offset = value.0;
                    self.memory_size = value.1;
                },
                None => {
                    return Err(FdtError::PropertyLength);
                },
            }
        } else if uart_path(blob, path) && span_is(blob, name, "reg") {
            if self.uart_address == 0 {
                match prop.read_range(fdt) {
                    Some(value) => {
                        self.uart_address = value.0;
                    },
                    None => {
                        return Err(FdtError::PropertyLength);
                    },
                }
            }
        } else if uart_path(blob, path) && span_is(blob, name, "compatible") {
            if self.uart_type.is_none() {
                self.uart_type = uart_kind(fdt, prop);
            }
        } else if path_matches_2(blob, path, "soc", "clint") && span_is(blob, name, "reg") {
            match prop.read_range(fdt) {
                Some(value) => {
                    self.clint = Some(value.0);
                },
                None => {
                    return Err(FdtError::PropertyLength);
                },
            }
        } else if path_matches_2(blob, path, "soc", "interrupt-controller") && span_is(
            blob,
            name,
            "reg",
        ) {
            match prop.read_range(fdt) {
                Some(value) => {
                    self.plic = Some(value.0);
                },
                None => {
                    return Err(FdtError::PropertyLength);
                },
            }
        } else if path_matches_2(blob, path, "soc", "interrupt-controller") && span_is(
            blob,
            name,
            "interrupts-extended",
        ) {
            let pairs = prop.big_endian_slice(fdt);
            match record_contexts(&mut self.contexts, &pairs) {
                Ok(()) => {},
                Err(e) => {
                    return Err(e);
                },
            }
        } else if path_matches(blob, path, "virtio_mmio") && span_is(blob, name, "reg") {
            let index = match self.virtio_keys.index_of(blob, units[1]) {
                Ok(index) => index,
                Err(e) => {
                    return Err(e);
                },
            };
            match prop.read_range(fdt) {
                Some(value) => {
                    self.virtio_regs[index] = Some(value);
                },
                None => {
                    return Err(FdtError::PropertyLength);
                },
            }
        } else if path_matches(blob, path, "virtio_mmio") && span_is(blob, name, "interrupts") {
            let index = match self.virtio_keys.index_of(blob, units[1]) {
                Ok(index) => index,
                Err(e) => {
                    return Err(e);
                },
            };
            match prop.read_int(fdt) {
                Some(value) => {
                    self.virtio_irqs[index] = Some(value);
                },
                None => {
                    return Err(FdtError::PropertyLength);
                },
            }
        } else if path_matches_2(blob, path, "cpus", "cpu") && span_is(blob, name, "reg") {
            let index = match self.cpu_keys.index_of(blob, units[2]) {
                Ok(index) => index,
                Err(e) => {
                    return Err(e);
                },
            };
            match prop.read_int(fdt) {
                Some(value) => {
                    self.cpu_hartids[index] = Some(value);
                },
                None => {
                    return Err(FdtError::PropertyLength);
                },
            }
        } else if path_matches_3(blob, path, "cpus", "cpu", "interrupt-controller") && span_is(
            blob,
            name,
            "phandle",
        ) {
            let index = match self.cpu_keys.index_of(blob, units[2]) {
                Ok(index) => index,
                Err(e) => {
                    return Err(e);
                },
            };
            match prop.read_int(fdt) {
                Some(value) => {
                    self.cpu_phandles[index] = Some(value);
                },
                None => {
                    return Err(FdtError::PropertyLength);
                },
            }
        }
        Ok(())
    }

    /// Takes up what a visit tells.
    pub fn record(&mut self, fdt: &Fdt, visit: &Visit) -> (r: Result<(), FdtError>)
        requires
            old(self).well_formed(fdt@.len() as int),
            visit.valid(fdt@.len() as int),
        ensures
            match visit_found(fdt@, old(self).view_in(fdt@), visit.view_in(fdt@)) {
                Ok(f) => r is Ok && final(self).view_in(fdt@) == f && final(self).well_formed(
                    fdt@.len() as int,
                ),
                Err(e) => r == Err::<(), FdtError>(e),
            },
    {
        match visit.what {
            FdtVisit::Node => Ok(()),
            FdtVisit::Property { name, prop } => self.record_property(
                fdt,
                visit.path.as_slice(),
                visit.unit_addresses.as_slice(),
                name,
                &prop,
            ),
        }
    }
}

/// The first context that names the handle, if one does.
fn context_of(contexts: &Vec<Option<u32>>, handle: u32) -> (r: Option<usize>)
    ensures
        match contexts@.index_of_first(Some(handle)) {
            Some(index) => r == Some(index as usize) && 0 <= index < contexts.len(),
            None => r is None,
        },
{
    proof {
        contexts@.index_of_first_ensures(Some(handle));
    }
    let mut i: usize = 0;
    while i < contexts.len()
        invariant
            i <= contexts.len(),
            forall|j: int| 0 <= j < i ==> contexts[j] != Some(handle),
        decreases contexts.len() - i,
    {
        let found = match contexts[i] {
            Some(value) => value == handle,
            None => false,
        };
        if found {
            proof {
                contexts@.index_of_first_ensures(Some(handle));
                assert(contexts@[i as int] == Some(handle));
            }
            return Some(i);
        }
        i += 1;
    }
    proof {
        contexts@.index_of_first_ensures(Some(handle));
        if contexts@.contains(Some(handle)) {
            let j = choose|j: int| 0 <= j < contexts.len() && contexts@[j] == Some(handle);
            assert(contexts[j] != Some(handle));
        }
    }
    None
}

impl Discovery {
    /// The harts that are known in full, in the order of their CPUs.
    fn harts(&self, Ghost(b): Ghost<Seq<u8>>) -> (list: Vec<Hart>)
        requires
            self.well_formed(b.len() as int),
        ensures
            list@ == harts_before(self.view_in(b), MAX_ADDRESSES as int),
            list.len() <= MAX_ADDRESSES,
    {
        let ghost f = self.view_in(b);
        let mut list: Vec<Hart> = Vec::new();
        let mut i: usize = 0;
        while i < MAX_ADDRESSES
            invariant
                i <= MAX_ADDRESSES,
                self.well_formed(b.len() as int),
                f == self.view_in(b),
                list@ == harts_before(f, i as int),
                list.len() <= i,
            decreases MAX_ADDRESSES - i,
        {
            match (self.cpu_hartids[i], self.cpu_phandles[i]) {
                (Some(hartid), Some(phandle)) => {
                    match context_of(&self.contexts, phandle as u32) {
                        Some(context) => {
                            list.push(Hart { hartid, plic_context: context as u64 });
                        },
                        None => {},
                    }
                },
                _ => {},
            }
            i += 1;
        }
        list
    }

    /// The virtio devices that are known in full, in the order of their
    /// unit addresses.
    fn devices(&self, Ghost(b): Ghost<Seq<u8>>) -> (list: Vec<Device>)
        requires
            self.well_formed(b.len() as int),
        ensures
            list@ == devices_before(self.view_in(b), MAX_ADDRESSES as int),
            list.len() <= MAX_ADDRESSES,
    {
        let ghost f = self.view_in(b);
        let mut list: Vec<Device> = Vec::new();
        let mut i: usize = 0;
        while i < MAX_ADDRESSES
            invariant
                i <= MAX_ADDRESSES,
                self.well_formed(b.len() as int),
                f == self.view_in(b),
                list@ == devices_before(f, i as int),
                list.len() <= i,
            decreases MAX_ADDRESSES - i,
        {
            match (self.virtio_regs[i], self.virtio_irqs[i]) {
                (Some(reg), Some(irq)) => {
                    list.push(Device { base_address: reg.0, size: reg.1, irq });
                },
                _ => {},
            }
            i += 1;
        }
        list
    }
}

impl Fdt {
    /// Machine discovery: walks the tree and tells what machine it
    /// describes, or why it is refused.
    pub fn parse(&self) -> (r: Result<MachineMeta, FdtError>)
        ensures
            match r {
                Ok(meta) => found_in(self@) matches Ok(f) && describes(meta@, f),
                Err(e) => found_in(self@) == Err::<Found, FdtError>(e),
            },
    {
        let visits = match self.walk() {
            Ok(visits) => visits,
            Err(e) => {
                return Err(e);
            },
        };
        let ghost b = self@;
        let ghost views = visits_in(b, visits@);
        let mut found = Discovery::new();
        let mut i: usize = 0;
        while i < visits.len()
            invariant
                i <= visits.len(),
                b == self@,
                views == visits_in(b, visits@),
                views == walk_of(b).visits,
                !walk_of(b).too_deep,
                forall|k: int|
                    0 <= k < visits.len() ==> (#[trigger] visits[k]).valid(b.len() as int),
                found.well_formed(b.len() as int),
                visits_found(b, views, 0, nothing_found()) == visits_found(
                    b,
                    views,
                    i as int,
                    found.view_in(b),
                ),
            decreases visits.len() - i,
        {
            assert(views[i as int] == visits[i as int].view_in(b));
            match found.record(self, &visits[i]) {
                Ok(()) => {},
                Err(e) => {
                    return Err(e);
                },
            }
            i += 1;
        }
        let plic_address = match found.plic {
            Some(address) => address,
            None => {
                return Err(FdtError::MissingPlic);
            },
        };
        let clint_address = match found.clint {
            Some(address) => address,
            None => {
                return Err(FdtError::MissingClint);
            },
        };
        let (initrd_start, initrd_end) = match (found.initrd_start, found.initrd_end) {
            (Some(start), Some(end)) => (start, end),
            _ => (0, 0),
        };
        let harts = sorted_by_key(&found.harts(Ghost(b)));
        let devices = sorted_by_key(&found.devices(Ghost(b)));
        Ok(
            MachineMeta {
                physical_memory_offset: found.memory_offset,
                physical_memory_size: found.memory_size,
                harts: Harts::from_list(&harts),
                uart_type: found.uart_type,
                uart_address: found.uart_address,
                plic_address,
                clint_address,
                virtio: Devices::from_list(&devices),
                initrd_start,
                initrd_end,
            },
        )
    }
}

} // verus!
