use rvirt::fdt::{Device, Hart, UartType};
use rvirt::fdt::walk::{FdtVisit, Span, Visit};
use rvirt::fdt::{Fdt, FdtError, MemoryRegion, Property};

/// Builds blobs: a header, a reservation list, a structure block and a
/// strings block, in that order.
struct Builder {
    structure: Vec<u8>,
    strings: Vec<u8>,
}

impl Builder {
    fn new() -> Builder {
        Builder { structure: Vec::new(), strings: Vec::new() }
    }

    fn word(&mut self, value: u32) {
        self.structure.extend_from_slice(&value.to_be_bytes());
    }

    fn pad(&mut self) {
        while self.structure.len() % 4 != 0 {
            self.structure.push(0);
        }
    }

    fn begin(&mut self, name: &str) {
        self.word(1);
        self.structure.extend_from_slice(name.as_bytes());
        self.structure.push(0);
        self.pad();
    }

    fn end(&mut self) {
        self.word(2);
    }

    fn nop(&mut self) {
        self.word(4);
    }

    fn prop(&mut self, name: &str, value: &[u8]) {
        let offset = self.strings.len() as u32;
        self.strings.extend_from_slice(name.as_bytes());
        self.strings.push(0);
        self.word(3);
        self.word(value.len() as u32);
        self.word(offset);
        self.structure.extend_from_slice(value);
        self.pad();
    }

    fn finish(mut self, reservations: &[(u64, u64)]) -> Vec<u8> {
        self.word(9);
        let off_rsvmap = 40u32;
        let off_struct = off_rsvmap + 16 * (reservations.len() as u32 + 1);
        let off_strings = off_struct + self.structure.len() as u32;
        let total = off_strings + self.strings.len() as u32;
        let mut blob = Vec::new();
        for field in [
            0xd00dfeedu32,
            total,
            off_struct,
            off_strings,
            off_rsvmap,
            17,
            16,
            0,
            self.strings.len() as u32,
            self.structure.len() as u32,
        ] {
            blob.extend_from_slice(&field.to_be_bytes());
        }
        for (address, size) in reservations {
            blob.extend_from_slice(&address.to_be_bytes());
            blob.extend_from_slice(&size.to_be_bytes());
        }
        blob.extend_from_slice(&[0; 16]);
        blob.extend_from_slice(&self.structure);
        blob.extend_from_slice(&self.strings);
        blob
    }
}

fn range(base: u64, size: u64) -> Vec<u8> {
    let mut value = base.to_be_bytes().to_vec();
    value.extend_from_slice(&size.to_be_bytes());
    value
}

fn cells(values: &[u32]) -> Vec<u8> {
    values.iter().flat_map(|v| v.to_be_bytes()).collect()
}

fn virtio(builder: &mut Builder, address: u64, irq: Option<u32>) {
    builder.begin(&format!("virtio_mmio@{:x}", address));
    builder.prop("reg", &range(address, 0x1000));
    if let Some(irq) = irq {
        builder.prop("interrupts", &cells(&[irq]));
    }
    builder.end();
}

fn cpu(builder: &mut Builder, unit: &str, hartid: u32, phandle: u32) {
    builder.begin(&format!("cpu@{}", unit));
    builder.prop("reg", &cells(&[hartid]));
    builder.begin("interrupt-controller");
    builder.prop("phandle", &cells(&[phandle]));
    builder.end();
    builder.end();
}

/// A machine with two harts, a console, both interrupt controllers, four
/// virtio devices of which one lacks its interrupt, a PCI bridge and a test
/// device.
fn machine() -> Vec<u8> {
    let mut b = Builder::new();
    b.begin("");
    b.begin("chosen");
    b.prop("linux,initrd-start", &0x8400_0000u64.to_be_bytes());
    b.prop("linux,initrd-end", &cells(&[0x8500_0000]));
    b.prop("bootargs", b"console=ttyS0\0");
    b.end();
    b.begin("memory@80000000");
    b.prop("device_type", b"memory\0");
    b.prop("reg", &range(0x8000_0000, 0x1000_0000));
    b.end();
    b.begin("cpus");
    cpu(&mut b, "1", 1, 4);
    cpu(&mut b, "0", 0, 3);
    b.end();
    b.begin("soc");
    b.begin("uart@10000000");
    b.prop("reg", &range(0x1000_0000, 0x100));
    b.prop("compatible", b"ns16550a\0");
    b.end();
    b.begin("serial@10010000");
    b.prop("reg", &range(0x1001_0000, 0x100));
    b.prop("compatible", b"sifive,uart0\0");
    b.end();
    b.begin("clint@2000000");
    b.prop("reg", &range(0x200_0000, 0x1_0000));
    b.end();
    b.begin("interrupt-controller@c000000");
    b.prop("reg", &range(0xc00_0000, 0x400_0000));
    b.prop("interrupts-extended", &cells(&[3, 11, 3, 9, 4, 11, 4, 9]));
    b.end();
    b.begin("pci@30000000");
    b.prop("reg", &range(0x3000_0000, 0x1000_0000));
    b.prop("compatible", b"pci-host-ecam-generic\0");
    b.prop("bus-range", &cells(&[0, 255]));
    b.end();
    b.end();
    virtio(&mut b, 0x1000_2000, Some(2));
    virtio(&mut b, 0x1000_1000, Some(1));
    virtio(&mut b, 0x1000_5000, Some(5));
    virtio(&mut b, 0x1000_3000, None);
    b.begin("test@100000");
    b.prop("reg", &range(0x10_0000, 0x1000));
    b.prop("compatible", b"sifive,test0\0");
    b.prop("status", b"okay\0");
    b.end();
    b.end();
    b.finish(&[(0x8000_0000, 0x2_0000)])
}

fn name(fdt: &Fdt, span: Span) -> String {
    String::from_utf8(fdt.bytes(span)).unwrap()
}

/// The path of a visit, as `/a/b@unit`.
fn path(fdt: &Fdt, visit: &Visit) -> String {
    let mut text = String::new();
    for i in 1..visit.path.len() {
        text.push('/');
        text.push_str(&name(fdt, visit.path[i]));
        let unit = name(fdt, visit.unit_addresses[i]);
        if !unit.is_empty() {
            text.push('@');
            text.push_str(&unit);
        }
    }
    text
}

fn node_paths(fdt: &Fdt) -> Vec<String> {
    fdt.walk()
        .unwrap()
        .iter()
        .filter(|v| v.what == FdtVisit::Node)
        .map(|v| path(fdt, v))
        .collect()
}

fn property_paths(fdt: &Fdt) -> Vec<String> {
    let mut list = Vec::new();
    for visit in fdt.walk().unwrap().iter() {
        if let FdtVisit::Property { name: n, .. } = visit.what {
            list.push(format!("{}:{}", path(fdt, visit), name(fdt, n)));
        }
    }
    list
}

fn find_property(fdt: &Fdt, wanted: &str) -> Property {
    for visit in fdt.walk().unwrap().iter() {
        if let FdtVisit::Property { name: n, prop } = visit.what {
            if format!("{}:{}", path(fdt, visit), name(fdt, n)) == wanted {
                return prop;
            }
        }
    }
    panic!("no property {}", wanted)
}

/// Counts the tokens of the structure block that stand for nothing.
fn count_nops(fdt: &Fdt) -> usize {
    let word = |at: usize| u32::from_be_bytes(fdt.blob[at..at + 4].try_into().unwrap());
    let mut at = fdt.off_dt_struct() as usize;
    let end = at + fdt.size_dt_struct() as usize;
    let mut count = 0;
    while at < end {
        match word(at) {
            1 => {
                let mut name_end = at + 4;
                while fdt.blob[name_end] != 0 {
                    name_end += 1;
                }
                at += 4 + 4 * (1 + (name_end - at - 4) / 4);
            }
            3 => at += 12 + 4 * ((word(at + 4) as usize + 3) / 4),
            4 => {
                count += 1;
                at += 4;
            }
            9 => break,
            _ => at += 4,
        }
    }
    count
}

#[test]
fn header_fields() {
    let blob = machine();
    let total = blob.len() as u32;
    let fdt = Fdt::new(0x8220_0000, blob);
    assert!(fdt.magic_valid());
    assert_eq!(fdt.total_size(), total);
    assert_eq!(fdt.off_mem_rsvmap(), 40);
    assert_eq!(fdt.off_dt_struct(), 72);
    assert_eq!(fdt.off_dt_strings(), 72 + fdt.size_dt_struct());
    assert_eq!(fdt.off_dt_strings() + fdt.size_dt_strings(), total);
    assert_eq!(fdt.version(), 17);
    assert_eq!(fdt.last_comp_version(), 16);
    assert_eq!(fdt.boot_cpuid_phys(), 0);
    assert_eq!(fdt.address(), 0x8220_0000);
}

#[test]
fn header_of_a_short_blob_reads_as_zero() {
    let fdt = Fdt::new(0, vec![0xd0, 0x0d, 0xfe, 0xed, 0x00, 0x00]);
    assert!(fdt.magic_valid());
    assert_eq!(fdt.total_size(), 0);
    assert_eq!(fdt.size_dt_struct(), 0);
    assert_eq!(fdt.walk().unwrap().len(), 0);
    let other = Fdt::new(0, vec![0xed, 0xfe, 0x0d, 0xd0]);
    assert!(!other.magic_valid());
}

#[test]
fn memory_reservations_end_at_the_zero_entry() {
    let mut b = Builder::new();
    b.begin("");
    b.end();
    let blob = b.finish(&[(0x8000_0000, 0x2_0000), (0, 0x1000), (0x9000_0000, 0)]);
    let fdt = Fdt::new(0, blob);
    let list = fdt.memory_reservations();
    assert_eq!(
        list,
        vec![
            MemoryRegion { offset: 0x8000_0000, size: 0x2_0000 },
            MemoryRegion { offset: 0, size: 0x1000 },
            MemoryRegion { offset: 0x9000_0000, size: 0 },
        ]
    );
    assert_eq!(list[0].offset(), 0x8000_0000);
    assert_eq!(list[0].size(), 0x2_0000);
}

#[test]
fn memory_region_set_size() {
    let mut region = MemoryRegion { offset: 0x8000_0000, size: 0x1000 };
    region.set_size(0x4000);
    assert_eq!(region, MemoryRegion { offset: 0x8000_0000, size: 0x4000 });
}

#[test]
fn walk_visits_nodes_and_properties_in_order() {
    let mut b = Builder::new();
    b.begin("");
    b.prop("model", b"x\0");
    b.begin("soc");
    b.nop();
    b.begin("uart@10000000@more");
    b.prop("reg", &range(1, 2));
    b.end();
    b.end();
    b.begin("memory@80000000");
    b.end();
    b.end();
    let fdt = Fdt::new(0, b.finish(&[]));
    assert_eq!(node_paths(&fdt), vec!["", "/soc", "/soc/uart@10000000", "/memory@80000000"]);
    assert_eq!(property_paths(&fdt), vec![":model", "/soc/uart@10000000:reg"]);
    let visits = fdt.walk().unwrap();
    assert_eq!(visits.len(), 6);
    assert_eq!(visits[0].path.len(), 1);
    assert_eq!(visits[3].path.len(), 3);
    assert_eq!(visits[3].unit_addresses.len(), 3);
    assert_eq!(name(&fdt, visits[3].unit_addresses[1]), "");
}

#[test]
fn walk_stops_at_the_end_token_and_at_a_token_that_does_not_fit() {
    let mut b = Builder::new();
    b.begin("");
    b.begin("a");
    b.end();
    b.word(9);
    b.begin("b");
    b.end();
    b.end();
    let fdt = Fdt::new(0, b.finish(&[]));
    assert_eq!(node_paths(&fdt), vec!["", "/a"]);

    let mut c = Builder::new();
    c.begin("");
    c.begin("a");
    c.end();
    c.word(3);
    c.word(400);
    c.word(0);
    let cut = Fdt::new(0, c.finish(&[]));
    assert_eq!(node_paths(&cut), vec!["", "/a"]);
    assert_eq!(property_paths(&cut).len(), 0);
}

fn nested(depth: usize) -> Vec<u8> {
    let mut b = Builder::new();
    for i in 0..depth {
        b.begin(if i == 0 { "" } else { "n" });
    }
    for _ in 0..depth {
        b.end();
    }
    b.finish(&[])
}

#[test]
fn nesting_of_sixteen_is_walked_and_of_seventeen_refused() {
    let fine = Fdt::new(0, nested(16));
    assert_eq!(fine.walk().unwrap().len(), 16);
    let deep = Fdt::new(0, nested(17));
    assert_eq!(deep.walk().err(), Some(FdtError::TooDeep));
    assert_eq!(deep.parse().err(), Some(FdtError::TooDeep));
    let mut masked = Fdt::new(0, nested(17));
    assert_eq!(masked.mask(0x1000), Err(FdtError::TooDeep));
    assert_eq!(masked.blob, nested(17));
}

#[test]
fn property_accessors() {
    let blob = machine();
    let fdt = Fdt::new(0x1000, blob);
    let start = find_property(&fdt, "/chosen:linux,initrd-start");
    assert_eq!(start.len(), 8);
    assert_eq!(start.read_int(&fdt), Some(0x8400_0000));
    assert_eq!(start.read_range(&fdt), None);
    assert_eq!(start.address(), 0x1000 + start.offset as u64);
    let end = find_property(&fdt, "/chosen:linux,initrd-end");
    assert_eq!(end.len(), 4);
    assert_eq!(end.read_int(&fdt), Some(0x8500_0000));
    let reg = find_property(&fdt, "/memory@80000000:reg");
    assert_eq!(reg.read_range(&fdt), Some((0x8000_0000, 0x1000_0000)));
    assert_eq!(reg.read_int(&fdt), None);
    let args = find_property(&fdt, "/chosen:bootargs");
    assert_eq!(args.read_int(&fdt), None);
    assert_eq!(name(&fdt, args.value_str(&fdt).unwrap()), "console=ttyS0");
    assert_eq!(reg.value_str(&fdt), None);
    let pairs = find_property(&fdt, "/soc/interrupt-controller@c000000:interrupts-extended");
    assert_eq!(pairs.big_endian_slice(&fdt), vec![3, 11, 3, 9, 4, 11, 4, 9]);
    assert_eq!(name(&fdt, fdt.get_string(reg.name_offset()).unwrap()), "reg");
}

#[test]
fn strings_of_the_blob() {
    let mut b = Builder::new();
    b.begin("");
    b.prop("model", b"x\0");
    b.prop("compatible", b"y\0");
    b.end();
    let fdt = Fdt::new(0, b.finish(&[]));
    assert_eq!(fdt.strings(), b"model\0compatible\0");
    assert_eq!(name(&fdt, fdt.get_string(0).unwrap()), "model");
    assert_eq!(name(&fdt, fdt.get_string(6).unwrap()), "compatible");
    assert_eq!(name(&fdt, fdt.get_string(8).unwrap()), "mpatible");
    assert_eq!(fdt.get_string(17), None);
    assert_eq!(fdt.get_string(u32::MAX), None);
    let start = fdt.off_dt_struct() as usize + 4;
    assert_eq!(fdt.str_from_ptr(start), Some(Span { start, end: start }));
    assert_eq!(fdt.str_from_ptr(fdt.blob.len()), None);
    let cut = Fdt::new(0, vec![b'a', b'b']);
    assert_eq!(cut.str_from_ptr(0), None);
    assert_eq!(cut.strings(), b"");
}

#[test]
fn value_str_of_text_without_an_end_and_of_no_text() {
    let mut b = Builder::new();
    b.begin("");
    b.prop("plain", b"abc");
    b.prop("empty", b"");
    b.prop("control", b"a\x01c\0");
    b.prop("high", b"ab\x80");
    b.end();
    let fdt = Fdt::new(0, b.finish(&[]));
    assert_eq!(name(&fdt, find_property(&fdt, ":plain").value_str(&fdt).unwrap()), "abc");
    assert_eq!(name(&fdt, find_property(&fdt, ":empty").value_str(&fdt).unwrap()), "");
    assert_eq!(find_property(&fdt, ":control").value_str(&fdt), None);
    assert_eq!(find_property(&fdt, ":high").value_str(&fdt), None);
}

#[test]
fn property_mask_replaces_the_property_by_nops() {
    let mut fdt = Fdt::new(0, machine());
    let before = property_paths(&fdt);
    let args = find_property(&fdt, "/chosen:bootargs");
    args.mask(&mut fdt);
    let mut expected = before.clone();
    expected.retain(|p| p != "/chosen:bootargs");
    assert_eq!(property_paths(&fdt), expected);
    // "console=ttyS0\0" has 14 bytes: 4 words, and 3 for token and header.
    assert_eq!(count_nops(&fdt), 7);
}

#[test]
fn parse_describes_the_machine() {
    let fdt = Fdt::new(0, machine());
    let meta = fdt.parse().unwrap();
    assert_eq!(meta.physical_memory_offset, 0x8000_0000);
    assert_eq!(meta.physical_memory_size, 0x1000_0000);
    assert_eq!(meta.uart_type, Some(UartType::Ns16550a));
    assert_eq!(meta.uart_address, 0x1000_0000);
    assert_eq!(meta.plic_address, 0xc00_0000);
    assert_eq!(meta.clint_address, 0x200_0000);
    assert_eq!(meta.initrd_start, 0x8400_0000);
    assert_eq!(meta.initrd_end, 0x8500_0000);
    assert_eq!(
        meta.harts.as_slice(),
        &[Hart { hartid: 0, plic_context: 1 }, Hart { hartid: 1, plic_context: 3 }]
    );
    assert_eq!(
        meta.virtio.as_slice(),
        &[
            Device { base_address: 0x1000_1000, size: 0x1000, irq: 1 },
            Device { base_address: 0x1000_2000, size: 0x1000, irq: 2 },
            Device { base_address: 0x1000_5000, size: 0x1000, irq: 5 },
        ]
    );
}

#[test]
fn parse_takes_the_sifive_console_and_leaves_the_initrd_out_if_one_end_is_missing() {
    let mut b = Builder::new();
    b.begin("");
    b.begin("chosen");
    b.prop("linux,initrd-start", &cells(&[0x8400_0000]));
    b.end();
    b.begin("uart@10013000");
    b.prop("compatible", b"sifive,uart0\0");
    b.prop("reg", &range(0x1001_3000, 0x1000));
    b.end();
    b.begin("soc");
    b.begin("clint@2000000");
    b.prop("reg", &range(0x200_0000, 0x1_0000));
    b.end();
    b.begin("interrupt-controller@c000000");
    b.prop("reg", &range(0xc00_0000, 0x400_0000));
    b.end();
    b.end();
    b.end();
    let meta = Fdt::new(0, b.finish(&[])).parse().unwrap();
    assert_eq!(meta.uart_type, Some(UartType::SiFive));
    assert_eq!(meta.uart_address, 0x1001_3000);
    assert_eq!(meta.initrd_start, 0);
    assert_eq!(meta.initrd_end, 0);
    assert_eq!(meta.harts.as_slice().len(), 0);
    assert_eq!(meta.virtio.as_slice().len(), 0);
}

/// A tree with both interrupt controllers, and whatever `more` adds below
/// the root.
fn with_controllers(more: impl FnOnce(&mut Builder)) -> Fdt {
    let mut b = Builder::new();
    b.begin("");
    b.begin("soc");
    b.begin("clint@2000000");
    b.prop("reg", &range(0x200_0000, 0x1_0000));
    b.end();
    b.begin("interrupt-controller@c000000");
    b.prop("reg", &range(0xc00_0000, 0x400_0000));
    b.end();
    b.end();
    more(&mut b);
    b.end();
    Fdt::new(0, b.finish(&[]))
}

#[test]
fn parse_refuses_a_tree_without_interrupt_controllers() {
    let mut b = Builder::new();
    b.begin("");
    b.begin("soc");
    b.begin("clint@2000000");
    b.prop("reg", &range(0x200_0000, 0x1_0000));
    b.end();
    b.end();
    b.end();
    assert_eq!(Fdt::new(0, b.finish(&[])).parse().err(), Some(FdtError::MissingPlic));

    let mut c = Builder::new();
    c.begin("");
    c.begin("soc");
    c.begin("interrupt-controller@c000000");
    c.prop("reg", &range(0xc00_0000, 0x400_0000));
    c.end();
    c.end();
    c.end();
    assert_eq!(Fdt::new(0, c.finish(&[])).parse().err(), Some(FdtError::MissingClint));
    assert!(with_controllers(|_| {}).parse().is_ok());
}

#[test]
fn parse_refuses_values_of_a_wrong_length() {
    let memory = with_controllers(|b| {
        b.begin("memory@0");
        b.prop("reg", &cells(&[0, 1]));
        b.end();
    });
    assert_eq!(memory.parse().err(), Some(FdtError::PropertyLength));
    let hart = with_controllers(|b| {
        b.begin("cpus");
        b.begin("cpu@0");
        b.prop("reg", &range(0, 0));
        b.end();
        b.end();
    });
    assert_eq!(hart.parse().err(), Some(FdtError::PropertyLength));
}

#[test]
fn parse_refuses_a_context_beyond_those_kept() {
    let mut pairs = Vec::new();
    for _ in 0..64 {
        pairs.extend_from_slice(&[7, 9]);
    }
    let mut more = pairs.clone();
    more.extend_from_slice(&[7, 11]);
    let fine = with_controllers(|b| {
        b.begin("soc");
        b.begin("interrupt-controller@c000000");
        b.prop("interrupts-extended", &cells(&more));
        b.end();
        b.end();
    });
    assert!(fine.parse().is_ok());
    pairs.extend_from_slice(&[7, 9]);
    let full = with_controllers(|b| {
        b.begin("soc");
        b.begin("interrupt-controller@c000000");
        b.prop("interrupts-extended", &cells(&pairs));
        b.end();
        b.end();
    });
    assert_eq!(full.parse().err(), Some(FdtError::TooManyContexts));
}

#[test]
fn parse_refuses_unit_addresses_it_cannot_keep() {
    let long = with_controllers(|b| {
        b.begin("virtio_mmio@12345678901234567");
        b.prop("reg", &range(1, 1));
        b.end();
    });
    assert_eq!(long.parse().err(), Some(FdtError::AddressTooLong));
    let sixteen = with_controllers(|b| {
        for i in 0..16u64 {
            virtio(b, 0x1000_0000 + 0x1000 * i, Some(i as u32));
        }
        b.begin("virtio_mmio@1234567890123456");
        b.prop("reg", &range(1, 1));
        b.end();
    });
    assert_eq!(sixteen.parse().err(), Some(FdtError::TooManyAddresses));
    let fits = with_controllers(|b| {
        for i in 0..16u64 {
            virtio(b, 0x1000_0000 + 0x1000 * i, Some(i as u32));
        }
        cpu(b, "0", 0, 1);
    });
    assert_eq!(fits.parse().unwrap().virtio.as_slice().len(), 16);
}

#[test]
fn harts_without_a_context_are_left_out_and_equal_harts_stay() {
    let fdt = with_controllers(|b| {
        b.begin("soc");
        b.begin("interrupt-controller@c000000");
        b.prop("interrupts-extended", &cells(&[5, 9, 6, 11, 5, 9]));
        b.end();
        b.end();
        b.begin("cpus");
        cpu(b, "2", 7, 6);
        cpu(b, "1", 3, 5);
        cpu(b, "0", 3, 5);
        b.end();
    });
    assert_eq!(
        fdt.parse().unwrap().harts.as_slice(),
        &[Hart { hartid: 3, plic_context: 0 }, Hart { hartid: 3, plic_context: 0 }]
    );
}

#[test]
fn fdt_mask_of_test_and_pci() {
    let mut b = Builder::new();
    b.begin("");
    b.begin("soc");
    b.begin("pci@30000000");
    b.prop("reg", &range(0x3000_0000, 0x1000_0000));
    b.prop("compatible", b"pci\0");
    b.prop("bus-range", &cells(&[0, 255]));
    b.end();
    b.end();
    b.begin("test@100000");
    b.prop("reg", &range(0x10_0000, 0x1000));
    b.prop("compatible", b"sifive,test0\0");
    b.prop("status", b"okay\0");
    b.end();
    b.end();
    let mut fdt = Fdt::new(0, b.finish(&[]));
    assert_eq!(count_nops(&fdt), 0);
    assert_eq!(fdt.mask(0x800_0000), Ok(()));
    assert_eq!(node_paths(&fdt), vec!["", "/soc"]);
    assert_eq!(property_paths(&fdt).len(), 0);
    // /soc/pci: 5 words for the node's start (its token, and 4 for the 13
    // bytes of "pci@30000000" and its end), 7 + 4 + 5 for the properties,
    // 1 for the node's end. /test: 4 words (its token, and 3 for the 12
    // bytes of "test@100000"), 7 + 7 + 5, and 1.
    assert_eq!(count_nops(&fdt), (5 + 7 + 4 + 5 + 1) + (4 + 7 + 7 + 5 + 1));
}

#[test]
fn mask_hides_what_the_guest_must_not_see() {
    let mut fdt = Fdt::new(0, machine());
    let before = fdt.blob.clone();
    assert_eq!(fdt.mask(0x800_0000), Ok(()));
    assert_eq!(fdt.blob.len(), before.len());
    assert_eq!(
        node_paths(&fdt),
        vec![
            "",
            "/chosen",
            "/memory@80000000",
            "/cpus",
            "/cpus/cpu@0",
            "/cpus/cpu@0/interrupt-controller",
            "/soc",
            "/soc/uart@10000000",
            "/soc/serial@10010000",
            "/soc/clint@2000000",
            "/soc/interrupt-controller@c000000",
            "/virtio_mmio@10002000",
            "/virtio_mmio@10001000",
            "/virtio_mmio@10003000",
        ]
    );
    let properties = property_paths(&fdt);
    assert!(properties.contains(&"/chosen:bootargs".to_string()));
    assert!(!properties.contains(&"/chosen:linux,initrd-start".to_string()));
    assert!(!properties.contains(&"/chosen:linux,initrd-end".to_string()));
    let header = fdt.off_dt_struct() as usize;
    assert_eq!(fdt.blob[..header], before[..header]);
    let strings = fdt.off_dt_strings() as usize;
    assert_eq!(fdt.blob[strings..], before[strings..]);
}

#[test]
fn mask_rewrites_the_size_of_memory() {
    let mut fdt = Fdt::new(0, machine());
    assert_eq!(fdt.mask(0x1234_5678_9abc_def0), Ok(()));
    let reg = find_property(&fdt, "/memory@80000000:reg");
    assert_eq!(reg.read_range(&fdt), Some((0x8000_0000, 0x1234_5678_9abc_def0)));
    let at = reg.offset + 16;
    assert_eq!(fdt.blob[at..at + 8], [0x12, 0x34, 0x56, 0x78, 0x9a, 0xbc, 0xde, 0xf0]);
    let meta = fdt.parse().unwrap();
    assert_eq!(meta.physical_memory_offset, 0x8000_0000);
    assert_eq!(meta.physical_memory_size, 0x1234_5678_9abc_def0);
    assert_eq!(meta.initrd_start, 0);
    assert_eq!(meta.initrd_end, 0);
    assert_eq!(meta.harts.as_slice(), &[Hart { hartid: 0, plic_context: 1 }]);
    assert_eq!(
        meta.virtio.as_slice(),
        &[
            Device { base_address: 0x1000_1000, size: 0x1000, irq: 1 },
            Device { base_address: 0x1000_2000, size: 0x1000, irq: 2 },
        ]
    );
}

#[test]
fn mask_leaves_a_memory_reg_of_another_length_alone() {
    let mut b = Builder::new();
    b.begin("");
    b.begin("memory@0");
    b.prop("reg", &cells(&[1, 2, 3]));
    b.end();
    b.end();
    let blob = b.finish(&[]);
    let mut fdt = Fdt::new(0, blob.clone());
    assert_eq!(fdt.mask(0x4000), Ok(()));
    assert_eq!(fdt.blob, blob);
}

#[test]
fn masking_twice_is_masking_once() {
    let mut fdt = Fdt::new(0, machine());
    assert_eq!(fdt.mask(0x800_0000), Ok(()));
    let once = fdt.blob.clone();
    assert_ne!(once, machine());
    assert_eq!(fdt.mask(0x800_0000), Ok(()));
    assert_eq!(fdt.blob, once);
}

#[test]
fn mask_hides_nested_nodes_of_a_hidden_node() {
    let mut b = Builder::new();
    b.begin("");
    b.begin("test");
    b.begin("chosen");
    b.prop("x", b"y\0");
    b.begin("deeper");
    b.end();
    b.end();
    b.word(0x12345678);
    b.end();
    b.begin("cpus");
    b.begin("cpu");
    b.end();
    b.begin("cpu@10");
    b.end();
    b.end();
    b.end();
    let mut fdt = Fdt::new(0, b.finish(&[]));
    assert_eq!(fdt.mask(0), Ok(()));
    assert_eq!(node_paths(&fdt), vec!["", "/cpus", "/cpus/cpu"]);
    // /test: 3 words, /test/chosen: 3, x: 4, deeper: 3 and 1, one word that
    // is no token, 2 ends; cpu@10: 3 and 1.
    assert_eq!(count_nops(&fdt), 3 + 3 + 4 + 3 + 1 + 1 + 2 + 3 + 1);
}

#[test]
fn layout_of_a_blob() {
    let fdt = Fdt::new(0, machine());
    assert!(fdt.is_laid_out());
    let mut early = machine();
    early[8..12].copy_from_slice(&36u32.to_be_bytes());
    assert!(!Fdt::new(0, early).is_laid_out());
    let mut overlapping = machine();
    let inside = fdt.off_dt_strings() - 4;
    overlapping[12..16].copy_from_slice(&inside.to_be_bytes());
    assert!(!Fdt::new(0, overlapping).is_laid_out());
}

#[test]
fn unit_addresses_are_kept_once_each() {
    let fdt = with_controllers(|b| {
        virtio(b, 0x1000_1000, None);
        b.begin("virtio_mmio@10001000");
        b.prop("interrupts", &cells(&[7]));
        b.prop("reg", &range(0x2000_0000, 0x100));
        b.end();
        b.begin("virtio_mmio@10001000@again");
        b.prop("interrupts", &0x1_0000_0008u64.to_be_bytes());
        b.end();
    });
    assert_eq!(
        fdt.parse().unwrap().virtio.as_slice(),
        &[Device { base_address: 0x2000_0000, size: 0x100, irq: 0x1_0000_0008 }]
    );
}
