//! What the tables of machine discovery hold, told from the tree.

use vstd::prelude::*;
use crate::fdt::found_laws::{lemma_visit_sized, tables_sized};
use crate::fdt::parse::{
    Found, MAX_ADDRESSES, device_at, found_in, nothing_found, visit_found, visits_found,
};
use crate::fdt::rules::{lemma_names_differ, path_is, path_is_2, path_is_3, text};
use crate::fdt::walk::{VisitView, VisitWhat, walk_of};

verus! {

/// The tables that are kept by unit address.
pub enum Table {
    /// The register windows of the virtio devices.
    VirtioReg,
    /// The interrupts of the virtio devices.
    VirtioIrq,
    /// The harts of the CPUs.
    CpuHart,
    /// The handles of the interrupt controllers of the CPUs.
    CpuHandle,
}

/// Whether a visit is of a property that the table takes up: `reg` and
/// `interrupts` of `/virtio_mmio`, `reg` of `/cpus/cpu`, and `phandle` of
/// `/cpus/cpu/interrupt-controller`.
pub open spec fn feeds(table: Table, visit: VisitView) -> bool {
    visit.what matches VisitWhat::Property { name, offset, len, name_offset } && match table {
        Table::VirtioReg => path_is(visit.path, "virtio_mmio") && name == text("reg"),
        Table::VirtioIrq => path_is(visit.path, "virtio_mmio") && name == text("interrupts"),
        Table::CpuHart => path_is_2(visit.path, "cpus", "cpu") && name == text("reg"),
        Table::CpuHandle => path_is_3(visit.path, "cpus", "cpu", "interrupt-controller") && name
            == text("phandle"),
    }
}

/// The unit address by which the table keeps what a visit tells: that of
/// the virtio device, or that of the CPU.
pub open spec fn key_of(table: Table, visit: VisitView) -> Seq<u8> {
    match table {
        Table::VirtioReg | Table::VirtioIrq => visit.units[1],
        Table::CpuHart | Table::CpuHandle => visit.units[2],
    }
}

/// The unit addresses of a table.
pub open spec fn keys_of(table: Table, f: Found) -> Seq<Seq<u8>> {
    match table {
        Table::VirtioReg | Table::VirtioIrq => f.virtio_keys,
        Table::CpuHart | Table::CpuHandle => f.cpu_keys,
    }
}

/// Whether the table holds something at place `i`.
pub open spec fn filled(table: Table, f: Found, i: int) -> bool {
    match table {
        Table::VirtioReg => f.virtio_regs[i] is Some,
        Table::VirtioIrq => f.virtio_irqs[i] is Some,
        Table::CpuHart => f.cpu_hartids[i] is Some,
        Table::CpuHandle => f.cpu_phandles[i] is Some,
    }
}

/// Whether the table holds something for the unit address `key` at place
/// `i`.
pub open spec fn holds_at(table: Table, f: Found, key: Seq<u8>, i: int) -> bool {
    0 <= i < keys_of(table, f).len() && i < MAX_ADDRESSES && keys_of(table, f)[i] == key
        && filled(table, f, i)
}

/// Whether the table holds something for the unit address `key`.
pub open spec fn holds(table: Table, f: Found, key: Seq<u8>) -> bool {
    exists|i: int| holds_at(table, f, key, i)
}

/// Whether visit `k` is one that the table takes up for the unit address
/// `key`.
pub open spec fn told_at(table: Table, visits: Seq<VisitView>, key: Seq<u8>, k: int) -> bool {
    0 <= k < visits.len() && feeds(table, visits[k]) && key_of(table, visits[k]) == key
}

/// Whether one of the visits before `count` is one that the table takes up
/// for the unit address `key`.
pub open spec fn told(table: Table, visits: Seq<VisitView>, count: int, key: Seq<u8>) -> bool {
    exists|k: int| k < count && told_at(table, visits, key, k)
}

/// Whether the table holds what the visits before `count` have told, and
/// nothing else, each unit address once.
pub open spec fn faithful(table: Table, visits: Seq<VisitView>, count: int, f: Found) -> bool {
    &&& keys_of(table, f).no_duplicates()
    &&& forall|k: int|
        0 <= k < count && k < visits.len() && feeds(table, #[trigger] visits[k]) ==> holds(
            table,
            f,
            key_of(table, visits[k]),
        )
    &&& forall|i: int|
        0 <= i < MAX_ADDRESSES && #[trigger] filled(table, f, i) ==> i < keys_of(table, f).len()
            && told(table, visits, count, keys_of(table, f)[i])
}

/// What a visit does to a table: the unit addresses stay where they are,
/// what is held stays held, and what is new is what the visit tells.
pub proof fn lemma_visit_effect(table: Table, b: Seq<u8>, f: Found, visit: VisitView)
    requires
        tables_sized(f),
        keys_of(table, f).no_duplicates(),
        visit_found(b, f, visit) is Ok,
    ensures
        ({
            let g = visit_found(b, f, visit)->Ok_0;
            &&& keys_of(table, g).no_duplicates()
            &&& keys_of(table, f).len() <= keys_of(table, g).len()
            &&& forall|i: int|
                0 <= i < keys_of(table, f).len() ==> #[trigger] keys_of(table, g)[i] == keys_of(
                    table,
                    f,
                )[i]
            &&& forall|i: int|
                0 <= i < MAX_ADDRESSES && filled(table, f, i) ==> #[trigger] filled(table, g, i)
            &&& feeds(table, visit) ==> holds(table, g, key_of(table, visit))
            &&& forall|i: int|
                0 <= i < MAX_ADDRESSES && #[trigger] filled(table, g, i) && !filled(table, f, i)
                    ==> feeds(table, visit) && i < keys_of(table, g).len() && keys_of(table, g)[i]
                    == key_of(table, visit)
        }),
{
    let g = visit_found(b, f, visit)->Ok_0;
    lemma_names_differ();
    f.virtio_keys.index_of_first_ensures(visit.units[1]);
    f.cpu_keys.index_of_first_ensures(visit.units[2]);
    lemma_visit_sized(b, f, visit);
    if feeds(table, visit) {
        let key = key_of(table, visit);
        let keys = keys_of(table, f);
        let i = match keys.index_of_first(key) {
            Some(index) => index,
            None => keys.len() as int,
        };
        assert(holds_at(table, g, key, i));
    }
}

/// The table stays faithful over the visits from `from` on.
pub proof fn lemma_faithful(table: Table, b: Seq<u8>, visits: Seq<VisitView>, from: int, f: Found)
    requires
        0 <= from <= visits.len(),
        tables_sized(f),
        faithful(table, visits, from, f),
        visits_found(b, visits, from, f) is Ok,
    ensures
        faithful(table, visits, visits.len() as int, visits_found(b, visits, from, f)->Ok_0),
    decreases visits.len() - from,
{
    if from < visits.len() {
        let visit = visits[from];
        let g = visit_found(b, f, visit)->Ok_0;
        lemma_visit_effect(table, b, f, visit);
        lemma_visit_sized(b, f, visit);
        assert forall|k: int|
            0 <= k < from + 1 && k < visits.len() && feeds(table, #[trigger] visits[k]) implies holds(
            table,
            g,
            key_of(table, visits[k]),
        ) by {
            if k < from {
                let key = key_of(table, visits[k]);
                let i = choose|i: int| holds_at(table, f, key, i);
                assert(filled(table, g, i));
                assert(holds_at(table, g, key, i));
            }
        }
        assert forall|i: int| 0 <= i < MAX_ADDRESSES && #[trigger] filled(table, g, i) implies i
            < keys_of(table, g).len() && told(table, visits, from + 1, keys_of(table, g)[i]) by {
            if filled(table, f, i) {
                let key = keys_of(table, f)[i];
                let k = choose|k: int| k < from && told_at(table, visits, key, k);
                assert(told_at(table, visits, key, k));
            } else {
                assert(told_at(table, visits, key_of(table, visit), from));
            }
        }
        lemma_faithful(table, b, visits, from + 1, g);
    }
}

/// In what is found in a device tree each table holds what the tree
/// tells, and nothing else: something for a unit address if and only if a
/// visit of the tree is one that the table takes up for that unit address.
pub proof fn law_table_holds_what_the_tree_tells(table: Table, b: Seq<u8>, key: Seq<u8>)
    requires
        found_in(b) is Ok,
    ensures
        holds(table, found_in(b)->Ok_0, key) <==> told(
            table,
            walk_of(b).visits,
            walk_of(b).visits.len() as int,
            key,
        ),
{
    let visits = walk_of(b).visits;
    let f = found_in(b)->Ok_0;
    assert(keys_of(table, nothing_found()).no_duplicates());
    lemma_faithful(table, b, visits, 0, nothing_found());
    if holds(table, f, key) {
        let i = choose|i: int| holds_at(table, f, key, i);
        assert(filled(table, f, i));
    }
    if told(table, visits, visits.len() as int, key) {
        let k = choose|k: int| k < visits.len() && told_at(table, visits, key, k);
        assert(feeds(table, visits[k]));
    }
}

/// Whether a virtio device is known in full for the unit address `key`:
/// both its register window and its interrupt.
pub open spec fn device_known(f: Found, key: Seq<u8>) -> bool {
    exists|i: int|
        0 <= i < f.virtio_keys.len() && i < MAX_ADDRESSES && f.virtio_keys[i] == key
            && #[trigger] device_at(f, i) is Some
}

/// The virtio devices that are known in full are those for which the tree
/// has both a `reg` and an `interrupts` property: a device is known in
/// full for a unit address if and only if a visit of the tree is of a
/// `reg` of a `/virtio_mmio` with that unit address, and one is of an
/// `interrupts` of one.
pub proof fn law_devices_known_in_full(b: Seq<u8>, key: Seq<u8>)
    requires
        found_in(b) is Ok,
    ensures
        device_known(found_in(b)->Ok_0, key) <==> told(
            Table::VirtioReg,
            walk_of(b).visits,
            walk_of(b).visits.len() as int,
            key,
        ) && told(Table::VirtioIrq, walk_of(b).visits, walk_of(b).visits.len() as int, key),
{
    let visits = walk_of(b).visits;
    let f = found_in(b)->Ok_0;
    law_table_holds_what_the_tree_tells(Table::VirtioReg, b, key);
    law_table_holds_what_the_tree_tells(Table::VirtioIrq, b, key);
    assert(keys_of(Table::VirtioReg, nothing_found()).no_duplicates());
    lemma_faithful(Table::VirtioReg, b, visits, 0, nothing_found());
    if device_known(f, key) {
        let i = choose|i: int|
            0 <= i < f.virtio_keys.len() && i < MAX_ADDRESSES && f.virtio_keys[i] == key
                && #[trigger] device_at(f, i) is Some;
        assert(holds_at(Table::VirtioReg, f, key, i));
        assert(holds_at(Table::VirtioIrq, f, key, i));
    }
    if holds(Table::VirtioReg, f, key) && holds(Table::VirtioIrq, f, key) {
        let i = choose|i: int| holds_at(Table::VirtioReg, f, key, i);
        let j = choose|j: int| holds_at(Table::VirtioIrq, f, key, j);
        assert(i == j);
        assert(device_at(f, i) is Some);
    }
}

} // verus!
