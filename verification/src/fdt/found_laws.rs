//! What holds of the machine that discovery describes.

use vstd::prelude::*;
use vstd::seq_lib::{to_multiset_contains, to_multiset_len};
use crate::fdt::meta::{Device, Hart, MetaView};
use crate::fdt::parse::{
    Found, MAX_ADDRESSES, MAX_CONTEXTS, SUPERVISOR_EXTERNAL, describes,
    device_at, devices_before, found_in, handle_of, hart_at, harts_before, nothing_found,
    property_found, visit_found, visits_found,
};
use crate::fdt::rules::{path_is_2, text};
use crate::fdt::values::cells;
use crate::fdt::walk::{VisitView, VisitWhat, walk_of};
use crate::fdt::sort::{Keyed, ascending, strictly_ascending};

verus! {

/// The harts before `count` are those of the CPUs before `count` that are
/// known in full.
pub proof fn lemma_harts_before(f: Found, count: int, hart: Hart)
    requires
        0 <= count,
    ensures
        harts_before(f, count).contains(hart) <==> exists|i: int|
            0 <= i < count && #[trigger] hart_at(f, i) == Some(hart),
    decreases count,
{
    if count > 0 {
        lemma_harts_before(f, count - 1, hart);
        let before = harts_before(f, count - 1);
        match hart_at(f, count - 1) {
            Some(last) => {
                let all = before.push(last);
                assert(all.contains(hart) <==> before.contains(hart) || last == hart) by {
                    if before.contains(hart) {
                        let k = choose|k: int| 0 <= k < before.len() && before[k] == hart;
                        assert(all[k] == hart);
                    }
                    if last == hart {
                        assert(all[before.len() as int] == hart);
                    }
                }
            },
            None => {},
        }
        if exists|i: int| 0 <= i < count && #[trigger] hart_at(f, i) == Some(hart) {
            let i = choose|i: int| 0 <= i < count && #[trigger] hart_at(f, i) == Some(hart);
            if i < count - 1 {
                assert(hart_at(f, i) == Some(hart));
            }
        }
    }
}

/// The devices before `count` are those at the places before `count` that
/// are known in full.
pub proof fn lemma_devices_before(f: Found, count: int, device: Device)
    requires
        0 <= count,
    ensures
        devices_before(f, count).contains(device) <==> exists|i: int|
            0 <= i < count && #[trigger] device_at(f, i) == Some(device),
    decreases count,
{
    if count > 0 {
        lemma_devices_before(f, count - 1, device);
        let before = devices_before(f, count - 1);
        match device_at(f, count - 1) {
            Some(last) => {
                let all = before.push(last);
                assert(all.contains(device) <==> before.contains(device) || last == device) by {
                    if before.contains(device) {
                        let k = choose|k: int| 0 <= k < before.len() && before[k] == device;
                        assert(all[k] == device);
                    }
                    if last == device {
                        assert(all[before.len() as int] == device);
                    }
                }
            },
            None => {},
        }
        if exists|i: int| 0 <= i < count && #[trigger] device_at(f, i) == Some(device) {
            let i = choose|i: int| 0 <= i < count && #[trigger] device_at(f, i) == Some(device);
            if i < count - 1 {
                assert(device_at(f, i) == Some(device));
            }
        }
    }
}

/// The virtio devices of the machine are ordered by their base address,
/// and they are the devices of which both the register window and the
/// interrupt were found, each as often as it was found.
pub proof fn law_virtio_sorted_and_complete(meta: MetaView, f: Found)
    requires
        describes(meta, f),
    ensures
        ascending(meta.virtio),
        meta.virtio.len() == devices_before(f, MAX_ADDRESSES as int).len(),
        forall|device: Device| #[trigger]
            meta.virtio.contains(device) <==> exists|i: int|
                0 <= i < MAX_ADDRESSES && #[trigger] device_at(f, i) == Some(device),
{
    let found = devices_before(f, MAX_ADDRESSES as int);
    to_multiset_len(meta.virtio);
    to_multiset_len(found);
    assert forall|device: Device| #[trigger]
        meta.virtio.contains(device) <==> exists|i: int|
            0 <= i < MAX_ADDRESSES && #[trigger] device_at(f, i) == Some(device) by {
        to_multiset_contains(meta.virtio, device);
        to_multiset_contains(found, device);
        lemma_devices_before(f, MAX_ADDRESSES as int, device);
    }
}

/// Whether `hart` is the hart of the CPU at place `i`, with a context that
/// names the handle of that CPU's interrupt controller.
pub open spec fn hart_of_cpu(f: Found, i: int, hart: Hart) -> bool {
    &&& 0 <= i < MAX_ADDRESSES
    &&& f.cpu_hartids[i] == Some(hart.hartid)
    &&& f.cpu_phandles[i] is Some
    &&& hart.plic_context < MAX_CONTEXTS
    &&& f.contexts[hart.plic_context as int] == Some(handle_of(f.cpu_phandles[i]->0))
}

/// Whether `hart` is the hart of a CPU that was found.
pub open spec fn hart_known(f: Found, hart: Hart) -> bool {
    exists|i: int| hart_of_cpu(f, i, hart)
}

/// The harts of the machine are ordered by their number, and they are the
/// harts of the CPUs that were found in full. For each of them the context
/// of the interrupt controller is one that names the handle of the hart's
/// own interrupt controller.
pub proof fn law_harts_sorted_and_complete(meta: MetaView, f: Found)
    requires
        describes(meta, f),
        f.contexts.len() == MAX_CONTEXTS,
    ensures
        ascending(meta.harts),
        meta.harts.len() == harts_before(f, MAX_ADDRESSES as int).len(),
        forall|hart: Hart| #[trigger]
            meta.harts.contains(hart) <==> exists|i: int|
                0 <= i < MAX_ADDRESSES && #[trigger] hart_at(f, i) == Some(hart),
        forall|k: int| 0 <= k < meta.harts.len() ==> hart_known(f, #[trigger] meta.harts[k]),
{
    let found = harts_before(f, MAX_ADDRESSES as int);
    to_multiset_len(meta.harts);
    to_multiset_len(found);
    assert forall|hart: Hart| #[trigger]
        meta.harts.contains(hart) <==> exists|i: int|
            0 <= i < MAX_ADDRESSES && #[trigger] hart_at(f, i) == Some(hart) by {
        to_multiset_contains(meta.harts, hart);
        to_multiset_contains(found, hart);
        lemma_harts_before(f, MAX_ADDRESSES as int, hart);
    }
    assert forall|k: int| 0 <= k < meta.harts.len() implies hart_known(
        f,
        #[trigger] meta.harts[k],
    ) by {
        let hart = meta.harts[k];
        assert(meta.harts.contains(hart));
        let i = choose|i: int| 0 <= i < MAX_ADDRESSES && #[trigger] hart_at(f, i) == Some(hart);
        let phandle = f.cpu_phandles[i]->0;
        f.contexts.index_of_first_ensures(Some(handle_of(phandle)));
        assert(hart_of_cpu(f, i, hart));
    }
}

/// Where no two CPUs that were found in full are the same hart, the harts
/// of the machine rise strictly.
pub proof fn law_harts_strictly_ascending(meta: MetaView, f: Found)
    requires
        describes(meta, f),
        forall|i: int, j: int|
            0 <= i < j < MAX_ADDRESSES && hart_at(f, i) is Some && hart_at(f, j) is Some ==> (
            #[trigger] hart_at(f, i))->0.hartid != (#[trigger] hart_at(f, j))->0.hartid,
    ensures
        strictly_ascending(meta.harts),
{
    let found = harts_before(f, MAX_ADDRESSES as int);
    assert forall|p: int, q: int| 0 <= p < q < meta.harts.len() implies meta.harts[p].key()
        != meta.harts[q].key() by {
        let x = meta.harts[p];
        let y = meta.harts[q];
        assert(meta.harts.contains(x));
        assert(meta.harts.contains(y));
        to_multiset_contains(meta.harts, x);
        to_multiset_contains(found, x);
        to_multiset_contains(meta.harts, y);
        to_multiset_contains(found, y);
        lemma_harts_before(f, MAX_ADDRESSES as int, x);
        lemma_harts_before(f, MAX_ADDRESSES as int, y);
        let i = choose|i: int| 0 <= i < MAX_ADDRESSES && #[trigger] hart_at(f, i) == Some(x);
        let j = choose|j: int| 0 <= j < MAX_ADDRESSES && #[trigger] hart_at(f, j) == Some(y);
        if x.key() == y.key() {
            if i != j {
                if i < j {
                    assert(hart_at(f, i)->0.hartid != hart_at(f, j)->0.hartid);
                } else {
                    assert(hart_at(f, j)->0.hartid != hart_at(f, i)->0.hartid);
                }
            } else {
                assert(x == y);
                lemma_found_harts_distinct(f, MAX_ADDRESSES as int);
                found.lemma_multiset_has_no_duplicates();
                meta.harts.lemma_multiset_has_no_duplicates_conv();
                assert(meta.harts[p] != meta.harts[q]);
            }
        }
    }
}

/// Where no two CPUs that were found in full are the same hart, no hart is
/// found twice.
pub proof fn lemma_found_harts_distinct(f: Found, count: int)
    requires
        0 <= count <= MAX_ADDRESSES,
        forall|i: int, j: int|
            0 <= i < j < MAX_ADDRESSES && hart_at(f, i) is Some && hart_at(f, j) is Some ==> (
            #[trigger] hart_at(f, i))->0.hartid != (#[trigger] hart_at(f, j))->0.hartid,
    ensures
        harts_before(f, count).no_duplicates(),
    decreases count,
{
    if count > 0 {
        lemma_found_harts_distinct(f, count - 1);
        let before = harts_before(f, count - 1);
        match hart_at(f, count - 1) {
            Some(last) => {
                lemma_harts_before(f, count - 1, last);
                if before.contains(last) {
                    let i = choose|i: int|
                        0 <= i < count - 1 && #[trigger] hart_at(f, i) == Some(last);
                    assert(hart_at(f, i)->0.hartid != hart_at(f, count - 1)->0.hartid);
                }
                let all = before.push(last);
                assert forall|a: int, c: int|
                    0 <= a < all.len() && 0 <= c < all.len() && a != c implies all[a]
                    != all[c] by {
                    if a == before.len() {
                        assert(before.contains(all[c]));
                    } else if c == before.len() {
                        assert(before.contains(all[a]));
                    }
                }
            },
            None => {},
        }
    }
}

/// Whether every table of what was found has its size.
pub open spec fn tables_sized(f: Found) -> bool {
    &&& f.virtio_keys.len() <= MAX_ADDRESSES
    &&& f.cpu_keys.len() <= MAX_ADDRESSES
    &&& f.virtio_regs.len() == MAX_ADDRESSES
    &&& f.virtio_irqs.len() == MAX_ADDRESSES
    &&& f.cpu_hartids.len() == MAX_ADDRESSES
    &&& f.cpu_phandles.len() == MAX_ADDRESSES
    &&& f.contexts.len() == MAX_CONTEXTS
}

/// The tables keep their sizes over a visit.
pub proof fn lemma_visit_sized(b: Seq<u8>, f: Found, visit: VisitView)
    requires
        tables_sized(f),
    ensures
        visit_found(b, f, visit) matches Ok(found) ==> tables_sized(found),
{
    f.virtio_keys.index_of_first_ensures(visit.units[1]);
    f.cpu_keys.index_of_first_ensures(visit.units[2]);
}

/// The tables keep their sizes over any visits.
pub proof fn lemma_tables_sized(b: Seq<u8>, visits: Seq<VisitView>, from: int, f: Found)
    requires
        tables_sized(f),
    ensures
        visits_found(b, visits, from, f) matches Ok(found) ==> tables_sized(found),
    decreases visits.len() - from,
{
    if 0 <= from < visits.len() {
        match visit_found(b, f, visits[from]) {
            Ok(next) => {
                lemma_visit_sized(b, f, visits[from]);
                lemma_tables_sized(b, visits, from + 1, next);
            },
            Err(e) => {},
        }
    }
}

/// In what is found in a device tree every table has its size.
pub proof fn law_found_tables(b: Seq<u8>)
    ensures
        found_in(b) matches Ok(f) ==> tables_sized(f),
{
    lemma_tables_sized(b, walk_of(b).visits, 0, nothing_found());
}

/// Whether a visit is of an `interrupts-extended` of the interrupt
/// controller whose pair `p` is `handle` and the interrupt of S-mode.
pub open spec fn names_context(b: Seq<u8>, visit: VisitView, p: int, handle: u32) -> bool {
    visit.what matches VisitWhat::Property { name, offset, len, name_offset } && path_is_2(
        visit.path,
        "soc",
        "interrupt-controller",
    ) && name == text("interrupts-extended") && 2 * p + 1 < cells(b, offset, len).len() && cells(
        b,
        offset,
        len,
    )[2 * p] == handle && cells(b, offset, len)[2 * p + 1] == SUPERVISOR_EXTERNAL
}

/// Whether one of the visits before `count` names context `p` with
/// `handle`.
pub open spec fn context_traced(
    b: Seq<u8>,
    visits: Seq<VisitView>,
    count: int,
    p: int,
    handle: u32,
) -> bool {
    exists|k: int| 0 <= k < count && names_context(b, #[trigger] visits[k], p, handle)
}

/// A context that names a handle after the visits from `from` on either
/// named it before or is named by one of these visits.
pub proof fn lemma_context_traced(
    b: Seq<u8>,
    visits: Seq<VisitView>,
    from: int,
    f: Found,
    p: int,
    handle: u32,
)
    requires
        0 <= from <= visits.len(),
        0 <= p < MAX_CONTEXTS,
        tables_sized(f),
        visits_found(b, visits, from, f) matches Ok(found) && found.contexts[p] == Some(handle),
        f.contexts[p] == Some(handle) ==> context_traced(b, visits, from, p, handle),
    ensures
        context_traced(b, visits, visits.len() as int, p, handle),
    decreases visits.len() - from,
{
    if from < visits.len() {
        let next = visit_found(b, f, visits[from])->Ok_0;
        lemma_visit_sized(b, f, visits[from]);
        if next.contexts[p] == Some(handle) {
            if f.contexts[p] == Some(handle) {
                let k = choose|k: int|
                    0 <= k < from && names_context(b, #[trigger] visits[k], p, handle);
                assert(names_context(b, visits[k], p, handle));
            } else {
                assert(names_context(b, visits[from], p, handle));
            }
            assert(context_traced(b, visits, from + 1, p, handle));
        }
        lemma_context_traced(b, visits, from + 1, next, p, handle);
    }
}

/// A context names a handle only where the tree says so: if context `p`
/// names `handle` in what is found in a tree, then a visit of the tree is
/// of an `interrupts-extended` of the interrupt controller whose pair `p`
/// is `handle` and the interrupt of S-mode.
pub proof fn law_context_names_a_pair(b: Seq<u8>, p: int, handle: u32)
    requires
        0 <= p < MAX_CONTEXTS,
        found_in(b) matches Ok(f) && f.contexts[p] == Some(handle),
    ensures
        context_traced(b, walk_of(b).visits, walk_of(b).visits.len() as int, p, handle),
{
    lemma_context_traced(b, walk_of(b).visits, 0, nothing_found(), p, handle);
}

} // verus!
