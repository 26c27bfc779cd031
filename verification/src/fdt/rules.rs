//! What the masking pass hides from the guest, by path and name.

use vstd::prelude::*;
use vstd::string::StringSliceAdditionalSpecFns;
use vstd::utf8::is_ascii_chars_encode_utf8;

verus! {

/// The bytes of a text.
pub open spec fn text(s: &str) -> Seq<u8> {
    s.spec_bytes()
}

/// Whether a path is the root and one node below it, by name.
pub open spec fn path_is(path: Seq<Seq<u8>>, first: &str) -> bool {
    path.len() == 2 && path[0] == text("") && path[1] == text(first)
}

/// Whether a path is the root and two nodes below it, by name.
pub open spec fn path_is_2(path: Seq<Seq<u8>>, first: &str, second: &str) -> bool {
    path.len() == 3 && path[0] == text("") && path[1] == text(first) && path[2] == text(second)
}

/// Whether a path is the root and three nodes below it, by name.
pub open spec fn path_is_3(path: Seq<Seq<u8>>, first: &str, second: &str, third: &str) -> bool {
    path.len() == 4 && path[0] == text("") && path[1] == text(first) && path[2] == text(second)
        && path[3] == text(third)
}

/// Whether the node at `path`, with the unit addresses `units` along it,
/// is hidden with all that lies below it: every CPU but the one with unit
/// address `0` or none, `/soc/pci`, `/test`, and the virtio devices at
/// four addresses.
pub open spec fn node_masked(path: Seq<Seq<u8>>, units: Seq<Seq<u8>>) -> bool {
    ||| path_is_2(path, "cpus", "cpu") && units[2] != text("") && units[2] != text("0")
    ||| path_is_2(path, "soc", "pci")
    ||| path_is(path, "test")
    ||| path_is(path, "virtio_mmio") && (units[1] == text("10005000") || units[1] == text(
        "10006000",
    ) || units[1] == text("10007000") || units[1] == text("10008000"))
}

/// Whether the property `name` of the node at `path` is hidden: the two
/// that tell where the initial RAM disk lies.
pub open spec fn property_erased(path: Seq<Seq<u8>>, name: Seq<u8>) -> bool {
    path_is(path, "chosen") && (name == text("linux,initrd-end") || name == text(
        "linux,initrd-start",
    ))
}

/// Whether the property `name` of the node at `path` tells where memory
/// lies.
pub open spec fn memory_reg(path: Seq<Seq<u8>>, name: Seq<u8>) -> bool {
    path_is(path, "memory") && name == text("reg")
}

/// The names by which discovery tells nodes and properties apart differ
/// where one path or one name could stand for two of them: each has a
/// length of its own.
pub proof fn lemma_names_differ()
    ensures
        text("virtio_mmio").len() == 11,
        text("chosen").len() == 6,
        text("memory").len() == 6,
        text("uart").len() == 4,
        text("cpus").len() == 4,
        text("soc").len() == 3,
        text("reg").len() == 3,
        text("interrupts").len() == 10,
{
    reveal_strlit("virtio_mmio");
    reveal_strlit("chosen");
    reveal_strlit("memory");
    reveal_strlit("uart");
    reveal_strlit("cpus");
    reveal_strlit("soc");
    reveal_strlit("reg");
    reveal_strlit("interrupts");
    is_ascii_chars_encode_utf8("virtio_mmio"@);
    is_ascii_chars_encode_utf8("chosen"@);
    is_ascii_chars_encode_utf8("memory"@);
    is_ascii_chars_encode_utf8("uart"@);
    is_ascii_chars_encode_utf8("cpus"@);
    is_ascii_chars_encode_utf8("soc"@);
    is_ascii_chars_encode_utf8("reg"@);
    is_ascii_chars_encode_utf8("interrupts"@);
}

} // verus!
