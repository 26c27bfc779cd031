//! The masking pass: hides from the guest what it must not see, and tells
//! it how much memory it has.

use vstd::prelude::*;
use vstd::slice::slice_to_vec;
use vstd::string::StringSliceAdditionalSpecFns;
use crate::fdt::{Fdt, FdtError, MAX_DEPTH, be64_bytes, patched, read_be32};
use crate::fdt::bounded::Spans;
use crate::fdt::rules::{
    memory_reg, node_masked, path_is, path_is_2, path_is_3, property_erased, text,
};
use crate::fdt::walk::{
    Span, Token, lemma_spans_pop, lemma_spans_push, lemma_token_bounds, mask_of, next_token,
    nop_fill, span_bytes, spans_bytes, spans_valid, split_name, struct_limit, walk_from,
};

verus! {

/// Whether a stretch of the blob holds the given text.
pub fn span_is(blob: &Vec<u8>, span: Span, expected: &str) -> (r: bool)
    requires
        span.start <= span.end <= blob.len(),
    ensures
        r == (span_bytes(blob@, span) == text(expected)),
{
    let bytes = expected.as_bytes();
    assert(bytes@ == text(expected));
    if bytes.len() != span.end - span.start {
        return false;
    }
    let mut i: usize = 0;
    while i < bytes.len()
        invariant
            span.start <= span.end <= blob.len(),
            bytes.len() == span.end - span.start,
            bytes@ == text(expected),
            i <= bytes.len(),
            forall|j: int| 0 <= j < i ==> blob[span.start + j] == bytes[j],
        decreases bytes.len() - i,
    {
        if blob[span.start + i] != bytes[i] {
            assert(span_bytes(blob@, span)[i as int] == blob@[span.start + i]);
            assert(span_bytes(blob@, span)[i as int] != text(expected)[i as int]);
            return false;
        }
        i += 1;
    }
    assert(span_bytes(blob@, span) =~= bytes@);
    true
}

/// Whether a path is the root and one node below it, by name.
pub fn path_matches(blob: &Vec<u8>, path: &[Span], first: &str) -> (r: bool)
    requires
        spans_valid(path@, blob.len() as int),
    ensures
        r == path_is(spans_bytes(blob@, path@), first),
{
    path.len() == 2 && span_is(blob, path[0], "") && span_is(blob, path[1], first)
}

/// Whether a path is the root and two nodes below it, by name.
pub fn path_matches_2(blob: &Vec<u8>, path: &[Span], first: &str, second: &str) -> (r: bool)
    requires
        spans_valid(path@, blob.len() as int),
    ensures
        r == path_is_2(spans_bytes(blob@, path@), first, second),
{
    path.len() == 3 && span_is(blob, path[0], "") && span_is(blob, path[1], first) && span_is(
        blob,
        path[2],
        second,
    )
}

/// Whether a path is the root and three nodes below it, by name.
pub fn path_matches_3(
    blob: &Vec<u8>,
    path: &[Span],
    first: &str,
    second: &str,
    third: &str,
) -> (r: bool)
    requires
        spans_valid(path@, blob.len() as int),
    ensures
        r == path_is_3(spans_bytes(blob@, path@), first, second, third),
{
    path.len() == 4 && span_is(blob, path[0], "") && span_is(blob, path[1], first) && span_is(
        blob,
        path[2],
        second,
    ) && span_is(blob, path[3], third)
}

fn is_node_masked(blob: &Vec<u8>, path: &[Span], units: &[Span]) -> (r: bool)
    requires
        spans_valid(path@, blob.len() as int),
        spans_valid(units@, blob.len() as int),
        units.len() == path.len(),
    ensures
        r == node_masked(spans_bytes(blob@, path@), spans_bytes(blob@, units@)),
{
    if path_matches_2(blob, path, "cpus", "cpu") {
        if !span_is(blob, units[2], "") && !span_is(blob, units[2], "0") {
            return true;
        }
    }
    if path_matches_2(blob, path, "soc", "pci") {
        return true;
    }
    if path_matches(blob, path, "test") {
        return true;
    }
    if path_matches(blob, path, "virtio_mmio") {
        if span_is(blob, units[1], "10005000") || span_is(blob, units[1], "10006000") || span_is(
            blob,
            units[1],
            "10007000",
        ) || span_is(blob, units[1], "10008000") {
            return true;
        }
    }
    false
}

fn is_property_erased(blob: &Vec<u8>, path: &[Span], name: Span) -> (r: bool)
    requires
        spans_valid(path@, blob.len() as int),
        name.start <= name.end <= blob.len(),
    ensures
        r == property_erased(spans_bytes(blob@, path@), span_bytes(blob@, name)),
{
    path_matches(blob, path, "chosen") && (span_is(blob, name, "linux,initrd-end") || span_is(
        blob,
        name,
        "linux,initrd-start",
    ))
}

fn is_memory_reg(blob: &Vec<u8>, path: &[Span], name: Span) -> (r: bool)
    requires
        spans_valid(path@, blob.len() as int),
        name.start <= name.end <= blob.len(),
    ensures
        r == memory_reg(spans_bytes(blob@, path@), span_bytes(blob@, name)),
{
    path_matches(blob, path, "memory") && span_is(blob, name, "reg")
}

/// Replaces the words from `from` to `to` by the token that stands for
/// nothing.
fn fill_nops(out: &mut Vec<u8>, from: usize, to: usize)
    requires
        from <= to <= old(out).len(),
    ensures
        final(out)@ == nop_fill(old(out)@, from as int, to as int),
{
    let mut i = from;
    while i < to
        invariant
            from <= i <= to <= out.len(),
            out.len() == old(out).len(),
            forall|k: int|
                0 <= k < out.len() ==> #[trigger] out[k] == if from <= k < i {
                    if (k - from) % 4 == 3 {
                        4u8
                    } else {
                        0u8
                    }
                } else {
                    old(out)[k]
                },
        decreases to - i,
    {
        if (i - from) % 4 == 3 {
            out[i] = 4;
        } else {
            out[i] = 0;
        }
        i += 1;
    }
    assert(out@ =~= nop_fill(old(out)@, from as int, to as int));
}

/// Writes the 64-bit big-endian integer `value` at `at`.
fn write_be64(out: &mut Vec<u8>, at: usize, value: u64)
    requires
        at + 8 <= old(out).len(),
    ensures
        final(out)@ == patched(old(out)@, at as int, be64_bytes(value)),
{
    let high = (value >> 32) as u32;
    let low = value as u32;
    out[at] = (high >> 24) as u8;
    out[at + 1] = (high >> 16) as u8;
    out[at + 2] = (high >> 8) as u8;
    out[at + 3] = high as u8;
    out[at + 4] = (low >> 24) as u8;
    out[at + 5] = (low >> 16) as u8;
    out[at + 6] = (low >> 8) as u8;
    out[at + 7] = low as u8;
    assert(out@ =~= patched(old(out)@, at as int, be64_bytes(value)));
}

impl Fdt {
    /// The masking pass, for a guest with `guest_memory_size` bytes of
    /// memory. A tree that is nested deeper than `MAX_DEPTH` is refused
    /// and left as it is.
    pub fn mask(&mut self, guest_memory_size: u64) -> (r: Result<(), FdtError>)
        ensures
            final(self).base == old(self).base,
            match r {
                Ok(()) => !mask_of(old(self)@, guest_memory_size).too_deep && final(self)@
                    == mask_of(old(self)@, guest_memory_size).blob,
                Err(e) => e == FdtError::TooDeep && mask_of(old(self)@, guest_memory_size).too_deep
                    && final(self)@ == old(self)@,
            },
    {
        let mut out = slice_to_vec(self.blob.as_slice());
        let mut path = Spans::new();
        let mut units = Spans::new();
        let mut depth: usize = 0;
        let mut pos = read_be32(&self.blob, 8) as usize;
        let ghost b = self@;
        let ghost rules = Some(guest_memory_size);
        assert(spans_bytes(b, path@) =~= Seq::empty());
        assert(spans_bytes(b, units@) =~= Seq::empty());
        loop
            invariant
                *self == *old(self),
                b == self@,
                rules == Some(guest_memory_size),
                out.len() == b.len(),
                spans_valid(path@, b.len() as int),
                spans_valid(units@, b.len() as int),
                units@.len() == path@.len(),
                depth <= path@.len() <= MAX_DEPTH,
                mask_of(b, guest_memory_size).blob == walk_from(
                    b,
                    rules,
                    out@,
                    pos as int,
                    spans_bytes(b, path@),
                    spans_bytes(b, units@),
                    depth as nat,
                ).blob,
                mask_of(b, guest_memory_size).too_deep == walk_from(
                    b,
                    rules,
                    out@,
                    pos as int,
                    spans_bytes(b, path@),
                    spans_bytes(b, units@),
                    depth as nat,
                ).too_deep,
            decreases struct_limit(b) - pos,
        {
            let token = next_token(&self.blob, pos);
            proof {
                lemma_token_bounds(b, pos as int);
            }
            match token {
                Token::Stop => {
                    self.blob = out;
                    return Ok(());
                },
                Token::Begin { name, name_end, next } => {
                    if path.len() >= MAX_DEPTH {
                        return Err(FdtError::TooDeep);
                    }
                    let (node, unit) = split_name(&self.blob, name, name_end);
                    proof {
                        lemma_spans_push(b, path@, node);
                        lemma_spans_push(b, units@, unit);
                    }
                    path.push(node);
                    units.push(unit);
                    if depth > 0 {
                        depth = depth + 1;
                        fill_nops(&mut out, pos, next);
                    } else if is_node_masked(&self.blob, path.as_slice(), units.as_slice()) {
                        depth = 1;
                        fill_nops(&mut out, pos, next);
                    }
                    pos = next;
                },
                Token::End { next } => {
                    if path.len() > 0 {
                        proof {
                            lemma_spans_pop(b, path@);
                            lemma_spans_pop(b, units@);
                        }
                        path.pop();
                        units.pop();
                    }
                    if depth > 0 {
                        depth = depth - 1;
                        fill_nops(&mut out, pos, next);
                    }
                    pos = next;
                },
                Token::Prop { len, name_offset, name, name_end, next } => {
                    let property = Span { start: name, end: name_end };
                    if depth > 0 {
                        fill_nops(&mut out, pos, next);
                    } else if is_property_erased(&self.blob, path.as_slice(), property) {
                        fill_nops(&mut out, pos, next);
                    } else if len == 16 && is_memory_reg(&self.blob, path.as_slice(), property) {
                        write_be64(&mut out, pos + 20, guest_memory_size);
                    }
                    pos = next;
                },
                Token::Nop { next } => {
                    if depth > 0 {
                        fill_nops(&mut out, pos, next);
                    }
                    pos = next;
                },
            }
        }
    }
}

} // verus!
