//! The values of properties.

use vstd::prelude::*;
use crate::fdt::{Fdt, Property, be32, be64, read_be32, read_be64};
use crate::fdt::walk::{Span, nop_fill, span_bytes};

verus! {

/// The value of a property that holds one integer of 4 or 8 bytes; the
/// header of the property lies at `offset`.
pub open spec fn int_value(b: Seq<u8>, offset: int, len: u32) -> Option<u64> {
    if len == 4 {
        Some(be32(b, offset + 8) as u64)
    } else if len == 8 {
        Some(be64(b, offset + 8))
    } else {
        None
    }
}

/// The value of a property that holds a base address and a size, in 16
/// bytes.
pub open spec fn range_value(b: Seq<u8>, offset: int, len: u32) -> Option<(u64, u64)> {
    if len == 16 {
        Some((be64(b, offset + 8), be64(b, offset + 16)))
    } else {
        None
    }
}

/// The value of a property as 32-bit integers.
pub open spec fn cells(b: Seq<u8>, offset: int, len: u32) -> Seq<u32> {
    Seq::new((len / 4) as nat, |i: int| be32(b, offset + 8 + 4 * i))
}

/// Whether a byte is a printable character.
pub open spec fn printable(c: u8) -> bool {
    32 <= c <= 126
}

/// Whether the value of a property is text: it lies in the blob, all its
/// bytes but the last are printable, and the last is a character of one
/// byte.
pub open spec fn is_text(b: Seq<u8>, offset: int, len: u32) -> bool {
    &&& offset + 8 + len <= b.len()
    &&& forall|i: int| offset + 8 <= i < offset + 8 + len - 1 ==> printable(#[trigger] b[i])
    &&& len > 0 ==> b[offset + 8 + len - 1] < 128
}

/// The value of a property that holds text, without the zero byte that
/// ends it.
pub open spec fn text_value(b: Seq<u8>, offset: int, len: u32) -> Option<Seq<u8>> {
    if !is_text(b, offset, len) {
        None
    } else if len > 0 && b[offset + 8 + len - 1] == 0 {
        Some(b.subrange(offset + 8, offset + 8 + len - 1))
    } else {
        Some(b.subrange(offset + 8, offset + 8 + len))
    }
}

/// The words that a property takes in the structure block, its token
/// included.
pub open spec fn property_words(len: u32) -> int {
    (len + 3) / 4 + 3
}

/// The position `delta` bytes after `offset`, or the last position there is
/// where that lies further.
fn shifted(blob: &Vec<u8>, offset: usize, delta: u64) -> (at: u64)
    ensures
        be32(blob@, at as int) == be32(blob@, offset + delta),
        be64(blob@, at as int) == be64(blob@, offset + delta),
{
    let len = blob.len();
    assert(blob@.len() <= u64::MAX);
    if offset as u64 > u64::MAX - delta {
        u64::MAX
    } else {
        offset as u64 + delta
    }
}

impl Property {
    /// The value of a property that holds one integer; `None` unless it
    /// has 4 or 8 bytes.
    pub fn read_int(&self, fdt: &Fdt) -> (value: Option<u64>)
        ensures
            value == int_value(fdt@, self.offset as int, self.len),
    {
        if self.len == 4 {
            Some(read_be32(&fdt.blob, shifted(&fdt.blob, self.offset, 8)) as u64)
        } else if self.len == 8 {
            Some(read_be64(&fdt.blob, shifted(&fdt.blob, self.offset, 8)))
        } else {
            None
        }
    }

    /// The value of a property that holds a base address and a size;
    /// `None` unless it has 16 bytes.
    pub fn read_range(&self, fdt: &Fdt) -> (value: Option<(u64, u64)>)
        ensures
            value == range_value(fdt@, self.offset as int, self.len),
    {
        if self.len == 16 {
            Some(
                (
                    read_be64(&fdt.blob, shifted(&fdt.blob, self.offset, 8)),
                    read_be64(&fdt.blob, shifted(&fdt.blob, self.offset, 16)),
                ),
            )
        } else {
            None
        }
    }

    /// Replaces the property in the structure block, its token included,
    /// by tokens that stand for nothing. A property that does not lie in
    /// the blob is left alone.
    pub fn mask(&self, fdt: &mut Fdt)
        ensures
            final(fdt).base == old(fdt).base,
            final(fdt)@ == if 4 <= self.offset && self.offset - 4 + 4 * property_words(self.len)
                <= old(fdt)@.len() {
                nop_fill(
                    old(fdt)@,
                    self.offset - 4,
                    self.offset - 4 + 4 * property_words(self.len),
                )
            } else {
                old(fdt)@
            },
    {
        let words = (self.len as u64 + 3) / 4 + 3;
        let len = fdt.blob.len();
        if self.offset >= 4 && len >= self.offset - 4 && 4 * words <= (len - (self.offset
            - 4)) as u64 {
            let from = self.offset - 4;
            let to = from + (4 * words) as usize;
            let mut i = from;
            while i < to
                invariant
                    from <= i <= to <= fdt.blob.len(),
                    fdt.blob.len() == old(fdt).blob.len(),
                    fdt.base == old(fdt).base,
                    forall|k: int|
                        0 <= k < fdt.blob.len() ==> #[trigger] fdt.blob[k] == if from <= k < i {
                            if (k - from) % 4 == 3 {
                                4u8
                            } else {
                                0u8
                            }
                        } else {
                            old(fdt).blob[k]
                        },
                decreases to - i,
            {
                if (i - from) % 4 == 3 {
                    fdt.blob[i] = 4;
                } else {
                    fdt.blob[i] = 0;
                }
                i += 1;
            }
            assert(fdt@ =~= nop_fill(old(fdt)@, from as int, to as int));
        }
    }

    /// The value of a property that holds text, without the zero byte that
    /// ends it; `None` for a value that is no text.
    pub fn value_str(&self, fdt: &Fdt) -> (value: Option<Span>)
        ensures
            match value {
                Some(span) => span.start <= span.end <= fdt@.len() && text_value(
                    fdt@,
                    self.offset as int,
                    self.len,
                ) == Some(span_bytes(fdt@, span)),
                None => text_value(fdt@, self.offset as int, self.len) is None,
            },
    {
        let total = fdt.blob.len();
        if total < 8 || self.offset > total - 8 || self.len as u64 > (total - 8 - self.offset) as u64 {
            return None;
        }
        let start = self.offset + 8;
        let len = self.len as usize;
        if len == 0 {
            return Some(Span { start, end: start });
        }
        let last = start + len - 1;
        let mut i = start;
        while i < last
            invariant
                start <= i <= last < total,
                start == self.offset + 8,
                last == start + self.len - 1,
                total == fdt@.len(),
                forall|k: int| start <= k < i ==> printable(#[trigger] fdt@[k]),
            decreases last - i,
        {
            let c = fdt.blob[i];
            if c < 32 || c > 126 {
                assert(!printable(fdt@[i as int]));
                return None;
            }
            i += 1;
        }
        if fdt.blob[last] >= 128 {
            None
        } else if fdt.blob[last] == 0 {
            Some(Span { start, end: last })
        } else {
            Some(Span { start, end: last + 1 })
        }
    }

    /// The value of a property as 32-bit integers, as many as lie in it
    /// whole.
    pub fn big_endian_slice(&self, fdt: &Fdt) -> (value: Vec<u32>)
        ensures
            value@ == cells(fdt@, self.offset as int, self.len),
    {
        let count = self.len / 4;
        let mut value: Vec<u32> = Vec::new();
        let mut i: u32 = 0;
        while i < count
            invariant
                i <= count,
                count == self.len / 4,
                value.len() == i,
                forall|k: int|
                    0 <= k < i ==> #[trigger] value[k] == be32(fdt@, self.offset + 8 + 4 * k),
            decreases count - i,
        {
            value.push(read_be32(&fdt.blob, shifted(&fdt.blob, self.offset, 8 + 4 * (i as u64))));
            i += 1;
        }
        assert(value@ =~= cells(fdt@, self.offset as int, self.len));
        value
    }
}

} // verus!
