//! What holds of the masking pass and of machine discovery.

use vstd::prelude::*;
use crate::fdt::{FDT_NOP, HEADER_SIZE, MAX_DEPTH, be32, be32_bytes, be64, be64_bytes, patched};
use crate::fdt::rules::{memory_reg, node_masked, property_erased};
use crate::fdt::walk::{
    TokenView, VisitView, VisitWhat, Walk, find_byte, laid_out, lemma_find_byte,
    lemma_token_bounds, mask_of, next_of, node_name, nop_fill, popped, strings_start,
    struct_limit, struct_start, token_at, unit_address, walk_from, walk_of,
};

verus! {

/// Whether two blobs hold the same bytes from `from` up to `to`.
pub open spec fn agree(one: Seq<u8>, other: Seq<u8>, from: int, to: int) -> bool {
    forall|i: int| from <= i < to && 0 <= i < one.len() ==> one[i] == other[i]
}

/// What `find_byte` finds depends on the bytes up to what it finds only.
pub proof fn lemma_find_byte_local(one: Seq<u8>, other: Seq<u8>, value: u8, from: int, end: int)
    requires
        0 <= from <= end <= one.len(),
        one.len() == other.len(),
        agree(
            one,
            other,
            from,
            if find_byte(one, value, from, end) < end {
                find_byte(one, value, from, end) + 1
            } else {
                end
            },
        ),
    ensures
        find_byte(other, value, from, end) == find_byte(one, value, from, end),
    decreases end - from,
{
    lemma_find_byte(one, value, from, end);
    if from < end {
        assert(one[from] == other[from]);
        if one[from] != value {
            lemma_find_byte(one, value, from + 1, end);
            lemma_find_byte_local(one, other, value, from + 1, end);
        }
    }
}

/// The name and the unit address of a node depend on the bytes of its
/// full name only.
pub proof fn lemma_name_local(one: Seq<u8>, other: Seq<u8>, name: int, name_end: int)
    requires
        0 <= name <= name_end <= one.len(),
        one.len() == other.len(),
        agree(one, other, name, name_end),
    ensures
        node_name(other, name, name_end) == node_name(one, name, name_end),
        unit_address(other, name, name_end) == unit_address(one, name, name_end),
{
    lemma_find_byte(one, 0x40, name, name_end);
    lemma_find_byte_local(one, other, 0x40, name, name_end);
    let at = find_byte(one, 0x40, name, name_end);
    assert(node_name(other, name, name_end) =~= node_name(one, name, name_end));
    if at < name_end {
        lemma_find_byte(one, 0x40, at + 1, name_end);
        lemma_find_byte_local(one, other, 0x40, at + 1, name_end);
    }
    assert(unit_address(other, name, name_end) =~= unit_address(one, name, name_end));
}

/// Whether `other` holds what `one` holds wherever the token of `one` at
/// `pos` is read from: the header, the strings block, and the token's own
/// words, for a property those of its header.
pub open spec fn same_token_bytes(one: Seq<u8>, other: Seq<u8>, pos: int) -> bool {
    &&& one.len() == other.len()
    &&& agree(one, other, 0, HEADER_SIZE as int)
    &&& agree(one, other, struct_limit(one), one.len() as int)
    &&& match token_at(one, pos) {
        TokenView::Stop => agree(one, other, pos, one.len() as int),
        TokenView::Prop { .. } => agree(one, other, pos, pos + 12),
        token => agree(one, other, pos, next_of(token, pos)),
    }
}

/// A token depends on the bytes it is read from only.
pub proof fn lemma_token_local(one: Seq<u8>, other: Seq<u8>, pos: int)
    requires
        laid_out(one),
        same_token_bytes(one, other, pos),
    ensures
        token_at(other, pos) == token_at(one, pos),
        struct_limit(other) == struct_limit(one),
        struct_start(other) == struct_start(one),
        strings_start(other) == strings_start(one),
{
    let limit = struct_limit(one);
    assert(be32(other, 8) == be32(one, 8));
    assert(be32(other, 12) == be32(one, 12));
    assert(be32(other, 36) == be32(one, 36));
    if 0 <= pos && pos + 4 <= limit {
        assert(be32(other, pos) == be32(one, pos));
        let word = be32(one, pos);
        if word == crate::fdt::FDT_BEGIN_NODE {
            let name = pos + 4;
            lemma_find_byte(one, 0, name, one.len() as int);
            let name_end = find_byte(one, 0, name, one.len() as int);
            let next = name + 4 * (1 + (name_end - name) / 4);
            lemma_find_byte_local(one, other, 0, name, one.len() as int);
        } else if word == crate::fdt::FDT_PROP {
            if pos + 12 <= limit {
                assert(be32(other, pos + 4) == be32(one, pos + 4));
                assert(be32(other, pos + 8) == be32(one, pos + 8));
                let name = strings_start(one) + be32(one, pos + 8);
                if name <= one.len() {
                    lemma_find_byte(one, 0, name, one.len() as int);
                    lemma_find_byte_local(one, other, 0, name, one.len() as int);
                } else {
                    assert(find_byte(one, 0, name, one.len() as int) == one.len());
                    assert(find_byte(other, 0, name, other.len() as int) == other.len());
                }
            }
        }
    }
}

/// The big-endian bytes of an integer hold that integer.
pub proof fn lemma_be32_round_trip(value: u32)
    ensures
        be32(be32_bytes(value), 0) == value,
{
    assert(((value >> 24) as u8 as u32) << 24 | ((value >> 16) as u8 as u32) << 16 | ((value
        >> 8) as u8 as u32) << 8 | (value as u8 as u32) == value) by (bit_vector);
}

/// After the big-endian bytes of an integer are written at `at`, the
/// integer is read there.
pub proof fn lemma_be64_round_trip(b: Seq<u8>, at: int, value: u64)
    requires
        0 <= at,
        at + 8 <= b.len(),
    ensures
        be64(patched(b, at, be64_bytes(value)), at) == value,
{
    let high = (value >> 32) as u32;
    let low = value as u32;
    let after = patched(b, at, be64_bytes(value));
    lemma_be32_round_trip(high);
    lemma_be32_round_trip(low);
    assert(be32(after, at) == be32(be32_bytes(high), 0));
    assert(be32(after, at + 4) == be32(be32_bytes(low), 0));
    assert((((value >> 32) as u32) as u64) << 32 | ((value as u32) as u64) == value)
        by (bit_vector);
}

/// A walk writes to the words from where it starts to where the tokens
/// end, and nowhere else.
pub proof fn lemma_walk_confined(
    b: Seq<u8>,
    rules: Option<u64>,
    out: Seq<u8>,
    pos: int,
    path: Seq<Seq<u8>>,
    units: Seq<Seq<u8>>,
    depth: nat,
)
    requires
        out.len() == b.len(),
    ensures
        walk_from(b, rules, out, pos, path, units, depth).blob.len() == out.len(),
        agree(out, walk_from(b, rules, out, pos, path, units, depth).blob, 0, pos),
        agree(
            out,
            walk_from(b, rules, out, pos, path, units, depth).blob,
            struct_limit(b),
            out.len() as int,
        ),
    decreases struct_limit(b) - pos,
{
    lemma_token_bounds(b, pos);
    match token_at(b, pos) {
        TokenView::Stop => {},
        TokenView::Begin { name, name_end, next } => {
            if path.len() < MAX_DEPTH {
                let path1 = path.push(node_name(b, name, name_end));
                let units1 = units.push(unit_address(b, name, name_end));
                if depth > 0 {
                    lemma_walk_confined(
                        b,
                        rules,
                        nop_fill(out, pos, next),
                        next,
                        path1,
                        units1,
                        depth + 1,
                    );
                } else if rules is Some && node_masked(path1, units1) {
                    lemma_walk_confined(b, rules, nop_fill(out, pos, next), next, path1, units1, 1);
                } else {
                    lemma_walk_confined(b, rules, out, next, path1, units1, 0);
                }
            }
        },
        TokenView::End { next } => {
            if depth > 0 {
                lemma_walk_confined(
                    b,
                    rules,
                    nop_fill(out, pos, next),
                    next,
                    popped(path),
                    popped(units),
                    (depth - 1) as nat,
                );
            } else {
                lemma_walk_confined(b, rules, out, next, popped(path), popped(units), 0);
            }
        },
        TokenView::Prop { len, name_offset, name, name_end, next } => {
            let property = b.subrange(name, name_end);
            if depth > 0 {
                lemma_walk_confined(b, rules, nop_fill(out, pos, next), next, path, units, depth);
            } else if rules is Some && property_erased(path, property) {
                lemma_walk_confined(b, rules, nop_fill(out, pos, next), next, path, units, 0);
            } else {
                let out1 = if rules is Some && memory_reg(path, property) && len == 16 {
                    patched(out, pos + 20, be64_bytes(rules->0))
                } else {
                    out
                };
                lemma_walk_confined(b, rules, out1, next, path, units, 0);
            }
        },
        TokenView::Nop { next } => {
            if depth > 0 {
                lemma_walk_confined(b, rules, nop_fill(out, pos, next), next, path, units, depth);
            } else {
                lemma_walk_confined(b, rules, out, next, path, units, 0);
            }
        },
    }
}

/// Whether the words of `m` from `from` to `to` are all the token that
/// stands for nothing.
pub open spec fn nops(m: Seq<u8>, from: int, to: int) -> bool {
    forall|i: int|
        from <= i < to ==> #[trigger] m[i] == if (i - from) % 4 == 3 {
            4u8
        } else {
            0u8
        }
}

/// A walk outside of hidden nodes passes over tokens that stand for
/// nothing as if they were not there.
pub proof fn lemma_skip_nops(
    m: Seq<u8>,
    rules: Option<u64>,
    out: Seq<u8>,
    from: int,
    to: int,
    path: Seq<Seq<u8>>,
    units: Seq<Seq<u8>>,
)
    requires
        0 <= from <= to <= struct_limit(m),
        (to - from) % 4 == 0,
        nops(m, from, to),
    ensures
        walk_from(m, rules, out, from, path, units, 0) == walk_from(
            m,
            rules,
            out,
            to,
            path,
            units,
            0,
        ),
    decreases to - from,
{
    if from < to {
        assert(m[from] == 0 && m[from + 1] == 0 && m[from + 2] == 0 && m[from + 3] == 4);
        assert((0u8 as u32) << 24 | (0u8 as u32) << 16 | (0u8 as u32) << 8 | (4u8 as u32) == 4u32)
            by (bit_vector);
        assert(be32(m, from) == FDT_NOP);
        assert(token_at(m, from) == TokenView::Nop { next: from + 4 });
        assert forall|i: int| from + 4 <= i < to implies #[trigger] m[i] == if (i - (from + 4))
            % 4 == 3 {
            4u8
        } else {
            0u8
        } by {
            assert((i - (from + 4)) % 4 == (i - from) % 4);
        }
        lemma_skip_nops(m, rules, out, from + 4, to, path, units);
    }
}

/// The words that a fill has written are tokens that stand for nothing in
/// every blob that holds them.
pub proof fn lemma_filled_are_nops(out: Seq<u8>, m: Seq<u8>, from: int, to: int)
    requires
        0 <= from <= to <= out.len(),
        m.len() == out.len(),
        agree(nop_fill(out, from, to), m, 0, to),
    ensures
        nops(m, from, to),
{
    assert forall|i: int| from <= i < to implies #[trigger] m[i] == if (i - from) % 4 == 3 {
        4u8
    } else {
        0u8
    } by {
        assert(nop_fill(out, from, to)[i] == m[i]);
    }
}

/// Where the masking pass stands: the blob as it was, what has been
/// written so far, the position, the nodes that are open and how many of
/// them are hidden.
pub struct Pass {
    pub b: Seq<u8>,
    pub size: u64,
    pub out: Seq<u8>,
    pub pos: int,
    pub path: Seq<Seq<u8>>,
    pub units: Seq<Seq<u8>>,
    pub depth: nat,
}

impl Pass {
    /// What the masking pass yields from here on.
    pub open spec fn rest(self) -> Walk {
        walk_from(self.b, Some(self.size), self.out, self.pos, self.path, self.units, self.depth)
    }

    /// The nodes that are open and not hidden.
    pub open spec fn seen_path(self) -> Seq<Seq<u8>> {
        self.path.take(self.path.len() - self.depth)
    }

    /// The unit addresses of the nodes that are open and not hidden.
    pub open spec fn seen_units(self) -> Seq<Seq<u8>> {
        self.units.take(self.units.len() - self.depth)
    }

    /// Whether the pass is one over a blob that is laid out well, has left
    /// the header alone, and has yet to come to what lies from `pos` on.
    pub open spec fn sound(self) -> bool {
        &&& laid_out(self.b)
        &&& self.out.len() == self.b.len()
        &&& struct_start(self.b) <= self.pos
        &&& agree(self.b, self.out, 0, HEADER_SIZE as int)
        &&& agree(self.b, self.out, self.pos, self.b.len() as int)
        &&& agree(self.b, self.out, struct_limit(self.b), self.b.len() as int)
        &&& self.depth <= self.path.len()
        &&& self.units.len() == self.path.len()
    }

    /// What a walk over the blob `m` yields from the same position on,
    /// below the nodes that are not hidden.
    pub open spec fn walk_again(self, m: Seq<u8>, again: Option<u64>) -> Walk {
        walk_from(m, again, m, self.pos, self.seen_path(), self.seen_units(), 0)
    }

    /// The pass one token further, with `out` written.
    pub open spec fn step(
        self,
        out: Seq<u8>,
        path: Seq<Seq<u8>>,
        units: Seq<Seq<u8>>,
        depth: nat,
    ) -> Pass {
        Pass {
            out: out,
            pos: next_of(token_at(self.b, self.pos), self.pos),
            path: path,
            units: units,
            depth: depth,
            ..self
        }
    }
}

/// The header of a blob that agrees with another on its first bytes tells
/// the same.
pub proof fn lemma_same_header(b: Seq<u8>, m: Seq<u8>)
    requires
        b.len() == m.len(),
        agree(b, m, 0, HEADER_SIZE as int),
    ensures
        struct_start(m) == struct_start(b),
        struct_limit(m) == struct_limit(b),
        strings_start(m) == strings_start(b),
{
    assert(be32(m, 8) == be32(b, 8));
    assert(be32(m, 12) == be32(b, 12));
    assert(be32(m, 36) == be32(b, 36));
}

/// A step of the masking pass that hides its token: the walk over the
/// masked blob passes over it and goes on as the pass does.
pub proof fn lemma_hidden_step(p: Pass, q: Pass, m: Seq<u8>, again: Option<u64>)
    requires
        p.sound(),
        token_at(p.b, p.pos) !is Stop,
        q == p.step(
            nop_fill(p.out, p.pos, next_of(token_at(p.b, p.pos), p.pos)),
            q.path,
            q.units,
            q.depth,
        ),
        q.depth <= q.path.len(),
        q.units.len() == q.path.len(),
        q.seen_path() == p.seen_path(),
        q.seen_units() == p.seen_units(),
        m == q.rest().blob,
        !q.rest().too_deep,
        again is None || again == Some(p.size),
    ensures
        p.walk_again(m, again) == (Walk { visits: q.rest().visits, blob: m, too_deep: false }),
    decreases struct_limit(p.b) - p.pos, 0int,
{
    let next = q.pos;
    lemma_token_bounds(p.b, p.pos);
    lemma_walk_confined(q.b, Some(q.size), q.out, q.pos, q.path, q.units, q.depth);
    lemma_filled_are_nops(p.out, m, p.pos, next);
    assert(agree(p.b, m, 0, HEADER_SIZE as int)) by {
        assert forall|i: int| 0 <= i < HEADER_SIZE implies p.b[i] == m[i] by {
            assert(p.b[i] == p.out[i]);
            assert(q.out[i] == m[i]);
        }
    }
    lemma_same_header(p.b, m);
    lemma_skip_nops(m, again, m, p.pos, next, p.seen_path(), p.seen_units());
    assert(q.sound()) by {
        assert forall|i: int| q.pos <= i < q.b.len() implies q.b[i] == q.out[i] by {
            assert(p.b[i] == p.out[i]);
        }
        assert forall|i: int| 0 <= i < HEADER_SIZE implies q.b[i] == q.out[i] by {
            assert(p.b[i] == p.out[i]);
        }
        assert forall|i: int| struct_limit(q.b) <= i < q.b.len() implies q.b[i] == q.out[i] by {
            assert(p.b[i] == p.out[i]);
        }
    }
    lemma_masked_walk(q, m, again);
}

/// A step of the masking pass that leaves its token as it is: the walk
/// over the masked blob finds the same token.
pub proof fn lemma_seen_token(p: Pass, q: Pass, m: Seq<u8>)
    requires
        p.sound(),
        token_at(p.b, p.pos) !is Stop,
        q.b == p.b,
        q.size == p.size,
        q.pos == next_of(token_at(p.b, p.pos), p.pos),
        q.out.len() == p.out.len(),
        agree(p.out, q.out, 0, p.pos + 12),
        token_at(p.b, p.pos) !is Prop ==> q.out == p.out,
        agree(p.out, q.out, q.pos, p.b.len() as int),
        m == q.rest().blob,
    ensures
        token_at(m, p.pos) == token_at(p.b, p.pos),
        struct_limit(m) == struct_limit(p.b),
        m.len() == p.b.len(),
        agree(p.b, m, 0, HEADER_SIZE as int),
        agree(p.b, m, struct_limit(p.b), p.b.len() as int),
        agree(q.out, m, 0, q.pos),
        q.out.len() == q.b.len(),
        struct_start(q.b) <= q.pos,
        agree(q.b, q.out, 0, HEADER_SIZE as int),
        agree(q.b, q.out, q.pos, q.b.len() as int),
        agree(q.b, q.out, struct_limit(q.b), q.b.len() as int),
{
    lemma_token_bounds(p.b, p.pos);
    lemma_walk_confined(q.b, Some(q.size), q.out, q.pos, q.path, q.units, q.depth);
    let b = p.b;
    assert forall|i: int| 0 <= i < HEADER_SIZE implies b[i] == m[i] by {
        assert(b[i] == p.out[i]);
        assert(p.out[i] == q.out[i]);
        assert(q.out[i] == m[i]);
    }
    assert forall|i: int| struct_limit(b) <= i < b.len() implies b[i] == m[i] by {
        assert(b[i] == p.out[i]);
        assert(p.out[i] == q.out[i]);
        assert(q.out[i] == m[i]);
    }
    assert forall|i: int| p.pos <= i < p.pos + 12 && i < q.pos implies b[i] == m[i] by {
        assert(b[i] == p.out[i]);
        assert(p.out[i] == q.out[i]);
        assert(q.out[i] == m[i]);
    }
    if token_at(b, p.pos) !is Prop {
        assert forall|i: int| p.pos <= i < q.pos implies b[i] == m[i] by {
            assert(b[i] == p.out[i]);
            assert(q.out[i] == m[i]);
        }
    }
    assert forall|i: int| q.pos <= i < b.len() implies b[i] == q.out[i] by {
        assert(b[i] == p.out[i]);
        assert(p.out[i] == q.out[i]);
    }
    assert forall|i: int| 0 <= i < HEADER_SIZE implies b[i] == q.out[i] by {
        assert(b[i] == p.out[i]);
        assert(p.out[i] == q.out[i]);
    }
    lemma_token_local(b, m, p.pos);
}

/// The one step on which the laws of the masking pass rest. Let the
/// masking pass stand at `p` and end with the blob `m`. Then a walk over
/// `m` from the same position on, below the nodes that are not hidden,
/// with or without the rules of the masking pass, makes the visits that
/// the masking pass has yet to make, and writes nothing that `m` does not
/// hold already.
pub proof fn lemma_masked_walk(p: Pass, m: Seq<u8>, again: Option<u64>)
    requires
        p.sound(),
        m == p.rest().blob,
        !p.rest().too_deep,
        again is None || again == Some(p.size),
    ensures
        p.walk_again(m, again) == (Walk { visits: p.rest().visits, blob: m, too_deep: false }),
    decreases struct_limit(p.b) - p.pos, 1int,
{
    let b = p.b;
    let token = token_at(b, p.pos);
    lemma_token_bounds(b, p.pos);
    if p.depth == 0 {
        assert(p.seen_path() =~= p.path);
        assert(p.seen_units() =~= p.units);
    }
    match token {
        TokenView::Stop => {
            assert(m == p.out);
            lemma_token_local(b, m, p.pos);
        },
        TokenView::Begin { name, name_end, next } => {
            let path1 = p.path.push(node_name(b, name, name_end));
            let units1 = p.units.push(unit_address(b, name, name_end));
            lemma_find_byte(b, 0, name, b.len() as int);
            if p.depth > 0 || node_masked(path1, units1) {
                let depth1: nat = if p.depth > 0 {
                    p.depth + 1
                } else {
                    1
                };
                let q = p.step(nop_fill(p.out, p.pos, next), path1, units1, depth1);
                assert(q.seen_path() =~= p.seen_path());
                assert(q.seen_units() =~= p.seen_units());
                lemma_hidden_step(p, q, m, again);
            } else {
                let q = p.step(p.out, path1, units1, 0);
                lemma_seen_token(p, q, m);
                lemma_name_local(b, m, name, name_end);
                assert(q.seen_path() =~= path1);
                assert(q.seen_units() =~= units1);
                lemma_masked_walk(q, m, again);
            }
        },
        TokenView::End { next } => {
            if p.depth > 0 {
                let q = p.step(
                    nop_fill(p.out, p.pos, next),
                    popped(p.path),
                    popped(p.units),
                    (p.depth - 1) as nat,
                );
                assert(q.seen_path() =~= p.seen_path());
                assert(q.seen_units() =~= p.seen_units());
                lemma_hidden_step(p, q, m, again);
            } else {
                let q = p.step(p.out, popped(p.path), popped(p.units), 0);
                lemma_seen_token(p, q, m);
                assert(q.seen_path() =~= popped(p.path));
                assert(q.seen_units() =~= popped(p.units));
                lemma_masked_walk(q, m, again);
            }
        },
        TokenView::Prop { len, name_offset, name, name_end, next } => {
            let property = b.subrange(name, name_end);
            if p.depth > 0 || property_erased(p.path, property) {
                let q = p.step(nop_fill(p.out, p.pos, next), p.path, p.units, p.depth);
                lemma_hidden_step(p, q, m, again);
            } else {
                let rewritten = memory_reg(p.path, property) && len == 16;
                let out1 = if rewritten {
                    patched(p.out, p.pos + 20, be64_bytes(p.size))
                } else {
                    p.out
                };
                let q = p.step(out1, p.path, p.units, 0);
                lemma_seen_token(p, q, m);
                assert(m.subrange(name, name_end) =~= property);
                lemma_masked_walk(q, m, again);
                if rewritten {
                    assert(patched(m, p.pos + 20, be64_bytes(p.size)) =~= m) by {
                        assert forall|i: int| 0 <= i < m.len() implies patched(
                            m,
                            p.pos + 20,
                            be64_bytes(p.size),
                        )[i] == m[i] by {
                            if p.pos + 20 <= i < p.pos + 28 {
                                assert(out1[i] == m[i]);
                            }
                        }
                    }
                }
            }
        },
        TokenView::Nop { next } => {
            if p.depth > 0 {
                let q = p.step(nop_fill(p.out, p.pos, next), p.path, p.units, p.depth);
                lemma_hidden_step(p, q, m, again);
            } else {
                let q = p.step(p.out, p.path, p.units, 0);
                lemma_seen_token(p, q, m);
                lemma_masked_walk(q, m, again);
            }
        },
    }
}

/// Whether no node along the path is hidden.
pub open spec fn exposed(path: Seq<Seq<u8>>, units: Seq<Seq<u8>>) -> bool {
    forall|j: int| 0 <= j <= path.len() ==> !node_masked(#[trigger] path.take(j), units.take(j))
}

/// Whether a visit is one that the guest may see, in the blob `m` that the
/// masking pass over `b` has left: no node along its path is hidden; if it
/// is of a property, the property is not hidden; and if it is of the `reg`
/// of `/memory`, with 16 bytes, the second half of its value is `size`,
/// and the first half is what it was.
pub open spec fn visit_kept(b: Seq<u8>, m: Seq<u8>, size: u64, visit: VisitView) -> bool {
    &&& exposed(visit.path, visit.units)
    &&& match visit.what {
        VisitWhat::Node => true,
        VisitWhat::Property { name, offset, len, name_offset } => {
            &&& !property_erased(visit.path, name)
            &&& memory_reg(visit.path, name) && len == 16 ==> be64(m, offset + 16) == size
                && be64(m, offset + 8) == be64(b, offset + 8)
        },
    }
}

/// Every visit that the masking pass makes is one that the guest may see.
pub proof fn lemma_pass_visits(p: Pass, m: Seq<u8>)
    requires
        p.sound(),
        m == p.rest().blob,
        exposed(p.seen_path(), p.seen_units()),
    ensures
        forall|k: int|
            0 <= k < p.rest().visits.len() ==> visit_kept(p.b, m, p.size, #[trigger] p.rest().visits[k]),
    decreases struct_limit(p.b) - p.pos,
{
    let b = p.b;
    let token = token_at(b, p.pos);
    lemma_token_bounds(b, p.pos);
    if p.depth == 0 {
        assert(p.seen_path() =~= p.path);
        assert(p.seen_units() =~= p.units);
    }
    match token {
        TokenView::Stop => {},
        TokenView::Begin { name, name_end, next } => {
            if p.path.len() < MAX_DEPTH {
                let path1 = p.path.push(node_name(b, name, name_end));
                let units1 = p.units.push(unit_address(b, name, name_end));
                if p.depth > 0 || node_masked(path1, units1) {
                    let depth1: nat = if p.depth > 0 {
                        p.depth + 1
                    } else {
                        1
                    };
                    let q = p.step(nop_fill(p.out, p.pos, next), path1, units1, depth1);
                    assert(q.seen_path() =~= p.seen_path());
                    assert(q.seen_units() =~= p.seen_units());
                    lemma_step_sound(p, q);
                    lemma_pass_visits(q, m);
                    assert(p.rest() == q.rest());
                } else {
                    let q = p.step(p.out, path1, units1, 0);
                    assert(q.seen_path() =~= path1);
                    assert(q.seen_units() =~= units1);
                    assert(exposed(path1, units1)) by {
                        assert forall|j: int| 0 <= j <= path1.len() implies !node_masked(
                            #[trigger] path1.take(j),
                            units1.take(j),
                        ) by {
                            if j < path1.len() {
                                assert(path1.take(j) =~= p.path.take(j));
                                assert(units1.take(j) =~= p.units.take(j));
                            } else {
                                assert(path1.take(j) =~= path1);
                                assert(units1.take(j) =~= units1);
                            }
                        }
                    }
                    lemma_step_sound(p, q);
                    lemma_pass_visits(q, m);
                    let visit = VisitView { path: path1, units: units1, what: VisitWhat::Node };
                    assert(p.rest().visits == seq![visit] + q.rest().visits);
                    assert forall|k: int| 0 <= k < p.rest().visits.len() implies visit_kept(
                        b,
                        m,
                        p.size,
                        #[trigger] p.rest().visits[k],
                    ) by {
                        if k > 0 {
                            assert(p.rest().visits[k] == q.rest().visits[k - 1]);
                        }
                    }
                }
            }
        },
        TokenView::End { next } => {
            let depth1: nat = if p.depth > 0 {
                (p.depth - 1) as nat
            } else {
                0
            };
            let out1 = if p.depth > 0 {
                nop_fill(p.out, p.pos, next)
            } else {
                p.out
            };
            let q = p.step(out1, popped(p.path), popped(p.units), depth1);
            if p.depth > 0 {
                assert(q.seen_path() =~= p.seen_path());
                assert(q.seen_units() =~= p.seen_units());
            } else {
                assert(q.seen_path() =~= popped(p.path));
                assert(q.seen_units() =~= popped(p.units));
                assert(exposed(popped(p.path), popped(p.units))) by {
                    assert forall|j: int| 0 <= j <= popped(p.path).len() implies !node_masked(
                        #[trigger] popped(p.path).take(j),
                        popped(p.units).take(j),
                    ) by {
                        assert(popped(p.path).take(j) =~= p.path.take(j));
                        assert(popped(p.units).take(j) =~= p.units.take(j));
                    }
                }
            }
            lemma_step_sound(p, q);
            lemma_pass_visits(q, m);
            assert(p.rest() == q.rest());
        },
        TokenView::Prop { len, name_offset, name, name_end, next } => {
            let property = b.subrange(name, name_end);
            if p.depth > 0 || property_erased(p.path, property) {
                let q = p.step(nop_fill(p.out, p.pos, next), p.path, p.units, p.depth);
                lemma_step_sound(p, q);
                lemma_pass_visits(q, m);
                assert(p.rest() == q.rest());
            } else {
                let rewritten = memory_reg(p.path, property) && len == 16;
                let out1 = if rewritten {
                    patched(p.out, p.pos + 20, be64_bytes(p.size))
                } else {
                    p.out
                };
                let q = p.step(out1, p.path, p.units, 0);
                lemma_step_sound(p, q);
                lemma_pass_visits(q, m);
                lemma_walk_confined(b, Some(p.size), out1, next, p.path, p.units, 0);
                let visit = VisitView {
                    path: p.path,
                    units: p.units,
                    what: VisitWhat::Property {
                        name: property,
                        offset: p.pos + 4,
                        len: len,
                        name_offset: name_offset,
                    },
                };
                if rewritten {
                    lemma_be64_round_trip(p.out, p.pos + 20, p.size);
                    assert(be64(m, p.pos + 20) == be64(out1, p.pos + 20)) by {
                        lemma_be64_local(out1, m, p.pos + 20);
                    }
                    assert(be64(m, p.pos + 12) == be64(b, p.pos + 12)) by {
                        assert forall|i: int| p.pos + 12 <= i < p.pos + 20 implies b[i] == m[i] by {
                            assert(b[i] == p.out[i]);
                            assert(out1[i] == m[i]);
                        }
                        lemma_be64_local(b, m, p.pos + 12);
                    }
                }
                assert(visit_kept(b, m, p.size, visit));
                assert(p.rest().visits == seq![visit] + q.rest().visits);
                assert forall|k: int| 0 <= k < p.rest().visits.len() implies visit_kept(
                    b,
                    m,
                    p.size,
                    #[trigger] p.rest().visits[k],
                ) by {
                    if k > 0 {
                        assert(p.rest().visits[k] == q.rest().visits[k - 1]);
                    }
                }
            }
        },
        TokenView::Nop { next } => {
            let out1 = if p.depth > 0 {
                nop_fill(p.out, p.pos, next)
            } else {
                p.out
            };
            let q = p.step(out1, p.path, p.units, p.depth);
            lemma_step_sound(p, q);
            lemma_pass_visits(q, m);
            assert(p.rest() == q.rest());
        },
    }
}

/// An integer of eight bytes depends on those bytes only.
pub proof fn lemma_be64_local(one: Seq<u8>, other: Seq<u8>, at: int)
    requires
        one.len() == other.len(),
        agree(one, other, at, at + 8),
    ensures
        be64(other, at) == be64(one, at),
{
    if 0 <= at && at + 8 <= one.len() {
        assert(one[at] == other[at]);
        assert(one[at + 1] == other[at + 1]);
        assert(one[at + 2] == other[at + 2]);
        assert(one[at + 3] == other[at + 3]);
        assert(one[at + 4] == other[at + 4]);
        assert(one[at + 5] == other[at + 5]);
        assert(one[at + 6] == other[at + 6]);
        assert(one[at + 7] == other[at + 7]);
    }
}

/// A step of the masking pass that writes to the words of its token only
/// leaves the pass sound.
pub proof fn lemma_step_sound(p: Pass, q: Pass)
    requires
        p.sound(),
        token_at(p.b, p.pos) !is Stop,
        q.b == p.b,
        q.pos == next_of(token_at(p.b, p.pos), p.pos),
        q.out.len() == p.out.len(),
        agree(p.out, q.out, 0, p.pos),
        agree(p.out, q.out, q.pos, p.b.len() as int),
        q.depth <= q.path.len(),
        q.units.len() == q.path.len(),
    ensures
        q.sound(),
{
    lemma_token_bounds(p.b, p.pos);
    assert forall|i: int| q.pos <= i < q.b.len() implies q.b[i] == q.out[i] by {
        assert(p.b[i] == p.out[i]);
    }
    assert forall|i: int| 0 <= i < HEADER_SIZE implies q.b[i] == q.out[i] by {
        assert(p.b[i] == p.out[i]);
    }
    assert forall|i: int| struct_limit(q.b) <= i < q.b.len() implies q.b[i] == q.out[i] by {
        assert(p.b[i] == p.out[i]);
    }
}

/// The masking pass at its start.
pub open spec fn pass_of(b: Seq<u8>, size: u64) -> Pass {
    Pass {
        b: b,
        size: size,
        out: b,
        pos: struct_start(b),
        path: Seq::empty(),
        units: Seq::empty(),
        depth: 0,
    }
}

/// The masking pass at its start is sound, and what it yields is what
/// `mask_of` yields.
pub proof fn lemma_pass_of(b: Seq<u8>, size: u64)
    requires
        laid_out(b),
    ensures
        pass_of(b, size).sound(),
        pass_of(b, size).rest() == mask_of(b, size),
        pass_of(b, size).seen_path() == Seq::<Seq<u8>>::empty(),
        pass_of(b, size).seen_units() == Seq::<Seq<u8>>::empty(),
        exposed(Seq::empty(), Seq::empty()),
        mask_of(b, size).blob.len() == b.len(),
        struct_start(mask_of(b, size).blob) == struct_start(b),
{
    let p = pass_of(b, size);
    assert(p.seen_path() =~= Seq::<Seq<u8>>::empty());
    assert(p.seen_units() =~= Seq::<Seq<u8>>::empty());
    lemma_walk_confined(b, Some(size), b, struct_start(b), Seq::empty(), Seq::empty(), 0);
    lemma_same_header(b, mask_of(b, size).blob);
    assert forall|j: int| 0 <= j <= 0 implies !node_masked(
        #[trigger] Seq::<Seq<u8>>::empty().take(j),
        Seq::<Seq<u8>>::empty().take(j),
    ) by {
        assert(Seq::<Seq<u8>>::empty().take(j).len() == 0);
    }
}

/// Masking twice is masking once: the masking pass over a blob that it
/// has masked leaves that blob as it is.
pub proof fn law_mask_idempotent(b: Seq<u8>, size: u64)
    requires
        laid_out(b),
        !mask_of(b, size).too_deep,
    ensures
        !mask_of(mask_of(b, size).blob, size).too_deep,
        mask_of(mask_of(b, size).blob, size).blob == mask_of(b, size).blob,
{
    let p = pass_of(b, size);
    lemma_pass_of(b, size);
    lemma_masked_walk(p, mask_of(b, size).blob, Some(size));
}

/// After masking, a walk sees what the guest may see and nothing else. It
/// makes the visits that the masking pass made, which leaves out every
/// node that is hidden, all that lies below one, and every property that
/// is hidden; and where it visits the `reg` of `/memory`, with 16 bytes,
/// the size in it is that of the guest's memory, and the base is what it
/// was.
pub proof fn law_masked_walk(b: Seq<u8>, size: u64)
    requires
        laid_out(b),
        !mask_of(b, size).too_deep,
    ensures
        !walk_of(mask_of(b, size).blob).too_deep,
        walk_of(mask_of(b, size).blob).visits == mask_of(b, size).visits,
        forall|k: int|
            0 <= k < walk_of(mask_of(b, size).blob).visits.len() ==> visit_kept(
                b,
                mask_of(b, size).blob,
                size,
                #[trigger] walk_of(mask_of(b, size).blob).visits[k],
            ),
{
    let p = pass_of(b, size);
    lemma_pass_of(b, size);
    lemma_masked_walk(p, mask_of(b, size).blob, None);
    lemma_pass_visits(p, mask_of(b, size).blob);
}

} // verus!
