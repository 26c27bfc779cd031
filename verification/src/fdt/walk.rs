//! The structure block as a stream of tokens, and the walk over it.

use vstd::prelude::*;
use crate::fdt::{
    FDT_BEGIN_NODE, FDT_END, FDT_END_NODE, FDT_PROP, Fdt, FdtError, HEADER_SIZE, MAX_DEPTH,
    Property, be32, be64_bytes, patched, read_be32,
};
use vstd::slice::slice_to_vec;
use crate::fdt::bounded::Spans;
use crate::fdt::rules::{memory_reg, node_masked, property_erased};

verus! {

/// The first position from `from` on, and before `end`, at which `b` holds
/// `value`; `end` where there is none.
pub open spec fn find_byte(b: Seq<u8>, value: u8, from: int, end: int) -> int
    decreases end - from,
{
    if from >= end {
        end
    } else if 0 <= from < b.len() && b[from] == value {
        from
    } else {
        find_byte(b, value, from + 1, end)
    }
}

/// What `find_byte` finds lies between `from` and `end`, holds `value`
/// unless it is `end`, and no position before it does.
pub proof fn lemma_find_byte(b: Seq<u8>, value: u8, from: int, end: int)
    requires
        0 <= from <= end <= b.len(),
    ensures
        from <= find_byte(b, value, from, end) <= end,
        find_byte(b, value, from, end) < end ==> b[find_byte(b, value, from, end)] == value,
        forall|i: int| from <= i < find_byte(b, value, from, end) ==> b[i] != value,
    decreases end - from,
{
    if from < end && b[from] != value {
        lemma_find_byte(b, value, from + 1, end);
    }
}

/// Finds the first `value` in the bytes from `from` on and before `end`.
pub fn find(blob: &Vec<u8>, value: u8, from: usize, end: usize) -> (at: usize)
    requires
        from <= end <= blob.len(),
    ensures
        at == find_byte(blob@, value, from as int, end as int),
        from <= at <= end,
{
    let mut at = from;
    while at < end && blob[at] != value
        invariant
            from <= at <= end <= blob.len(),
            find_byte(blob@, value, at as int, end as int) == find_byte(
                blob@,
                value,
                from as int,
                end as int,
            ),
        decreases end - at,
    {
        at += 1;
    }
    at
}

/// Where the structure block starts.
pub open spec fn struct_start(b: Seq<u8>) -> int {
    be32(b, 8) as int
}

/// Where the strings block starts.
pub open spec fn strings_start(b: Seq<u8>) -> int {
    be32(b, 12) as int
}

/// Where the tokens end: at the end of the structure block, its size
/// rounded up to whole words, or at the end of the blob, whichever comes
/// first.
pub open spec fn struct_limit(b: Seq<u8>) -> int {
    let end = be32(b, 8) + 4 * ((be32(b, 36) + 3) / 4);
    if end <= b.len() {
        end
    } else {
        b.len() as int
    }
}

/// One token of the structure block, with the position of the token after
/// it.
pub enum TokenView {
    /// The start of a node whose name lies from `name` to `name_end`.
    Begin { name: int, name_end: int, next: int },
    /// The end of a node.
    End { next: int },
    /// A property of `len` bytes, whose name lies in the strings block
    /// from `name` to `name_end`.
    Prop { len: u32, name_offset: u32, name: int, name_end: int, next: int },
    /// A word that stands for nothing.
    Nop { next: int },
    /// The end of the walk.
    Stop,
}

/// The token at `pos`. The walk stops at the end token, where the tokens
/// end, and at a token that does not lie before that end with all that
/// belongs to it, or whose name has no end in the blob. A word that is no
/// token counts as one that stands for nothing.
pub open spec fn token_at(b: Seq<u8>, pos: int) -> TokenView {
    let limit = struct_limit(b);
    let word = be32(b, pos);
    if pos < 0 || pos + 4 > limit || word == FDT_END {
        TokenView::Stop
    } else if word == FDT_BEGIN_NODE {
        let name = pos + 4;
        let name_end = find_byte(b, 0, name, b.len() as int);
        let next = name + 4 * (1 + (name_end - name) / 4);
        if name <= name_end && next <= limit {
            TokenView::Begin { name, name_end, next }
        } else {
            TokenView::Stop
        }
    } else if word == FDT_END_NODE {
        TokenView::End { next: pos + 4 }
    } else if word == FDT_PROP {
        let len = be32(b, pos + 4);
        let name_offset = be32(b, pos + 8);
        let next = pos + 4 * (3 + (len + 3) / 4);
        let name = strings_start(b) + name_offset;
        let name_end = find_byte(b, 0, name, b.len() as int);
        if pos + 12 <= limit && next <= limit && name <= name_end < b.len() {
            TokenView::Prop { len, name_offset, name, name_end, next }
        } else {
            TokenView::Stop
        }
    } else {
        TokenView::Nop { next: pos + 4 }
    }
}

/// The position after a token, or `pos` itself where the walk stops.
pub open spec fn next_of(token: TokenView, pos: int) -> int {
    match token {
        TokenView::Begin { next, .. } => next,
        TokenView::End { next } => next,
        TokenView::Prop { next, .. } => next,
        TokenView::Nop { next } => next,
        TokenView::Stop => pos,
    }
}

/// A token lies in the structure block, after the position it was read
/// at, and takes a whole number of words.
pub proof fn lemma_token_bounds(b: Seq<u8>, pos: int)
    ensures
        token_at(b, pos) !is Stop ==> 0 <= pos && pos + 4 <= next_of(token_at(b, pos), pos)
            <= struct_limit(b) <= b.len() && (next_of(token_at(b, pos), pos) - pos) % 4 == 0,
{
}

/// One token of the structure block, as `TokenView` describes it.
#[derive(Clone, Copy, Debug)]
pub enum Token {
    Begin { name: usize, name_end: usize, next: usize },
    End { next: usize },
    Prop { len: u32, name_offset: u32, name: usize, name_end: usize, next: usize },
    Nop { next: usize },
    Stop,
}

impl View for Token {
    type V = TokenView;

    open spec fn view(&self) -> TokenView {
        match *self {
            Token::Begin { name, name_end, next } => TokenView::Begin {
                name: name as int,
                name_end: name_end as int,
                next: next as int,
            },
            Token::End { next } => TokenView::End { next: next as int },
            Token::Prop { len, name_offset, name, name_end, next } => TokenView::Prop {
                len,
                name_offset,
                name: name as int,
                name_end: name_end as int,
                next: next as int,
            },
            Token::Nop { next } => TokenView::Nop { next: next as int },
            Token::Stop => TokenView::Stop,
        }
    }
}

/// Computes where the tokens end.
pub fn limit_of(blob: &Vec<u8>) -> (limit: usize)
    ensures
        limit == struct_limit(blob@),
        limit <= blob.len(),
{
    let start = read_be32(blob, 8) as u64;
    let size = read_be32(blob, 36) as u64;
    let end = start + 4 * ((size + 3) / 4);
    if end <= blob.len() as u64 {
        end as usize
    } else {
        blob.len()
    }
}

/// Reads the token at `pos`.
pub fn next_token(blob: &Vec<u8>, pos: usize) -> (token: Token)
    ensures
        token@ == token_at(blob@, pos as int),
{
    let limit = limit_of(blob);
    if limit < 4 || pos > limit - 4 {
        return Token::Stop;
    }
    let word = read_be32(blob, pos as u64);
    let room = limit - pos;
    if word == FDT_END {
        Token::Stop
    } else if word == FDT_BEGIN_NODE {
        let name = pos + 4;
        let name_end = find(blob, 0, name, blob.len());
        let size = 4 * (1 + (name_end - name) / 4);
        if size <= room - 4 {
            Token::Begin { name, name_end, next: name + size }
        } else {
            Token::Stop
        }
    } else if word == FDT_END_NODE {
        Token::End { next: pos + 4 }
    } else if word == FDT_PROP {
        if room < 12 {
            return Token::Stop;
        }
        let len = read_be32(blob, pos as u64 + 4);
        let name_offset = read_be32(blob, pos as u64 + 8);
        let size = 4 * (3 + (len as u64 + 3) / 4);
        let name = read_be32(blob, 12) as u64 + name_offset as u64;
        if size > room as u64 || name >= blob.len() as u64 {
            proof {
                if name >= blob.len() {
                    assert(find_byte(blob@, 0, name as int, blob@.len() as int) == blob@.len());
                }
            }
            return Token::Stop;
        }
        let name_end = find(blob, 0, name as usize, blob.len());
        if name_end < blob.len() {
            Token::Prop {
                len,
                name_offset,
                name: name as usize,
                name_end,
                next: pos + size as usize,
            }
        } else {
            Token::Stop
        }
    } else {
        Token::Nop { next: pos + 4 }
    }
}

/// The name of a node up to the first `@` of its full name, which lies
/// from `name` to `name_end`.
pub open spec fn node_name(b: Seq<u8>, name: int, name_end: int) -> Seq<u8> {
    b.subrange(name, find_byte(b, 0x40, name, name_end))
}

/// The unit address of a node: what follows the first `@` of its full
/// name, up to the next one; nothing where there is no `@`.
pub open spec fn unit_address(b: Seq<u8>, name: int, name_end: int) -> Seq<u8> {
    let at = find_byte(b, 0x40, name, name_end);
    if at < name_end {
        b.subrange(at + 1, find_byte(b, 0x40, at + 1, name_end))
    } else {
        b.subrange(name_end, name_end)
    }
}

/// `out` with the words from `from` to `to` replaced by the token that
/// stands for nothing.
pub open spec fn nop_fill(out: Seq<u8>, from: int, to: int) -> Seq<u8> {
    Seq::new(
        out.len(),
        |i: int|
            if from <= i < to {
                if (i - from) % 4 == 3 {
                    4u8
                } else {
                    0u8
                }
            } else {
                out[i]
            },
    )
}

/// What a visit is of.
pub enum VisitWhat {
    /// A node, at its start.
    Node,
    /// A property with its name, and its header at `offset`.
    Property { name: Seq<u8>, offset: int, len: u32, name_offset: u32 },
}

/// One visit of a walk: the names of the nodes from the root down to the
/// one visited, or to the one that holds the property visited, and their
/// unit addresses.
pub struct VisitView {
    pub path: Seq<Seq<u8>>,
    pub units: Seq<Seq<u8>>,
    pub what: VisitWhat,
}

/// What a walk yields: its visits, the blob as it leaves it, and whether
/// it gave up because nodes are nested too deep.
pub struct Walk {
    pub visits: Seq<VisitView>,
    pub blob: Seq<u8>,
    pub too_deep: bool,
}

/// A walk with one visit put before its own.
pub open spec fn visited(visit: VisitView, rest: Walk) -> Walk {
    Walk { visits: seq![visit] + rest.visits, ..rest }
}

/// `path` without its last entry, if it has one.
pub open spec fn popped(path: Seq<Seq<u8>>) -> Seq<Seq<u8>> {
    if path.len() > 0 {
        path.drop_last()
    } else {
        path
    }
}

/// The walk over the tokens of `b` from `pos` on, below the nodes of
/// `path`, which writes to `out`.
///
/// Without `rules` it visits every node and every property and writes
/// nothing. With `rules`, which hold the size of the guest's memory, it is
/// the masking pass. A node that `node_masked` names is not visited, and
/// from its first token to the token that ends it every word is replaced
/// by the token that stands for nothing; `depth` counts the nodes that are
/// open below such a node, itself included, and is zero outside of one. A
/// property that `property_erased` names is replaced in the same way. The
/// `reg` of `/memory`, where it has 16 bytes, takes the size of the
/// guest's memory for its second half.
///
/// The walk gives up, with what it has done so far, at a node that is
/// nested deeper than `MAX_DEPTH`.
pub open spec fn walk_from(
    b: Seq<u8>,
    rules: Option<u64>,
    out: Seq<u8>,
    pos: int,
    path: Seq<Seq<u8>>,
    units: Seq<Seq<u8>>,
    depth: nat,
) -> Walk
    decreases struct_limit(b) - pos,
{
    match token_at(b, pos) {
        TokenView::Stop => Walk { visits: Seq::empty(), blob: out, too_deep: false },
        TokenView::Begin { name, name_end, next } => {
            if path.len() >= MAX_DEPTH {
                Walk { visits: Seq::empty(), blob: out, too_deep: true }
            } else {
                let path1 = path.push(node_name(b, name, name_end));
                let units1 = units.push(unit_address(b, name, name_end));
                if depth > 0 {
                    walk_from(b, rules, nop_fill(out, pos, next), next, path1, units1, depth + 1)
                } else if rules is Some && node_masked(path1, units1) {
                    walk_from(b, rules, nop_fill(out, pos, next), next, path1, units1, 1)
                } else {
                    visited(
                        VisitView { path: path1, units: units1, what: VisitWhat::Node },
                        walk_from(b, rules, out, next, path1, units1, 0),
                    )
                }
            }
        },
        TokenView::End { next } => {
            if depth > 0 {
                walk_from(
                    b,
                    rules,
                    nop_fill(out, pos, next),
                    next,
                    popped(path),
                    popped(units),
                    (depth - 1) as nat,
                )
            } else {
                walk_from(b, rules, out, next, popped(path), popped(units), 0)
            }
        },
        TokenView::Prop { len, name_offset, name, name_end, next } => {
            let property = b.subrange(name, name_end);
            if depth > 0 {
                walk_from(b, rules, nop_fill(out, pos, next), next, path, units, depth)
            } else if rules is Some && property_erased(path, property) {
                walk_from(b, rules, nop_fill(out, pos, next), next, path, units, 0)
            } else {
                let out1 = if rules is Some && memory_reg(path, property) && len == 16 {
                    patched(out, pos + 20, be64_bytes(rules->0))
                } else {
                    out
                };
                visited(
                    VisitView {
                        path: path,
                        units: units,
                        what: VisitWhat::Property {
                            name: property,
                            offset: pos + 4,
                            len: len,
                            name_offset: name_offset,
                        },
                    },
                    walk_from(b, rules, out1, next, path, units, 0),
                )
            }
        },
        TokenView::Nop { next } => {
            if depth > 0 {
                walk_from(b, rules, nop_fill(out, pos, next), next, path, units, depth)
            } else {
                walk_from(b, rules, out, next, path, units, 0)
            }
        },
    }
}

/// The walk over a whole blob that visits every node and property.
pub open spec fn walk_of(b: Seq<u8>) -> Walk {
    walk_from(b, None, b, struct_start(b), Seq::empty(), Seq::empty(), 0)
}

/// The masking pass over a whole blob, for a guest with `size` bytes of
/// memory.
pub open spec fn mask_of(b: Seq<u8>, size: u64) -> Walk {
    walk_from(b, Some(size), b, struct_start(b), Seq::empty(), Seq::empty(), 0)
}

/// A stretch of the blob.
#[derive(Clone, Copy, Debug, PartialEq, Eq, Structural)]
pub struct Span {
    pub start: usize,
    pub end: usize,
}

/// The bytes of a stretch of `b`.
pub open spec fn span_bytes(b: Seq<u8>, span: Span) -> Seq<u8> {
    b.subrange(span.start as int, span.end as int)
}

/// The bytes of each of several stretches of `b`.
pub open spec fn spans_bytes(b: Seq<u8>, spans: Seq<Span>) -> Seq<Seq<u8>> {
    Seq::new(spans.len(), |i: int| span_bytes(b, spans[i]))
}

/// Whether each stretch lies in a blob of `len` bytes.
pub open spec fn spans_valid(spans: Seq<Span>, len: int) -> bool {
    forall|i: int| 0 <= i < spans.len() ==> (#[trigger] spans[i]).start <= spans[i].end <= len
}

/// What a visit is of.
#[derive(Clone, Copy, Debug, PartialEq, Eq, Structural)]
pub enum FdtVisit {
    /// A node, at its start.
    Node,
    /// A property, with where its name lies.
    Property { name: Span, prop: Property },
}

/// One visit of a walk, with each name as the stretch of the blob that
/// holds it.
#[derive(Debug)]
pub struct Visit {
    pub path: Vec<Span>,
    pub unit_addresses: Vec<Span>,
    pub what: FdtVisit,
}

impl Visit {
    /// Whether the names of the visit lie in a blob of `len` bytes, one
    /// unit address for each node of the path.
    pub open spec fn valid(&self, len: int) -> bool {
        &&& spans_valid(self.path@, len)
        &&& spans_valid(self.unit_addresses@, len)
        &&& self.unit_addresses.len() == self.path.len()
        &&& match self.what {
            FdtVisit::Node => true,
            FdtVisit::Property { name, prop } => name.start <= name.end <= len,
        }
    }

    /// The visit with the names that the blob `b` holds.
    pub open spec fn view_in(&self, b: Seq<u8>) -> VisitView {
        VisitView {
            path: spans_bytes(b, self.path@),
            units: spans_bytes(b, self.unit_addresses@),
            what: match self.what {
                FdtVisit::Node => VisitWhat::Node,
                FdtVisit::Property { name, prop } => VisitWhat::Property {
                    name: span_bytes(b, name),
                    offset: prop.offset as int,
                    len: prop.len,
                    name_offset: prop.name_offset,
                },
            },
        }
    }
}

/// Visits with the names that the blob `b` holds.
pub open spec fn visits_in(b: Seq<u8>, visits: Seq<Visit>) -> Seq<VisitView> {
    Seq::new(visits.len(), |i: int| visits[i].view_in(b))
}

/// The two stretches of a node's full name: its name, and its unit
/// address.
pub fn split_name(blob: &Vec<u8>, name: usize, name_end: usize) -> (parts: (Span, Span))
    requires
        name <= name_end <= blob.len(),
    ensures
        span_bytes(blob@, parts.0) == node_name(blob@, name as int, name_end as int),
        span_bytes(blob@, parts.1) == unit_address(blob@, name as int, name_end as int),
        parts.0.start <= parts.0.end <= blob.len(),
        parts.1.start <= parts.1.end <= blob.len(),
{
    let at = find(blob, 0x40, name, name_end);
    if at < name_end {
        let next = find(blob, 0x40, at + 1, name_end);
        (Span { start: name, end: at }, Span { start: at + 1, end: next })
    } else {
        (Span { start: name, end: at }, Span { start: name_end, end: name_end })
    }
}

/// Pushing a stretch pushes its bytes.
pub proof fn lemma_spans_push(b: Seq<u8>, spans: Seq<Span>, span: Span)
    ensures
        spans_bytes(b, spans.push(span)) == spans_bytes(b, spans).push(span_bytes(b, span)),
{
    assert(spans_bytes(b, spans.push(span)) =~= spans_bytes(b, spans).push(span_bytes(b, span)));
}

/// Dropping the last stretch drops its bytes.
pub proof fn lemma_spans_pop(b: Seq<u8>, spans: Seq<Span>)
    requires
        spans.len() > 0,
    ensures
        spans_bytes(b, spans.drop_last()) == spans_bytes(b, spans).drop_last(),
{
    assert(spans_bytes(b, spans.drop_last()) =~= spans_bytes(b, spans).drop_last());
}

/// One more visit at the end of those made is one more before those to
/// come.
pub proof fn lemma_visit_made(b: Seq<u8>, made: Seq<Visit>, visit: Visit, rest: Seq<VisitView>)
    ensures
        visits_in(b, made.push(visit)) + rest == visits_in(b, made) + (seq![visit.view_in(b)]
            + rest),
{
    assert(visits_in(b, made.push(visit)) + rest =~= visits_in(b, made) + (seq![
        visit.view_in(b),
    ] + rest));
}

/// The strings block: as many bytes as the header says, from where the
/// header says, as far as they lie in the blob.
pub open spec fn strings_of(b: Seq<u8>) -> Seq<u8> {
    let start = if be32(b, 12) <= b.len() {
        be32(b, 12) as int
    } else {
        b.len() as int
    };
    let end = if be32(b, 12) + be32(b, 32) <= b.len() {
        be32(b, 12) + be32(b, 32)
    } else {
        b.len() as int
    };
    b.subrange(start, end)
}

/// Where the text that starts at `start` lies: it goes up to the next zero
/// byte. `None` where there is none in the blob.
pub open spec fn text_at(b: Seq<u8>, start: int) -> Option<Span> {
    let end = find_byte(b, 0, start, b.len() as int);
    if 0 <= start <= end < b.len() {
        Some(Span { start: start as usize, end: end as usize })
    } else {
        None
    }
}

/// Whether a blob is laid out as device trees are: the structure block
/// after the header, and the strings block after the structure block.
pub open spec fn laid_out(b: Seq<u8>) -> bool {
    HEADER_SIZE <= struct_start(b) && struct_limit(b) <= strings_start(b)
}

impl Fdt {
    /// Whether the blob is laid out as device trees are.
    pub fn is_laid_out(&self) -> (r: bool)
        ensures
            r == laid_out(self@),
    {
        HEADER_SIZE <= read_be32(&self.blob, 8) as usize && limit_of(&self.blob) <= read_be32(
            &self.blob,
            12,
        ) as usize
    }

    /// The strings block.
    pub fn strings(&self) -> (r: &[u8])
        ensures
            r@ == strings_of(self@),
    {
        let len = self.blob.len();
        let from = read_be32(&self.blob, 12) as u64;
        let to = from + read_be32(&self.blob, 32) as u64;
        let start = if from <= len as u64 {
            from as usize
        } else {
            len
        };
        let end = if to <= len as u64 {
            to as usize
        } else {
            len
        };
        vstd::slice::slice_subrange(self.blob.as_slice(), start, end)
    }

    /// Where the text lies that starts at `start`.
    pub fn str_from_ptr(&self, start: usize) -> (r: Option<Span>)
        ensures
            r == text_at(self@, start as int),
    {
        if start >= self.blob.len() {
            return None;
        }
        let end = find(&self.blob, 0, start, self.blob.len());
        if end < self.blob.len() {
            Some(Span { start, end })
        } else {
            None
        }
    }

    /// Where the text lies that starts at `offset` in the strings block.
    pub fn get_string(&self, offset: u32) -> (r: Option<Span>)
        ensures
            r == text_at(self@, strings_start(self@) + offset),
    {
        let start = read_be32(&self.blob, 12) as u64 + offset as u64;
        if start >= self.blob.len() as u64 {
            return None;
        }
        self.str_from_ptr(start as usize)
    }

    /// The bytes of a stretch of the blob; nothing for a stretch that does
    /// not lie in it.
    pub fn bytes(&self, span: Span) -> (bytes: Vec<u8>)
        ensures
            bytes@ == if span.start <= span.end <= self@.len() {
                span_bytes(self@, span)
            } else {
                Seq::empty()
            },
    {
        let mut bytes: Vec<u8> = Vec::new();
        if span.start <= span.end && span.end <= self.blob.len() {
            let mut i = span.start;
            while i < span.end
                invariant
                    span.start <= i <= span.end <= self.blob.len(),
                    bytes@ == self@.subrange(span.start as int, i as int),
                decreases span.end - i,
            {
                bytes.push(self.blob[i]);
                assert(self@.subrange(span.start as int, i + 1) =~= self@.subrange(
                    span.start as int,
                    i as int,
                ).push(self@[i as int]));
                i += 1;
            }
        }
        bytes
    }

    /// Walks the structure block and returns a visit for each node, made
    /// at its start, and for each property, in the order of the block. A
    /// tree that is nested deeper than `MAX_DEPTH` is refused.
    pub fn walk(&self) -> (r: Result<Vec<Visit>, FdtError>)
        ensures
            match r {
                Ok(visits) => !walk_of(self@).too_deep && visits_in(self@, visits@) == walk_of(
                    self@,
                ).visits && forall|i: int|
                    0 <= i < visits.len() ==> (#[trigger] visits[i]).valid(self@.len() as int),
                Err(e) => e == FdtError::TooDeep && walk_of(self@).too_deep,
            },
    {
        let mut visits: Vec<Visit> = Vec::new();
        let mut path = Spans::new();
        let mut units = Spans::new();
        let mut pos = read_be32(&self.blob, 8) as usize;
        let ghost b = self@;
        assert(spans_bytes(b, path@) =~= Seq::empty());
        assert(spans_bytes(b, units@) =~= Seq::empty());
        assert(visits_in(b, visits@) =~= Seq::empty());
        assert(visits_in(b, visits@) + walk_of(b).visits =~= walk_of(b).visits);
        loop
            invariant
                b == self@,
                spans_valid(path@, b.len() as int),
                spans_valid(units@, b.len() as int),
                units@.len() == path@.len(),
                forall|i: int| 0 <= i < visits.len() ==> (#[trigger] visits[i]).valid(b.len() as int),
                walk_of(b).too_deep == walk_from(
                    b,
                    None,
                    b,
                    pos as int,
                    spans_bytes(b, path@),
                    spans_bytes(b, units@),
                    0,
                ).too_deep,
                walk_of(b).visits == visits_in(b, visits@) + walk_from(
                    b,
                    None,
                    b,
                    pos as int,
                    spans_bytes(b, path@),
                    spans_bytes(b, units@),
                    0,
                ).visits,
            decreases struct_limit(b) - pos,
        {
            let token = next_token(&self.blob, pos);
            proof {
                lemma_token_bounds(b, pos as int);
            }
            let ghost rest = walk_from(
                b,
                None,
                b,
                pos as int,
                spans_bytes(b, path@),
                spans_bytes(b, units@),
                0,
            );
            match token {
                Token::Stop => {
                    assert(visits_in(b, visits@) + rest.visits =~= visits_in(b, visits@));
                    return Ok(visits);
                },
                Token::Begin { name, name_end, next } => {
                    if path.len() >= MAX_DEPTH {
                        return Err(FdtError::TooDeep);
                    }
                    let (node, unit) = split_name(&self.blob, name, name_end);
                    proof {
                        lemma_spans_push(b, path@, node);
                        lemma_spans_push(b, units@, unit);
                    }
                    path.push(node);
                    units.push(unit);
                    let visit = Visit {
                        path: slice_to_vec(path.as_slice()),
                        unit_addresses: slice_to_vec(units.as_slice()),
                        what: FdtVisit::Node,
                    };
                    proof {
                        lemma_visit_made(
                            b,
                            visits@,
                            visit,
                            walk_from(
                                b,
                                None,
                                b,
                                next as int,
                                spans_bytes(b, path@),
                                spans_bytes(b, units@),
                                0,
                            ).visits,
                        );
                    }
                    visits.push(visit);
                    pos = next;
                },
                Token::End { next } => {
                    if path.len() > 0 {
                        proof {
                            lemma_spans_pop(b, path@);
                            lemma_spans_pop(b, units@);
                        }
                        path.pop();
                        units.pop();
                    }
                    pos = next;
                },
                Token::Prop { len, name_offset, name, name_end, next } => {
                    let visit = Visit {
                        path: slice_to_vec(path.as_slice()),
                        unit_addresses: slice_to_vec(units.as_slice()),
                        what: FdtVisit::Property {
                            name: Span { start: name, end: name_end },
                            prop: Property {
                                offset: pos + 4,
                                address: self.base.wrapping_add((pos + 4) as u64),
                                len,
                                name_offset,
                            },
                        },
                    };
                    proof {
                        lemma_visit_made(
                            b,
                            visits@,
                            visit,
                            walk_from(
                                b,
                                None,
                                b,
                                next as int,
                                spans_bytes(b, path@),
                                spans_bytes(b, units@),
                                0,
                            ).visits,
                        );
                    }
                    visits.push(visit);
                    pos = next;
                },
                Token::Nop { next } => {
                    pos = next;
                },
            }
        }
    }
}

} // verus!
