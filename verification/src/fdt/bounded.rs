//! Vectors of a fixed capacity, kept in `ArrayVec`s.

use vstd::prelude::*;
use arrayvec::ArrayVec;
use crate::fdt::meta::{Device, Hart};
use crate::fdt::walk::Span;

verus! {

/// How many items each of the vectors takes.
pub const CAPACITY: usize = 16;

/// At most 16 harts, in an `ArrayVec`.
#[verifier::external_body]
#[derive(Debug)]
pub struct Harts {
    items: ArrayVec<[Hart; 16]>,
}

/// At most 16 devices, in an `ArrayVec`.
#[verifier::external_body]
#[derive(Debug)]
pub struct Devices {
    items: ArrayVec<[Device; 16]>,
}

/// At most 16 stretches of a blob, in an `ArrayVec`.
#[verifier::external_body]
#[derive(Debug)]
pub struct Spans {
    items: ArrayVec<[Span; 16]>,
}

/// The harts that a vector holds, in order.
pub uninterp spec fn hart_items(harts: Harts) -> Seq<Hart>;

/// The devices that a vector holds, in order.
pub uninterp spec fn device_items(devices: Devices) -> Seq<Device>;

/// The stretches that a vector holds, in order.
pub uninterp spec fn span_items(spans: Spans) -> Seq<Span>;

/// `ArrayVec::new`: a vector that holds nothing.
#[verifier::external_body]
fn new_harts() -> (harts: Harts)
    ensures
        hart_items(harts) == Seq::<Hart>::empty(),
{
    Harts { items: ArrayVec::new() }
}

/// `ArrayVec::push`: the vector holds one more item, at its end. It takes
/// no more than 16.
#[verifier::external_body]
fn push_hart(harts: &mut Harts, hart: Hart)
    requires
        hart_items(*old(harts)).len() < CAPACITY,
    ensures
        hart_items(*final(harts)) == hart_items(*old(harts)).push(hart),
{
    harts.items.push(hart)
}

/// `ArrayVec::as_slice`: the items that the vector holds, in order.
#[verifier::external_body]
fn harts_as_slice(harts: &Harts) -> (items: &[Hart])
    ensures
        items@ == hart_items(*harts),
{
    harts.items.as_slice()
}

/// `ArrayVec::new`: a vector that holds nothing.
#[verifier::external_body]
fn new_devices() -> (devices: Devices)
    ensures
        device_items(devices) == Seq::<Device>::empty(),
{
    Devices { items: ArrayVec::new() }
}

/// `ArrayVec::push`: the vector holds one more item, at its end. It takes
/// no more than 16.
#[verifier::external_body]
fn push_device(devices: &mut Devices, device: Device)
    requires
        device_items(*old(devices)).len() < CAPACITY,
    ensures
        device_items(*final(devices)) == device_items(*old(devices)).push(device),
{
    devices.items.push(device)
}

/// `ArrayVec::as_slice`: the items that the vector holds, in order.
#[verifier::external_body]
fn devices_as_slice(devices: &Devices) -> (items: &[Device])
    ensures
        items@ == device_items(*devices),
{
    devices.items.as_slice()
}

/// `ArrayVec::new`: a vector that holds nothing.
#[verifier::external_body]
fn new_spans() -> (spans: Spans)
    ensures
        span_items(spans) == Seq::<Span>::empty(),
{
    Spans { items: ArrayVec::new() }
}

/// `ArrayVec::push`: the vector holds one more item, at its end. It takes
/// no more than 16.
#[verifier::external_body]
fn push_span(spans: &mut Spans, span: Span)
    requires
        span_items(*old(spans)).len() < CAPACITY,
    ensures
        span_items(*final(spans)) == span_items(*old(spans)).push(span),
{
    spans.items.push(span)
}

/// `ArrayVec::pop`: the last item leaves the vector and is returned;
/// `None` for a vector that holds nothing, which stays as it is.
#[verifier::external_body]
fn pop_span(spans: &mut Spans) -> (last: Option<Span>)
    ensures
        span_items(*old(spans)).len() == 0 ==> last is None && span_items(*final(spans))
            == span_items(*old(spans)),
        span_items(*old(spans)).len() > 0 ==> last == Some(span_items(*old(spans)).last())
            && span_items(*final(spans)) == span_items(*old(spans)).drop_last(),
{
    spans.items.pop()
}

/// `ArrayVec::len`: how many items the vector holds, which is never more
/// than its capacity of 16.
#[verifier::external_body]
fn spans_len(spans: &Spans) -> (len: usize)
    ensures
        len == span_items(*spans).len(),
        len <= CAPACITY,
{
    spans.items.len()
}

/// `ArrayVec::as_slice`: the items that the vector holds, in order.
#[verifier::external_body]
fn spans_as_slice(spans: &Spans) -> (items: &[Span])
    ensures
        items@ == span_items(*spans),
{
    spans.items.as_slice()
}

impl View for Harts {
    type V = Seq<Hart>;

    open spec fn view(&self) -> Seq<Hart> {
        hart_items(*self)
    }
}

impl View for Devices {
    type V = Seq<Device>;

    open spec fn view(&self) -> Seq<Device> {
        device_items(*self)
    }
}

impl View for Spans {
    type V = Seq<Span>;

    open spec fn view(&self) -> Seq<Span> {
        span_items(*self)
    }
}

impl Harts {
    /// The harts, in order.
    pub fn as_slice(&self) -> (items: &[Hart])
        ensures
            items@ == self@,
    {
        harts_as_slice(self)
    }

    /// A vector of the harts of a list.
    pub fn from_list(list: &Vec<Hart>) -> (harts: Harts)
        requires
            list.len() <= CAPACITY,
        ensures
            harts@ == list@,
    {
        let mut harts = new_harts();
        let mut i: usize = 0;
        while i < list.len()
            invariant
                i <= list.len() <= CAPACITY,
                hart_items(harts) == list@.take(i as int),
            decreases list.len() - i,
        {
            push_hart(&mut harts, list[i]);
            assert(list@.take(i + 1) =~= list@.take(i as int).push(list[i as int]));
            i += 1;
        }
        assert(list@.take(list.len() as int) =~= list@);
        harts
    }
}

impl Devices {
    /// The devices, in order.
    pub fn as_slice(&self) -> (items: &[Device])
        ensures
            items@ == self@,
    {
        devices_as_slice(self)
    }

    /// A vector of the devices of a list.
    pub fn from_list(list: &Vec<Device>) -> (devices: Devices)
        requires
            list.len() <= CAPACITY,
        ensures
            devices@ == list@,
    {
        let mut devices = new_devices();
        let mut i: usize = 0;
        while i < list.len()
            invariant
                i <= list.len() <= CAPACITY,
                device_items(devices) == list@.take(i as int),
            decreases list.len() - i,
        {
            push_device(&mut devices, list[i]);
            assert(list@.take(i + 1) =~= list@.take(i as int).push(list[i as int]));
            i += 1;
        }
        assert(list@.take(list.len() as int) =~= list@);
        devices
    }
}

impl Spans {
    /// A vector that holds nothing.
    pub fn new() -> (spans: Spans)
        ensures
            spans@ == Seq::<Span>::empty(),
    {
        new_spans()
    }

    /// How many stretches the vector holds.
    pub fn len(&self) -> (len: usize)
        ensures
            len == self@.len(),
            len <= CAPACITY,
    {
        spans_len(self)
    }

    /// Puts a stretch at the end.
    pub fn push(&mut self, span: Span)
        requires
            old(self)@.len() < CAPACITY,
        ensures
            final(self)@ == old(self)@.push(span),
    {
        push_span(self, span)
    }

    /// Takes the last stretch off, if there is one.
    pub fn pop(&mut self) -> (last: Option<Span>)
        ensures
            old(self)@.len() == 0 ==> last is None && final(self)@ == old(self)@,
            old(self)@.len() > 0 ==> last == Some(old(self)@.last()) && final(self)@ == old(
                self,
            )@.drop_last(),
    {
        pop_span(self)
    }

    /// The stretches, in order.
    pub fn as_slice(&self) -> (items: &[Span])
        ensures
            items@ == self@,
    {
        spans_as_slice(self)
    }
}

} // verus!
