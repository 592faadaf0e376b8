use vstd::prelude::*;
use ringbuf::{Consumer, Producer, RingBuffer};

verus! {

/// `ringbuf::RingBuffer`: a bounded ring that has not been split into its ends
/// yet.
#[verifier::external_type_specification]
#[verifier::external_body]
#[verifier::reject_recursive_types(T)]
pub struct ExRingBuffer<T: Sized>(RingBuffer<T>);

/// `ringbuf::Producer`: the end of a ring that items go in at.
#[verifier::external_type_specification]
#[verifier::external_body]
#[verifier::reject_recursive_types(T)]
pub struct ExProducer<T>(Producer<T>);

/// `ringbuf::Consumer`: the end of a ring that items come out at.
#[verifier::external_type_specification]
#[verifier::external_body]
#[verifier::reject_recursive_types(T)]
pub struct ExConsumer<T>(Consumer<T>);

/// The number of items that a ring was made to hold.
pub uninterp spec fn ring_capacity(ring: RingBuffer<u32>) -> nat;

/// A number of free slots that the producing end may count on. The consuming
/// end, which may run on another thread, only ever frees more.
pub uninterp spec fn producer_room(producer: Producer<u32>) -> nat;

/// Everything that went into the ring through this producing end, oldest first.
pub uninterp spec fn producer_pushed(producer: Producer<u32>) -> Seq<u32>;

/// `RingBuffer::new`: a ring made to hold `capacity` items. It allocates one
/// slot more than that, of four bytes each, which has to fit the address space.
#[verifier::external_body]
fn ring_new(capacity: usize) -> (ring: RingBuffer<u32>)
    requires
        (capacity + 1) * 4 <= isize::MAX,
    ensures
        ring_capacity(ring) == capacity,
{
    RingBuffer::new(capacity)
}

/// `RingBuffer::split`: the two ends of the ring. A ring that has not been
/// split is empty, so the producing end has the whole capacity before it and
/// has pushed nothing.
#[verifier::external_body]
fn ring_split(ring: RingBuffer<u32>) -> (ends: (Producer<u32>, Consumer<u32>))
    ensures
        producer_room(ends.0) == ring_capacity(ring),
        producer_pushed(ends.0) == Seq::<u32>::empty(),
{
    ring.split()
}

/// `Producer::push`: appends `sample` unless the ring is full, and says whether
/// it did. With a slot to count on it does. What went in takes one of the slots
/// counted on; what did not changes nothing.
#[verifier::external_body]
fn producer_push(producer: &mut Producer<u32>, sample: u32) -> (pushed: bool)
    ensures
        producer_room(*old(producer)) > 0 ==> pushed,
        pushed ==> producer_pushed(*final(producer)) == producer_pushed(*old(producer)).push(sample),
        pushed ==> producer_room(*final(producer)) == if producer_room(*old(producer)) > 0 {
            (producer_room(*old(producer)) - 1) as nat
        } else {
            0
        },
        !pushed ==> producer_pushed(*final(producer)) == producer_pushed(*old(producer)),
        !pushed ==> producer_room(*final(producer)) == producer_room(*old(producer)),
{
    producer.push(sample).is_ok()
}

/// `Consumer::pop`: the oldest item, if the ring holds one. What it holds
/// depends on the producing end, so nothing is said of the result.
#[verifier::external_body]
fn consumer_pop(consumer: &mut Consumer<u32>) -> (sample: Option<u32>)
{
    consumer.pop()
}

/// The delay, in milliseconds, between a sample's arrival and its playing.
pub const LATENCY_MS: u32 = 20;

/// The bit pattern of a silent sample.
pub const SILENCE: u32 = 0;

/// Samples that arrive during the latency: the frames of `LATENCY_MS`
/// milliseconds, rounded down, times the channels.
pub open spec fn spec_latency_samples(sample_rate: u32, channels: u32) -> int {
    (sample_rate * LATENCY_MS / 1000) * channels
}

/// Whether a ring for this rate and channel count fits the address space.
pub open spec fn ring_fits(sample_rate: u32, channels: u32) -> bool {
    (2 * spec_latency_samples(sample_rate, channels) + 1) * 4 <= isize::MAX
}

/// Samples that arrive during the latency.
pub fn latency_samples(sample_rate: u32, channels: u32) -> (r: u64)
    ensures
        r == spec_latency_samples(sample_rate, channels),
{
    assert(sample_rate * LATENCY_MS <= 85_899_345_900) by (nonlinear_arith)
        requires
            sample_rate <= 0xFFFF_FFFF,
            LATENCY_MS == 20,
    ;
    let millis: u64 = (sample_rate as u64) * (LATENCY_MS as u64);
    let frames: u64 = millis / 1000;
    assert(frames <= 85_899_345);
    assert(frames * channels <= 85_899_345 * 0xFFFF_FFFF) by (nonlinear_arith)
        requires
            frames <= 85_899_345,
            channels <= 0xFFFF_FFFF,
    ;
    frames * (channels as u64)
}

/// The end of the ring that the input side pushes into.
pub struct RingInput {
    producer: Producer<u32>,
}

/// The end of the ring that the output side pops from.
pub struct RingOutput {
    consumer: Consumer<u32>,
}

impl RingInput {
    /// Free slots that a push may count on.
    pub closed spec fn room(&self) -> nat {
        producer_room(self.producer)
    }

    /// Everything pushed so far, oldest first.
    pub closed spec fn pushed(&self) -> Seq<u32> {
        producer_pushed(self.producer)
    }

    /// Pushes one sample. With the ring full the sample is dropped. Says whether
    /// the sample went in.
    pub fn push(&mut self, sample: u32) -> (r: bool)
        ensures
            old(self).room() > 0 ==> r,
            r ==> final(self).pushed() == old(self).pushed().push(sample),
            r ==> final(self).room() == if old(self).room() > 0 {
                (old(self).room() - 1) as nat
            } else {
                0
            },
            !r ==> final(self).pushed() == old(self).pushed() && final(self).room() == old(self).room(),
    {
        producer_push(&mut self.producer, sample)
    }
}

impl RingOutput {
    /// Pops the oldest sample, if the ring holds one.
    pub fn pop(&mut self) -> (r: Option<u32>)
    {
        consumer_pop(&mut self.consumer)
    }
}

/// The ring between the input side and the output side: made to hold twice the
/// samples of the latency, and holding that many silent samples once over, so
/// that the output side has something to pop before the input side has pushed.
/// Nothing where such a ring does not fit the address space.
pub fn latency_ring(sample_rate: u32, channels: u32) -> (r: Option<(RingInput, RingOutput)>)
    ensures
        r.is_some() == ring_fits(sample_rate, channels),
        r.is_some() ==> r.unwrap().0.pushed() == Seq::new(
            spec_latency_samples(sample_rate, channels) as nat,
            |i: int| SILENCE,
        ),
        r.is_some() ==> r.unwrap().0.room() == spec_latency_samples(sample_rate, channels),
        r.is_some() ==> r.unwrap().0.room() + r.unwrap().0.pushed().len() == 2 * spec_latency_samples(
            sample_rate,
            channels,
        ),
{
    let latency: u64 = latency_samples(sample_rate, channels);
    if latency > (isize::MAX as u64 / 4 - 1) / 2 {
        return None;
    }
    let latency: usize = latency as usize;
    let ring = ring_new(latency * 2);
    let (producer, consumer) = ring_split(ring);
    let mut input = RingInput { producer };
    let mut filled: usize = 0;
    while filled < latency
        invariant
            filled <= latency,
            input.room() == 2 * latency - filled,
            input.pushed() == Seq::new(filled as nat, |i: int| SILENCE),
        decreases latency - filled,
    {
        input.push(SILENCE);
        filled += 1;
        assert(input.pushed() =~= Seq::new(filled as nat, |i: int| SILENCE));
    }
    Some((input, RingOutput { consumer }))
}

} // verus!
