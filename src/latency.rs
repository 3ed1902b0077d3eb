use ringbuf::{Consumer, Producer, RingBuffer};
use vstd::prelude::*;

verus! {

/// The writing half of a ringbuf ring buffer.
#[verifier::external_type_specification]
#[verifier::external_body]
#[verifier::reject_recursive_types(T)]
pub struct ExProducer<T>(Producer<T>);

/// The reading half of a ringbuf ring buffer.
#[verifier::external_type_specification]
#[verifier::external_body]
#[verifier::reject_recursive_types(T)]
pub struct ExConsumer<T>(Consumer<T>);

/// The samples held by a ring buffer's two halves, oldest first.
pub uninterp spec fn ring_contents(b: LatencyBuffer) -> Seq<u32>;

/// The number of samples the ring buffer was made to hold.
pub uninterp spec fn ring_capacity(b: LatencyBuffer) -> nat;

/// The queue after offering `x` to a buffer of capacity `cap`: kept when
/// there is room, dropped otherwise.
pub open spec fn push_model(q: Seq<u32>, cap: nat, x: u32) -> Seq<u32> {
    if q.len() < cap {
        q.push(x)
    } else {
        q
    }
}

/// What a pop returns and the queue it leaves: the oldest sample, or
/// silence with the queue untouched when it is empty.
pub open spec fn pop_model(q: Seq<u32>) -> (u32, Seq<u32>) {
    if q.len() == 0 {
        (0u32, q)
    } else {
        (q[0], q.drop_first())
    }
}

/// `n` samples of silence.
pub open spec fn silence(n: nat) -> Seq<u32> {
    Seq::new(n, |i: int| 0u32)
}

/// The values popped when each of `xs` is pushed and then one sample popped.
pub open spec fn push_pop_run(q: Seq<u32>, cap: nat, xs: Seq<u32>) -> Seq<u32>
    decreases xs.len(),
{
    if xs.len() == 0 {
        Seq::empty()
    } else {
        let (out, rest) = pop_model(push_model(q, cap, xs[0]));
        seq![out] + push_pop_run(rest, cap, xs.drop_first())
    }
}

/// The queue after each of `xs` is pushed in turn, with no pop between.
pub open spec fn push_all(q: Seq<u32>, cap: nat, xs: Seq<u32>) -> Seq<u32>
    decreases xs.len(),
{
    if xs.len() == 0 {
        q
    } else {
        push_all(push_model(q, cap, xs[0]), cap, xs.drop_first())
    }
}

/// A fixed-capacity queue of samples, pre-filled with silence to delay the
/// signal that runs through it.
pub struct LatencyBuffer {
    prod: Producer<u32>,
    cons: Consumer<u32>,
}

impl View for LatencyBuffer {
    type V = Seq<u32>;

    open spec fn view(&self) -> Seq<u32> {
        ring_contents(*self)
    }
}

/// Relies on ringbuf::RingBuffer::new and RingBuffer::split: a buffer made
/// with a capacity holds nothing and takes that many items.
#[verifier::external_body]
fn open_ring(capacity: usize) -> (r: LatencyBuffer)
    requires
        capacity < usize::MAX,
    ensures
        ring_contents(r) == Seq::<u32>::empty(),
        ring_capacity(r) == capacity,
{
    let (prod, cons) = RingBuffer::new(capacity).split();
    LatencyBuffer { prod, cons }
}

/// Relies on ringbuf::Producer::push: the item is appended when the buffer
/// holds fewer items than its capacity, and handed back otherwise.
#[verifier::external_body]
fn ring_push(b: &mut LatencyBuffer, sample: u32) -> (r: bool)
    ensures
        ring_capacity(*final(b)) == ring_capacity(*old(b)),
        r == (ring_contents(*old(b)).len() < ring_capacity(*old(b))),
        ring_contents(*final(b)) == if r {
            ring_contents(*old(b)).push(sample)
        } else {
            ring_contents(*old(b))
        },
{
    b.prod.push(sample).is_ok()
}

/// Relies on ringbuf::Consumer::pop: the oldest item is removed and
/// returned, or `None` when the buffer is empty.
#[verifier::external_body]
fn ring_pop(b: &mut LatencyBuffer) -> (r: Option<u32>)
    ensures
        ring_capacity(*final(b)) == ring_capacity(*old(b)),
        ring_contents(*old(b)).len() == 0 ==> r.is_none() && ring_contents(*final(b))
            == ring_contents(*old(b)),
        ring_contents(*old(b)).len() > 0 ==> r == Some(ring_contents(*old(b))[0])
            && ring_contents(*final(b)) == ring_contents(*old(b)).drop_first(),
{
    b.cons.pop()
}

impl LatencyBuffer {
    pub open spec fn capacity(&self) -> nat {
        ring_capacity(*self)
    }

    /// A buffer of capacity `2 * latency_samples` holding `latency_samples`
    /// samples of silence.
    pub fn new(latency_samples: usize) -> (r: LatencyBuffer)
        requires
            latency_samples <= (usize::MAX - 1) / 2,
        ensures
            r@ == silence(latency_samples as nat),
            r.capacity() == 2 * latency_samples,
    {
        let mut b = open_ring(latency_samples * 2);
        let mut i: usize = 0;
        while i < latency_samples
            invariant
                i <= latency_samples,
                b.capacity() == 2 * latency_samples,
                b@ == silence(i as nat),
            decreases latency_samples - i,
        {
            ring_push(&mut b, 0);
            assert(b@ =~= silence((i + 1) as nat));
            i = i + 1;
        }
        b
    }

    /// Offers a sample; it is dropped when the buffer is full.
    /// Returns whether it was kept.
    pub fn push(&mut self, sample: u32) -> (r: bool)
        ensures
            final(self).capacity() == old(self).capacity(),
            final(self)@ == push_model(old(self)@, old(self).capacity(), sample),
            r == (old(self)@.len() < old(self).capacity()),
    {
        ring_push(self, sample)
    }

    /// Takes the oldest sample, or silence when the buffer is empty.
    pub fn pop(&mut self) -> (r: u32)
        ensures
            final(self).capacity() == old(self).capacity(),
            (r, final(self)@) == pop_model(old(self)@),
    {
        match ring_pop(self) {
            Some(s) => s,
            None => 0,
        }
    }

    /// The producer and consumer halves, to be driven from two threads.
    pub fn split(self) -> (r: (Producer<u32>, Consumer<u32>)) {
        (self.prod, self.cons)
    }
}

/// Pushing one sample and then popping one, over a queue with room to spare,
/// returns the samples in order behind whatever the queue held first.
proof fn lemma_push_pop_run(q: Seq<u32>, cap: nat, xs: Seq<u32>)
    requires
        q.len() < cap,
    ensures
        push_pop_run(q, cap, xs) == (q + xs).take(xs.len() as int),
    decreases xs.len(),
{
    if xs.len() > 0 {
        let q1 = q.push(xs[0]);
        let rest = q1.drop_first();
        lemma_push_pop_run(rest, cap, xs.drop_first());
        assert(rest + xs.drop_first() =~= (q + xs).drop_first());
        assert(push_pop_run(q, cap, xs) =~= (q + xs).take(xs.len() as int));
    }
}

/// A buffer made for `latency` samples of delay, with each sample pushed and
/// then one popped, returns `latency` samples of silence followed by the
/// pushed samples in order.
pub proof fn lemma_latency_offset(latency: nat, xs: Seq<u32>)
    requires
        latency > 0,
    ensures
        push_pop_run(silence(latency), 2 * latency, xs) == (silence(latency) + xs).take(
            xs.len() as int,
        ),
        forall|i: int|
            0 <= i < xs.len() ==> #[trigger] push_pop_run(silence(latency), 2 * latency, xs)[i]
                == if i < latency {
                0u32
            } else {
                xs[i - latency]
            },
{
    lemma_push_pop_run(silence(latency), 2 * latency, xs);
}

/// Pushing without popping keeps what was held and the first samples that
/// fit, and drops the rest.
pub proof fn lemma_overflow_drops_excess(q: Seq<u32>, cap: nat, xs: Seq<u32>)
    requires
        q.len() <= cap,
    ensures
        push_all(q, cap, xs) == (q + xs).take(
            if q.len() + xs.len() < cap {
                (q.len() + xs.len()) as int
            } else {
                cap as int
            },
        ),
        push_all(q, cap, xs).take(q.len() as int) == q,
    decreases xs.len(),
{
    if xs.len() > 0 {
        let q1 = push_model(q, cap, xs[0]);
        lemma_overflow_drops_excess(q1, cap, xs.drop_first());
        if q.len() < cap {
            assert(q1 + xs.drop_first() =~= q + xs);
        } else {
            assert((q + xs.drop_first()).take(cap as int) =~= q);
            assert((q + xs).take(cap as int) =~= q);
        }
    }
    assert(push_all(q, cap, xs).take(q.len() as int) =~= q);
}

/// Popping an empty buffer returns silence and leaves it empty, so a sample
/// pushed afterwards is the next one popped.
pub proof fn lemma_underflow(q: Seq<u32>, cap: nat, x: u32)
    requires
        q.len() == 0,
        cap > 0,
    ensures
        pop_model(q) == (0u32, q),
        pop_model(push_model(pop_model(q).1, cap, x)) == (x, Seq::<u32>::empty()),
{
    assert(q.push(x).drop_first() =~= Seq::<u32>::empty());
}

} // verus!
