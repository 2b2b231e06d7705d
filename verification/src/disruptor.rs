//! A disruptor-style ring buffer: one producer writes events into a ring
//! whose size is a power of two, and barriers of handlers follow it. Each
//! party keeps its position in a `Sequence`.
use crate::power_of_two::{
    is_power_of_two,
    lemma_mask_below,
    lemma_mask_is_slot,
    masked_slot,
    slot_of,
};
use vstd::prelude::*;

verus! {

/// A position in the ring: how many events a party has gone past.
pub struct Sequence {
    seq: usize,
}

impl View for Sequence {
    type V = usize;

    closed spec fn view(&self) -> usize {
        self.seq
    }
}

impl Sequence {
    /// A sequence at position zero.
    pub fn new() -> (s: Self)
        ensures
            s@ == 0,
    {
        Sequence { seq: 0 }
    }

    /// Reads the position: with a single owner, the last value set.
    pub fn get(&self) -> (v: usize)
        ensures
            v == self@,
    {
        self.seq
    }

    /// Moves the position to `val`.
    pub fn set(&mut self, val: usize)
        ensures
            final(self)@ == val,
    {
        self.seq = val;
    }
}

/// The kind of an event handler: one that reads events, or one that
/// changes them in place.
#[derive(PartialEq, Eq, Structural)]
pub enum Handler {
    Read,
    Write,
}

/// A barrier may hold one handler of any kind, or any number of readers;
/// a handler that changes events may not share its barrier.
pub open spec fn valid_handlers(handlers: Seq<Handler>) -> bool {
    handlers.len() == 1 || forall|i: int| 0 <= i < handlers.len() ==> handlers[i] is Read
}

/// A group of handlers that follow the producer together, with the
/// position they have reached.
pub struct Barrier {
    handlers: Vec<Handler>,
    seq: Sequence,
}

impl Barrier {
    /// The kinds of the handlers registered so far, in order.
    pub closed spec fn handlers(&self) -> Seq<Handler> {
        self.handlers@
    }

    /// The position the barrier has reached.
    pub closed spec fn position(&self) -> usize {
        self.seq@
    }

    /// A barrier with no handler, at position zero.
    pub open spec fn is_fresh(&self) -> bool {
        self.handlers().len() == 0 && self.position() == 0
    }

    /// A barrier with no handler, at position zero.
    pub fn new() -> (b: Self)
        ensures
            b.is_fresh(),
    {
        Barrier { handlers: Vec::new(), seq: Sequence::new() }
    }

    /// Appends a handler of kind `kind`.
    fn register(&mut self, kind: Handler)
        ensures
            final(self).handlers() == old(self).handlers().push(kind),
            final(self).position() == old(self).position(),
    {
        self.handlers.push(kind);
    }

    /// Registers a handler that reads events.
    pub fn handle_event(&mut self) -> (r: &mut Self)
        ensures
            r.handlers() == old(self).handlers().push(Handler::Read),
            r.position() == old(self).position(),
            *final(self) == *final(r),
    {
        self.register(Handler::Read);
        self
    }

    /// Registers a handler that changes events in place.
    pub fn handle_event_mut(&mut self) -> (r: &mut Self)
        ensures
            r.handlers() == old(self).handlers().push(Handler::Write),
            r.position() == old(self).position(),
            *final(self) == *final(r),
    {
        self.register(Handler::Write);
        self
    }

    /// Whether the barrier's handlers may run together.
    pub fn is_valid(&self) -> (b: bool)
        ensures
            b == valid_handlers(self.handlers()),
    {
        if self.handlers.len() == 1 {
            return true;
        }
        let mut i: usize = 0;
        while i < self.handlers.len()
            invariant
                i <= self.handlers@.len(),
                self.handlers@.len() != 1,
                forall|j: int| 0 <= j < i ==> self.handlers@[j] is Read,
            decreases self.handlers@.len() - i,
        {
            match self.handlers[i] {
                Handler::Read => {},
                Handler::Write => {
                    assert(!(self.handlers()[i as int] is Read));
                    return false;
                },
            }
            i = i + 1;
        }
        true
    }
}

/// The highest position among `barriers` (zero when there is none).
pub open spec fn highest_position(barriers: Seq<Barrier>) -> usize
    decreases barriers.len(),
{
    if barriers.len() == 0 {
        0
    } else {
        let rest = highest_position(barriers.drop_last());
        let last = barriers.last().position();
        if barriers.len() == 1 || last > rest {
            last
        } else {
            rest
        }
    }
}

/// The ring of slots that events are written into.
pub struct RingBuffer<T> {
    slots: Vec<Option<T>>,
}

impl<T> RingBuffer<T> {
    /// The number of slots.
    pub closed spec fn capacity(&self) -> usize {
        self.slots.len()
    }
}

impl<T> View for RingBuffer<T> {
    type V = Seq<Option<T>>;

    /// What each slot holds: the event last written there, if any.
    closed spec fn view(&self) -> Seq<Option<T>> {
        self.slots@
    }
}

impl<T> RingBuffer<T> {
    /// A ring of `capacity` empty slots.
    pub fn new(capacity: usize) -> (r: Self)
        ensures
            r.capacity() == capacity,
            r@ == Seq::new(capacity as nat, |i: int| None::<T>),
    {
        let mut slots: Vec<Option<T>> = Vec::new();
        let mut i: usize = 0;
        while i < capacity
            invariant
                i <= capacity,
                slots@ == Seq::new(i as nat, |k: int| None::<T>),
            decreases capacity - i,
        {
            slots.push(None);
            i = i + 1;
        }
        RingBuffer { slots }
    }

    /// The number of slots.
    pub fn size(&self) -> (n: usize)
        ensures
            n == self.capacity(),
            n == self@.len(),
    {
        self.slots.len()
    }

    /// The event in slot `idx`, if one has been written there.
    pub fn get(&self, idx: usize) -> (r: Option<&T>)
        ensures
            r == (if idx < self@.len() && self@[idx as int] is Some {
                Some(&self@[idx as int]->Some_0)
            } else {
                None
            }),
    {
        if idx < self.slots.len() {
            match &self.slots[idx] {
                Some(v) => Some(v),
                None => None,
            }
        } else {
            None
        }
    }

    /// Writes `data` into slot `idx`.
    pub fn set(&mut self, idx: usize, data: T)
        requires
            idx < old(self)@.len(),
        ensures
            final(self)@ == old(self)@.update(idx as int, Some(data)),
            final(self).capacity() == old(self).capacity(),
    {
        self.slots.set(idx, Some(data));
    }
}

/// The single writer of events.
pub struct Producer<'a, T> {
    /// The ring the producer writes into.
    pub rb: &'a mut RingBuffer<T>,
    /// The barriers that follow the producer.
    pub barriers: &'a Vec<Barrier>,
    /// The producer's own position.
    pub seq: Sequence,
}

impl<'a, T> Producer<'a, T> {
    /// The ring as the producer sees it now.
    pub closed spec fn ring(&self) -> RingBuffer<T> {
        *self.rb
    }

    /// The barriers that follow the producer.
    pub closed spec fn barriers(&self) -> Seq<Barrier> {
        self.barriers@
    }

    /// The producer's own position.
    pub closed spec fn position(&self) -> usize {
        self.seq@
    }

    /// A producer at position zero that writes into `rb`.
    pub fn new(rb: &'a mut RingBuffer<T>, barriers: &'a Vec<Barrier>) -> (p: Self)
        ensures
            p.ring() == *old(rb),
            *final(p.rb) == *final(rb),
            p.barriers() == barriers@,
            p.position() == 0,
    {
        Producer { rb, barriers, seq: Sequence::new() }
    }

    /// Offers `data` to the ring. When the producer is a whole ring ahead
    /// of the furthest barrier the ring is full and `data` comes back;
    /// otherwise it is written into the slot that the producer's position
    /// masks to.
    pub fn send(&mut self, data: T) -> (r: Option<T>)
        requires
            old(self).barriers().len() > 0,
            highest_position(old(self).barriers()) <= old(self).position(),
            old(self).ring().capacity() > 0 || old(self).position() == highest_position(
                old(self).barriers(),
            ),
        ensures
            ({
                let tail = old(self).position();
                let size = old(self).ring().capacity();
                let full = tail - highest_position(old(self).barriers()) == size;
                &&& r == (if full { Some(data) } else { None })
                &&& final(self).ring()@ == (if full {
                    old(self).ring()@
                } else {
                    old(self).ring()@.update(masked_slot(tail, size) as int, Some(data))
                })
                &&& is_power_of_two(size as int) ==> masked_slot(tail, size) == slot_of(
                    tail as int,
                    size as int,
                )
            }),
            final(self).ring().capacity() == old(self).ring().capacity(),
            *final(final(self).rb) == *final(old(self).rb),
            final(self).barriers() == old(self).barriers(),
            final(self).position() == old(self).position(),
    {
        let tail = self.seq.get();
        let max_consumer = self.highest_barrier();
        let size = self.rb.size();
        proof {
            if is_power_of_two(size as int) {
                lemma_mask_is_slot(tail, size);
            }
            if size == 0 {
                assert(tail - max_consumer == size);
            }
        }
        if tail - max_consumer == size {
            Some(data)
        } else {
            let idx = tail & (size - 1);
            proof {
                lemma_mask_below(tail, size);
            }
            self.rb.set(idx, data);
            None
        }
    }

    /// The highest position among the barriers.
    fn highest_barrier(&self) -> (m: usize)
        requires
            self.barriers().len() > 0,
        ensures
            m == highest_position(self.barriers()),
    {
        let mut m: usize = self.barriers[0].seq.get();
        let mut i: usize = 1;
        proof {
            assert(self.barriers@.take(1).drop_last() =~= Seq::<Barrier>::empty());
        }
        while i < self.barriers.len()
            invariant
                1 <= i <= self.barriers@.len(),
                m == highest_position(self.barriers@.take(i as int)),
            decreases self.barriers@.len() - i,
        {
            let s = self.barriers[i].seq.get();
            proof {
                assert(self.barriers@.take(i + 1).drop_last() =~= self.barriers@.take(i as int));
            }
            if s > m {
                m = s;
            }
            i = i + 1;
        }
        proof {
            assert(self.barriers@.take(i as int) =~= self.barriers@);
        }
        m
    }
}

/// Runs the barriers' handlers over the events.
pub struct Executor<'a> {
    barriers: &'a Vec<Barrier>,
}

impl<'a> Executor<'a> {
    /// The barriers the executor runs.
    pub closed spec fn barriers(&self) -> Seq<Barrier> {
        self.barriers@
    }

    /// An executor for `barriers`.
    pub fn new(barriers: &'a Vec<Barrier>) -> (e: Self)
        ensures
            e.barriers() == barriers@,
    {
        Executor { barriers }
    }
}

/// Assembles a ring and its barriers.
pub struct DisruptorBuilder<T> {
    data: RingBuffer<T>,
    producer_seq: Sequence,
    barriers: Vec<Barrier>,
}

impl<T> DisruptorBuilder<T> {
    /// The ring being assembled.
    pub closed spec fn ring(&self) -> RingBuffer<T> {
        self.data
    }

    /// The barriers added so far, in order.
    pub closed spec fn barriers(&self) -> Seq<Barrier> {
        self.barriers@
    }

    /// The position kept for the producer.
    pub closed spec fn producer_position(&self) -> usize {
        self.producer_seq@
    }
}

impl<T: Send + Sync + 'static> DisruptorBuilder<T> {
    /// A builder for a ring of `capacity` empty slots, with no barrier;
    /// `capacity` must be a power of two.
    pub fn new(capacity: usize) -> (b: Self)
        requires
            is_power_of_two(capacity as int),
        ensures
            b.ring().capacity() == capacity,
            b.ring()@ == Seq::new(capacity as nat, |i: int| None::<T>),
            b.barriers().len() == 0,
            b.producer_position() == 0,
    {
        DisruptorBuilder {
            data: RingBuffer::new(capacity),
            producer_seq: Sequence::new(),
            barriers: Vec::new(),
        }
    }

    /// Adds a barrier: a fresh one, handed to `f` to register its handlers.
    /// A handler that changes events must be alone in its barrier, so `f`
    /// must leave the barrier valid.
    pub fn with_barrier<F>(self, f: F) -> (b: Self) where F: FnOnce(&mut Barrier)
        requires
            forall|barrier: &mut Barrier| f.requires((barrier,)),
            forall|barrier: &mut Barrier|
                (*barrier).is_fresh() && f.ensures((barrier,), ()) ==> valid_handlers(
                    (*final(barrier)).handlers(),
                ),
        ensures
            b.ring() == self.ring(),
            b.producer_position() == self.producer_position(),
            valid_handlers(b.barriers().last().handlers()),
            b.barriers().len() == self.barriers().len() + 1,
            b.barriers().drop_last() == self.barriers(),
            exists|barrier: &mut Barrier|
                {
                    &&& (*barrier).is_fresh()
                    &&& f.ensures((barrier,), ())
                    &&& *final(barrier) == b.barriers().last()
                },
    {
        let mut builder = self;
        let mut barrier = Barrier::new();
        f(&mut barrier);
        builder.barriers.push(barrier);
        builder
    }

    /// Hands out the executor and the producer, both following the
    /// barriers; the producer writes into the builder's ring.
    pub fn build<'a>(&'a mut self) -> (r: (Executor<'a>, Producer<'a, T>))
        ensures
            r.0.barriers() == old(self).barriers(),
            r.1.barriers() == old(self).barriers(),
            r.1.ring() == old(self).ring(),
            *final(r.1.rb) == final(self).ring(),
            r.1.position() == 0,
            final(self).barriers() == old(self).barriers(),
            final(self).producer_position() == old(self).producer_position(),
    {
        let executor = Executor::new(&self.barriers);
        let producer = Producer::new(&mut self.data, &self.barriers);
        (executor, producer)
    }
}

} // verus!

verus! {

/// Readers may share a barrier: a barrier whose handlers all read events is
/// valid, and stays valid when another reader joins it.
pub proof fn lemma_readers_share(handlers: Seq<Handler>)
    requires
        forall|i: int| 0 <= i < handlers.len() ==> handlers[i] is Read,
    ensures
        valid_handlers(handlers),
        valid_handlers(handlers.push(Handler::Read)),
{
}

/// `highest_position` is the furthest position any barrier has reached: no
/// barrier is beyond it, and, when there is a barrier, one of them stands
/// exactly at it. With every barrier at position zero it is zero, whatever
/// handlers the barriers hold.
pub proof fn lemma_highest_is_furthest_barrier(barriers: Seq<Barrier>)
    ensures
        forall|i: int|
            0 <= i < barriers.len() ==> #[trigger] barriers[i].position() <= highest_position(
                barriers,
            ),
        barriers.len() > 0 ==> exists|i: int|
            0 <= i < barriers.len() && #[trigger] barriers[i].position() == highest_position(
                barriers,
            ),
        (forall|i: int| 0 <= i < barriers.len() ==> #[trigger] barriers[i].position() == 0)
            ==> highest_position(barriers) == 0,
    decreases barriers.len(),
{
    if barriers.len() > 0 {
        let rest = barriers.drop_last();
        lemma_highest_is_furthest_barrier(rest);
        assert forall|i: int| 0 <= i < barriers.len() implies #[trigger] barriers[i].position()
            <= highest_position(barriers) by {
            if i < rest.len() {
                assert(rest[i] == barriers[i]);
            }
        }
        if barriers.len() > 1 && barriers.last().position() <= highest_position(rest) {
            let j = choose|j: int| 0 <= j < rest.len() && #[trigger] rest[j].position()
                == highest_position(rest);
            assert(barriers[j] == rest[j]);
        } else {
            assert(barriers[barriers.len() - 1] == barriers.last());
        }
        if forall|i: int| 0 <= i < barriers.len() ==> #[trigger] barriers[i].position() == 0 {
            assert forall|i: int| 0 <= i < rest.len() implies #[trigger] rest[i].position()
                == 0 by {
                assert(rest[i] == barriers[i]);
            }
            assert(barriers[barriers.len() - 1] == barriers.last());
        }
    }
}

/// A barrier that holds a single handler is valid, whatever its kind.
pub proof fn lemma_single_handler(handler: Handler)
    ensures
        valid_handlers(seq![handler]),
{
}

/// A handler that changes events must be alone in its barrier: a barrier
/// that holds one next to any other handler is not valid, and no handler
/// added later makes it valid again.
pub proof fn lemma_mutator_must_be_alone(handlers: Seq<Handler>, i: int, added: Handler)
    requires
        0 <= i < handlers.len(),
        handlers[i] is Write,
        handlers.len() >= 2,
    ensures
        !valid_handlers(handlers),
        !valid_handlers(handlers.push(added)),
{
    assert(handlers.push(added)[i] == handlers[i]);
}

} // verus!
