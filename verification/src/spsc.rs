//! A bounded single-producer single-consumer queue over a ring of `CAP`
//! slots, `CAP` a power of two. The producer's position (`tail`) and the
//! consumer's position (`head`) grow without wrapping; a position lands on
//! slot `position & (CAP - 1)`. Each position sits in its own cache line.
use crate::power_of_two::{is_power_of_two, is_power_of_two_usize, lemma_mask_is_slot, slot_of};
use crossbeam_utils::CachePadded;
use vstd::prelude::*;

verus! {

#[verifier::external_type_specification]
#[verifier::external_body]
#[verifier::reject_recursive_types(T)]
pub struct ExCachePadded<T>(CachePadded<T>);

/// The position that a cache-padded cell holds.
pub uninterp spec fn padded_value(cell: CachePadded<usize>) -> usize;

/// Calls `CachePadded::new`, which stores `value` in a cell aligned to a
/// cache line; the cell holds `value`.
#[verifier::external_body]
fn pad(value: usize) -> (cell: CachePadded<usize>)
    ensures
        padded_value(cell) == value,
{
    CachePadded::new(value)
}

/// Reads a cell through `CachePadded`'s `Deref`, which hands out a reference
/// to the value it holds.
#[verifier::external_body]
fn padded_get(cell: &CachePadded<usize>) -> (value: usize)
    ensures
        value == padded_value(*cell),
{
    **cell
}

/// Writes a cell through `CachePadded`'s `DerefMut`, which hands out a
/// mutable reference to the value it holds; afterwards the cell holds `value`.
#[verifier::external_body]
fn padded_set(cell: &mut CachePadded<usize>, value: usize)
    ensures
        padded_value(*final(cell)) == value,
{
    **cell = value;
}

/// The queue after `data` is offered to `items` in a ring of `cap` slots,
/// and what the producer gets back: the data itself when the ring is full.
pub open spec fn offer<T>(items: Seq<T>, cap: nat, data: T) -> (Seq<T>, Option<T>) {
    if items.len() >= cap {
        (items, Some(data))
    } else {
        (items.push(data), None)
    }
}

/// The queue after the consumer asks `items` for its oldest entry, and
/// what it gets: nothing when the queue is empty.
pub open spec fn poll<T>(items: Seq<T>) -> (Seq<T>, Option<T>) {
    if items.len() == 0 {
        (items, None)
    } else {
        (items.drop_first(), Some(items[0]))
    }
}

pub struct SPSC<T, const CAP: usize> {
    data: Vec<Option<T>>,
    head: CachePadded<usize>,
    tail: CachePadded<usize>,
}

impl<T, const CAP: usize> SPSC<T, CAP> {
    /// How many entries the consumer has taken out so far.
    pub closed spec fn received(&self) -> int {
        padded_value(self.head) as int
    }

    /// How many entries the producer has put in so far.
    pub closed spec fn sent(&self) -> int {
        padded_value(self.tail) as int
    }

    /// The consumer is never ahead of the producer, and the producer is at
    /// most a whole ring ahead of the consumer; the queue holds the entries
    /// in between.
    pub open spec fn window(&self) -> bool {
        &&& self.received() <= self.sent() <= self.received() + CAP
        &&& self@.len() == self.sent() - self.received()
    }

    /// The ring has `CAP` slots, `CAP` a power of two; the live entries are
    /// the positions from `head` up to `tail`, and each of them is filled.
    pub closed spec fn wf(&self) -> bool {
        &&& is_power_of_two(CAP as int)
        &&& self.data@.len() == CAP
        &&& self.received() <= self.sent() <= self.received() + CAP
        &&& forall|j: int|
            0 <= j < self.sent() - self.received() ==> (#[trigger] self.data@[slot_of(
                self.received() + j,
                CAP as int,
            )]) is Some
    }
}

impl<T, const CAP: usize> View for SPSC<T, CAP> {
    type V = Seq<T>;

    /// The entries in the queue, oldest first.
    closed spec fn view(&self) -> Seq<T> {
        Seq::new(
            (self.sent() - self.received()) as nat,
            |j: int| self.data@[slot_of(self.received() + j, CAP as int)]->Some_0,
        )
    }
}

/// Two positions less than a ring's size apart land on different slots:
/// the producer, less than a ring ahead of the consumer, never writes over
/// an entry the consumer has yet to take.
pub proof fn lemma_distinct_slots(a: int, b: int, m: int)
    requires
        m > 0,
        a < b < a + m,
    ensures
        slot_of(a, m) != slot_of(b, m),
{
    vstd::arithmetic::div_mod::lemma_fundamental_div_mod(a, m);
    vstd::arithmetic::div_mod::lemma_fundamental_div_mod(b, m);
    let qa = a / m;
    let qb = b / m;
    if a % m == b % m {
        assert(false) by (nonlinear_arith)
            requires
                a == m * qa + a % m,
                b == m * qb + b % m,
                a % m == b % m,
                0 < b - a < m,
                m > 0,
        ;
    }
}

impl<T, const CAP: usize> SPSC<T, CAP> {
    /// Makes an empty queue; fails when `CAP` is not a power of two.
    pub fn new() -> (r: Result<Self, ()>)
        ensures
            r is Ok <==> is_power_of_two(CAP as int),
            r matches Ok(q) ==> q.wf() && q@.len() == 0 && q.sent() == 0 && q.received() == 0,
            r matches Ok(q) ==> q.window(),
    {
        if !is_power_of_two_usize(CAP) {
            return Err(());
        }
        let mut data: Vec<Option<T>> = Vec::new();
        let mut i: usize = 0;
        while i < CAP
            invariant
                data@.len() == i,
                i <= CAP,
            decreases CAP - i,
        {
            data.push(None);
            i = i + 1;
        }
        Ok(SPSC { data, head: pad(0), tail: pad(0) })
    }

    /// How many entries are queued: never more than `CAP`.
    pub fn len(&self) -> (n: usize)
        requires
            self.wf(),
        ensures
            n == self@.len(),
            n <= CAP,
    {
        padded_get(&self.tail) - padded_get(&self.head)
    }

    /// How many entries the producer has put in so far.
    pub fn sent_count(&self) -> (n: usize)
        ensures
            n == self.sent(),
    {
        padded_get(&self.tail)
    }

    /// Puts `data` at the back of the queue; when the queue already holds
    /// `CAP` entries it is full, and `data` comes back untouched.
    pub fn send(&mut self, data: T) -> (r: Option<T>)
        requires
            old(self).wf(),
            old(self)@.len() < CAP ==> old(self).sent() < usize::MAX,
        ensures
            final(self).wf(),
            final(self).window(),
            final(self)@.len() <= CAP,
            (final(self)@, r) == offer(old(self)@, CAP as nat, data),
            old(self)@.len() < CAP ==> r is None && final(self)@ == old(self)@.push(data),
            old(self)@.len() >= CAP ==> r == Some(data) && final(self)@ == old(self)@,
            final(self).received() == old(self).received(),
            final(self).sent() == old(self).sent() + (if r is None { 1int } else { 0 }),
    {
        let tail = padded_get(&self.tail);
        let head = padded_get(&self.head);
        proof {
            lemma_mask_is_slot(tail, CAP);
        }
        let idx = tail & (CAP - 1);
        if tail - head == CAP {
            Some(data)
        } else {
            let ghost old_view = self@;
            self.data.set(idx, Some(data));
            padded_set(&mut self.tail, tail + 1);
            proof {
                assert forall|j: int| 0 <= j < self@.len() implies self@[j] == old_view.push(
                    data,
                )[j] by {
                    if j < tail - head {
                        lemma_distinct_slots(head + j, tail as int, CAP as int);
                    }
                }
                assert forall|j: int| 0 <= j < self.sent() - self.received() implies (
                #[trigger] self.data@[slot_of(self.received() + j, CAP as int)]) is Some by {
                    if j < tail - head {
                        lemma_distinct_slots(head + j, tail as int, CAP as int);
                    }
                }
                assert(self@ =~= old_view.push(data));
            }
            None
        }
    }

    /// Takes the oldest entry out of the queue; nothing when it is empty.
    pub fn recv(&mut self) -> (r: Option<T>)
        requires
            old(self).wf(),
        ensures
            final(self).wf(),
            final(self).window(),
            final(self)@.len() <= CAP,
            (final(self)@, r) == poll(old(self)@),
            old(self)@.len() > 0 ==> r == Some(old(self)@[0]) && final(self)@ == old(self)@.drop_first(),
            old(self)@.len() == 0 ==> r is None && final(self)@ == old(self)@,
            final(self).sent() == old(self).sent(),
            final(self).received() == old(self).received() + (if r is Some { 1int } else { 0 }),
    {
        let head = padded_get(&self.head);
        let tail = padded_get(&self.tail);
        proof {
            lemma_mask_is_slot(head, CAP);
        }
        let idx = head & (CAP - 1);
        if tail - head == 0 {
            None
        } else {
            let ghost old_view = self@;
            let ghost old_data = self.data@;
            let mut cell: Option<T> = None;
            self.data.set_and_swap(idx, &mut cell);
            padded_set(&mut self.head, head + 1);
            proof {
                assert forall|j: int| 0 <= j < self.sent() - self.received() implies (
                #[trigger] self.data@[slot_of(self.received() + j, CAP as int)]) is Some by {
                    lemma_distinct_slots(head as int, head + 1 + j, CAP as int);
                    assert(old_data[slot_of(head + (j + 1), CAP as int)] is Some);
                }
                assert forall|j: int| 0 <= j < self@.len() implies self@[j] == old_view.drop_first()[j] by {
                    lemma_distinct_slots(head as int, head + 1 + j, CAP as int);
                    assert(head + 1 + j == head + (j + 1));
                }
                assert(self@ =~= old_view.drop_first());
            }
            cell
        }
    }
}

} // verus!

verus! {

/// One step taken on a queue: the producer offers a value, or the consumer
/// asks for one.
pub enum Step<T> {
    Send(T),
    Recv,
}

/// Replays `steps` on an empty queue of `cap` slots. Gives the queue that
/// is left, the values the queue accepted, and the values it delivered,
/// each in order.
pub open spec fn replay<T>(steps: Seq<Step<T>>, cap: nat) -> (Seq<T>, Seq<T>, Seq<T>)
    decreases steps.len(),
{
    if steps.len() == 0 {
        (Seq::empty(), Seq::empty(), Seq::empty())
    } else {
        let (items, accepted, delivered) = replay(steps.drop_last(), cap);
        match steps.last() {
            Step::Send(x) => {
                let (next, back) = offer(items, cap, x);
                (next, if back is None { accepted.push(x) } else { accepted }, delivered)
            },
            Step::Recv => {
                let (next, got) = poll(items);
                (next, accepted, if got is Some { delivered.push(got->Some_0) } else { delivered })
            },
        }
    }
}

/// First in, first out: whatever the producer and the consumer do, in
/// whatever order, the values delivered so far followed by those still
/// queued are exactly the values accepted, in the order they were sent;
/// nothing is lost, duplicated or reordered, and the queue never holds
/// more than `cap` values.
pub proof fn lemma_first_in_first_out<T>(steps: Seq<Step<T>>, cap: nat)
    ensures
        ({
            let (items, accepted, delivered) = replay(steps, cap);
            &&& delivered + items == accepted
            &&& items.len() <= cap
        }),
    decreases steps.len(),
{
    if steps.len() > 0 {
        lemma_first_in_first_out(steps.drop_last(), cap);
        let (items, accepted, delivered) = replay(steps.drop_last(), cap);
        match steps.last() {
            Step::Send(x) => {
                if items.len() < cap {
                    assert(delivered + items.push(x) =~= (delivered + items).push(x));
                }
            },
            Step::Recv => {
                if items.len() > 0 {
                    assert(delivered.push(items[0]) + items.drop_first() =~= delivered + items);
                }
            },
        }
    }
}

/// The producer is refused only when the queue is full: offered to a queue
/// of fewer than `cap` values, a value joins the back of the queue and
/// nothing comes back; offered to a full queue, the queue stays as it was
/// and the value itself comes back.
pub proof fn lemma_offer_refuses_only_when_full<T>(items: Seq<T>, cap: nat, x: T)
    ensures
        items.len() < cap ==> offer(items, cap, x).1 is None && offer(items, cap, x).0 == items.push(x),
        items.len() >= cap ==> offer(items, cap, x).1 == Some(x) && offer(items, cap, x).0 == items,
        offer(items, cap, x).0.len() == items.len() + (if items.len() < cap { 1int } else { 0 }),
{
}

/// The consumer gets nothing only from an empty queue: from a queue that
/// holds values it gets the oldest one, and the rest stay queued in order.
pub proof fn lemma_poll_empty_only_when_empty<T>(items: Seq<T>)
    ensures
        items.len() > 0 ==> poll(items).1 == Some(items[0]) && poll(items).0 == items.drop_first(),
        items.len() == 0 ==> poll(items).1 is None && poll(items).0 == items,
        poll(items).1 is None <==> items.len() == 0,
{
}

/// A value offered to an empty queue is the next one delivered.
pub proof fn lemma_send_then_recv<T>(cap: nat, x: T)
    requires
        cap > 0,
    ensures
        poll(offer(Seq::<T>::empty(), cap, x).0) == (Seq::<T>::empty(), Some(x)),
{
    assert(seq![x].drop_first() =~= Seq::<T>::empty());
    assert(Seq::<T>::empty().push(x) =~= seq![x]);
}

} // verus!
