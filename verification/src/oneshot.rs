//! A one-shot slot: it is written at most once by the sending side and
//! read at most once by the receiving side. A flag tells whether the slot
//! holds a value.
use vstd::prelude::*;

verus! {

/// The slot after a send of `data`: it holds `data`.
pub open spec fn sent<T>(slot: Option<T>, data: T) -> Option<T> {
    Some(data)
}

/// A receive on `slot`: the slot is left empty, and the receiver gets what
/// it held.
pub open spec fn received<T>(slot: Option<T>) -> (Option<T>, Option<T>) {
    (None, slot)
}

pub struct OneShot<T> {
    data: Option<T>,
    state: bool,
}

impl<T> OneShot<T> {
    /// The flag is raised exactly when the slot holds a value.
    #[verifier::type_invariant]
    spec fn inv(self) -> bool {
        self.state == self.data is Some
    }
}

impl<T> View for OneShot<T> {
    type V = Option<T>;

    /// The value waiting in the slot, if any.
    closed spec fn view(&self) -> Option<T> {
        self.data
    }
}

impl<T> OneShot<T> {
    /// An empty slot with its flag down.
    pub fn new() -> (s: Self)
        ensures
            s@ is None,
    {
        OneShot { data: None, state: false }
    }

    /// Whether a value is waiting: the flag.
    pub fn is_ready(&self) -> (b: bool)
        ensures
            b == self@ is Some,
    {
        proof {
            use_type_invariant(self);
        }
        self.state
    }

    /// The sending side: writes `data` into the slot, then raises the flag.
    pub fn send(&mut self, data: T)
        ensures
            final(self)@ == sent(old(self)@, data),
    {
        *self = OneShot { data: Some(data), state: true };
    }

    /// The receiving side: lowers the flag and takes the value out; nothing
    /// when no value was waiting.
    pub fn recv(&mut self) -> (r: Option<T>)
        ensures
            (final(self)@, r) == received(old(self)@),
    {
        proof {
            use_type_invariant(&*self);
        }
        let mut taken = OneShot::new();
        std::mem::swap(self, &mut taken);
        let OneShot { data, state } = taken;
        data
    }
}

} // verus!

verus! {

/// A receive that follows a send hands over exactly the value sent, and
/// leaves the slot empty, so that a second receive gets nothing.
pub proof fn lemma_handoff<T>(slot: Option<T>, data: T)
    ensures
        received(sent(slot, data)) == (None::<T>, Some(data)),
        received(received(sent(slot, data)).0).1 is None,
{
}

} // verus!
