//! Verified single-owner models of three lock-free channel designs: a
//! disruptor-style ring buffer, a one-shot slot and a single-producer
//! single-consumer queue; and, at the root, the skeleton of a channel whose
//! two ends share one store.
use std::sync::Arc;
use vstd::prelude::*;

pub mod disruptor;
pub mod oneshot;
pub mod power_of_two;
pub mod spsc;

verus! {

/// The store that both ends of a channel share.
pub struct Inner<T> {
    store: Vec<T>,
}

impl<T> Inner<T> {
    /// The store is built empty and never grows.
    #[verifier::type_invariant]
    spec fn inv(self) -> bool {
        self.store@.len() == 0
    }
}

impl<T> View for Inner<T> {
    type V = Seq<T>;

    /// The entries in the store.
    closed spec fn view(&self) -> Seq<T> {
        self.store@
    }
}

impl<T> Inner<T> {
    /// A store set up for `capacity` entries: room is reserved, but the
    /// store is fixed at the entries it is built with, which are none.
    pub fn new(capacity: usize) -> (r: Self)
        ensures
            r@.len() == 0,
    {
        let s: Vec<T> = Vec::with_capacity(capacity);
        Inner { store: s }
    }
}

/// Calls `Arc::clone`, which makes another pointer to the same allocation.
#[verifier::external_body]
fn share<T>(inner: &Arc<Inner<T>>) -> (r: Arc<Inner<T>>)
    ensures
        r == *inner,
{
    inner.clone()
}

/// The sending end of a channel.
pub struct Producer<T> {
    inner: Arc<Inner<T>>,
}

impl<T> Producer<T> {
    /// The store this end writes to.
    pub closed spec fn store(&self) -> Seq<T> {
        self.inner@
    }

    /// A sending end over `inner`.
    pub fn new(inner: Arc<Inner<T>>) -> (p: Self)
        ensures
            p.store() == inner@,
    {
        Producer { inner }
    }
}

/// The receiving end of a channel.
pub struct Consumer<T> {
    inner: Arc<Inner<T>>,
}

impl<T> Consumer<T> {
    /// The store this end reads from.
    pub closed spec fn store(&self) -> Seq<T> {
        self.inner@
    }

    /// A receiving end over `inner`.
    pub fn new(inner: Arc<Inner<T>>) -> (c: Self)
        ensures
            c.store() == inner@,
    {
        Consumer { inner }
    }

    /// Takes the next entry out of the store. The store is sized when the
    /// channel is made and holds no entry, so there is never one to take.
    pub fn pop(&mut self) -> (r: Option<T>)
        ensures
            r is None,
            final(self).store() == old(self).store(),
            final(self).store().len() == 0,
    {
        proof {
            use_type_invariant(&*self.inner);
        }
        None
    }
}

/// A channel of `capacity` entries: two ends over one shared, empty store.
pub fn channel<T>(capacity: usize) -> (r: (Producer<T>, Consumer<T>))
    ensures
        r.0.store().len() == 0,
        r.1.store() == r.0.store(),
{
    let inner = Arc::new(Inner::new(capacity));
    (Producer::new(share(&inner)), Consumer::new(inner))
}

} // verus!
