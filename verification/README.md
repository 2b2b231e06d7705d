# exhibits

Verified single-owner models of three channel designs, written in Verus:

- `src/disruptor.rs`: a disruptor-style ring buffer. A builder assembles a
  ring of power-of-two size and barriers of event handlers; the producer
  writes into the slot its position masks to, and hands the event back when
  it is a whole ring ahead of the furthest barrier.
- `src/oneshot.rs`: a one-shot slot, written once and read once.
- `src/spsc.rs`: a bounded single-producer single-consumer queue over a
  power-of-two ring, with its positions in cache-padded cells
  (`crossbeam_utils::CachePadded`). `lemma_first_in_first_out` proves that
  values come out in the order they went in, none lost or duplicated.
- `src/power_of_two.rs`: powers of two and the mask-equals-modulo fact the
  rings rely on.
- `src/lib.rs`: a channel skeleton whose two ends share one store.

`app/lib.rs` shares the one-shot slot and the queue between threads behind
a lock, and keeps the disruptor's handler closures beside the library's
barriers; the library makes every decision.
