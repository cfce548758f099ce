# solana_net_core

Low-latency network primitives for Solana, with their behaviour stated in contracts and proved
by Verus.

- `src/` is the library: membership checks for validator keys and trusted IP addresses, and the
  decisions of an AF_XDP zero-copy capture loop (frame recycling, forwarding with backpressure,
  refilling the fill queue).
- `app/` is the code around it: process-wide state, pointers, the AF_XDP socket and the worker
  thread.
- `tests/` runs the library on concrete values.

What the proofs rest on besides Verus and `vstd` are three functions in `src/rings.rs`, which
call the `ringbuf` crate; their doc comments say what is taken from it without proof.

The capture in `app/` needs an `xsk-rs` whose `FrameDesc::set_addr` is public, so that a recycled
frame goes back to the fill queue with its address moved to the start of the frame.
