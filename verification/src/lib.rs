//! A user-space TCP core: the per-connection state machine for the
//! three-way handshake and the closing handshake, a send path with
//! sliding-window flow control and a retransmission queue, a receive path
//! that reassembles out-of-order segments into a contiguous buffer, a
//! registry keyed by four-tuple, and the single-cell event mailbox that
//! coordinates blocking callers with the receive and timer workers. Every
//! operation is a verified step function; the surrounding program supplies
//! the transport, the clock, the lock and the threads.
//!
//! Sequence numbers are modelled in linear 32-bit space, as the stated
//! stream invariants read them: a transfer long enough to wrap the space is
//! outside the model, and the send paths require (testably, via `can_send`
//! and `can_close`) that the remaining bytes still fit.

pub mod laws;
pub mod parse;
pub mod rng;
pub mod socket;
pub mod tcp;
pub mod tcpflags;
pub mod types;
