//! A ring of binary resources contended by the workers seated between them.
//!
//! Worker `i` of a ring of `n` is bound to resource `i` on its left and to
//! resource `(i + 1) mod n` on its right. A worker takes its two resources one
//! after the other by compare-and-swap, uses them, and puts them back. The
//! order in which it takes them depends on the parity of its index, which is
//! what keeps the ring free of deadlock.
//!
//! The crate holds the topology of the ring, the model of a resource cell, the
//! state machine that one worker follows, a simulation of the whole ring on a
//! simulated clock with a recorded trace, an audit of recorded traces, and the
//! proofs that the protocol keeps mutual exclusion and never deadlocks.

pub mod delay;
pub mod laws;
pub mod model;
pub mod moves;
pub mod progress;
pub mod resource;
pub mod ring;
pub mod simulation;
pub mod sums;
pub mod trace;
pub mod worker;
