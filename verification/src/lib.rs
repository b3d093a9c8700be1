//! Single-producer/single-consumer shared-memory transport primitives.
//!
//! The heart of the crate is a byte-oriented ring buffer laid out in a
//! shared byte region behind a fixed binary header, together with the
//! two process-shared wait strategies (a futex-style single-slot
//! condition and a counting semaphore) that let a producer and a
//! consumer sleep instead of spinning.  Everything operating on the
//! region — index arithmetic, the wraparound copy plans, the header
//! codec, the wait-state transitions — is verified here; the thin
//! operating-system glue (mapping the region, issuing the kernel wait
//! and wake calls) lives outside the library and only carries values
//! between the kernel and the verified logic.

pub mod errors;
pub mod futex;
pub mod header;
pub mod ring;
pub mod sem;
pub mod shm;
