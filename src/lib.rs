//! A fixed-capacity, single-producer/single-consumer message channel whose
//! whole state lives in one region of bytes: a header (marker, version,
//! sizing, write and read cursors) followed by a ring of fixed-size slots.
//!
//! The region's bytes are the only state; a handle adds nothing but the
//! framing policy it reads and writes slots by. Obtaining the region (for
//! instance a named block of shared memory) is the caller's business.
use vstd::prelude::*;

pub mod layout;
pub mod frame;
pub mod channel;
pub mod laws;
pub mod backoff;

pub use frame::{Framing, SendError, RecvError, encode_slot, decode_slot, max_payload};
pub use channel::{Channel, ChannelError};
pub use backoff::{Step, spin_wait, keep_waiting, send_step, receive_step};

verus! {

} // verus!
