//! How a message is laid out inside one fixed-size slot.
use vstd::prelude::*;

use crate::layout::{le_u32, u32_le_bytes, lemma_u32_round_trip, read_u32_le, u32_to_le, copy_out, LENGTH_PREFIX};

verus! {

/// The policy by which a message is held in a slot.
#[derive(Clone, Copy, Debug, PartialEq, Eq, Structural)]
pub enum Framing {
    /// The whole slot is the message: a payload must fill it exactly.
    Fixed,
    /// A little-endian `u32` length, then that many payload bytes; the rest is zero.
    LengthPrefixed,
}

/// Why a message was not sent.
#[derive(Clone, Copy, Debug, PartialEq, Eq, Structural)]
pub enum SendError {
    /// The payload is longer than a slot can hold under the framing.
    TooLarge,
    /// Under fixed framing, the payload is shorter than a slot.
    WrongLength,
    /// Every slot holds an unread message.
    Full,
    /// The deadline passed before a slot came free.
    Timeout,
}

/// Why no message was received.
#[derive(Clone, Copy, Debug, PartialEq, Eq, Structural)]
pub enum RecvError {
    /// No unread message is waiting.
    Empty,
    /// The slot's length field is out of range for the slot.
    Corrupt,
    /// The deadline passed before a message came.
    Timeout,
}

/// The smallest slot that the framing can use.
pub open spec fn min_slot_size(f: Framing) -> nat {
    match f {
        Framing::Fixed => 1,
        Framing::LengthPrefixed => 5,
    }
}

/// The most payload bytes a slot of `slot_size` bytes holds under `f`.
pub open spec fn usable(slot_size: nat, f: Framing) -> int {
    match f {
        Framing::Fixed => slot_size as int,
        Framing::LengthPrefixed => slot_size - LENGTH_PREFIX,
    }
}

/// The error, if any, of framing a payload of `len` bytes into a slot of `slot_size` bytes.
pub open spec fn frame_error(len: nat, slot_size: nat, f: Framing) -> Option<SendError> {
    if len > usable(slot_size, f) {
        Some(SendError::TooLarge)
    } else if f == Framing::Fixed && len < slot_size {
        Some(SendError::WrongLength)
    } else {
        None
    }
}

/// The `slot_size` bytes a slot holds for `payload`.
pub open spec fn framed(payload: Seq<u8>, slot_size: nat, f: Framing) -> Seq<u8> {
    match f {
        Framing::Fixed => payload,
        Framing::LengthPrefixed => u32_le_bytes(payload.len()) + payload + Seq::new(
            (slot_size - LENGTH_PREFIX - payload.len()) as nat,
            |_i: int| 0u8,
        ),
    }
}

/// The payload a slot holds, or `None` where its length field exceeds the slot.
pub open spec fn payload_of(slot: Seq<u8>, f: Framing) -> Option<Seq<u8>> {
    match f {
        Framing::Fixed => Some(slot),
        Framing::LengthPrefixed => if slot.len() >= LENGTH_PREFIX && le_u32(slot) <= slot.len()
            - LENGTH_PREFIX {
            Some(slot.subrange(LENGTH_PREFIX as int, LENGTH_PREFIX + le_u32(slot)))
        } else {
            None
        },
    }
}

/// A framed payload reads back as the payload itself.
pub proof fn lemma_framed_round_trip(payload: Seq<u8>, slot_size: nat, f: Framing)
    requires
        slot_size < 0x1_0000_0000,
        frame_error(payload.len(), slot_size, f) is None,
    ensures
        framed(payload, slot_size, f).len() == slot_size,
        payload_of(framed(payload, slot_size, f), f) == Some(payload),
{
    if f == Framing::LengthPrefixed {
        reveal(le_u32);
        let b = framed(payload, slot_size, f);
        lemma_u32_round_trip(payload.len());
        assert(b.subrange(0, 4) =~= u32_le_bytes(payload.len()));
        assert(le_u32(b) == le_u32(b.subrange(0, 4)));
        assert(b.subrange(4, 4 + payload.len() as int) =~= payload);
    }
}

/// The most payload bytes a slot of `slot_size` bytes holds under `framing`.
pub fn max_payload(slot_size: u32, framing: Framing) -> (r: u32)
    requires
        slot_size >= min_slot_size(framing),
    ensures
        r == usable(slot_size as nat, framing),
{
    match framing {
        Framing::Fixed => slot_size,
        Framing::LengthPrefixed => slot_size - 4,
    }
}

/// The bytes of a slot of `slot_size` bytes that holds `payload`.
pub fn encode_slot(payload: &[u8], slot_size: u32, framing: Framing) -> (r: Result<Vec<u8>, SendError>)
    ensures
        match r {
            Ok(v) => frame_error(payload@.len(), slot_size as nat, framing) is None && v@ == framed(
                payload@,
                slot_size as nat,
                framing,
            ),
            Err(e) => frame_error(payload@.len(), slot_size as nat, framing) == Some(e),
        },
{
    let len = payload.len();
    match framing {
        Framing::Fixed => {
            if len > slot_size as usize {
                Err(SendError::TooLarge)
            } else if len < slot_size as usize {
                Err(SendError::WrongLength)
            } else {
                Ok(vstd::slice::slice_to_vec(payload))
            }
        },
        Framing::LengthPrefixed => {
            if slot_size < 4 || len > (slot_size - 4) as usize {
                return Err(SendError::TooLarge);
            }
            let mut v = u32_to_le(len as u32);
            v.extend_from_slice(payload);
            let total = slot_size as usize;
            let ghost head = v@;
            while v.len() < total
                invariant
                    head == u32_le_bytes(len as nat) + payload@,
                    head.len() <= v@.len() <= total,
                    v@ == head + Seq::new((v@.len() - head.len()) as nat, |_i: int| 0u8),
                decreases total - v@.len(),
            {
                v.push(0u8);
                assert(v@ =~= head + Seq::new((v@.len() - head.len()) as nat, |_i: int| 0u8));
            }
            assert(v@ =~= framed(payload@, slot_size as nat, framing));
            Ok(v)
        },
    }
}

/// The payload held by the slot bytes `slot`.
pub fn decode_slot(slot: &[u8], framing: Framing) -> (r: Result<Vec<u8>, RecvError>)
    ensures
        match payload_of(slot@, framing) {
            Some(p) => r is Ok && r->Ok_0@ == p,
            None => r == Err::<Vec<u8>, RecvError>(RecvError::Corrupt),
        },
{
    match framing {
        Framing::Fixed => Ok(vstd::slice::slice_to_vec(slot)),
        Framing::LengthPrefixed => {
            let n = slot.len();
            if n < 4 {
                return Err(RecvError::Corrupt);
            }
            let len = read_u32_le(slot, 0);
            reveal(le_u32);
            assert(le_u32(slot@.subrange(0, 4)) == le_u32(slot@));
            if len as usize > n - 4 {
                return Err(RecvError::Corrupt);
            }
            Ok(copy_out(slot, 4, len as usize))
        },
    }
}

} // verus!
