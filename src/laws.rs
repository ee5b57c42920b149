//! Properties of the channel that relate several operations.
use vstd::prelude::*;

use crate::layout::LENGTH_PREFIX;
use crate::frame::{Framing, SendError, RecvError, frame_error};
use crate::channel::{
    region_valid, capacity, slot_size, write_cursor, read_cursor, pending, send_outcome, sent,
    receive_outcome, received, open_outcome, create_outcome, lemma_send_appends,
    lemma_receive_pops, lemma_fresh_header,
};

verus! {

/// One operation on a channel: `Some(p)` sends `p`, `None` receives.
pub type Op = Option<Seq<u8>>;

/// The region after the operations `ops`, each applied as the channel's
/// non-blocking calls apply it (a refused call changes nothing).
pub open spec fn run(s: Seq<u8>, f: Framing, ops: Seq<Op>) -> Seq<u8>
    decreases ops.len(),
{
    if ops.len() == 0 {
        s
    } else {
        let prev = run(s, f, ops.drop_last());
        match ops.last() {
            Some(p) => if send_outcome(prev, f, p) is Ok {
                sent(prev, f, p)
            } else {
                prev
            },
            None => if receive_outcome(prev, f) is Ok {
                received(prev)
            } else {
                prev
            },
        }
    }
}

/// The payloads among `ops` whose send succeeded, in order.
pub open spec fn accepted(s: Seq<u8>, f: Framing, ops: Seq<Op>) -> Seq<Option<Seq<u8>>>
    decreases ops.len(),
{
    if ops.len() == 0 {
        Seq::empty()
    } else {
        let prev = run(s, f, ops.drop_last());
        let before = accepted(s, f, ops.drop_last());
        match ops.last() {
            Some(p) => if send_outcome(prev, f, p) is Ok {
                before.push(Some(p))
            } else {
                before
            },
            None => before,
        }
    }
}

/// The messages that the receives among `ops` handed out, in order.
pub open spec fn delivered(s: Seq<u8>, f: Framing, ops: Seq<Op>) -> Seq<Option<Seq<u8>>>
    decreases ops.len(),
{
    if ops.len() == 0 {
        Seq::empty()
    } else {
        let prev = run(s, f, ops.drop_last());
        let before = delivered(s, f, ops.drop_last());
        match ops.last() {
            Some(_) => before,
            None => match receive_outcome(prev, f) {
                Ok(m) => before.push(Some(m)),
                Err(_) => before,
            },
        }
    }
}

/// First in, first out: over any run of sends and receives, what was
/// received followed by what is still unread equals what was unread at the
/// start followed by what was sent. So nothing is lost, duplicated or
/// reordered, and on an empty channel every message received is, byte for
/// byte, the next one sent.
pub proof fn lemma_fifo(s: Seq<u8>, f: Framing, ops: Seq<Op>)
    requires
        region_valid(s, f),
        write_cursor(s) + ops.len() < 0x1_0000_0000_0000_0000,
    ensures
        region_valid(run(s, f, ops), f),
        write_cursor(run(s, f, ops)) <= write_cursor(s) + ops.len(),
        delivered(s, f, ops) + pending(run(s, f, ops), f) == pending(s, f) + accepted(s, f, ops),
    decreases ops.len(),
{
    if ops.len() == 0 {
        assert(pending(s, f) + Seq::<Option<Seq<u8>>>::empty() =~= pending(s, f));
        assert(Seq::<Option<Seq<u8>>>::empty() + pending(s, f) =~= pending(s, f));
    } else {
        let rest = ops.drop_last();
        lemma_fifo(s, f, rest);
        let prev = run(s, f, rest);
        let d = delivered(s, f, rest);
        let a = accepted(s, f, rest);
        match ops.last() {
            Some(p) => {
                if send_outcome(prev, f, p) is Ok {
                    lemma_send_appends(prev, f, p);
                    assert(d + pending(prev, f).push(Some(p)) =~= (d + pending(prev, f)).push(
                        Some(p),
                    ));
                    assert(pending(s, f) + a.push(Some(p)) =~= (pending(s, f) + a).push(Some(p)));
                }
            },
            None => {
                if receive_outcome(prev, f) is Ok {
                    lemma_receive_pops(prev, f);
                    let m = receive_outcome(prev, f)->Ok_0;
                    assert(d.push(Some(m)) + pending(prev, f).drop_first() =~= d + pending(
                        prev,
                        f,
                    ));
                }
            },
        }
    }
}

/// A send on a channel whose every slot is taken fails with `Full`, and so
/// changes nothing, whenever the payload itself fits.
pub proof fn lemma_send_when_full(s: Seq<u8>, f: Framing, p: Seq<u8>)
    requires
        region_valid(s, f),
        write_cursor(s) - read_cursor(s) == capacity(s),
        frame_error(p.len(), slot_size(s), f) is None,
    ensures
        send_outcome(s, f, p) == Err::<(), SendError>(SendError::Full),
{
}

/// A receive on a channel whose cursors are equal fails with `Empty`, and so
/// changes nothing.
pub proof fn lemma_receive_when_empty(s: Seq<u8>, f: Framing)
    requires
        region_valid(s, f),
        read_cursor(s) == write_cursor(s),
    ensures
        receive_outcome(s, f) == Err::<Seq<u8>, RecvError>(RecvError::Empty),
        pending(s, f).len() == 0,
{
}

/// Under length-prefixed framing, a payload of any length from 0 to
/// `slot_size - 4` sent on an empty channel is received back with exactly
/// its length and bytes, and the channel is empty again.
pub proof fn lemma_length_prefixed_round_trip(s: Seq<u8>, p: Seq<u8>)
    requires
        region_valid(s, Framing::LengthPrefixed),
        read_cursor(s) == write_cursor(s),
        write_cursor(s) + 1 < 0x1_0000_0000_0000_0000,
        p.len() <= slot_size(s) - LENGTH_PREFIX,
    ensures
        send_outcome(s, Framing::LengthPrefixed, p) is Ok,
        receive_outcome(sent(s, Framing::LengthPrefixed, p), Framing::LengthPrefixed) == Ok::<
            Seq<u8>,
            RecvError,
        >(p),
        pending(received(sent(s, Framing::LengthPrefixed, p)), Framing::LengthPrefixed).len()
            == 0,
{
    let f = Framing::LengthPrefixed;
    lemma_send_appends(s, f, p);
    let s1 = sent(s, f, p);
    assert(pending(s1, f)[0] == Some(p));
    lemma_receive_pops(s1, f);
}

/// Under length-prefixed framing, a payload one byte longer than
/// `slot_size - 4` is refused with `TooLarge`, and so changes nothing.
pub proof fn lemma_one_byte_over(s: Seq<u8>, p: Seq<u8>)
    requires
        region_valid(s, Framing::LengthPrefixed),
        p.len() == slot_size(s) - LENGTH_PREFIX + 1,
    ensures
        send_outcome(s, Framing::LengthPrefixed, p) == Err::<(), SendError>(SendError::TooLarge),
{
}

/// Attaching to a region that holds a channel keeps it whole: the region,
/// and so the cursors and the unread messages, stay as they were.
pub proof fn lemma_reopen_keeps_state(s: Seq<u8>, f: Framing)
    requires
        region_valid(s, f),
    ensures
        open_outcome(s, f) == Ok::<Seq<u8>, crate::channel::ChannelError>(s),
        pending(open_outcome(s, f)->Ok_0, f) == pending(s, f),
{
}

/// A channel just created can be attached to, and holds no message.
pub proof fn lemma_created_opens_empty(s: Seq<u8>, cap: nat, slot: nat, f: Framing)
    requires
        cap < 0x1_0000_0000,
        slot < 0x1_0000_0000,
        create_outcome(s, cap, slot, f) is Ok,
    ensures
        open_outcome(create_outcome(s, cap, slot, f)->Ok_0, f) is Ok,
        pending(create_outcome(s, cap, slot, f)->Ok_0, f).len() == 0,
        capacity(create_outcome(s, cap, slot, f)->Ok_0) == cap,
        slot_size(create_outcome(s, cap, slot, f)->Ok_0) == slot,
{
    lemma_fresh_header(s, cap, slot, f);
}

} // verus!
