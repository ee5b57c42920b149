//! The ring channel: a header and a data area, both inside one region of bytes.
//!
//! Every piece of mutable state (the two cursors) lives in the region's
//! header; a `Channel` adds to the region only the framing policy by which
//! its user reads and writes slots.
use vstd::prelude::*;

use crate::layout::{
    le_u32, le_u64, u32_le_bytes, u64_le_bytes, splice, lemma_u32_round_trip, lemma_u64_round_trip,
    lemma_splice_outside, lemma_splice_inside, lemma_le_u32_bound, lemma_le_u64_bound, read_u32_le, read_u64_le, u32_to_le, u64_to_le,
    copy_into, HEADER_SIZE, MAGIC, VERSION, MAGIC_AT, VERSION_AT, CAPACITY_AT, SLOT_SIZE_AT,
    WRITE_CURSOR_AT, READ_CURSOR_AT,
};
use crate::frame::{
    Framing, SendError, RecvError, min_slot_size, frame_error, framed, payload_of,
    lemma_framed_round_trip, encode_slot, decode_slot,
};

verus! {

/// Why a channel could not be created or opened.
#[derive(Clone, Copy, Debug, PartialEq, Eq, Structural)]
pub enum ChannelError {
    /// The region is too small for the slots asked for, or the sizing is invalid.
    CapacityError,
    /// The region already carries a channel header.
    AlreadyInitialized,
    /// The region carries no valid channel header.
    NotInitialized,
}

pub open spec fn magic(s: Seq<u8>) -> nat {
    le_u32(s.subrange(MAGIC_AT as int, MAGIC_AT + 4))
}

pub open spec fn version(s: Seq<u8>) -> nat {
    le_u32(s.subrange(VERSION_AT as int, VERSION_AT + 4))
}

pub open spec fn capacity(s: Seq<u8>) -> nat {
    le_u32(s.subrange(CAPACITY_AT as int, CAPACITY_AT + 4))
}

pub open spec fn slot_size(s: Seq<u8>) -> nat {
    le_u32(s.subrange(SLOT_SIZE_AT as int, SLOT_SIZE_AT + 4))
}

pub open spec fn write_cursor(s: Seq<u8>) -> nat {
    le_u64(s.subrange(WRITE_CURSOR_AT as int, WRITE_CURSOR_AT + 8))
}

pub open spec fn read_cursor(s: Seq<u8>) -> nat {
    le_u64(s.subrange(READ_CURSOR_AT as int, READ_CURSOR_AT + 8))
}

/// The sizing is usable: at least one slot, slots large enough for the
/// framing, and header plus data area inside a region of `len` bytes.
pub open spec fn sizing_ok(len: nat, cap: nat, slot: nat, f: Framing) -> bool {
    &&& cap >= 1
    &&& slot >= min_slot_size(f)
    &&& HEADER_SIZE + cap * slot <= len
}

/// `s` holds a channel header that a user with framing `f` can work on.
pub open spec fn region_valid(s: Seq<u8>, f: Framing) -> bool {
    &&& s.len() >= HEADER_SIZE
    &&& magic(s) == MAGIC
    &&& version(s) == VERSION
    &&& sizing_ok(s.len(), capacity(s), slot_size(s), f)
    &&& read_cursor(s) <= write_cursor(s)
    &&& write_cursor(s) - read_cursor(s) <= capacity(s)
}

/// Where the slot of cursor `c` begins, with `cap` slots of `sz` bytes.
#[verifier::opaque]
pub open spec fn slot_pos(cap: nat, sz: nat, c: nat) -> int {
    HEADER_SIZE + (c % cap) * sz
}

/// Where the slot of cursor `c` begins.
pub open spec fn slot_start(s: Seq<u8>, c: nat) -> int {
    slot_pos(capacity(s), slot_size(s), c)
}

/// The bytes of the slot of cursor `c`.
pub open spec fn slot_bytes(s: Seq<u8>, c: nat) -> Seq<u8> {
    s.subrange(slot_start(s, c), slot_start(s, c) + slot_size(s))
}

/// The unread messages, oldest first; `None` for a slot whose length field is out of range.
pub open spec fn pending(s: Seq<u8>, f: Framing) -> Seq<Option<Seq<u8>>> {
    Seq::new(
        (write_cursor(s) - read_cursor(s)) as nat,
        |i: int| payload_of(slot_bytes(s, (read_cursor(s) + i) as nat), f),
    )
}

/// The header that creation writes.
pub open spec fn fresh_header(cap: nat, slot: nat) -> Seq<u8> {
    u32_le_bytes(MAGIC as nat) + u32_le_bytes(VERSION as nat) + u32_le_bytes(cap) + u32_le_bytes(
        slot,
    ) + u64_le_bytes(0) + u64_le_bytes(0)
}

/// What creating a channel in `s` with the given sizing gives.
pub open spec fn create_outcome(s: Seq<u8>, cap: nat, slot: nat, f: Framing) -> Result<
    Seq<u8>,
    ChannelError,
> {
    if !sizing_ok(s.len(), cap, slot, f) {
        Err(ChannelError::CapacityError)
    } else if magic(s) != 0 || version(s) != 0 {
        Err(ChannelError::AlreadyInitialized)
    } else {
        Ok(splice(s, 0, fresh_header(cap, slot)))
    }
}

/// What attaching to the channel in `s` gives.
pub open spec fn open_outcome(s: Seq<u8>, f: Framing) -> Result<Seq<u8>, ChannelError> {
    if region_valid(s, f) {
        Ok(s)
    } else {
        Err(ChannelError::NotInitialized)
    }
}

/// What a send of `p` on region `s` gives.
pub open spec fn send_outcome(s: Seq<u8>, f: Framing, p: Seq<u8>) -> Result<(), SendError> {
    match frame_error(p.len(), slot_size(s), f) {
        Some(e) => Err(e),
        None => if write_cursor(s) - read_cursor(s) == capacity(s) {
            Err(SendError::Full)
        } else {
            Ok(())
        },
    }
}

/// The region after a successful send of `p`.
pub open spec fn sent(s: Seq<u8>, f: Framing, p: Seq<u8>) -> Seq<u8> {
    splice(
        splice(s, slot_start(s, write_cursor(s)), framed(p, slot_size(s), f)),
        WRITE_CURSOR_AT as int,
        u64_le_bytes(write_cursor(s) + 1),
    )
}

/// What a receive on region `s` gives.
pub open spec fn receive_outcome(s: Seq<u8>, f: Framing) -> Result<Seq<u8>, RecvError> {
    if read_cursor(s) == write_cursor(s) {
        Err(RecvError::Empty)
    } else {
        match payload_of(slot_bytes(s, read_cursor(s)), f) {
            Some(p) => Ok(p),
            None => Err(RecvError::Corrupt),
        }
    }
}

/// The region after a successful receive.
pub open spec fn received(s: Seq<u8>) -> Seq<u8> {
    splice(s, READ_CURSOR_AT as int, u64_le_bytes(read_cursor(s) + 1))
}

/// A fresh header in a region with usable sizing makes a valid, empty channel.
pub proof fn lemma_fresh_header(s: Seq<u8>, cap: nat, slot: nat, f: Framing)
    requires
        cap < 0x1_0000_0000,
        slot < 0x1_0000_0000,
        sizing_ok(s.len(), cap, slot, f),
    ensures
        region_valid(splice(s, 0, fresh_header(cap, slot)), f),
        capacity(splice(s, 0, fresh_header(cap, slot))) == cap,
        slot_size(splice(s, 0, fresh_header(cap, slot))) == slot,
        write_cursor(splice(s, 0, fresh_header(cap, slot))) == 0,
        read_cursor(splice(s, 0, fresh_header(cap, slot))) == 0,
{
    let h = fresh_header(cap, slot);
    let s2 = splice(s, 0, h);
    lemma_splice_inside(s, 0, h);
    lemma_u32_round_trip(MAGIC as nat);
    lemma_u32_round_trip(VERSION as nat);
    lemma_u32_round_trip(cap);
    lemma_u32_round_trip(slot);
    lemma_u64_round_trip(0);
    assert(s2.subrange(0, 4) =~= u32_le_bytes(MAGIC as nat));
    assert(s2.subrange(4, 8) =~= u32_le_bytes(VERSION as nat));
    assert(s2.subrange(8, 12) =~= u32_le_bytes(cap));
    assert(s2.subrange(12, 16) =~= u32_le_bytes(slot));
    assert(s2.subrange(16, 24) =~= u64_le_bytes(0));
    assert(s2.subrange(24, 32) =~= u64_le_bytes(0));
}

proof fn lemma_slot_in_region(s: Seq<u8>, f: Framing, c: nat)
    requires
        region_valid(s, f),
    ensures
        HEADER_SIZE <= slot_start(s, c),
        slot_start(s, c) + slot_size(s) <= HEADER_SIZE + capacity(s) * slot_size(s),
        slot_start(s, c) + slot_size(s) <= s.len(),
{
    reveal(slot_pos);
    let cap = capacity(s);
    let sz = slot_size(s);
    let k = c % cap;
    assert(k < cap);
    assert(0 <= k * sz) by (nonlinear_arith)
        requires
            k >= 0,
            sz >= 0,
    ;
    assert(k * sz + sz <= cap * sz) by (nonlinear_arith)
        requires
            k + 1 <= cap,
            sz >= 0,
    ;
}

proof fn lemma_u32_product(a: nat, b: nat)
    requires
        a < 0x1_0000_0000,
        b < 0x1_0000_0000,
    ensures
        a * b < 0x1_0000_0000_0000_0000,
{
    assert(a * b <= 0xffff_ffff * 0xffff_ffff) by (nonlinear_arith)
        requires
            a <= 0xffff_ffff,
            b <= 0xffff_ffff,
    ;
}

/// The slots of two cursors less than `capacity` apart do not overlap.
proof fn lemma_slots_apart(s: Seq<u8>, f: Framing, a: nat, b: nat)
    requires
        region_valid(s, f),
        a < b,
        b - a < capacity(s),
    ensures
        slot_start(s, a) + slot_size(s) <= slot_start(s, b) || slot_start(s, b) + slot_size(s)
            <= slot_start(s, a),
{
    reveal(slot_pos);
    let cap = capacity(s) as int;
    let sz = slot_size(s) as int;
    let ka = (a % capacity(s)) as int;
    let kb = (b % capacity(s)) as int;
    let qa = (a / capacity(s)) as int;
    let qb = (b / capacity(s)) as int;
    vstd::arithmetic::div_mod::lemma_fundamental_div_mod(a as int, cap);
    vstd::arithmetic::div_mod::lemma_fundamental_div_mod(b as int, cap);
    assert(a == cap * qa + ka);
    assert(b == cap * qb + kb);
    if ka == kb {
        assert(b - a == cap * (qb - qa)) by (nonlinear_arith)
            requires
                a == cap * qa + ka,
                b == cap * qb + kb,
                ka == kb,
        ;
        assert(false) by (nonlinear_arith)
            requires
                cap * (qb - qa) > 0,
                cap * (qb - qa) < cap,
                cap > 0,
        ;
    }
    if ka < kb {
        assert(ka * sz + sz <= kb * sz) by (nonlinear_arith)
            requires
                ka + 1 <= kb,
                sz >= 0,
        ;
    } else {
        assert(kb * sz + sz <= ka * sz) by (nonlinear_arith)
            requires
                kb + 1 <= ka,
                sz >= 0,
        ;
    }
}

/// A successful send keeps the header's sizing and read cursor, moves the
/// write cursor on by one, and appends `p` to the unread messages.
pub proof fn lemma_send_appends(s: Seq<u8>, f: Framing, p: Seq<u8>)
    requires
        region_valid(s, f),
        write_cursor(s) + 1 < 0x1_0000_0000_0000_0000,
        send_outcome(s, f, p) is Ok,
    ensures
        region_valid(sent(s, f, p), f),
        sent(s, f, p).len() == s.len(),
        capacity(sent(s, f, p)) == capacity(s),
        slot_size(sent(s, f, p)) == slot_size(s),
        read_cursor(sent(s, f, p)) == read_cursor(s),
        write_cursor(sent(s, f, p)) == write_cursor(s) + 1,
        pending(sent(s, f, p), f) == pending(s, f).push(Some(p)),
{
    let w = write_cursor(s);
    let r = read_cursor(s);
    let sz = slot_size(s);
    let fr = framed(p, sz, f);
    let st = slot_start(s, w);
    lemma_le_u32_bound(s.subrange(12, 16));
    lemma_framed_round_trip(p, sz, f);
    lemma_slot_in_region(s, f, w);
    let s1 = splice(s, st, fr);
    let s2 = sent(s, f, p);
    lemma_u64_round_trip(w + 1);
    lemma_splice_inside(s1, WRITE_CURSOR_AT as int, u64_le_bytes(w + 1));
    lemma_splice_inside(s, st, fr);
    lemma_splice_outside(s, st, fr, 0, 16);
    lemma_splice_outside(s, st, fr, 24, 32);
    lemma_splice_outside(s1, 16, u64_le_bytes(w + 1), 0, 16);
    lemma_splice_outside(s1, 16, u64_le_bytes(w + 1), 24, 32);
    assert(s2.subrange(0, 16) == s.subrange(0, 16));
    assert(s2.subrange(24, 32) == s.subrange(24, 32));
    assert(magic(s2) == magic(s)) by {
        assert(s2.subrange(0, 4) =~= s2.subrange(0, 16).subrange(0, 4));
        assert(s.subrange(0, 4) =~= s.subrange(0, 16).subrange(0, 4));
    }
    assert(version(s2) == version(s)) by {
        assert(s2.subrange(4, 8) =~= s2.subrange(0, 16).subrange(4, 8));
        assert(s.subrange(4, 8) =~= s.subrange(0, 16).subrange(4, 8));
    }
    assert(capacity(s2) == capacity(s)) by {
        assert(s2.subrange(8, 12) =~= s2.subrange(0, 16).subrange(8, 12));
        assert(s.subrange(8, 12) =~= s.subrange(0, 16).subrange(8, 12));
    }
    assert(slot_size(s2) == slot_size(s)) by {
        assert(s2.subrange(12, 16) =~= s2.subrange(0, 16).subrange(12, 16));
        assert(s.subrange(12, 16) =~= s.subrange(0, 16).subrange(12, 16));
    }
    let old_q = pending(s, f);
    let new_q = pending(s2, f);
    assert forall|i: int| 0 <= i < old_q.len() implies new_q[i] == old_q[i] by {
        let c = (r + i) as nat;
        lemma_slot_in_region(s, f, c);
        lemma_slots_apart(s, f, c, w);
        lemma_splice_outside(s, st, fr, slot_start(s, c), slot_start(s, c) + sz);
        lemma_splice_outside(
            s1,
            16,
            u64_le_bytes(w + 1),
            slot_start(s, c),
            slot_start(s, c) + sz,
        );
        assert(slot_bytes(s2, c) == slot_bytes(s, c));
    }
    lemma_splice_outside(s1, 16, u64_le_bytes(w + 1), st, st + sz);
    assert(slot_bytes(s2, w) == fr);
    assert(new_q =~= old_q.push(Some(p)));
}

/// A successful receive keeps the header's sizing and write cursor, moves
/// the read cursor on by one, and takes the oldest message off the unread ones.
pub proof fn lemma_receive_pops(s: Seq<u8>, f: Framing)
    requires
        region_valid(s, f),
        receive_outcome(s, f) is Ok,
    ensures
        region_valid(received(s), f),
        received(s).len() == s.len(),
        capacity(received(s)) == capacity(s),
        slot_size(received(s)) == slot_size(s),
        write_cursor(received(s)) == write_cursor(s),
        read_cursor(received(s)) == read_cursor(s) + 1,
        pending(s, f).len() > 0,
        pending(s, f)[0] == Some(receive_outcome(s, f)->Ok_0),
        pending(received(s), f) == pending(s, f).drop_first(),
{
    let r = read_cursor(s);
    let s2 = received(s);
    let b = u64_le_bytes(r + 1);
    lemma_le_u64_bound(s.subrange(16, 24));
    lemma_u64_round_trip(r + 1);
    lemma_splice_inside(s, 24, b);
    lemma_splice_outside(s, 24, b, 0, 24);
    assert(magic(s2) == magic(s)) by {
        assert(s2.subrange(0, 4) =~= s2.subrange(0, 24).subrange(0, 4));
        assert(s.subrange(0, 4) =~= s.subrange(0, 24).subrange(0, 4));
    }
    assert(version(s2) == version(s)) by {
        assert(s2.subrange(4, 8) =~= s2.subrange(0, 24).subrange(4, 8));
        assert(s.subrange(4, 8) =~= s.subrange(0, 24).subrange(4, 8));
    }
    assert(capacity(s2) == capacity(s)) by {
        assert(s2.subrange(8, 12) =~= s2.subrange(0, 24).subrange(8, 12));
        assert(s.subrange(8, 12) =~= s.subrange(0, 24).subrange(8, 12));
    }
    assert(slot_size(s2) == slot_size(s)) by {
        assert(s2.subrange(12, 16) =~= s2.subrange(0, 24).subrange(12, 16));
        assert(s.subrange(12, 16) =~= s.subrange(0, 24).subrange(12, 16));
    }
    assert(write_cursor(s2) == write_cursor(s)) by {
        assert(s2.subrange(16, 24) =~= s2.subrange(0, 24).subrange(16, 24));
        assert(s.subrange(16, 24) =~= s.subrange(0, 24).subrange(16, 24));
    }
    let old_q = pending(s, f);
    let new_q = pending(s2, f);
    assert forall|i: int| 0 <= i < new_q.len() implies new_q[i] == old_q[i + 1] by {
        let c = (r + 1 + i) as nat;
        lemma_slot_in_region(s, f, c);
        lemma_splice_outside(s, 24, b, slot_start(s, c), slot_start(s, c) + slot_size(s));
    }
    assert(new_q =~= old_q.drop_first());
}

/// A handle on a channel whose header and slots live in `region`.
pub struct Channel {
    region: Vec<u8>,
    framing: Framing,
}

impl Channel {
    /// The bytes of the region.
    pub closed spec fn region(&self) -> Seq<u8> {
        self.region@
    }

    /// The framing policy of this handle.
    pub closed spec fn framing(&self) -> Framing {
        self.framing
    }

    /// The handle's region holds a valid header for its framing.
    pub open spec fn wf(&self) -> bool {
        region_valid(self.region(), self.framing())
    }

    /// Writes a fresh header (empty cursors) for `capacity_slots` slots of
    /// `slot_size` bytes into `region`, and hands back a channel on it.
    pub fn create(region: Vec<u8>, capacity_slots: u32, slot_size: u32, framing: Framing) -> (r:
        Result<Channel, ChannelError>)
        ensures
            match create_outcome(region@, capacity_slots as nat, slot_size as nat, framing) {
                Ok(s) => r is Ok && r->Ok_0.region() == s && r->Ok_0.framing() == framing
                    && r->Ok_0.wf(),
                Err(e) => r == Err::<Channel, ChannelError>(e),
            },
    {
        let len = region.len();
        let min: u32 = match framing {
            Framing::Fixed => 1,
            Framing::LengthPrefixed => 5,
        };
        if capacity_slots == 0 || slot_size < min || len < HEADER_SIZE {
            return Err(ChannelError::CapacityError);
        }
        let data = (len - HEADER_SIZE) as u64;
        proof {
            lemma_u32_product(capacity_slots as nat, slot_size as nat);
        }
        if (capacity_slots as u64) * (slot_size as u64) > data {
            return Err(ChannelError::CapacityError);
        }
        let m = read_u32_le(region.as_slice(), MAGIC_AT);
        let v = read_u32_le(region.as_slice(), VERSION_AT);
        if m != 0 || v != 0 {
            return Err(ChannelError::AlreadyInitialized);
        }
        let mut header = u32_to_le(MAGIC);
        let mut rest = u32_to_le(VERSION);
        header.append(&mut rest);
        let mut rest = u32_to_le(capacity_slots);
        header.append(&mut rest);
        let mut rest = u32_to_le(slot_size);
        header.append(&mut rest);
        let mut rest = u64_to_le(0);
        header.append(&mut rest);
        let mut rest = u64_to_le(0);
        header.append(&mut rest);
        let mut region = region;
        let ghost s = region@;
        copy_into(&mut region, 0, header.as_slice());
        proof {
            assert(header@ =~= fresh_header(capacity_slots as nat, slot_size as nat));
            lemma_fresh_header(s, capacity_slots as nat, slot_size as nat, framing);
        }
        Ok(Channel { region, framing })
    }

    /// Attaches to the channel whose header `region` already holds, keeping
    /// its cursors and unread messages.
    pub fn open(region: Vec<u8>, framing: Framing) -> (r: Result<Channel, ChannelError>)
        ensures
            match open_outcome(region@, framing) {
                Ok(s) => r is Ok && r->Ok_0.region() == s && r->Ok_0.framing() == framing
                    && r->Ok_0.wf(),
                Err(e) => r == Err::<Channel, ChannelError>(e),
            },
    {
        let len = region.len();
        if len < HEADER_SIZE {
            return Err(ChannelError::NotInitialized);
        }
        let s = region.as_slice();
        let m = read_u32_le(s, MAGIC_AT);
        let v = read_u32_le(s, VERSION_AT);
        let cap = read_u32_le(s, CAPACITY_AT);
        let sz = read_u32_le(s, SLOT_SIZE_AT);
        let w = read_u64_le(s, WRITE_CURSOR_AT);
        let rd = read_u64_le(s, READ_CURSOR_AT);
        let min: u32 = match framing {
            Framing::Fixed => 1,
            Framing::LengthPrefixed => 5,
        };
        if m != MAGIC || v != VERSION || cap == 0 || sz < min {
            return Err(ChannelError::NotInitialized);
        }
        proof {
            lemma_u32_product(cap as nat, sz as nat);
        }
        if (cap as u64) * (sz as u64) > (len - HEADER_SIZE) as u64 {
            return Err(ChannelError::NotInitialized);
        }
        if rd > w || w - rd > cap as u64 {
            return Err(ChannelError::NotInitialized);
        }
        Ok(Channel { region, framing })
    }

    /// Hands the region back, as the header and slots now hold it.
    pub fn into_region(self) -> (r: Vec<u8>)
        ensures
            r@ == self.region(),
    {
        self.region
    }

    /// The bytes of the region.
    pub fn region_bytes(&self) -> (r: &[u8])
        ensures
            r@ == self.region(),
    {
        self.region.as_slice()
    }

    /// The framing policy of this handle.
    pub fn framing_policy(&self) -> (r: Framing)
        ensures
            r == self.framing(),
    {
        self.framing
    }

    /// Number of slots.
    pub fn capacity_slots(&self) -> (r: u32)
        requires
            self.wf(),
        ensures
            r == capacity(self.region()),
    {
        read_u32_le(self.region.as_slice(), CAPACITY_AT)
    }

    /// Bytes per slot.
    pub fn slot_size(&self) -> (r: u32)
        requires
            self.wf(),
        ensures
            r == slot_size(self.region()),
    {
        read_u32_le(self.region.as_slice(), SLOT_SIZE_AT)
    }

    /// Slots claimed by the producer so far.
    pub fn write_cursor(&self) -> (r: u64)
        requires
            self.wf(),
        ensures
            r == write_cursor(self.region()),
    {
        read_u64_le(self.region.as_slice(), WRITE_CURSOR_AT)
    }

    /// Slots released by the consumer so far.
    pub fn read_cursor(&self) -> (r: u64)
        requires
            self.wf(),
        ensures
            r == read_cursor(self.region()),
    {
        read_u64_le(self.region.as_slice(), READ_CURSOR_AT)
    }

    /// Number of unread messages.
    pub fn len(&self) -> (r: u64)
        requires
            self.wf(),
        ensures
            r == pending(self.region(), self.framing()).len(),
    {
        let w = self.write_cursor();
        let rd = self.read_cursor();
        w - rd
    }

    /// Where the slot of cursor `c` begins in the region.
    fn slot_offset(&self, c: u64) -> (r: usize)
        requires
            self.wf(),
        ensures
            r == slot_start(self.region(), c as nat),
    {
        let cap = self.capacity_slots();
        let sz = self.slot_size();
        let _n = self.region.len();
        proof {
            lemma_slot_in_region(self.region@, self.framing, c as nat);
            reveal(slot_pos);
        }
        HEADER_SIZE + ((c % (cap as u64)) as usize) * (sz as usize)
    }

    /// Writes `payload` into the next free slot and publishes it by moving
    /// the write cursor on; fails without a change where it does not fit or
    /// every slot is taken.
    pub fn try_send(&mut self, payload: &[u8]) -> (r: Result<(), SendError>)
        requires
            old(self).wf(),
            write_cursor(old(self).region()) + 1 < 0x1_0000_0000_0000_0000,
        ensures
            final(self).wf(),
            final(self).framing() == old(self).framing(),
            r == send_outcome(old(self).region(), old(self).framing(), payload@),
            r is Ok ==> final(self).region() == sent(
                old(self).region(),
                old(self).framing(),
                payload@,
            ),
            r is Err ==> final(self).region() == old(self).region(),
    {
        let cap = self.capacity_slots();
        let sz = self.slot_size();
        let w = self.write_cursor();
        let rd = self.read_cursor();
        let slot = match encode_slot(payload, sz, self.framing) {
            Ok(v) => v,
            Err(e) => return Err(e),
        };
        if w - rd == cap as u64 {
            return Err(SendError::Full);
        }
        let ghost s = self.region@;
        let _n = self.region.len();
        proof {
            lemma_send_appends(s, self.framing, payload@);
            lemma_le_u32_bound(s.subrange(12, 16));
            lemma_framed_round_trip(payload@, sz as nat, self.framing);
            lemma_slot_in_region(s, self.framing, w as nat);
        }
        let start = self.slot_offset(w);
        copy_into(&mut self.region, start, slot.as_slice());
        let cursor = u64_to_le(w + 1);
        copy_into(&mut self.region, WRITE_CURSOR_AT, cursor.as_slice());
        Ok(())
    }

    /// Copies out the oldest unread message and releases its slot by moving
    /// the read cursor on; fails without a change where none is waiting or
    /// its length field is out of range.
    pub fn try_receive(&mut self) -> (r: Result<Vec<u8>, RecvError>)
        requires
            old(self).wf(),
        ensures
            final(self).wf(),
            final(self).framing() == old(self).framing(),
            match receive_outcome(old(self).region(), old(self).framing()) {
                Ok(p) => r is Ok && r->Ok_0@ == p && final(self).region() == received(
                    old(self).region(),
                ),
                Err(e) => r == Err::<Vec<u8>, RecvError>(e) && final(self).region() == old(
                    self,
                ).region(),
            },
    {
        let cap = self.capacity_slots();
        let sz = self.slot_size();
        let w = self.write_cursor();
        let rd = self.read_cursor();
        if rd == w {
            return Err(RecvError::Empty);
        }
        let ghost s = self.region@;
        let _n = self.region.len();
        proof {
            lemma_slot_in_region(s, self.framing, rd as nat);
        }
        let start = self.slot_offset(rd);
        let bytes = vstd::slice::slice_subrange(self.region.as_slice(), start, start + sz as usize);
        let msg = match decode_slot(bytes, self.framing) {
            Ok(v) => v,
            Err(e) => return Err(e),
        };
        proof {
            lemma_receive_pops(s, self.framing);
        }
        let cursor = u64_to_le(rd + 1);
        copy_into(&mut self.region, READ_CURSOR_AT, cursor.as_slice());
        Ok(msg)
    }
}

} // verus!
