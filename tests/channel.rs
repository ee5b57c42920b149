use shm_ring::channel::{Channel, ChannelError};
use shm_ring::frame::{Framing, RecvError, SendError};
use shm_ring::layout::{read_u32_le, read_u64_le, HEADER_SIZE, MAGIC, VERSION};

fn fresh(capacity: u32, slot: u32, framing: Framing) -> Channel {
    let region = vec![0u8; HEADER_SIZE + (capacity as usize) * (slot as usize)];
    Channel::create(region, capacity, slot, framing).unwrap()
}

fn tag(i: u32) -> Vec<u8> {
    format!("message {}", i).into_bytes()
}

#[test]
fn fifo_tags_arrive_in_order() {
    let mut ch = fresh(8, 64, Framing::LengthPrefixed);
    let n: u32 = 100;
    let mut next_send: u32 = 0;
    let mut next_recv: u32 = 0;
    while next_recv < n {
        // send a burst of up to three, then receive two
        for _ in 0..3 {
            if next_send < n && ch.try_send(&tag(next_send)).is_ok() {
                next_send += 1;
            }
        }
        for _ in 0..2 {
            if let Ok(m) = ch.try_receive() {
                assert_eq!(m, tag(next_recv));
                next_recv += 1;
            }
        }
    }
    assert_eq!(ch.try_receive(), Err(RecvError::Empty));
    assert_eq!(ch.write_cursor(), 100);
    assert_eq!(ch.read_cursor(), 100);
}

#[test]
fn send_on_full_channel_is_refused_unchanged() {
    let mut ch = fresh(4, 16, Framing::LengthPrefixed);
    for i in 0..4 {
        assert_eq!(ch.try_send(&[i as u8; 3]), Ok(()));
    }
    assert_eq!(ch.len(), 4);
    let before = ch.region_bytes().to_vec();
    assert_eq!(ch.try_send(b"x"), Err(SendError::Full));
    assert_eq!(ch.region_bytes(), &before[..]);
    assert_eq!(ch.write_cursor(), 4);
    assert_eq!(ch.read_cursor(), 0);
}

#[test]
fn receive_on_empty_channel_is_refused_unchanged() {
    let mut ch = fresh(4, 16, Framing::LengthPrefixed);
    let before = ch.region_bytes().to_vec();
    assert_eq!(ch.try_receive(), Err(RecvError::Empty));
    assert_eq!(ch.region_bytes(), &before[..]);
    ch.try_send(b"ab").unwrap();
    assert_eq!(ch.try_receive(), Ok(b"ab".to_vec()));
    let after = ch.region_bytes().to_vec();
    assert_eq!(ch.try_receive(), Err(RecvError::Empty));
    assert_eq!(ch.region_bytes(), &after[..]);
    assert_eq!(ch.write_cursor(), 1);
    assert_eq!(ch.read_cursor(), 1);
}

#[test]
fn round_trip_largest_payload() {
    let mut ch = fresh(2, 64, Framing::LengthPrefixed);
    let payload: Vec<u8> = (0..60u8).collect();
    assert_eq!(ch.try_send(&payload), Ok(()));
    let got = ch.try_receive().unwrap();
    assert_eq!(got.len(), 60);
    assert_eq!(got, payload);
}

#[test]
fn round_trip_empty_payload() {
    let mut ch = fresh(2, 64, Framing::LengthPrefixed);
    assert_eq!(ch.try_send(&[]), Ok(()));
    assert_eq!(ch.len(), 1);
    assert_eq!(ch.try_receive(), Ok(Vec::new()));
    assert_eq!(ch.len(), 0);
}

#[test]
fn one_byte_over_is_too_large() {
    let mut ch = fresh(2, 64, Framing::LengthPrefixed);
    let before = ch.region_bytes().to_vec();
    assert_eq!(ch.try_send(&[7u8; 61]), Err(SendError::TooLarge));
    assert_eq!(ch.region_bytes(), &before[..]);
    assert_eq!(ch.write_cursor(), 0);
}

#[test]
fn ten_thousand_interleaved_operations_keep_every_payload() {
    let mut ch = fresh(8, 64, Framing::LengthPrefixed);
    let mut sent: Vec<Vec<u8>> = Vec::new();
    let mut got: Vec<Vec<u8>> = Vec::new();
    let mut seed: u32 = 12345;
    let mut i: u32 = 0;
    for _ in 0..10_000 {
        seed = seed.wrapping_mul(1_103_515_245).wrapping_add(12_345);
        if (seed >> 16) % 3 != 0 {
            let p = tag(i);
            if ch.try_send(&p).is_ok() {
                sent.push(p);
                i += 1;
            }
        } else if let Ok(m) = ch.try_receive() {
            got.push(m);
        }
    }
    while let Ok(m) = ch.try_receive() {
        got.push(m);
    }
    assert!(sent.len() > 100);
    assert_eq!(got, sent);
    sent.sort();
    got.sort();
    assert_eq!(got, sent);
}

#[test]
fn reopen_keeps_cursors_and_unread_messages() {
    let mut ch = fresh(4, 32, Framing::LengthPrefixed);
    ch.try_send(b"one").unwrap();
    ch.try_send(b"two").unwrap();
    ch.try_send(b"three").unwrap();
    assert_eq!(ch.try_receive(), Ok(b"one".to_vec()));
    let region = ch.into_region();
    let copy = region.clone();
    let mut again = Channel::open(region, Framing::LengthPrefixed).unwrap();
    assert_eq!(again.region_bytes(), &copy[..]);
    assert_eq!(again.write_cursor(), 3);
    assert_eq!(again.read_cursor(), 1);
    assert_eq!(again.try_receive(), Ok(b"two".to_vec()));
    assert_eq!(again.try_receive(), Ok(b"three".to_vec()));
    assert_eq!(again.try_receive(), Err(RecvError::Empty));
}

#[test]
fn create_writes_the_header() {
    let ch = fresh(3, 20, Framing::Fixed);
    let b = ch.region_bytes();
    assert_eq!(read_u32_le(b, 0), MAGIC);
    assert_eq!(read_u32_le(b, 4), VERSION);
    assert_eq!(read_u32_le(b, 8), 3);
    assert_eq!(read_u32_le(b, 12), 20);
    assert_eq!(read_u64_le(b, 16), 0);
    assert_eq!(read_u64_le(b, 24), 0);
    assert_eq!(&b[0..4], &[0x52, 0x4d, 0x48, 0x53]);
    assert_eq!(ch.capacity_slots(), 3);
    assert_eq!(ch.slot_size(), 20);
    assert_eq!(ch.framing_policy(), Framing::Fixed);
    assert_eq!(b.len(), 64 + 60);
}

#[test]
fn slots_sit_after_the_header_and_wrap() {
    let mut ch = fresh(2, 8, Framing::LengthPrefixed);
    ch.try_send(b"ab").unwrap();
    ch.try_send(b"cde").unwrap();
    {
        let b = ch.region_bytes();
        assert_eq!(&b[64..72], &[2, 0, 0, 0, b'a', b'b', 0, 0]);
        assert_eq!(&b[72..80], &[3, 0, 0, 0, b'c', b'd', b'e', 0]);
        assert_eq!(read_u64_le(b, 16), 2);
    }
    assert_eq!(ch.try_receive(), Ok(b"ab".to_vec()));
    ch.try_send(b"fghi").unwrap();
    let b = ch.region_bytes();
    assert_eq!(&b[64..72], &[4, 0, 0, 0, b'f', b'g', b'h', b'i']);
    assert_eq!(read_u64_le(b, 16), 3);
    assert_eq!(read_u64_le(b, 24), 1);
}

#[test]
fn create_rejects_bad_sizing() {
    let r = Channel::create(vec![0u8; 64 + 64], 0, 8, Framing::Fixed);
    assert_eq!(r.err(), Some(ChannelError::CapacityError));
    let r = Channel::create(vec![0u8; 64 + 64], 8, 0, Framing::Fixed);
    assert_eq!(r.err(), Some(ChannelError::CapacityError));
    let r = Channel::create(vec![0u8; 64 + 64], 8, 4, Framing::LengthPrefixed);
    assert_eq!(r.err(), Some(ChannelError::CapacityError));
    let r = Channel::create(vec![0u8; 64 + 63], 8, 8, Framing::Fixed);
    assert_eq!(r.err(), Some(ChannelError::CapacityError));
    let r = Channel::create(vec![0u8; 10], 1, 1, Framing::Fixed);
    assert_eq!(r.err(), Some(ChannelError::CapacityError));
    assert!(Channel::create(vec![0u8; 64 + 64], 8, 8, Framing::Fixed).is_ok());
    assert!(Channel::create(vec![0u8; 64 + 40], 8, 5, Framing::LengthPrefixed).is_ok());
}

#[test]
fn create_refuses_a_marked_region() {
    let ch = fresh(2, 8, Framing::Fixed);
    let region = ch.into_region();
    let r = Channel::create(region, 2, 8, Framing::Fixed);
    assert_eq!(r.err(), Some(ChannelError::AlreadyInitialized));
    let mut region = vec![0u8; 64 + 16];
    region[5] = 1;
    let r = Channel::create(region, 2, 8, Framing::Fixed);
    assert_eq!(r.err(), Some(ChannelError::AlreadyInitialized));
}

#[test]
fn open_refuses_a_region_without_header() {
    let r = Channel::open(vec![0u8; 64 + 64], Framing::Fixed);
    assert_eq!(r.err(), Some(ChannelError::NotInitialized));
    let r = Channel::open(vec![0u8; 12], Framing::Fixed);
    assert_eq!(r.err(), Some(ChannelError::NotInitialized));
    // a valid fixed-framing header whose slots are too small for length prefixes
    let region = fresh(2, 4, Framing::Fixed).into_region();
    let r = Channel::open(region.clone(), Framing::LengthPrefixed);
    assert_eq!(r.err(), Some(ChannelError::NotInitialized));
    assert!(Channel::open(region, Framing::Fixed).is_ok());
    // read cursor ahead of write cursor
    let mut region = fresh(2, 8, Framing::Fixed).into_region();
    region[24] = 1;
    let r = Channel::open(region, Framing::Fixed);
    assert_eq!(r.err(), Some(ChannelError::NotInitialized));
    // more unread slots than the ring has
    let mut region = fresh(2, 8, Framing::Fixed).into_region();
    region[16] = 3;
    let r = Channel::open(region, Framing::Fixed);
    assert_eq!(r.err(), Some(ChannelError::NotInitialized));
}

#[test]
fn corrupt_length_is_reported_and_slot_kept() {
    let mut ch = fresh(2, 16, Framing::LengthPrefixed);
    ch.try_send(b"hello").unwrap();
    let mut region = ch.into_region();
    region[64] = 13; // usable room is 12 bytes
    let mut ch = Channel::open(region, Framing::LengthPrefixed).unwrap();
    let before = ch.region_bytes().to_vec();
    assert_eq!(ch.try_receive(), Err(RecvError::Corrupt));
    assert_eq!(ch.region_bytes(), &before[..]);
    assert_eq!(ch.read_cursor(), 0);
}

#[test]
fn fixed_framing_takes_exact_slots() {
    let mut ch = fresh(2, 4, Framing::Fixed);
    assert_eq!(ch.try_send(b"abc"), Err(SendError::WrongLength));
    assert_eq!(ch.try_send(b"abcde"), Err(SendError::TooLarge));
    assert_eq!(ch.try_send(b"abcd"), Ok(()));
    assert_eq!(&ch.region_bytes()[64..68], b"abcd");
    assert_eq!(ch.try_receive(), Ok(b"abcd".to_vec()));
}

#[test]
fn mismatched_framing_reads_corrupt() {
    let mut ch = fresh(1, 8, Framing::Fixed);
    ch.try_send(&[200, 0, 0, 0, 1, 2, 3, 4]).unwrap();
    let region = ch.into_region();
    let mut other = Channel::open(region, Framing::LengthPrefixed).unwrap();
    assert_eq!(other.try_receive(), Err(RecvError::Corrupt));
}
