use ipc::errors::Error;
use ipc::ring::Buffer;
use ipc::shm::Shm;

fn put_le(bytes: &mut [u8], off: usize, v: u32) {
    let le = v.to_le_bytes();
    bytes[off..off + 4].copy_from_slice(&le);
}

/// A raw region carrying a valid, empty ring header of data capacity
/// `cap`.
fn fresh_region(cap: u32) -> Vec<u8> {
    let mut bytes = vec![0u8; 20 + cap as usize];
    put_le(&mut bytes, 8, cap);
    bytes
}

#[test]
fn create_gives_zeroed_owned_region() {
    let s = Shm::create("/seg-create", 32);
    assert_eq!(s.len(), 32);
    assert_eq!(s.name(), "/seg-create");
    assert!(s.owner());
    assert!(s.as_bytes().iter().all(|&b| b == 0));
}

#[test]
fn attach_takes_region_of_sufficient_size() {
    let region = vec![0u8; 40];
    let s = Shm::attach("/seg-attach", region, 32).expect("attach");
    assert_eq!(s.len(), 40);
    assert_eq!(s.name(), "/seg-attach");
    assert!(!s.owner());
}

#[test]
fn attach_rejects_short_region() {
    let region = vec![0u8; 10];
    match Shm::attach("/seg-short", region, 32) {
        Err(Error::SizeMismatch(expected, actual)) => {
            assert_eq!(expected, 32);
            assert_eq!(actual, 10);
        }
        other => panic!("expected size mismatch, got {:?}", other.map(|_| ())),
    }
}

#[test]
fn peer_attaches_to_live_header_without_reinitializing() {
    // A region with a valid header and three queued bytes: the peer
    // must see the queued bytes untouched, not a reset channel.
    let mut region = fresh_region(8);
    put_le(&mut region, 0, 2); // head
    put_le(&mut region, 4, 5); // tail
    region[20 + 2] = 11;
    region[20 + 3] = 12;
    region[20 + 4] = 13;
    let seg = Shm::attach("/seg-live", region, 28).expect("attach");
    let mut b = Buffer::from_region(seg).expect("valid header");
    assert_eq!(b.capacity_bytes(), 7);
    assert_eq!(b.available_bytes(), 3);
    let mut out = vec![0u8; 3];
    let m = b.try_read(&mut out);
    assert_eq!(m, 3);
    assert_eq!(out, vec![11, 12, 13]);
}

#[test]
fn peer_round_trip_across_the_wrap() {
    // Head near the region's physical end: the next writes and reads
    // must wrap to the start without corrupting anything.
    let mut region = fresh_region(8);
    put_le(&mut region, 0, 6); // head
    put_le(&mut region, 4, 6); // tail: empty, but close to the end
    let seg = Shm::attach("/seg-wrap", region, 28).expect("attach");
    let mut b = Buffer::from_region(seg).expect("valid header");
    let n = b.try_write(&[1, 2, 3, 4, 5, 6, 7]);
    assert_eq!(n, 7);
    assert_eq!(b.free_bytes(), 0);
    let mut out = vec![0u8; 7];
    let m = b.try_read(&mut out);
    assert_eq!(m, 7);
    assert_eq!(out, vec![1, 2, 3, 4, 5, 6, 7]);
}

#[test]
fn from_region_rejects_region_shorter_than_header() {
    let seg = Shm::attach("/seg-tiny", vec![0u8; 12], 0).expect("attach");
    match Buffer::from_region(seg) {
        Err(Error::SizeMismatch(expected, actual)) => {
            assert_eq!(expected, 21);
            assert_eq!(actual, 12);
        }
        other => panic!("expected size mismatch, got {:?}", other.map(|_| ())),
    }
}

#[test]
fn from_region_rejects_capacity_not_matching_length() {
    let mut region = vec![0u8; 30];
    put_le(&mut region, 8, 50); // header claims more than the region holds
    let seg = Shm::attach("/seg-caplen", region, 30).expect("attach");
    assert!(matches!(Buffer::from_region(seg), Err(Error::CorruptHeader)));
}

#[test]
fn from_region_rejects_out_of_range_indices() {
    let mut region = fresh_region(8);
    put_le(&mut region, 0, 9); // head beyond the data region
    let seg = Shm::attach("/seg-head", region, 28).expect("attach");
    assert!(matches!(Buffer::from_region(seg), Err(Error::CorruptHeader)));

    let mut region = fresh_region(8);
    put_le(&mut region, 4, 8); // tail just past the last slot
    let seg = Shm::attach("/seg-tail", region, 28).expect("attach");
    assert!(matches!(Buffer::from_region(seg), Err(Error::CorruptHeader)));
}

#[test]
fn from_region_rejects_garbage_wait_words() {
    let mut region = fresh_region(8);
    put_le(&mut region, 12, 7); // reader word outside {available, asleep}
    let seg = Shm::attach("/seg-word", region, 28).expect("attach");
    assert!(matches!(Buffer::from_region(seg), Err(Error::CorruptHeader)));
}

#[test]
fn owner_buffer_layout_matches_fresh_header() {
    // The owner's initialized region read back as a peer: both sides
    // agree on one binary layout.
    let b = Buffer::new("/seg-owner", true, 2).expect("owner open");
    assert_eq!(b.capacity_bytes(), 8);
    let region = fresh_region(9);
    let seg = Shm::attach("/seg-peer", region, 29).expect("attach");
    let peer = Buffer::from_region(seg).expect("valid header");
    assert_eq!(peer.capacity_bytes(), 8);
    assert_eq!(peer.available_bytes(), 0);
}
