use ipc::ring::Buffer;

fn open_owner(name: &str, size: u32) -> Buffer {
    Buffer::new(name, true, size).expect("owner open")
}

#[test]
fn empty_buffer_reports_sizes() {
    let b = open_owner("/ring-sizes", 4);
    assert_eq!(b.capacity_bytes(), 16);
    assert_eq!(b.available_bytes(), 0);
    assert_eq!(b.free_bytes(), 16);
}

#[test]
fn round_trip_single_chunk() {
    let mut b = open_owner("/ring-rt", 4);
    let data: Vec<u8> = (1..=10).collect();
    let n = b.try_write(&data);
    assert_eq!(n, 10);
    assert_eq!(b.available_bytes(), 10);
    let mut out = vec![0u8; 10];
    let m = b.try_read(&mut out);
    assert_eq!(m, 10);
    assert_eq!(out, data);
    assert_eq!(b.available_bytes(), 0);
}

#[test]
fn round_trip_rechunked() {
    // Bytes written in chunks of 3 come back in chunks of 4, in the
    // exact order written, regardless of the chunking on either side.
    let mut b = open_owner("/ring-chunks", 8);
    let stream: Vec<u8> = (0..30u8).collect();
    let mut written = 0;
    while written < stream.len() {
        let upper = (written + 3).min(stream.len());
        let n = b.try_write(&stream[written..upper]);
        assert_eq!(n, upper - written);
        written = upper;
    }
    let mut received: Vec<u8> = Vec::new();
    while received.len() < stream.len() {
        let mut out = vec![0u8; 4];
        let m = b.try_read(&mut out);
        assert!(m > 0);
        received.extend_from_slice(&out[..m]);
    }
    assert_eq!(received, stream);
}

#[test]
fn zero_length_request_returns_zero() {
    let mut b = open_owner("/ring-zero", 4);
    let n = b.try_write(&[]);
    assert_eq!(n, 0);
    let mut out: Vec<u8> = Vec::new();
    let m = b.try_read(&mut out);
    assert_eq!(m, 0);
    b.try_write(&[1, 2, 3]);
    let m = b.try_read(&mut Vec::new());
    assert_eq!(m, 0);
    assert_eq!(b.available_bytes(), 3);
}

#[test]
fn full_buffer_refuses_then_resumes_after_read() {
    // Payload capacity 4 (region size 5): exactly 4 bytes fit; the
    // next write moves nothing until at least one byte is read.
    let mut b = open_owner("/ring-full", 1);
    assert_eq!(b.capacity_bytes(), 4);
    let n = b.try_write(&[10, 20, 30, 40, 50]);
    assert_eq!(n, 4);
    assert_eq!(b.free_bytes(), 0);
    let n = b.try_write(&[60]);
    assert_eq!(n, 0);
    let mut out = vec![0u8; 1];
    let m = b.try_read(&mut out);
    assert_eq!(m, 1);
    assert_eq!(out[0], 10);
    let n = b.try_write(&[60]);
    assert_eq!(n, 1);
    let mut rest = vec![0u8; 4];
    let m = b.try_read(&mut rest);
    assert_eq!(m, 4);
    assert_eq!(rest, vec![20, 30, 40, 60]);
}

#[test]
fn wraparound_pattern_preserves_bytes() {
    // Payload capacity 16: writing and reading 10 bytes at a time
    // crosses the physical end of the region repeatedly; every byte
    // must come back exactly.
    let mut b = open_owner("/ring-wrap", 4);
    assert_eq!(b.capacity_bytes(), 16);
    let mut counter = 0u8;
    for _round in 0..50 {
        let chunk: Vec<u8> = (0..10).map(|_| {
            counter = counter.wrapping_add(1);
            counter
        }).collect();
        let n = b.try_write(&chunk);
        assert_eq!(n, 10);
        let mut out = vec![0u8; 10];
        let m = b.try_read(&mut out);
        assert_eq!(m, 10);
        assert_eq!(out, chunk);
    }
    assert_eq!(b.available_bytes(), 0);
}

#[test]
fn partial_transfer_accounting_small_and_large() {
    // Accumulating returned counts converges on the total for
    // messages both smaller and larger than the ring capacity.
    let mut b = open_owner("/ring-partial", 2);
    assert_eq!(b.capacity_bytes(), 8);
    for message_len in [3usize, 8, 20, 45] {
        let message: Vec<u8> = (0..message_len).map(|i| (i * 7 + 13) as u8).collect();
        let mut sent = 0;
        let mut received: Vec<u8> = Vec::new();
        while received.len() < message_len {
            if sent < message_len {
                let n = b.try_write(&message[sent..]);
                sent += n;
            }
            let mut out = vec![0u8; 6];
            let m = b.try_read(&mut out);
            assert!(m > 0);
            received.extend_from_slice(&out[..m]);
        }
        assert_eq!(sent, message_len);
        assert_eq!(received, message);
    }
}

#[test]
fn sustained_throughput_scenario() {
    // Capacity 4096 payload bytes; one million 64-byte messages pass
    // through; the consumer's accumulated count reaches exactly
    // 64,000,000 bytes and every byte matches its message pattern.
    let mut b = open_owner("/ring-bench", 1024);
    assert_eq!(b.capacity_bytes(), 4096);
    const MESSAGES: usize = 1_000_000;
    const MESSAGE_LEN: usize = 64;
    const TOTAL: usize = MESSAGES * MESSAGE_LEN;
    assert_eq!(TOTAL, 64_000_000);
    let mut message = [0u8; MESSAGE_LEN];
    let mut produced = 0usize;
    let mut consumed = 0usize;
    let mut out = vec![0u8; MESSAGE_LEN];
    while consumed < TOTAL {
        while produced < TOTAL {
            let seq = (produced / MESSAGE_LEN) as u8;
            for slot in message.iter_mut() {
                *slot = seq;
            }
            let sent = b.try_write(&message);
            if sent == 0 {
                break;
            }
            assert_eq!(sent, MESSAGE_LEN);
            produced += sent;
        }
        let got = b.try_read(&mut out);
        assert!(got > 0);
        for &byte in &out[..got] {
            let expected = (consumed / MESSAGE_LEN) as u8;
            assert_eq!(byte, expected);
            consumed += 1;
        }
    }
    assert_eq!(consumed, TOTAL);
    assert_eq!(produced, TOTAL);
    assert_eq!(b.available_bytes(), 0);
}
