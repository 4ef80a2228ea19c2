use camstream::chunks::{frame_messages, frame_payload, try_frame_payload};

/// Reassembles chunks by stripping each prefix and concatenating the rest in
/// sequence order.
fn reassemble(chunks: &Vec<Vec<u8>>) -> Vec<u8> {
    let mut out = Vec::new();
    for (i, c) in chunks.iter().enumerate() {
        let prefix = if i == 0 { 4 } else { 1 };
        out.extend_from_slice(&c[prefix..]);
    }
    out
}

fn sample_payload(len: usize) -> Vec<u8> {
    let mut p = Vec::new();
    let mut i: usize = 0;
    while i < len {
        p.push((i % 251) as u8);
        i += 1;
    }
    p
}

#[test]
fn empty_payload_yields_no_chunks() {
    let payload: Vec<u8> = Vec::new();
    let chunks = frame_payload(&payload, 512);
    assert_eq!(chunks.len(), 0);
}

#[test]
fn single_chunk_payload() {
    let payload = sample_payload(100);
    let chunks = frame_payload(&payload, 512);
    assert_eq!(chunks.len(), 1);
    // seq byte, size field 512 little-endian, count 1, then the payload
    assert_eq!(chunks[0][0], 0);
    assert_eq!(chunks[0][1], 0x00);
    assert_eq!(chunks[0][2], 0x02);
    assert_eq!(chunks[0][3], 1);
    assert_eq!(&chunks[0][4..], &payload[..]);
}

#[test]
fn chunk_boundary_counts() {
    // cap - 1 payload bytes fit one chunk; one more needs a second
    let cap = 10;
    let exactly_one = sample_payload(9);
    assert_eq!(frame_payload(&exactly_one, cap).len(), 1);
    let just_over = sample_payload(10);
    assert_eq!(frame_payload(&just_over, cap).len(), 2);
}

#[test]
fn split_1030_bytes_at_capacity_512() {
    // ceil(1030 / 511) = 3 chunks
    let payload = sample_payload(1030);
    let chunks = frame_payload(&payload, 512);
    assert_eq!(chunks.len(), 3);

    // first chunk: header then the first 511 payload bytes
    assert_eq!(chunks[0][0], 0);
    assert_eq!(chunks[0][1], 0x00);
    assert_eq!(chunks[0][2], 0x02);
    assert_eq!(chunks[0][3], 3);
    assert_eq!(&chunks[0][4..], &payload[0..511]);

    // later chunks: sequence byte then the next slices
    assert_eq!(chunks[1][0], 1);
    assert_eq!(&chunks[1][1..], &payload[511..1022]);
    assert_eq!(chunks[2][0], 2);
    assert_eq!(&chunks[2][1..], &payload[1022..1030]);

    // reassembly gives back the payload byte for byte
    assert_eq!(reassemble(&chunks), payload);
}

#[test]
fn reassembly_round_trips_many_sizes() {
    for &(len, cap) in &[(0usize, 2usize), (1, 2), (5, 2), (7, 8), (8, 8), (100, 8), (764, 765), (765, 765), (2000, 765)] {
        let payload = sample_payload(len);
        let chunks = frame_payload(&payload, cap);
        let expected = if len == 0 { 0 } else { (len - 1) / (cap - 1) + 1 };
        assert_eq!(chunks.len(), expected, "len {} cap {}", len, cap);
        assert_eq!(reassemble(&chunks), payload, "len {} cap {}", len, cap);
    }
}

#[test]
fn count_field_matches_chunk_count() {
    for &len in &[1usize, 511, 512, 1030, 4000] {
        let payload = sample_payload(len);
        let chunks = frame_payload(&payload, 512);
        assert_eq!(chunks[0][3] as usize, chunks.len());
    }
}

#[test]
fn oversized_payload_is_rejected() {
    // at capacity 2 every chunk carries one payload byte: 256 chunks needed
    let payload = sample_payload(256);
    assert!(try_frame_payload(&payload, 2).is_none());
    // 255 chunks still fit the one-byte count field
    let payload = sample_payload(255);
    let chunks = try_frame_payload(&payload, 2).expect("255 chunks must be accepted");
    assert_eq!(chunks.len(), 255);
    assert_eq!(reassemble(&chunks), payload);
}

#[test]
fn channel_messages_pad_unused_channels() {
    // 1030 bytes at capacity 512 need 3 chunks; the other channels get
    // explicit empty messages so exactly one message per channel goes out
    let payload = sample_payload(1030);
    let msgs = frame_messages(&payload, 512, 40);
    assert_eq!(msgs.len(), 40);
    for (i, m) in msgs.iter().enumerate() {
        if i < 3 {
            assert!(!m.is_empty());
        } else {
            assert!(m.is_empty());
        }
    }
    assert_eq!(reassemble(&msgs[..3].to_vec()), payload);
}
