use tpiu::ingest::{tpiu_ingest, tpiu_ingest_step, TPIUIngestState};
use tpiu::state::TPIUState;

fn expect(ids: &[u8]) -> Vec<bool> {
    let mut v = vec![false; 256];
    for &i in ids {
        v[i as usize] = true;
    }
    v
}

fn stream_of(bytes: &[u8]) -> Vec<(u8, u64)> {
    bytes.iter().enumerate().map(|(j, &b)| (b, 1000 + j as u64)).collect()
}

const SYNC: [u8; 4] = [0xff, 0xff, 0xff, 0x7f];

/// The 16 frame bytes that carry `id` and the 14 data bytes `data`:
/// half-word 0 announces the ID beside `data[0]`, the rest are plain
/// pairs with each even byte's low bit displaced into the final byte.
fn encode_frame(id: u8, data: &[u8; 14]) -> [u8; 16] {
    let mut f = [0u8; 16];
    f[0] = (id << 1) | 1;
    f[1] = data[0];
    let mut aux = 0u8;
    for k in 1..7 {
        f[2 * k] = data[2 * k - 1] & 0xfe;
        f[2 * k + 1] = data[2 * k];
        aux |= (data[2 * k - 1] & 1) << k;
    }
    f[14] = data[13] & 0xfe;
    aux |= (data[13] & 1) << 7;
    f[15] = aux;
    f
}

#[test]
fn empty_stream_reports_nothing() {
    let valid = expect(&[3]);
    let rep = tpiu_ingest(&valid, &[]).unwrap();
    assert_eq!(rep.packets.len(), 0);
    assert_eq!(rep.nvalid, 0);
    assert_eq!(rep.orphaned, 0);
}

#[test]
fn end_to_end_single_frame() {
    // Sync, then one frame: half-word 0 announces ID 3 (no delay) beside
    // datum 0x42; everything after runs as plain data under ID 3.
    let valid = expect(&[3]);
    let data: [u8; 14] = [
        0x42, 0x10, 0x11, 0x12, 0x13, 0x14, 0x15, 0x16, 0x17, 0x18, 0x19, 0x1a, 0x1b, 0x1c,
    ];
    let mut bytes = SYNC.to_vec();
    bytes.extend_from_slice(&encode_frame(3, &data));
    let rep = tpiu_ingest(&valid, &stream_of(&bytes)).unwrap();

    assert_eq!(rep.nvalid, 1);
    assert_eq!(rep.orphaned, 0);
    assert_eq!(rep.packets.len(), 14);
    for (j, p) in rep.packets.iter().enumerate() {
        assert_eq!(p.id, 3);
        assert_eq!(p.datum, data[j]);
    }
    let mut last = 0;
    for p in &rep.packets {
        assert!(p.offset > last);
        last = p.offset;
    }
    // The first packet is stamped from the frame's second byte: sync took
    // offsets 1..=4, the frame starts at 5.
    assert_eq!(rep.packets[0].offset, 6);
}

#[test]
fn synthetic_stream_round_trips() {
    // Two frames under two expected IDs, the second with odd data bytes
    // whose low bits travel through the auxiliary byte.
    let valid = expect(&[3, 5]);
    let d1: [u8; 14] = [0x42, 2, 4, 6, 8, 10, 12, 14, 16, 18, 20, 22, 24, 26];
    let d2: [u8; 14] = [0xa1, 0x0f, 0x22, 0x07, 0x44, 1, 0, 3, 0x80, 5, 0x66, 7, 0x88, 0x09];
    let mut bytes = SYNC.to_vec();
    bytes.extend_from_slice(&encode_frame(3, &d1));
    bytes.extend_from_slice(&encode_frame(5, &d2));
    let rep = tpiu_ingest(&valid, &stream_of(&bytes)).unwrap();

    assert_eq!(rep.nvalid, 2);
    assert_eq!(rep.packets.len(), 28);
    for j in 0..14 {
        assert_eq!(rep.packets[j].id, 3);
        assert_eq!(rep.packets[j].datum, d1[j]);
        assert_eq!(rep.packets[14 + j].id, 5);
        assert_eq!(rep.packets[14 + j].datum, d2[j]);
    }
    let mut last = 0;
    for p in &rep.packets {
        assert!(p.offset > last);
        last = p.offset;
    }
}

#[test]
fn resync_by_scan_at_index_five() {
    // While searching, a first frame candidate collects 16 bytes but
    // fails validation (half-word 1 carries the unexpected ID 0x20).
    // Only the byte at buffer index 5 passes the byte check, so the 11
    // bytes from there on shift down and 5 fresh bytes complete the next
    // frame, which validates at that candidate's offset.
    let valid = expect(&[1]);
    let mut bytes = vec![0x03, 0x00, 0x41, 0x00, 0x00, 0x03, 0, 0, 0, 0, 0, 0, 0, 0, 0, 0];
    bytes.extend_from_slice(&[0, 0, 0, 0, 0]);
    let rep = tpiu_ingest(&valid, &stream_of(&bytes)).unwrap();

    assert_eq!(rep.nvalid, 1);
    assert_eq!(rep.packets.len(), 14);
    for p in &rep.packets {
        assert_eq!(p.id, 1);
        assert_eq!(p.datum, 0);
    }
    // The validated frame starts at stream offset 6 (the candidate), so
    // its first packet is stamped from offset 7.
    assert_eq!(rep.packets[0].offset, 7);
}

#[test]
fn null_tagged_filler_never_comes_out() {
    // Half-word 1 announces the NULL ID: its byte and everything that
    // then runs under NULL is filler and is dropped before the consumer.
    let valid = expect(&[3]);
    let mut frame = [0u8; 16];
    frame[0] = 0x07;
    frame[1] = 0x42;
    frame[2] = 0x01; // control bit set, ID 0
    frame[3] = 0xaa;
    let mut bytes = SYNC.to_vec();
    bytes.extend_from_slice(&frame);
    let rep = tpiu_ingest(&valid, &stream_of(&bytes)).unwrap();

    assert_eq!(rep.nvalid, 1);
    assert_eq!(rep.packets.len(), 1);
    assert_eq!(rep.packets[0].id, 3);
    assert_eq!(rep.packets[0].datum, 0x42);
}

#[test]
fn orphaned_byte_is_counted_not_emitted() {
    // The first frame's announcement is delayed (auxiliary bit 0 set)
    // and no channel ID exists yet: its byte is dropped and counted.
    let valid = expect(&[3]);
    let mut frame = [0u8; 16];
    frame[0] = 0x07;
    frame[1] = 0x99;
    frame[15] = 0x01;
    let mut bytes = SYNC.to_vec();
    bytes.extend_from_slice(&frame);
    let rep = tpiu_ingest(&valid, &stream_of(&bytes)).unwrap();

    assert_eq!(rep.orphaned, 1);
    assert_eq!(rep.nvalid, 1);
    // 12 packets from half-words 1..=6, one from half-word 7, none from
    // the orphaned announcement.
    assert_eq!(rep.packets.len(), 13);
    for p in &rep.packets {
        assert_eq!(p.id, 3);
    }
}

#[test]
fn one_invalid_frame_resets_the_counter() {
    // Valid, invalid, valid: the middle frame is tolerated (framing is
    // kept) but the consecutive-valid counter restarts.
    let valid = expect(&[3]);
    let data: [u8; 14] = [0x42, 0, 0, 0, 0, 0, 0, 0, 0, 0, 0, 0, 0, 0];
    let good = encode_frame(3, &data);
    let mut bad = [0u8; 16];
    bad[0] = 0x41; // control bit set, unexpected ID 0x20
    let mut bytes = SYNC.to_vec();
    bytes.extend_from_slice(&good);
    bytes.extend_from_slice(&bad);
    bytes.extend_from_slice(&good);
    let rep = tpiu_ingest(&valid, &stream_of(&bytes)).unwrap();

    assert_eq!(rep.nvalid, 1);
    assert_eq!(rep.packets.len(), 28);
}

#[test]
fn two_invalid_frames_resume_search() {
    // Right after sync the counter is 0, so the first invalid frame
    // already gives alignment up.
    let valid = expect(&[3]);
    let mut s = TPIUIngestState::new();
    for (j, &b) in SYNC.iter().enumerate() {
        let out = tpiu_ingest_step(&mut s, &valid, b, j as u64);
        assert!(!out.fatal);
        assert!(out.packets.is_empty());
    }
    assert_eq!(s.state, TPIUState::Framing);

    let mut bad = [0u8; 16];
    bad[0] = 0x41;
    for (j, &b) in bad.iter().enumerate() {
        let out = tpiu_ingest_step(&mut s, &valid, b, 100 + j as u64);
        assert!(!out.fatal);
        assert!(out.packets.is_empty());
    }
    assert_eq!(s.state, TPIUState::Searching);
    assert_eq!(s.nvalid, 0);
    assert_eq!(s.offs, 20);
    assert_eq!(s.ndx, 0);
}

#[test]
fn leftover_bytes_decode_nothing() {
    // A stream that ends mid-frame delivers no packets for the remnant.
    let valid = expect(&[3]);
    let mut bytes = SYNC.to_vec();
    bytes.extend_from_slice(&[0x07, 0x42, 0x00]);
    let rep = tpiu_ingest(&valid, &stream_of(&bytes)).unwrap();
    assert_eq!(rep.nvalid, 0);
    assert_eq!(rep.packets.len(), 0);
}
