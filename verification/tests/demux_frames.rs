use tpiu::demux::tpiu_process_frame;
use tpiu::frame::TraceByte;

fn demux_frame(bytes: [u8; 16]) -> Vec<TraceByte> {
    let mut f = Vec::new();
    for (j, &b) in bytes.iter().enumerate() {
        f.push(TraceByte { datum: b, time: 100 + j as u64, offset: j + 1 });
    }
    f
}

#[test]
fn delayed_id_with_no_current_orphans_the_byte() {
    // Half-word 0 announces ID 5 with its auxiliary bit set (delayed),
    // and no current channel ID exists yet: the byte is dropped and
    // counted, no packet comes out for it, and ID 5 still becomes
    // current.
    let f = demux_frame([0x0b, 0x99, 0, 0, 0, 0, 0, 0, 0, 0, 0, 0, 0, 0, 0, 0x01]);
    let out = tpiu_process_frame(&f, None);
    assert_eq!(out.orphaned, 1);
    assert_eq!(out.id, 5);
    // 12 data packets from half-words 1..=6, one from half-word 7.
    assert_eq!(out.packets.len(), 13);
    for p in &out.packets {
        assert_eq!(p.id, 5);
    }
}

#[test]
fn delayed_id_with_current_retags_under_old_id() {
    // The same frame, but channel 9 is current: the byte beside the
    // announcement is re-tagged under 9, not under the new ID 5.
    let f = demux_frame([0x0b, 0x99, 0, 0, 0, 0, 0, 0, 0, 0, 0, 0, 0, 0, 0, 0x01]);
    let out = tpiu_process_frame(&f, Some(9));
    assert_eq!(out.orphaned, 0);
    assert_eq!(out.id, 5);
    assert_eq!(out.packets.len(), 14);
    assert_eq!(out.packets[0].id, 9);
    assert_eq!(out.packets[0].datum, 0x99);
    // Everything after the announcement runs under the new ID.
    for p in &out.packets[1..] {
        assert_eq!(p.id, 5);
    }
}

#[test]
fn immediate_id_tags_its_own_byte() {
    // Auxiliary bit clear: the byte beside the announcement already
    // belongs to the new channel.
    let f = demux_frame([0x0b, 0x99, 0, 0, 0, 0, 0, 0, 0, 0, 0, 0, 0, 0, 0, 0x00]);
    let out = tpiu_process_frame(&f, Some(9));
    assert_eq!(out.packets[0].id, 5);
    assert_eq!(out.packets[0].datum, 0x99);
    assert_eq!(out.id, 5);
}

#[test]
fn last_halfword_id_applies_to_next_frame() {
    // Half-word 7 carries a control bit: it emits nothing and only hands
    // the ID forward.
    let f = demux_frame([0x07, 0x42, 0, 0, 0, 0, 0, 0, 0, 0, 0, 0, 0, 0, 0x0d, 0x00]);
    let out = tpiu_process_frame(&f, None);
    assert_eq!(out.id, 6);
    // One packet from half-word 0, twelve from half-words 1..=6, none
    // from half-word 7.
    assert_eq!(out.packets.len(), 13);
    assert_eq!(out.packets[0].id, 3);
    assert_eq!(out.packets[0].datum, 0x42);
}

#[test]
fn displaced_low_bit_is_restored() {
    // Half-word 1 carries the data pair (0x11, 0x22): the odd low bit of
    // 0x11 travels in auxiliary bit 1 and is put back on decode.
    let f = demux_frame([0x07, 0x42, 0x10, 0x22, 0, 0, 0, 0, 0, 0, 0, 0, 0, 0, 0, 0x02]);
    let out = tpiu_process_frame(&f, None);
    assert_eq!(out.packets[0].datum, 0x42);
    assert_eq!(out.packets[1].datum, 0x11);
    assert_eq!(out.packets[2].datum, 0x22);
    for p in &out.packets {
        assert_eq!(p.id, 3);
    }
}

#[test]
fn packet_stamps_follow_source_bytes() {
    let f = demux_frame([0x07, 0x42, 0x10, 0x22, 0, 0, 0, 0, 0, 0, 0, 0, 0, 0, 0, 0x02]);
    let out = tpiu_process_frame(&f, None);
    // The announcement's byte is stamped from the half-word's second byte.
    assert_eq!(out.packets[0].offset, 2);
    assert_eq!(out.packets[0].time, 101);
    // A data pair is stamped byte by byte.
    assert_eq!(out.packets[1].offset, 3);
    assert_eq!(out.packets[2].offset, 4);
    let mut last = 0;
    for p in &out.packets {
        assert!(p.offset > last);
        last = p.offset;
    }
}
