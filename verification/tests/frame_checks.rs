use tpiu::frame::{tpiu_check_byte, tpiu_check_frame, TPIUFrameHalfWord, TraceByte};

fn table(ids: &[u8]) -> Vec<bool> {
    let mut v = vec![false; 256];
    for &i in ids {
        v[i as usize] = true;
    }
    v
}

fn frame_of(bytes: [u8; 16]) -> Vec<TraceByte> {
    let mut f = Vec::new();
    for (j, &b) in bytes.iter().enumerate() {
        f.push(TraceByte { datum: b, time: j as u64, offset: j + 1 });
    }
    f
}

#[test]
fn halfword_fields_from_pair() {
    // First byte lands in the low bits, second byte in the high bits.
    let h = TPIUFrameHalfWord::from((0x34u8, 0x12u8));
    assert_eq!(h.0, 0x1234);
    assert_eq!(h.data_or_aux(), 0x12);
    assert_eq!(h.data_or_id(), 0x1a); // bits 7..1 of 0x34
    assert!(!h.f_control());
}

#[test]
fn halfword_fields_from_u16() {
    let h = TPIUFrameHalfWord::from(0xab07u16);
    assert_eq!(h.data_or_aux(), 0xab);
    assert_eq!(h.data_or_id(), 3); // bits 7..1 of 0x07
    assert!(h.f_control());
}

#[test]
fn byte_check_wants_control_and_membership() {
    let valid = table(&[3]);
    // (3 << 1) | 1: control bit set, ID 3.
    assert!(tpiu_check_byte(0x07, &valid));
    // Control bit clear.
    assert!(!tpiu_check_byte(0x06, &valid));
    // Control bit set but ID 5 is not expected.
    assert!(!tpiu_check_byte(0x0b, &valid));
}

#[test]
fn frame_check_accepts_plain_data() {
    let valid = table(&[3]);
    let f = frame_of([0x07, 0x42, 0, 0, 0, 0, 0, 0, 0, 0, 0, 0, 0, 0, 0, 0]);
    assert!(tpiu_check_frame(&f, &valid, true));
    assert!(tpiu_check_frame(&f, &valid, false));
}

#[test]
fn frame_check_rejects_unexpected_id() {
    let valid = table(&[3]);
    // Half-word 0 announces ID 5, which the table does not hold.
    let f = frame_of([0x0b, 0x42, 0, 0, 0, 0, 0, 0, 0, 0, 0, 0, 0, 0, 0, 0]);
    assert!(!tpiu_check_frame(&f, &valid, true));
}

#[test]
fn intermixing_policy_decides_non_first_id() {
    let valid = table(&[3, 5]);
    // Half-word 0 announces ID 3; half-word 1 announces the different,
    // expected ID 5.
    let f = frame_of([0x07, 0x42, 0x0b, 0x43, 0, 0, 0, 0, 0, 0, 0, 0, 0, 0, 0, 0]);
    assert!(tpiu_check_frame(&f, &valid, true));
    assert!(!tpiu_check_frame(&f, &valid, false));
}

#[test]
fn null_id_is_always_accepted() {
    let valid = table(&[3]);
    // Half-word 1 announces the NULL ID (filler): accepted even with
    // intermixing disallowed.
    let f = frame_of([0x07, 0x42, 0x01, 0x43, 0, 0, 0, 0, 0, 0, 0, 0, 0, 0, 0, 0]);
    assert!(tpiu_check_frame(&f, &valid, true));
    assert!(tpiu_check_frame(&f, &valid, false));
}
