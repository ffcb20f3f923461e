use tpiu::state::{tpiu_next_state, tpiu_sync_byte, TPIUState};

fn legal(s: TPIUState, t: TPIUState) -> bool {
    matches!(
        (s, t),
        (TPIUState::Searching, TPIUState::Searching)
            | (TPIUState::Searching, TPIUState::SearchingSyncing(_))
            | (TPIUState::SearchingSyncing(_), TPIUState::Searching)
            | (TPIUState::SearchingSyncing(_), TPIUState::Framing)
            | (TPIUState::SearchingSyncing(_), TPIUState::SearchingSyncing(_))
            | (TPIUState::Framing, TPIUState::Framing)
            | (TPIUState::Framing, TPIUState::FramingSyncing(_))
            | (TPIUState::FramingSyncing(_), TPIUState::Framing)
            | (TPIUState::FramingSyncing(_), TPIUState::Searching)
            | (TPIUState::FramingSyncing(_), TPIUState::FramingSyncing(_))
    )
}

#[test]
fn all_transitions_stay_legal() {
    let states = [
        TPIUState::Searching,
        TPIUState::SearchingSyncing(1),
        TPIUState::SearchingSyncing(2),
        TPIUState::SearchingSyncing(3),
        TPIUState::Framing,
        TPIUState::FramingSyncing(1),
        TPIUState::FramingSyncing(2),
        TPIUState::FramingSyncing(3),
    ];
    for &s in &states {
        for b in 0..=255u8 {
            let t = tpiu_next_state(s, b, 17);
            assert!(legal(s, t), "illegal transition {:?} -> {:?} on {:#x}", s, t, b);
        }
    }
}

#[test]
fn sync_pattern_bytes() {
    assert_eq!(tpiu_sync_byte(0), 0xff);
    assert_eq!(tpiu_sync_byte(1), 0xff);
    assert_eq!(tpiu_sync_byte(2), 0xff);
    assert_eq!(tpiu_sync_byte(3), 0x7f);
}

#[test]
fn searching_sync_walk() {
    let mut s = TPIUState::Searching;
    s = tpiu_next_state(s, 0xff, 1);
    assert_eq!(s, TPIUState::SearchingSyncing(1));
    s = tpiu_next_state(s, 0xff, 2);
    assert_eq!(s, TPIUState::SearchingSyncing(2));
    s = tpiu_next_state(s, 0xff, 3);
    assert_eq!(s, TPIUState::SearchingSyncing(3));
    s = tpiu_next_state(s, 0x7f, 4);
    assert_eq!(s, TPIUState::Framing);
}

#[test]
fn sync_abort_returns_to_searching() {
    // A mismatched byte aborts the sync attempt, from either side.
    let s = tpiu_next_state(TPIUState::SearchingSyncing(2), 0x00, 9);
    assert_eq!(s, TPIUState::Searching);
    let s = tpiu_next_state(TPIUState::FramingSyncing(3), 0xff, 9);
    assert_eq!(s, TPIUState::Searching);
}

#[test]
fn framing_sync_completion_stays_framed() {
    let mut s = TPIUState::Framing;
    s = tpiu_next_state(s, 0xff, 1);
    assert_eq!(s, TPIUState::FramingSyncing(1));
    s = tpiu_next_state(s, 0xff, 2);
    s = tpiu_next_state(s, 0xff, 3);
    s = tpiu_next_state(s, 0x7f, 4);
    assert_eq!(s, TPIUState::Framing);
}

#[test]
fn plain_bytes_hold_state() {
    assert_eq!(tpiu_next_state(TPIUState::Searching, 0x42, 5), TPIUState::Searching);
    assert_eq!(tpiu_next_state(TPIUState::Framing, 0x42, 5), TPIUState::Framing);
}
