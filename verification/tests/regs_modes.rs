use tpiu::regs::{TPIUMode, TPIU_SPPR};

#[test]
fn txmode_values() {
    let mut r = TPIU_SPPR(0);
    r.set_txmode(TPIUMode::Parallel);
    assert_eq!(r.0, 0);
    r.set_txmode(TPIUMode::Manchester);
    assert_eq!(r.0, 1);
    r.set_txmode(TPIUMode::NRZ);
    assert_eq!(r.0, 2);
}

#[test]
fn txmode_preserves_reserved_bits() {
    let mut r = TPIU_SPPR(0xffff_fff3);
    r.set_txmode(TPIUMode::NRZ);
    assert_eq!(r.0, 0xffff_fff2);
    r.set_txmode(TPIUMode::Parallel);
    assert_eq!(r.0, 0xffff_fff0);
}
