//! The TPIU Selected Pin Protocol Register, as far as its transmit-mode
//! field goes: the register is a 32-bit value whose low two bits select the
//! trace-port protocol.

use vstd::prelude::*;

verus! {

/// Trace-port protocol selected in the TPIU Selected Pin Protocol Register.
#[derive(Copy, Clone, Debug)]
pub enum TPIUMode {
    /// Parallel trace port.
    Parallel,
    /// Serial wire output, Manchester encoding.
    Manchester,
    /// Serial wire output, NRZ encoding.
    NRZ,
}

/// Encoding of a transmit mode in the register's TXMODE field.
pub open spec fn spec_txmode_bits(mode: TPIUMode) -> u32 {
    match mode {
        TPIUMode::Parallel => 0,
        TPIUMode::Manchester => 1,
        TPIUMode::NRZ => 2,
    }
}

/// TPIU Selected Pin Protocol Register.  Bits 1..0 hold the TXMODE field;
/// the remaining bits are reserved and preserved on writes.
#[derive(Copy, Clone, Debug)]
#[allow(non_camel_case_types)]
pub struct TPIU_SPPR(pub u32);

impl TPIU_SPPR {
    /// Select a transmit mode: set the TXMODE field (bits 1..0) and leave
    /// every other bit of the register as it was.
    pub fn set_txmode(&mut self, mode: TPIUMode)
        ensures
            final(self).0 == old(self).0 & !3u32 | spec_txmode_bits(mode),
    {
        let val: u32 = match mode {
            TPIUMode::Parallel => 0,
            TPIUMode::Manchester => 1,
            TPIUMode::NRZ => 2,
        };
        self.0 = self.0 & !3u32 | val;
    }
}

} // verus!
