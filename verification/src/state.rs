//! The framing state machine: tracks whether the stream is aligned to
//! 16-byte TPIU frames and how much of the 4-byte sync pattern has been
//! matched so far.

use vstd::prelude::*;

verus! {

/// Alignment status of the incoming trace stream.  The `usize` payload of
/// the two `*Syncing` states counts how many bytes of the sync pattern have
/// been matched so far; it is always between 1 and 3.
#[derive(Copy, Clone, Debug, PartialEq, Eq, Structural)]
pub enum TPIUState {
    /// Not frame-aligned; looking for a plausible frame start or a sync
    /// pattern.
    Searching,
    /// Not frame-aligned; the first `k` bytes of the sync pattern have
    /// been matched.
    SearchingSyncing(usize),
    /// Frame-aligned; consuming 16-byte frames.
    Framing,
    /// Frame-aligned; the first `k` bytes of the sync pattern have been
    /// matched.
    FramingSyncing(usize),
}

/// Byte `k` of the 4-byte frame synchronization pattern `FF FF FF 7F`.
pub open spec fn spec_sync_byte(k: int) -> u8 {
    if k == 3 {
        0x7f
    } else {
        0xff
    }
}

/// Byte `k` of the 4-byte frame synchronization pattern `FF FF FF 7F`.
pub fn tpiu_sync_byte(k: usize) -> (b: u8)
    requires
        k < 4,
    ensures
        b == spec_sync_byte(k as int),
{
    if k == 3 {
        0x7f
    } else {
        0xff
    }
}

/// A well-formed state never claims more than 3 matched sync bytes: the
/// fourth match completes the pattern and leaves the `*Syncing` states.
pub open spec fn state_wf(s: TPIUState) -> bool {
    match s {
        TPIUState::SearchingSyncing(k) => 1 <= k < 4,
        TPIUState::FramingSyncing(k) => 1 <= k < 4,
        _ => true,
    }
}

/// The transition the framing state machine performs on one input byte.
pub open spec fn spec_next_state(s: TPIUState, byte: u8) -> TPIUState {
    match s {
        TPIUState::SearchingSyncing(k) => if byte != spec_sync_byte(k as int) {
            TPIUState::Searching
        } else if k + 1 < 4 {
            TPIUState::SearchingSyncing((k + 1) as usize)
        } else {
            TPIUState::Framing
        },
        TPIUState::FramingSyncing(k) => if byte != spec_sync_byte(k as int) {
            TPIUState::Searching
        } else if k + 1 < 4 {
            TPIUState::FramingSyncing((k + 1) as usize)
        } else {
            TPIUState::Framing
        },
        TPIUState::Searching => if byte != spec_sync_byte(0) {
            TPIUState::Searching
        } else {
            TPIUState::SearchingSyncing(1)
        },
        TPIUState::Framing => if byte != spec_sync_byte(0) {
            TPIUState::Framing
        } else {
            TPIUState::FramingSyncing(1)
        },
    }
}

/// The enumerated set of legal (state, next-state) pairs.  Any pair outside
/// this set would indicate a defect in the machine itself, never a property
/// of the input.
pub open spec fn legal_transition(s: TPIUState, t: TPIUState) -> bool {
    match (s, t) {
        (TPIUState::Searching, TPIUState::Searching) => true,
        (TPIUState::Searching, TPIUState::SearchingSyncing(_)) => true,
        (TPIUState::SearchingSyncing(_), TPIUState::Searching) => true,
        (TPIUState::SearchingSyncing(_), TPIUState::Framing) => true,
        (TPIUState::SearchingSyncing(_), TPIUState::SearchingSyncing(_)) => true,
        (TPIUState::Framing, TPIUState::Framing) => true,
        (TPIUState::Framing, TPIUState::FramingSyncing(_)) => true,
        (TPIUState::FramingSyncing(_), TPIUState::Framing) => true,
        (TPIUState::FramingSyncing(_), TPIUState::Searching) => true,
        (TPIUState::FramingSyncing(_), TPIUState::FramingSyncing(_)) => true,
        _ => false,
    }
}

/// Law: on every byte, a well-formed state steps only along the enumerated
/// legal transitions, and stays well-formed.  No other (state, next-state)
/// pair is reachable, whatever the input stream.
pub proof fn lemma_next_state_legal(s: TPIUState, byte: u8)
    requires
        state_wf(s),
    ensures
        legal_transition(s, spec_next_state(s, byte)),
        state_wf(spec_next_state(s, byte)),
{
}

/// Advance the framing state machine by one input byte.  `_offset` is the
/// byte's position in the stream; it plays no part in the transition and is
/// kept for callers that report diagnostics.
pub fn tpiu_next_state(state: TPIUState, byte: u8, _offset: usize) -> (nstate: TPIUState)
    requires
        state_wf(state),
    ensures
        nstate == spec_next_state(state, byte),
        state_wf(nstate),
        legal_transition(state, nstate),
{
    match state {
        TPIUState::SearchingSyncing(next) => {
            if byte != tpiu_sync_byte(next) {
                TPIUState::Searching
            } else if next + 1 < 4 {
                TPIUState::SearchingSyncing(next + 1)
            } else {
                TPIUState::Framing
            }
        },
        TPIUState::FramingSyncing(next) => {
            if byte != tpiu_sync_byte(next) {
                TPIUState::Searching
            } else if next + 1 < 4 {
                TPIUState::FramingSyncing(next + 1)
            } else {
                TPIUState::Framing
            }
        },
        TPIUState::Searching => {
            if byte != tpiu_sync_byte(0) {
                TPIUState::Searching
            } else {
                TPIUState::SearchingSyncing(1)
            }
        },
        TPIUState::Framing => {
            if byte != tpiu_sync_byte(0) {
                TPIUState::Framing
            } else {
                TPIUState::FramingSyncing(1)
            }
        },
    }
}

} // verus!
