//! TPIU frames and their validation: captured trace bytes, 16-byte frames
//! read as 8 half-words, and the two consistency checks used to find and
//! keep frame alignment.

use vstd::prelude::*;

verus! {

/// The NULL channel ID: bytes tagged with it are protocol filler and are
/// never delivered as trace data.
pub const TPIU_ID_NULL: u8 = 0;

/// One captured trace byte: the byte itself, its capture time (an opaque
/// caller-supplied stamp, monotone along the stream), and its 1-based
/// position in the stream.
#[derive(Copy, Clone, Debug, PartialEq, Eq, Structural)]
pub struct TraceByte {
    /// The captured byte.
    pub datum: u8,
    /// Caller-supplied capture-time stamp.
    pub time: u64,
    /// 1-based byte count since the start of the stream.
    pub offset: usize,
}

/// One decoded per-channel byte, as handed to the consumer.
#[derive(Copy, Clone, Debug, PartialEq, Eq, Structural)]
pub struct TPIUPacket {
    /// Channel ID the byte belongs to.
    pub id: u8,
    /// The decoded data byte.
    pub datum: u8,
    /// Stream offset of the source byte.
    pub offset: usize,
    /// Capture-time stamp of the source byte.
    pub time: u64,
}

/// A frame half-word: two consecutive frame bytes packed with the second
/// byte in bits 15..8 and the first in bits 7..0.  The low bit is the
/// control bit; bits 7..1 carry either data or a channel ID; bits 15..8
/// carry either data or the auxiliary byte.
#[derive(Copy, Clone, Debug)]
pub struct TPIUFrameHalfWord(pub u16);

/// The packed half-word value for a (first, second) byte pair.
pub open spec fn spec_halfword(lo: u8, hi: u8) -> u16 {
    (hi as u16) << 8 | (lo as u16)
}

/// Bits 15..8 of a half-word: a data byte, or (in the frame's last
/// half-word) the auxiliary byte.
pub open spec fn spec_data_or_aux(v: u16) -> u16 {
    (v >> 8) & 0xff
}

/// Bits 7..1 of a half-word: a data field, or a 7-bit channel ID.
pub open spec fn spec_data_or_id(v: u16) -> u16 {
    (v >> 1) & 0x7f
}

/// Bit 0 of a half-word: set when the half-word announces a channel-ID
/// change.
pub open spec fn spec_f_control(v: u16) -> bool {
    v & 1 == 1
}

/// How the half-word fields relate to the two bytes they were packed from.
pub proof fn lemma_halfword_fields(lo: u8, hi: u8)
    by (bit_vector)
    ensures
        spec_data_or_aux(spec_halfword(lo, hi)) == hi as u16,
        spec_data_or_id(spec_halfword(lo, hi)) == (lo as u16) >> 1,
        spec_f_control(spec_halfword(lo, hi)) == (lo & 1 == 1),
        spec_f_control(spec_halfword(lo, hi)) == spec_f_control(lo as u16),
        spec_data_or_id(spec_halfword(lo, hi)) == spec_data_or_id(lo as u16),
{
}

/// The ID field of any half-word is 7 bits wide.
pub proof fn lemma_halfword_bounds(v: u16)
    by (bit_vector)
    ensures
        spec_data_or_id(v) < 128,
        spec_data_or_aux(v) < 256,
{
}

impl TPIUFrameHalfWord {
    /// Bits 15..8: a data byte, or the auxiliary byte.
    pub fn data_or_aux(&self) -> (r: u16)
        ensures
            r == spec_data_or_aux(self.0),
    {
        (self.0 >> 8) & 0xff
    }

    /// Bits 7..1: a data field, or a 7-bit channel ID.
    pub fn data_or_id(&self) -> (r: u16)
        ensures
            r == spec_data_or_id(self.0),
    {
        (self.0 >> 1) & 0x7f
    }

    /// Bit 0: the control bit.
    pub fn f_control(&self) -> (r: bool)
        ensures
            r == spec_f_control(self.0),
    {
        self.0 & 1 == 1
    }
}

impl From<u16> for TPIUFrameHalfWord {
    fn from(value: u16) -> (r: Self) {
        TPIUFrameHalfWord(value)
    }
}

impl vstd::std_specs::convert::FromSpecImpl<u16> for TPIUFrameHalfWord {
    open spec fn obeys_from_spec() -> bool {
        true
    }

    open spec fn from_spec(value: u16) -> Self {
        TPIUFrameHalfWord(value)
    }
}

impl From<(u8, u8)> for TPIUFrameHalfWord {
    fn from(value: (u8, u8)) -> (r: Self) {
        TPIUFrameHalfWord((value.1 as u16) << 8 | (value.0 as u16))
    }
}

impl vstd::std_specs::convert::FromSpecImpl<(u8, u8)> for TPIUFrameHalfWord {
    open spec fn obeys_from_spec() -> bool {
        true
    }

    open spec fn from_spec(value: (u8, u8)) -> Self {
        TPIUFrameHalfWord(spec_halfword(value.0, value.1))
    }
}

/// First byte of half-word `i` of a frame.
pub open spec fn spec_hw_lo(frame: Seq<TraceByte>, i: int) -> TraceByte {
    frame[2 * i]
}

/// Second byte of half-word `i` of a frame.
pub open spec fn spec_hw_hi(frame: Seq<TraceByte>, i: int) -> TraceByte {
    frame[2 * i + 1]
}

/// The packed value of half-word `i` of a frame.
pub open spec fn spec_hw(frame: Seq<TraceByte>, i: int) -> u16 {
    spec_halfword(spec_hw_lo(frame, i).datum, spec_hw_hi(frame, i).datum)
}

/// The single-byte plausibility check used to find candidate frame starts
/// while searching: the byte, read as the low byte of a half-word, must
/// have its control bit set and carry an ID the caller expects.
pub open spec fn spec_check_byte(byte: u8, valid: Seq<bool>) -> bool {
    spec_f_control(byte as u16) && valid[spec_data_or_id(byte as u16) as int]
}

/// The single-byte plausibility check used to find candidate frame starts.
/// `valid` is the membership table: entry `i` says whether channel ID `i`
/// is expected in this capture.
pub fn tpiu_check_byte(byte: u8, valid: &[bool]) -> (r: bool)
    requires
        valid@.len() == 256,
    ensures
        r == spec_check_byte(byte, valid@),
{
    let check: TPIUFrameHalfWord = (byte as u16).into();
    proof {
        lemma_halfword_bounds(byte as u16);
    }
    check.f_control() && valid[check.data_or_id() as usize]
}

/// Half-word `i` passes the frame consistency check: if it announces an ID
/// change, the ID is either NULL (filler, always accepted) or both expected
/// and — unless intermixing is allowed — on the first half-word only.
pub open spec fn spec_halfword_ok(
    frame: Seq<TraceByte>,
    valid: Seq<bool>,
    intermixed: bool,
    i: int,
) -> bool {
    spec_f_control(spec_hw(frame, i)) ==> {
        let id = spec_data_or_id(spec_hw(frame, i));
        id == 0 || (valid[id as int] && (i == 0 || intermixed))
    }
}

/// A whole frame passes the consistency check when each of its half-words
/// does.
pub open spec fn spec_check_frame(
    frame: Seq<TraceByte>,
    valid: Seq<bool>,
    intermixed: bool,
) -> bool {
    forall|i: int| 0 <= i < frame.len() / 2 ==> #[trigger] spec_halfword_ok(frame, valid, intermixed, i)
}

/// Law: the intermixing policy is exactly what separates the two checks.
/// A frame that validates with intermixing allowed, but carries a non-NULL
/// ID on some half-word after the first, is rejected the moment
/// intermixing is disallowed.
pub proof fn lemma_intermixing_policy(frame: Seq<TraceByte>, valid: Seq<bool>, i: int)
    requires
        frame.len() == 16,
        spec_check_frame(frame, valid, true),
        1 <= i < 8,
        spec_f_control(spec_hw(frame, i)),
        spec_data_or_id(spec_hw(frame, i)) != 0,
    ensures
        !spec_check_frame(frame, valid, false),
{
    assert(!spec_halfword_ok(frame, valid, false, i));
}

/// Check a completed frame for internal consistency against the membership
/// table.  With `intermixed` false, any non-first half-word announcing a
/// non-NULL ID rejects the frame even when the ID is expected.
pub fn tpiu_check_frame(frame: &[TraceByte], valid: &[bool], intermixed: bool) -> (r: bool)
    requires
        valid@.len() == 256,
    ensures
        r == spec_check_frame(frame@, valid@, intermixed),
{
    let max = frame.len() / 2;

    let mut i: usize = 0;
    while i < max
        invariant
            valid@.len() == 256,
            max == frame@.len() / 2,
            max <= usize::MAX / 2,
            i <= max,
            forall|j: int| 0 <= j < i ==> #[trigger] spec_halfword_ok(frame@, valid@, intermixed, j),
        decreases max - i,
    {
        let base = i * 2;
        let half = TPIUFrameHalfWord::from((frame[base].datum, frame[base + 1].datum));
        proof {
            lemma_halfword_fields(frame@[base as int].datum, frame@[base as int + 1].datum);
            lemma_halfword_bounds(half.0);
            assert(half.0 == spec_hw(frame@, i as int));
        }

        if half.f_control() {
            // The NULL source identifier denotes filler the demultiplexer
            // will discard; it carries no ID needing validation.
            if half.data_or_id() != TPIU_ID_NULL as u16 {
                // A frame is rejected when it carries an ID that is not
                // expected, or an ID anywhere but the first half-word while
                // intermixing is disallowed.
                if !valid[half.data_or_id() as usize] || (i > 0 && !intermixed) {
                    assert(!spec_halfword_ok(frame@, valid@, intermixed, i as int));
                    return false;
                }
            }
        }
        assert(spec_halfword_ok(frame@, valid@, intermixed, i as int));
        i = i + 1;
    }

    true
}

} // verus!
