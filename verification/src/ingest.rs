//! The ingestion driver: pulls trace bytes one at a time, drives the
//! framing state machine, accumulates 16-byte frames, validates them,
//! recovers from invalid ones, and demultiplexes the valid ones.

use vstd::prelude::*;

use crate::demux::{
    lemma_demux_prefix_orphans, lemma_process_frame_offsets, spec_frame_demuxable,
    spec_frame_offsets_increasing, spec_offsets_increasing, spec_process_frame,
    tpiu_process_frame,
};
use crate::frame::{
    lemma_halfword_fields, spec_check_byte, spec_check_frame, spec_f_control, tpiu_check_byte,
    tpiu_check_frame, TPIUPacket, TraceByte, TPIU_ID_NULL,
};
use crate::state::{spec_next_state, state_wf, tpiu_next_state, TPIUState};

verus! {

/// Ghost model of an ingestion session: the framing state, the frame
/// buffer with its fill index, the consecutive-valid-frame counter, the
/// current channel ID, the running stream offset, and the orphaned-byte
/// count.
pub ghost struct IngestModel {
    /// Framing state machine state.
    pub state: TPIUState,
    /// The 16-slot frame buffer; only the first `ndx` entries are live.
    pub frame: Seq<TraceByte>,
    /// Number of live entries in the frame buffer.
    pub ndx: int,
    /// Valid frames seen since the last invalid one (or since the start).
    pub nvalid: int,
    /// Current channel ID carried across frames, once established.
    pub id: Option<u8>,
    /// Bytes consumed so far (stream offsets are 1-based).
    pub offs: int,
    /// Delayed bytes dropped because no current channel ID existed.
    pub orphaned: int,
}

/// What one ingestion step yields: the successor model, the packets
/// released to the consumer (NULL-tagged ones already removed), and
/// whether an internal invariant was violated (a defect, never a property
/// of the input; the caller must abort the run).
pub ghost struct StepSpec {
    /// The session state after the step.
    pub next: IngestModel,
    /// Packets released by this step, in order.
    pub packets: Seq<TPIUPacket>,
    /// True only when a completed frame would reach data decoding with no
    /// current channel ID established.
    pub fatal: bool,
}

/// The session state before any byte has been consumed.
pub open spec fn spec_ingest_init() -> IngestModel {
    IngestModel {
        state: TPIUState::Searching,
        frame: Seq::new(16, |j: int| TraceByte { datum: 0, time: 0, offset: 0 }),
        ndx: 0,
        nvalid: 0,
        id: None,
        offs: 0,
        orphaned: 0,
    }
}

/// Invariant of a session between steps.
pub open spec fn ingest_model_wf(m: IngestModel) -> bool {
    &&& m.frame.len() == 16
    &&& 0 <= m.ndx < 16
    &&& state_wf(m.state)
    &&& (m.state is SearchingSyncing || m.state is FramingSyncing ==> m.ndx == 0)
    &&& (m.state is Searching && m.ndx > 0 ==> spec_f_control(m.frame[0].datum as u16))
    &&& 0 <= m.nvalid <= m.offs
    &&& 0 <= m.orphaned
    &&& 2 * m.orphaned + m.ndx <= m.offs
}

/// The packets of `ps` whose channel ID is not NULL, in order: NULL-tagged
/// bytes are protocol filler and never reach the consumer.
pub open spec fn spec_drop_null(ps: Seq<TPIUPacket>) -> Seq<TPIUPacket>
    decreases ps.len(),
{
    if ps.len() == 0 {
        Seq::empty()
    } else {
        let rest = spec_drop_null(ps.drop_last());
        if ps.last().id != TPIU_ID_NULL {
            rest + seq![ps.last()]
        } else {
            rest
        }
    }
}

/// The frame buffer with the new byte stored at the fill index.
pub open spec fn spec_append_byte(m: IngestModel, datum: u8, time: u64) -> IngestModel {
    IngestModel {
        frame: m.frame.update(m.ndx, TraceByte { datum, time, offset: m.offs as usize }),
        ndx: m.ndx + 1,
        ..m
    }
}

/// The lowest buffer index at or after `i` whose byte passes the
/// single-byte check, or 16 when none does.
pub open spec fn spec_first_candidate(frame: Seq<TraceByte>, valid: Seq<bool>, i: int) -> int
    decreases 16 - i,
{
    if i < 0 || i >= 16 {
        16
    } else if spec_check_byte(frame[i].datum, valid) {
        i
    } else {
        spec_first_candidate(frame, valid, i + 1)
    }
}

/// The buffer after the resynchronization shift: entries from `c` onward
/// are moved down to the front; the tail keeps its stale contents, which
/// the fill index marks dead.
pub open spec fn spec_compact(frame: Seq<TraceByte>, c: int) -> Seq<TraceByte> {
    Seq::new(16, |j: int| if j < 16 - c { frame[c + j] } else { frame[j] })
}

/// A completed frame passed validation: demultiplex it, release its
/// packets (NULL-tagged ones removed), carry its final channel ID forward,
/// and resume collecting at index 0, now framed.  Reaching data decoding
/// with no channel ID is the fatal internal-invariant violation.
pub open spec fn spec_accept_frame(m: IngestModel, nvalid: int) -> StepSpec {
    if spec_frame_demuxable(m.frame, m.id) {
        let r = spec_process_frame(m.frame, m.id);
        StepSpec {
            next: IngestModel {
                state: TPIUState::Framing,
                ndx: 0,
                nvalid: nvalid,
                id: Some(r.id),
                orphaned: m.orphaned + r.orphans,
                ..m
            },
            packets: spec_drop_null(r.packets),
            fatal: false,
        }
    } else {
        StepSpec { next: m, packets: Seq::empty(), fatal: true }
    }
}

/// Dispose of a completed frame while searching: accept a valid one, or
/// rescan it for a plausible later start (the resync-by-scan step); with
/// none, collection restarts empty.
pub open spec fn spec_searching_dispose(m2: IngestModel, valid: Seq<bool>) -> StepSpec {
    if spec_check_frame(m2.frame, valid, true) {
        spec_accept_frame(m2, 1)
    } else {
        let c = spec_first_candidate(m2.frame, valid, 1);
        if c < 16 {
            StepSpec {
                next: IngestModel { frame: spec_compact(m2.frame, c), ndx: 16 - c, ..m2 },
                packets: Seq::empty(),
                fatal: false,
            }
        } else {
            StepSpec { next: IngestModel { ndx: 0, ..m2 }, packets: Seq::empty(), fatal: false }
        }
    }
}

/// Dispose of a completed frame while framed: accept a valid one; one
/// invalid frame only resets the counter, two in a row abandon framing
/// and resume the search.
pub open spec fn spec_framing_dispose(m2: IngestModel, valid: Seq<bool>) -> StepSpec {
    if !spec_check_frame(m2.frame, valid, true) {
        if m2.nvalid == 0 {
            StepSpec {
                next: IngestModel { state: TPIUState::Searching, ndx: 0, ..m2 },
                packets: Seq::empty(),
                fatal: false,
            }
        } else {
            StepSpec {
                next: IngestModel { nvalid: 0, ndx: 0, ..m2 },
                packets: Seq::empty(),
                fatal: false,
            }
        }
    } else {
        spec_accept_frame(m2, m2.nvalid + 1)
    }
}

/// Store a byte while searching; the sixteenth completes a frame, which
/// is validated and disposed of.
pub open spec fn spec_searching_append(
    m1: IngestModel,
    valid: Seq<bool>,
    datum: u8,
    time: u64,
) -> StepSpec {
    let m2 = spec_append_byte(m1, datum, time);
    if m2.ndx < 16 {
        StepSpec { next: m2, packets: Seq::empty(), fatal: false }
    } else {
        spec_searching_dispose(m2, valid)
    }
}

/// Store a byte while framed; the sixteenth completes a frame, which is
/// validated and disposed of.
pub open spec fn spec_framing_append(
    m1: IngestModel,
    valid: Seq<bool>,
    datum: u8,
    time: u64,
) -> StepSpec {
    let m2 = spec_append_byte(m1, datum, time);
    if m2.ndx < 16 {
        StepSpec { next: m2, packets: Seq::empty(), fatal: false }
    } else {
        spec_framing_dispose(m2, valid)
    }
}

/// One step of the ingestion driver on one (byte, time) pair.
///
/// Bytes consumed mid-sync only drive the state machine.  At buffer index
/// 0 a byte may instead begin a sync match; otherwise, while searching, it
/// must pass the single-byte check to open a prospective frame, while a
/// framed stream is trusted until a completed frame fails validation.
pub open spec fn spec_ingest_step(
    m: IngestModel,
    valid: Seq<bool>,
    datum: u8,
    time: u64,
) -> StepSpec {
    let m1 = IngestModel { offs: m.offs + 1, ..m };
    match m.state {
        TPIUState::SearchingSyncing(_) => StepSpec {
            next: IngestModel { state: spec_next_state(m.state, datum), ..m1 },
            packets: Seq::empty(),
            fatal: false,
        },
        TPIUState::FramingSyncing(_) => StepSpec {
            next: IngestModel { state: spec_next_state(m.state, datum), ..m1 },
            packets: Seq::empty(),
            fatal: false,
        },
        TPIUState::Searching => {
            if m.ndx == 0 {
                let st = spec_next_state(m.state, datum);
                if st is SearchingSyncing {
                    StepSpec {
                        next: IngestModel { state: st, ..m1 },
                        packets: Seq::empty(),
                        fatal: false,
                    }
                } else if !spec_check_byte(datum, valid) {
                    StepSpec { next: m1, packets: Seq::empty(), fatal: false }
                } else {
                    spec_searching_append(m1, valid, datum, time)
                }
            } else {
                spec_searching_append(m1, valid, datum, time)
            }
        },
        TPIUState::Framing => {
            if m.ndx == 0 {
                let st = spec_next_state(m.state, datum);
                if st is FramingSyncing {
                    StepSpec {
                        next: IngestModel { state: st, ..m1 },
                        packets: Seq::empty(),
                        fatal: false,
                    }
                } else {
                    spec_framing_append(m1, valid, datum, time)
                }
            } else {
                spec_framing_append(m1, valid, datum, time)
            }
        },
    }
}

/// An ingestion session: the framing state, the 16-slot frame buffer with
/// its fill index, the consecutive-valid-frame counter, the current
/// channel ID, the running stream offset, and the orphaned-byte count.
pub struct TPIUIngestState {
    /// Framing state machine state.
    pub state: TPIUState,
    /// The 16-slot frame buffer; only the first `ndx` entries are live.
    pub frame: Vec<TraceByte>,
    /// Number of live entries in the frame buffer.
    pub ndx: usize,
    /// Valid frames seen since the last invalid one (or since the start).
    pub nvalid: u64,
    /// Current channel ID carried across frames, once established.
    pub id: Option<u8>,
    /// Bytes consumed so far (stream offsets are 1-based).
    pub offs: usize,
    /// Delayed bytes dropped because no current channel ID existed.
    pub orphaned: u64,
}

impl View for TPIUIngestState {
    type V = IngestModel;

    open spec fn view(&self) -> IngestModel {
        IngestModel {
            state: self.state,
            frame: self.frame@,
            ndx: self.ndx as int,
            nvalid: self.nvalid as int,
            id: self.id,
            offs: self.offs as int,
            orphaned: self.orphaned as int,
        }
    }
}

impl TPIUIngestState {
    /// A fresh session: searching, empty buffer, no channel ID yet.
    pub fn new() -> (s: Self)
        ensures
            s@ == spec_ingest_init(),
            ingest_model_wf(s@),
    {
        let mut frame: Vec<TraceByte> = Vec::new();
        let mut j: usize = 0;
        while j < 16
            invariant
                j <= 16,
                frame@.len() == j as int,
                forall|k: int|
                    0 <= k < j ==> frame@[k] == (TraceByte { datum: 0, time: 0, offset: 0 }),
            decreases 16 - j,
        {
            frame.push(TraceByte { datum: 0, time: 0, offset: 0 });
            j = j + 1;
        }
        let s = TPIUIngestState {
            state: TPIUState::Searching,
            frame,
            ndx: 0,
            nvalid: 0,
            id: None,
            offs: 0,
            orphaned: 0,
        };
        proof {
            assert(s@.frame =~= spec_ingest_init().frame);
        }
        s
    }
}

/// What one ingestion step hands back.
pub struct TPIUStepOutput {
    /// Packets released by this step for the consumer, in order, with
    /// NULL-tagged filler already removed.
    pub packets: Vec<TPIUPacket>,
    /// True only on an internal invariant violation (a completed frame
    /// reached data decoding with no current channel ID): the session is
    /// defective and the caller must abort the run.
    pub fatal: bool,
}

/// Remove the NULL-tagged packets: they are protocol filler, never trace
/// data.
fn drop_null_packets(ps: Vec<TPIUPacket>) -> (out: Vec<TPIUPacket>)
    ensures
        out@ == spec_drop_null(ps@),
{
    let mut out: Vec<TPIUPacket> = Vec::new();
    let mut i: usize = 0;
    while i < ps.len()
        invariant
            i <= ps@.len(),
            out@ == spec_drop_null(ps@.take(i as int)),
        decreases ps@.len() - i,
    {
        proof {
            assert(ps@.take(i as int + 1).drop_last() =~= ps@.take(i as int));
            assert(ps@.take(i as int + 1).last() == ps@[i as int]);
        }
        if ps[i].id != TPIU_ID_NULL {
            let p = ps[i];
            out.push(p);
            proof {
                assert(out@ =~= spec_drop_null(ps@.take(i as int + 1)));
            }
        }
        i = i + 1;
    }
    proof {
        assert(ps@.take(ps@.len() as int) =~= ps@);
    }
    out
}

/// The lowest buffer index at or after `i` whose byte passes the
/// single-byte check is the first one the scan finds.
proof fn lemma_first_candidate_above(frame: Seq<TraceByte>, valid: Seq<bool>, i: int, c: int)
    requires
        frame.len() == 16,
        1 <= i <= c <= 16,
        forall|j: int| i <= j < c ==> !spec_check_byte(#[trigger] frame[j].datum, valid),
        c < 16 ==> spec_check_byte(frame[c].datum, valid),
    ensures
        spec_first_candidate(frame, valid, i) == c,
    decreases c - i,
{
    if i < c {
        lemma_first_candidate_above(frame, valid, i + 1, c);
    }
}

/// A frame's demultiplexer never orphans more than its 7 non-final
/// half-words.
proof fn lemma_process_orphans(frame: Seq<TraceByte>, cur0: Option<u8>)
    ensures
        0 <= spec_process_frame(frame, cur0).orphans <= 7,
{
    lemma_demux_prefix_orphans(frame, cur0, 7);
}

/// Validate and dispose of a just-completed frame while searching: accept
/// it and enter framing, or rescan it for a plausible later start.
fn searching_complete(s: &mut TPIUIngestState, valid: &[bool]) -> (out: TPIUStepOutput)
    requires
        old(s)@.frame.len() == 16,
        old(s)@.ndx == 16,
        old(s)@.state is Searching,
        spec_f_control(old(s)@.frame[0].datum as u16),
        valid@.len() == 256,
        0 <= old(s)@.nvalid <= old(s)@.offs - 1,
        0 <= old(s)@.orphaned,
        2 * old(s)@.orphaned + 16 <= old(s)@.offs,
        old(s)@.offs <= usize::MAX,
    ensures
        ({
            let r = spec_searching_dispose(old(s)@, valid@);
            &&& final(s)@ == r.next
            &&& out.packets@ == r.packets
            &&& out.fatal == r.fatal
            &&& !r.fatal ==> ingest_model_wf(final(s)@)
        }),
{
    proof {
        lemma_halfword_fields(old(s)@.frame[0].datum, old(s)@.frame[1].datum);
    }
    if tpiu_check_frame(s.frame.as_slice(), valid, true) {
        let r = tpiu_process_frame(s.frame.as_slice(), s.id);
        proof {
            lemma_process_orphans(s@.frame, s@.id);
        }
        s.id = Some(r.id);
        s.state = TPIUState::Framing;
        s.nvalid = 1;
        s.ndx = 0;
        s.orphaned = s.orphaned + r.orphaned;
        let packets = drop_null_packets(r.packets);
        return TPIUStepOutput { packets, fatal: false };
    }

    s.ndx = 0;

    // The frame was not valid: scan it for another plausible frame start.
    let mut cand: usize = 16;
    let mut check: usize = 1;
    while check < 16
        invariant
            1 <= check <= 16,
            cand == 16 || (1 <= cand < check),
            valid@.len() == 256,
            s.state == old(s).state,
            s.nvalid == old(s).nvalid,
            s.id == old(s).id,
            s.offs == old(s).offs,
            s.orphaned == old(s).orphaned,
            s.ndx == 0,
            s.frame@ == old(s).frame@,
            s@.frame.len() == 16,
            cand == 16 ==> forall|j: int|
                1 <= j < check ==> !spec_check_byte(#[trigger] s@.frame[j].datum, valid@),
            cand < 16 ==> spec_first_candidate(s@.frame, valid@, 1) == cand as int,
            cand < 16 ==> spec_check_byte(s@.frame[cand as int].datum, valid@),
        decreases 16 - check,
    {
        if cand == 16 {
            if tpiu_check_byte(s.frame[check].datum, valid) {
                cand = check;
                proof {
                    lemma_first_candidate_above(s@.frame, valid@, 1, cand as int);
                }
            }
        }
        check = check + 1;
    }
    proof {
        if cand == 16 {
            lemma_first_candidate_above(s@.frame, valid@, 1, 16);
        }
    }

    if cand < 16 {
        // A plausible start: scoot the rest of the frame down to the
        // front and resume collection from there.
        let ghost full = s.frame@;
        proof {
            assert(spec_check_byte(full[cand as int].datum, valid@));
        }
        while s.ndx + cand < 16
            invariant
                1 <= cand < 16,
                s.ndx + cand <= 16,
                s@.frame.len() == 16,
                s.state == old(s).state,
                s.nvalid == old(s).nvalid,
                s.id == old(s).id,
                s.offs == old(s).offs,
                s.orphaned == old(s).orphaned,
                forall|j: int| 0 <= j < s.ndx ==> s@.frame[j] == full[cand + j],
                forall|j: int| s.ndx <= j < 16 ==> s@.frame[j] == full[j],
            decreases 16 - s.ndx - cand,
        {
            let v = s.frame[cand + s.ndx];
            let n = s.ndx;
            s.frame[n] = v;
            s.ndx = s.ndx + 1;
        }
        proof {
            assert(s.frame@ =~= spec_compact(full, cand as int));
        }
    }

    TPIUStepOutput { packets: Vec::new(), fatal: false }
}

/// Validate and dispose of a just-completed frame while framed: accept
/// it, or tolerate one invalid frame and give alignment up after two in a
/// row.
fn framing_complete(s: &mut TPIUIngestState, valid: &[bool]) -> (out: TPIUStepOutput)
    requires
        old(s)@.frame.len() == 16,
        old(s)@.ndx == 16,
        old(s)@.state is Framing,
        valid@.len() == 256,
        0 <= old(s)@.nvalid <= old(s)@.offs - 1,
        0 <= old(s)@.orphaned,
        2 * old(s)@.orphaned + 16 <= old(s)@.offs,
        old(s)@.offs <= usize::MAX,
    ensures
        ({
            let r = spec_framing_dispose(old(s)@, valid@);
            &&& final(s)@ == r.next
            &&& out.packets@ == r.packets
            &&& out.fatal == r.fatal
            &&& !r.fatal ==> ingest_model_wf(final(s)@)
        }),
{
    proof {
        lemma_halfword_fields(old(s)@.frame[0].datum, old(s)@.frame[1].datum);
    }
    if !tpiu_check_frame(s.frame.as_slice(), valid, true) {
        if s.nvalid == 0 {
            // Two consecutive invalid frames: give the alignment up and
            // resume the search.
            s.state = TPIUState::Searching;
        } else {
            // Trust is extended one more frame before giving up.
            s.nvalid = 0;
        }
        s.ndx = 0;
        return TPIUStepOutput { packets: Vec::new(), fatal: false };
    }

    // A frame can reach data decoding with no channel ID only through a
    // defect in the search and validation logic above; the caller must
    // treat this as an unrecoverable failure, not as input behaviour.
    let has_control = s.frame[0].datum & 1 == 1;
    if s.id.is_none() && !has_control {
        return TPIUStepOutput { packets: Vec::new(), fatal: true };
    }

    let r = tpiu_process_frame(s.frame.as_slice(), s.id);
    proof {
        lemma_process_orphans(s@.frame, s@.id);
    }
    s.id = Some(r.id);
    s.nvalid = s.nvalid + 1;
    s.ndx = 0;
    s.orphaned = s.orphaned + r.orphaned;
    let packets = drop_null_packets(r.packets);
    TPIUStepOutput { packets, fatal: false }
}

/// Advance an ingestion session by one captured (byte, time) pair,
/// handing back whatever packets the byte released.
///
/// `valid` is the membership table: entry `i` says whether channel ID `i`
/// is expected in this capture; it must not change for the session's
/// duration.  A `fatal` output reports a defect of the session itself
/// (never a property of the input); the caller must abort the run.
pub fn tpiu_ingest_step(
    s: &mut TPIUIngestState,
    valid: &[bool],
    datum: u8,
    time: u64,
) -> (out: TPIUStepOutput)
    requires
        ingest_model_wf(old(s)@),
        valid@.len() == 256,
        old(s)@.offs < usize::MAX,
    ensures
        ({
            let r = spec_ingest_step(old(s)@, valid@, datum, time);
            &&& final(s)@ == r.next
            &&& out.packets@ == r.packets
            &&& out.fatal == r.fatal
            &&& !r.fatal ==> ingest_model_wf(final(s)@)
        }),
{
    s.offs = s.offs + 1;

    match s.state {
        TPIUState::SearchingSyncing(_) | TPIUState::FramingSyncing(_) => {
            let o = s.offs;
            s.state = tpiu_next_state(s.state, datum, o);
            TPIUStepOutput { packets: Vec::new(), fatal: false }
        },
        TPIUState::Searching => {
            if s.ndx == 0 {
                let o = s.offs;
                let st = tpiu_next_state(TPIUState::Searching, datum, o);
                match st {
                    TPIUState::SearchingSyncing(_) => {
                        s.state = st;
                        return TPIUStepOutput { packets: Vec::new(), fatal: false };
                    },
                    _ => {
                        proof {
                            assert(st == TPIUState::Searching);
                        }
                        if !tpiu_check_byte(datum, valid) {
                            return TPIUStepOutput { packets: Vec::new(), fatal: false };
                        }
                    },
                }
            }

            let n = s.ndx;
            let o = s.offs;
            s.frame[n] = TraceByte { datum, time, offset: o };
            s.ndx = s.ndx + 1;
            if s.ndx < 16 {
                return TPIUStepOutput { packets: Vec::new(), fatal: false };
            }
            searching_complete(s, valid)
        },
        TPIUState::Framing => {
            if s.ndx == 0 {
                let o = s.offs;
                let st = tpiu_next_state(TPIUState::Framing, datum, o);
                match st {
                    TPIUState::FramingSyncing(_) => {
                        s.state = st;
                        return TPIUStepOutput { packets: Vec::new(), fatal: false };
                    },
                    _ => {
                        proof {
                            assert(st == TPIUState::Framing);
                        }
                    },
                }
            }

            let n = s.ndx;
            let o = s.offs;
            s.frame[n] = TraceByte { datum, time, offset: o };
            s.ndx = s.ndx + 1;
            if s.ndx < 16 {
                return TPIUStepOutput { packets: Vec::new(), fatal: false };
            }
            framing_complete(s, valid)
        },
    }
}

/// The session after the first `n` pairs of `stream`, with everything
/// released to the consumer so far.  A fatal step freezes the session:
/// nothing after it is consumed.
pub open spec fn spec_ingest(valid: Seq<bool>, stream: Seq<(u8, u64)>, n: int) -> StepSpec
    decreases n,
{
    if n <= 0 {
        StepSpec { next: spec_ingest_init(), packets: Seq::empty(), fatal: false }
    } else {
        let prev = spec_ingest(valid, stream, n - 1);
        if prev.fatal {
            prev
        } else {
            let r = spec_ingest_step(prev.next, valid, stream[n - 1].0, stream[n - 1].1);
            StepSpec { next: r.next, packets: prev.packets + r.packets, fatal: r.fatal }
        }
    }
}

/// A fatal step freezes the session for good.
proof fn lemma_ingest_fatal_sticky(valid: Seq<bool>, stream: Seq<(u8, u64)>, n: int, n2: int)
    requires
        0 <= n <= n2,
        spec_ingest(valid, stream, n).fatal,
    ensures
        spec_ingest(valid, stream, n2).fatal,
    decreases n2 - n,
{
    if n < n2 {
        lemma_ingest_fatal_sticky(valid, stream, n, n2 - 1);
    }
}

/// The filter leaves a run without NULL-tagged packets alone.
pub proof fn lemma_drop_null_identity(ps: Seq<TPIUPacket>)
    requires
        forall|j: int| 0 <= j < ps.len() ==> #[trigger] ps[j].id != TPIU_ID_NULL,
    ensures
        spec_drop_null(ps) == ps,
    decreases ps.len(),
{
    if ps.len() > 0 {
        let pre = ps.drop_last();
        assert(forall|j: int| 0 <= j < pre.len() ==> #[trigger] pre[j] == ps[j]);
        lemma_drop_null_identity(pre);
        assert(ps[ps.len() - 1].id != TPIU_ID_NULL);
        assert(spec_drop_null(ps) =~= ps);
    }
}

/// Nothing NULL-tagged survives the filter.
proof fn lemma_drop_null_no_null(ps: Seq<TPIUPacket>)
    ensures
        forall|j: int|
            0 <= j < spec_drop_null(ps).len() ==> #[trigger] spec_drop_null(ps)[j].id
                != TPIU_ID_NULL,
    decreases ps.len(),
{
    if ps.len() > 0 {
        lemma_drop_null_no_null(ps.drop_last());
        let rest = spec_drop_null(ps.drop_last());
        if ps.last().id != TPIU_ID_NULL {
            assert forall|j: int| 0 <= j < spec_drop_null(ps).len() implies #[trigger] spec_drop_null(
                ps,
            )[j].id != TPIU_ID_NULL by {
                if j < rest.len() {
                    assert(spec_drop_null(ps)[j] == rest[j]);
                } else {
                    assert(spec_drop_null(ps)[j] == ps.last());
                }
            }
        }
    }
}

/// No step releases a NULL-tagged packet.
proof fn lemma_step_no_null(m: IngestModel, valid: Seq<bool>, datum: u8, time: u64)
    ensures
        forall|j: int|
            0 <= j < spec_ingest_step(m, valid, datum, time).packets.len()
                ==> #[trigger] spec_ingest_step(m, valid, datum, time).packets[j].id
                != TPIU_ID_NULL,
{
    let m1 = IngestModel { offs: m.offs + 1, ..m };
    if m.state is Searching {
        let m2 = spec_append_byte(m1, datum, time);
        lemma_drop_null_no_null(spec_process_frame(m2.frame, m2.id).packets);
    }
    if m.state is Framing {
        let m2 = spec_append_byte(m1, datum, time);
        lemma_drop_null_no_null(spec_process_frame(m2.frame, m2.id).packets);
    }
}

/// Law: NULL-tagged bytes never reach the consumer, however the stream
/// runs.
pub proof fn lemma_ingest_no_null(valid: Seq<bool>, stream: Seq<(u8, u64)>, n: int)
    ensures
        forall|j: int|
            0 <= j < spec_ingest(valid, stream, n).packets.len() ==> #[trigger] spec_ingest(
                valid,
                stream,
                n,
            ).packets[j].id != TPIU_ID_NULL,
    decreases n,
{
    if n > 0 {
        lemma_ingest_no_null(valid, stream, n - 1);
        let prev = spec_ingest(valid, stream, n - 1);
        if !prev.fatal {
            lemma_step_no_null(prev.next, valid, stream[n - 1].0, stream[n - 1].1);
        }
    }
}

/// The filter keeps the packets' order and their offset bounds.
proof fn lemma_drop_null_order(ps: Seq<TPIUPacket>, lo: int, hi: int)
    requires
        spec_offsets_increasing(ps),
        forall|k: int| 0 <= k < ps.len() ==> lo <= #[trigger] ps[k].offset <= hi,
    ensures
        spec_offsets_increasing(spec_drop_null(ps)),
        forall|j: int|
            0 <= j < spec_drop_null(ps).len() ==> lo <= #[trigger] spec_drop_null(ps)[j].offset
                <= hi,
    decreases ps.len(),
{
    if ps.len() > 0 {
        let pre = ps.drop_last();
        assert(forall|k: int| 0 <= k < pre.len() ==> #[trigger] pre[k] == ps[k]);
        lemma_drop_null_order(pre, lo, hi);
        let rest = spec_drop_null(pre);
        if ps.last().id != TPIU_ID_NULL {
            let dn = spec_drop_null(ps);
            assert forall|j: int, k: int| 0 <= j < k < dn.len() implies dn[j].offset
                < dn[k].offset by {
                if k < rest.len() {
                    assert(dn[j] == rest[j] && dn[k] == rest[k]);
                } else {
                    assert(dn[j] == rest[j] && dn[k] == ps.last());
                    lemma_drop_null_last_bound(pre, rest[j].offset as int);
                }
            }
            assert forall|j: int| 0 <= j < dn.len() implies lo <= #[trigger] dn[j].offset
                <= hi by {
                if j < rest.len() {
                    assert(dn[j] == rest[j]);
                } else {
                    assert(dn[j] == ps.last());
                }
            }
        }
    }
}

/// Every surviving packet of a strictly ordered run ends at or before the
/// run's last packet.
proof fn lemma_drop_null_last_bound(ps: Seq<TPIUPacket>, o: int)
    requires
        spec_offsets_increasing(ps),
        exists|j: int| 0 <= j < spec_drop_null(ps).len() && #[trigger] spec_drop_null(ps)[j].offset == o,
    ensures
        ps.len() > 0 && o <= ps.last().offset,
    decreases ps.len(),
{
    let pre = ps.drop_last();
    let j = choose|j: int|
        0 <= j < spec_drop_null(ps).len() && #[trigger] spec_drop_null(ps)[j].offset == o;
    let rest = spec_drop_null(pre);
    if ps.last().id != TPIU_ID_NULL && j == rest.len() {
        assert(spec_drop_null(ps)[j] == ps.last());
    } else {
        assert(spec_drop_null(ps)[j] == rest[j]);
        assert(forall|k: int| 0 <= k < pre.len() ==> #[trigger] pre[k] == ps[k]);
        lemma_drop_null_last_bound(pre, o);
    }
}

/// The frame buffer's live entries, between steps, in strictly increasing
/// offset order and no later than the stream position.
pub open spec fn ingest_buffer_ordered(m: IngestModel) -> bool {
    &&& (forall|a: int, b: int|
        0 <= a < b < m.ndx ==> #[trigger] m.frame[a].offset < #[trigger] m.frame[b].offset)
    &&& (forall|a: int| 0 <= a < m.ndx ==> #[trigger] m.frame[a].offset <= m.offs)
}

/// One step keeps the offset order: whatever it releases is strictly
/// ordered, later than everything before the frame in hand, and no later
/// than the byte just consumed.
proof fn lemma_step_offsets(m: IngestModel, valid: Seq<bool>, datum: u8, time: u64)
    requires
        ingest_model_wf(m),
        ingest_buffer_ordered(m),
        m.offs < usize::MAX,
    ensures
        ({
            let r = spec_ingest_step(m, valid, datum, time);
            &&& r.next.offs == m.offs + 1
            &&& (!r.fatal ==> {
                &&& spec_offsets_increasing(r.packets)
                &&& ingest_buffer_ordered(r.next)
                &&& (r.packets.len() > 0 ==> {
                    &&& m.ndx == 15
                    &&& r.next.ndx == 0
                    &&& forall|j: int|
                        0 <= j < r.packets.len() ==> m.frame[0].offset
                            <= #[trigger] r.packets[j].offset <= m.offs + 1
                })
                &&& (r.next.ndx > 0 ==> r.next.frame[0].offset >= (if m.ndx > 0 {
                    m.frame[0].offset as int
                } else {
                    m.offs + 1
                }))
            })
        }),
{
    let r = spec_ingest_step(m, valid, datum, time);
    let m1 = IngestModel { offs: m.offs + 1, ..m };
    if m.state is Searching || m.state is Framing {
        let m2 = spec_append_byte(m1, datum, time);
        if m2.ndx == 16 {
            assert(spec_frame_offsets_increasing(m2.frame));
            if spec_check_frame(m2.frame, valid, true) && spec_frame_demuxable(m2.frame, m2.id) {
                let pr = spec_process_frame(m2.frame, m2.id);
                lemma_process_frame_offsets(m2.frame, m2.id);
                lemma_drop_null_order(
                    pr.packets,
                    m2.frame[0].offset as int,
                    m2.frame[15].offset as int,
                );
            }
            if m.state is Searching && !spec_check_frame(m2.frame, valid, true) {
                let c = spec_first_candidate(m2.frame, valid, 1);
                if c < 16 {
                    lemma_first_candidate_range(m2.frame, valid, 1);
                    assert(ingest_buffer_ordered(r.next));
                }
            }
        }
    }
}

/// The first candidate the rescan finds lies inside the buffer bounds.
proof fn lemma_first_candidate_range(frame: Seq<TraceByte>, valid: Seq<bool>, i: int)
    requires
        0 <= i <= 16,
    ensures
        i <= spec_first_candidate(frame, valid, i) <= 16,
    decreases 16 - i,
{
    if i < 16 && !spec_check_byte(frame[i].datum, valid) {
        lemma_first_candidate_range(frame, valid, i + 1);
    }
}

/// Law: however the stream runs, everything released to the consumer
/// comes in strictly increasing stream-offset order.
pub proof fn lemma_ingest_offsets(valid: Seq<bool>, stream: Seq<(u8, u64)>, n: int)
    requires
        0 <= n <= usize::MAX,
    ensures
        ({
            let r = spec_ingest(valid, stream, n);
            &&& (!r.fatal ==> {
                &&& r.next.offs == n
                &&& ingest_model_wf(r.next)
                &&& ingest_buffer_ordered(r.next)
                &&& spec_offsets_increasing(r.packets)
                &&& (forall|j: int|
                    0 <= j < r.packets.len() ==> #[trigger] r.packets[j].offset <= n)
                &&& (r.packets.len() > 0 && r.next.ndx > 0 ==> r.packets.last().offset
                    < r.next.frame[0].offset)
            })
        }),
    decreases n,
{
    if n > 0 {
        lemma_ingest_offsets(valid, stream, n - 1);
        let prev = spec_ingest(valid, stream, n - 1);
        if !prev.fatal {
            let st = spec_ingest_step(prev.next, valid, stream[n - 1].0, stream[n - 1].1);
            lemma_step_offsets(prev.next, valid, stream[n - 1].0, stream[n - 1].1);
            lemma_step_wf(prev.next, valid, stream[n - 1].0, stream[n - 1].1);
            if !st.fatal {
                let ps = spec_ingest(valid, stream, n).packets;
                assert forall|j: int| 0 <= j < ps.len() implies #[trigger] ps[j].offset <= n by {
                    if j < prev.packets.len() {
                        assert(ps[j] == prev.packets[j]);
                    } else {
                        assert(ps[j] == st.packets[j - prev.packets.len()]);
                    }
                }
                assert forall|j: int, k: int| 0 <= j < k < ps.len() implies ps[j].offset
                    < ps[k].offset by {
                    if k < prev.packets.len() {
                        assert(ps[j] == prev.packets[j] && ps[k] == prev.packets[k]);
                    } else if j >= prev.packets.len() {
                        assert(ps[j] == st.packets[j - prev.packets.len()]);
                        assert(ps[k] == st.packets[k - prev.packets.len()]);
                    } else {
                        assert(ps[j] == prev.packets[j]);
                        assert(ps[k] == st.packets[k - prev.packets.len()]);
                        assert(prev.packets[j].offset <= prev.packets.last().offset);
                    }
                }
                if ps.len() > 0 && st.packets.len() == 0 && prev.packets.len() > 0 {
                    assert(ps.last() == prev.packets.last());
                }
            }
        }
    }
}

/// A step that does not fail keeps the session invariant; this restates
/// the executable step's guarantee at the specification level.
proof fn lemma_step_wf(m: IngestModel, valid: Seq<bool>, datum: u8, time: u64)
    requires
        ingest_model_wf(m),
        m.offs < usize::MAX,
    ensures
        ({
            let r = spec_ingest_step(m, valid, datum, time);
            !r.fatal ==> ingest_model_wf(r.next)
        }),
{
    let r = spec_ingest_step(m, valid, datum, time);
    let m1 = IngestModel { offs: m.offs + 1, ..m };
    if m.state is Searching || m.state is Framing {
        let m2 = spec_append_byte(m1, datum, time);
        if m2.ndx == 16 {
            if spec_check_frame(m2.frame, valid, true) && spec_frame_demuxable(m2.frame, m2.id) {
                lemma_demux_prefix_orphans(m2.frame, m2.id, 7);
            }
            if m.state is Searching && !spec_check_frame(m2.frame, valid, true) {
                let c = spec_first_candidate(m2.frame, valid, 1);
                if c < 16 {
                    lemma_first_candidate_range(m2.frame, valid, 1);
                    lemma_first_candidate_hit(m2.frame, valid, 1);
                }
            }
        }
    }
}

/// When the rescan reports a hit, the byte there passes the single-byte
/// check.
proof fn lemma_first_candidate_hit(frame: Seq<TraceByte>, valid: Seq<bool>, i: int)
    requires
        0 <= i <= 16,
        spec_first_candidate(frame, valid, i) < 16,
    ensures
        spec_check_byte(frame[spec_first_candidate(frame, valid, i)].datum, valid),
    decreases 16 - i,
{
    if i < 16 && !spec_check_byte(frame[i].datum, valid) {
        lemma_first_candidate_hit(frame, valid, i + 1);
    }
}

/// What a completed ingestion run reports.
pub struct TPIUIngestReport {
    /// Every packet released to the consumer, in stream order.
    pub packets: Vec<TPIUPacket>,
    /// Valid frames seen since the last invalid one (or since the start):
    /// the figure the run's final summary reports.
    pub nvalid: u64,
    /// Delayed bytes dropped because no current channel ID existed.
    pub orphaned: u64,
}

/// Ingest a whole captured stream of (byte, time) pairs.
///
/// `None` reports an internal invariant violation (a defect of this
/// library, never a property of the input): the caller must treat the run
/// as aborted.  Every packet of a completed run carries a non-NULL
/// channel ID.
pub fn tpiu_ingest(valid: &[bool], stream: &[(u8, u64)]) -> (out: Option<TPIUIngestReport>)
    requires
        valid@.len() == 256,
    ensures
        ({
            let r = spec_ingest(valid@, stream@, stream@.len() as int);
            &&& (out is Some <==> !r.fatal)
            &&& (out matches Some(rep) ==> {
                &&& rep.packets@ == r.packets
                &&& rep.nvalid == r.next.nvalid
                &&& rep.orphaned == r.next.orphaned
            })
            &&& (out matches Some(rep) ==> forall|j: int|
                0 <= j < rep.packets@.len() ==> #[trigger] rep.packets@[j].id != TPIU_ID_NULL)
            &&& (out matches Some(rep) ==> spec_offsets_increasing(rep.packets@))
        }),
{
    let mut s = TPIUIngestState::new();
    let mut packets: Vec<TPIUPacket> = Vec::new();
    let mut i: usize = 0;

    while i < stream.len()
        invariant
            valid@.len() == 256,
            i <= stream@.len(),
            !spec_ingest(valid@, stream@, i as int).fatal,
            s@ == spec_ingest(valid@, stream@, i as int).next,
            packets@ == spec_ingest(valid@, stream@, i as int).packets,
            ingest_model_wf(s@),
            s@.offs == i as int,
        decreases stream@.len() - i,
    {
        let (datum, time) = stream[i];
        let mut step = tpiu_ingest_step(&mut s, valid, datum, time);
        if step.fatal {
            proof {
                lemma_ingest_fatal_sticky(valid@, stream@, i as int + 1, stream@.len() as int);
            }
            return None;
        }
        packets.append(&mut step.packets);
        i = i + 1;
    }

    proof {
        lemma_ingest_no_null(valid@, stream@, stream@.len() as int);
        lemma_ingest_offsets(valid@, stream@, stream@.len() as int);
    }
    Some(TPIUIngestReport { packets, nvalid: s.nvalid, orphaned: s.orphaned })
}

} // verus!
