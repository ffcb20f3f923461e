//! The frame demultiplexer: walks a validated 16-byte frame's 8 half-words
//! and reconstructs the per-channel data bytes, carrying the current
//! channel ID across frame boundaries.

use vstd::prelude::*;

use crate::frame::{
    spec_data_or_aux, spec_data_or_id, spec_f_control, spec_halfword, spec_hw, spec_hw_hi,
    spec_hw_lo, lemma_halfword_bounds, lemma_halfword_fields, TPIUFrameHalfWord, TPIUPacket,
    TraceByte,
};

verus! {

/// Demultiplexer state after some prefix of a frame's half-words: the
/// packets emitted so far (NULL-tagged ones included), the current channel
/// ID, and how many delayed bytes were dropped for want of one.
pub ghost struct DemuxState {
    /// Packets emitted so far, in order.
    pub packets: Seq<TPIUPacket>,
    /// The current channel ID, if any half-word (or an earlier frame) has
    /// established one.
    pub id: Option<u8>,
    /// Delayed bytes dropped because no current channel ID existed.
    pub orphans: nat,
}

/// What demultiplexing a whole frame yields: the emitted packets, the
/// channel ID to carry into the next frame, and the orphaned-byte count.
pub ghost struct DemuxResult {
    /// Packets emitted for this frame, in order.
    pub packets: Seq<TPIUPacket>,
    /// Channel ID to carry forward.
    pub id: u8,
    /// Delayed bytes dropped because no current channel ID existed.
    pub orphans: nat,
}

/// Bit `i` of the frame's auxiliary byte (its last byte).
pub open spec fn spec_aux_bit(auxbyte: u8, i: int) -> u8 {
    (((auxbyte as u16) >> (i as u16)) & 1) as u8
}

/// The ID a control half-word announces.
pub open spec fn spec_new_id(frame: Seq<TraceByte>, i: int) -> u8 {
    spec_data_or_id(spec_hw(frame, i)) as u8
}

/// The candidate packet of a control half-word: the data byte transmitted
/// beside the ID, stamped from the half-word's second byte, tagged `id`.
pub open spec fn spec_id_packet(frame: Seq<TraceByte>, i: int, id: u8) -> TPIUPacket {
    TPIUPacket {
        id,
        datum: spec_data_or_aux(spec_hw(frame, i)) as u8,
        offset: spec_hw_hi(frame, i).offset,
        time: spec_hw_hi(frame, i).time,
    }
}

/// The packet for the first byte of a data half-word: its low bit was
/// displaced into the auxiliary byte and is restored here.
pub open spec fn spec_data_packet_first(frame: Seq<TraceByte>, i: int, id: u8) -> TPIUPacket {
    TPIUPacket {
        id,
        datum: ((spec_data_or_id(spec_hw(frame, i)) << 1) as u8) | spec_aux_bit(
            frame[15].datum,
            i,
        ),
        offset: spec_hw_lo(frame, i).offset,
        time: spec_hw_lo(frame, i).time,
    }
}

/// The packet for the second byte of a data half-word.
pub open spec fn spec_data_packet_second(frame: Seq<TraceByte>, i: int, id: u8) -> TPIUPacket {
    TPIUPacket {
        id,
        datum: spec_data_or_aux(spec_hw(frame, i)) as u8,
        offset: spec_hw_hi(frame, i).offset,
        time: spec_hw_hi(frame, i).time,
    }
}

/// What one non-final half-word (index 0..6) contributes: emitted packets,
/// the channel ID afterwards, and whether a delayed byte was orphaned.
///
/// A control half-word announces a new ID.  With its auxiliary bit clear
/// the byte beside the ID already belongs to the new channel; with the bit
/// set the byte still belongs to the previous channel, so it is re-tagged
/// under the old ID — or dropped as an orphan when no old ID exists.
/// Either way the announced ID becomes current.  A data half-word emits
/// both bytes under the current ID.
pub open spec fn spec_hw_step(frame: Seq<TraceByte>, cur: Option<u8>, i: int) -> DemuxState {
    let hw = spec_hw(frame, i);
    if spec_f_control(hw) {
        let nid = spec_new_id(frame, i);
        if spec_aux_bit(frame[15].datum, i) == 0 {
            DemuxState { packets: seq![spec_id_packet(frame, i, nid)], id: Some(nid), orphans: 0 }
        } else {
            match cur {
                Some(c) => DemuxState {
                    packets: seq![spec_id_packet(frame, i, c)],
                    id: Some(nid),
                    orphans: 0,
                },
                None => DemuxState { packets: Seq::empty(), id: Some(nid), orphans: 1 },
            }
        }
    } else {
        match cur {
            Some(c) => DemuxState {
                packets: seq![
                    spec_data_packet_first(frame, i, c),
                    spec_data_packet_second(frame, i, c),
                ],
                id: cur,
                orphans: 0,
            },
            None => DemuxState { packets: Seq::empty(), id: None, orphans: 0 },
        }
    }
}

/// Demultiplexer state after the first `n` half-words (`0 <= n <= 7`).
pub open spec fn spec_demux_prefix(frame: Seq<TraceByte>, cur0: Option<u8>, n: int) -> DemuxState
    decreases n,
{
    if n <= 0 {
        DemuxState { packets: Seq::empty(), id: cur0, orphans: 0 }
    } else {
        let prev = spec_demux_prefix(frame, cur0, n - 1);
        let st = spec_hw_step(frame, prev.id, n - 1);
        DemuxState {
            packets: prev.packets + st.packets,
            id: st.id,
            orphans: prev.orphans + st.orphans,
        }
    }
}

/// A frame can be demultiplexed without hitting a data half-word while no
/// channel ID exists: either an ID is already current, or the frame's
/// first half-word announces one.
pub open spec fn spec_frame_demuxable(frame: Seq<TraceByte>, cur0: Option<u8>) -> bool {
    cur0 is Some || spec_f_control(spec_hw(frame, 0))
}

/// What demultiplexing the whole frame yields.  The last half-word is
/// special: its auxiliary bit is ignored, a control half-word there only
/// announces the ID for the next frame, and a data half-word there emits
/// its first byte only (the second byte is the auxiliary byte).
pub open spec fn spec_process_frame(frame: Seq<TraceByte>, cur0: Option<u8>) -> DemuxResult {
    let prev = spec_demux_prefix(frame, cur0, 7);
    let hw = spec_hw(frame, 7);
    if spec_f_control(hw) {
        DemuxResult { packets: prev.packets, id: spec_new_id(frame, 7), orphans: prev.orphans }
    } else {
        match prev.id {
            Some(c) => DemuxResult {
                packets: prev.packets + seq![spec_data_packet_first(frame, 7, c)],
                id: c,
                orphans: prev.orphans,
            },
            None => DemuxResult { packets: prev.packets, id: 0, orphans: prev.orphans },
        }
    }
}

/// Once any half-word has been processed of a demuxable frame, a current
/// channel ID exists.
pub proof fn lemma_demux_prefix_some(frame: Seq<TraceByte>, cur0: Option<u8>, n: int)
    requires
        spec_frame_demuxable(frame, cur0),
        1 <= n,
    ensures
        spec_demux_prefix(frame, cur0, n).id is Some,
    decreases n,
{
    if n == 1 {
        let st = spec_hw_step(frame, cur0, 0);
        assert(st.id is Some);
    } else {
        lemma_demux_prefix_some(frame, cur0, n - 1);
    }
}

/// The orphan count of a frame never exceeds its half-word count.
pub proof fn lemma_demux_prefix_orphans(frame: Seq<TraceByte>, cur0: Option<u8>, n: int)
    requires
        0 <= n,
    ensures
        spec_demux_prefix(frame, cur0, n).orphans <= n,
    decreases n,
{
    if n > 0 {
        lemma_demux_prefix_orphans(frame, cur0, n - 1);
    }
}

/// Law: a delayed-ID half-word (control and auxiliary bit both set) seen
/// while no current channel ID exists emits nothing and orphans its byte;
/// the announced ID still becomes current.
pub proof fn lemma_delayed_id_orphan(frame: Seq<TraceByte>, i: int)
    requires
        0 <= i < 7,
        spec_f_control(spec_hw(frame, i)),
        spec_aux_bit(frame[15].datum, i) != 0,
    ensures
        spec_hw_step(frame, None, i).packets == Seq::<TPIUPacket>::empty(),
        spec_hw_step(frame, None, i).orphans == 1,
        spec_hw_step(frame, None, i).id == Some(spec_new_id(frame, i)),
{
}

/// Law: the same delayed-ID half-word seen while channel `c` is current
/// emits its byte re-tagged under `c` — not under the announced ID — and
/// only then makes the announced ID current.
pub proof fn lemma_delayed_id_retag(frame: Seq<TraceByte>, i: int, c: u8)
    requires
        0 <= i < 7,
        spec_f_control(spec_hw(frame, i)),
        spec_aux_bit(frame[15].datum, i) != 0,
    ensures
        spec_hw_step(frame, Some(c), i).packets == seq![spec_id_packet(frame, i, c)],
        spec_hw_step(frame, Some(c), i).orphans == 0,
        spec_hw_step(frame, Some(c), i).id == Some(spec_new_id(frame, i)),
{
}

/// The packets appear in strictly increasing stream-offset order.
pub open spec fn spec_offsets_increasing(ps: Seq<TPIUPacket>) -> bool {
    forall|j: int, k: int| 0 <= j < k < ps.len() ==> ps[j].offset < ps[k].offset
}

/// The frame's bytes appear in strictly increasing stream-offset order.
pub open spec fn spec_frame_offsets_increasing(frame: Seq<TraceByte>) -> bool {
    forall|j: int, k: int| 0 <= j < k < frame.len() ==> frame[j].offset < frame[k].offset
}

/// Packets of a half-word prefix keep the frame's byte order: strictly
/// increasing offsets, all within the prefix's bytes.
pub proof fn lemma_demux_prefix_offsets(frame: Seq<TraceByte>, cur0: Option<u8>, n: int)
    requires
        frame.len() == 16,
        spec_frame_offsets_increasing(frame),
        0 <= n <= 7,
    ensures
        spec_offsets_increasing(spec_demux_prefix(frame, cur0, n).packets),
        forall|j: int|
            0 <= j < spec_demux_prefix(frame, cur0, n).packets.len()
                ==> frame[0].offset <= #[trigger] spec_demux_prefix(
                frame,
                cur0,
                n,
            ).packets[j].offset <= frame[2 * n - 1].offset,
    decreases n,
{
    if n > 0 {
        lemma_demux_prefix_offsets(frame, cur0, n - 1);
        let prev = spec_demux_prefix(frame, cur0, n - 1);
        let st = spec_hw_step(frame, prev.id, n - 1);
        let ps = spec_demux_prefix(frame, cur0, n).packets;
        assert forall|j: int| 0 <= j < ps.len() implies frame[0].offset <= #[trigger] ps[j].offset
            <= frame[2 * n - 1].offset by {
            if j < prev.packets.len() {
                assert(ps[j] == prev.packets[j]);
            } else {
                assert(ps[j] == st.packets[j - prev.packets.len()]);
            }
        }
        assert forall|j: int, k: int| 0 <= j < k < ps.len() implies ps[j].offset
            < ps[k].offset by {
            if k < prev.packets.len() {
                assert(ps[j] == prev.packets[j] && ps[k] == prev.packets[k]);
            } else if j >= prev.packets.len() {
                assert(ps[j] == st.packets[j - prev.packets.len()]);
                assert(ps[k] == st.packets[k - prev.packets.len()]);
            } else {
                assert(ps[j] == prev.packets[j]);
                assert(ps[k] == st.packets[k - prev.packets.len()]);
            }
        }
    }
}

/// Law: a frame's emitted packets come in strictly increasing offset
/// order, all stamped from the frame's own bytes.
pub proof fn lemma_process_frame_offsets(frame: Seq<TraceByte>, cur0: Option<u8>)
    requires
        frame.len() == 16,
        spec_frame_offsets_increasing(frame),
    ensures
        spec_offsets_increasing(spec_process_frame(frame, cur0).packets),
        forall|j: int|
            0 <= j < spec_process_frame(frame, cur0).packets.len() ==> frame[0].offset
                <= #[trigger] spec_process_frame(frame, cur0).packets[j].offset
                <= frame[15].offset,
{
    lemma_demux_prefix_offsets(frame, cur0, 7);
    let prev = spec_demux_prefix(frame, cur0, 7);
    let ps = spec_process_frame(frame, cur0).packets;
    assert forall|j: int| 0 <= j < ps.len() implies frame[0].offset <= #[trigger] ps[j].offset
        <= frame[15].offset by {
        if j < prev.packets.len() {
            assert(ps[j] == prev.packets[j]);
        } else {
            assert(ps[j] == spec_data_packet_first(frame, 7, prev.id->0));
        }
    }
    assert forall|j: int, k: int| 0 <= j < k < ps.len() implies ps[j].offset < ps[k].offset by {
        if k < prev.packets.len() {
            assert(ps[j] == prev.packets[j] && ps[k] == prev.packets[k]);
        } else {
            assert(ps[j] == prev.packets[j]);
            assert(ps[k] == spec_data_packet_first(frame, 7, prev.id->0));
        }
    }
}

/// What `tpiu_process_frame` hands back.
pub struct TPIUProcessOutput {
    /// Packets emitted for this frame, in order, NULL-tagged ones included:
    /// the caller filters those out before its consumer sees them.
    pub packets: Vec<TPIUPacket>,
    /// Channel ID to carry into the next frame.
    pub id: u8,
    /// Delayed bytes dropped because no current channel ID existed.
    pub orphaned: u64,
}

/// Demultiplex a validated 16-byte frame under the current channel ID `id`
/// carried from prior frames.
pub fn tpiu_process_frame(frame: &[TraceByte], id: Option<u8>) -> (out: TPIUProcessOutput)
    requires
        frame@.len() == 16,
        spec_frame_demuxable(frame@, id),
    ensures
        out.packets@ == spec_process_frame(frame@, id).packets,
        out.id == spec_process_frame(frame@, id).id,
        out.orphaned == spec_process_frame(frame@, id).orphans,
{
    let high = frame.len() - 1;
    let aux = TPIUFrameHalfWord::from((frame[high - 1].datum, frame[high].datum));
    let max = frame.len() / 2;
    let mut current = id;
    let mut packets: Vec<TPIUPacket> = Vec::new();
    let mut orphaned: u64 = 0;

    proof {
        lemma_halfword_fields(frame@[14].datum, frame@[15].datum);
    }

    let mut i: usize = 0;
    while i < max
        invariant
            frame@.len() == 16,
            max == 8,
            spec_frame_demuxable(frame@, id),
            i <= 7,
            aux.0 == spec_halfword(frame@[14].datum, frame@[15].datum),
            current == spec_demux_prefix(frame@, id, i as int).id,
            packets@ == spec_demux_prefix(frame@, id, i as int).packets,
            orphaned == spec_demux_prefix(frame@, id, i as int).orphans,
            orphaned <= i,
        decreases max - i,
    {
        let base = i * 2;
        let half = TPIUFrameHalfWord::from((frame[base].datum, frame[base + 1].datum));
        let sh = i as u16;
        let auxbit = ((aux.data_or_aux() & (1u16 << sh)) >> sh) as u8;
        let last = i == max - 1;

        proof {
            lemma_halfword_fields(frame@[2 * i as int].datum, frame@[2 * i as int + 1].datum);
            lemma_halfword_fields(frame@[14].datum, frame@[15].datum);
            lemma_halfword_bounds(half.0);
            assert(half.0 == spec_hw(frame@, i as int));
            let ab16 = spec_data_or_aux(aux.0);
            assert((ab16 & (1u16 << sh)) >> sh == (ab16 >> sh) & 1 && (ab16 >> sh) & 1 < 2)
                by (bit_vector)
                requires
                    sh < 8,
            ;
            assert(auxbit == spec_aux_bit(frame@[15].datum, i as int));
        }

        if half.f_control() {
            // The auxiliary bit decides whether the announced ID takes
            // effect with this half-word (clear) or with the next (set).
            let delay = auxbit != 0;
            let pid = half.data_or_id() as u8;
            let pdatum = half.data_or_aux() as u8;
            let ptime = frame[base + 1].time;
            let poffset = frame[base + 1].offset;

            if last {
                // The last half-word's auxiliary bit is ignored and the
                // announced ID applies to the subsequent frame: report it
                // without emitting a packet.
                return TPIUProcessOutput { packets, id: pid, orphaned };
            }

            if !delay {
                packets.push(TPIUPacket { id: pid, datum: pdatum, offset: poffset, time: ptime });
            } else {
                match current {
                    Some(c) => {
                        packets.push(
                            TPIUPacket { id: c, datum: pdatum, offset: poffset, time: ptime },
                        );
                    },
                    None => {
                        // No prior channel ID: the byte is dropped, and the
                        // caller's orphan count records it.
                        orphaned = orphaned + 1;
                    },
                }
            }
            current = Some(pid);
        } else {
            // A data half-word: both bytes continue the current channel,
            // which the validator and search logic guarantee exists.
            proof {
                if i > 0 {
                    lemma_demux_prefix_some(frame@, id, i as int);
                }
            }
            let cid = match current {
                Some(c) => c,
                None => vstd::pervasive::unreached(),
            };

            packets.push(
                TPIUPacket {
                    id: cid,
                    datum: (half.data_or_id() << 1u16) as u8 | auxbit,
                    offset: frame[base].offset,
                    time: frame[base].time,
                },
            );

            if last {
                return TPIUProcessOutput { packets, id: cid, orphaned };
            }

            packets.push(
                TPIUPacket {
                    id: cid,
                    datum: half.data_or_aux() as u8,
                    offset: frame[base + 1].offset,
                    time: frame[base + 1].time,
                },
            );
        }

        proof {
            assert(packets@ =~= spec_demux_prefix(frame@, id, i as int + 1).packets);
        }
        i = i + 1;
    }

    // The last half-word always returns from within the loop.
    vstd::pervasive::unreached()
}

} // verus!
