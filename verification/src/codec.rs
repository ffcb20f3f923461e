//! How a well-formed single-channel frame encodes a run of data bytes,
//! and the law that demultiplexing such a frame gives the run back.

use vstd::prelude::*;

use crate::demux::{
    spec_aux_bit, spec_demux_prefix, spec_frame_demuxable, spec_hw_step, spec_new_id,
    spec_process_frame, DemuxResult,
};
use crate::frame::{
    lemma_halfword_fields, spec_check_frame, spec_data_or_id, spec_f_control, spec_hw,
    spec_halfword_ok, TraceByte,
};
use crate::ingest::{
    spec_append_byte, spec_ingest, spec_ingest_init, spec_ingest_step, IngestModel,
};
use crate::state::{spec_next_state, TPIUState};

verus! {

/// `frame` carries channel `id` and exactly the 14 data bytes `data`, in
/// the TPIU wire shape: the first half-word announces `id` (control bit
/// set, no delay) beside `data[0]`; every later half-word is a plain data
/// pair under that ID, the low bit of each even byte displaced into the
/// frame's auxiliary byte; the last half-word's second byte is the
/// auxiliary byte itself, so it carries one data byte only.
pub open spec fn spec_frame_encodes(frame: Seq<TraceByte>, id: u8, data: Seq<u8>) -> bool {
    &&& frame.len() == 16
    &&& data.len() == 14
    &&& id < 128
    &&& frame[0].datum == (id << 1) | 1
    &&& frame[1].datum == data[0]
    &&& (forall|k: int| 1 <= k <= 7 ==> #[trigger] frame[2 * k].datum == data[2 * k - 1] & 0xfe)
    &&& (forall|k: int| 1 <= k < 7 ==> #[trigger] frame[2 * k + 1].datum == data[2 * k])
    &&& spec_aux_bit(frame[15].datum, 0) == 0
    &&& (forall|k: int| 1 <= k < 7 ==> #[trigger] spec_aux_bit(frame[15].datum, k) == data[2 * k
        - 1] & 1)
    &&& spec_aux_bit(frame[15].datum, 7) == data[13] & 1
}

/// The bit identities the wire shape rests on: the control bit and ID
/// survive the packing of an announcement byte, and a data byte survives
/// having its low bit displaced and restored.
proof fn lemma_codec_bits(id: u8, d: u8)
    by (bit_vector)
    requires
        id < 128,
    ensures
        ((id << 1) | 1u8) & 1 == 1,
        (((id << 1) | 1u8) as u16) >> 1 == id as u16,
        (d & 0xfe) & 1 == 0,
        (((((d & 0xfe) as u16) >> 1) << 1) as u8) | (d & 1) == d,
        id != 0x7f ==> ((id << 1) | 1u8) != 0xff,
{
}

/// After `n` half-words of an encoding frame, the demultiplexer has
/// emitted exactly the first `2n - 1` data bytes under `id`, which is
/// current, and orphaned nothing.
proof fn lemma_encoded_prefix(
    frame: Seq<TraceByte>,
    id: u8,
    data: Seq<u8>,
    cur0: Option<u8>,
    n: int,
)
    requires
        spec_frame_encodes(frame, id, data),
        1 <= n <= 7,
    ensures
        spec_demux_prefix(frame, cur0, n).id == Some(id),
        spec_demux_prefix(frame, cur0, n).orphans == 0,
        spec_demux_prefix(frame, cur0, n).packets.len() == 2 * n - 1,
        forall|j: int|
            0 <= j < 2 * n - 1 ==> #[trigger] spec_demux_prefix(frame, cur0, n).packets[j].id == id
                && spec_demux_prefix(frame, cur0, n).packets[j].datum == data[j],
    decreases n,
{
    lemma_halfword_fields(frame[2 * (n - 1)].datum, frame[2 * (n - 1) + 1].datum);
    if n == 1 {
        lemma_codec_bits(id, 0);
        assert(spec_f_control(spec_hw(frame, 0)));
        assert(spec_new_id(frame, 0) == id);
        let st = spec_hw_step(frame, cur0, 0);
        assert(st.packets.len() == 1);
        assert(st.packets[0].id == id && st.packets[0].datum == data[0]);
    } else {
        lemma_encoded_prefix(frame, id, data, cur0, n - 1);
        let prev = spec_demux_prefix(frame, cur0, n - 1);
        let i = n - 1;
        let d0 = data[2 * i - 1];
        let d1 = data[2 * i];
        lemma_codec_bits(id, d0);
        assert(frame[2 * i].datum == d0 & 0xfe);
        assert(!spec_f_control(spec_hw(frame, i)));
        let st = spec_hw_step(frame, prev.id, i);
        assert(spec_data_or_id(spec_hw(frame, i)) == ((d0 & 0xfe) as u16) >> 1);
        assert(st.packets.len() == 2);
        assert(st.packets[0].datum == d0);
        assert(st.packets[1].datum == d1);
        let ps = spec_demux_prefix(frame, cur0, n).packets;
        assert forall|j: int| 0 <= j < 2 * n - 1 implies #[trigger] ps[j].id == id && ps[j].datum
            == data[j] by {
            if j < 2 * (n - 1) - 1 {
                assert(ps[j] == prev.packets[j]);
            } else {
                assert(ps[j] == st.packets[j - (2 * (n - 1) - 1)]);
            }
        }
    }
}

/// Law: a frame that encodes channel `id` and data run `data` passes the
/// frame check whenever `id` is expected, and demultiplexes — whatever
/// channel was current before — to exactly the 14 `data` bytes in order,
/// every one tagged `id`, with nothing orphaned, leaving `id` current.
pub proof fn lemma_frame_round_trip(
    frame: Seq<TraceByte>,
    id: u8,
    data: Seq<u8>,
    cur0: Option<u8>,
    valid: Seq<bool>,
)
    requires
        spec_frame_encodes(frame, id, data),
        valid.len() == 256,
        valid[id as int],
    ensures
        spec_check_frame(frame, valid, true),
        spec_frame_demuxable(frame, cur0),
        spec_process_frame(frame, cur0) == (DemuxResult {
            packets: spec_process_frame(frame, cur0).packets,
            id: id,
            orphans: 0,
        }),
        spec_process_frame(frame, cur0).packets.len() == 14,
        forall|j: int|
            0 <= j < 14 ==> #[trigger] spec_process_frame(frame, cur0).packets[j].id == id
                && spec_process_frame(frame, cur0).packets[j].datum == data[j],
{
    // Every half-word passes the consistency check: the first announces an
    // expected ID, the rest carry no ID at all.
    assert forall|i: int| 0 <= i < 8 implies #[trigger] spec_halfword_ok(
        frame,
        valid,
        true,
        i,
    ) by {
        lemma_halfword_fields(frame[2 * i].datum, frame[2 * i + 1].datum);
        if i == 0 {
            lemma_codec_bits(id, 0);
        } else if i < 7 {
            lemma_codec_bits(id, data[2 * i - 1]);
        } else {
            lemma_codec_bits(id, data[13]);
        }
    }
    lemma_halfword_fields(frame[0].datum, frame[1].datum);
    lemma_codec_bits(id, 0);
    assert(spec_f_control(spec_hw(frame, 0)));

    lemma_encoded_prefix(frame, id, data, cur0, 7);
    let prev = spec_demux_prefix(frame, cur0, 7);
    lemma_halfword_fields(frame[14].datum, frame[15].datum);
    lemma_codec_bits(id, data[13]);
    assert(frame[14].datum == data[13] & 0xfe);
    assert(!spec_f_control(spec_hw(frame, 7)));
    let r = spec_process_frame(frame, cur0);
    assert(r.packets.len() == 14);
    assert(r.packets[13].datum == data[13] && r.packets[13].id == id);
    assert forall|j: int| 0 <= j < 14 implies #[trigger] spec_process_frame(
        frame,
        cur0,
    ).packets[j].id == id && spec_process_frame(frame, cur0).packets[j].datum == data[j] by {
        if j < 13 {
            assert(r.packets[j] == prev.packets[j]);
        }
    }
}

/// The wire shape stated over the raw frame bytes alone.
pub open spec fn spec_bytes_encode(bytes: Seq<u8>, id: u8, data: Seq<u8>) -> bool {
    &&& bytes.len() == 16
    &&& data.len() == 14
    &&& id < 128
    &&& bytes[0] == (id << 1) | 1
    &&& bytes[1] == data[0]
    &&& (forall|k: int| 1 <= k <= 7 ==> #[trigger] bytes[2 * k] == data[2 * k - 1] & 0xfe)
    &&& (forall|k: int| 1 <= k < 7 ==> #[trigger] bytes[2 * k + 1] == data[2 * k])
    &&& spec_aux_bit(bytes[15], 0) == 0
    &&& (forall|k: int| 1 <= k < 7 ==> #[trigger] spec_aux_bit(bytes[15], k) == data[2 * k - 1]
        & 1)
    &&& spec_aux_bit(bytes[15], 7) == data[13] & 1
}

/// A buffer whose bytes are in the wire shape is an encoding frame,
/// whatever its stamps.
proof fn lemma_bytes_encode_frame(frame: Seq<TraceByte>, bytes: Seq<u8>, id: u8, data: Seq<u8>)
    requires
        frame.len() == 16,
        forall|j: int| 0 <= j < 16 ==> #[trigger] frame[j].datum == bytes[j],
        spec_bytes_encode(bytes, id, data),
    ensures
        spec_frame_encodes(frame, id, data),
{
    assert(forall|k: int| 1 <= k <= 7 ==> #[trigger] frame[2 * k].datum == bytes[2 * k]);
    assert(forall|k: int| 1 <= k < 7 ==> #[trigger] frame[2 * k + 1].datum == bytes[2 * k + 1]);
}

/// Feeding the 16 bytes of an encoding frame to a freshly framed session
/// fills the buffer byte by byte and then releases exactly the frame's 14
/// data bytes, all tagged with its channel ID.
proof fn lemma_feed_encoded_frame(
    valid: Seq<bool>,
    stream: Seq<(u8, u64)>,
    n: int,
    b: int,
    id: u8,
    data: Seq<u8>,
)
    requires
        valid.len() == 256,
        0 < id < 128,
        id != 0x7f,
        valid[id as int],
        0 <= n,
        n + 16 <= stream.len(),
        stream.len() <= usize::MAX,
        spec_bytes_encode(Seq::new(16, |j: int| stream[n + j].0), id, data),
        !spec_ingest(valid, stream, n).fatal,
        spec_ingest(valid, stream, n).next.state is Framing,
        spec_ingest(valid, stream, n).next.ndx == 0,
        spec_ingest(valid, stream, n).next.frame.len() == 16,
        spec_ingest(valid, stream, n).next.offs == n,
        1 <= b <= 16,
    ensures
        ({
            let r0 = spec_ingest(valid, stream, n);
            let rb = spec_ingest(valid, stream, n + b);
            &&& !rb.fatal
            &&& rb.next.offs == n + b
            &&& rb.next.frame.len() == 16
            &&& (b < 16 ==> {
                &&& rb.next.state is Framing
                &&& rb.next.ndx == b
                &&& rb.next.id == r0.next.id
                &&& rb.next.nvalid == r0.next.nvalid
                &&& rb.next.orphaned == r0.next.orphaned
                &&& rb.packets == r0.packets
                &&& (forall|j: int|
                    0 <= j < b ==> #[trigger] rb.next.frame[j].datum == stream[n + j].0)
            })
            &&& (b == 16 ==> {
                &&& rb.next.state is Framing
                &&& rb.next.ndx == 0
                &&& rb.next.id == Some(id)
                &&& rb.next.nvalid == r0.next.nvalid + 1
                &&& rb.next.orphaned == r0.next.orphaned
                &&& rb.packets.len() == r0.packets.len() + 14
                &&& (forall|j: int|
                    0 <= j < r0.packets.len() ==> #[trigger] rb.packets[j] == r0.packets[j])
                &&& (forall|j: int|
                    0 <= j < 14 ==> #[trigger] rb.packets[r0.packets.len() + j].id == id
                        && rb.packets[r0.packets.len() + j].datum == data[j])
            })
        }),
    decreases b,
{
    let r0 = spec_ingest(valid, stream, n);
    let bytes = Seq::new(16, |j: int| stream[n + j].0);
    if b == 1 {
        // The opening byte carries the control bit and an ID other than
        // 0x7f, so it cannot begin a sync match: it is stored.
        lemma_codec_bits(id, 0);
        assert(stream[n].0 == (id << 1) | 1);
        assert(spec_next_state(TPIUState::Framing, stream[n].0) == TPIUState::Framing);
    } else {
        lemma_feed_encoded_frame(valid, stream, n, b - 1, id, data);
        let rp = spec_ingest(valid, stream, n + b - 1);
        let st = spec_ingest_step(rp.next, valid, stream[n + b - 1].0, stream[n + b - 1].1);
        let m2 = spec_append_byte(
            IngestModel { offs: rp.next.offs + 1, ..rp.next },
            stream[n + b - 1].0,
            stream[n + b - 1].1,
        );
        assert(forall|j: int|
            0 <= j < b - 1 ==> #[trigger] m2.frame[j].datum == rp.next.frame[j].datum);
        assert(m2.frame[b - 1].datum == stream[n + b - 1].0);
        if b == 16 {
            lemma_bytes_encode_frame(m2.frame, bytes, id, data);
            lemma_frame_round_trip(m2.frame, id, data, m2.id, valid);
            let pr = spec_process_frame(m2.frame, m2.id);
            crate::ingest::lemma_drop_null_identity(pr.packets);
            assert(spec_check_frame(m2.frame, valid, true));
            assert(spec_frame_demuxable(m2.frame, m2.id));
            let rb = spec_ingest(valid, stream, n + b);
            assert(rb.packets == r0.packets + pr.packets);
            assert(forall|j: int|
                0 <= j < r0.packets.len() ==> #[trigger] rb.packets[j] == r0.packets[j]);
            assert(forall|j: int|
                0 <= j < 14 ==> #[trigger] rb.packets[r0.packets.len() + j] == pr.packets[j]);
        }
    }
}

/// Law: a stream made of the sync pattern followed by well-formed frames,
/// each encoding a run of 14 data bytes under an expected non-NULL
/// channel ID, decodes to exactly those runs in order, every byte tagged
/// with its frame's ID, with nothing orphaned and every frame counted
/// valid.
pub proof fn lemma_stream_round_trip(
    valid: Seq<bool>,
    stream: Seq<(u8, u64)>,
    ids: Seq<u8>,
    datas: Seq<Seq<u8>>,
    t: int,
)
    requires
        valid.len() == 256,
        ids.len() == datas.len(),
        stream.len() <= usize::MAX,
        4 + 16 * ids.len() <= stream.len(),
        stream[0].0 == 0xff,
        stream[1].0 == 0xff,
        stream[2].0 == 0xff,
        stream[3].0 == 0x7f,
        forall|u: int|
            0 <= u < ids.len() ==> 0 < #[trigger] ids[u] < 128 && ids[u] != 0x7f
                && valid[ids[u] as int],
        forall|u: int|
            0 <= u < ids.len() ==> spec_bytes_encode(
                Seq::new(16, |j: int| stream[4 + 16 * u + j].0),
                #[trigger] ids[u],
                datas[u],
            ),
        0 <= t <= ids.len(),
    ensures
        ({
            let r = spec_ingest(valid, stream, 4 + 16 * t);
            &&& !r.fatal
            &&& r.next.state is Framing
            &&& r.next.ndx == 0
            &&& r.next.frame.len() == 16
            &&& r.next.offs == 4 + 16 * t
            &&& r.next.orphaned == 0
            &&& r.next.nvalid == t
            &&& (t > 0 ==> r.next.id == Some(ids[t - 1]))
            &&& r.packets.len() == 14 * t
            &&& (forall|u: int, j: int|
                0 <= u < t && 0 <= j < 14 ==> #[trigger] r.packets[14 * u + j].id == ids[u]
                    && r.packets[14 * u + j].datum == datas[u][j])
        }),
    decreases t,
{
    if t == 0 {
        // The four sync bytes walk the machine from searching to framed.
        let r0 = spec_ingest(valid, stream, 0);
        assert(r0.next == spec_ingest_init());
        let r1 = spec_ingest(valid, stream, 1);
        assert(spec_next_state(TPIUState::Searching, 0xff) == TPIUState::SearchingSyncing(1));
        assert(!r1.fatal && r1.next.state == TPIUState::SearchingSyncing(1) && r1.next.ndx == 0
            && r1.next.offs == 1 && r1.next.nvalid == 0 && r1.next.orphaned == 0
            && r1.next.frame.len() == 16 && r1.packets.len() == 0);
        let r2 = spec_ingest(valid, stream, 2);
        assert(!r2.fatal && r2.next.state == TPIUState::SearchingSyncing(2) && r2.next.ndx == 0
            && r2.next.offs == 2 && r2.next.nvalid == 0 && r2.next.orphaned == 0
            && r2.next.frame.len() == 16 && r2.packets.len() == 0);
        let r3 = spec_ingest(valid, stream, 3);
        assert(!r3.fatal && r3.next.state == TPIUState::SearchingSyncing(3) && r3.next.ndx == 0
            && r3.next.offs == 3 && r3.next.nvalid == 0 && r3.next.orphaned == 0
            && r3.next.frame.len() == 16 && r3.packets.len() == 0);
        let r4 = spec_ingest(valid, stream, 4);
        assert(!r4.fatal && r4.next.state == TPIUState::Framing && r4.next.ndx == 0
            && r4.next.offs == 4 && r4.next.nvalid == 0 && r4.next.orphaned == 0
            && r4.next.frame.len() == 16 && r4.packets.len() == 0);
    } else {
        lemma_stream_round_trip(valid, stream, ids, datas, t - 1);
        let n = 4 + 16 * (t - 1);
        let rp = spec_ingest(valid, stream, n);
        assert(spec_bytes_encode(
            Seq::new(16, |j: int| stream[n + j].0),
            ids[t - 1],
            datas[t - 1],
        ));
        lemma_feed_encoded_frame(valid, stream, n, 16, ids[t - 1], datas[t - 1]);
        let r = spec_ingest(valid, stream, 4 + 16 * t);
        assert forall|u: int, j: int| 0 <= u < t && 0 <= j < 14 implies #[trigger] r.packets[14 * u
            + j].id == ids[u] && r.packets[14 * u + j].datum == datas[u][j] by {
            if u < t - 1 {
                assert(r.packets[14 * u + j] == rp.packets[14 * u + j]);
            } else {
                assert(14 * u + j == rp.packets.len() + j);
            }
        }
    }
}

} // verus!
