//! Laws of a whole transfer: what the receiver rebuilds from the frames the
//! sender made, whatever order they arrive in.
use vstd::prelude::*;
use crate::checksum::crc32_of;
use crate::codec::{announced_len, frame_bytes, le_value_at, lemma_frame_round_trip};
use crate::plan::{chunk_count_of, chunk_of, chunks_of, lemma_chunk_index, lemma_chunks_join};
use crate::reassembly::{
    assembled, has_id, ids_complete, is_reordering, lemma_payload_with_id,
    lemma_reassembly_order_independent, payload_with_id, reaches,
};

verus! {

/// The id and payload a receiver reads out of a whole frame.
pub open spec fn wire_piece(frame: Seq<u8>) -> (u32, Seq<u8>) {
    (le_value_at(frame, 0), frame.subrange(8, 8 + announced_len(frame)))
}

/// The frame that carries chunk `i` of `data`.
pub open spec fn chunk_frame(data: Seq<u8>, chunk_size: int, i: int) -> Seq<u8> {
    frame_bytes(i as u32, chunk_of(data, chunk_size, i))
}

/// The id and payload of each chunk of `data`, in file order.
pub open spec fn sent_pieces(data: Seq<u8>, chunk_size: int) -> Seq<(u32, Seq<u8>)> {
    Seq::new(
        chunk_count_of(data.len() as int, chunk_size) as nat,
        |i: int| (i as u32, chunk_of(data, chunk_size, i)),
    )
}

/// A payload's checksum is the same at both ends when the frame arrives unchanged.
pub proof fn lemma_checksum_survives_transit(id: u32, payload: Seq<u8>)
    requires
        payload.len() <= u32::MAX,
    ensures
        crc32_of(wire_piece(frame_bytes(id, payload)).1) == crc32_of(payload),
        wire_piece(frame_bytes(id, payload)) == (id, payload),
{
    lemma_frame_round_trip(id, payload);
}

/// A file whose size is `k` whole chunks makes exactly `k` chunks; an empty file makes none.
pub proof fn lemma_whole_chunks(k: nat, chunk_size: nat)
    requires
        chunk_size > 0,
    ensures
        chunk_count_of((k * chunk_size) as int, chunk_size as int) == k,
        chunk_count_of(0, chunk_size as int) == 0,
{
    vstd::arithmetic::div_mod::lemma_mod_multiples_basic(k as int, chunk_size as int);
    vstd::arithmetic::div_mod::lemma_div_multiples_vanish(k as int, chunk_size as int);
    assert(k * chunk_size == chunk_size * k) by (nonlinear_arith);
}

/// In a file of `k` whole chunks every chunk is exactly `chunk_size` bytes long.
pub proof fn lemma_whole_chunk_length(data: Seq<u8>, k: nat, chunk_size: nat, i: int)
    requires
        chunk_size > 0,
        data.len() == k * chunk_size,
        0 <= i < k,
    ensures
        chunk_of(data, chunk_size as int, i).len() == chunk_size,
{
    let c = chunk_size as int;
    assert((i + 1) * c <= k * c && 0 <= i * c && (i + 1) * c == i * c + c) by (nonlinear_arith)
        requires
            0 <= i < k,
            c > 0,
    ;
}

/// The chunks of a file, each with its id, make a complete set whose reassembly is the file.
pub proof fn lemma_sent_pieces_rebuild(data: Seq<u8>, chunk_size: int)
    requires
        chunk_size > 0,
        chunk_count_of(data.len() as int, chunk_size) <= u32::MAX + 1,
    ensures
        ids_complete(
            sent_pieces(data, chunk_size),
            chunk_count_of(data.len() as int, chunk_size) as nat,
        ),
        assembled(sent_pieces(data, chunk_size), chunk_count_of(data.len() as int, chunk_size) as nat)
            == data,
{
    let n = chunk_count_of(data.len() as int, chunk_size);
    let s = sent_pieces(data, chunk_size);
    lemma_chunk_index(data.len() as int, chunk_size, 0);
    assert forall|i: int| 0 <= i < n implies #[trigger] has_id(s, i) by {
        assert(s[i].0 == i);
    }
    assert(ids_complete(s, n as nat));
    assert forall|i: int| 0 <= i < n implies #[trigger] payload_with_id(s, i) == chunk_of(
        data,
        chunk_size,
        i,
    ) by {
        lemma_payload_with_id(s, n as nat, i);
    }
    assert(Seq::new(n as nat, |i: int| payload_with_id(s, i)) =~= chunks_of(data, chunk_size, n));
    lemma_chunks_join(data, chunk_size);
}

/// A whole transfer gives the file back: the chunks of `data` go out as frames,
/// arrive in any order (`arrived[j]` is read from the frame of chunk `order[j]`,
/// and `order` is a bijection of the chunk ids), and their reassembly by the
/// chunk count is exactly `data`. The bounds are those of the wire: a chunk's length
/// and its id each travel in a 32-bit field.
pub proof fn lemma_transfer_round_trip(
    data: Seq<u8>,
    chunk_size: int,
    order: Seq<int>,
    arrived: Seq<(u32, Seq<u8>)>,
)
    requires
        0 < chunk_size <= u32::MAX,
        chunk_count_of(data.len() as int, chunk_size) <= u32::MAX + 1,
        arrived.len() == chunk_count_of(data.len() as int, chunk_size),
        order.len() == arrived.len(),
        forall|j: int| 0 <= j < order.len() ==> 0 <= #[trigger] order[j] < order.len(),
        forall|j: int, k: int|
            0 <= j < order.len() && 0 <= k < order.len() && j != k ==> #[trigger] order[j]
                != #[trigger] order[k],
        forall|i: int| 0 <= i < order.len() ==> #[trigger] reaches(order, i),
        forall|j: int|
            0 <= j < arrived.len() ==> #[trigger] arrived[j] == wire_piece(
                chunk_frame(data, chunk_size, order[j]),
            ),
    ensures
        ids_complete(arrived, chunk_count_of(data.len() as int, chunk_size) as nat),
        assembled(arrived, chunk_count_of(data.len() as int, chunk_size) as nat) == data,
{
    let n = chunk_count_of(data.len() as int, chunk_size);
    let s = sent_pieces(data, chunk_size);
    assert forall|j: int| 0 <= j < arrived.len() implies 0 <= #[trigger] order[j] < s.len()
        && arrived[j] == s[order[j]] by {
        let i = order[j];
        lemma_chunk_index(data.len() as int, chunk_size, i);
        assert((i + 1) * chunk_size == i * chunk_size + chunk_size) by (nonlinear_arith);
        assert(0 <= i * chunk_size) by (nonlinear_arith)
            requires
                i >= 0,
                chunk_size > 0,
        ;
        lemma_frame_round_trip(i as u32, chunk_of(data, chunk_size, i));
    }
    assert(is_reordering(s, arrived, order));
    lemma_sent_pieces_rebuild(data, chunk_size);
    lemma_reassembly_order_independent(s, arrived, order, n as nat);
}

} // verus!
