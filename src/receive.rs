//! The receive side: what a connection handler does with the bytes it has,
//! what a sender makes of the acknowledgment, and the receive session.
use vstd::prelude::*;
use crate::checksum::crc32_of;
use crate::codec::{
    announced_len, decode_ack, decode_u32_at, encode_ack, holds_frame, le_bytes, le_value_at,
    parse_frame, FIELD_WIDTH, HEADER_WIDTH,
};
use crate::reassembly::{assembled, ids_complete, pieces, reassemble, Fragment, ReassemblyError};

verus! {

/// What a connection handler does next with the bytes it has buffered.
pub enum HandlerStep {
    /// No whole frame yet and the connection is open: read more.
    ReadMore,
    /// A whole frame arrived: send `ack` back and hand `fragment` on.
    Reply { fragment: Fragment, ack: Vec<u8> },
    /// The connection closed before sending anything.
    ClosedWithoutData,
    /// The connection closed in the middle of a frame.
    Truncated,
    /// The header announces a payload longer than the largest chunk.
    TooLarge,
}

/// Whether `buf` starts with a header that announces more than `max_payload` bytes.
pub open spec fn announces_too_much(buf: Seq<u8>, max_payload: u32) -> bool {
    buf.len() >= 8 && announced_len(buf) > max_payload
}

/// The next step of a handler that has buffered `buffered`; `closed` tells
/// whether the peer has closed the connection, and `max_payload` is the
/// largest chunk a sender may send. A handler reads more only while less than
/// one maximal frame (header and `max_payload` bytes) is buffered.
pub fn handler_step(buffered: &[u8], closed: bool, max_payload: u32) -> (r: HandlerStep)
    ensures
        announces_too_much(buffered@, max_payload) <==> r is TooLarge,
        !announces_too_much(buffered@, max_payload) && holds_frame(buffered@) <==> r is Reply,
        r matches HandlerStep::Reply { fragment, ack } ==> fragment.id == le_value_at(buffered@, 0)
            && fragment.payload@ == buffered@.subrange(8, 8 + announced_len(buffered@))
            && fragment.payload@.len() <= max_payload
            && fragment.checksum == crc32_of(fragment.payload@) && ack@ == le_bytes(
            fragment.checksum,
        ),
        !announces_too_much(buffered@, max_payload) && !holds_frame(buffered@) ==> (r is ReadMore
            <==> !closed),
        !announces_too_much(buffered@, max_payload) && !holds_frame(buffered@) && closed ==> (
        r is ClosedWithoutData <==> buffered@.len() == 0),
        !announces_too_much(buffered@, max_payload) && !holds_frame(buffered@) && closed ==> (
        r is Truncated <==> buffered@.len() > 0),
        r is ReadMore ==> buffered@.len() < HEADER_WIDTH + max_payload,
{
    if buffered.len() >= HEADER_WIDTH && decode_u32_at(buffered, 4) > max_payload {
        return HandlerStep::TooLarge;
    }
    match parse_frame(buffered) {
        Some((id, payload)) => {
            let fragment = Fragment::new(id, payload);
            let ack = encode_ack(fragment.checksum);
            HandlerStep::Reply { fragment, ack }
        },
        None => {
            if !closed {
                HandlerStep::ReadMore
            } else if buffered.len() == 0 {
                HandlerStep::ClosedWithoutData
            } else {
                HandlerStep::Truncated
            }
        },
    }
}

/// What the sender of a fragment makes of the bytes that came back.
///
/// Each outcome is informational: a `Mismatch` is a warning attached to the
/// fragment and changes nothing on the receive side, where the fragment is
/// still collected and written. There is no retry and no abort on a mismatch.
#[derive(Debug, Clone, Copy, PartialEq, Eq, Structural)]
pub enum AckCheck {
    /// The receiver computed the same checksum.
    Verified,
    /// The receiver computed another checksum: the payload changed in transit.
    Mismatch { received: u32 },
    /// The reply was not four bytes long.
    Malformed,
}

/// Compares the acknowledgment `ack` against the checksum `expected` computed before sending.
/// The result is for the sender to report; it does not gate reassembly.
pub fn check_ack(expected: u32, ack: &[u8]) -> (r: AckCheck)
    ensures
        ack@.len() != FIELD_WIDTH <==> r is Malformed,
        ack@.len() == FIELD_WIDTH && le_value_at(ack@, 0) == expected <==> r is Verified,
        ack@.len() == FIELD_WIDTH && le_value_at(ack@, 0) != expected ==> r == (AckCheck::Mismatch {
            received: le_value_at(ack@, 0),
        }),
{
    match decode_ack(ack) {
        None => AckCheck::Malformed,
        Some(c) => if c == expected {
            AckCheck::Verified
        } else {
            AckCheck::Mismatch { received: c }
        },
    }
}

/// A receive session: how many connections it expects, how many it has
/// accepted, and the fragments collected so far.
pub struct ReceiveSession {
    pub expected_chunk_count: u32,
    pub accepted: u32,
    pub fragments: Vec<Fragment>,
    /// Connections that closed without delivering a whole frame.
    pub anomalies: u32,
}

impl ReceiveSession {
    /// Whether the session is consistent: never more accepts than expected.
    pub open spec fn wf(&self) -> bool {
        &&& self.accepted <= self.expected_chunk_count
        &&& self.fragments@.len() + self.anomalies <= self.accepted
    }

    /// A session that expects `expected_chunk_count` connections and holds nothing yet.
    pub fn new(expected_chunk_count: u32) -> (r: ReceiveSession)
        ensures
            r.wf(),
            r.expected_chunk_count == expected_chunk_count,
            r.accepted == 0,
            r.fragments@.len() == 0,
            r.anomalies == 0,
    {
        ReceiveSession { expected_chunk_count, accepted: 0, fragments: Vec::new(), anomalies: 0 }
    }

    /// Whether one more connection is to be accepted.
    pub fn wants_connection(&self) -> (r: bool)
        ensures
            r == (self.accepted < self.expected_chunk_count),
    {
        self.accepted < self.expected_chunk_count
    }

    /// Counts one accepted connection.
    pub fn record_accept(&mut self)
        requires
            old(self).wf(),
            old(self).accepted < old(self).expected_chunk_count,
        ensures
            final(self).wf(),
            final(self).accepted == old(self).accepted + 1,
            final(self).expected_chunk_count == old(self).expected_chunk_count,
            final(self).fragments@ == old(self).fragments@,
            final(self).anomalies == old(self).anomalies,
    {
        self.accepted = self.accepted + 1;
    }

    /// Takes in how one accepted connection ended: a fragment is collected,
    /// a connection that ended without a whole frame is counted apart and
    /// never becomes a fragment.
    pub fn record_outcome(&mut self, step: HandlerStep)
        requires
            old(self).wf(),
            old(self).fragments@.len() + old(self).anomalies < old(self).accepted,
            !(step is ReadMore),
        ensures
            final(self).wf(),
            final(self).accepted == old(self).accepted,
            final(self).expected_chunk_count == old(self).expected_chunk_count,
            step matches HandlerStep::Reply { fragment, .. } ==> final(self).fragments@ == old(self).fragments@.push(fragment) && final(self).anomalies == old(self).anomalies,
            !(step is Reply) ==> final(self).fragments@ == old(self).fragments@ && final(self).anomalies == old(self).anomalies + 1,
    {
        match step {
            HandlerStep::Reply { fragment, .. } => {
                self.fragments.push(fragment);
            },
            _ => {
                self.anomalies = self.anomalies + 1;
            },
        }
    }

    /// Counts one accepted connection that failed before its handler could
    /// decide: it never becomes a fragment.
    pub fn record_failure(&mut self)
        requires
            old(self).wf(),
            old(self).fragments@.len() + old(self).anomalies < old(self).accepted,
        ensures
            final(self).wf(),
            final(self).accepted == old(self).accepted,
            final(self).expected_chunk_count == old(self).expected_chunk_count,
            final(self).fragments@ == old(self).fragments@,
            final(self).anomalies == old(self).anomalies + 1,
    {
        self.anomalies = self.anomalies + 1;
    }

    /// The file's bytes, from the fragments collected, in id order; or which
    /// id keeps the fragments from being exactly `0..expected_chunk_count`.
    pub fn finish(&self) -> (r: Result<Vec<u8>, ReassemblyError>)
        ensures
            r is Ok <==> ids_complete(pieces(self.fragments@), self.expected_chunk_count as nat),
            r matches Ok(out) ==> out@ == assembled(
                pieces(self.fragments@),
                self.expected_chunk_count as nat,
            ),
            r matches Err(ReassemblyError::IdOutOfRange { id }) ==> id >= self.expected_chunk_count
                && exists|k: int|
                0 <= k < self.fragments@.len() && (#[trigger] self.fragments@[k]).id == id,
            r matches Err(ReassemblyError::DuplicateId { id }) ==> exists|j: int, k: int|
                0 <= j < k < self.fragments@.len() && (#[trigger] self.fragments@[j]).id == id && (
                #[trigger] self.fragments@[k]).id == id,
            r matches Err(ReassemblyError::MissingId { id }) ==> id < self.expected_chunk_count
                && forall|k: int|
                0 <= k < self.fragments@.len() ==> (#[trigger] self.fragments@[k]).id != id,
    {
        reassemble(&self.fragments, self.expected_chunk_count)
    }
}

} // verus!
