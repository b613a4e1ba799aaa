//! Chunked file transfer: the wire format, the checksum of a fragment, the
//! plan that cuts a file into chunks, the send batches, the per-connection
//! receive logic and the reassembly of fragments into the bytes of the file.
pub mod checksum;
pub mod codec;
pub mod plan;
pub mod reassembly;
pub mod receive;
pub mod send;
pub mod transfer;
