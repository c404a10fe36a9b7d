//! The messages carried on a transfer stream.
use vstd::prelude::*;

verus! {

/// The largest payload a single chunk may carry.
pub const MAX_CHUNK_SIZE: usize = 65536;

/// Why a transfer ended without success. Each one ends only its own transfer.
#[derive(Debug, Clone, Copy, PartialEq, Eq, Structural)]
pub enum TransferError {
    /// A malformed frame, or a size outside the protocol's limits.
    ProtocolError,
    /// The requested name would leave the root directory.
    PathViolation,
    /// The requested file does not exist.
    NotFound,
    /// A chunk came out of order, or twice.
    SequenceError,
    /// A filesystem read or write failed.
    IoError,
    /// The stream closed before the final chunk.
    StreamTruncated,
}

/// One unit of file content on a transfer stream.
#[derive(Debug, Clone, PartialEq, Eq)]
pub struct Chunk {
    pub sequence_number: u64,
    pub payload: Vec<u8>,
    pub is_final: bool,
}

/// What a chunk means: its position, its bytes, and whether it ends the transfer.
pub struct ChunkModel {
    pub sequence_number: nat,
    pub payload: Seq<u8>,
    pub is_final: bool,
}

impl View for Chunk {
    type V = ChunkModel;

    open spec fn view(&self) -> ChunkModel {
        ChunkModel {
            sequence_number: self.sequence_number as nat,
            payload: self.payload@,
            is_final: self.is_final,
        }
    }
}

/// A file in the server's root directory, as the listing reports it.
#[derive(Debug, Clone, PartialEq, Eq)]
pub struct FileListEntry {
    pub name: String,
    pub size_bytes: u64,
}

/// A frame that the sending side of a transfer puts on the stream:
/// a chunk, or the error that ends the transfer.
#[derive(Debug, Clone, PartialEq, Eq)]
pub enum Frame {
    Data(Chunk),
    Failure(TransferError),
}

/// What a frame means.
pub enum FrameModel {
    Data(ChunkModel),
    Failure(TransferError),
}

impl View for Frame {
    type V = FrameModel;

    open spec fn view(&self) -> FrameModel {
        match self {
            Frame::Data(c) => FrameModel::Data(c@),
            Frame::Failure(e) => FrameModel::Failure(*e),
        }
    }
}

} // verus!
