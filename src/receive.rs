//! Reassembling a file from its chunks on the receiving side of a transfer.
use vstd::prelude::*;
use crate::frame::{Chunk, ChunkModel, Frame, TransferError, MAX_CHUNK_SIZE};

verus! {

/// Where the receiver of a transfer stands: the sequence number it expects
/// next, the bytes accepted so far, and whether the final chunk came.
pub struct ReceiverModel {
    pub expected: nat,
    pub content: Seq<u8>,
    pub finished: bool,
}

/// A receiver before the first chunk.
pub open spec fn fresh_receiver() -> ReceiverModel {
    ReceiverModel { expected: 0, content: Seq::empty(), finished: false }
}

/// What accepting one chunk does: a chunk after the final one, a payload
/// over the limit, or a counter or byte count that would overflow is a
/// protocol error; a chunk out of order is a sequence error; otherwise its
/// payload is appended.
pub open spec fn accept_chunk(m: ReceiverModel, c: ChunkModel) -> Result<ReceiverModel, TransferError> {
    if m.finished {
        Err(TransferError::ProtocolError)
    } else if c.payload.len() > MAX_CHUNK_SIZE {
        Err(TransferError::ProtocolError)
    } else if c.sequence_number != m.expected {
        Err(TransferError::SequenceError)
    } else if c.sequence_number >= u64::MAX {
        Err(TransferError::ProtocolError)
    } else if m.content.len() + c.payload.len() > u64::MAX {
        Err(TransferError::ProtocolError)
    } else {
        Ok(
            ReceiverModel {
                expected: m.expected + 1,
                content: m.content + c.payload,
                finished: c.is_final,
            },
        )
    }
}

/// Accepting a whole stream of chunks in turn, stopping at the first error.
pub open spec fn accept_all(m: ReceiverModel, cs: Seq<ChunkModel>) -> Result<ReceiverModel, TransferError>
    decreases cs.len(),
{
    if cs.len() == 0 {
        Ok(m)
    } else {
        match accept_chunk(m, cs[0]) {
            Ok(next) => accept_all(next, cs.skip(1)),
            Err(e) => Err(e),
        }
    }
}

/// The outcome when the stream closes: the byte count once the final chunk
/// has come, a truncated stream otherwise.
pub open spec fn close_outcome(m: ReceiverModel) -> Result<u64, TransferError> {
    if m.finished {
        Ok(m.content.len() as u64)
    } else {
        Err(TransferError::StreamTruncated)
    }
}

/// What the caller does after a chunk was accepted: append its payload to
/// the private temporary file, and on `Complete` also publish that file
/// under its real name.
#[derive(Debug, Clone, Copy, PartialEq, Eq, Structural)]
pub enum Progress {
    Continue,
    Complete,
}

/// The receiving side of one transfer. It holds no file content; it decides
/// whether each chunk is taken and when the transfer is complete.
pub struct Receiver {
    expected: u64,
    received: u64,
    finished: bool,
    content: Ghost<Seq<u8>>,
}

impl View for Receiver {
    type V = ReceiverModel;

    closed spec fn view(&self) -> ReceiverModel {
        ReceiverModel { expected: self.expected as nat, content: self.content@, finished: self.finished }
    }
}

impl Receiver {
    /// Whether the receiver's byte count agrees with what it accepted.
    pub closed spec fn wf(&self) -> bool {
        self.received as nat == self.content@.len()
    }

    /// A receiver that expects chunk zero.
    pub fn new() -> (r: Receiver)
        ensures
            r@ == fresh_receiver(),
            r.wf(),
    {
        Receiver { expected: 0, received: 0, finished: false, content: Ghost(Seq::empty()) }
    }

    /// How many bytes have been accepted.
    pub fn received(&self) -> (r: u64)
        requires
            self.wf(),
        ensures
            r == self@.content.len(),
    {
        self.received
    }

    /// Whether the final chunk has been accepted.
    pub fn is_finished(&self) -> (r: bool)
        ensures
            r == self@.finished,
    {
        self.finished
    }

    /// Takes the next chunk of the stream, or refuses it and leaves the
    /// receiver as it was.
    pub fn accept(&mut self, chunk: &Chunk) -> (r: Result<Progress, TransferError>)
        requires
            old(self).wf(),
        ensures
            final(self).wf(),
            match accept_chunk(old(self)@, chunk@) {
                Ok(m) => final(self)@ == m && r == Ok::<Progress, TransferError>(
                    if m.finished {
                        Progress::Complete
                    } else {
                        Progress::Continue
                    },
                ),
                Err(e) => final(self)@ == old(self)@ && r == Err::<Progress, TransferError>(e),
            },
    {
        if self.finished {
            return Err(TransferError::ProtocolError);
        }
        let len = chunk.payload.len();
        if len > MAX_CHUNK_SIZE {
            return Err(TransferError::ProtocolError);
        }
        if chunk.sequence_number != self.expected {
            return Err(TransferError::SequenceError);
        }
        if chunk.sequence_number == u64::MAX {
            return Err(TransferError::ProtocolError);
        }
        if len as u64 > u64::MAX - self.received {
            return Err(TransferError::ProtocolError);
        }
        self.expected = self.expected + 1;
        self.received = self.received + len as u64;
        self.finished = chunk.is_final;
        self.content = Ghost(self.content@ + chunk.payload@);
        if chunk.is_final {
            Ok(Progress::Complete)
        } else {
            Ok(Progress::Continue)
        }
    }

    /// Takes the next frame of the stream: a chunk as `accept` does, and an
    /// error frame as the end of the transfer with that error.
    pub fn accept_frame(&mut self, frame: &Frame) -> (r: Result<Progress, TransferError>)
        requires
            old(self).wf(),
        ensures
            final(self).wf(),
            match frame {
                Frame::Data(c) => match accept_chunk(old(self)@, c@) {
                    Ok(m) => final(self)@ == m && r == Ok::<Progress, TransferError>(
                        if m.finished {
                            Progress::Complete
                        } else {
                            Progress::Continue
                        },
                    ),
                    Err(e) => final(self)@ == old(self)@ && r == Err::<Progress, TransferError>(e),
                },
                Frame::Failure(e) => final(self)@ == old(self)@ && r == Err::<Progress, TransferError>(
                    *e,
                ),
            },
    {
        match frame {
            Frame::Data(c) => self.accept(c),
            Frame::Failure(e) => Err(*e),
        }
    }

    /// The terminal acknowledgment once the stream has closed.
    pub fn close(&self) -> (r: Result<u64, TransferError>)
        requires
            self.wf(),
        ensures
            r == close_outcome(self@),
    {
        if self.finished {
            Ok(self.received)
        } else {
            Err(TransferError::StreamTruncated)
        }
    }
}

} // verus!
