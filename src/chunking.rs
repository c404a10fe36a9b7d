//! Splitting a file into chunks on the sending side of a transfer.
use vstd::prelude::*;
use crate::frame::{Chunk, ChunkModel, TransferError, MAX_CHUNK_SIZE};

verus! {

/// The chunks that carry `data` with payloads of at most `size` bytes,
/// numbered from `first`: every chunk but the last is full, and the last
/// one, possibly empty, is marked final.
pub open spec fn chunks_of(data: Seq<u8>, size: nat, first: nat) -> Seq<ChunkModel>
    decreases data.len(),
{
    if size == 0 || data.len() <= size {
        seq![ChunkModel { sequence_number: first, payload: data, is_final: true }]
    } else {
        seq![ChunkModel { sequence_number: first, payload: data.take(size as int), is_final: false }]
            + chunks_of(data.skip(size as int), size, first + 1)
    }
}

/// Where the sender of a file of `total` bytes stands.
pub struct SenderModel {
    pub total: nat,
    pub sent: nat,
    pub next_sequence: nat,
    pub chunk_size: nat,
    pub done: bool,
}

impl SenderModel {
    pub open spec fn wf(self) -> bool {
        &&& 0 < self.chunk_size <= MAX_CHUNK_SIZE
        &&& self.sent <= self.total <= u64::MAX
        &&& self.next_sequence <= self.sent
    }

    /// How many bytes the next chunk carries.
    pub open spec fn window(self) -> nat {
        if self.total - self.sent <= self.chunk_size {
            (self.total - self.sent) as nat
        } else {
            self.chunk_size
        }
    }

    /// Whether the next chunk reaches the end of the file.
    pub open spec fn window_is_last(self) -> bool {
        self.total - self.sent <= self.chunk_size
    }

    /// The chunk emitted when the next window holds `payload`.
    pub open spec fn next_chunk(self, payload: Seq<u8>) -> ChunkModel {
        ChunkModel {
            sequence_number: self.next_sequence,
            payload,
            is_final: self.window_is_last(),
        }
    }

    /// The sender after emitting the next chunk.
    pub open spec fn advance(self) -> SenderModel {
        SenderModel {
            total: self.total,
            sent: self.sent + self.window(),
            next_sequence: if self.window_is_last() {
                self.next_sequence
            } else {
                self.next_sequence + 1
            },
            chunk_size: self.chunk_size,
            done: self.window_is_last(),
        }
    }
}

/// The sending side of one transfer: it numbers the windows of a file of
/// known length and marks the one that reaches its end. The bytes are read
/// by the caller, one window at a time.
pub struct Sender {
    total: u64,
    sent: u64,
    next_sequence: u64,
    chunk_size: usize,
    done: bool,
}

impl View for Sender {
    type V = SenderModel;

    closed spec fn view(&self) -> SenderModel {
        SenderModel {
            total: self.total as nat,
            sent: self.sent as nat,
            next_sequence: self.next_sequence as nat,
            chunk_size: self.chunk_size as nat,
            done: self.done,
        }
    }
}

impl Sender {
    /// A sender for a file of `total_len` bytes, in chunks of `chunk_size` bytes.
    pub fn new(total_len: u64, chunk_size: usize) -> (r: Sender)
        requires
            0 < chunk_size <= MAX_CHUNK_SIZE,
        ensures
            r@ == (SenderModel {
                total: total_len as nat,
                sent: 0,
                next_sequence: 0,
                chunk_size: chunk_size as nat,
                done: false,
            }),
            r@.wf(),
    {
        Sender { total: total_len, sent: 0, next_sequence: 0, chunk_size, done: false }
    }

    /// Whether the final chunk has been emitted.
    pub fn is_done(&self) -> (r: bool)
        ensures
            r == self@.done,
    {
        self.done
    }

    /// Where in the file the next window starts.
    pub fn offset(&self) -> (r: u64)
        ensures
            r == self@.sent,
    {
        self.sent
    }

    /// How many bytes the caller must read for the next chunk.
    pub fn window(&self) -> (r: usize)
        requires
            self@.wf(),
        ensures
            r == self@.window(),
    {
        let rest = self.total - self.sent;
        if rest <= self.chunk_size as u64 {
            rest as usize
        } else {
            self.chunk_size
        }
    }

    /// Wraps the bytes read for the next window in a chunk. A payload of
    /// another length than the window means the read came up short, which
    /// ends the transfer rather than truncating it silently.
    pub fn emit(&mut self, payload: Vec<u8>) -> (r: Result<Chunk, TransferError>)
        requires
            old(self)@.wf(),
            !old(self)@.done,
        ensures
            final(self)@.wf(),
            payload@.len() == old(self)@.window() ==> r is Ok && r->Ok_0@ == old(self)@.next_chunk(
                payload@,
            ) && final(self)@ == old(self)@.advance(),
            payload@.len() != old(self)@.window() ==> r == Err::<Chunk, TransferError>(
                TransferError::IoError,
            ) && final(self)@ == old(self)@,
    {
        let w = self.window();
        if payload.len() != w {
            return Err(TransferError::IoError);
        }
        let last = self.total - self.sent <= self.chunk_size as u64;
        let chunk = Chunk { sequence_number: self.next_sequence, payload, is_final: last };
        self.sent = self.sent + w as u64;
        if last {
            self.done = true;
        } else {
            self.next_sequence = self.next_sequence + 1;
        }
        Ok(chunk)
    }

    /// Reads the receiver's terminal acknowledgment of a finished transfer:
    /// it succeeds only when the receiver reports every byte that was sent.
    pub fn confirm(&self, ack: Result<u64, TransferError>) -> (r: Result<u64, TransferError>)
        requires
            self@.done,
        ensures
            r == match ack {
                Ok(n) => if n == self@.total {
                    Ok(n)
                } else {
                    Err(TransferError::ProtocolError)
                },
                Err(e) => Err(e),
            },
    {
        match ack {
            Ok(n) => if n == self.total {
                Ok(n)
            } else {
                Err(TransferError::ProtocolError)
            },
            Err(e) => Err(e),
        }
    }
}

/// The chunks of `data`, numbered from zero, each of at most `chunk_size` bytes.
pub fn split_chunks(data: &Vec<u8>, chunk_size: usize) -> (r: Vec<Chunk>)
    requires
        0 < chunk_size <= MAX_CHUNK_SIZE,
    ensures
        r@.map_values(|c: Chunk| c@) == chunks_of(data@, chunk_size as nat, 0),
{
    let n: usize = data.len();
    let mut sender = Sender::new(n as u64, chunk_size);
    let mut out: Vec<Chunk> = Vec::new();
    proof {
        assert(data@.skip(0) =~= data@);
    }
    while !sender.is_done()
        invariant
            sender@.wf(),
            n == data@.len(),
            sender@.total == n,
            sender@.chunk_size == chunk_size,
            !sender@.done ==> out@.map_values(|c: Chunk| c@) + chunks_of(
                data@.skip(sender@.sent as int),
                chunk_size as nat,
                sender@.next_sequence,
            ) == chunks_of(data@, chunk_size as nat, 0),
            sender@.done ==> out@.map_values(|c: Chunk| c@) == chunks_of(data@, chunk_size as nat, 0),
        decreases sender@.total - sender@.sent + (if sender@.done { 0int } else { 1int }),
    {
        let w = sender.window();
        let start = sender.offset() as usize;
        assert(start == sender@.sent);
        let end = start + w;
        let mut piece: Vec<u8> = Vec::new();
        let mut k: usize = start;
        while k < end
            invariant
                end <= data@.len(),
                start <= k <= end,
                piece@ == data@.subrange(start as int, k as int),
            decreases end - k,
        {
            piece.push(data[k]);
            proof {
                assert(data@.subrange(start as int, k + 1) =~= data@.subrange(start as int, k as int).push(data@[k as int]));
            }
            k = k + 1;
        }
        let ghost before = sender@;
        let ghost rest = data@.skip(before.sent as int);
        proof {
            lemma_sender_follows_chunks(before, rest);
            assert(piece@ =~= rest.take(before.window() as int));
        }
        let c = sender.emit(piece);
        match c {
            Ok(c) => {
                proof {
                    let ghost old_out = out@.map_values(|c: Chunk| c@);
                    assert(out@.push(c).map_values(|c: Chunk| c@) =~= old_out.push(c@));
                    if !before.window_is_last() {
                        assert(rest.skip(before.window() as int) =~= data@.skip(sender@.sent as int));
                        assert(old_out.push(c@) + chunks_of(data@.skip(sender@.sent as int), chunk_size as nat, sender@.next_sequence)
                            =~= old_out + chunks_of(rest, chunk_size as nat, before.next_sequence));
                    } else {
                        assert(old_out.push(c@) =~= old_out + chunks_of(rest, chunk_size as nat, before.next_sequence));
                    }
                }
                out.push(c);
            },
            Err(_) => {},
        }
    }
    out
}

/// Emitting the windows of the rest of a file in turn yields exactly
/// `chunks_of` that rest: the next chunk is its first one, and the
/// chunks after it are those of what follows the window.
pub proof fn lemma_sender_follows_chunks(s: SenderModel, rest: Seq<u8>)
    requires
        s.wf(),
        !s.done,
        rest.len() == s.total - s.sent,
    ensures
        s.window() <= rest.len(),
        ({
            let c = s.next_chunk(rest.take(s.window() as int));
            let cs = chunks_of(rest, s.chunk_size, s.next_sequence);
            &&& s.window_is_last() ==> cs == seq![c]
            &&& !s.window_is_last() ==> cs == seq![c] + chunks_of(
                rest.skip(s.window() as int),
                s.chunk_size,
                s.advance().next_sequence,
            )
        }),
{
    if s.window_is_last() {
        assert(rest.take(s.window() as int) =~= rest);
    }
}

} // verus!
