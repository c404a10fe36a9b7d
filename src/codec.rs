//! The byte layout of the messages on a transfer stream.
//!
//! A chunk frame holds the sequence number in eight bytes, a flag byte that
//! is 1 on the final chunk and 0 otherwise, the payload length in four
//! bytes, all big-endian, then the payload. A stream frame is a tag byte, 0
//! before a chunk frame and 1 before an error code. A terminal
//! acknowledgment is 0 followed by the byte count in eight big-endian
//! bytes, or 1 followed by an error code.
use vstd::prelude::*;
use crate::frame::{Chunk, ChunkModel, Frame, FrameModel, TransferError, MAX_CHUNK_SIZE};

verus! {

/// The length of a chunk frame's header.
pub const HEADER_LEN: usize = 13;

pub open spec fn pow256(k: nat) -> nat
    decreases k,
{
    if k == 0 {
        1
    } else {
        256 * pow256((k - 1) as nat)
    }
}

/// The last `k` base-256 digits of `n`, most significant first.
pub open spec fn be_bytes(n: nat, k: nat) -> Seq<u8>
    decreases k,
{
    if k == 0 {
        Seq::empty()
    } else {
        be_bytes(n / 256, (k - 1) as nat).push((n % 256) as u8)
    }
}

/// The number that big-endian bytes stand for.
pub open spec fn be_value(s: Seq<u8>) -> nat
    decreases s.len(),
{
    if s.len() == 0 {
        0
    } else {
        (be_value(s.drop_last()) * 256 + s.last()) as nat
    }
}

/// The frame that carries a chunk.
pub open spec fn chunk_frame(c: ChunkModel) -> Seq<u8> {
    be_bytes(c.sequence_number, 8) + seq![if c.is_final { 1u8 } else { 0u8 }] + be_bytes(
        c.payload.len(),
        4,
    ) + c.payload
}

/// What a frame decodes to: a frame shorter than its header, with a flag
/// byte other than 0 or 1, announcing a payload over the limit, or whose
/// length disagrees with the announced payload is a protocol error.
pub open spec fn parse_chunk_frame(b: Seq<u8>) -> Result<ChunkModel, TransferError> {
    if b.len() < HEADER_LEN {
        Err(TransferError::ProtocolError)
    } else if b[8] > 1 {
        Err(TransferError::ProtocolError)
    } else if be_value(b.subrange(9, 13)) > MAX_CHUNK_SIZE {
        Err(TransferError::ProtocolError)
    } else if b.len() != HEADER_LEN + be_value(b.subrange(9, 13)) {
        Err(TransferError::ProtocolError)
    } else {
        Ok(
            ChunkModel {
                sequence_number: be_value(b.subrange(0, 8)),
                payload: b.subrange(13, b.len() as int),
                is_final: b[8] == 1,
            },
        )
    }
}

proof fn lemma_be_round_trip(n: nat, k: nat)
    requires
        n < pow256(k),
    ensures
        be_bytes(n, k).len() == k,
        be_value(be_bytes(n, k)) == n,
    decreases k,
{
    if k > 0 {
        lemma_be_round_trip(n / 256, (k - 1) as nat);
        assert(be_bytes(n, k).drop_last() =~= be_bytes(n / 256, (k - 1) as nat));
    }
}

proof fn lemma_pow256_mono(j: nat, k: nat)
    requires
        j <= k,
    ensures
        pow256(j) <= pow256(k),
    decreases k,
{
    if j < k {
        lemma_pow256_mono(j, (k - 1) as nat);
    }
}

proof fn lemma_pow256_values()
    ensures
        pow256(4) == 0x1_0000_0000,
        pow256(8) == 0x1_0000_0000_0000_0000,
{
    reveal_with_fuel(pow256, 9);
}

fn push_be(out: &mut Vec<u8>, n: u64, k: usize)
    ensures
        final(out)@ == old(out)@ + be_bytes(n as nat, k as nat),
    decreases k,
{
    if k > 0 {
        push_be(out, n / 256, k - 1);
        out.push((n % 256) as u8);
        assert(old(out)@ + be_bytes(n as nat, k as nat) =~= (old(out)@ + be_bytes((n / 256) as nat, (k - 1) as nat)).push((n % 256) as u8));
    }
}

fn read_be(b: &[u8], start: usize, k: usize) -> (r: u64)
    requires
        k <= 8,
        start + k <= b@.len(),
    ensures
        r == be_value(b@.subrange(start as int, start + k)),
{
    let mut v: u64 = 0;
    let mut i: usize = start;
    proof {
        lemma_pow256_values();
        lemma_pow256_mono(k as nat, 8);
    }
    let blen = b.len();
    let end = start + k;
    while i < end
        invariant
            end == start + k,
            blen == b@.len(),
            start <= i <= end <= blen,
            k <= 8,
            pow256(k as nat) <= pow256(8),
            pow256(8) == 0x1_0000_0000_0000_0000,
            v == be_value(b@.subrange(start as int, i as int)),
            v < pow256((i - start) as nat),
        decreases end - i,
    {
        proof {
            lemma_pow256_mono((i - start + 1) as nat, k as nat);
            assert(b@.subrange(start as int, i + 1).drop_last() =~= b@.subrange(start as int, i as int));
        }
        assert(v * 256 + b@[i as int] < pow256((i - start + 1) as nat)) by (nonlinear_arith)
            requires
                v < pow256((i - start) as nat),
                b[i as int] < 256,
                pow256((i - start + 1) as nat) == 256 * pow256((i - start) as nat),
        ;
        v = v * 256 + b[i] as u64;
        i = i + 1;
    }
    v
}

/// The frame that carries `chunk`; a payload over the limit is refused.
pub fn encode_chunk(chunk: &Chunk) -> (r: Result<Vec<u8>, TransferError>)
    ensures
        chunk.payload@.len() <= MAX_CHUNK_SIZE ==> r is Ok && r->Ok_0@ == chunk_frame(chunk@),
        chunk.payload@.len() > MAX_CHUNK_SIZE ==> r == Err::<Vec<u8>, TransferError>(
            TransferError::ProtocolError,
        ),
{
    let len = chunk.payload.len();
    if len > MAX_CHUNK_SIZE {
        return Err(TransferError::ProtocolError);
    }
    let mut out: Vec<u8> = Vec::new();
    push_be(&mut out, chunk.sequence_number, 8);
    out.push(if chunk.is_final { 1u8 } else { 0u8 });
    push_be(&mut out, len as u64, 4);
    let mut i: usize = 0;
    let ghost head = out@;
    while i < len
        invariant
            len == chunk.payload@.len(),
            i <= len,
            out@ == head + chunk.payload@.subrange(0, i as int),
        decreases len - i,
    {
        out.push(chunk.payload[i]);
        assert(chunk.payload@.subrange(0, i + 1) =~= chunk.payload@.subrange(0, i as int).push(chunk.payload@[i as int]));
        i = i + 1;
    }
    assert(out@ =~= chunk_frame(chunk@));
    Ok(out)
}

fn decode_chunk_at(bytes: &[u8], start: usize) -> (r: Result<Chunk, TransferError>)
    requires
        start <= bytes@.len(),
    ensures
        match parse_chunk_frame(bytes@.skip(start as int)) {
            Ok(m) => r is Ok && r->Ok_0@ == m,
            Err(e) => r == Err::<Chunk, TransferError>(e),
        },
{
    let ghost b = bytes@.skip(start as int);
    let n = bytes.len();
    if n - start < HEADER_LEN {
        return Err(TransferError::ProtocolError);
    }
    let flag = bytes[start + 8];
    assert(b[8] == flag);
    if flag > 1 {
        return Err(TransferError::ProtocolError);
    }
    let plen = read_be(bytes, start + 9, 4);
    assert(bytes@.subrange(start + 9, start + 13) =~= b.subrange(9, 13));
    if plen > MAX_CHUNK_SIZE as u64 {
        return Err(TransferError::ProtocolError);
    }
    if n - start - HEADER_LEN != plen as usize {
        return Err(TransferError::ProtocolError);
    }
    let sequence_number = read_be(bytes, start, 8);
    assert(bytes@.subrange(start as int, start + 8) =~= b.subrange(0, 8));
    let mut payload: Vec<u8> = Vec::new();
    let body = start + HEADER_LEN;
    let mut i: usize = body;
    while i < n
        invariant
            n == bytes@.len(),
            body == start + 13,
            body <= i <= n,
            payload@ == bytes@.subrange(body as int, i as int),
        decreases n - i,
    {
        payload.push(bytes[i]);
        assert(bytes@.subrange(body as int, i + 1) =~= bytes@.subrange(body as int, i as int).push(bytes@[i as int]));
        i = i + 1;
    }
    assert(payload@ =~= b.subrange(13, b.len() as int));
    Ok(Chunk { sequence_number, payload, is_final: flag == 1 })
}

/// The chunk that a frame carries, or the reason the frame is malformed.
pub fn decode_chunk(bytes: &[u8]) -> (r: Result<Chunk, TransferError>)
    ensures
        match parse_chunk_frame(bytes@) {
            Ok(m) => r is Ok && r->Ok_0@ == m,
            Err(e) => r == Err::<Chunk, TransferError>(e),
        },
{
    assert(bytes@.skip(0) =~= bytes@);
    decode_chunk_at(bytes, 0)
}

/// The byte that stands for an error on the wire.
pub open spec fn error_code(e: TransferError) -> u8 {
    match e {
        TransferError::ProtocolError => 1,
        TransferError::PathViolation => 2,
        TransferError::NotFound => 3,
        TransferError::SequenceError => 4,
        TransferError::IoError => 5,
        TransferError::StreamTruncated => 6,
    }
}

/// The error that a byte stands for, if any.
pub open spec fn error_of_code(b: u8) -> Option<TransferError> {
    if b == 1 {
        Some(TransferError::ProtocolError)
    } else if b == 2 {
        Some(TransferError::PathViolation)
    } else if b == 3 {
        Some(TransferError::NotFound)
    } else if b == 4 {
        Some(TransferError::SequenceError)
    } else if b == 5 {
        Some(TransferError::IoError)
    } else if b == 6 {
        Some(TransferError::StreamTruncated)
    } else {
        None
    }
}

fn encode_error(e: TransferError) -> (r: u8)
    ensures
        r == error_code(e),
{
    match e {
        TransferError::ProtocolError => 1,
        TransferError::PathViolation => 2,
        TransferError::NotFound => 3,
        TransferError::SequenceError => 4,
        TransferError::IoError => 5,
        TransferError::StreamTruncated => 6,
    }
}

fn decode_error(b: u8) -> (r: Option<TransferError>)
    ensures
        r == error_of_code(b),
{
    if b == 1 {
        Some(TransferError::ProtocolError)
    } else if b == 2 {
        Some(TransferError::PathViolation)
    } else if b == 3 {
        Some(TransferError::NotFound)
    } else if b == 4 {
        Some(TransferError::SequenceError)
    } else if b == 5 {
        Some(TransferError::IoError)
    } else if b == 6 {
        Some(TransferError::StreamTruncated)
    } else {
        None
    }
}

/// The bytes of a stream frame.
pub open spec fn frame_bytes(f: FrameModel) -> Seq<u8> {
    match f {
        FrameModel::Data(c) => seq![0u8] + chunk_frame(c),
        FrameModel::Failure(e) => seq![1u8, error_code(e)],
    }
}

/// What stream frame bytes decode to; an unknown tag or error code, or
/// bytes left over after an error code, is a protocol error.
pub open spec fn parse_frame(b: Seq<u8>) -> Result<FrameModel, TransferError> {
    if b.len() == 0 {
        Err(TransferError::ProtocolError)
    } else if b[0] == 0 {
        match parse_chunk_frame(b.skip(1)) {
            Ok(c) => Ok(FrameModel::Data(c)),
            Err(e) => Err(e),
        }
    } else if b[0] == 1 && b.len() == 2 && error_of_code(b[1]) is Some {
        Ok(FrameModel::Failure(error_of_code(b[1])->Some_0))
    } else {
        Err(TransferError::ProtocolError)
    }
}

/// The bytes of a stream frame; a chunk over the size limit is refused.
pub fn encode_frame(frame: &Frame) -> (r: Result<Vec<u8>, TransferError>)
    ensures
        match frame {
            Frame::Data(c) => if c.payload@.len() <= MAX_CHUNK_SIZE {
                r is Ok && r->Ok_0@ == frame_bytes(frame@)
            } else {
                r == Err::<Vec<u8>, TransferError>(TransferError::ProtocolError)
            },
            Frame::Failure(_) => r is Ok && r->Ok_0@ == frame_bytes(frame@),
        },
{
    match frame {
        Frame::Data(c) => {
            let body = encode_chunk(c)?;
            let mut out: Vec<u8> = Vec::new();
            out.push(0u8);
            let mut i: usize = 0;
            while i < body.len()
                invariant
                    i <= body@.len(),
                    out@ == seq![0u8] + body@.subrange(0, i as int),
                decreases body@.len() - i,
            {
                out.push(body[i]);
                assert(body@.subrange(0, i + 1) =~= body@.subrange(0, i as int).push(body@[i as int]));
                i = i + 1;
            }
            assert(body@.subrange(0, body@.len() as int) =~= body@);
            Ok(out)
        },
        Frame::Failure(e) => {
            let mut out: Vec<u8> = Vec::new();
            out.push(1u8);
            out.push(encode_error(*e));
            assert(out@ =~= seq![1u8, error_code(*e)]);
            Ok(out)
        },
    }
}

/// The stream frame that bytes carry, or the reason they are malformed.
pub fn decode_frame(bytes: &[u8]) -> (r: Result<Frame, TransferError>)
    ensures
        match parse_frame(bytes@) {
            Ok(m) => r is Ok && r->Ok_0@ == m,
            Err(e) => r == Err::<Frame, TransferError>(e),
        },
{
    let n = bytes.len();
    if n == 0 {
        return Err(TransferError::ProtocolError);
    }
    if bytes[0] == 0 {
        match decode_chunk_at(bytes, 1) {
            Ok(c) => Ok(Frame::Data(c)),
            Err(e) => Err(e),
        }
    } else if bytes[0] == 1 && n == 2 {
        match decode_error(bytes[1]) {
            Some(e) => Ok(Frame::Failure(e)),
            None => Err(TransferError::ProtocolError),
        }
    } else {
        Err(TransferError::ProtocolError)
    }
}

/// The bytes of a terminal acknowledgment: a byte count or an error.
pub open spec fn ack_bytes(a: Result<u64, TransferError>) -> Seq<u8> {
    match a {
        Ok(n) => seq![0u8] + be_bytes(n as nat, 8),
        Err(e) => seq![1u8, error_code(e)],
    }
}

/// What acknowledgment bytes decode to; any other shape is a protocol error.
pub open spec fn parse_ack(b: Seq<u8>) -> Result<Result<u64, TransferError>, TransferError> {
    if b.len() == 9 && b[0] == 0 {
        Ok(Ok(be_value(b.subrange(1, 9)) as u64))
    } else if b.len() == 2 && b[0] == 1 && error_of_code(b[1]) is Some {
        Ok(Err(error_of_code(b[1])->Some_0))
    } else {
        Err(TransferError::ProtocolError)
    }
}

/// The bytes of a terminal acknowledgment.
pub fn encode_ack(ack: Result<u64, TransferError>) -> (r: Vec<u8>)
    ensures
        r@ == ack_bytes(ack),
{
    let mut out: Vec<u8> = Vec::new();
    match ack {
        Ok(n) => {
            out.push(0u8);
            push_be(&mut out, n, 8);
        },
        Err(e) => {
            out.push(1u8);
            out.push(encode_error(e));
        },
    }
    assert(out@ =~= ack_bytes(ack));
    out
}

/// The terminal acknowledgment that bytes carry, or the reason they are
/// malformed.
pub fn decode_ack(bytes: &[u8]) -> (r: Result<Result<u64, TransferError>, TransferError>)
    ensures
        r == parse_ack(bytes@),
{
    let n = bytes.len();
    if n == 9 && bytes[0] == 0 {
        let v = read_be(bytes, 1, 8);
        Ok(Ok(v))
    } else if n == 2 && bytes[0] == 1 {
        match decode_error(bytes[1]) {
            Some(e) => Ok(Err(e)),
            None => Err(TransferError::ProtocolError),
        }
    } else {
        Err(TransferError::ProtocolError)
    }
}

/// Decoding the frame of a chunk whose payload is within the limit gives
/// that chunk back.
pub proof fn decode_inverts_encode(c: ChunkModel)
    requires
        c.sequence_number <= u64::MAX,
        c.payload.len() <= MAX_CHUNK_SIZE,
    ensures
        parse_chunk_frame(chunk_frame(c)) == Ok::<ChunkModel, TransferError>(c),
{
    lemma_pow256_values();
    lemma_be_round_trip(c.sequence_number, 8);
    lemma_be_round_trip(c.payload.len(), 4);
    let b = chunk_frame(c);
    let flag: u8 = if c.is_final { 1u8 } else { 0u8 };
    assert(b.subrange(0, 8) =~= be_bytes(c.sequence_number, 8));
    assert(b[8] == flag);
    assert(b.subrange(9, 13) =~= be_bytes(c.payload.len(), 4));
    assert(b.subrange(13, b.len() as int) =~= c.payload);
}

/// Every error survives the trip through its code.
pub proof fn error_code_round_trip(e: TransferError)
    ensures
        error_of_code(error_code(e)) == Some(e),
{
}

/// Decoding the bytes of a stream frame gives the frame back, for any
/// chunk within the size limit and any error.
pub proof fn decode_frame_inverts_encode(f: FrameModel)
    requires
        f is Data ==> f->Data_0.sequence_number <= u64::MAX && f->Data_0.payload.len() <= MAX_CHUNK_SIZE,
    ensures
        parse_frame(frame_bytes(f)) == Ok::<FrameModel, TransferError>(f),
{
    match f {
        FrameModel::Data(c) => {
            decode_inverts_encode(c);
            assert(frame_bytes(f).skip(1) =~= chunk_frame(c));
        },
        FrameModel::Failure(e) => {
            error_code_round_trip(e);
        },
    }
}

/// Decoding the bytes of a terminal acknowledgment gives it back.
pub proof fn decode_ack_inverts_encode(a: Result<u64, TransferError>)
    ensures
        parse_ack(ack_bytes(a)) == Ok::<Result<u64, TransferError>, TransferError>(a),
{
    match a {
        Ok(n) => {
            lemma_pow256_values();
            lemma_be_round_trip(n as nat, 8);
            assert(ack_bytes(a).subrange(1, 9) =~= be_bytes(n as nat, 8));
        },
        Err(e) => {
            error_code_round_trip(e);
        },
    }
}

} // verus!
