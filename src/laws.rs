//! What holds of whole transfers: a sender's chunks rebuild the file on the
//! receiving side, and a stream that is cut short or reordered never
//! completes.
use vstd::prelude::*;
use crate::chunking::chunks_of;
use crate::frame::{ChunkModel, TransferError, MAX_CHUNK_SIZE};
use crate::receive::{accept_all, accept_chunk, close_outcome, fresh_receiver, ReceiverModel};

verus! {

/// Accepting two streams one after the other is accepting their concatenation.
pub proof fn lemma_accept_all_append(m: ReceiverModel, a: Seq<ChunkModel>, b: Seq<ChunkModel>)
    ensures
        accept_all(m, a + b) == match accept_all(m, a) {
            Ok(next) => accept_all(next, b),
            Err(e) => Err(e),
        },
    decreases a.len(),
{
    if a.len() == 0 {
        assert(a + b =~= b);
    } else {
        assert((a + b)[0] == a[0]);
        assert((a + b).skip(1) =~= a.skip(1) + b);
        match accept_chunk(m, a[0]) {
            Ok(next) => lemma_accept_all_append(next, a.skip(1), b),
            Err(e) => {},
        }
    }
}

/// The chunks of a file are numbered consecutively, none is over the size,
/// and only the last one is final.
pub proof fn lemma_chunks_of_shape(data: Seq<u8>, size: nat, first: nat)
    requires
        size > 0,
    ensures
        chunks_of(data, size, first).len() >= 1,
        forall|j: int|
            0 <= j < chunks_of(data, size, first).len() ==> {
                let c = #[trigger] chunks_of(data, size, first)[j];
                &&& c.sequence_number == first + j
                &&& c.payload.len() <= size
                &&& c.is_final == (j == chunks_of(data, size, first).len() - 1)
            },
    decreases data.len(),
{
    if data.len() > size {
        let rest = chunks_of(data.skip(size as int), size, first + 1);
        lemma_chunks_of_shape(data.skip(size as int), size, first + 1);
        let cs = chunks_of(data, size, first);
        assert forall|j: int| 1 <= j < cs.len() implies cs[j] == rest[j - 1] by {}
    }
}

/// Accepting the chunks of `data` in order, from a receiver that expects
/// the first of them, appends exactly `data` and finishes the transfer.
pub proof fn lemma_accept_chunks_of(m: ReceiverModel, data: Seq<u8>, size: nat)
    requires
        !m.finished,
        0 < size <= MAX_CHUNK_SIZE,
        m.expected + data.len() < u64::MAX,
        m.content.len() + data.len() <= u64::MAX,
    ensures
        accept_all(m, chunks_of(data, size, m.expected)) is Ok,
        accept_all(m, chunks_of(data, size, m.expected))->Ok_0.content == m.content + data,
        accept_all(m, chunks_of(data, size, m.expected))->Ok_0.finished,
    decreases data.len(),
{
    let cs = chunks_of(data, size, m.expected);
    if data.len() <= size {
        assert(accept_chunk(m, cs[0]) is Ok);
        let next = accept_chunk(m, cs[0])->Ok_0;
        assert(cs.skip(1) =~= Seq::<ChunkModel>::empty());
        assert(accept_all(next, cs.skip(1)) == Ok::<ReceiverModel, TransferError>(next));
        assert(next.content =~= m.content + data);
    } else {
        let rest = data.skip(size as int);
        assert(cs[0].payload.len() == size);
        assert(accept_chunk(m, cs[0]) is Ok);
        let next = accept_chunk(m, cs[0])->Ok_0;
        assert(cs.skip(1) =~= chunks_of(rest, size, m.expected + 1));
        lemma_accept_chunks_of(next, rest, size);
        assert(next.content + rest =~= m.content + data);
    }
}

/// Accepting only the first `k` chunks of `data`, short of the final one,
/// succeeds but leaves the transfer unfinished.
pub proof fn lemma_accept_prefix(m: ReceiverModel, data: Seq<u8>, size: nat, k: nat)
    requires
        !m.finished,
        0 < size <= MAX_CHUNK_SIZE,
        m.expected + data.len() < u64::MAX,
        m.content.len() + data.len() <= u64::MAX,
        k < chunks_of(data, size, m.expected).len(),
    ensures
        accept_all(m, chunks_of(data, size, m.expected).take(k as int)) is Ok,
        !accept_all(m, chunks_of(data, size, m.expected).take(k as int))->Ok_0.finished,
        accept_all(m, chunks_of(data, size, m.expected).take(k as int))->Ok_0.expected == m.expected + k,
    decreases k,
{
    let cs = chunks_of(data, size, m.expected);
    if k == 0 {
        assert(cs.take(0) =~= Seq::<ChunkModel>::empty());
    } else {
        let rest = data.skip(size as int);
        let next = accept_chunk(m, cs[0])->Ok_0;
        let rcs = chunks_of(rest, size, m.expected + 1);
        assert(cs.take(k as int)[0] == cs[0]);
        assert(cs.take(k as int).skip(1) =~= rcs.take(k - 1));
        lemma_accept_prefix(next, rest, size, (k - 1) as nat);
    }
}

/// Round trip: a file of any length sent as chunks of at most
/// `MAX_CHUNK_SIZE` bytes is stored exactly, and sending the stored bytes
/// back the same way hands the client the bytes it started from.
pub proof fn upload_then_download_round_trip(data: Seq<u8>, size: nat)
    requires
        0 < size <= MAX_CHUNK_SIZE,
        data.len() < u64::MAX,
    ensures
        accept_all(fresh_receiver(), chunks_of(data, size, 0)) is Ok,
        ({
            let stored = accept_all(fresh_receiver(), chunks_of(data, size, 0))->Ok_0;
            let fetched = accept_all(fresh_receiver(), chunks_of(stored.content, size, 0));
            &&& stored.finished
            &&& stored.content == data
            &&& close_outcome(stored) == Ok::<u64, TransferError>(data.len() as u64)
            &&& fetched is Ok
            &&& fetched->Ok_0.finished
            &&& fetched->Ok_0.content == data
        }),
{
    let m = fresh_receiver();
    lemma_accept_chunks_of(m, data, size);
    assert(m.content + data =~= data);
    lemma_accept_chunks_of(m, data, size);
}

/// A stream cut off before its final chunk never completes: every chunk
/// sent is accepted, nothing is published, and closing the stream reports
/// it truncated.
pub proof fn truncated_stream_never_completes(data: Seq<u8>, size: nat, k: nat)
    requires
        0 < size <= MAX_CHUNK_SIZE,
        data.len() < u64::MAX,
        k < chunks_of(data, size, 0).len(),
    ensures
        accept_all(fresh_receiver(), chunks_of(data, size, 0).take(k as int)) is Ok,
        !accept_all(fresh_receiver(), chunks_of(data, size, 0).take(k as int))->Ok_0.finished,
        close_outcome(accept_all(fresh_receiver(), chunks_of(data, size, 0).take(k as int))->Ok_0)
            == Err::<u64, TransferError>(TransferError::StreamTruncated),
{
    lemma_accept_prefix(fresh_receiver(), data, size, k);
}

/// Two neighbouring chunks delivered in swapped order make the transfer
/// fail with a sequence error, so it never completes.
pub proof fn swapped_chunks_fail(data: Seq<u8>, size: nat, i: int)
    requires
        0 < size <= MAX_CHUNK_SIZE,
        data.len() < u64::MAX,
        0 <= i,
        i + 1 < chunks_of(data, size, 0).len(),
    ensures
        ({
            let cs = chunks_of(data, size, 0);
            let swapped = cs.update(i, cs[i + 1]).update(i + 1, cs[i]);
            accept_all(fresh_receiver(), swapped) == Err::<ReceiverModel, TransferError>(
                TransferError::SequenceError,
            )
        }),
{
    let m = fresh_receiver();
    let cs = chunks_of(data, size, 0);
    let swapped = cs.update(i, cs[i + 1]).update(i + 1, cs[i]);
    lemma_chunks_of_shape(data, size, 0);
    lemma_accept_prefix(m, data, size, i as nat);
    assert(swapped =~= cs.take(i) + swapped.skip(i));
    assert(swapped.take(i) =~= cs.take(i));
    lemma_accept_all_append(m, cs.take(i), swapped.skip(i));
    let mi = accept_all(m, cs.take(i))->Ok_0;
    assert(swapped.skip(i)[0] == cs[i + 1]);
    assert(accept_chunk(mi, cs[i + 1]) == Err::<ReceiverModel, TransferError>(TransferError::SequenceError));
}

} // verus!
