use file_transfer::chunking::{split_chunks, Sender};
use file_transfer::frame::{Chunk, Frame, TransferError, MAX_CHUNK_SIZE};
use file_transfer::receive::{Progress, Receiver};

fn sample(n: usize) -> Vec<u8> {
    let mut v = Vec::with_capacity(n);
    let mut x: u32 = 12345;
    for _ in 0..n {
        x = x.wrapping_mul(1103515245).wrapping_add(12345);
        v.push((x >> 16) as u8);
    }
    v
}

/// Streams `data` through a sender in windows, the way a file is read.
fn send(data: &[u8], chunk_size: usize) -> Vec<Chunk> {
    let mut sender = Sender::new(data.len() as u64, chunk_size);
    let mut out = Vec::new();
    while !sender.is_done() {
        let start = sender.offset() as usize;
        let w = sender.window();
        out.push(sender.emit(data[start..start + w].to_vec()).unwrap());
    }
    assert_eq!(sender.confirm(Ok(data.len() as u64)), Ok(data.len() as u64));
    out
}

/// Feeds chunks to a receiver and returns the bytes that would be published.
fn receive(chunks: &[Chunk]) -> Result<Vec<u8>, TransferError> {
    let mut r = Receiver::new();
    let mut file = Vec::new();
    for c in chunks {
        match r.accept(c)? {
            Progress::Continue => file.extend_from_slice(&c.payload),
            Progress::Complete => {
                file.extend_from_slice(&c.payload);
                assert_eq!(r.close(), Ok(file.len() as u64));
                return Ok(file);
            }
        }
    }
    Err(r.close().unwrap_err())
}

#[test]
fn round_trip_at_chunk_boundaries() {
    let size = 4;
    for n in [0usize, 1, 3, 4, 5, 8, 9, 17] {
        let data = sample(n);
        let stored = receive(&send(&data, size)).unwrap();
        assert_eq!(stored, data);
        let fetched = receive(&send(&stored, size)).unwrap();
        assert_eq!(fetched, data);
    }
}

#[test]
fn round_trip_several_full_chunks() {
    let data = sample(3 * MAX_CHUNK_SIZE + 7);
    let chunks = send(&data, MAX_CHUNK_SIZE);
    assert_eq!(chunks.len(), 4);
    assert_eq!(receive(&chunks).unwrap(), data);
}

#[test]
fn empty_file_is_one_empty_final_chunk() {
    let chunks = send(&[], 16);
    assert_eq!(chunks, vec![Chunk { sequence_number: 0, payload: vec![], is_final: true }]);
}

#[test]
fn split_chunks_numbers_and_marks_final() {
    let data = vec![1u8, 2, 3, 4, 5];
    let chunks = split_chunks(&data, 2);
    assert_eq!(
        chunks,
        vec![
            Chunk { sequence_number: 0, payload: vec![1, 2], is_final: false },
            Chunk { sequence_number: 1, payload: vec![3, 4], is_final: false },
            Chunk { sequence_number: 2, payload: vec![5], is_final: true },
        ]
    );
    assert_eq!(split_chunks(&vec![], 2).len(), 1);
}

#[test]
fn aborted_upload_is_never_published() {
    let data = sample(10);
    let chunks = send(&data, 4);
    let mut r = Receiver::new();
    for c in &chunks[..chunks.len() - 1] {
        assert_eq!(r.accept(c), Ok(Progress::Continue));
    }
    assert!(!r.is_finished());
    assert_eq!(r.close(), Err(TransferError::StreamTruncated));
}

#[test]
fn download_of_missing_file_fails_with_not_found() {
    let mut r = Receiver::new();
    assert_eq!(r.accept_frame(&Frame::Failure(TransferError::NotFound)), Err(TransferError::NotFound));
    assert!(!r.is_finished());
    assert_eq!(r.received(), 0);
    assert_eq!(r.close(), Err(TransferError::StreamTruncated));
}

#[test]
fn out_of_order_chunk_is_a_sequence_error() {
    let chunks = send(&sample(12), 4);
    let mut r = Receiver::new();
    assert_eq!(r.accept(&chunks[0]), Ok(Progress::Continue));
    assert_eq!(r.accept(&chunks[2]), Err(TransferError::SequenceError));
    assert_eq!(receive(&[chunks[0].clone(), chunks[2].clone(), chunks[1].clone()]), Err(TransferError::SequenceError));
    assert_eq!(r.close(), Err(TransferError::StreamTruncated));
}

#[test]
fn duplicate_chunk_is_a_sequence_error() {
    let chunks = send(&sample(12), 4);
    let mut r = Receiver::new();
    assert_eq!(r.accept_frame(&Frame::Data(chunks[0].clone())), Ok(Progress::Continue));
    assert_eq!(r.accept_frame(&Frame::Data(chunks[0].clone())), Err(TransferError::SequenceError));
    assert_eq!(r.received(), 4);
}

#[test]
fn oversized_chunk_is_a_protocol_error() {
    let mut r = Receiver::new();
    let c = Chunk { sequence_number: 0, payload: vec![0; MAX_CHUNK_SIZE + 1], is_final: true };
    assert_eq!(r.accept(&c), Err(TransferError::ProtocolError));
    assert_eq!(r.received(), 0);
}

#[test]
fn chunk_after_final_is_a_protocol_error() {
    let mut r = Receiver::new();
    let c = Chunk { sequence_number: 0, payload: vec![7], is_final: true };
    assert_eq!(r.accept(&c), Ok(Progress::Complete));
    let extra = Chunk { sequence_number: 1, payload: vec![8], is_final: true };
    assert_eq!(r.accept(&extra), Err(TransferError::ProtocolError));
    assert_eq!(r.close(), Ok(1));
}

#[test]
fn far_ahead_chunk_is_a_sequence_error() {
    let mut r = Receiver::new();
    let c = Chunk { sequence_number: u64::MAX, payload: vec![], is_final: false };
    assert_eq!(r.accept(&c), Err(TransferError::SequenceError));
}

#[test]
fn short_read_is_an_io_error() {
    let mut s = Sender::new(10, 4);
    assert_eq!(s.window(), 4);
    assert_eq!(s.emit(vec![1, 2]), Err(TransferError::IoError));
    assert_eq!(s.offset(), 0);
    let c = s.emit(vec![1, 2, 3, 4]).unwrap();
    assert_eq!(c, Chunk { sequence_number: 0, payload: vec![1, 2, 3, 4], is_final: false });
    assert_eq!(s.offset(), 4);
}

#[test]
fn acknowledgment_must_count_every_byte() {
    let mut s = Sender::new(3, 4);
    let c = s.emit(vec![1, 2, 3]).unwrap();
    assert!(c.is_final);
    assert!(s.is_done());
    assert_eq!(s.confirm(Ok(3)), Ok(3));
    assert_eq!(s.confirm(Ok(2)), Err(TransferError::ProtocolError));
    assert_eq!(s.confirm(Err(TransferError::IoError)), Err(TransferError::IoError));
}

#[test]
fn concurrent_downloads_are_independent() {
    let a = sample(11);
    let b: Vec<u8> = sample(23).into_iter().rev().collect();
    let (mut sa, mut sb) = (Sender::new(a.len() as u64, 4), Sender::new(b.len() as u64, 4));
    let (mut ra, mut rb) = (Receiver::new(), Receiver::new());
    let (mut fa, mut fb) = (Vec::new(), Vec::new());
    while !sa.is_done() || !sb.is_done() {
        if !sa.is_done() {
            let (o, w) = (sa.offset() as usize, sa.window());
            let c = sa.emit(a[o..o + w].to_vec()).unwrap();
            ra.accept(&c).unwrap();
            fa.extend_from_slice(&c.payload);
        }
        if !sb.is_done() {
            let (o, w) = (sb.offset() as usize, sb.window());
            let c = sb.emit(b[o..o + w].to_vec()).unwrap();
            rb.accept(&c).unwrap();
            fb.extend_from_slice(&c.payload);
        }
    }
    assert_eq!((ra.close(), rb.close()), (Ok(11), Ok(23)));
    assert_eq!((fa, fb), (a, b));
}
