use file_transfer::codec::{decode_ack, decode_chunk, decode_frame, encode_ack, encode_chunk, encode_frame, HEADER_LEN};
use file_transfer::frame::{Chunk, Frame, TransferError, MAX_CHUNK_SIZE};

#[test]
fn encodes_header_then_payload() {
    let c = Chunk { sequence_number: 0x0102_0304_0506_0708, payload: vec![9, 8, 7], is_final: true };
    assert_eq!(
        encode_chunk(&c).unwrap(),
        vec![1, 2, 3, 4, 5, 6, 7, 8, 1, 0, 0, 0, 3, 9, 8, 7]
    );
    let empty = Chunk { sequence_number: 0, payload: vec![], is_final: false };
    assert_eq!(encode_chunk(&empty).unwrap(), vec![0; HEADER_LEN]);
}

#[test]
fn decode_inverts_encode_on_examples() {
    for c in [
        Chunk { sequence_number: 0, payload: vec![], is_final: true },
        Chunk { sequence_number: 7, payload: vec![0xff; 300], is_final: false },
        Chunk { sequence_number: u64::MAX, payload: vec![1; MAX_CHUNK_SIZE], is_final: true },
    ] {
        assert_eq!(decode_chunk(&encode_chunk(&c).unwrap()), Ok(c));
    }
}

#[test]
fn oversized_payload_is_not_encoded() {
    let c = Chunk { sequence_number: 0, payload: vec![0; MAX_CHUNK_SIZE + 1], is_final: true };
    assert_eq!(encode_chunk(&c), Err(TransferError::ProtocolError));
}

#[test]
fn malformed_frames_are_protocol_errors() {
    let good = encode_chunk(&Chunk { sequence_number: 3, payload: vec![1, 2], is_final: false }).unwrap();
    assert!(decode_chunk(&good).is_ok());
    // shorter than a header
    assert_eq!(decode_chunk(&good[..12]), Err(TransferError::ProtocolError));
    // flag byte other than 0 or 1
    let mut bad_flag = good.clone();
    bad_flag[8] = 2;
    assert_eq!(decode_chunk(&bad_flag), Err(TransferError::ProtocolError));
    // payload shorter than announced
    assert_eq!(decode_chunk(&good[..14]), Err(TransferError::ProtocolError));
    // trailing bytes
    let mut long = good.clone();
    long.push(0);
    assert_eq!(decode_chunk(&long), Err(TransferError::ProtocolError));
    // announced length over the limit
    let mut huge = vec![0u8; HEADER_LEN];
    huge[9] = 0xff;
    assert_eq!(decode_chunk(&huge), Err(TransferError::ProtocolError));
}

#[test]
fn frames_carry_a_tag_byte() {
    let c = Chunk { sequence_number: 1, payload: vec![5], is_final: true };
    assert_eq!(
        encode_frame(&Frame::Data(c.clone())).unwrap(),
        vec![0, 0, 0, 0, 0, 0, 0, 0, 1, 1, 0, 0, 0, 1, 5]
    );
    assert_eq!(encode_frame(&Frame::Failure(TransferError::NotFound)).unwrap(), vec![1, 3]);
    assert_eq!(decode_frame(&[1, 3]), Ok(Frame::Failure(TransferError::NotFound)));
    assert_eq!(decode_frame(&encode_frame(&Frame::Data(c.clone())).unwrap()), Ok(Frame::Data(c)));
}

#[test]
fn every_error_frame_decodes_to_itself() {
    for e in [
        TransferError::ProtocolError,
        TransferError::PathViolation,
        TransferError::NotFound,
        TransferError::SequenceError,
        TransferError::IoError,
        TransferError::StreamTruncated,
    ] {
        let f = Frame::Failure(e);
        assert_eq!(decode_frame(&encode_frame(&f).unwrap()), Ok(f));
        assert_eq!(decode_ack(&encode_ack(Err(e))), Ok(Err(e)));
    }
}

#[test]
fn malformed_stream_frames_are_protocol_errors() {
    assert_eq!(decode_frame(&[]), Err(TransferError::ProtocolError));
    assert_eq!(decode_frame(&[2, 0]), Err(TransferError::ProtocolError));
    assert_eq!(decode_frame(&[1, 0]), Err(TransferError::ProtocolError));
    assert_eq!(decode_frame(&[1, 7]), Err(TransferError::ProtocolError));
    assert_eq!(decode_frame(&[1, 3, 0]), Err(TransferError::ProtocolError));
    assert_eq!(decode_frame(&[0, 1, 2]), Err(TransferError::ProtocolError));
    let oversized = Frame::Data(Chunk { sequence_number: 0, payload: vec![0; MAX_CHUNK_SIZE + 1], is_final: true });
    assert_eq!(encode_frame(&oversized), Err(TransferError::ProtocolError));
}

#[test]
fn acknowledgments_carry_the_byte_count() {
    assert_eq!(encode_ack(Ok(258)), vec![0, 0, 0, 0, 0, 0, 0, 1, 2]);
    assert_eq!(encode_ack(Err(TransferError::StreamTruncated)), vec![1, 6]);
    assert_eq!(decode_ack(&[0, 0, 0, 0, 0, 0, 0, 1, 2]), Ok(Ok(258)));
    assert_eq!(decode_ack(&encode_ack(Ok(u64::MAX))), Ok(Ok(u64::MAX)));
    assert_eq!(decode_ack(&[0, 1]), Err(TransferError::ProtocolError));
    assert_eq!(decode_ack(&[1, 9]), Err(TransferError::ProtocolError));
}
