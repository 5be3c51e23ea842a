use framework::errors::FrameworkError;
use framework::frames::{frame_encode, Deframer, MAX_FRAME_LEN};

fn payload_of_len(len: usize) -> Vec<u8> {
    (0..len).map(|i| (i % 253) as u8).collect()
}

#[test]
fn framing_round_trip_representative_lengths() {
    let lengths = [0usize, 1, 4095, 4096, 1_000_000];
    let payloads: Vec<Vec<u8>> = lengths.iter().map(|&l| payload_of_len(l)).collect();

    let mut wire: Vec<u8> = Vec::new();
    for p in &payloads {
        wire.extend_from_slice(&frame_encode(p).unwrap());
    }

    let mut deframer = Deframer::new();
    deframer.push(&wire);
    for p in &payloads {
        let got = deframer.next_frame().unwrap();
        assert_eq!(got.as_ref(), Some(p));
    }
    assert_eq!(deframer.next_frame(), Ok(None));
}

#[test]
fn framing_survives_byte_by_byte_delivery() {
    let payloads = [payload_of_len(3), payload_of_len(70)];
    let mut wire: Vec<u8> = Vec::new();
    for p in &payloads {
        wire.extend_from_slice(&frame_encode(p).unwrap());
    }

    let mut deframer = Deframer::new();
    let mut got: Vec<Vec<u8>> = Vec::new();
    for b in wire {
        deframer.push(&vec![b]);
        while let Some(p) = deframer.next_frame().unwrap() {
            got.push(p);
        }
    }
    assert_eq!(got.as_slice(), payloads.as_slice());
}

#[test]
fn frame_encode_exact_bytes() {
    let framed = frame_encode(&vec![7, 8]).unwrap();
    assert_eq!(framed, vec![0, 0, 0, 2, 7, 8]); // big-endian length prefix
}

#[test]
fn frame_encode_rejects_oversized_payload() {
    let oversized = vec![0u8; MAX_FRAME_LEN + 1];
    assert_eq!(frame_encode(&oversized), Err(FrameworkError::Framing));
}

#[test]
fn frame_encode_accepts_limit_payload() {
    let at_limit = vec![0u8; MAX_FRAME_LEN];
    let framed = frame_encode(&at_limit).unwrap();
    assert_eq!(framed.len(), MAX_FRAME_LEN + 4);
}

#[test]
fn deframer_rejects_oversized_declared_length() {
    // 8 MiB + 1 = 0x80_0001, big endian.
    let header = vec![0x00u8, 0x80, 0x00, 0x01];
    let mut deframer = Deframer::new();
    deframer.push(&header);
    assert_eq!(deframer.next_frame(), Err(FrameworkError::Framing));
}

#[test]
fn truncated_frame_is_a_framing_error_never_a_short_frame() {
    let framed = frame_encode(&vec![1, 2, 3]).unwrap();
    let partial = framed[..framed.len() - 1].to_vec();

    let mut deframer = Deframer::new();
    deframer.push(&partial);
    // The stream has not ended: the frame may still complete.
    assert_eq!(deframer.next_frame(), Ok(None));
    // The stream ended mid-frame: an error, not a partial payload.
    deframer.finish();
    assert_eq!(deframer.next_frame(), Err(FrameworkError::Framing));
}

#[test]
fn clean_end_of_stream_is_not_an_error() {
    let mut deframer = Deframer::new();
    deframer.finish();
    assert_eq!(deframer.next_frame(), Ok(None));
}

#[test]
fn truncated_header_is_a_framing_error_after_end() {
    let mut deframer = Deframer::new();
    deframer.push(&vec![0, 0]);
    deframer.finish();
    assert_eq!(deframer.next_frame(), Err(FrameworkError::Framing));
}
