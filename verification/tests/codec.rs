use framework::codec::{decode, encode, TypedMessage};
use framework::errors::FrameworkError;
use framework::identity::TarpcBiStream;

fn message(id: u64, payload: &[u8]) -> TypedMessage {
    TypedMessage { channel: TarpcBiStream::new(id), payload: payload.to_vec() }
}

#[test]
fn round_trip_empty_payload() {
    let msg = message(0, &[]);
    let bytes = encode(&msg);
    assert_eq!(decode(&bytes), Ok(msg));
}

#[test]
fn round_trip_small_payload() {
    let msg = message(1, b"{\"room\":\"general\"}");
    let bytes = encode(&msg);
    assert_eq!(decode(&bytes), Ok(msg));
}

#[test]
fn round_trip_extreme_channel() {
    let msg = message(u64::MAX, &[0, 255, 0, 255]);
    let bytes = encode(&msg);
    assert_eq!(decode(&bytes), Ok(msg));
}

#[test]
fn round_trip_larger_payload() {
    let payload: Vec<u8> = (0..10_000u32).map(|i| (i % 251) as u8).collect();
    let msg = message(42, &payload);
    let bytes = encode(&msg);
    assert_eq!(decode(&bytes), Ok(msg));
}

#[test]
fn encode_exact_bytes() {
    let msg = message(1, &[0xAB, 0xCD]);
    let bytes = encode(&msg);
    let expected: Vec<u8> = vec![
        1, 0, 0, 0, 0, 0, 0, 0, // channel, little endian
        2, 0, 0, 0, 0, 0, 0, 0, // payload length, little endian
        0xAB, 0xCD, // payload
    ];
    assert_eq!(bytes, expected);
}

#[test]
fn decode_rejects_truncated_input() {
    let msg = message(3, &[9, 9, 9]);
    let bytes = encode(&msg);
    let truncated = &bytes[..bytes.len() - 1];
    assert_eq!(decode(truncated), Err(FrameworkError::Serialization));
}

#[test]
fn decode_rejects_empty_input() {
    assert_eq!(decode(&[]), Err(FrameworkError::Serialization));
}

#[test]
fn decode_rejects_absurd_length() {
    let mut bytes = vec![0u8; 8];
    bytes.extend_from_slice(&[0xFF; 8]); // declared payload length far beyond the input
    bytes.push(1);
    assert_eq!(decode(&bytes), Err(FrameworkError::Serialization));
}

#[test]
fn decode_tolerates_trailing_bytes() {
    let msg = message(5, &[1, 2, 3]);
    let mut bytes = encode(&msg);
    bytes.extend_from_slice(&[0xEE, 0xFF]);
    assert_eq!(decode(&bytes), Ok(msg));
}
