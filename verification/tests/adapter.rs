use framework::adapter::TransportAdapter;
use framework::bridge::ByteChannel;
use framework::codec::TypedMessage;
use framework::errors::FrameworkError;
use framework::frames::MAX_FRAME_LEN;
use framework::identity::{IdentityAllocator, TarpcBiStream};

fn message(id: u64, payload: &[u8]) -> TypedMessage {
    TypedMessage { channel: TarpcBiStream::new(id), payload: payload.to_vec() }
}

/// Deliver one frame from a sender to a receiver through a bridged byte
/// channel, in small fragments, as the forwarding loops would.
fn deliver(frame: &[u8], receiver: &mut TransportAdapter) {
    let mut channel = ByteChannel::new();
    for fragment in frame.chunks(5) {
        channel.write(&fragment.to_vec());
    }
    loop {
        let chunk = channel.read(16);
        if chunk.is_empty() {
            break;
        }
        receiver.push_inbound(&chunk);
    }
}

#[test]
fn closed_adapter_fails_immediately() {
    let mut adapter = TransportAdapter::new();
    adapter.close();
    let msg = message(1, b"x");
    assert_eq!(adapter.send(&msg), Err(FrameworkError::Closed));
    assert_eq!(adapter.receive(), Err(FrameworkError::Closed));
    assert!(FrameworkError::Closed.is_closed());
}

#[test]
fn open_then_echo_scenario() {
    // Client opens a stream with identity 1 and sends one frame; the server
    // echoes; each side observes exactly one inbound value.
    let mut ids = IdentityAllocator::new();
    ids.next(); // identity 0 carries the primary connection
    let id = ids.next();
    assert_eq!(id, 1);

    let mut client = TransportAdapter::new();
    let mut server = TransportAdapter::new();

    let request = message(id, b"{\"room\":\"general\"}");
    let frame = client.send(&request).expect("open adapter must frame the value");
    deliver(&frame, &mut server);

    let inbound = server.receive().unwrap().expect("one whole frame arrived");
    assert_eq!(inbound, request);
    assert_eq!(server.receive(), Ok(None)); // exactly one

    let reply = message(id, b"{\"ok\":true}");
    let frame = server.send(&reply).expect("open adapter must frame the value");
    deliver(&frame, &mut client);

    let inbound = client.receive().unwrap().expect("one whole frame arrived");
    assert_eq!(inbound, reply);
    assert_eq!(client.receive(), Ok(None)); // exactly one
}

#[test]
fn truncated_inbound_stream_is_a_framing_error() {
    let mut sender = TransportAdapter::new();
    let mut receiver = TransportAdapter::new();
    let frame = sender.send(&message(2, &[1, 2, 3, 4])).unwrap();

    receiver.push_inbound(&frame[..frame.len() - 2].to_vec());
    assert_eq!(receiver.receive(), Ok(None)); // may still complete
    receiver.finish_inbound();
    assert_eq!(receiver.receive(), Err(FrameworkError::Framing));
    // The failure closed the adapter.
    assert_eq!(receiver.receive(), Err(FrameworkError::Closed));
}

#[test]
fn undecodable_frame_is_a_serialization_error_and_closes() {
    let mut receiver = TransportAdapter::new();
    // A well-formed frame whose payload is no encoding of a value.
    receiver.push_inbound(&vec![0, 0, 0, 1, 0xAA]);
    assert_eq!(receiver.receive(), Err(FrameworkError::Serialization));
    assert_eq!(receiver.send(&message(0, &[])), Err(FrameworkError::Closed));
}

#[test]
fn oversized_send_is_a_framing_error_and_closes() {
    let mut adapter = TransportAdapter::new();
    // The envelope adds a 16-byte header, so this encoding exceeds the limit.
    let big = message(1, &vec![0u8; MAX_FRAME_LEN]);
    assert_eq!(adapter.send(&big), Err(FrameworkError::Framing));
    // The outbound direction failed: the adapter is closed for what follows.
    assert_eq!(adapter.send(&message(0, &[])), Err(FrameworkError::Closed));
    assert_eq!(adapter.receive(), Err(FrameworkError::Closed));
}

#[test]
fn identity_allocations_are_distinct_and_increasing() {
    let mut ids = IdentityAllocator::new();
    let n = 1000;
    let mut got: Vec<u64> = Vec::new();
    for _ in 0..n {
        got.push(ids.next());
    }
    for i in 1..n {
        assert!(got[i - 1] < got[i]);
    }
    let mut sorted = got.clone();
    sorted.dedup();
    assert_eq!(sorted.len(), n);
}
