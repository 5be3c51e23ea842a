use framework::bridge::{bridge_step, BridgeAction, BridgeEvent, ByteChannel, BUFFER_SIZE};
use framework::errors::FrameworkError;

#[test]
fn fragments_reassemble_in_order() {
    // One byte sequence, delivered as arbitrarily small fragments.
    let s: Vec<u8> = (0..1000u32).map(|i| (i % 249) as u8).collect();
    let mut channel = ByteChannel::new();
    for fragment in s.chunks(7) {
        channel.write(&fragment.to_vec());
    }

    let mut got: Vec<u8> = Vec::new();
    loop {
        let chunk = channel.read(13);
        if chunk.is_empty() {
            break;
        }
        got.extend_from_slice(&chunk);
    }
    assert_eq!(got, s);
}

#[test]
fn read_respects_bound_and_order() {
    let mut channel = ByteChannel::new();
    channel.write(&vec![1, 2]);
    channel.write(&vec![]);
    channel.write(&vec![3, 4, 5]);
    assert_eq!(channel.read(4), vec![1, 2, 3, 4]);
    assert_eq!(channel.read(100), vec![5]);
    assert_eq!(channel.read(BUFFER_SIZE), Vec::<u8>::new());
}

#[test]
fn bridge_forwards_bytes_verbatim() {
    let chunk = vec![9, 8, 7];
    match bridge_step(BridgeEvent::Bytes(chunk.clone())) {
        BridgeAction::Forward(f) => assert_eq!(f, chunk),
        BridgeAction::Stop(_) => panic!("data must be forwarded"),
    }
}

#[test]
fn bridge_stops_cleanly_on_end_of_stream() {
    match bridge_step(BridgeEvent::End) {
        BridgeAction::Stop(e) => assert_eq!(e, None),
        BridgeAction::Forward(_) => panic!("end of stream must stop the loop"),
    }
}

#[test]
fn bridge_surfaces_io_failure_as_network_error() {
    match bridge_step(BridgeEvent::Failed) {
        BridgeAction::Stop(e) => assert_eq!(e, Some(FrameworkError::Network)),
        BridgeAction::Forward(_) => panic!("a failure must stop the loop"),
    }
}
