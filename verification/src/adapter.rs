use vstd::prelude::*;
use crate::codec::{decode, encode, message_bytes, message_bytes_of, TypedMessage};
use crate::errors::FrameworkError;
use crate::frames::{
    frame_bytes, frame_complete, frame_encode, frame_oversized, frame_payload, frame_rest,
    Deframer, MAX_FRAME_LEN,
};

verus! {

/// Typed bidirectional endpoint over one bridged stream: outbound values are
/// encoded and framed; inbound bytes are deframed and decoded. Open until the
/// first unrecoverable failure or an explicit close; never reopened.
pub struct TransportAdapter {
    open: bool,
    inbound: Deframer,
}

impl TransportAdapter {
    /// Whether the adapter still accepts operations.
    pub closed spec fn is_open(self) -> bool {
        self.open
    }

    /// Inbound bytes that have arrived and do not yet belong to a delivered
    /// frame.
    pub closed spec fn inbound_pending(self) -> Seq<u8> {
        self.inbound.pending()
    }

    /// Whether the inbound byte stream has ended.
    pub closed spec fn inbound_ended(self) -> bool {
        self.inbound.ended()
    }

    pub fn new() -> (r: Self)
        ensures
            r.is_open(),
            r.inbound_pending() == Seq::<u8>::empty(),
            !r.inbound_ended(),
    {
        TransportAdapter { open: true, inbound: Deframer::new() }
    }

    /// Shut the adapter down; every later operation fails with a closed
    /// error. Also the entry point for an unrecoverable failure reported by
    /// the bridge underneath.
    pub fn close(&mut self)
        ensures
            !final(self).is_open(),
            final(self).inbound_pending() == old(self).inbound_pending(),
            final(self).inbound_ended() == old(self).inbound_ended(),
    {
        self.open = false;
    }

    /// Turn one value into the single frame that delivers it: the encoded
    /// value behind a length prefix. Fails immediately with a closed error on
    /// a closed adapter. An encoding over the frame limit is a framing error
    /// and counts as the outbound direction failing: it closes the adapter.
    /// Otherwise the frame is exactly the framed encoding and the adapter
    /// stays open.
    pub fn send(&mut self, value: &TypedMessage) -> (r: Result<Vec<u8>, FrameworkError>)
        ensures
            final(self).inbound_pending() == old(self).inbound_pending(),
            final(self).inbound_ended() == old(self).inbound_ended(),
            !old(self).is_open() ==> r == Err::<Vec<u8>, FrameworkError>(FrameworkError::Closed)
                && !final(self).is_open(),
            old(self).is_open() && message_bytes(*value).len() <= MAX_FRAME_LEN ==> (r matches Ok(f)
                && f@ == frame_bytes(message_bytes(*value)) && final(self).is_open()),
            old(self).is_open() && message_bytes(*value).len() > MAX_FRAME_LEN ==> r == Err::<
                Vec<u8>,
                FrameworkError,
            >(FrameworkError::Framing) && !final(self).is_open(),
    {
        if !self.open {
            return Err(FrameworkError::Closed);
        }
        let encoded = encode(value);
        match frame_encode(&encoded) {
            Ok(f) => Ok(f),
            Err(e) => {
                self.open = false;
                Err(e)
            },
        }
    }

    /// Feed bytes that arrived from the bridge underneath.
    pub fn push_inbound(&mut self, chunk: &Vec<u8>)
        requires
            old(self).inbound_pending().len() + chunk@.len() <= usize::MAX,
        ensures
            final(self).is_open() == old(self).is_open(),
            final(self).inbound_pending() == old(self).inbound_pending() + chunk@,
            final(self).inbound_ended() == old(self).inbound_ended(),
    {
        self.inbound.push(chunk);
    }

    /// How many inbound bytes are pending.
    pub fn inbound_len(&self) -> (r: usize)
        ensures
            r == self.inbound_pending().len(),
    {
        self.inbound.pending_len()
    }

    /// Record that the inbound byte stream has ended.
    pub fn finish_inbound(&mut self)
        ensures
            final(self).is_open() == old(self).is_open(),
            final(self).inbound_pending() == old(self).inbound_pending(),
            final(self).inbound_ended(),
    {
        self.inbound.finish();
    }

    /// Deliver the next inbound value, if a whole frame has arrived.
    ///
    /// Fails immediately with a closed error on a closed adapter. A frame
    /// over the limit, or a stream that ended mid-frame, is a framing error;
    /// a frame whose payload does not begin with a valid encoding is a
    /// serialization error; each such failure closes the adapter. `Ok(None)`
    /// means no complete frame has arrived yet (or the stream ended cleanly);
    /// nothing is ever delivered partially.
    pub fn receive(&mut self) -> (r: Result<Option<TypedMessage>, FrameworkError>)
        ensures
            !old(self).is_open() ==> r == Err::<Option<TypedMessage>, FrameworkError>(
                FrameworkError::Closed,
            ) && *final(self) == *old(self),
            old(self).is_open() ==> final(self).inbound_ended() == old(self).inbound_ended(),
            old(self).is_open() && frame_complete(old(self).inbound_pending()) ==> ({
                let payload = frame_payload(old(self).inbound_pending());
                &&& forall|c: u64, p: Seq<u8>|
                    payload == #[trigger] message_bytes_of(c, p) ==> (r matches Ok(m)
                        && m matches Some(m) && m.channel.id() == c && m.payload@ == p)
                &&& (r matches Ok(m) ==> m matches Some(m)
                    && message_bytes_of(m.channel.id(), m.payload@).is_prefix_of(payload)
                    && final(self).is_open())
                &&& (r matches Err(e) ==> e == FrameworkError::Serialization
                    && !final(self).is_open())
                &&& final(self).inbound_pending() == frame_rest(old(self).inbound_pending())
            }),
            old(self).is_open() && frame_oversized(old(self).inbound_pending()) ==> r == Err::<
                Option<TypedMessage>,
                FrameworkError,
            >(FrameworkError::Framing) && !final(self).is_open() && final(self).inbound_pending()
                == old(self).inbound_pending(),
            old(self).is_open() && !frame_complete(old(self).inbound_pending()) && !frame_oversized(
                old(self).inbound_pending(),
            ) ==> final(self).inbound_pending() == old(self).inbound_pending() && (if (old(
                self,
            ).inbound_ended() && old(self).inbound_pending().len() > 0) {
                r == Err::<Option<TypedMessage>, FrameworkError>(FrameworkError::Framing)
                    && !final(self).is_open()
            } else {
                r == Ok::<Option<TypedMessage>, FrameworkError>(None) && final(self).is_open()
                    == old(self).is_open()
            }),
    {
        if !self.open {
            return Err(FrameworkError::Closed);
        }
        let next = self.inbound.next_frame();
        match next {
            Ok(Some(payload)) => {
                match decode(payload.as_slice()) {
                    Ok(m) => Ok(Some(m)),
                    Err(_) => {
                        self.open = false;
                        Err(FrameworkError::Serialization)
                    },
                }
            },
            Ok(None) => Ok(None),
            Err(e) => {
                self.open = false;
                Err(e)
            },
        }
    }
}

} // verus!
