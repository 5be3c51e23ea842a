use vstd::prelude::*;
use crate::errors::FrameworkError;

verus! {

/// Capacity of the local duplex buffer the runtime allocates, and the size of
/// the scratch buffer one outbound forwarding pass reads into.
pub const BUFFER_SIZE: usize = 4096;

/// Upper bound on the bytes one network read may return.
pub const MAX_READ_BYTES: usize = 4096;

/// One side of the local duplex byte channel a bridge exposes: a FIFO byte
/// buffer. The runtime's duplex pipe bounds its capacity for backpressure;
/// this model tracks the bytes and their order, which is what the forwarding
/// loops must preserve.
pub struct ByteChannel {
    buf: Vec<u8>,
    consumed: Ghost<Seq<u8>>,
}

impl ByteChannel {
    /// Bytes written and not yet read, oldest first.
    pub closed spec fn pending(self) -> Seq<u8> {
        self.buf@
    }

    /// Bytes the reader has already taken, oldest first.
    pub closed spec fn consumed(self) -> Seq<u8> {
        self.consumed@
    }

    /// Every byte ever written, oldest first.
    pub open spec fn written(self) -> Seq<u8> {
        self.consumed() + self.pending()
    }

    pub fn new() -> (r: Self)
        ensures
            r.pending() == Seq::<u8>::empty(),
            r.consumed() == Seq::<u8>::empty(),
    {
        let r = ByteChannel { buf: Vec::new(), consumed: Ghost(Seq::empty()) };
        proof {
            assert(r.pending() =~= Seq::<u8>::empty());
        }
        r
    }

    /// Append one chunk, verbatim, after everything written before it.
    pub fn write(&mut self, chunk: &Vec<u8>)
        requires
            old(self).pending().len() + chunk@.len() <= usize::MAX,
        ensures
            final(self).pending() == old(self).pending() + chunk@,
            final(self).consumed() == old(self).consumed(),
    {
        let mut i: usize = 0;
        while i < chunk.len()
            invariant
                i <= chunk.len(),
                self.buf@ == old(self).buf@ + chunk@.take(i as int),
                self.consumed@ == old(self).consumed@,
                old(self).buf@.len() + chunk@.len() <= usize::MAX,
            decreases chunk.len() - i,
        {
            self.buf.push(chunk[i]);
            i = i + 1;
            proof {
                assert(self.buf@ =~= old(self).buf@ + chunk@.take(i as int));
            }
        }
        proof {
            assert(chunk@.take(chunk@.len() as int) =~= chunk@);
        }
    }

    /// Take up to `max` bytes from the front, in order.
    pub fn read(&mut self, max: usize) -> (r: Vec<u8>)
        ensures
            r@ == old(self).pending().take(if max as int <= old(self).pending().len() {
                max as int
            } else {
                old(self).pending().len() as int
            }),
            final(self).pending() == old(self).pending().skip(r@.len() as int),
            final(self).consumed() == old(self).consumed() + r@,
    {
        let take = if max <= self.buf.len() {
            max
        } else {
            self.buf.len()
        };
        let mut out: Vec<u8> = Vec::new();
        let mut i: usize = 0;
        while i < take
            invariant
                i <= take,
                take <= self.buf@.len(),
                out@ == self.buf@.take(i as int),
                self == old(self),
            decreases take - i,
        {
            out.push(self.buf[i]);
            i = i + 1;
            proof {
                assert(out@ =~= self.buf@.take(i as int));
            }
        }
        let mut rest: Vec<u8> = Vec::new();
        let mut j: usize = take;
        while j < self.buf.len()
            invariant
                take <= j <= self.buf@.len(),
                rest@ == self.buf@.subrange(take as int, j as int),
                self == old(self),
                out@ == self.buf@.take(take as int),
            decreases self.buf@.len() - j,
        {
            rest.push(self.buf[j]);
            j = j + 1;
            proof {
                assert(rest@ =~= self.buf@.subrange(take as int, j as int));
            }
        }
        self.buf = rest;
        self.consumed = Ghost(self.consumed@ + out@);
        proof {
            assert(final(self).pending() =~= old(self).pending().skip(out@.len() as int));
        }
        out
    }
}

/// What one pass of a forwarding loop observed on its source.
pub enum BridgeEvent {
    /// A chunk of bytes arrived.
    Bytes(Vec<u8>),
    /// The source ended cleanly.
    End,
    /// The source or the sink failed.
    Failed,
}

/// What the forwarding loop must do next.
pub enum BridgeAction {
    /// Hand exactly these bytes to the sink, in this order.
    Forward(Vec<u8>),
    /// Stop the loop; `None` is a clean stop, an error is surfaced.
    Stop(Option<FrameworkError>),
}

/// The decision a forwarding loop takes each pass, for both directions: data
/// is forwarded verbatim; a clean end stops the loop quietly; a failure stops
/// it with a network error. The loop itself — reading the source, performing
/// the action — is the unverified runtime's.
pub fn bridge_step(event: BridgeEvent) -> (r: BridgeAction)
    ensures
        event matches BridgeEvent::Bytes(c) ==> (r matches BridgeAction::Forward(f) && f == c),
        event matches BridgeEvent::End ==> r == BridgeAction::Stop(None),
        event matches BridgeEvent::Failed ==> r == BridgeAction::Stop(
            Some(FrameworkError::Network),
        ),
{
    match event {
        BridgeEvent::Bytes(c) => BridgeAction::Forward(c),
        BridgeEvent::End => BridgeAction::Stop(None),
        BridgeEvent::Failed => BridgeAction::Stop(Some(FrameworkError::Network)),
    }
}

/// The bytes of `frags`, joined in order.
pub open spec fn concat_fragments(frags: Seq<Seq<u8>>) -> Seq<u8>
    decreases frags.len(),
{
    if frags.len() == 0 {
        Seq::empty()
    } else {
        frags[0] + concat_fragments(frags.skip(1))
    }
}

/// The channel contents after each of `frags` is written in order onto
/// `init`, following `write`'s contract.
pub open spec fn written_after(init: Seq<u8>, frags: Seq<Seq<u8>>) -> Seq<u8>
    decreases frags.len(),
{
    if frags.len() == 0 {
        init
    } else {
        written_after(init + frags[0], frags.skip(1))
    }
}

/// Law: a byte sequence delivered to a channel in arbitrarily small
/// fragments accumulates to exactly their concatenation, in order — nothing
/// lost, duplicated or reordered, however the sequence was split.
pub proof fn lemma_bridge_fidelity(frags: Seq<Seq<u8>>)
    ensures
        written_after(Seq::empty(), frags) == concat_fragments(frags),
{
    lemma_written_after(Seq::empty(), frags);
    assert(Seq::<u8>::empty() + concat_fragments(frags) =~= concat_fragments(frags));
}

/// Law: the reader of a channel sees what the writer put in: the bytes
/// already taken, followed by the bytes still pending, are exactly the bytes
/// written, byte for byte and in order.
pub proof fn lemma_reader_sees_writes(c: ByteChannel)
    ensures
        c.consumed() + c.pending() == c.written(),
{
}

proof fn lemma_written_after(init: Seq<u8>, frags: Seq<Seq<u8>>)
    ensures
        written_after(init, frags) == init + concat_fragments(frags),
    decreases frags.len(),
{
    if frags.len() == 0 {
        assert(init + Seq::<u8>::empty() =~= init);
    } else {
        lemma_written_after(init + frags[0], frags.skip(1));
        assert((init + frags[0]) + concat_fragments(frags.skip(1)) =~= init + concat_fragments(
            frags,
        ));
    }
}

} // verus!
