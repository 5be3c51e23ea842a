use vstd::prelude::*;
use crate::errors::FrameworkError;
use crate::wire::{
    be_bytes, be_value, lemma_be4_digits, lemma_be4_value, lemma_be_bytes_len, lemma_be_round_trip,
    lemma_pow256_4,
};

verus! {

/// Largest payload one frame may carry.
pub const MAX_FRAME_LEN: usize = 8 * 1024 * 1024;

/// A whole frame on the wire: the payload length as four big-endian bytes,
/// then exactly that many payload bytes.
pub open spec fn frame_bytes(payload: Seq<u8>) -> Seq<u8> {
    be_bytes(payload.len() as int, 4) + payload
}

/// The payload length announced by the first four bytes.
pub open spec fn declared_len(b: Seq<u8>) -> int {
    be_value(b.subrange(0, 4))
}

/// The prefix has arrived and announces a length over the frame limit.
pub open spec fn frame_oversized(b: Seq<u8>) -> bool {
    b.len() >= 4 && declared_len(b) > MAX_FRAME_LEN as int
}

/// A whole frame, within the limit, sits at the front of `b`.
pub open spec fn frame_complete(b: Seq<u8>) -> bool {
    b.len() >= 4 && declared_len(b) <= MAX_FRAME_LEN as int && 4 + declared_len(b) <= b.len()
}

/// The payload of the frame at the front of `b`.
pub open spec fn frame_payload(b: Seq<u8>) -> Seq<u8> {
    b.subrange(4, 4 + declared_len(b))
}

/// What follows the frame at the front of `b`.
pub open spec fn frame_rest(b: Seq<u8>) -> Seq<u8> {
    b.skip(4 + declared_len(b))
}

/// Frame one payload: length prefix, then the payload verbatim. Fails — with
/// a framing error — exactly on payloads over the frame limit.
pub fn frame_encode(payload: &Vec<u8>) -> (r: Result<Vec<u8>, FrameworkError>)
    ensures
        payload@.len() <= MAX_FRAME_LEN ==> (r matches Ok(f) && f@ == frame_bytes(payload@)),
        payload@.len() > MAX_FRAME_LEN ==> r == Err::<Vec<u8>, FrameworkError>(
            FrameworkError::Framing,
        ),
{
    if payload.len() > MAX_FRAME_LEN {
        return Err(FrameworkError::Framing);
    }
    let n = payload.len();
    let mut out: Vec<u8> = Vec::new();
    out.push(((n / 0x100_0000) % 256) as u8);
    out.push(((n / 0x1_0000) % 256) as u8);
    out.push(((n / 0x100) % 256) as u8);
    out.push((n % 256) as u8);
    proof {
        lemma_be4_digits(n as int);
        assert(out@ =~= be_bytes(n as int, 4));
    }
    let mut i: usize = 0;
    while i < payload.len()
        invariant
            i <= payload.len(),
            payload@.len() == n,
            out@ == be_bytes(n as int, 4) + payload@.take(i as int),
        decreases payload.len() - i,
    {
        out.push(payload[i]);
        i = i + 1;
        proof {
            assert(out@ =~= be_bytes(n as int, 4) + payload@.take(i as int));
        }
    }
    proof {
        assert(payload@.take(n as int) =~= payload@);
    }
    Ok(out)
}

/// An encoded frame put in front of anything parses back to exactly its
/// payload, leaving exactly that remainder.
pub proof fn lemma_take_frame_of_encoding(p: Seq<u8>, rest: Seq<u8>)
    requires
        p.len() <= MAX_FRAME_LEN,
    ensures
        frame_complete(frame_bytes(p) + rest),
        !frame_oversized(frame_bytes(p) + rest),
        frame_payload(frame_bytes(p) + rest) == p,
        frame_rest(frame_bytes(p) + rest) == rest,
{
    let b = frame_bytes(p) + rest;
    lemma_be_bytes_len(p.len() as int, 4);
    lemma_pow256_4();
    lemma_be_round_trip(p.len() as int, 4);
    assert(b.subrange(0, 4) =~= be_bytes(p.len() as int, 4));
    assert(declared_len(b) == p.len());
    assert(frame_payload(b) =~= p);
    assert(frame_rest(b) =~= rest);
}

/// The payloads of the complete frames at the front of `b`, in order.
pub open spec fn decode_frames(b: Seq<u8>) -> Seq<Seq<u8>>
    decreases b.len(),
    via decode_frames_decreases
{
    if frame_complete(b) {
        seq![frame_payload(b)] + decode_frames(frame_rest(b))
    } else {
        Seq::empty()
    }
}

#[via_fn]
proof fn decode_frames_decreases(b: Seq<u8>) {
    if frame_complete(b) {
        crate::wire::lemma_be_value_nonneg(b.subrange(0, 4));
    }
}

/// The payloads `ps` framed one after the other, in order.
pub open spec fn encode_frames(ps: Seq<Seq<u8>>) -> Seq<u8>
    decreases ps.len(),
{
    if ps.len() == 0 {
        Seq::empty()
    } else {
        frame_bytes(ps[0]) + encode_frames(ps.skip(1))
    }
}

/// Law: frames written in order and read back give the same payloads, in
/// write order.
pub proof fn lemma_framing_round_trip(ps: Seq<Seq<u8>>)
    requires
        forall|i: int| 0 <= i < ps.len() ==> #[trigger] ps[i].len() <= MAX_FRAME_LEN,
    ensures
        decode_frames(encode_frames(ps)) == ps,
    decreases ps.len(),
{
    if ps.len() == 0 {
        assert(encode_frames(ps).len() == 0);
        assert(!frame_complete(encode_frames(ps)));
        assert(decode_frames(encode_frames(ps)) =~= ps);
    } else {
        let rest = encode_frames(ps.skip(1));
        lemma_take_frame_of_encoding(ps[0], rest);
        assert(forall|i: int|
            0 <= i < ps.skip(1).len() ==> #[trigger] ps.skip(1)[i].len() <= MAX_FRAME_LEN);
        lemma_framing_round_trip(ps.skip(1));
        assert(decode_frames(encode_frames(ps)) =~= ps);
    }
}

/// Incremental reader of length-delimited frames. Bytes arrive in chunks of
/// any size; complete frames come out whole, in arrival order, and a stream
/// that ends mid-frame is reported as a framing error, never as a short
/// frame.
pub struct Deframer {
    buf: Vec<u8>,
    eof: bool,
}

impl Deframer {
    /// Bytes that have arrived and do not yet belong to a delivered frame.
    pub closed spec fn pending(self) -> Seq<u8> {
        self.buf@
    }

    /// Whether the byte source has reported end of stream.
    pub closed spec fn ended(self) -> bool {
        self.eof
    }

    pub fn new() -> (r: Self)
        ensures
            r.pending() == Seq::<u8>::empty(),
            !r.ended(),
    {
        let r = Deframer { buf: Vec::new(), eof: false };
        proof {
            assert(r.pending() =~= Seq::<u8>::empty());
        }
        r
    }

    /// Feed one chunk of arrived bytes.
    pub fn push(&mut self, chunk: &Vec<u8>)
        requires
            old(self).pending().len() + chunk@.len() <= usize::MAX,
        ensures
            final(self).pending() == old(self).pending() + chunk@,
            final(self).ended() == old(self).ended(),
    {
        let mut i: usize = 0;
        while i < chunk.len()
            invariant
                i <= chunk.len(),
                self.buf@ == old(self).buf@ + chunk@.take(i as int),
                self.eof == old(self).eof,
                old(self).buf@.len() + chunk@.len() <= usize::MAX,
            decreases chunk.len() - i,
        {
            self.buf.push(chunk[i]);
            i = i + 1;
            proof {
                assert(self.buf@ =~= old(self).buf@ + chunk@.take(i as int));
            }
        }
        proof {
            assert(chunk@.take(chunk@.len() as int) =~= chunk@);
        }
    }

    /// How many bytes are pending.
    pub fn pending_len(&self) -> (r: usize)
        ensures
            r == self.pending().len(),
    {
        self.buf.len()
    }

    /// Record that the byte source has ended; no more bytes will arrive.
    pub fn finish(&mut self)
        ensures
            final(self).pending() == old(self).pending(),
            final(self).ended(),
    {
        self.eof = true;
    }

    /// Take the next complete frame, if one has fully arrived.
    ///
    /// A frame whose declared length exceeds the limit is a framing error. A
    /// stream that ended with a partial frame pending is a framing error; a
    /// partial payload is never returned.
    pub fn next_frame(&mut self) -> (r: Result<Option<Vec<u8>>, FrameworkError>)
        ensures
            final(self).ended() == old(self).ended(),
            frame_complete(old(self).pending()) ==> (r matches Ok(f) && f matches Some(p) && p@
                == frame_payload(old(self).pending()) && final(self).pending() == frame_rest(
                old(self).pending(),
            )),
            frame_oversized(old(self).pending()) ==> r == Err::<
                Option<Vec<u8>>,
                FrameworkError,
            >(FrameworkError::Framing) && final(self).pending() == old(self).pending(),
            !frame_complete(old(self).pending()) && !frame_oversized(old(self).pending())
                ==> final(self).pending() == old(self).pending() && (if old(self).ended() && old(
                self,
            ).pending().len() > 0 {
                r == Err::<Option<Vec<u8>>, FrameworkError>(FrameworkError::Framing)
            } else {
                r == Ok::<Option<Vec<u8>>, FrameworkError>(None)
            }),
    {
        let avail = self.buf.len();
        if avail < 4 {
            if self.eof && avail > 0 {
                return Err(FrameworkError::Framing);
            }
            return Ok(None);
        }
        let b0 = self.buf[0] as usize;
        let b1 = self.buf[1] as usize;
        let b2 = self.buf[2] as usize;
        let b3 = self.buf[3] as usize;
        let n = b0 * 0x100_0000 + b1 * 0x1_0000 + b2 * 0x100 + b3;
        proof {
            let pend = old(self).pending();
            lemma_be4_value(pend.subrange(0, 4));
            assert(declared_len(pend) == n);
        }
        if n > MAX_FRAME_LEN {
            return Err(FrameworkError::Framing);
        }
        if avail - 4 < n {
            if self.eof {
                return Err(FrameworkError::Framing);
            }
            return Ok(None);
        }
        let mut payload: Vec<u8> = Vec::new();
        let mut i: usize = 0;
        while i < n
            invariant
                i <= n,
                4 + n <= usize::MAX,
                4 + n <= self.buf@.len(),
                payload@ == self.buf@.subrange(4, 4 + i as int),
                self == old(self),
            decreases n - i,
        {
            payload.push(self.buf[4 + i]);
            i = i + 1;
            proof {
                assert(payload@ =~= self.buf@.subrange(4, 4 + i as int));
            }
        }
        let mut rest: Vec<u8> = Vec::new();
        let mut j: usize = 4 + n;
        while j < self.buf.len()
            invariant
                4 + n <= j <= self.buf@.len(),
                rest@ == self.buf@.subrange(4 + n as int, j as int),
                self == old(self),
                payload@ == self.buf@.subrange(4, 4 + n as int),
            decreases self.buf@.len() - j,
        {
            rest.push(self.buf[j]);
            j = j + 1;
            proof {
                assert(rest@ =~= self.buf@.subrange(4 + n as int, j as int));
            }
        }
        self.buf = rest;
        proof {
            let pend = old(self).pending();
            assert(payload@ =~= frame_payload(pend));
            assert(final(self).pending() =~= frame_rest(pend));
        }
        Ok(Some(payload))
    }
}

} // verus!
