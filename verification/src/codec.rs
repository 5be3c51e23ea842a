use vstd::prelude::*;
use crate::errors::FrameworkError;
use crate::identity::{BiStream, TarpcBiStream};
use crate::wire::{le_bytes, lemma_le_bytes_len, lemma_pow256_8};

verus! {

/// The logical value carried in one frame: which sub-channel the message
/// concerns, and the application bytes it carries.
#[derive(Debug, PartialEq, Eq)]
pub struct TypedMessage {
    pub channel: TarpcBiStream,
    pub payload: Vec<u8>,
}

/// The encoding of a message with channel `channel` and payload `payload`:
/// the channel as eight little-endian bytes, the payload length as eight
/// little-endian bytes, then the payload verbatim.
pub open spec fn message_bytes_of(channel: u64, payload: Seq<u8>) -> Seq<u8> {
    le_bytes(channel as int, 8) + le_bytes(payload.len() as int, 8) + payload
}

/// The encoding of a message value.
pub open spec fn message_bytes(m: TypedMessage) -> Seq<u8> {
    message_bytes_of(m.channel.id(), m.payload@)
}

/// Relies on `bincode::serialize` with its default configuration: fixed-width
/// little-endian integers, a 64-bit length before a byte sequence, and no
/// size limit, so writing a pair of an integer and a byte vector into a new
/// vector cannot fail.
#[verifier::external_body]
fn bincode_encode_pair(channel: u64, payload: &Vec<u8>) -> (r: Vec<u8>)
    ensures
        r@ == message_bytes_of(channel, payload@),
{
    match bincode::serialize(&(channel, payload)) {
        Ok(b) => b,
        Err(_) => Vec::new(),
    }
}

/// Relies on `bincode::deserialize` with its default configuration:
/// fixed-width little-endian integers, a 64-bit length before a byte
/// sequence, trailing bytes tolerated; a truncated or malformed input is
/// rejected rather than read partially.
#[verifier::external_body]
fn bincode_decode_pair(bytes: &[u8]) -> (r: Option<TypedMessage>)
    ensures
        r matches Some(m) ==> message_bytes_of(m.channel.id(), m.payload@).is_prefix_of(bytes@),
        r is None ==> forall|c: u64, p: Seq<u8>| bytes@ != #[trigger] message_bytes_of(c, p),
{
    match bincode::deserialize::<(u64, Vec<u8>)>(bytes) {
        Ok((channel, payload)) => Some(
            TypedMessage { channel: TarpcBiStream(BiStream(channel)), payload },
        ),
        Err(_) => None,
    }
}

/// Encode one message. Pure and deterministic; every message value is
/// representable, so encoding cannot fail.
pub fn encode(value: &TypedMessage) -> (r: Vec<u8>)
    ensures
        r@ == message_bytes(*value),
{
    bincode_encode_pair(value.channel.id_value(), &value.payload)
}

/// Decode one message. Succeeds exactly on inputs that begin with a valid
/// encoding; a truncated, malformed or shape-mismatched input yields a
/// serialization error, never a partially decoded value.
pub fn decode(bytes: &[u8]) -> (r: Result<TypedMessage, FrameworkError>)
    ensures
        forall|c: u64, p: Seq<u8>|
            bytes@ == #[trigger] message_bytes_of(c, p) ==> (r matches Ok(m) && m.channel.id() == c
                && m.payload@ == p),
        r matches Ok(m) ==> message_bytes_of(m.channel.id(), m.payload@).is_prefix_of(bytes@),
        r matches Err(e) ==> e == FrameworkError::Serialization,
{
    let n = bytes.len();
    match bincode_decode_pair(bytes) {
        Some(m) => {
            let len = m.payload.len();
            proof {
                assert forall|c: u64, p: Seq<u8>|
                    bytes@ == #[trigger] message_bytes_of(c, p) implies m.channel.id() == c
                    && m.payload@ == p by {
                    lemma_encoding_prefix(m.channel.id(), m.payload@, c, p);
                }
            }
            Ok(m)
        },
        None => Err(FrameworkError::Serialization),
    }
}

/// One encoding is a prefix of another only when they are the same encoding:
/// the header fixes the payload length, so the shorter one cannot stop early.
pub proof fn lemma_encoding_prefix(a: u64, q: Seq<u8>, c: u64, p: Seq<u8>)
    requires
        q.len() < 0x1_0000_0000_0000_0000,
        p.len() < 0x1_0000_0000_0000_0000,
        message_bytes_of(a, q).is_prefix_of(message_bytes_of(c, p)),
    ensures
        a == c,
        q == p,
{
    let s1 = message_bytes_of(a, q);
    let s2 = message_bytes_of(c, p);
    lemma_le_bytes_len(a as int, 8);
    lemma_le_bytes_len(c as int, 8);
    lemma_le_bytes_len(q.len() as int, 8);
    lemma_le_bytes_len(p.len() as int, 8);
    assert(s1.len() == 16 + q.len());
    assert(s2.len() == 16 + p.len());
    lemma_pow256_8();
    assert(s1 == s2.subrange(0, s1.len() as int));
    assert forall|j: int| 0 <= j < 8 implies le_bytes(a as int, 8)[j] == le_bytes(
        c as int,
        8,
    )[j] by {
        assert(s1[j] == s2.subrange(0, s1.len() as int)[j]);
    }
    assert forall|j: int| 0 <= j < 8 implies le_bytes(q.len() as int, 8)[j] == le_bytes(
        p.len() as int,
        8,
    )[j] by {
        assert(s1[8 + j] == s2.subrange(0, s1.len() as int)[8 + j]);
    }
    assert(le_bytes(a as int, 8) =~= le_bytes(c as int, 8));
    assert(le_bytes(q.len() as int, 8) =~= le_bytes(p.len() as int, 8));
    crate::wire::lemma_le_bytes_injective(a as int, c as int, 8);
    crate::wire::lemma_le_bytes_injective(q.len() as int, p.len() as int, 8);
    assert forall|j: int| 0 <= j < q.len() implies q[j] == p[j] by {
        assert(s1[16 + j] == s2.subrange(0, s1.len() as int)[16 + j]);
    }
    assert(q =~= p);
}

/// Law: the encoding is injective. Two messages with the same encoded form
/// agree on the channel and on the payload, so — with the contracts of
/// `encode` and `decode` — decoding an encoding returns exactly the value
/// that was encoded.
pub proof fn lemma_encoding_injective(c1: u64, p1: Seq<u8>, c2: u64, p2: Seq<u8>)
    requires
        p1.len() < 0x1_0000_0000_0000_0000,
        p2.len() < 0x1_0000_0000_0000_0000,
        message_bytes_of(c1, p1) == message_bytes_of(c2, p2),
    ensures
        c1 == c2,
        p1 == p2,
{
    let s1 = message_bytes_of(c1, p1);
    let s2 = message_bytes_of(c2, p2);
    assert(s1.is_prefix_of(s2)) by {
        assert(s2.subrange(0, s2.len() as int) =~= s2);
    }
    lemma_encoding_prefix(c1, p1, c2, p2);
}

} // verus!
