use vstd::prelude::*;
use vstd::arithmetic::div_mod::{lemma_div_denominator, lemma_fundamental_div_mod};
use vstd::arithmetic::power::pow;

verus! {

/// `n` written as `k` base-256 digits, least significant first.
pub open spec fn le_bytes(n: int, k: nat) -> Seq<u8>
    decreases k,
{
    if k == 0 {
        Seq::empty()
    } else {
        seq![(n % 256) as u8] + le_bytes(n / 256, (k - 1) as nat)
    }
}

/// The number a little-endian digit string denotes.
pub open spec fn le_value(b: Seq<u8>) -> int
    decreases b.len(),
{
    if b.len() == 0 {
        0
    } else {
        b[0] + 256 * le_value(b.skip(1))
    }
}

/// `n` written as `k` base-256 digits, most significant first.
pub open spec fn be_bytes(n: int, k: nat) -> Seq<u8>
    decreases k,
{
    if k == 0 {
        Seq::empty()
    } else {
        be_bytes(n / 256, (k - 1) as nat) + seq![(n % 256) as u8]
    }
}

/// The number a big-endian digit string denotes.
pub open spec fn be_value(b: Seq<u8>) -> int
    decreases b.len(),
{
    if b.len() == 0 {
        0
    } else {
        256 * be_value(b.drop_last()) + b.last()
    }
}

/// A digit string denotes a number, never anything negative.
pub proof fn lemma_be_value_nonneg(b: Seq<u8>)
    ensures
        be_value(b) >= 0,
    decreases b.len(),
{
    if b.len() > 0 {
        lemma_be_value_nonneg(b.drop_last());
    }
}

pub proof fn lemma_le_bytes_len(n: int, k: nat)
    ensures
        le_bytes(n, k).len() == k,
    decreases k,
{
    if k > 0 {
        lemma_le_bytes_len(n / 256, (k - 1) as nat);
    }
}

pub proof fn lemma_be_bytes_len(n: int, k: nat)
    ensures
        be_bytes(n, k).len() == k,
    decreases k,
{
    if k > 0 {
        lemma_be_bytes_len(n / 256, (k - 1) as nat);
    }
}

/// Reading back the digits of `n` gives `n`: the little-endian encoding of a
/// number below 256^k loses nothing.
pub proof fn lemma_le_round_trip(n: int, k: nat)
    requires
        0 <= n < pow(256, k),
    ensures
        le_value(le_bytes(n, k)) == n,
    decreases k,
{
    reveal(pow);
    if k == 0 {
        assert(pow(256, 0) == 1);
    } else {
        let q = n / 256;
        let r = n % 256;
        lemma_fundamental_div_mod(n, 256);
        assert(pow(256, k) == 256 * pow(256, (k - 1) as nat));
        // q < pow(256, k - 1), else n = 256 * q + r >= pow(256, k)
        if q >= pow(256, (k - 1) as nat) {
            vstd::arithmetic::mul::lemma_mul_inequality(pow(256, (k - 1) as nat), q, 256);
            assert(false);
        }
        lemma_le_round_trip(q, (k - 1) as nat);
        let tail = le_bytes(q, (k - 1) as nat);
        assert(le_bytes(n, k).skip(1) =~= tail);
        assert(le_bytes(n, k)[0] == r as u8);
        assert(le_value(le_bytes(n, k)) == r + 256 * q);
    }
}

/// Reading back the digits of `n` gives `n`, big-endian form.
pub proof fn lemma_be_round_trip(n: int, k: nat)
    requires
        0 <= n < pow(256, k),
    ensures
        be_value(be_bytes(n, k)) == n,
    decreases k,
{
    reveal(pow);
    if k == 0 {
        assert(pow(256, 0) == 1);
    } else {
        let q = n / 256;
        let r = n % 256;
        lemma_fundamental_div_mod(n, 256);
        assert(pow(256, k) == 256 * pow(256, (k - 1) as nat));
        if q >= pow(256, (k - 1) as nat) {
            vstd::arithmetic::mul::lemma_mul_inequality(pow(256, (k - 1) as nat), q, 256);
            assert(false);
        }
        lemma_be_round_trip(q, (k - 1) as nat);
        let head = be_bytes(q, (k - 1) as nat);
        lemma_be_bytes_len(q, (k - 1) as nat);
        assert(be_bytes(n, k).drop_last() =~= head);
        assert(be_bytes(n, k).last() == r as u8);
        assert(be_value(be_bytes(n, k)) == 256 * q + r);
    }
}

/// Two numbers below 256^k with the same digits are the same number.
pub proof fn lemma_le_bytes_injective(a: int, b: int, k: nat)
    requires
        0 <= a < pow(256, k),
        0 <= b < pow(256, k),
        le_bytes(a, k) == le_bytes(b, k),
    ensures
        a == b,
{
    lemma_le_round_trip(a, k);
    lemma_le_round_trip(b, k);
}

/// 256^4 and 256^8, spelled out once so callers can use literal bounds.
pub proof fn lemma_pow256_4()
    ensures
        pow(256, 4) == 0x1_0000_0000,
{
    reveal_with_fuel(pow, 5);
    assert(pow(256, 4) == 256 * (256 * (256 * (256 * pow(256, 0)))));
}

pub proof fn lemma_pow256_8()
    ensures
        pow(256, 8) == 0x1_0000_0000_0000_0000,
{
    reveal_with_fuel(pow, 9);
    assert(pow(256, 8) == 256 * (256 * (256 * (256 * (256 * (256 * (256 * (256 * pow(
        256,
        0,
    )))))))));
}

/// The four big-endian digits of `n < 256^4`, as the direct formulas the
/// executable framing code computes.
pub proof fn lemma_be4_digits(n: int)
    requires
        0 <= n < 0x1_0000_0000,
    ensures
        be_bytes(n, 4) =~= seq![
            ((n / 0x100_0000) % 256) as u8,
            ((n / 0x1_0000) % 256) as u8,
            ((n / 0x100) % 256) as u8,
            (n % 256) as u8,
        ],
{
    lemma_div_denominator(n, 0x100, 0x100);
    assert((n / 0x100) / 0x100 == n / 0x1_0000);
    lemma_div_denominator(n, 0x1_0000, 0x100);
    assert((n / 0x1_0000) / 0x100 == n / 0x100_0000);
    assert(n / 0x100_0000 < 0x100) by {
        lemma_fundamental_div_mod(n, 0x100_0000);
    }
    assert((n / 0x100_0000) % 256 == n / 0x100_0000) by {
        vstd::arithmetic::div_mod::lemma_small_mod((n / 0x100_0000) as nat, 256);
    }
    assert(be_bytes(n, 4) == be_bytes(n / 0x100, 3) + seq![(n % 256) as u8]);
    assert(be_bytes(n / 0x100, 3) == be_bytes(n / 0x1_0000, 2) + seq![((n / 0x100) % 256) as u8]);
    assert(be_bytes(n / 0x1_0000, 2) == be_bytes(n / 0x100_0000, 1) + seq![
        ((n / 0x1_0000) % 256) as u8,
    ]);
    assert(be_bytes(n / 0x100_0000, 1) == be_bytes(n / 0x100_0000 / 0x100, 0) + seq![
        ((n / 0x100_0000) % 256) as u8,
    ]);
    assert(be_bytes(n / 0x100_0000 / 0x100, 0) == Seq::<u8>::empty());
}

/// The big-endian value of four digits, as the direct formula the executable
/// deframing code computes.
pub proof fn lemma_be4_value(b: Seq<u8>)
    requires
        b.len() == 4,
    ensures
        be_value(b) == b[0] * 0x100_0000 + b[1] * 0x1_0000 + b[2] * 0x100 + b[3],
{
    let b3 = b.drop_last();
    let b2 = b3.drop_last();
    let b1 = b2.drop_last();
    let b0 = b1.drop_last();
    assert(b0 =~= Seq::<u8>::empty());
    assert(be_value(b0) == 0);
    assert(be_value(b1) == 256 * be_value(b0) + b1.last());
    assert(b1.last() == b[0]);
    assert(be_value(b2) == 256 * be_value(b1) + b2.last());
    assert(b2.last() == b[1]);
    assert(be_value(b3) == 256 * be_value(b2) + b3.last());
    assert(b3.last() == b[2]);
    assert(be_value(b) == 256 * be_value(b3) + b.last());
    assert(b.last() == b[3]);
}

} // verus!
