//! Numbers as they stand in a message: bytes, the lowest first.

use vstd::arithmetic::power::pow;
use vstd::prelude::*;

verus! {

/// How many bytes the length of a message takes.
pub const LENGTH_BYTES: usize = 8;

/// The lowest `n` bytes of `x`, the lowest first.
pub open spec fn le_bytes(x: nat, n: nat) -> Seq<u8>
    decreases n,
{
    if n == 0 {
        Seq::empty()
    } else {
        seq![(x % 256) as u8] + le_bytes(x / 256, (n - 1) as nat)
    }
}

/// The number whose bytes are `bytes`, the lowest first.
pub open spec fn le_value(bytes: Seq<u8>) -> nat
    decreases bytes.len(),
{
    if bytes.len() == 0 {
        0
    } else {
        bytes[0] as nat + 256 * le_value(bytes.skip(1))
    }
}

/// The bytes of a number that fits in them give the number back.
pub proof fn law_length_survives_the_wire(x: nat, n: nat)
    requires
        x < pow(256, n),
    ensures
        le_bytes(x, n).len() == n,
        le_value(le_bytes(x, n)) == x,
    decreases n,
{
    vstd::arithmetic::power::lemma_pow0(256);
    if n > 0 {
        let m = (n - 1) as nat;
        vstd::arithmetic::power::lemma_pow_adds(256, 1, m);
        vstd::arithmetic::power::lemma_pow1(256);
        assert(pow(256, n) == 256 * pow(256, m));
        let tail = le_bytes(x / 256, m);
        assert(x / 256 < pow(256, m));
        law_length_survives_the_wire(x / 256, m);
        assert(le_bytes(x, n).skip(1) =~= tail);
    }
}

/// Eight bytes hold any number that has 64 bits.
pub proof fn lemma_pow_256_8()
    ensures
        pow(256, 8) == 0x1_0000_0000_0000_0000,
{
    reveal_with_fuel(pow, 9);
}

/// A number is below the power that its bytes count up to.
pub proof fn lemma_le_value_bound(bytes: Seq<u8>)
    ensures
        le_value(bytes) < pow(256, bytes.len()),
    decreases bytes.len(),
{
    vstd::arithmetic::power::lemma_pow0(256);
    if bytes.len() > 0 {
        let tail = bytes.skip(1);
        lemma_le_value_bound(tail);
        vstd::arithmetic::power::lemma_pow_adds(256, 1, tail.len());
        vstd::arithmetic::power::lemma_pow1(256);
        assert(pow(256, bytes.len()) == 256 * pow(256, tail.len()));
    }
}

/// The length of a message, as eight bytes.
pub fn encode_length(len: u64) -> (bytes: Vec<u8>)
    ensures
        bytes@ == le_bytes(len as nat, LENGTH_BYTES as nat),
{
    let mut bytes: Vec<u8> = Vec::new();
    let mut left: u64 = len;
    let mut i: usize = 0;
    while i < LENGTH_BYTES
        invariant
            i <= LENGTH_BYTES,
            bytes@ + le_bytes(left as nat, (LENGTH_BYTES - i) as nat) == le_bytes(
                len as nat,
                LENGTH_BYTES as nat,
            ),
        decreases LENGTH_BYTES - i,
    {
        let ghost before = bytes@;
        let ghost rest = le_bytes((left / 256) as nat, (LENGTH_BYTES - i - 1) as nat);
        bytes.push((left % 256) as u8);
        assert(before + (seq![(left as nat % 256) as u8] + rest) =~= bytes@ + rest);
        left = left / 256;
        i += 1;
    }
    assert(bytes@ + Seq::<u8>::empty() =~= bytes@);
    bytes
}

/// The length that eight bytes stand for.
pub fn decode_length(bytes: &Vec<u8>) -> (len: u64)
    requires
        bytes@.len() == LENGTH_BYTES,
    ensures
        len == le_value(bytes@),
{
    let mut len: u64 = 0;
    let mut i: usize = LENGTH_BYTES;
    proof {
        assert(bytes@.skip(8) =~= Seq::<u8>::empty());
    }
    while i > 0
        invariant
            i <= LENGTH_BYTES,
            bytes@.len() == LENGTH_BYTES,
            len == le_value(bytes@.skip(i as int)),
        decreases i,
    {
        i -= 1;
        proof {
            let part = bytes@.skip(i as int);
            assert(part.skip(1) =~= bytes@.skip(i + 1));
            lemma_le_value_bound(part);
            lemma_pow_256_8();
            if part.len() < 8 {
                vstd::arithmetic::power::lemma_pow_increases(256, part.len(), 8);
            }
        }
        len = bytes[i] as u64 + 256 * len;
    }
    assert(bytes@.skip(0) =~= bytes@);
    len
}

/// The number that eight bytes stand for, each of them worth 256 times as much as the one before it.
pub open spec fn number(bytes: Seq<u8>) -> int {
    bytes[0] + 0x100 * bytes[1] + 0x1_0000 * bytes[2] + 0x100_0000 * bytes[3] + 0x1_0000_0000
        * bytes[4] + 0x100_0000_0000 * bytes[5] + 0x1_0000_0000_0000 * bytes[6]
        + 0x100_0000_0000_0000 * bytes[7]
}

/// Of eight bytes, the number is the sum of what each of them is worth.
pub proof fn lemma_number(bytes: Seq<u8>)
    requires
        bytes.len() == 8,
    ensures
        le_value(bytes) == number(bytes),
{
    assert forall|i: int| 0 <= i < 8 implies #[trigger] le_value(bytes.skip(i)) == bytes[i] + 256
        * le_value(bytes.skip(i + 1)) by {
        assert(bytes.skip(i).skip(1) =~= bytes.skip(i + 1));
    }
    assert(bytes.skip(0) =~= bytes);
    assert(le_value(bytes.skip(8)) == 0);
    assert(le_value(bytes.skip(7)) == bytes[7]);
    assert(le_value(bytes.skip(6)) == bytes[6] + 256 * le_value(bytes.skip(7)));
    assert(le_value(bytes.skip(5)) == bytes[5] + 256 * le_value(bytes.skip(6)));
    assert(le_value(bytes.skip(4)) == bytes[4] + 256 * le_value(bytes.skip(5)));
    assert(le_value(bytes.skip(3)) == bytes[3] + 256 * le_value(bytes.skip(4)));
    assert(le_value(bytes.skip(2)) == bytes[2] + 256 * le_value(bytes.skip(3)));
    assert(le_value(bytes.skip(1)) == bytes[1] + 256 * le_value(bytes.skip(2)));
    assert(le_value(bytes.skip(0)) == bytes[0] + 256 * le_value(bytes.skip(1)));
}

/// Eight bytes hold the length of any message, and give it back.
pub proof fn lemma_length_bytes(len: nat)
    requires
        len <= u64::MAX,
    ensures
        le_bytes(len, 8).len() == 8,
        number(le_bytes(len, 8)) == len,
{
    lemma_pow_256_8();
    law_length_survives_the_wire(len, 8);
    lemma_number(le_bytes(len, 8));
}

/// A length is written as eight bytes, the lowest first.
pub proof fn law_encode_length(len: u64, bytes: Vec<u8>)
    requires
        call_ensures(encode_length, (len,), bytes),
    ensures
        bytes@.len() == 8,
        number(bytes@) == len,
{
    lemma_length_bytes(len as nat);
}

/// A length is read from eight bytes, the lowest first.
pub proof fn law_decode_length(bytes: Vec<u8>, len: u64)
    requires
        bytes@.len() == 8,
        call_ensures(decode_length, (&bytes,), len),
    ensures
        len == number(bytes@),
{
    lemma_number(bytes@);
}

} // verus!
