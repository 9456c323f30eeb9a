//! Powers of two, and rounding an address to a boundary by masking.

use vstd::arithmetic::power2::pow2;
use vstd::prelude::*;

verus! {

/// `x` is two to some power.
pub open spec fn is_pow2(x: int) -> bool {
    exists|k: nat| x == #[trigger] pow2(k)
}

/// The largest multiple of `align` that is not above `x`.
pub open spec fn round_down(x: int, align: int) -> int {
    x - x % align
}

/// The smallest multiple of `align` that is not below `x`.
pub open spec fn round_up(x: int, align: int) -> int {
    round_down(x + align - 1, align)
}

/// What is left of `x` in a machine word, as wrapping arithmetic leaves it.
pub open spec fn wrapped(x: int) -> int {
    x % (usize::MAX + 1)
}

/// A word with exactly one bit set is a power of two.
proof fn lemma_single_bit_is_pow2(x: u64)
    requires
        x != 0,
        x & ((x - 1) as u64) == 0,
    ensures
        is_pow2(x as int),
    decreases x,
{
    if x == 1 {
        vstd::arithmetic::power2::lemma2_to64();
        assert(x == pow2(0));
    } else {
        let half = x >> 1;
        assert(half < x && half != 0 && x == 2 * half && half & ((half - 1) as u64) == 0)
            by (bit_vector)
            requires
                x != 0,
                x != 1,
                x & ((x - 1) as u64) == 0,
                half == x >> 1,
        ;
        lemma_single_bit_is_pow2(half);
        let k = choose|k: nat| half == #[trigger] pow2(k);
        vstd::arithmetic::power2::lemma_pow2_unfold(k + 1);
        assert(x == pow2(k + 1));
    }
}

/// A power of two that fits in a word is a single bit of it.
pub proof fn lemma_pow2_is_shift(x: u64) -> (k: u64)
    requires
        is_pow2(x as int),
    ensures
        k < 64,
        x == pow2(k as nat),
        x == 1u64 << k,
{
    let n = choose|n: nat| x == #[trigger] pow2(n);
    if n >= 64 {
        vstd::arithmetic::power2::lemma2_to64();
        vstd::arithmetic::power2::lemma2_to64_rest();
        if n > 64 {
            vstd::arithmetic::power2::lemma_pow2_strictly_increases(64, n);
        }
    }
    let k = n as u64;
    vstd::bits::lemma_u64_pow2_no_overflow(n);
    vstd::bits::lemma_u64_shl_is_mul(1, k);
    k
}

/// Whether `x` is a power of two.
pub fn is_power_of_two(x: u64) -> (yes: bool)
    ensures
        yes == is_pow2(x as int),
{
    proof {
        if x != 0 && x & ((x - 1) as u64) == 0 {
            lemma_single_bit_is_pow2(x);
        }
        if is_pow2(x as int) {
            let k = lemma_pow2_is_shift(x);
            assert(x != 0 && x & ((x - 1) as u64) == 0) by (bit_vector)
                requires
                    k < 64,
                    x == 1u64 << k,
            ;
        }
    }
    x != 0 && (x & (x - 1)) == 0
}

/// Clearing the bits below a power of two rounds down to a multiple of it.
pub proof fn lemma_mask_rounds_down(x: u64, align: u64)
    requires
        is_pow2(align as int),
    ensures
        align > 0,
        x & !((align - 1) as u64) == round_down(x as int, align as int),
{
    let k = lemma_pow2_is_shift(align);
    vstd::arithmetic::power2::lemma_pow2_pos(k as nat);
    vstd::bits::lemma_u64_low_bits_mask_is_mod(x, k as nat);
    let mask = (align - 1) as u64;
    assert(x & !mask == x - (x & mask)) by (bit_vector);
}

/// Clearing the bits of any mask takes at most the mask away.
pub proof fn lemma_mask_bounds(x: u64, mask: u64)
    ensures
        x & !mask <= x,
        x <= (x & !mask) + mask,
{
    assert(x & !mask <= x && x <= (x & !mask) + mask) by (bit_vector);
}

/// A multiple of `m` adds nothing to a remainder.
pub proof fn lemma_mod_shift(x: int, y: int, m: int)
    requires
        m > 0,
        x % m == 0,
    ensures
        (x + y) % m == y % m,
{
    vstd::arithmetic::div_mod::lemma_fundamental_div_mod(x, m);
    vstd::arithmetic::div_mod::lemma_mod_multiples_vanish(x / m, y, m);
}

/// A multiple of a multiple is a multiple.
pub proof fn lemma_mod_trans(x: int, b: int, a: int)
    requires
        a > 0,
        b > 0,
        x % b == 0,
        b % a == 0,
    ensures
        x % a == 0,
{
    vstd::arithmetic::div_mod::lemma_fundamental_div_mod(x, b);
    vstd::arithmetic::div_mod::lemma_fundamental_div_mod(b, a);
    let q = x / b;
    let p = b / a;
    assert(x == (p * q) * a) by (nonlinear_arith)
        requires
            x == b * q,
            b == a * p,
    ;
    vstd::arithmetic::div_mod::lemma_mod_multiples_basic(p * q, a);
}

/// Of two powers of two, the smaller divides the larger.
pub proof fn lemma_pow2_divides(a: int, b: int)
    requires
        is_pow2(a),
        is_pow2(b),
        a <= b,
    ensures
        a > 0,
        b % a == 0,
{
    lemma_pow2_positive(a);
    lemma_pow2_positive(b);
    let i = choose|k: nat| a == #[trigger] pow2(k);
    let j = choose|k: nat| b == #[trigger] pow2(k);
    if j < i {
        vstd::arithmetic::power2::lemma_pow2_strictly_increases(j, i);
    }
    let d = (j - i) as nat;
    vstd::arithmetic::power2::lemma_pow2_adds(d, i);
    vstd::arithmetic::div_mod::lemma_mod_multiples_basic(
        pow2(d) as int,
        a,
    );
}

/// A power of two is not zero.
pub proof fn lemma_pow2_positive(a: int)
    requires
        is_pow2(a),
    ensures
        a > 0,
{
    let i = choose|k: nat| a == #[trigger] pow2(k);
    vstd::arithmetic::power2::lemma_pow2_pos(i);
}

/// Rounding up gives the next multiple.
pub proof fn lemma_round_up(x: int, m: int)
    requires
        m > 0,
    ensures
        round_up(x, m) % m == 0,
        x <= round_up(x, m) < x + m,
        x % m == 0 ==> round_up(x, m) == x,
{
    let y = x + m - 1;
    vstd::arithmetic::div_mod::lemma_fundamental_div_mod(y, m);
    vstd::arithmetic::div_mod::lemma_mod_multiples_basic(y / m, m);
    assert(round_down(y, m) == (y / m) * m) by {
        vstd::arithmetic::mul::lemma_mul_is_commutative(y / m, m);
    }
    vstd::arithmetic::div_mod::lemma_mod_bound(y, m);
    if x % m == 0 {
        lemma_mod_shift(x, m - 1, m);
        vstd::arithmetic::div_mod::lemma_small_mod((m - 1) as nat, m as nat);
    }
}

/// Rounding up leaves a multiple alone, and rounds what is added to it.
pub proof fn lemma_round_up_shift(x: int, y: int, m: int)
    requires
        m > 0,
        x % m == 0,
    ensures
        round_up(x + y, m) == x + round_up(y, m),
{
    lemma_mod_shift(x, y + m - 1, m);
}

/// Rounding up keeps the order.
pub proof fn lemma_round_up_monotonic(x: int, y: int, m: int)
    requires
        m > 0,
        x <= y,
    ensures
        round_up(x, m) <= round_up(y, m),
{
    lemma_round_up(x, m);
    lemma_round_up(y, m);
    let a = round_up(x, m);
    let b = round_up(y, m);
    if a > b {
        lemma_mod_shift(b, a - b, m);
        vstd::arithmetic::div_mod::lemma_small_mod((a - b) as nat, m as nat);
    }
}

/// Exactly the powers of two are told to be powers of two.
pub proof fn law_is_power_of_two(x: u64, yes: bool)
    requires
        call_ensures(is_power_of_two, (x,), yes),
    ensures
        yes <==> exists|k: nat| x == #[trigger] pow2(k),
{
}

} // verus!
