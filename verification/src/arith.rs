//! Integer helpers used by the table layout: rounding up to a multiple,
//! the next power of two and the base-2 logarithm.
use vstd::arithmetic::div_mod::*;
use vstd::arithmetic::power2::*;
use vstd::prelude::*;

verus! {

/// Whether `n` is a power of two.
pub open spec fn is_pow2(n: nat) -> bool
    decreases n,
{
    if n == 1 {
        true
    } else if n == 0 || n % 2 == 1 {
        false
    } else {
        is_pow2(n / 2)
    }
}

/// `r` is the least power of two that is at least `n`.
pub open spec fn is_next_pow2(n: nat, r: nat) -> bool {
    &&& is_pow2(r)
    &&& n <= r
    &&& (r == 1 || r / 2 < n)
}

/// The least power of two that is at least `n`.
pub open spec fn next_pow2(n: nat) -> nat
    decreases n,
{
    if n <= 1 {
        1
    } else {
        2 * next_pow2(((n + 1) / 2) as nat)
    }
}

/// The greatest power of two that is at most `n` (1 for `n <= 1`).
pub open spec fn pow2_floor(n: nat) -> nat
    decreases n,
{
    if n <= 1 {
        1
    } else {
        2 * pow2_floor(n / 2)
    }
}

/// `pow2(r)` is the greatest power of two at most `n` when `n` lies in
/// `pow2(r) .. pow2(r + 1)`.
pub proof fn lemma_pow2_floor(n: nat, r: nat)
    requires
        pow2(r) <= n < pow2(r + 1),
    ensures
        pow2(r) == pow2_floor(n),
    decreases r,
{
    lemma2_to64();
    if r > 0 {
        lemma_pow2_adds(1, (r - 1) as nat);
        lemma_pow2_adds(1, r);
        assert(r - 1 + 1 == r);
        lemma_pow2_floor(n / 2, (r - 1) as nat);
    }
}

/// A power of two is its own greatest power of two.
pub proof fn lemma_pow2_floor_of_pow2(n: nat)
    requires
        is_pow2(n),
    ensures
        pow2_floor(n) == n,
    decreases n,
{
    if n > 1 {
        lemma_pow2_floor_of_pow2(n / 2);
    }
}

/// `ceil(p / 16)` of a power of two `p` is a power of two.
pub proof fn lemma_pow2_packed(p: nat)
    requires
        is_pow2(p),
    ensures
        is_pow2((p + 15) / 16),
{
    if p >= 16 {
        lemma_pow2_even(p);
        lemma_pow2_even(p / 2);
        lemma_pow2_even(p / 4);
        lemma_pow2_even(p / 8);
        assert((p + 15) / 16 == p / 16);
    } else {
        assert((p + 15) / 16 == 1);
    }
}

/// There is one least power of two at least `n`: `next_pow2(n)`.
pub proof fn lemma_next_pow2_unique(n: nat, r: nat)
    requires
        is_next_pow2(n, r),
    ensures
        r == next_pow2(n),
    decreases n,
{
    if n > 1 {
        assert(r != 1);
        lemma_pow2_even(r);
        let h = r / 2;
        if h != 1 {
            lemma_pow2_even(h);
        }
        assert(is_next_pow2(((n + 1) / 2) as nat, h));
        lemma_next_pow2_unique(((n + 1) / 2) as nat, h);
    }
}

/// A power of two is `pow2(e)` for some `e`.
pub proof fn lemma_is_pow2_exp(n: nat) -> (e: nat)
    requires
        is_pow2(n),
    ensures
        pow2(e) == n,
    decreases n,
{
    lemma2_to64();
    if n == 1 {
        0
    } else {
        let e1 = lemma_is_pow2_exp(n / 2);
        lemma_pow2_adds(1, e1);
        e1 + 1
    }
}

/// The logarithm of a power of two is exact.
pub proof fn lemma_pow2_log(n: nat, r: nat)
    requires
        is_pow2(n),
        pow2(r) <= n < pow2(r + 1),
    ensures
        pow2(r) == n,
{
    let e = lemma_is_pow2_exp(n);
    if e < r {
        lemma_pow2_strictly_increases(e, r);
    } else if e > r + 1 {
        lemma_pow2_strictly_increases(r + 1, e);
    }
}

/// `next_pow2(n)` is a power of two.
pub proof fn lemma_next_pow2_is_pow2(n: nat)
    ensures
        is_pow2(next_pow2(n)),
    decreases n,
{
    if n > 1 {
        lemma_next_pow2_is_pow2(((n + 1) / 2) as nat);
        lemma_is_pow2_double(next_pow2(((n + 1) / 2) as nat));
    }
}

/// Sixteen times a power of two is a power of two.
pub proof fn lemma_is_pow2_times_16(p: nat)
    requires
        is_pow2(p),
    ensures
        is_pow2(16 * p),
{
    lemma_is_pow2_double(p);
    lemma_is_pow2_double(2 * p);
    lemma_is_pow2_double(4 * p);
    lemma_is_pow2_double(8 * p);
}

/// The least multiple of `m` that is at least `n`.
pub open spec fn round_up(n: nat, m: nat) -> nat
    recommends
        m > 0,
{
    if n % m == 0 {
        n
    } else {
        n + (m - n % m) as nat
    }
}

/// `round_up` is a multiple of `m` within `m - 1` of `n`.
pub proof fn lemma_round_up(n: nat, m: nat)
    requires
        m > 0,
    ensures
        round_up(n, m) % m == 0,
        n <= round_up(n, m) < n + m,
        n % m == 0 ==> round_up(n, m) == n,
{
    if n % m != 0 {
        lemma_fundamental_div_mod(n as int, m as int);
        let q = n / m;
        assert(round_up(n, m) == m * q + m);
        vstd::arithmetic::mul::lemma_mul_is_distributive_add(m as int, q as int, 1);
        lemma_mod_multiples_basic((q + 1) as int, m as int);
        vstd::arithmetic::mul::lemma_mul_is_commutative(m as int, (q + 1) as int);
    }
}

/// The least multiple of `m` that is at least `n` (`usize::next_multiple_of`).
pub fn next_multiple_of(n: usize, m: usize) -> (r: usize)
    requires
        m > 0,
        n + m <= usize::MAX,
    ensures
        r == round_up(n as nat, m as nat),
{
    proof {
        lemma_round_up(n as nat, m as nat);
    }
    let rem = n % m;
    if rem == 0 {
        n
    } else {
        n + (m - rem)
    }
}

/// Doubling a power of two gives a power of two.
proof fn lemma_is_pow2_double(p: nat)
    requires
        is_pow2(p),
    ensures
        is_pow2(2 * p),
{
    assert((2 * p) % 2 == 0);
    assert((2 * p) / 2 == p);
}

/// Every power of two is `pow2(e)` for some `e`; this gives one direction.
pub proof fn lemma_pow2_is_pow2(e: nat)
    ensures
        is_pow2(pow2(e)),
    decreases e,
{
    lemma2_to64();
    if e > 0 {
        lemma_pow2_is_pow2((e - 1) as nat);
        lemma_pow2_adds(1, (e - 1) as nat);
        lemma_is_pow2_double(pow2((e - 1) as nat));
    }
}

/// A power of two other than 1 is even.
proof fn lemma_pow2_even(p: nat)
    requires
        is_pow2(p),
        p != 1,
    ensures
        p % 2 == 0,
        p >= 2,
        is_pow2(p / 2),
{
}

/// The least power of two that is at least `n` (`usize::next_power_of_two`).
pub fn next_power_of_two(n: usize) -> (r: usize)
    requires
        n <= usize::MAX / 2 + 1,
    ensures
        is_next_pow2(n as nat, r as nat),
        r == next_pow2(n as nat),
{
    let mut p: usize = 1;
    while p < n
        invariant
            is_pow2(p as nat),
            1 <= p,
            n <= usize::MAX / 2 + 1,
            p == 1 || p / 2 < n,
        decreases usize::MAX - p,
    {
        proof {
            lemma_is_pow2_double(p as nat);
        }
        p = p * 2;
    }
    proof {
        lemma_next_pow2_unique(n as nat, p as nat);
    }
    p
}

/// The base-2 logarithm of a positive `n`, rounded down (`usize::ilog2`).
pub fn ilog2(n: usize) -> (r: u32)
    requires
        n > 0,
    ensures
        pow2(r as nat) <= n < pow2(r as nat + 1),
        r < usize::BITS,
{
    let mut m: usize = n;
    let mut r: u32 = 0;
    proof {
        lemma2_to64();
        lemma_div_basics(n as int);
    }
    while m > 1
        invariant
            m >= 1,
            m == n as nat / pow2(r as nat),
            pow2(r as nat) <= n,
            r < usize::BITS,
            n as nat >= m * pow2(r as nat),
        decreases m,
    {
        proof {
            lemma2_to64();
            lemma_pow2_pos(r as nat);
            lemma_pow2_adds(r as nat, 1);
            lemma_div_denominator(n as int, pow2(r as nat) as int, 2);
            vstd::arithmetic::mul::lemma_mul_is_commutative(pow2(r as nat) as int, 2);
            lemma_fundamental_div_mod(n as int, pow2(r as nat + 1) as int);
            assert(n as nat >= (m / 2) * pow2(r as nat + 1)) by (nonlinear_arith)
                requires
                    n as nat >= m * pow2(r as nat),
                    pow2(r as nat + 1) == pow2(r as nat) * 2,
                    m >= 2,
            {
                assert((m / 2) * 2 <= m);
            }
            assert(pow2(r as nat + 1) <= n) by (nonlinear_arith)
                requires
                    n as nat >= (m / 2) * pow2(r as nat + 1),
                    m / 2 >= 1,
                    pow2(r as nat + 1) > 0,
            ;
            if r + 1 >= usize::BITS {
                if r + 1 > usize::BITS {
                    lemma_pow2_strictly_increases(usize::BITS as nat, r as nat + 1);
                }
                if usize::BITS == 64 {
                    lemma2_to64_rest();
                }
                assert(pow2(usize::BITS as nat) > usize::MAX);
                assert(false);
            }
        }
        m = m / 2;
        r = r + 1;
    }
    proof {
        lemma_pow2_pos(r as nat);
        lemma_pow2_adds(r as nat, 1);
        lemma_fundamental_div_mod(n as int, pow2(r as nat) as int);
        lemma2_to64();
        let pr = pow2(r as nat);
        assert(n as nat / pr == 1);
        assert(pr * (n as nat / pr) == pr);
        lemma_mod_bound(n as int, pr as int);
        assert(n < pow2(r as nat + 1));
    }
    r
}

} // verus!
