//! Splitting of a 252-bit field element, given as little-endian 32-bit words,
//! into 9-bit limbs, one per M31 trace cell.
use vstd::arithmetic::div_mod::*;
use vstd::arithmetic::mul::*;
use vstd::arithmetic::power2::*;
use vstd::bits::*;
use vstd::prelude::*;

verus! {

/// Number of 9-bit limbs of a full field element (28 * 9 = 252 bits).
pub const N_M31_IN_FELT252: usize = 28;

/// Number of 9-bit limbs kept for a small value (72 bits).
pub const N_M31_IN_SMALL_FELT252: usize = 8;

/// Number of 9-bit limbs kept for a relocatable value (72 bits, covering
/// both of its 32-bit words).
pub const N_M31_IN_RELOCATABLE_FELT252: usize = 8;

/// Number of 32-bit words that hold a field element.
pub const N_WORDS_IN_FELT252: usize = 8;

/// The number that little-endian 32-bit words stand for:
/// `w[0] + 2^32 * w[1] + 2^64 * w[2] + ...`.
pub open spec fn words_value(w: Seq<u32>) -> nat
    decreases w.len(),
{
    if w.len() == 0 {
        0
    } else {
        w[0] as nat + pow2(32) * words_value(w.drop_first())
    }
}

/// Limb `k` of the words `w`: bits `9k .. 9k + 9` of their value.
pub open spec fn felt_limb(w: Seq<u32>, k: nat) -> nat {
    (words_value(w) / pow2(9 * k)) % 512
}

/// The value of the first `n` limbs of `w`: `sum_{k < n} limb_k * 2^(9k)`.
pub open spec fn felt_limbs_value(w: Seq<u32>, n: nat) -> nat
    decreases n,
{
    if n == 0 {
        0
    } else {
        felt_limbs_value(w, (n - 1) as nat) + pow2((9 * (n - 1)) as nat) * felt_limb(
            w,
            (n - 1) as nat,
        )
    }
}

/// The four 32-bit words of a `u128`, least significant first.
pub open spec fn u128_limbs(x: u128) -> Seq<u32> {
    seq![
        (x % 0x1_0000_0000) as u32,
        ((x / 0x1_0000_0000) % 0x1_0000_0000) as u32,
        ((x / 0x1_0000_0000_0000_0000) % 0x1_0000_0000) as u32,
        (x / 0x1_0000_0000_0000_0000_0000_0000) as u32,
    ]
}

/// The eight words that a small value occupies: its four words, then zeros.
pub open spec fn small_words(x: u128) -> Seq<u32> {
    u128_limbs(x) + seq![0u32, 0u32, 0u32, 0u32]
}

/// The words of lane `y` of eight packed words.
pub open spec fn lane_words(x: [[u32; 16]; 8], y: int) -> Seq<u32> {
    Seq::new(8, |i: int| x[i][y])
}

/// Dividing the value by `2^(32 i)` drops the first `i` words.
proof fn lemma_words_value_skip(w: Seq<u32>, i: nat)
    requires
        i <= w.len(),
    ensures
        words_value(w) / pow2(32 * i) == words_value(w.skip(i as int)),
    decreases i,
{
    lemma2_to64();
    if i == 0 {
        assert(w.skip(0) =~= w);
        assert(pow2(32 * i) == 1);
        lemma_div_basics(words_value(w) as int);
    } else {
        let rest = words_value(w.drop_first());
        lemma_words_value_skip(w.drop_first(), (i - 1) as nat);
        assert(w.drop_first().skip(i - 1) =~= w.skip(i as int));
        lemma_pow2_adds(32, (32 * (i - 1)) as nat);
        assert(32 + 32 * (i - 1) == 32 * i);
        lemma_pow2_pos((32 * (i - 1)) as nat);
        lemma_div_denominator(words_value(w) as int, pow2(32) as int, pow2((32 * (i - 1)) as nat) as int);
        assert(words_value(w) == pow2(32) * rest + w[0] as nat);
        lemma_div_multiples_vanish_fancy(rest as int, w[0] as int, pow2(32) as int);
        assert(words_value(w) / pow2(32) == rest);
        assert(words_value(w) / pow2(32 * i) == (words_value(w) / pow2(32)) / pow2((32 * (i - 1)) as nat));
    }
}

/// The value of words is below `2^(32 * len)`.
proof fn lemma_words_value_bound(w: Seq<u32>)
    ensures
        words_value(w) < pow2(32 * w.len()),
    decreases w.len(),
{
    lemma2_to64();
    if w.len() > 0 {
        let rest = words_value(w.drop_first());
        lemma_words_value_bound(w.drop_first());
        lemma_pow2_adds(32, (32 * (w.len() - 1)) as nat);
        assert(32 + 32 * (w.len() - 1) == 32 * w.len());
        let p = pow2((32 * (w.len() - 1)) as nat);
        assert(w[0] as nat + pow2(32) * rest < pow2(32) * p) by (nonlinear_arith)
            requires
                w[0] < pow2(32),
                rest < p,
                rest >= 0,
        ;
    }
}

/// Limb `k` can be read from the two words around bit `9k`.
proof fn lemma_limb_from_pair(w: Seq<u32>, k: nat, lo: nat)
    requires
        w.len() == 8,
        k < 28,
        lo == w[((9 * k) / 32) as int] as nat + pow2(32) * (if (9 * k) / 32 + 1 < 8 {
            w[((9 * k) / 32 + 1) as int] as nat
        } else {
            0
        }),
    ensures
        felt_limb(w, k) == (lo / pow2(((9 * k) % 32) as nat)) % 512,
{
    lemma2_to64();
    let at = 9 * k;
    let idx = at / 32;
    let shift = at % 32;
    let v = words_value(w);
    let s = w.skip(idx as int);
    lemma_words_value_skip(w, idx);
    // V / 2^at == (V / 2^(32 idx)) / 2^shift
    lemma_pow2_adds(32 * idx, shift);
    assert(32 * idx + shift == at);
    lemma_pow2_pos(32 * idx);
    lemma_pow2_pos(shift);
    lemma_div_denominator(v as int, pow2(32 * idx) as int, pow2(shift) as int);
    // s = lo + 2^64 * r
    let r: nat = if idx + 2 <= 8 {
        words_value(w.skip(idx + 2int))
    } else {
        0
    };
    assert(words_value(s) == lo + pow2(32) * (pow2(32) * r)) by {
        assert(s[0] == w[idx as int]);
        if idx + 1 < 8 {
            let s1 = s.drop_first();
            assert(s1[0] == w[idx + 1int]);
            assert(s1.drop_first() =~= w.skip(idx + 2int));
            assert(words_value(s1) == w[idx + 1int] as nat + pow2(32) * r);
            lemma_mul_is_distributive_add(pow2(32) as int, w[idx + 1int] as int, (pow2(32) * r) as int);
        } else {
            assert(s.drop_first() =~= Seq::<u32>::empty());
            assert(words_value(s.drop_first()) == 0);
        }
    }
    lemma_pow2_adds(32, 32);
    lemma_pow2_adds(shift, (64 - shift) as nat);
    lemma_pow2_adds(9, (55 - shift) as nat);
    let a = pow2((55 - shift) as nat) * r;
    let j = pow2((64 - shift) as nat) * r;
    assert(pow2(32) * (pow2(32) * r) == j * pow2(shift)) by {
        lemma_mul_is_associative(pow2(32) as int, pow2(32) as int, r as int);
        lemma_mul_is_associative(pow2(shift) as int, pow2((64 - shift) as nat) as int, r as int);
        lemma_mul_is_commutative(pow2(shift) as int, j as int);
    }
    lemma_hoist_over_denominator(lo as int, j as int, pow2(shift));
    assert(j == 512 * a) by {
        lemma_mul_is_associative(pow2(9) as int, pow2((55 - shift) as nat) as int, r as int);
    }
    lemma_mod_multiples_vanish(a as int, (lo / pow2(shift)) as int, 512);
}

/// Law: the limbs put back together give the value, up to the bits above
/// `9n`: `sum_{k < n} limb_k * 2^(9k) == value mod 2^(9n)`.
pub proof fn lemma_felt_limbs_recompose(w: Seq<u32>, n: nat)
    ensures
        felt_limbs_value(w, n) == words_value(w) % pow2(9 * n),
    decreases n,
{
    lemma2_to64();
    if n == 0 {
        assert(pow2(9 * n) == 1);
    } else {
        let m = (n - 1) as nat;
        lemma_felt_limbs_recompose(w, m);
        lemma_pow2_adds(9 * m, 9);
        assert(9 * m + 9 == 9 * n);
        lemma_pow2_pos(9 * m);
        lemma_mod_breakdown(words_value(w) as int, pow2(9 * m) as int, 512);
    }
}

/// Law: a field element below `2^252` is exactly the sum of its 28 limbs.
pub proof fn lemma_felt252_recompose(w: Seq<u32>)
    requires
        words_value(w) < pow2(252),
    ensures
        felt_limbs_value(w, 28) == words_value(w),
{
    lemma_felt_limbs_recompose(w, 28);
    lemma_small_mod(words_value(w), pow2(252));
}

/// Law: the words of a small value stand for the value itself.
pub proof fn lemma_small_words_value(x: u128)
    ensures
        words_value(small_words(x)) == x,
{
    lemma2_to64();
    let w = small_words(x);
    reveal_with_fuel(words_value, 9);
    assert(w.drop_first() =~= seq![w[1], w[2], w[3], 0u32, 0u32, 0u32, 0u32]);
    assert(w.drop_first().drop_first() =~= seq![w[2], w[3], 0u32, 0u32, 0u32, 0u32]);
    assert(w.drop_first().drop_first().drop_first() =~= seq![w[3], 0u32, 0u32, 0u32, 0u32]);
    assert(w.drop_first().drop_first().drop_first().drop_first() =~= seq![0u32, 0u32, 0u32, 0u32]);
    let z = seq![0u32, 0u32, 0u32, 0u32];
    assert(z.drop_first() =~= seq![0u32, 0u32, 0u32]);
    assert(z.drop_first().drop_first() =~= seq![0u32, 0u32]);
    assert(z.drop_first().drop_first().drop_first() =~= seq![0u32]);
    assert(z.drop_first().drop_first().drop_first().drop_first() =~= Seq::<u32>::empty());
    assert(words_value(z) == 0);
}

/// Law: the limbs of a small value are the 9-bit limbs of the integer itself.
pub proof fn lemma_small_limb(x: u128, k: nat)
    ensures
        felt_limb(small_words(x), k) == (x as nat / pow2(9 * k)) % 512,
{
    lemma_small_words_value(x);
}

/// Splits a `u128` into four 32-bit words, least significant first.
pub fn u128_to_4_limbs(x: u128) -> (res: [u32; 4])
    ensures
        res@ == u128_limbs(x),
{
    let mask: u128 = 0xffff_ffff;
    let l0 = (x & mask) as u32;
    let l1 = ((x >> 32u128) & mask) as u32;
    let l2 = ((x >> 64u128) & mask) as u32;
    let l3 = (x >> 96u128) as u32;
    proof {
        assert(x & 0xffff_ffff == x % 0x1_0000_0000) by (bit_vector);
        assert((x >> 32u128) & 0xffff_ffff == (x / 0x1_0000_0000) % 0x1_0000_0000) by (bit_vector);
        assert((x >> 64u128) & 0xffff_ffff == (x / 0x1_0000_0000_0000_0000) % 0x1_0000_0000)
            by (bit_vector);
        assert(x >> 96u128 == x / 0x1_0000_0000_0000_0000_0000_0000) by (bit_vector);
    }
    let res = [l0, l1, l2, l3];
    assert(res@ =~= u128_limbs(x));
    res
}

/// Splits a field element, given as eight little-endian 32-bit words, into
/// its 28 limbs of 9 bits each (the bits above 252 are dropped).
pub fn split_f252(x: [u32; 8]) -> (res: [u32; 28])
    ensures
        forall|k: int| 0 <= k < 28 ==> res[k] as nat == felt_limb(x@, k as nat),
        forall|k: int| 0 <= k < 28 ==> res[k] < 512,
{
    let mut res = [0u32; 28];
    let mut k: usize = 0;
    while k < 28
        invariant
            k <= 28,
            forall|j: int| 0 <= j < k ==> res[j] as nat == felt_limb(x@, j as nat),
        decreases 28 - k,
    {
        let at = 9 * k;
        let idx = at / 32;
        let shift = at % 32;
        let hi: u64 = if idx + 1 < 8 {
            x[idx + 1] as u64
        } else {
            0
        };
        let w: u64 = x[idx] as u64;
        let lo: u64 = w | (hi << 32u64);
        let sh: u64 = shift as u64;
        let shifted: u64 = lo >> sh;
        let limb64: u64 = shifted & 0x1ff;
        proof {
            assert(w | (hi << 32u64) == w + hi * 0x1_0000_0000) by (bit_vector)
                requires
                    w < 0x1_0000_0000,
                    hi < 0x1_0000_0000,
            ;
            assert(shifted & 0x1ff == shifted % 512) by (bit_vector);
            lemma_u64_shr_is_div(lo, sh);
            lemma2_to64();
            lemma_limb_from_pair(x@, k as nat, lo as nat);
        }
        res[k] = limb64 as u32;
        k = k + 1;
    }
    proof {
        assert forall|k: int| 0 <= k < 28 implies res[k] < 512 by {
            assert(felt_limb(x@, k as nat) < 512);
        }
    }
    res
}

/// Lane-wise `split_f252`: packed words in, packed limbs out.
pub fn split_f252_simd(x: &[[u32; 16]; 8]) -> (res: [[u32; 16]; 28])
    ensures
        forall|k: int, y: int|
            0 <= k < 28 && 0 <= y < 16 ==> #[trigger] res[k][y] as nat == felt_limb(
                lane_words(*x, y),
                k as nat,
            ),
        forall|k: int, y: int| 0 <= k < 28 && 0 <= y < 16 ==> #[trigger] res[k][y] < 512,
{
    let mut lanes: Vec<[u32; 28]> = Vec::new();
    let mut y: usize = 0;
    while y < 16
        invariant
            y <= 16,
            lanes.len() == y,
            forall|l: int, k: int|
                0 <= l < y && 0 <= k < 28 ==> #[trigger] lanes[l][k] as nat == felt_limb(
                    lane_words(*x, l),
                    k as nat,
                ),
            forall|l: int, k: int| 0 <= l < y && 0 <= k < 28 ==> #[trigger] lanes[l][k] < 512,
        decreases 16 - y,
    {
        let mut w = [0u32; 8];
        let mut i: usize = 0;
        while i < 8
            invariant
                i <= 8,
                y < 16,
                forall|j: int| 0 <= j < i ==> w[j] == x[j][y as int],
            decreases 8 - i,
        {
            w[i] = x[i][y];
            i = i + 1;
        }
        assert(w@ =~= lane_words(*x, y as int));
        lanes.push(split_f252(w));
        y = y + 1;
    }
    let mut res = [[0u32; 16]; 28];
    let mut k: usize = 0;
    while k < 28
        invariant
            k <= 28,
            lanes.len() == 16,
            forall|l: int, j: int|
                0 <= l < 16 && 0 <= j < 28 ==> #[trigger] lanes[l][j] as nat == felt_limb(
                    lane_words(*x, l),
                    j as nat,
                ),
            forall|l: int, j: int| 0 <= l < 16 && 0 <= j < 28 ==> #[trigger] lanes[l][j] < 512,
            forall|j: int, l: int| 0 <= j < k && 0 <= l < 16 ==> #[trigger] res[j][l] == lanes[l][j],
        decreases 28 - k,
    {
        let mut row = [0u32; 16];
        let mut l: usize = 0;
        while l < 16
            invariant
                l <= 16,
                k < 28,
                lanes.len() == 16,
                forall|m: int| 0 <= m < l ==> row[m] == lanes[m][k as int],
            decreases 16 - l,
        {
            row[l] = lanes[l][k];
            l = l + 1;
        }
        res[k] = row;
        k = k + 1;
    }
    res
}

} // verus!
