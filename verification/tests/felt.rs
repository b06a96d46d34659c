use memory_id_to_big::felt::{split_f252, split_f252_simd, u128_to_4_limbs};

fn value_limbs(words: [u32; 8]) -> [u32; 28] {
    split_f252(words)
}

#[test]
fn split_f252_of_one() {
    let limbs = value_limbs([1, 0, 0, 0, 0, 0, 0, 0]);
    assert_eq!(limbs[0], 1);
    assert!(limbs[1..].iter().all(|l| *l == 0));
}

#[test]
fn split_f252_across_a_word_boundary() {
    let limbs = value_limbs([0xffff_ffff, 1, 0, 0, 0, 0, 0, 0]);
    assert_eq!(&limbs[..6], &[511, 511, 511, 63, 0, 0]);
}

#[test]
fn split_f252_of_mixed_words() {
    let w = [
        0x12345678, 0x9abcdef0, 0x0fedcba9, 0x87654321, 0x11111111, 0x22222222, 0x33333333,
        0x44444444,
    ];
    let expected: [u32; 28] = [
        120, 43, 141, 2, 495, 486, 106, 339, 459, 502, 67, 100, 84, 59, 70, 34, 273, 264, 136, 68,
        34, 409, 204, 102, 51, 34, 273, 136,
    ];
    assert_eq!(value_limbs(w), expected);
}

#[test]
fn split_f252_limbs_recompose_the_value() {
    // A value below 2^252: the limbs put back together give the words again.
    let w = [0xdead_beef, 0x0123_4567, 0x89ab_cdef, 7, 0, 1, 2, 0x0fff_ffff];
    let limbs = value_limbs(w);
    let mut words = [0u64; 9];
    for (k, l) in limbs.iter().enumerate() {
        assert!(*l < 512);
        let bit = 9 * k;
        let idx = bit / 32;
        let shift = bit % 32;
        let v = (*l as u64) << shift;
        words[idx] += v & 0xffff_ffff;
        words[idx + 1] += v >> 32;
    }
    for i in 0..8 {
        assert_eq!(words[i], w[i] as u64);
    }
}

#[test]
fn split_f252_drops_the_top_four_bits() {
    let limbs = value_limbs([0, 0, 0, 0, 0, 0, 0, 0xf000_0000]);
    assert!(limbs.iter().all(|l| *l == 0));
    let limbs = value_limbs([0, 0, 0, 0, 0, 0, 0, 0x0800_0000]);
    assert_eq!(limbs[27], 256);
}

#[test]
fn split_f252_simd_works_lane_by_lane() {
    let mut words = [[0u32; 16]; 8];
    for y in 0..16 {
        words[0][y] = y as u32 * 1000;
        words[1][y] = y as u32;
    }
    let res = split_f252_simd(&words);
    for y in 0..16 {
        let mut w = [0u32; 8];
        for i in 0..8 {
            w[i] = words[i][y];
        }
        let limbs = split_f252(w);
        for k in 0..28 {
            assert_eq!(res[k][y], limbs[k]);
        }
    }
}

#[test]
fn u128_to_4_limbs_is_little_endian() {
    let x: u128 = 0x0123456789abcdef_fedcba9876543210;
    assert_eq!(u128_to_4_limbs(x), [0x76543210, 0xfedcba98, 0x89abcdef, 0x01234567]);
    assert_eq!(u128_to_4_limbs(0), [0, 0, 0, 0]);
    assert_eq!(u128_to_4_limbs(u128::MAX), [u32::MAX; 4]);
}

#[test]
fn small_value_limbs_are_the_limbs_of_the_integer() {
    let x: u128 = (1 << 64) + 5;
    let l = u128_to_4_limbs(x);
    let limbs = split_f252([l[0], l[1], l[2], l[3], 0, 0, 0, 0]);
    assert_eq!(&limbs[..9], &[5, 0, 0, 0, 0, 0, 0, 2, 0]);
}
