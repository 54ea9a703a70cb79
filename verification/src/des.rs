//! The first steps of DES: the initial permutation of a 64-bit block and the
//! two permuted choices of the key schedule.
//!
//! Bits are numbered from the least significant one (bit `0`). The permuted
//! choice tables use the DES convention, where entry `p` (from `1` to `64`)
//! names bit `64 - p`, the `p`-th bit counted from the most significant end.
use vstd::prelude::*;

verus! {

/// Bit `p` of a 64-bit word.
pub open spec fn bit64(x: u64, p: int) -> bool {
    ((x >> (p as u64)) & 1) == 1
}

/// Bit `p` of a 32-bit word.
pub open spec fn bit32(x: u32, p: int) -> bool {
    ((x >> (p as u32)) & 1) == 1
}

/// The bit of the text that the initial permutation moves to bit `k` of the
/// left half (`odd == 0`) or the right half (`odd == 1`): for `k = 8i + j`,
/// bit `2i + odd` of byte `j` of the text in big-endian order.
pub open spec fn ip_source(k: int, odd: int) -> int {
    56 - 8 * (k % 8) + 2 * (k / 8) + odd
}

proof fn lemma_byte_bit(text: u64, i: u64, j: u64, odd: u64)
    requires
        i < 4,
        j < 8,
        odd < 2,
    ensures
        ((((text >> ((56 - 8 * j) as u64)) as u8) & ((1u8 << odd) << ((2 * i) as u64))) == ((1u8 << odd) << ((2 * i) as u64)))
            == (((text >> ((56 - 8 * j + 2 * i + odd) as u64)) & 1) == 1),
{
    assert(((((text >> ((56 - 8 * j) as u64)) as u8) & ((1u8 << odd) << ((2 * i) as u64))) == ((1u8 << odd) << ((2
        * i) as u64))) == (((text >> ((56 - 8 * j + 2 * i + odd) as u64)) & 1) == 1)) by (bit_vector)
        requires
            i < 4,
            j < 8,
            odd < 2,
    ;
}

proof fn lemma_set_bit32(l: u32, k: u32, t: u32)
    requires
        k < 32,
        t < 32,
    ensures
        t != k ==> (((l | (1u32 << k)) >> t) & 1) == ((l >> t) & 1),
        t == k ==> (((l | (1u32 << k)) >> t) & 1) == 1,
{
    assert(t != k ==> (((l | (1u32 << k)) >> t) & 1) == ((l >> t) & 1)) by (bit_vector)
        requires k < 32, t < 32;
    assert(t == k ==> (((l | (1u32 << k)) >> t) & 1) == 1) by (bit_vector)
        requires k < 32, t < 32;
}

/// One half of the initial permutation.
fn ip_half(text: u64, odd: u64) -> (half: u32)
    requires
        odd < 2,
    ensures
        forall|k: int| 0 <= k < 32 ==> #[trigger] bit32(half, k) == bit64(text, ip_source(k, odd as int)),
{
    let mut half: u32 = 0;
    let mut selection_bit: u8 = 1u8 << odd;
    let mut i: u64 = 0;
    proof {
        assert(((1u8 << odd) << 0u64) == (1u8 << odd)) by (bit_vector);
        assert forall|t: u32| t < 32 implies ((0u32 >> t) & 1) == 0 by {
            assert(((0u32 >> t) & 1) == 0) by (bit_vector);
        }
    }
    while i < 4
        invariant
            i <= 4,
            odd < 2,
            selection_bit == ((1u8 << odd) << ((2 * i) as u64)) || i == 4,
            forall|k: int| 0 <= k < 8 * i ==> #[trigger] bit32(half, k) == bit64(text, ip_source(k, odd as int)),
            forall|t: u32| 8 * i <= t < 32 ==> ((half >> t) & 1) == 0,
        decreases 4 - i,
    {
        let mut j: u64 = 0;
        while j < 8
            invariant
                i < 4,
                j <= 8,
                odd < 2,
                selection_bit == ((1u8 << odd) << ((2 * i) as u64)),
                forall|k: int| 0 <= k < 8 * i + j ==> #[trigger] bit32(half, k) == bit64(text, ip_source(k, odd as int)),
                forall|t: u32| 8 * i + j <= t < 32 ==> ((half >> t) & 1) == 0,
            decreases 8 - j,
        {
            let byte = (text >> ((56 - 8 * j) as u64)) as u8;
            let k = (8 * i + j) as u32;
            proof {
                lemma_byte_bit(text, i, j, odd);
                assert(ip_source(k as int, odd as int) == 56 - 8 * j + 2 * i + odd);
            }
            let old_half = half;
            proof {
                assert(((old_half >> k) & 1) == 0);
            }
            if (byte & selection_bit) == selection_bit {
                half = half | (1u32 << k);
            }
            proof {
                assert forall|t: u32| t < 32 && t != k implies ((half >> t) & 1) == ((old_half >> t) & 1) by {
                    lemma_set_bit32(old_half, k, t);
                }
                lemma_set_bit32(old_half, k, k);
                assert(bit32(half, k as int) == bit64(text, ip_source(k as int, odd as int)));
                assert forall|q: int| 0 <= q < 8 * i + j + 1 implies #[trigger] bit32(half, q) == bit64(text, ip_source(q, odd as int)) by {
                    if q != k {
                        let qq = q as u32;
                        assert(((half >> qq) & 1) == ((old_half >> qq) & 1));
                        assert(bit32(half, q) == bit32(old_half, q));
                    }
                }
            }
            j = j + 1;
        }
        if i < 3 {
            selection_bit = selection_bit << 2u8;
            proof {
                assert(selection_bit == ((1u8 << odd) << ((2 * (i + 1)) as u64))) by (bit_vector)
                    requires selection_bit == ((1u8 << odd) << ((2 * i) as u64)) << 2u8, i < 3, odd < 2;
            }
        }
        i = i + 1;
    }
    half
}

/// The initial permutation of DES as this library numbers it: bit `8i + j` of
/// the left half is bit `2i` of byte `j` of the text (bytes in big-endian order),
/// and the right half takes bit `2i + 1` of the same byte.
pub fn initial_permutation(text: u64) -> (halves: (u32, u32))
    ensures
        forall|k: int| 0 <= k < 32 ==> #[trigger] bit32(halves.0, k) == bit64(text, ip_source(k, 0)),
        forall|k: int| 0 <= k < 32 ==> #[trigger] bit32(halves.1, k) == bit64(text, ip_source(k, 1)),
{
    let l_0 = ip_half(text, 0);
    let r_0 = ip_half(text, 1);
    (l_0, r_0)
}


/// Permuted choice 1, bits of the `C` half.
pub const PC1_C_0: [u8; 28] = [
    57, 49, 41, 33, 25, 17, 9,
    1, 58, 50, 42, 34, 26, 18,
    10, 2, 59, 51, 43, 35, 27,
    19, 11, 3, 60, 52, 44, 36,
];

/// Permuted choice 1, bits of the `D` half.
pub const PC1_D_0: [u8; 28] = [
    63, 55, 47, 39, 31, 23, 15,
    7, 62, 54, 46, 38, 30, 22,
    14, 6, 61, 53, 45, 37, 29,
    21, 13, 5, 28, 20, 12, 4,
];

/// Permuted choice 2, from the 56 bits of `C ‖ D` to the 48 bits of a round key.
pub const PC_2: [u8; 48] = [
    14, 17, 11, 24, 1, 5,
    3, 28, 15, 6, 2, 10,
    23, 19, 12, 4, 26, 8,
    16, 7, 27, 20, 13, 2,
    41, 52, 31, 37, 47, 55,
    30, 40, 51, 45, 33, 48,
    44, 49, 39, 56, 34, 53,
    46, 42, 50, 36, 29, 32,
];

proof fn lemma_set_bit64(l: u64, k: u64, t: u64)
    requires
        k < 64,
        t < 64,
    ensures
        t != k ==> (((l | (1u64 << k)) >> t) & 1) == ((l >> t) & 1),
        t == k ==> (((l | (1u64 << k)) >> t) & 1) == 1,
{
    assert(t != k ==> (((l | (1u64 << k)) >> t) & 1) == ((l >> t) & 1)) by (bit_vector)
        requires k < 64, t < 64;
    assert(t == k ==> (((l | (1u64 << k)) >> t) & 1) == 1) by (bit_vector)
        requires k < 64, t < 64;
}

fn test_bit64(x: u64, p: u64) -> (b: bool)
    requires
        p < 64,
    ensures
        b == bit64(x, p as int),
{
    ((x >> p) & 1) == 1
}

fn test_bit32(x: u32, p: u32) -> (b: bool)
    requires
        p < 32,
    ensures
        b == bit32(x, p as int),
{
    ((x >> p) & 1) == 1
}

/// One half of permuted choice 1: bit `27 - k` of the result is the key bit
/// that entry `k` of the table names; bits 28 to 31 are zero.
fn pc1_half(key: u64, table: &[u8; 28]) -> (half: u32)
    requires
        forall|k: int| 0 <= k < 28 ==> 1 <= #[trigger] table@[k] <= 64,
    ensures
        forall|k: int| 0 <= k < 28 ==> #[trigger] bit32(half, 27 - k) == bit64(key, 64 - table@[k]),
        forall|t: int| 28 <= t < 32 ==> !#[trigger] bit32(half, t),
{
    let mut half: u32 = 0;
    let mut k: usize = 0;
    proof {
        assert forall|t: u32| t < 32 implies ((0u32 >> t) & 1) == 0 by {
            assert(((0u32 >> t) & 1) == 0) by (bit_vector);
        }
    }
    while k < 28
        invariant
            k <= 28,
            forall|q: int| 0 <= q < 28 ==> 1 <= #[trigger] table@[q] <= 64,
            forall|q: int| 0 <= q < k ==> #[trigger] bit32(half, 27 - q) == bit64(key, 64 - table@[q]),
            forall|t: u32| t < 32 && (t > 27 || t + k < 28) ==> ((half >> t) & 1) == 0,
        decreases 28 - k,
    {
        let p = table[k];
        let b = test_bit64(key, (64 - p) as u64);
        let pos = (27 - k) as u32;
        let old_half = half;
        proof {
            assert(((old_half >> pos) & 1) == 0);
        }
        if b {
            half = half | (1u32 << pos);
        }
        proof {
            assert forall|t: u32| t < 32 && t != pos implies ((half >> t) & 1) == ((old_half >> t) & 1) by {
                lemma_set_bit32(old_half, pos, t);
            }
            lemma_set_bit32(old_half, pos, pos);
            assert forall|q: int| 0 <= q < k + 1 implies #[trigger] bit32(half, 27 - q) == bit64(key, 64 - table@[q]) by {
                if q != k {
                    let qq = (27 - q) as u32;
                    assert(((half >> qq) & 1) == ((old_half >> qq) & 1));
                    assert(bit32(half, 27 - q) == bit32(old_half, 27 - q));
                }
            }
        }
        k = k + 1;
    }
    proof {
        assert forall|t: int| 28 <= t < 32 implies !#[trigger] bit32(half, t) by {
            let tt = t as u32;
            assert(((half >> tt) & 1) == 0);
        }
    }
    half
}

/// Permuted choice 1: the two 28-bit halves `(C_0, D_0)` of the key schedule.
/// Bit `27 - k` of `C_0` is bit `64 - PC1_C_0[k]` of the key (so `C_0` reads as
/// the selected bits in table order, most significant first), and likewise for
/// `D_0` with `PC1_D_0`. This is the whole permutation of the key schedule's
/// first step, taking all 56 bits the tables select.
pub fn pc1(key: u64) -> (halves: (u32, u32))
    ensures
        forall|k: int| 0 <= k < 28 ==> #[trigger] bit32(halves.0, 27 - k) == bit64(key, 64 - PC1_C_0@[k]),
        forall|k: int| 0 <= k < 28 ==> #[trigger] bit32(halves.1, 27 - k) == bit64(key, 64 - PC1_D_0@[k]),
        forall|t: int| 28 <= t < 32 ==> !#[trigger] bit32(halves.0, t) && !bit32(halves.1, t),
{
    let c_table = PC1_C_0;
    let d_table = PC1_D_0;
    proof {
        assert(forall|k: int| 0 <= k < 28 ==> 1 <= #[trigger] c_table@[k] <= 64);
        assert(forall|k: int| 0 <= k < 28 ==> 1 <= #[trigger] d_table@[k] <= 64);
    }
    let c_0 = pc1_half(key, &c_table);
    let d_0 = pc1_half(key, &d_table);
    (c_0, d_0)
}

/// The bit of `C ‖ D` at DES position `p` (from `1` to `56`): positions 1 to 28
/// are bits 27 down to 0 of `c`, positions 29 to 56 those of `d`.
pub open spec fn cd_bit(c: u32, d: u32, p: int) -> bool {
    if p <= 28 { bit32(c, 28 - p) } else { bit32(d, 56 - p) }
}

/// Permuted choice 2: a 48-bit round key from the halves `C` and `D`. Bit
/// `47 - k` of the result is the bit of `C ‖ D` at position `PC_2[k]`; bits 48
/// to 63 are zero. The halves are taken as arguments and every one of the 48
/// positions of `PC_2` is applied, as written in the table (including its
/// entry `2`).
pub fn pc2(c: u32, d: u32) -> (round_key: u64)
    ensures
        forall|k: int| 0 <= k < 48 ==> #[trigger] bit64(round_key, 47 - k) == cd_bit(c, d, PC_2@[k] as int),
        forall|t: int| 48 <= t < 64 ==> !#[trigger] bit64(round_key, t),
{
    let table = PC_2;
    proof {
        assert(forall|k: int| 0 <= k < 48 ==> 1 <= #[trigger] table@[k] <= 56);
    }
    let mut out: u64 = 0;
    let mut k: usize = 0;
    proof {
        assert forall|t: u64| t < 64 implies ((0u64 >> t) & 1) == 0 by {
            assert(((0u64 >> t) & 1) == 0) by (bit_vector);
        }
    }
    while k < 48
        invariant
            k <= 48,
            table == PC_2,
            forall|q: int| 0 <= q < 48 ==> 1 <= #[trigger] table@[q] <= 56,
            forall|q: int| 0 <= q < k ==> #[trigger] bit64(out, 47 - q) == cd_bit(c, d, table@[q] as int),
            forall|t: u64| t < 64 && (t > 47 || t + k < 48) ==> ((out >> t) & 1) == 0,
        decreases 48 - k,
    {
        let p = table[k];
        let b = if p <= 28 { test_bit32(c, (28 - p) as u32) } else { test_bit32(d, (56 - p) as u32) };
        let pos = (47 - k) as u64;
        let old_out = out;
        proof {
            assert(((old_out >> pos) & 1) == 0);
        }
        if b {
            out = out | (1u64 << pos);
        }
        proof {
            assert forall|t: u64| t < 64 && t != pos implies ((out >> t) & 1) == ((old_out >> t) & 1) by {
                lemma_set_bit64(old_out, pos, t);
            }
            lemma_set_bit64(old_out, pos, pos);
            assert forall|q: int| 0 <= q < k + 1 implies #[trigger] bit64(out, 47 - q) == cd_bit(c, d, table@[q] as int) by {
                if q != k {
                    let qq = (47 - q) as u64;
                    assert(((out >> qq) & 1) == ((old_out >> qq) & 1));
                    assert(bit64(out, 47 - q) == bit64(old_out, 47 - q));
                }
            }
        }
        k = k + 1;
    }
    proof {
        assert forall|t: int| 48 <= t < 64 implies !#[trigger] bit64(out, t) by {
            let tt = t as u64;
            assert(((out >> tt) & 1) == 0);
        }
    }
    out
}

} // verus!
