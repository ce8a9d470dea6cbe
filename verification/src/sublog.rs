//! The sublog bucket index: a log-linear mapping from a 64-bit reuse interval
//! to a bounded bucket index.
//!
//! Values below `2^sublog_bits` keep their own bucket (the linear region).
//! Above it, a value is placed by its most significant bit together with the
//! `sublog_bits` bits just below that bit, so that larger values share buckets
//! more and more aggressively, as in a log-scale histogram with linear
//! refinement near zero.

use vstd::prelude::*;
use vstd::arithmetic::power2::{
    pow2, lemma_pow2_adds, lemma_pow2_pos, lemma_pow2_strictly_increases, lemma_pow2_subtracts,
    lemma2_to64, lemma2_to64_rest,
};
use vstd::bits::{
    lemma_u64_low_bits_mask_is_mod, lemma_u64_shl_is_mul, lemma_u64_shr_is_div, low_bits_mask,
};
use vstd::std_specs::bits::{axiom_u64_leading_zeros, u64_leading_zeros};

verus! {

/// Number of binary digits of `v`: zero for zero, `1 + bit_len(v / 2)` above.
/// The position of the most significant set bit of `v >= 1` is `bit_len(v) - 1`.
pub open spec fn bit_len(v: nat) -> nat
    decreases v,
{
    if v == 0 {
        0
    } else {
        1 + bit_len(v / 2)
    }
}

/// Number of buckets a histogram over 64-bit values needs for the given
/// precision: `(65 - sublog_bits) * 2^sublog_bits`.
pub open spec fn spec_histogram_size(sublog_bits: nat) -> nat
    recommends
        sublog_bits <= 64,
{
    ((65 - sublog_bits) * pow2(sublog_bits) as int) as nat
}

/// A precision this crate accepts: the bucket count must be computable in a
/// `u64` (so the shift arithmetic of the mapper cannot overflow) and the
/// counter array must be addressable on this machine.
pub open spec fn valid_sublog_bits(sublog_bits: u64) -> bool {
    sublog_bits <= 62 && spec_histogram_size(sublog_bits as nat) <= usize::MAX as nat
}

/// The sublog bucket index of `reuse_interval` at precision `sublog_bits`.
///
/// Values in the linear region (below `2^sublog_bits`) are their own index.
/// Any other value is split at its most significant bit: the `sublog_bits`
/// bits below the leading one form the mantissa, and each band of values with
/// the same leading-bit position fills one run of `2^sublog_bits` indices.
pub open spec fn bucket_index(sublog_bits: nat, reuse_interval: nat) -> nat
    recommends
        sublog_bits <= 62,
{
    if reuse_interval < pow2(sublog_bits) {
        reuse_interval
    } else {
        let shift = (bit_len(reuse_interval) - 1 - sublog_bits) as nat;
        (reuse_interval / pow2(shift)) % pow2(sublog_bits) + (shift + 1) * pow2(sublog_bits)
    }
}

/// Every value of the linear region is exactly its own bucket index: the
/// mapping is collision-free below `2^sublog_bits`.
pub proof fn lemma_linear_region_exact(sublog_bits: nat, v: nat)
    requires
        v < pow2(sublog_bits),
    ensures
        bucket_index(sublog_bits, v) == v,
{
}

/// `v` lies between the powers of two named by its bit length.
pub proof fn lemma_bit_len_bounds(v: nat)
    requires
        v >= 1,
    ensures
        pow2((bit_len(v) - 1) as nat) <= v < pow2(bit_len(v)),
    decreases v,
{
    if v == 1 {
        assert(bit_len(1) == 1 + bit_len(0));
        lemma2_to64();
        lemma2_to64_rest();
    } else {
        assert(bit_len(v) == 1 + bit_len(v / 2));
        lemma_bit_len_bounds(v / 2);
        let b: nat = bit_len(v / 2);
        assert(pow2((b - 1) as nat) * 2 == pow2(b)) by {
            lemma_pow2_adds((b - 1) as nat, 1);
            lemma2_to64();
            lemma2_to64_rest();
        }
        assert(pow2(b) * 2 == pow2(b + 1)) by {
            lemma_pow2_adds(b, 1);
            lemma2_to64();
            lemma2_to64_rest();
        }
        assert(2 * (v / 2) <= v < 2 * (v / 2) + 2);
        assert(pow2(b) <= 2 * (v / 2));
        assert(v < 2 * pow2(b));
    }
}

/// One more than a positive exponent never outgrows its power of two.
proof fn lemma_succ_le_pow2(k: nat)
    requires
        k >= 1,
    ensures
        k + 1 <= pow2(k),
    decreases k,
{
    if k == 1 {
        lemma2_to64();
        lemma2_to64_rest();
    } else {
        lemma_succ_le_pow2((k - 1) as nat);
        lemma_pow2_adds((k - 1) as nat, 1);
        lemma2_to64();
        lemma2_to64_rest();
        lemma_pow2_pos((k - 1) as nat);
    }
}

/// Every bucket index at a valid precision lies below the histogram size.
pub proof fn lemma_bucket_index_in_range(sublog_bits: u64, reuse_interval: u64)
    requires
        valid_sublog_bits(sublog_bits),
    ensures
        bucket_index(sublog_bits as nat, reuse_interval as nat) < spec_histogram_size(
            sublog_bits as nat,
        ),
{
    let s = sublog_bits as nat;
    let v = reuse_interval as nat;
    lemma_pow2_pos(s);
    if v < pow2(s) {
        assert(pow2(s) <= (65 - s) * pow2(s)) by (nonlinear_arith)
            requires
                s <= 62 && pow2(s) >= 1,
        ;
    } else {
        lemma_bit_len_bounds(v);
        let b = bit_len(v);
        // v >= 2^s forces at least s + 1 binary digits.
        if b <= s {
            if b < s {
                lemma_pow2_strictly_increases(b, s);
            }
            assert(false);
        }
        // v < 2^64 keeps the bit length at 64 or below.
        if b > 64 {
            lemma_pow2_strictly_increases(64, b);
            lemma2_to64();
            lemma2_to64_rest();
            assert(pow2((b - 1) as nat) >= pow2(64)) by {
                if b - 1 > 64 {
                    lemma_pow2_strictly_increases(64, (b - 1) as nat);
                }
            }
            assert(false);
        }
        let shift = (b - 1 - s) as nat;
        let mantissa = (v / pow2(shift)) % pow2(s);
        lemma_pow2_pos(shift);
        assert(mantissa < pow2(s)) by {
            vstd::arithmetic::div_mod::lemma_mod_bound((v / pow2(shift)) as int, pow2(s) as int);
        }
        assert((shift + 1) * pow2(s) <= (64 - s) * pow2(s)) by (nonlinear_arith)
            requires
                shift + 1 <= 64 - s && pow2(s) >= 1,
        ;
        assert(mantissa + (shift + 1) * pow2(s) < (65 - s) * pow2(s)) by (nonlinear_arith)
            requires
                mantissa < pow2(s) && (shift + 1) * pow2(s) <= (64 - s) * pow2(s) && s <= 62,
        ;
    }
}

/// Every precision up to 24 bits — far beyond the handful of mantissa bits a
/// sublog histogram is built with — is accepted on any machine: its bucket
/// count stays below even a 32-bit address space.
pub proof fn lemma_small_sublog_bits_valid(sublog_bits: u64)
    requires
        sublog_bits <= 24,
    ensures
        valid_sublog_bits(sublog_bits),
{
    let s = sublog_bits as nat;
    lemma_pow2_pos(s);
    lemma2_to64();
    if s < 24 {
        lemma_pow2_strictly_increases(s, 24);
    }
    assert((65 - s) * pow2(s) <= 65 * pow2(24)) by (nonlinear_arith)
        requires
            65 - s <= 65 && pow2(s) <= pow2(24),
    ;
    assert(usize::MAX as nat >= u32::MAX as nat);
}

/// Every accepted precision yields at least one bucket.
pub proof fn lemma_histogram_size_pos(sublog_bits: u64)
    requires
        sublog_bits <= 62,
    ensures
        spec_histogram_size(sublog_bits as nat) >= 1,
{
    let s = sublog_bits as nat;
    lemma_pow2_pos(s);
    assert((65 - s) * pow2(s) >= 1) by (nonlinear_arith)
        requires
            s <= 62 && pow2(s) >= 1,
    ;
}

/// For an accepted precision, the bucket count fits comfortably in a `u64`.
pub proof fn lemma_histogram_size_fits_u64(sublog_bits: u64)
    requires
        sublog_bits <= 62,
    ensures
        spec_histogram_size(sublog_bits as nat) <= u64::MAX as nat,
{
    let s = sublog_bits as nat;
    lemma_pow2_pos(s);
    lemma2_to64();
    lemma2_to64_rest();
    if s < 62 {
        lemma_pow2_strictly_increases(s, 62);
    }
    lemma_succ_le_pow2((63 - s) as nat);
    assert((64 - s) * pow2(s) <= pow2((63 - s) as nat) * pow2(s)) by (nonlinear_arith)
        requires
            64 - s <= pow2((63 - s) as nat) && pow2(s) >= 1,
    ;
    lemma_pow2_adds((63 - s) as nat, s);
    assert((65 - s) * pow2(s) == (64 - s) * pow2(s) + pow2(s)) by (nonlinear_arith);
}

/// The sublog bucket index of `reuse_interval`, as executable code: values in
/// the linear region keep their own index, larger ones are split at their
/// most significant bit.
pub fn convert_reuse_interval_to_index(sublog_bits: u64, reuse_interval: u64) -> (index: usize)
    requires
        valid_sublog_bits(sublog_bits),
    ensures
        index == bucket_index(sublog_bits as nat, reuse_interval as nat),
        index < spec_histogram_size(sublog_bits as nat),
{
    proof {
        lemma_bucket_index_in_range(sublog_bits, reuse_interval);
        lemma2_to64();
        lemma2_to64_rest();
        if sublog_bits < 62 {
            lemma_pow2_strictly_increases(sublog_bits as nat, 62);
        }
        assert(pow2(sublog_bits as nat) <= 0x4000000000000000);
        assert(1u64 * pow2(sublog_bits as nat) <= u64::MAX);
        assert(sublog_bits < u64::BITS);
        lemma_u64_shl_is_mul(1u64, sublog_bits);
        lemma_pow2_pos(sublog_bits as nat);
    }
    if reuse_interval < (1u64 << sublog_bits) {
        return reuse_interval as usize;
    }
    let ghost s = sublog_bits as nat;
    let ghost v = reuse_interval as nat;
    let leading_zeros: u32 = reuse_interval.leading_zeros();
    proof {
        axiom_u64_leading_zeros(reuse_interval);
        lemma_leading_zeros_bit_len(reuse_interval);
        // v >= 2^s >= 1, so the bit length is at least s + 1 and at most 64.
        lemma_bit_len_bounds(v);
        if bit_len(v) <= s {
            if bit_len(v) < s {
                lemma_pow2_strictly_increases(bit_len(v), s);
            }
            assert(false);
        }
    }
    let most_significant_bit: u64 = (63 - leading_zeros) as u64;
    let shift: u64 = most_significant_bit - sublog_bits;
    proof {
        assert(shift == bit_len(v) - 1 - s);
        lemma_u64_shr_is_div(reuse_interval, shift);
    }
    let mut index: u64 = reuse_interval >> shift;
    proof {
        lemma_u64_low_bits_mask_is_mod(index, s);
        assert((1u64 << sublog_bits) - 1 == low_bits_mask(s));
    }
    index = index & ((1u64 << sublog_bits) - 1);
    proof {
        assert(shift + 1 <= 64 - s);
        assert((shift + 1) * pow2(s) <= (64 - s) * pow2(s)) by (nonlinear_arith)
            requires
                shift + 1 <= 64 - s && pow2(s) >= 1,
        ;
        assert((64 - s) * pow2(s) <= pow2(63)) by {
            if s == 62 {
                lemma_pow2_adds(1, 62);
                lemma2_to64();
                lemma2_to64_rest();
            } else {
                lemma_succ_le_pow2((63 - s) as nat);
                assert((64 - s) * pow2(s) <= pow2((63 - s) as nat) * pow2(s)) by (nonlinear_arith)
                    requires
                        64 - s <= pow2((63 - s) as nat) && pow2(s) >= 1,
                ;
                lemma_pow2_adds((63 - s) as nat, s);
            }
        }
        lemma2_to64();
        lemma2_to64_rest();
        lemma_u64_shl_is_mul((shift + 1) as u64, sublog_bits);
    }
    (index + ((shift + 1) << sublog_bits)) as usize
}

/// The executable mapper agrees with `u64_leading_zeros` through the bit
/// length: a nonzero value has `64 - bit_len` leading zeros.
pub proof fn lemma_leading_zeros_bit_len(v: u64)
    requires
        v >= 1,
    ensures
        u64_leading_zeros(v) == 64 - bit_len(v as nat),
{
    axiom_u64_leading_zeros(v);
    let lz = u64_leading_zeros(v) as nat;
    assert(lz <= 63);
    let lo: u64 = (63 - lz) as u64;
    // The bit just below the leading zeros is set, so v >= 2^(63 - lz).
    assert((v >> lo) & 1u64 != 0u64);
    lemma_u64_shr_is_div(v, lo);
    let q: nat = v as nat / pow2(lo as nat);
    assert(pow2(lo as nat) <= v) by {
        assert((q as u64) & 1u64 != 0u64);
        assert(((0u64) & 1u64) == 0u64) by (bit_vector);
        lemma_pow2_pos(lo as nat);
        vstd::arithmetic::div_mod::lemma_fundamental_div_mod(v as int, pow2(lo as nat) as int);
        vstd::arithmetic::div_mod::lemma_mod_bound(v as int, pow2(lo as nat) as int);
        assert(pow2(lo as nat) as int <= v as int) by (nonlinear_arith)
            requires
                v as int == pow2(lo as nat) as int * q as int + (v as nat % pow2(
                    lo as nat,
                )) as int,
                (v as nat % pow2(lo as nat)) as int >= 0,
                q >= 1,
                pow2(lo as nat) >= 1,
        ;
    }
    // Everything from the leading zeros up is clear, so v < 2^(64 - lz).
    assert(v < pow2((64 - lz) as nat)) by {
        if lz == 0 {
            lemma2_to64();
            lemma2_to64_rest();
        } else {
            let hi: u64 = (64 - lz) as u64;
            assert(v >> hi == 0u64);
            lemma_u64_shr_is_div(v, hi);
            lemma_pow2_pos(hi as nat);
            vstd::arithmetic::div_mod::lemma_fundamental_div_mod(v as int, pow2(hi as nat) as int);
            vstd::arithmetic::div_mod::lemma_mod_bound(v as int, pow2(hi as nat) as int);
        }
    }
    lemma_bit_len_unique(v as nat, (64 - lz) as nat);
}

/// How many low bits of `v` the mapper discards: `max(0, msb(v) - sublog_bits)`,
/// with `msb` the position of the most significant set bit.
pub open spec fn bucket_shift(sublog_bits: nat, v: nat) -> nat {
    if bit_len(v) >= sublog_bits + 1 {
        (bit_len(v) - 1 - sublog_bits) as nat
    } else {
        0
    }
}

/// All 64-bit values the mapper sends to the bucket of `v`.
pub open spec fn bucket_preimage(sublog_bits: nat, v: nat) -> Set<int> {
    Set::new(
        |w: int|
            0 <= w < pow2(64) && bucket_index(sublog_bits, w as nat) == bucket_index(
                sublog_bits,
                v,
            ),
    )
}

/// A value above the linear region splits at its most significant bit: its
/// band quotient `v / 2^shift` carries the leading one and the mantissa, and
/// the bucket index is determined by that quotient alone.
proof fn lemma_band_decomposition(s: nat, u: nat)
    requires
        s <= 62,
        pow2(s) <= u,
        u < pow2(64),
    ensures
        ({
            let shift = (bit_len(u) - 1 - s) as nat;
            let q = u / pow2(shift);
            &&& s + 1 <= bit_len(u) <= 64
            &&& pow2(s) <= q < pow2(s + 1)
            &&& q * pow2(shift) <= u < (q + 1) * pow2(shift)
            &&& bucket_index(s, u) == (q - pow2(s)) + (shift + 1) * pow2(s)
        }),
{
    lemma_pow2_pos(s);
    lemma_bit_len_bounds(u);
    let b = bit_len(u);
    if b <= s {
        if b < s {
            lemma_pow2_strictly_increases(b, s);
        }
        assert(false);
    }
    if b > 64 {
        assert(pow2(64) <= pow2((b - 1) as nat)) by {
            if 64 < b - 1 {
                lemma_pow2_strictly_increases(64, (b - 1) as nat);
            }
        }
        assert(false);
    }
    let shift = (b - 1 - s) as nat;
    let q = u / pow2(shift);
    lemma_pow2_pos(shift);
    // The quotient keeps the leading one: 2^s <= q.
    assert(pow2(s) <= q) by {
        lemma_pow2_subtracts(shift, (b - 1) as nat);
        vstd::arithmetic::div_mod::lemma_div_is_ordered(
            pow2((b - 1) as nat) as int,
            u as int,
            pow2(shift) as int,
        );
    }
    // And nothing above it: q < 2^(s+1).
    assert(q < pow2(s + 1)) by {
        lemma_pow2_adds(s + 1, shift);
        assert((pow2(s + 1) - 1) * pow2(shift) + (pow2(shift) - 1) == pow2(s + 1) * pow2(shift)
            - 1) by (nonlinear_arith);
        vstd::arithmetic::div_mod::lemma_fundamental_div_mod_converse_div(
            (pow2(b) - 1) as int,
            pow2(shift) as int,
            (pow2(s + 1) - 1) as int,
            (pow2(shift) - 1) as int,
        );
        vstd::arithmetic::div_mod::lemma_div_is_ordered(
            u as int,
            (pow2(b) - 1) as int,
            pow2(shift) as int,
        );
    }
    // u lies in the band of its quotient.
    vstd::arithmetic::div_mod::lemma_fundamental_div_mod(u as int, pow2(shift) as int);
    vstd::arithmetic::div_mod::lemma_mod_bound(u as int, pow2(shift) as int);
    assert(pow2(shift) * q == q * pow2(shift)) by (nonlinear_arith);
    assert(q * pow2(shift) + pow2(shift) == (q + 1) * pow2(shift)) by (nonlinear_arith);
    // The mantissa is the quotient without its leading one.
    assert(q % pow2(s) == q - pow2(s)) by {
        vstd::arithmetic::power2::lemma_pow2_unfold(s + 1);
        vstd::arithmetic::div_mod::lemma_fundamental_div_mod_converse_mod(
            q as int,
            pow2(s) as int,
            1int,
            q as int - pow2(s) as int,
        );
    }
}

/// Within one band (equal most significant bit position), the mapper is
/// monotone: a larger value never gets a smaller bucket index.
pub proof fn lemma_monotone_in_band(s: nat, v: nat, w: nat)
    requires
        s <= 62,
        pow2(s) <= v <= w,
        w < pow2(64),
        bit_len(v) == bit_len(w),
    ensures
        bucket_index(s, v) <= bucket_index(s, w),
{
    lemma_band_decomposition(s, v);
    lemma_band_decomposition(s, w);
    let shift = (bit_len(v) - 1 - s) as nat;
    lemma_pow2_pos(shift);
    vstd::arithmetic::div_mod::lemma_div_is_ordered(v as int, w as int, pow2(shift) as int);
}

/// Collision property: above the linear region, two values share a bucket
/// exactly when they have the same most significant bit and the same
/// `sublog_bits` bits below it — that is, the bucket of `v` is precisely the
/// interval of width `2^shift` that keeps `v`'s leading bits.
pub proof fn lemma_same_bucket_iff(s: nat, v: nat, w: nat)
    requires
        s <= 62,
        pow2(s) <= v < pow2(64),
        w < pow2(64),
    ensures
        ({
            let shift = (bit_len(v) - 1 - s) as nat;
            let base = (v / pow2(shift)) * pow2(shift);
            bucket_index(s, w) == bucket_index(s, v) <==> (base <= w < base + pow2(shift))
        }),
{
    lemma_band_decomposition(s, v);
    let b = bit_len(v);
    let shift = (b - 1 - s) as nat;
    let q = v / pow2(shift);
    let base = q * pow2(shift);
    lemma_pow2_pos(shift);
    lemma_pow2_pos(s);
    if base <= w < base + pow2(shift) {
        // The whole interval sits inside v's power-of-two band ...
        lemma_pow2_adds(s, shift);
        assert(pow2(s) * pow2(shift) <= q * pow2(shift)) by (nonlinear_arith)
            requires
                pow2(s) <= q,
                pow2(shift) >= 1,
        ;
        lemma_pow2_adds(s + 1, shift);
        assert((q + 1) * pow2(shift) <= pow2(s + 1) * pow2(shift)) by (nonlinear_arith)
            requires
                q + 1 <= pow2(s + 1),
                pow2(shift) >= 1,
        ;
        assert(q * pow2(shift) + pow2(shift) == (q + 1) * pow2(shift)) by (nonlinear_arith);
        assert(pow2((b - 1) as nat) <= w < pow2(b));
        lemma_pow2_pos((b - 1) as nat);
        lemma_bit_len_unique(w, b);
        // ... and shares v's quotient, hence v's mantissa and shift.
        if b - 1 > s {
            lemma_pow2_strictly_increases(s, (b - 1) as nat);
        }
        assert(pow2(s) <= w);
        vstd::arithmetic::div_mod::lemma_fundamental_div_mod_converse_div(
            w as int,
            pow2(shift) as int,
            q as int,
            w as int - base as int,
        );
        lemma_band_decomposition(s, w);
        assert(bucket_index(s, w) == bucket_index(s, v));
    }
    if bucket_index(s, w) == bucket_index(s, v) {
        assert(bucket_index(s, v) == (q - pow2(s)) + (shift + 1) * pow2(s));
        if w < pow2(s) {
            // A linear-region index stays below 2^s, v's does not.
            assert(pow2(s) <= (shift + 1) * pow2(s)) by (nonlinear_arith)
                requires
                    pow2(s) >= 1,
        ;
            assert(false);
        } else {
            lemma_band_decomposition(s, w);
            let bw = bit_len(w);
            let shift_w = (bw - 1 - s) as nat;
            let qw = w / pow2(shift_w);
            // One number, one quotient-remainder split at 2^s: the shifts and
            // mantissas of v and w agree.
            vstd::arithmetic::div_mod::lemma_fundamental_div_mod_converse(
                bucket_index(s, v) as int,
                pow2(s) as int,
                (shift + 1) as int,
                (q - pow2(s)) as int,
            );
            vstd::arithmetic::div_mod::lemma_fundamental_div_mod_converse(
                bucket_index(s, w) as int,
                pow2(s) as int,
                (shift_w + 1) as int,
                (qw - pow2(s)) as int,
            );
            assert(shift_w == shift);
            assert(qw == q);
            assert(base <= w < base + pow2(shift)) by {
                assert(qw * pow2(shift_w) <= w < (qw + 1) * pow2(shift_w));
                assert((q + 1) * pow2(shift) == q * pow2(shift) + pow2(shift)) by (nonlinear_arith);
            }
        }
    }
}

/// Bucket-size law: at precision `sublog_bits`, the number of 64-bit values
/// that the mapper sends to the bucket of `v` is exactly
/// `2^max(0, msb(v) - sublog_bits)`: one per value in the linear region, and
/// doubling with each order of magnitude above it.
pub proof fn lemma_bucket_size(sublog_bits: u64, v: u64)
    requires
        valid_sublog_bits(sublog_bits),
        v >= 1,
    ensures
        bucket_preimage(sublog_bits as nat, v as nat).len() == pow2(
            bucket_shift(sublog_bits as nat, v as nat),
        ),
        bucket_preimage(sublog_bits as nat, v as nat).finite(),
{
    let s = sublog_bits as nat;
    let vn = v as nat;
    lemma_pow2_pos(s);
    lemma2_to64();
    lemma_bit_len_bounds(vn);
    if vn < pow2(s) {
        // The linear region: v is alone in its bucket.
        if bit_len(vn) >= s + 1 {
            lemma_pow2_strictly_increases(s, (bit_len(vn)) as nat);
            assert(pow2(s) <= pow2((bit_len(vn) - 1) as nat)) by {
                if s < bit_len(vn) - 1 {
                    lemma_pow2_strictly_increases(s, (bit_len(vn) - 1) as nat);
                }
            }
            assert(false);
        }
        assert forall|w: int| bucket_preimage(s, vn).contains(w) <==> vstd::set_lib::set_int_range(
            v as int,
            v as int + 1,
        ).contains(w) by {
            if 0 <= w < pow2(64) {
                let wn = w as nat;
                if wn >= pow2(s) {
                    lemma_band_decomposition(s, wn);
                    let shift_w = (bit_len(wn) - 1 - s) as nat;
                    let qw = wn / pow2(shift_w);
                    assert(pow2(s) <= (shift_w + 1) * pow2(s)) by (nonlinear_arith)
                        requires
                            pow2(s) >= 1,
                    ;
                    assert(bucket_index(s, wn) != bucket_index(s, vn));
                }
            }
        }
        assert(bucket_preimage(s, vn) =~= vstd::set_lib::set_int_range(v as int, v as int + 1));
        vstd::set_lib::lemma_int_range(v as int, v as int + 1);
    } else {
        // Above it: the bucket is an interval of width 2^shift.
        lemma_band_decomposition(s, vn);
        let shift = (bit_len(vn) - 1 - s) as nat;
        let q = vn / pow2(shift);
        let base = (q * pow2(shift)) as int;
        assert forall|w: int| bucket_preimage(s, vn).contains(w) <==> vstd::set_lib::set_int_range(
            base,
            base + pow2(shift),
        ).contains(w) by {
            if 0 <= w < pow2(64) {
                lemma_same_bucket_iff(s, vn, w as nat);
            } else {
                // the bucket interval lies inside the 64-bit domain
                lemma_pow2_adds(s + 1, shift);
                assert(q * pow2(shift) + pow2(shift) == (q + 1) * pow2(shift)) by (nonlinear_arith);
                assert((q + 1) * pow2(shift) <= pow2(s + 1) * pow2(shift)) by (nonlinear_arith)
                    requires
                        q + 1 <= pow2(s + 1),
                        pow2(shift) >= 1,
                ;
                assert(pow2(bit_len(vn)) <= pow2(64)) by {
                    if bit_len(vn) < 64 {
                        lemma_pow2_strictly_increases(bit_len(vn), 64);
                    }
                }
            }
        }
        assert(bucket_preimage(s, vn) =~= vstd::set_lib::set_int_range(base, base + pow2(shift)));
        vstd::set_lib::lemma_int_range(base, base + pow2(shift));
    }
}

/// A derived bucket key: it remembers only the precision and the mapper
/// output, never the raw reuse interval, so two reuse intervals that share a
/// bucket at the same precision compare equal and hash equal.
#[derive(Clone, Copy, Debug, PartialEq, Eq, Hash, Structural)]
pub struct Bucket {
    /// The precision the key was built at.
    pub sublog_bits: u64,
    /// The bucket index of the reuse interval the key was built from.
    pub index: usize,
}

impl Bucket {
    /// Key a reuse interval by its bucket at the given precision.
    pub fn new(sublog_bits: u64, reuse_interval: u64) -> (b: Bucket)
        requires
            valid_sublog_bits(sublog_bits),
        ensures
            b.sublog_bits == sublog_bits,
            b.index == bucket_index(sublog_bits as nat, reuse_interval as nat),
    {
        Bucket {
            sublog_bits,
            index: convert_reuse_interval_to_index(sublog_bits, reuse_interval),
        }
    }
}

/// The bit length is the only `k` with `2^(k-1) <= v < 2^k`.
pub proof fn lemma_bit_len_unique(v: nat, k: nat)
    requires
        v >= 1,
        k >= 1,
        pow2((k - 1) as nat) <= v < pow2(k),
    ensures
        bit_len(v) == k,
{
    lemma_bit_len_bounds(v);
    let b: nat = bit_len(v);
    if b < k {
        lemma_pow2_strictly_increases(b, k);
        assert(v < pow2(b));
        if b < k - 1 {
            lemma_pow2_strictly_increases(b, (k - 1) as nat);
        }
        assert(pow2(b) <= pow2((k - 1) as nat));
        assert(false);
    }
    if b > k {
        if k < b - 1 {
            lemma_pow2_strictly_increases(k, (b - 1) as nat);
        }
        assert(pow2(k) <= pow2((b - 1) as nat));
        assert(false);
    }
}

} // verus!
