//! Bit-field manipulation on 32-bit instruction words.

use vstd::prelude::*;
use vstd::arithmetic::power2::pow2;

verus! {

/// The mask made of the `width` lowest bits of a 32-bit word.
pub open spec fn low_mask(width: u32) -> u32 {
    if width >= 32 {
        0xffff_ffffu32
    } else {
        ((1u32 << width) - 1) as u32
    }
}

/// Width of the inclusive bit range `hi..=lo`.
pub open spec fn range_width(hi: u8, lo: u8) -> u32 {
    (hi - lo + 1) as u32
}

/// Bits `hi..=lo` of `word`, moved down to bit 0.
pub open spec fn bit_field(word: u32, hi: u8, lo: u8) -> u32 {
    (word >> (lo as u32)) & low_mask(range_width(hi, lo))
}

/// The lowest `hi - lo + 1` bits of `value`, moved up to start at bit `lo`.
pub open spec fn placed_field(hi: u8, lo: u8, value: u32) -> u32 {
    (value & low_mask(range_width(hi, lo))) << (lo as u32)
}

proof fn lemma_shl_one_positive(width: u32)
    requires
        width < 32,
    ensures
        (1u32 << width) >= 1,
{
    assert(width < 32 ==> (1u32 << width) >= 1) by (bit_vector);
}

/// Reads bits `hi..=lo` of `word` (both ends inclusive) as an unsigned value.
pub fn get_bits(word: u32, hi: u8, lo: u8) -> (r: u32)
    requires
        lo <= hi < 32,
    ensures
        r == bit_field(word, hi, lo),
{
    let width = (hi - lo + 1) as u32;
    let mask: u32 = if width == 32 {
        u32::MAX
    } else {
        proof {
            lemma_shl_one_positive(width);
        }
        (1u32 << width) - 1
    };
    (word >> (lo as u32)) & mask
}

/// ORs the lowest `hi - lo + 1` bits of `value` into bits `hi..=lo` of `word`.
/// Bits already set in `word` stay set.
pub fn set_bits(word: &mut u32, hi: u8, lo: u8, value: u32)
    requires
        lo <= hi < 32,
    ensures
        *final(word) == *old(word) | placed_field(hi, lo, value),
{
    let width = (hi - lo + 1) as u32;
    let mask: u32 = if width == 32 {
        u32::MAX
    } else {
        proof {
            lemma_shl_one_positive(width);
        }
        (1u32 << width) - 1
    };
    let shift = lo as u32;
    *word = *word | ((value & mask) << shift);
}

/// Whether `value` fits in `width` bits as a two's complement number.
pub open spec fn fits_signed(value: int, width: nat) -> bool {
    if width == 0 {
        value == 0
    } else if width >= 64 {
        true
    } else {
        -pow2((width - 1) as nat) <= value < pow2((width - 1) as nat)
    }
}

/// Whether `value` fits in `width` unsigned bits: it is below `2^width`.
pub open spec fn fits_unsigned(value: int, width: nat) -> bool {
    value < pow2(width)
}

/// Checks if a signed value fits in the given number of bits (two's complement).
pub fn fits_in_signed_bits(value: isize, width: u8) -> (r: bool)
    ensures
        r == fits_signed(value as int, width as nat),
{
    if width == 0 {
        return value == 0;
    }
    if width >= 64 {
        return true;
    }
    let shift = (width - 1) as u64;
    proof {
        vstd::bits::lemma_u64_pow2_no_overflow(shift as nat);
        vstd::bits::lemma_u64_shl_is_mul(1u64, shift);
    }
    let half = (1u64 << shift) as i128;
    let v = value as i128;
    v >= -half && v <= half - 1
}

/// Checks if an unsigned value fits in the given number of bits.
pub fn fits_in_unsigned_bits(value: usize, width: u8) -> (r: bool)
    ensures
        r == fits_unsigned(value as int, width as nat),
{
    if width >= 64 {
        proof {
            vstd::arithmetic::power2::lemma2_to64();
            if width > 64 {
                vstd::arithmetic::power2::lemma_pow2_strictly_increases(64, width as nat);
            }
        }
        return true;
    }
    proof {
        vstd::bits::lemma_u64_pow2_no_overflow(width as nat);
        vstd::bits::lemma_u64_shl_is_mul(1u64, width as u64);
    }
    let limit = 1u128 << (width as u128);
    proof {
        assert(limit == (1u64 << (width as u64)) as u128) by (bit_vector)
            requires
                limit == 1u128 << (width as u128),
                width < 64,
        ;
    }
    (value as u128) < limit
}

/// Bits `hi..=lo` of a word are the base-2 digits `lo` to `hi` of its
/// value: `(word / 2^lo) mod 2^(hi - lo + 1)`.
pub proof fn lemma_bit_field_value(word: u32, hi: u8, lo: u8)
    requires
        lo <= hi < 32,
    ensures
        bit_field(word, hi, lo) as int == (word as int / (pow2(lo as nat) as int)) % (pow2(
            range_width(hi, lo) as nat,
        ) as int),
        bit_field(word, hi, lo) < pow2(range_width(hi, lo) as nat),
{
    let w = range_width(hi, lo);
    let x = word >> (lo as u32);
    vstd::bits::lemma_u32_shr_is_div(word, lo as u32);
    vstd::arithmetic::power2::lemma_pow2_pos(w as nat);
    if w < 32 {
        lemma_low_mask_is_mod(x, w);
        assert(bit_field(word, hi, lo) == x & (((1u32 << w) - 1) as u32));
    } else {
        assert(lo == 0);
        assert(x & 0xffff_ffffu32 == x) by (bit_vector);
        vstd::arithmetic::power2::lemma2_to64();
        assert(pow2(0) == 1);
        assert(word as int / 1 == word as int);
        assert(word as int % 0x1_0000_0000 == word as int);
    }
}

proof fn lemma_fields_bv(word: u32, value: u32, lo: u32, w: u32, lo2: u32, w2: u32)
    by (bit_vector)
    requires
        1 <= w <= 32,
        lo + w <= 32,
        1 <= w2 <= 32,
        lo2 + w2 <= 32,
    ensures
        ({
            let m = if w >= 32 { 0xffff_ffffu32 } else { ((1u32 << w) - 1) as u32 };
            let m2 = if w2 >= 32 { 0xffff_ffffu32 } else { ((1u32 << w2) - 1) as u32 };
            let placed = (value & m) << lo;
            &&& ((word >> lo) & m) == 0 ==> (((word | placed) >> lo) & m) == value & m
            &&& (lo2 + w2 <= lo || lo + w <= lo2) ==> (((word | placed) >> lo2) & m2) == ((word >> lo2) & m2)
        }),
{
}

/// Writing a field with `set_bits` into a word whose field is clear makes
/// `get_bits` read back the value's low bits, and leaves every field that
/// does not overlap it as it was.
pub proof fn lemma_set_then_get(word: u32, hi: u8, lo: u8, value: u32, hi2: u8, lo2: u8)
    requires
        lo <= hi < 32,
        lo2 <= hi2 < 32,
    ensures
        bit_field(word, hi, lo) == 0 ==> bit_field(word | placed_field(hi, lo, value), hi, lo) == value
            & low_mask(range_width(hi, lo)),
        hi2 < lo || hi < lo2 ==> bit_field(word | placed_field(hi, lo, value), hi2, lo2) == bit_field(word, hi2, lo2),
{
    lemma_fields_bv(word, value, lo as u32, range_width(hi, lo), lo2 as u32, range_width(hi2, lo2));
}

/// Whether bit `k` of `value` is set.
pub open spec fn bit_set(value: u32, k: nat) -> bool {
    (value as int / (pow2(k) as int)) % 2 == 1
}

/// The signed reading of `value` as a `width`-bit two's complement number:
/// when bit `width - 1` is set, the bits above `width` are replaced by ones;
/// otherwise `value` is read as it stands.
pub open spec fn sign_extended(value: u32, width: nat) -> int {
    if width == 0 {
        0
    } else if bit_set(value, (width - 1) as nat) {
        (value as int % (pow2(width) as int)) - pow2(width)
    } else {
        (value as isize) as int
    }
}

/// Sign extension of a `width`-bit value: below `2^(width-1)` it is the value
/// itself, from there on the value minus `2^width`.
pub proof fn lemma_sign_extended_value(value: u32, width: nat)
    requires
        1 <= width <= 32,
        value < pow2(width),
    ensures
        sign_extended(value, width) == if value >= pow2((width - 1) as nat) {
            value - pow2(width)
        } else {
            value as int
        },
{
    let p = pow2((width - 1) as nat);
    vstd::arithmetic::power2::lemma_pow2_unfold(width);
    vstd::arithmetic::power2::lemma_pow2_pos((width - 1) as nat);
    let v = value as int;
    assert(v >= p ==> v / (p as int) == 1) by (nonlinear_arith)
        requires
            0 <= v < 2 * p,
            p > 0,
    ;
    assert(v < p ==> v / (p as int) == 0) by (nonlinear_arith)
        requires
            0 <= v,
            p > 0,
    ;
    assert(v % (pow2(width) as int) == v) by (nonlinear_arith)
        requires
            0 <= v < pow2(width),
    ;
    vstd::arithmetic::power2::lemma2_to64();
    if width - 1 < 31 {
        vstd::arithmetic::power2::lemma_pow2_strictly_increases((width - 1) as nat, 31);
    }
    assert(p <= 0x8000_0000);
    if v < p {
        assert((value as isize) as int == v);
        assert(!bit_set(value, (width - 1) as nat));
    } else {
        assert(bit_set(value, (width - 1) as nat));
    }
}

proof fn lemma_truncate_bv(x: i32, w: u32)
    by (bit_vector)
    requires
        1 <= w <= 31,
        -((1u32 << ((w - 1) as u32)) as i32) <= x < ((1u32 << ((w - 1) as u32)) as i32),
    ensures
        x >= 0 ==> (x as u32) & (((1u32 << w) - 1) as u32) == x as u32,
        x < 0 ==> ((x as u32) & (((1u32 << w) - 1) as u32)) as int == x as int + (1u32 << w) as int,
{
}

/// A value that fits `width` signed bits is recovered by sign extension from
/// its low `width` bits (its two's complement field).
pub proof fn lemma_sign_extend_roundtrip(v: isize, width: u8)
    requires
        1 <= width <= 31,
        fits_signed(v as int, width as nat),
    ensures
        sign_extended((v as u32) & low_mask(width as u32), width as nat) == v as int,
{
    let w = width as u32;
    let h = (w - 1) as u32;
    vstd::bits::lemma_u32_pow2_no_overflow(w as nat);
    vstd::bits::lemma_u32_shl_is_mul(1u32, w);
    vstd::bits::lemma_u32_pow2_no_overflow(h as nat);
    vstd::bits::lemma_u32_shl_is_mul(1u32, h);
    vstd::arithmetic::power2::lemma_pow2_unfold(w as nat);
    let x = v as i32;
    assert(x as int == v as int);
    lemma_truncate_bv(x, w);
    assert((v as u32) == (x as u32)) by (bit_vector)
        requires
            x == v as i32,
            -0x8000_0000 <= v < 0x8000_0000,
    ;
    let u = (v as u32) & low_mask(w);
    lemma_sign_extended_value(u, width as nat);
}

proof fn lemma_bit_test(value: u32, k: u32)
    requires
        k < 32,
    ensures
        ((value & (1u32 << k)) != 0) == bit_set(value, k as nat),
{
    assert(k < 32 ==> (((value & (1u32 << k)) != 0) == (((value >> k) & 1u32) == 1u32))) by (bit_vector);
    assert(((value >> k) & 1u32) == (value >> k) % 2) by (bit_vector);
    vstd::bits::lemma_u32_shr_is_div(value, k);
}

proof fn lemma_low_mask_is_mod(value: u32, width: u32)
    requires
        width < 32,
    ensures
        1u32 << width == pow2(width as nat),
        (value & ((1u32 << width) - 1) as u32) == value as int % (pow2(width as nat) as int),
{
    vstd::bits::lemma_u32_pow2_no_overflow(width as nat);
    vstd::bits::lemma_u32_shl_is_mul(1u32, width);
    vstd::bits::lemma_u32_low_bits_mask_is_mod(value, width as nat);
    assert(vstd::bits::low_bits_mask(width as nat) == pow2(width as nat) - 1);
}

/// Sign-extends the `width`-bit two's complement number held in the low bits
/// of `value`.
pub fn sign_extend(value: u32, width: u8) -> (r: isize)
    requires
        width <= 32,
        width == 32 ==> value < 0x8000_0000,
    ensures
        r as int == sign_extended(value, width as nat),
{
    if width == 0 {
        return 0;
    }
    let k = (width - 1) as u32;
    proof {
        lemma_bit_test(value, k);
    }
    let sign_bit = 1u32 << k;
    if (value & sign_bit) != 0 {
        let w = width as u32;
        proof {
            if w == 32 {
                assert(value < 0x8000_0000 ==> (value & (1u32 << 31u32)) == 0) by (bit_vector);
            }
            lemma_low_mask_is_mod(value, w);
            lemma_shl_one_positive(w);
            assert(w < 32 && (value & (1u32 << (w - 1) as u32)) != 0 ==> ((value | !(((1u32 << w) - 1) as u32)) as i32) as int
                == (value & (((1u32 << w) - 1) as u32)) as int - (1u32 << w) as int) by (bit_vector);
        }
        let mask = !((1u32 << w) - 1);
        (value | mask) as i32 as isize
    } else {
        value as isize
    }
}

} // verus!
