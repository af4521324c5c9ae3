//! Numbers as sequences of fixed-width binary fields.
//!
//! A packed buffer is modelled by one natural number; a value stored at bit
//! `offset` with `width` bits is the field `(n / 2^offset) % 2^width` of it.
use vstd::arithmetic::div_mod::{
    lemma_div_denominator, lemma_div_pos_is_pos, lemma_fundamental_div_mod,
    lemma_fundamental_div_mod_converse, lemma_mod_breakdown, lemma_mod_multiples_vanish,
    lemma_mod_pos_bound, lemma_small_mod,
};
use vstd::arithmetic::mul::{
    lemma_mul_is_associative, lemma_mul_is_commutative, lemma_mul_is_distributive_add,
    lemma_mul_nonnegative,
};
use vstd::arithmetic::power2::{
    lemma2_to64, lemma_pow2_adds, lemma_pow2_pos, lemma_pow2_strictly_increases,
    lemma_pow2_unfold, pow2,
};
use vstd::bits::{
    lemma_u32_low_bits_mask_is_mod, lemma_u32_pow2_no_overflow, lemma_u32_shl_is_mul,
    lemma_u32_shr_is_div, lemma_u64_low_bits_mask_is_mod, lemma_u64_pow2_no_overflow,
    lemma_u64_shl_is_mul, lemma_u64_shr_is_div,
};
use vstd::prelude::*;

verus! {

/// The `width` bits of `n` that start at bit `offset`, as a number.
pub open spec fn bit_field(n: nat, offset: nat, width: nat) -> nat {
    (n / pow2(offset)) % pow2(width)
}

/// A number below `2^offset` placed under a multiple of `2^offset` can be
/// split off again by division.
pub proof fn lemma_split_low_high(low: nat, high: nat, offset: nat)
    requires
        low < pow2(offset),
    ensures
        (low + pow2(offset) * high) / pow2(offset) == high,
        (low + pow2(offset) * high) % pow2(offset) == low,
{
    let d = pow2(offset) as int;
    lemma_mul_is_commutative(d, high as int);
    lemma_fundamental_div_mod_converse(low + d * high, d, high as int, low as int);
}

/// A field reads only the bits below `offset + width`.
pub proof fn lemma_field_ignores_high(n: nat, high: nat, offset: nat, width: nat)
    ensures
        bit_field(n + pow2(offset + width) * high, offset, width) == bit_field(n, offset, width),
{
    let d = pow2(offset) as int;
    let m = pow2(width) as int;
    lemma_pow2_pos(offset);
    lemma_pow2_pos(width);
    lemma_pow2_adds(offset, width);
    let q = n as int / d;
    let r = n as int % d;
    lemma_fundamental_div_mod(n as int, d);
    lemma_mod_pos_bound(n as int, d);
    assert(d * m * high == d * (m * high)) by {
        lemma_mul_is_associative(d, m, high as int);
    }
    assert(n + pow2(offset + width) * high == r + d * (q + m * high)) by {
        lemma_mul_is_distributive_add(d, q, m * high);
    }
    assert(q >= 0) by {
        lemma_div_pos_is_pos(n as int, d);
    }
    assert(m * high >= 0) by {
        lemma_mul_nonnegative(m, high as int);
    }
    lemma_split_low_high(r as nat, (q + m * high) as nat, offset);
    lemma_mod_multiples_vanish(high as int, q, m);
}

/// A number below `2^offset` has no bits at or above `offset`.
pub proof fn lemma_field_above_is_zero(n: nat, offset: nat, width: nat)
    requires
        n < pow2(offset),
    ensures
        bit_field(n, offset, width) == 0,
{
    lemma_pow2_pos(width);
    lemma_split_low_high(n, 0, offset);
    lemma_small_mod(0, pow2(width));
}

/// Reading a field at `first + second` is reading it at `second` after
/// dropping the lowest `first` bits.
pub proof fn lemma_field_shift(n: nat, first: nat, second: nat, width: nat)
    ensures
        bit_field(n, first + second, width) == bit_field(n / pow2(first), second, width),
{
    lemma_pow2_pos(first);
    lemma_pow2_pos(second);
    lemma_pow2_adds(first, second);
    lemma_div_denominator(n as int, pow2(first) as int, pow2(second) as int);
}

/// Two neighbouring fields read as one.
pub proof fn lemma_field_concat(n: nat, offset: nat, first: nat, second: nat)
    ensures
        bit_field(n, offset, first) + pow2(first) * bit_field(n, offset + first, second)
            == bit_field(n, offset, first + second),
        bit_field(n, offset, first) < pow2(first),
{
    lemma_pow2_pos(offset);
    lemma_pow2_pos(first);
    lemma_pow2_pos(second);
    lemma_pow2_adds(first, second);
    let m = n / pow2(offset);
    lemma_field_shift(n, offset, first, second);
    assert(pow2(0) == 1) by {
        lemma2_to64();
    }
    assert(bit_field(m, first, second) == (m / pow2(first)) % pow2(second));
    lemma_mod_breakdown(m as int, pow2(first) as int, pow2(second) as int);
    lemma_mod_pos_bound(m as int, pow2(first) as int);
}

/// The number whose fields of `width` bits, lowest first, hold the values,
/// each cut to its low `width` bits.
pub open spec fn packed_value(values: Seq<u32>, width: nat) -> nat
    decreases values.len(),
{
    if values.len() == 0 {
        0
    } else {
        values[0] as nat % pow2(width) + pow2(width) * packed_value(values.drop_first(), width)
    }
}

/// `n` values of `width` bits fill no more than `n * width` bits.
pub proof fn lemma_packed_bound(values: Seq<u32>, width: nat)
    ensures
        packed_value(values, width) < pow2(width * values.len()),
    decreases values.len(),
{
    lemma2_to64();
    if values.len() > 0 {
        let rest = values.drop_first();
        lemma_packed_bound(rest, width);
        lemma_pow2_pos(width);
        lemma_mod_pos_bound(values[0] as int, pow2(width) as int);
        let d = pow2(width) as int;
        let t = pow2(width * rest.len()) as int;
        let r = packed_value(rest, width) as int;
        assert(width * values.len() == width + width * rest.len()) by (nonlinear_arith)
            requires
                values.len() == rest.len() + 1,
        ;
        lemma_pow2_adds(width, width * rest.len());
        assert(d * r + d <= d * t) by (nonlinear_arith)
            requires
                r + 1 <= t,
                d > 0,
        ;
    }
}

/// Field `index` of a packed number is the value stored there.
pub proof fn lemma_packed_field(values: Seq<u32>, width: nat, index: nat)
    requires
        index < values.len(),
    ensures
        bit_field(packed_value(values, width), width * index, width) == values[index as int] as nat
            % pow2(width),
    decreases index,
{
    lemma2_to64();
    lemma_pow2_pos(width);
    let low = values[0] as nat % pow2(width);
    let rest = values.drop_first();
    lemma_mod_pos_bound(values[0] as int, pow2(width) as int);
    lemma_split_low_high(low, packed_value(rest, width), width);
    if index == 0 {
        assert(width * index == 0) by (nonlinear_arith)
            requires
                index == 0,
        ;
        assert(pow2(0) == 1);
        assert(packed_value(values, width) == low + pow2(width) * packed_value(rest, width));
        assert(packed_value(values, width) / pow2(0) == packed_value(values, width));
        assert(packed_value(values, width) % pow2(width) == low);
    } else {
        let previous = (index - 1) as nat;
        assert(width * index == width + width * previous) by (nonlinear_arith)
            requires
                index == previous + 1,
        ;
        lemma_field_shift(packed_value(values, width), width, width * previous, width);
        lemma_packed_field(rest, width, previous);
        assert(packed_value(values, width) / pow2(width) == packed_value(rest, width));
        assert(rest[previous as int] == values[index as int]);
    }
}

/// Appending a value adds its low bits above all the fields written so far.
pub proof fn lemma_packed_push(values: Seq<u32>, value: u32, width: nat)
    ensures
        packed_value(values.push(value), width) == packed_value(values, width) + (value as nat
            % pow2(width)) * pow2(width * values.len()),
    decreases values.len(),
{
    lemma2_to64();
    let last = value as nat % pow2(width);
    if values.len() == 0 {
        assert(values.push(value).drop_first() =~= values);
        assert(width * values.len() == 0) by (nonlinear_arith)
            requires
                values.len() == 0,
        ;
        assert(pow2(width) * 0 == 0);
        assert(last * 1 == last) by (nonlinear_arith);
    } else {
        let rest = values.drop_first();
        assert(values.push(value).drop_first() =~= rest.push(value));
        lemma_packed_push(rest, value, width);
        let d = pow2(width) as int;
        let t = pow2(width * rest.len()) as int;
        assert(width * values.len() == width + width * rest.len()) by (nonlinear_arith)
            requires
                values.len() == rest.len() + 1,
        ;
        lemma_pow2_adds(width, width * rest.len());
        let r = packed_value(rest, width) as int;
        assert(d * (r + last * t) == d * r + last * (d * t)) by (nonlinear_arith);
    }
}

/// The fields of `count` consecutive `width`-bit positions of `n`.
pub open spec fn fields_of(n: nat, width: nat, count: nat) -> Seq<u32> {
    Seq::new(count, |index: int| bit_field(n, width * index as nat, width) as u32)
}

/// Packing the first `count` fields of `n` gives back the low
/// `count * width` bits of `n`.
pub proof fn lemma_packed_fields_of(n: nat, width: nat, count: nat)
    requires
        width <= 32,
    ensures
        packed_value(fields_of(n, width, count), width) == n % pow2(width * count),
    decreases count,
{
    lemma2_to64();
    if count == 0 {
        assert(width * count == 0) by (nonlinear_arith)
            requires
                count == 0,
        ;
    } else {
        let shorter = (count - 1) as nat;
        let top = bit_field(n, width * shorter, width);
        lemma_pow2_pos(width);
        lemma_pow2_pos(width * shorter);
        lemma_mod_pos_bound(n as int / pow2(width * shorter) as int, pow2(width) as int);
        lemma_pow2_bound_32(width);
        assert(fields_of(n, width, count) =~= fields_of(n, width, shorter).push(top as u32));
        lemma_packed_push(fields_of(n, width, shorter), top as u32, width);
        lemma_packed_fields_of(n, width, shorter);
        lemma_small_mod(top, pow2(width));
        assert(width * count == width * shorter + width) by (nonlinear_arith)
            requires
                count == shorter + 1,
        ;
        lemma_pow2_adds(width * shorter, width);
        lemma_mod_breakdown(n as int, pow2(width * shorter) as int, pow2(width) as int);
        assert(top * pow2(width * shorter) == pow2(width * shorter) * top) by (nonlinear_arith);
    }
}

/// Powers of two up to `2^32` are at most `2^32`.
pub proof fn lemma_pow2_bound_32(width: nat)
    requires
        width <= 32,
    ensures
        pow2(width) <= 0x1_0000_0000,
{
    lemma2_to64();
    if width < 32 {
        lemma_pow2_strictly_increases(width, 32);
    }
}

/// A field reads nothing at or above bit `boundary` when it ends below it.
pub proof fn lemma_field_ignores_above(n: nat, high: nat, boundary: nat, offset: nat, width: nat)
    requires
        offset + width <= boundary,
    ensures
        bit_field(n + pow2(boundary) * high, offset, width) == bit_field(n, offset, width),
{
    let gap = (boundary - offset - width) as nat;
    lemma_pow2_adds(offset + width, gap);
    lemma_pow2_pos(gap);
    lemma_pow2_pos(offset + width);
    let e = pow2(offset + width) as int;
    let g = pow2(gap) as int;
    assert(e * g * high == e * (g * high)) by {
        lemma_mul_is_associative(e, g, high as int);
    }
    lemma_mul_nonnegative(g, high as int);
    lemma_field_ignores_high(n, (g * high) as nat, offset, width);
}

/// Dropping the first `count` values divides the packed number by
/// `2^(width * count)`.
pub proof fn lemma_packed_skip(values: Seq<u32>, width: nat, count: nat)
    requires
        count <= values.len(),
    ensures
        packed_value(values, width) / pow2(width * count) == packed_value(
            values.skip(count as int),
            width,
        ),
    decreases count,
{
    lemma2_to64();
    if count == 0 {
        assert(width * count == 0) by (nonlinear_arith)
            requires
                count == 0,
        ;
        assert(values.skip(0) =~= values);
    } else {
        let previous = (count - 1) as nat;
        let rest = values.drop_first();
        lemma_pow2_pos(width);
        lemma_pow2_pos(width * previous);
        lemma_mod_pos_bound(values[0] as int, pow2(width) as int);
        lemma_split_low_high(values[0] as nat % pow2(width), packed_value(rest, width), width);
        assert(width * count == width + width * previous) by (nonlinear_arith)
            requires
                count == previous + 1,
        ;
        lemma_pow2_adds(width, width * previous);
        lemma_div_denominator(
            packed_value(values, width) as int,
            pow2(width) as int,
            pow2(width * previous) as int,
        );
        lemma_packed_skip(rest, width, previous);
        assert(rest.skip(previous as int) =~= values.skip(count as int));
    }
}

/// On `u32`, a shift by `width` and a mask of `width` ones are a division
/// and a remainder by `2^width`.
pub proof fn lemma_u32_low_bits(x: u32, width: u32)
    requires
        width < 32,
    ensures
        (1u32 << width) == pow2(width as nat),
        x & (((1u32 << width) - 1) as u32) == x as nat % pow2(width as nat),
        x >> width == x as nat / pow2(width as nat),
{
    lemma_u32_pow2_no_overflow(width as nat);
    lemma_u32_shl_is_mul(1, width);
    lemma_u32_low_bits_mask_is_mod(x, width as nat);
    lemma_u32_shr_is_div(x, width);
}

/// On `u64`, a shift by `width` and a mask of `width` ones are a division
/// and a remainder by `2^width`.
pub proof fn lemma_u64_low_bits(x: u64, width: u64)
    requires
        width < 64,
    ensures
        (1u64 << width) == pow2(width as nat),
        x & (((1u64 << width) - 1) as u64) == x as nat % pow2(width as nat),
        x >> width == x as nat / pow2(width as nat),
{
    lemma_u64_pow2_no_overflow(width as nat);
    lemma_u64_shl_is_mul(1, width);
    lemma_u64_low_bits_mask_is_mod(x, width as nat);
    lemma_u64_shr_is_div(x, width);
}

/// Or-ing a shifted value above a number that ends below the shift adds it.
pub proof fn lemma_u32_or_shifted(low: u32, value: u32, shift: u32)
    requires
        shift < 32,
        low < pow2(shift as nat),
        value * pow2(shift as nat) <= u32::MAX,
    ensures
        low | (value << shift) == low + value * pow2(shift as nat),
{
    lemma_u32_pow2_no_overflow(shift as nat);
    lemma_u32_shl_is_mul(1, shift);
    lemma_u32_shl_is_mul(value, shift);
    assert(low | (value << shift) == low + (value << shift)) by (bit_vector)
        requires
            shift < 32,
            low < (1u32 << shift),
    ;
}

/// Or-ing a shifted value above a number that ends below the shift adds it.
pub proof fn lemma_u64_or_shifted(low: u64, value: u64, shift: u64)
    requires
        shift < 64,
        low < pow2(shift as nat),
        value * pow2(shift as nat) <= u64::MAX,
    ensures
        low | (value << shift) == low + value * pow2(shift as nat),
{
    lemma_u64_pow2_no_overflow(shift as nat);
    lemma_u64_shl_is_mul(1, shift);
    lemma_u64_shl_is_mul(value, shift);
    assert(low | (value << shift) == low + (value << shift)) by (bit_vector)
        requires
            shift < 64,
            low < (1u64 << shift),
    ;
}

/// The `width` bits that start at bit `shift` of the 64-bit number
/// `hi * 2^32 + lo`, by shifts and masks.
pub open spec fn window(lo: u32, hi: u32, shift: u32, width: u32) -> u32 {
    ((((hi as u64) << 32 | (lo as u64)) >> (shift as u64)) & !(0xFFFF_FFFF_FFFF_FFFFu64 << (
    width as u64))) as u32
}

/// The shifts and masks of `window` compute a bit field of `hi * 2^32 + lo`.
pub proof fn lemma_window_is_field(lo: u32, hi: u32, shift: u32, width: u32)
    requires
        shift < 32,
        width <= 32,
    ensures
        window(lo, hi, shift, width) == bit_field(
            lo as nat + pow2(32) * hi as nat,
            shift as nat,
            width as nat,
        ),
        window(lo, hi, shift, width) < pow2(width as nat),
{
    lemma2_to64();
    let joined = (hi as u64) << 32 | (lo as u64);
    assert(joined == lo + 0x1_0000_0000 * hi) by (bit_vector)
        requires
            joined == (hi as u64) << 32 | (lo as u64),
    ;
    let mask = !(0xFFFF_FFFF_FFFF_FFFFu64 << (width as u64));
    assert(mask == (1u64 << (width as u64)) - 1) by (bit_vector)
        requires
            width <= 32,
            mask == !(0xFFFF_FFFF_FFFF_FFFFu64 << (width as u64)),
    ;
    lemma_u64_low_bits(joined, shift as u64);
    lemma_u64_low_bits(joined >> (shift as u64), width as u64);
    lemma_pow2_pos(width as nat);
    lemma_pow2_bound_32(width as nat);
    lemma_mod_pos_bound((joined >> (shift as u64)) as int, pow2(width as nat) as int);
}

/// A field of at most 32 bits of a sequence of 32-bit words lies in one
/// word or in two neighbours.
pub proof fn lemma_word_window(words: Seq<u32>, width: nat, index: nat)
    requires
        1 <= width <= 32,
        width * index + width <= 32 * words.len(),
    ensures
        ({
            let first = (width * index) / 32;
            let shift = (width * index) % 32;
            let lo = words[first as int];
            let hi = if shift + width > 32 {
                words[first as int + 1]
            } else {
                0u32
            };
            &&& first < words.len()
            &&& shift + width > 32 ==> first + 1 < words.len()
            &&& bit_field(packed_value(words, 32), width * index, width) == bit_field(
                lo as nat + pow2(32) * hi as nat,
                shift,
                width,
            )
        }),
{
    lemma2_to64();
    let offset = width * index;
    let first = offset / 32;
    let shift = offset % 32;
    assert(offset == 32 * first + shift) by {
        lemma_fundamental_div_mod(offset as int, 32);
    }
    let total = packed_value(words, 32);
    let tail = words.skip(first as int);
    lemma_packed_skip(words, 32, first);
    lemma_field_shift(total, 32 * first, shift, width);
    let after = packed_value(tail.drop_first(), 32);
    assert(tail[0] == words[first as int]);
    lemma_small_mod(tail[0] as nat, pow2(32));
    assert(packed_value(tail, 32) == tail[0] as nat + pow2(32) * after);
    if shift + width > 32 {
        let rest = tail.drop_first();
        assert(rest[0] == words[first as int + 1]);
        lemma_small_mod(rest[0] as nat, pow2(32));
        let beyond = packed_value(rest.drop_first(), 32);
        assert(after == rest[0] as nat + pow2(32) * beyond);
        lemma_pow2_adds(32, 32);
        assert(pow2(32) * (rest[0] as nat + pow2(32) * beyond) == pow2(32) * rest[0] as nat + pow2(
            64,
        ) * beyond) by (nonlinear_arith)
            requires
                pow2(64) == pow2(32) * pow2(32),
        ;
        lemma_field_ignores_above(
            tail[0] as nat + pow2(32) * rest[0] as nat,
            beyond,
            64,
            shift,
            width,
        );
    } else {
        lemma_field_ignores_above(tail[0] as nat, after, 32, shift, width);
        assert(pow2(32) * 0 == 0);
    }
}

/// The value of field `index` among fields of `width` bits packed into
/// 32-bit words, lowest bit first and without padding.
pub open spec fn stored_field(words: Seq<u32>, width: nat, index: nat) -> nat {
    bit_field(packed_value(words, 32), width * index, width)
}

/// Field `index` read through the window over the one or two words that
/// hold it.
pub open spec fn window_at(words: Seq<u32>, width: nat, index: nat) -> u32 {
    let first = (width * index) / 32;
    let shift = (width * index) % 32;
    let hi = if shift + width > 32 {
        words[first as int + 1]
    } else {
        0u32
    };
    window(words[first as int], hi, shift as u32, width as u32)
}

/// The window over the words that hold a field computes that field.
pub proof fn lemma_window_at_is_field(words: Seq<u32>, width: nat, index: nat)
    requires
        1 <= width <= 32,
        width * index + width <= 32 * words.len(),
    ensures
        window_at(words, width, index) == stored_field(words, width, index),
{
    lemma_word_window(words, width, index);
    let first = (width * index) / 32;
    let shift = (width * index) % 32;
    let hi = if shift + width > 32 {
        words[first as int + 1]
    } else {
        0u32
    };
    lemma_window_is_field(words[first as int], hi, shift as u32, width as u32);
}

/// Thirty-two values read through windows are the first 32 fields.
pub proof fn lemma_windows_are_fields(words: Seq<u32>, width: nat, out: Seq<u32>)
    requires
        1 <= width <= 32,
        words.len() >= width,
        out.len() >= 32,
        out[0] == window_at(words, width, 0),
        out[1] == window_at(words, width, 1),
        out[2] == window_at(words, width, 2),
        out[3] == window_at(words, width, 3),
        out[4] == window_at(words, width, 4),
        out[5] == window_at(words, width, 5),
        out[6] == window_at(words, width, 6),
        out[7] == window_at(words, width, 7),
        out[8] == window_at(words, width, 8),
        out[9] == window_at(words, width, 9),
        out[10] == window_at(words, width, 10),
        out[11] == window_at(words, width, 11),
        out[12] == window_at(words, width, 12),
        out[13] == window_at(words, width, 13),
        out[14] == window_at(words, width, 14),
        out[15] == window_at(words, width, 15),
        out[16] == window_at(words, width, 16),
        out[17] == window_at(words, width, 17),
        out[18] == window_at(words, width, 18),
        out[19] == window_at(words, width, 19),
        out[20] == window_at(words, width, 20),
        out[21] == window_at(words, width, 21),
        out[22] == window_at(words, width, 22),
        out[23] == window_at(words, width, 23),
        out[24] == window_at(words, width, 24),
        out[25] == window_at(words, width, 25),
        out[26] == window_at(words, width, 26),
        out[27] == window_at(words, width, 27),
        out[28] == window_at(words, width, 28),
        out[29] == window_at(words, width, 29),
        out[30] == window_at(words, width, 30),
        out[31] == window_at(words, width, 31),
    ensures
        forall|i: int| 0 <= i < 32 ==> out[i] == stored_field(words, width, i as nat),
{
    lemma_window_at_is_field(words, width, 0);
    lemma_window_at_is_field(words, width, 1);
    lemma_window_at_is_field(words, width, 2);
    lemma_window_at_is_field(words, width, 3);
    lemma_window_at_is_field(words, width, 4);
    lemma_window_at_is_field(words, width, 5);
    lemma_window_at_is_field(words, width, 6);
    lemma_window_at_is_field(words, width, 7);
    lemma_window_at_is_field(words, width, 8);
    lemma_window_at_is_field(words, width, 9);
    lemma_window_at_is_field(words, width, 10);
    lemma_window_at_is_field(words, width, 11);
    lemma_window_at_is_field(words, width, 12);
    lemma_window_at_is_field(words, width, 13);
    lemma_window_at_is_field(words, width, 14);
    lemma_window_at_is_field(words, width, 15);
    lemma_window_at_is_field(words, width, 16);
    lemma_window_at_is_field(words, width, 17);
    lemma_window_at_is_field(words, width, 18);
    lemma_window_at_is_field(words, width, 19);
    lemma_window_at_is_field(words, width, 20);
    lemma_window_at_is_field(words, width, 21);
    lemma_window_at_is_field(words, width, 22);
    lemma_window_at_is_field(words, width, 23);
    lemma_window_at_is_field(words, width, 24);
    lemma_window_at_is_field(words, width, 25);
    lemma_window_at_is_field(words, width, 26);
    lemma_window_at_is_field(words, width, 27);
    lemma_window_at_is_field(words, width, 28);
    lemma_window_at_is_field(words, width, 29);
    lemma_window_at_is_field(words, width, 30);
    lemma_window_at_is_field(words, width, 31);
}

/// The bytes of the words, each word lowest byte first.
pub open spec fn le_bytes(words: Seq<u32>) -> Seq<u8> {
    Seq::new(
        4 * words.len(),
        |j: int| bit_field(words[j / 4] as nat, 8 * (j % 4) as nat, 8) as u8,
    )
}

/// The number whose bytes, lowest first, are `bytes`.
pub open spec fn le_value(bytes: Seq<u8>) -> nat
    decreases bytes.len(),
{
    if bytes.len() == 0 {
        0
    } else {
        bytes[0] as nat + 256 * le_value(bytes.drop_first())
    }
}

/// The numbers in the consecutive chunks of `size` bytes, each chunk lowest
/// byte first. Bytes after the last whole chunk are not read.
pub open spec fn le_chunks(bytes: Seq<u8>, size: nat) -> Seq<u32> {
    Seq::new(
        bytes.len() / size,
        |k: int| le_value(bytes.subrange(k * size, k * size + size)) as u32,
    )
}

/// A number of `n` bytes is below `2^(8 n)`.
pub proof fn lemma_le_value_bound(bytes: Seq<u8>)
    ensures
        le_value(bytes) < pow2(8 * bytes.len()),
    decreases bytes.len(),
{
    lemma2_to64();
    if bytes.len() > 0 {
        let rest = bytes.drop_first();
        lemma_le_value_bound(rest);
        lemma_pow2_adds(8, 8 * rest.len());
        let r = le_value(rest) as int;
        let t = pow2(8 * rest.len()) as int;
        assert(256 * r + 256 <= 256 * t) by (nonlinear_arith)
            requires
                r + 1 <= t,
        ;
    }
}

/// The 8-bit fields of `n` from bit `offset` on.
pub open spec fn byte_fields(n: nat, offset: nat, count: nat) -> Seq<u8> {
    Seq::new(count, |t: int| bit_field(n, offset + 8 * t as nat, 8) as u8)
}

/// Consecutive 8-bit fields of a number, lowest first, spell the field that
/// they make up together.
pub proof fn lemma_le_value_of_fields(n: nat, offset: nat, count: nat)
    ensures
        le_value(byte_fields(n, offset, count)) == bit_field(n, offset, 8 * count),
    decreases count,
{
    lemma2_to64();
    let bytes = byte_fields(n, offset, count);
    if count == 0 {
        lemma_pow2_pos(offset);
    } else {
        let fewer = (count - 1) as nat;
        lemma_field_concat(n, offset, 8, 8 * fewer);
        assert(bytes.drop_first() =~= byte_fields(n, offset + 8, fewer));
        lemma_le_value_of_fields(n, offset + 8, fewer);
    }
}

/// The bytes of words, read back four at a time, are the words.
pub proof fn lemma_le_chunks_of_le_bytes(words: Seq<u32>)
    ensures
        le_chunks(le_bytes(words), 4) == words,
{
    lemma2_to64();
    let bytes = le_bytes(words);
    assert forall|k: int| 0 <= k < words.len() implies le_value(
        #[trigger] bytes.subrange(k * 4, k * 4 + 4),
    ) == words[k] by {
        let n = words[k] as nat;
        let chunk = bytes.subrange(k * 4, k * 4 + 4);
        assert(chunk =~= byte_fields(n, 0, 4)) by {
            assert forall|t: int| 0 <= t < 4 implies chunk[t] == bit_field(
                n,
                0 + 8 * t as nat,
                8,
            ) as u8 by {
                assert((k * 4 + t) / 4 == k);
                assert((k * 4 + t) % 4 == t);
            }
        }
        lemma_le_value_of_fields(n, 0, 4);
        lemma_small_mod(n, pow2(32));
    }
    assert(le_chunks(bytes, 4) =~= words);
}

/// The number of bits of `n` up to its highest set bit; zero for zero.
pub open spec fn bit_length(n: nat) -> nat
    decreases n,
{
    if n == 0 {
        0
    } else {
        1 + bit_length(n / 2)
    }
}

/// A number above zero lies between the powers of two around its bit
/// length.
pub proof fn lemma_bit_length_bounds(n: nat)
    requires
        n > 0,
    ensures
        bit_length(n) >= 1,
        pow2((bit_length(n) - 1) as nat) <= n < pow2(bit_length(n)),
    decreases n,
{
    lemma2_to64();
    if n == 1 {
        assert(bit_length(1) == 1 + bit_length(0));
    } else {
        lemma_bit_length_bounds(n / 2);
        let half = bit_length(n / 2);
        assert(bit_length(n) == 1 + half);
        lemma_pow2_unfold(half);
        lemma_pow2_unfold(1 + half);
    }
}

/// The bit length of a number is the one width `b` with
/// `2^(b-1) <= n < 2^b`.
pub proof fn lemma_bit_length(n: nat, width: nat)
    requires
        n > 0,
        width >= 1,
        pow2((width - 1) as nat) <= n < pow2(width),
    ensures
        bit_length(n) == width,
    decreases width,
{
    lemma2_to64();
    if width == 1 {
        assert(n == 1);
        assert(bit_length(1) == 1 + bit_length(0));
    } else {
        lemma_pow2_unfold(width);
        lemma_pow2_unfold((width - 1) as nat);
        lemma_bit_length(n / 2, (width - 1) as nat);
    }
}

/// Field `index` of the `group`-th run of `width` words is field
/// `32 * group + index` of all the words: 32 fields of `width` bits fill
/// `width` words exactly.
pub proof fn lemma_group_field(words: Seq<u32>, width: nat, group: nat, index: nat)
    requires
        1 <= width <= 32,
        index < 32,
        group * width + width <= words.len(),
    ensures
        stored_field(
            words.subrange((group * width) as int, (group * width + width) as int),
            width,
            index,
        ) == stored_field(words, width, 32 * group + index),
{
    let start = group * width;
    let run = words.subrange(start as int, (start + width) as int);
    let whole = 32 * group + index;
    assert(width * index + width <= 32 * run.len()) by (nonlinear_arith)
        requires
            index < 32,
            run.len() == width,
    ;
    assert(width * whole + width <= 32 * words.len() && width * whole == 32 * start + width
        * index) by (nonlinear_arith)
        requires
            whole == 32 * group + index,
            index < 32,
            start == group * width,
            start + width <= words.len(),
    ;
    lemma_word_window(run, width, index);
    lemma_word_window(words, width, whole);
    lemma_window_at_is_field(run, width, index);
    lemma_window_at_is_field(words, width, whole);
    let first = (width * index) / 32;
    let shift = (width * index) % 32;
    lemma_fundamental_div_mod((width * index) as int, 32);
    lemma_fundamental_div_mod_converse(
        (width * whole) as int,
        32,
        (start + first) as int,
        shift as int,
    );
    assert(run[first as int] == words[(start + first) as int]);
    if shift + width > 32 {
        assert(run[first as int + 1] == words[(start + first) as int + 1]);
    }
}

} // verus!
