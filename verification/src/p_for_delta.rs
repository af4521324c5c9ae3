//! Batched PForDelta: 128 values packed at one adaptive width, with the
//! values that do not fit patched in from a list of exceptions.
pub mod chain;
pub mod decompress;

use crate::digits::{
    bit_field, bit_length, byte_fields, fields_of, le_chunks, le_value, lemma_bit_length,
    lemma_bit_length_bounds, lemma_field_above_is_zero, lemma_field_concat, lemma_group_field,
    lemma_le_value_bound, lemma_le_value_of_fields, lemma_packed_bound, lemma_packed_field,
    lemma_packed_fields_of, lemma_pow2_bound_32, lemma_split_low_high, lemma_u32_low_bits,
    lemma_u64_low_bits, lemma_u64_or_shifted, lemma_window_at_is_field, lemma_window_is_field,
    lemma_word_window, packed_value, stored_field, window, window_at,
};
use chain::{
    ascending, chain_of, exception_chain, forced_between, lemma_exception_chain, lemma_linked,
    lemma_outliers, lemma_patched_slots, lemma_slots_fit, linked, outliers, patched, rising,
    slots_of, values_of, walk_ok,
};
use decompress::{
    decompress_10_bit, decompress_11_bit, decompress_12_bit, decompress_13_bit,
    decompress_14_bit, decompress_15_bit, decompress_16_bit, decompress_1_bit,
    decompress_2_bit, decompress_3_bit, decompress_4_bit, decompress_5_bit, decompress_6_bit,
    decompress_7_bit, decompress_8_bit, decompress_9_bit,
};
use vstd::arithmetic::div_mod::{
    lemma_fundamental_div_mod_converse, lemma_mod_pos_bound, lemma_small_mod,
};
use vstd::arithmetic::power2::{
    lemma2_to64, lemma2_to64_rest, lemma_pow2_adds, lemma_pow2_pos,
    lemma_pow2_strictly_increases, pow2,
};
use vstd::prelude::*;
use vstd::std_specs::bits::axiom_u32_leading_zeros;

verus! {

/// Number of values in a batch.
pub const BATCH_SIZE: usize = 128;

/// The place of the value that decides the width of a batch: nine tenths
/// of the way through it.
pub const SAMPLE_INDEX: usize = 114;

/// The size at which the exceptions of a batch are stored.
#[derive(Debug, Clone, Copy, PartialEq, Eq)]
pub enum ExceptionSize {
    Bits8,
    Bits16,
    Bits32,
}

impl ExceptionSize {
    /// The smallest size that holds `max_val`.
    pub open spec fn for_max(max_val: u32) -> ExceptionSize {
        if max_val <= 0xFF {
            ExceptionSize::Bits8
        } else if max_val <= 0xFFFF {
            ExceptionSize::Bits16
        } else {
            ExceptionSize::Bits32
        }
    }

    /// The number of bits of the size.
    pub open spec fn bit_count(self) -> nat {
        match self {
            ExceptionSize::Bits8 => 8,
            ExceptionSize::Bits16 => 16,
            ExceptionSize::Bits32 => 32,
        }
    }

    /// The size for a batch whose largest value is `max_val`.
    pub fn from_max_value(max_val: u32) -> (size: Self)
        ensures
            size == Self::for_max(max_val),
    {
        if max_val <= 0xFF {
            ExceptionSize::Bits8
        } else if max_val <= 0xFFFF {
            ExceptionSize::Bits16
        } else {
            ExceptionSize::Bits32
        }
    }

    /// The number of bits of the size: 8, 16 or 32.
    pub fn bits(&self) -> (bits: usize)
        ensures
            bits == self.bit_count(),
    {
        match self {
            ExceptionSize::Bits8 => 8,
            ExceptionSize::Bits16 => 16,
            ExceptionSize::Bits32 => 32,
        }
    }
}

/// The width of a batch: the bit length of its sample value, and 1 where
/// that value is zero.
pub open spec fn optimal_width(values: Seq<u32>) -> nat {
    if values[SAMPLE_INDEX as int] == 0 {
        1
    } else {
        bit_length(values[SAMPLE_INDEX as int] as nat)
    }
}

/// The width for a batch: the least number of bits that holds the value at
/// `SAMPLE_INDEX`, and never less than one bit.
pub fn find_optimal_b(values: &[u32]) -> (b: usize)
    requires
        values@.len() > SAMPLE_INDEX,
    ensures
        b == optimal_width(values@),
        1 <= b <= 32,
        values@[SAMPLE_INDEX as int] < pow2(b as nat),
        values@[SAMPLE_INDEX as int] == 0 ==> b == 1,
        values@[SAMPLE_INDEX as int] > 0 ==> pow2((b - 1) as nat) <= values@[SAMPLE_INDEX as int],
{
    let val_90 = values[SAMPLE_INDEX];
    if val_90 == 0 {
        proof {
            lemma2_to64();
        }
        return 1;
    }
    let zeros = val_90.leading_zeros();
    proof {
        axiom_u32_leading_zeros(val_90);
        lemma2_to64();
        let width = (32 - zeros) as u32;
        let top = (width - 1) as u32;
        assert(top == 31u32 - zeros) by (bit_vector)
            requires
                zeros < 32,
                top == 31 - zeros,
        ;
        lemma_u32_low_bits(val_90, top);
        assert((val_90 >> top) != 0) by (bit_vector)
            requires
                (val_90 >> top) & 1u32 != 0u32,
        ;
        lemma_pow2_pos(top as nat);
        assert(val_90 >= pow2(top as nat)) by (nonlinear_arith)
            requires
                val_90 as nat / pow2(top as nat) >= 1,
                pow2(top as nat) > 0,
        ;
        if width < 32 {
            assert(width == 32u32 - zeros) by (bit_vector)
                requires
                    zeros <= 32,
                    width == 32 - zeros,
            ;
            lemma_u32_low_bits(val_90, width);
            lemma_pow2_pos(width as nat);
            assert(val_90 < pow2(width as nat)) by (nonlinear_arith)
                requires
                    val_90 as nat / pow2(width as nat) == 0,
                    pow2(width as nat) > 0,
            ;
        }
        lemma_bit_length(val_90 as nat, width as nat);
    }
    let b = 32 - zeros as usize;
    b
}

/// Reads the consecutive chunks of `chunk_size` bytes as numbers, each
/// lowest byte first. Bytes after the last whole chunk are left unread.
pub fn u8_chunks_to_u32_vec(bytes: &[u8], chunk_size: usize) -> (numbers: Vec<u32>)
    requires
        1 <= chunk_size <= 4,
    ensures
        numbers@ == le_chunks(bytes@, chunk_size as nat),
{
    let length = bytes.len();
    let count = length / chunk_size;
    let mut numbers: Vec<u32> = Vec::with_capacity(count);
    let mut k: usize = 0;
    while k < count
        invariant
            1 <= chunk_size <= 4,
            length == bytes@.len(),
            count == bytes@.len() / chunk_size as nat,
            k <= count,
            numbers@ == le_chunks(bytes@, chunk_size as nat).subrange(0, k as int),
        decreases count - k,
    {
        assert(k * chunk_size + chunk_size <= bytes@.len()) by (nonlinear_arith)
            requires
                k < count,
                count == bytes@.len() / chunk_size as nat,
                chunk_size >= 1,
        ;
        let base = k * chunk_size;
        let ghost chunk = bytes@.subrange(base as int, base + chunk_size);
        let mut value: u32 = 0;
        let mut t: usize = chunk_size;
        proof {
            lemma2_to64();
            assert(chunk.subrange(chunk_size as int, chunk_size as int) =~= Seq::<u8>::empty());
        }
        while t > 0
            invariant
                1 <= chunk_size <= 4,
                t <= chunk_size,
                length == bytes@.len(),
                base + chunk_size <= length,
                chunk == bytes@.subrange(base as int, base + chunk_size),
                value == le_value(chunk.subrange(t as int, chunk_size as int)),
            decreases t,
        {
            t = t - 1;
            let byte = bytes[base + t];
            proof {
                let longer = chunk.subrange(t as int, chunk_size as int);
                let shorter = chunk.subrange(t + 1, chunk_size as int);
                assert(longer.drop_first() =~= shorter);
                assert(longer[0] == byte);
                lemma2_to64();
                lemma_le_value_bound(shorter);
                if shorter.len() < 3 {
                    lemma_pow2_strictly_increases(8 * shorter.len(), 24);
                }
                assert((value << 8) | (byte as u32) == value * 256 + byte) by (bit_vector)
                    requires
                        value < 0x100_0000,
                ;
            }
            value = (value << 8) | (byte as u32);
        }
        proof {
            assert(chunk.subrange(0, chunk_size as int) =~= chunk);
            let all = le_chunks(bytes@, chunk_size as nat);
            assert(all[k as int] == le_value(chunk) as u32);
            lemma_le_value_bound(chunk);
            if chunk.len() < 4 {
                lemma_pow2_strictly_increases(8 * chunk.len(), 32);
            }
            assert(all.subrange(0, k + 1) =~= all.subrange(0, k as int).push(value));
        }
        numbers.push(value);
        k = k + 1;
    }
    proof {
        let all = le_chunks(bytes@, chunk_size as nat);
        assert(all.subrange(0, k as int) =~= all);
    }
    numbers
}

/// Number of bytes that hold `count` values of `width` bits each.
pub open spec fn packed_len(count: nat, width: nat) -> nat {
    (count * width + 7) / 8
}

/// The bytes that hold the low `width` bits of each value, one value after
/// another from the lowest bit of the first byte on. The bits of the last
/// byte that no value reaches are zero.
pub open spec fn packed_bytes(values: Seq<u32>, width: nat) -> Seq<u8> {
    Seq::new(
        packed_len(values.len(), width),
        |j: int| bit_field(packed_value(values, width), 8 * j as nat, 8) as u8,
    )
}

/// Appends to `output` the values packed at `bits_per_value` bits each.
///
/// The values are taken one by one; the bits of a value that do not fill a
/// whole byte wait in a remainder for the next value.
pub fn write_packed_bits(output: &mut Vec<u8>, values: &[u32], bits_per_value: usize)
    requires
        1 <= bits_per_value <= 32,
    ensures
        final(output)@ == old(output)@ + packed_bytes(values@, bits_per_value as nat),
{
    let width = bits_per_value as u64;
    proof {
        lemma_u64_low_bits(0, width);
        lemma_pow2_pos(width as nat);
    }
    let mask: u64 = (1u64 << width) - 1;
    let ghost total = packed_value(values@, width as nat);
    let ghost written: Seq<u8> = Seq::empty();
    let mut remainder: u64 = 0;
    let mut pending: u64 = 0;
    let mut i: usize = 0;
    proof {
        lemma2_to64();
        assert(old(output)@ + written =~= old(output)@);
    }
    while i < values.len()
        invariant
            1 <= width <= 32,
            width == bits_per_value,
            mask == pow2(width as nat) - 1,
            total == packed_value(values@, width as nat),
            i <= values@.len(),
            pending < 8,
            8 * written.len() + pending == i * width,
            remainder == bit_field(total, 8 * written.len(), pending as nat),
            output@ == old(output)@ + written,
            forall|j: int|
                0 <= j < written.len() ==> written[j] == bit_field(total, 8 * j as nat, 8),
        decreases values@.len() - i,
    {
        let value = values[i] as u64 & mask;
        proof {
            lemma2_to64();
            lemma_u64_low_bits(values[i as int] as u64, width);
            lemma_packed_field(values@, width as nat, i as nat);
            lemma_field_concat(total, 8 * written.len(), pending as nat, width as nat);
            lemma_pow2_pos(pending as nat);
            assert(8 * written.len() + pending == width as nat * i as nat) by (nonlinear_arith)
                requires
                    8 * written.len() + pending == i * width,
            ;
            assert(value < pow2(width as nat));
            lemma_pow2_adds(width as nat, pending as nat);
            lemma_pow2_strictly_increases((width + pending) as nat, 40);
            lemma2_to64_rest();
            assert(value * pow2(pending as nat) < pow2((width + pending) as nat))
                by (nonlinear_arith)
                requires
                    value < pow2(width as nat),
                    pow2(pending as nat) > 0,
                    pow2((width + pending) as nat) == pow2(width as nat) * pow2(pending as nat),
            ;
            lemma_u64_or_shifted(remainder, value, pending);
            assert(pow2(pending as nat) * value == value * pow2(pending as nat))
                by (nonlinear_arith);
        }
        remainder = remainder | (value << pending);
        pending = pending + width;
        assert(8 * written.len() + pending == (i + 1) * width) by (nonlinear_arith)
            requires
                8 * written.len() + pending - width == i * width,
        ;
        while pending >= 8
            invariant
                pending < 40,
                8 * written.len() + pending == (i + 1) * width,
                remainder == bit_field(total, 8 * written.len(), pending as nat),
                output@ == old(output)@ + written,
                forall|j: int|
                    0 <= j < written.len() ==> written[j] == bit_field(total, 8 * j as nat, 8),
            decreases pending,
        {
            assert(remainder & 0xFF == remainder % 256) by (bit_vector);
            let byte = (remainder & 0xFF) as u8;
            proof {
                lemma2_to64();
                lemma_field_concat(total, 8 * written.len(), 8, (pending - 8) as nat);
                let low = bit_field(total, 8 * written.len(), 8);
                let high = bit_field(total, 8 * written.len() + 8, (pending - 8) as nat);
                lemma_split_low_high(low, high, 8);
                assert(remainder >> 8 == remainder / 256) by (bit_vector);
                assert(old(output)@ + written.push(byte) =~= (old(output)@ + written).push(byte));
                written = written.push(byte);
            }
            output.push(byte);
            remainder = remainder >> 8;
            pending = pending - 8;
        }
        i = i + 1;
    }
    proof {
        let count = values@.len();
        lemma_packed_bound(values@, width as nat);
        assert(width as nat * count == 8 * written.len() + pending && count * width as nat == 8
            * written.len() + pending) by (nonlinear_arith)
            requires
                8 * written.len() + pending == i * width,
                i == count,
        ;
    }
    if pending > 0 {
        proof {
            lemma2_to64();
            lemma_field_concat(total, 8 * written.len(), pending as nat, (8 - pending) as nat);
            lemma_pow2_strictly_increases(pending as nat, 8);
        }
        let byte = remainder as u8;
        proof {
            lemma_field_above_is_zero(
                total,
                8 * written.len() + pending as nat,
                (8 - pending) as nat,
            );
            assert(pow2(pending as nat) * 0 == 0);
            assert(old(output)@ + written.push(byte) =~= (old(output)@ + written).push(byte));
            written = written.push(byte);
        }
        output.push(byte);
    }
    proof {
        assert(written =~= packed_bytes(values@, bits_per_value as nat));
    }
}

/// The largest of the first `end` values; zero where there is none.
pub open spec fn largest(values: Seq<u32>, end: nat) -> u32
    decreases end,
{
    if end == 0 {
        0
    } else {
        let before = largest(values, (end - 1) as nat);
        if values[end - 1] > before {
            values[end - 1]
        } else {
            before
        }
    }
}

/// No value before `end` is above the largest of them.
pub proof fn lemma_largest(values: Seq<u32>, end: nat)
    requires
        end <= values.len(),
    ensures
        forall|i: int| 0 <= i < end ==> values[i] <= largest(values, end),
    decreases end,
{
    if end > 0 {
        lemma_largest(values, (end - 1) as nat);
    }
}

/// The largest value of a batch. In a batch in ascending order it is the
/// last value.
fn largest_value(values: &[u32]) -> (max_val: u32)
    ensures
        max_val == largest(values@, values@.len()),
{
    let mut max_val: u32 = 0;
    let mut i: usize = 0;
    while i < values.len()
        invariant
            i <= values@.len(),
            max_val == largest(values@, i as nat),
        decreases values@.len() - i,
    {
        if values[i] > max_val {
            max_val = values[i];
        }
        i = i + 1;
    }
    max_val
}

/// The exception values as bytes: `size` bytes for each, lowest first.
pub open spec fn exception_bytes(exceptions: Seq<u32>, size: nat) -> Seq<u8> {
    Seq::new(
        exceptions.len() * size,
        |j: int| bit_field(exceptions[j / size as int] as nat, 8 * (j % size as int) as nat, 8) as u8,
    )
}

/// The place of the first link of a chain as the header stores it; 127
/// where the chain is empty.
pub open spec fn first_place(links: Seq<(usize, u32)>) -> u8 {
    if links.len() == 0 {
        127
    } else {
        links[0].0 as u8
    }
}

/// The compressed form of a batch: the header of three bytes (the width, the
/// number of bits of an exception, the place of the first exception), the
/// packed slots, and the exception values in the order of the chain.
pub open spec fn batch_encoding(values: Seq<u32>) -> Seq<u8> {
    let width = optimal_width(values);
    let links = exception_chain(values, width);
    let size = ExceptionSize::for_max(largest(values, values.len()));
    seq![width as u8, size.bit_count() as u8, first_place(links)] + packed_bytes(
        slots_of(values, links),
        width,
    ) + exception_bytes(values_of(links), size.bit_count() / 8)
}

/// Adds to a list of exceptions the places that must become exceptions for
/// the chain to hold: between two exceptions that lie more than `2^b` places
/// apart, every `2^b`-th place after the first of the two.
pub fn force_intermediate_exceptions(exceptions: &[(usize, u32)], b: usize, values: &[u32]) -> (result:
    Vec<(usize, u32)>)
    requires
        1 <= b <= 32,
        ascending(exceptions@, values@.len()),
    ensures
        result@ == chain_of(exceptions@, values@, pow2(b as nat) as int, exceptions@.len()),
{
    if exceptions.len() == 0 {
        return Vec::new();
    }
    proof {
        lemma_u64_low_bits(0, b as u64);
        lemma_pow2_pos(b as nat);
    }
    let step: u64 = 1u64 << (b as u64);
    let count = exceptions.len();
    let mut result: Vec<(usize, u32)> = Vec::new();
    let mut i: usize = 0;
    while i < count
        invariant
            count == exceptions@.len(),
            i <= count,
            step == pow2(b as nat),
            step >= 1,
            ascending(exceptions@, values@.len()),
            result@ == chain_of(exceptions@, values@, step as int, i as nat),
        decreases count - i,
    {
        result.push(exceptions[i]);
        if i + 1 < count {
            let curr_idx = exceptions[i].0;
            let next_idx = exceptions[i + 1].0;
            let ghost base = result@;
            let mut pos = curr_idx;
            proof {
                assert(exceptions@[i as int].0 < exceptions@[i + 1].0);
                assert(base + forced_between(values@, curr_idx as int, next_idx as int, step as int)
                    =~= chain_of(exceptions@, values@, step as int, (i + 1) as nat));
            }
            while (next_idx - pos) as u64 > step
                invariant
                    curr_idx <= pos < next_idx < values@.len(),
                    step >= 1,
                    result@ + forced_between(values@, pos as int, next_idx as int, step as int)
                        == base + forced_between(
                        values@,
                        curr_idx as int,
                        next_idx as int,
                        step as int,
                    ),
                decreases next_idx - pos,
            {
                let ghost before = result@;
                let ghost here = pos as int;
                pos = pos + step as usize;
                result.push((pos, values[pos]));
                proof {
                    let rest = forced_between(values@, pos as int, next_idx as int, step as int);
                    assert(forced_between(values@, here, next_idx as int, step as int) == seq![
                        (pos, values@[pos as int]),
                    ] + rest);
                    assert(result@ + rest =~= before + (seq![(pos, values@[pos as int])] + rest));
                }
            }
            proof {
                assert(forced_between(values@, pos as int, next_idx as int, step as int)
                    =~= Seq::<(usize, u32)>::empty());
                assert(result@ + Seq::<(usize, u32)>::empty() =~= result@);
            }
        }
        i = i + 1;
    }
    result
}

/// Appends the `size` low bytes of `value`, lowest first.
fn push_le_bytes(output: &mut Vec<u8>, value: u32, size: usize)
    requires
        1 <= size <= 4,
    ensures
        final(output)@ == old(output)@ + byte_fields(value as nat, 0, size as nat),
{
    let mut t: usize = 0;
    while t < size
        invariant
            t <= size <= 4,
            output@ == old(output)@ + byte_fields(value as nat, 0, t as nat),
        decreases size - t,
    {
        let shift = (8 * t) as u32;
        let shifted = value >> shift;
        assert(shifted & 0xFF == shifted % 256) by (bit_vector);
        proof {
            lemma2_to64();
            lemma_u32_low_bits(value, shift);
            assert(old(output)@ + byte_fields(value as nat, 0, (t + 1) as nat) =~= (
            old(output)@ + byte_fields(value as nat, 0, t as nat)).push(
                (shifted & 0xFF) as u8,
            ));
        }
        output.push((shifted & 0xFF) as u8);
        t = t + 1;
    }
}

/// The bytes of a longer run of exceptions are those of the run and then
/// those of the exception that was added.
pub proof fn lemma_exception_bytes_push(exceptions: Seq<u32>, value: u32, size: nat)
    requires
        1 <= size,
    ensures
        exception_bytes(exceptions.push(value), size) == exception_bytes(exceptions, size)
            + byte_fields(value as nat, 0, size),
{
    let longer = exceptions.push(value);
    let joined = exception_bytes(exceptions, size) + byte_fields(
        value as nat,
        0,
        size,
    );
    let count = exceptions.len() as int;
    let width = size as int;
    assert(longer.len() * size == count * width + width) by (nonlinear_arith)
        requires
            longer.len() == count + 1,
            width == size,
    ;
    assert forall|j: int| 0 <= j < longer.len() * size implies exception_bytes(longer, size)[j]
        == joined[j] by {
        if j < count * width {
            assert(j / width < count) by (nonlinear_arith)
                requires
                    0 <= j < count * width,
                    width >= 1,
            ;
        } else {
            let t = j - count * width;
            lemma_fundamental_div_mod_converse(j, width, count, t);
        }
    }
    assert(exception_bytes(longer, size) =~= joined);
}

/// Compresses a batch of 128 values.
///
/// The width is that of the sample value. The values that do not fit it are
/// the exceptions, to which `force_intermediate_exceptions` adds the places
/// that the chain needs. All exceptions are stored at one size, taken from
/// the largest value of the batch. The result is the header, the packed
/// slots, and the exception values in the order of the chain.
pub fn compress_batch(values: &[u32]) -> (compressed: Vec<u8>)
    requires
        values@.len() == BATCH_SIZE,
    ensures
        compressed@ == batch_encoding(values@),
        well_formed(compressed@),
        batch_decoding(compressed@) == values@,
{
    proof {
        lemma_decompress_compress(values@);
    }
    let b = find_optimal_b(values);
    proof {
        lemma_u64_low_bits(0, b as u64);
    }
    let threshold: u64 = 1u64 << (b as u64);

    // Identify exceptions
    let mut exceptions: Vec<(usize, u32)> = Vec::new();
    let mut i: usize = 0;
    while i < values.len()
        invariant
            i <= values@.len(),
            threshold == pow2(b as nat),
            exceptions@ == outliers(values@, b as nat, i as nat),
        decreases values@.len() - i,
    {
        let val = values[i];
        if val as u64 >= threshold {
            exceptions.push((i, val));
        }
        i = i + 1;
    }

    // Force additional exceptions if gaps are too large
    proof {
        lemma_outliers(values@, b as nat, values@.len());
    }
    let exceptions = force_intermediate_exceptions(exceptions.as_slice(), b, values);
    let ghost links = exception_chain(values@, b as nat);
    assert(exceptions@ == links);
    proof {
        lemma_exception_chain(values@, b as nat);
    }

    // Determine exception size based on max value in batch
    let max_val = largest_value(values);
    let exc_size = ExceptionSize::from_max_value(max_val);

    // Build the compressed representation
    let mut compressed: Vec<u8> = Vec::new();

    // Write header: b, exception size, index of the first exception
    let first_exc_idx: u8 = if exceptions.len() == 0 {
        127
    } else {
        exceptions[0].0 as u8
    };
    compressed.push(b as u8);
    compressed.push(exc_size.bits() as u8);
    compressed.push(first_exc_idx);
    let ghost header = seq![b as u8, exc_size.bit_count() as u8, first_place(links)];
    assert(compressed@ =~= header);

    // Create b-bit slots: the values, and at each exception the offset to
    // the next one
    let mut slots: Vec<u32> = Vec::new();
    let mut i: usize = 0;
    while i < values.len()
        invariant
            i <= values@.len(),
            slots@ == values@.subrange(0, i as int),
        decreases values@.len() - i,
    {
        slots.push(values[i]);
        assert(values@.subrange(0, i + 1) =~= values@.subrange(0, i as int).push(values@[i as int]));
        i = i + 1;
    }
    assert(slots@ =~= values@);
    let mut k: usize = 0;
    while k < exceptions.len()
        invariant
            k <= exceptions@.len(),
            exceptions@ == links,
            rising(links, values@),
            values@.len() == BATCH_SIZE,
            slots@ == linked(values@, links, k as nat),
        decreases exceptions@.len() - k,
    {
        let idx = exceptions[k].0;
        proof {
            lemma_linked(values@, links, k as nat);
        }
        if k + 1 < exceptions.len() {
            let next_idx = exceptions[k + 1].0;
            assert(links[k as int].0 < links[k + 1].0);
            slots[idx] = (next_idx - idx - 1) as u32;
        } else {
            slots[idx] = 0;
        }
        k = k + 1;
    }

    // Write b-bit slots
    write_packed_bits(&mut compressed, slots.as_slice(), b);
    let ghost packed = header + packed_bytes(slots_of(values@, links), b as nat);
    assert(compressed@ == packed);

    // Write exception values
    let size = exc_size.bits() / 8;
    let mut k: usize = 0;
    proof {
        assert(values_of(links).subrange(0, 0).len() * (size as nat) == 0) by (nonlinear_arith)
            requires
                values_of(links).subrange(0, 0).len() == 0,
        ;
        assert(exception_bytes(values_of(links).subrange(0, 0), size as nat) =~= Seq::<u8>::empty());
        assert(packed + Seq::<u8>::empty() =~= packed);
    }
    while k < exceptions.len()
        invariant
            k <= exceptions@.len(),
            exceptions@ == links,
            1 <= size <= 4,
            compressed@ == packed + exception_bytes(
                values_of(links).subrange(0, k as int),
                size as nat,
            ),
        decreases exceptions@.len() - k,
    {
        let val = exceptions[k].1;
        proof {
            let done = values_of(links).subrange(0, k as int);
            assert(values_of(links).subrange(0, k + 1) =~= done.push(val));
            lemma_exception_bytes_push(done, val, size as nat);
            assert(packed + (exception_bytes(done, size as nat) + byte_fields(
                val as nat,
                0,
                size as nat,
            )) =~= (packed + exception_bytes(done, size as nat)) + byte_fields(
                val as nat,
                0,
                size as nat,
            ));
        }
        push_le_bytes(&mut compressed, val, size);
        k = k + 1;
    }
    assert(values_of(links).subrange(0, k as int) =~= values_of(links));
    compressed
}

/// Unpacks one group of 32 values of `bits_per_value` bits with the kernel
/// of that width.
fn unpack_group(bits_per_value: usize, src: &[u32], dst: &mut [u32])
    requires
        1 <= bits_per_value <= 16,
        src@.len() >= bits_per_value,
        old(dst)@.len() >= 32,
    ensures
        final(dst)@.len() == old(dst)@.len(),
        forall|i: int|
            0 <= i < 32 ==> final(dst)@[i] == stored_field(src@, bits_per_value as nat, i as nat),
        forall|i: int| 32 <= i < old(dst)@.len() ==> final(dst)@[i] == old(dst)@[i],
{
    match bits_per_value {
        1 => decompress_1_bit(src, dst),
        2 => decompress_2_bit(src, dst),
        3 => decompress_3_bit(src, dst),
        4 => decompress_4_bit(src, dst),
        5 => decompress_5_bit(src, dst),
        6 => decompress_6_bit(src, dst),
        7 => decompress_7_bit(src, dst),
        8 => decompress_8_bit(src, dst),
        9 => decompress_9_bit(src, dst),
        10 => decompress_10_bit(src, dst),
        11 => decompress_11_bit(src, dst),
        12 => decompress_12_bit(src, dst),
        13 => decompress_13_bit(src, dst),
        14 => decompress_14_bit(src, dst),
        15 => decompress_15_bit(src, dst),
        _ => decompress_16_bit(src, dst),
    }
}

/// The `width` bits that start at bit `shift` of the two words `lo` and
/// `hi`, `lo` being the lower.
fn read_window(lo: u32, hi: u32, shift: u32, width: u32) -> (value: u32)
    requires
        shift < 32,
        1 <= width <= 32,
    ensures
        value == window(lo, hi, shift, width),
{
    let joined = ((hi as u64) << 32) | (lo as u64);
    let mask = !(0xFFFF_FFFF_FFFF_FFFFu64 << (width as u64));
    #[verifier::truncate]
    (((joined >> (shift as u64)) & mask) as u32)
}

/// Unpacks `count` values of `bits_per_value` bits each from words.
///
/// Whole groups of 32 values at a width of at most 16 bits go through the
/// kernel of that width; any other count or width is read value by value.
pub fn read_packed_bits(input: &[u32], count: usize, bits_per_value: usize) -> (result: Vec<u32>)
    requires
        1 <= bits_per_value <= 32,
        count * bits_per_value <= 32 * input@.len(),
    ensures
        result@ == fields_of(packed_value(input@, 32), bits_per_value as nat, count as nat),
{
    let ghost width = bits_per_value as nat;
    let ghost all = fields_of(packed_value(input@, 32), width, count as nat);
    let mut result: Vec<u32> = Vec::with_capacity(count);
    let length = input.len();
    if bits_per_value <= 16 && count % 32 == 0 {
        let groups = count / 32;
        let mut buffer: Vec<u32> = Vec::new();
        let mut j: usize = 0;
        while j < 32
            invariant
                j <= 32,
                buffer@.len() == j,
            decreases 32 - j,
        {
            buffer.push(0);
            j = j + 1;
        }
        let mut group: usize = 0;
        while group < groups
            invariant
                1 <= bits_per_value <= 16,
                width == bits_per_value,
                length == input@.len(),
                count == 32 * groups,
                count * bits_per_value <= 32 * length,
                group <= groups,
                buffer@.len() == 32,
                all == fields_of(packed_value(input@, 32), width, count as nat),
                result@ == all.subrange(0, 32 * group),
            decreases groups - group,
        {
            assert(group * bits_per_value + bits_per_value <= length) by (nonlinear_arith)
                requires
                    group < groups,
                    count == 32 * groups,
                    count * bits_per_value <= 32 * length,
                    bits_per_value >= 1,
            ;
            let start = group * bits_per_value;
            let words = &input[start..start + bits_per_value];
            unpack_group(bits_per_value, words, buffer.as_mut_slice());
            let ghost unpacked = buffer@;
            let mut j: usize = 0;
            while j < 32
                invariant
                    j <= 32,
                    group < groups,
                    count == 32 * groups,
                    buffer@ == unpacked,
                    unpacked.len() == 32,
                    width == bits_per_value,
                    1 <= width <= 16,
                    start == group * bits_per_value,
                    start + bits_per_value <= input@.len(),
                    words@ == input@.subrange(start as int, start + bits_per_value),
                    forall|i: int|
                        0 <= i < 32 ==> unpacked[i] == stored_field(words@, width, i as nat),
                    all == fields_of(packed_value(input@, 32), width, count as nat),
                    result@ == all.subrange(0, 32 * group + j),
                decreases 32 - j,
            {
                proof {
                    lemma_group_field(input@, width, group as nat, j as nat);
                    let place = 32 * group + j;
                    assert(width * (place as nat) == width * (32 * (group as nat) + j as nat))
                        by (nonlinear_arith)
                        requires
                            place == 32 * group + j,
                    ;
                    assert(all[place as int] == unpacked[j as int]);
                    assert(all.subrange(0, place + 1) =~= all.subrange(0, place as int).push(
                        unpacked[j as int],
                    ));
                }
                result.push(buffer[j]);
                j = j + 1;
            }
            group = group + 1;
        }
        assert(all.subrange(0, 32 * groups) =~= all);
    } else {
        let mut first: usize = 0;
        let mut shift: usize = 0;
        let mut i: usize = 0;
        while i < count
            invariant
                1 <= bits_per_value <= 32,
                width == bits_per_value,
                length == input@.len(),
                count * bits_per_value <= 32 * length,
                i <= count,
                shift < 32,
                32 * first + shift == width * i,
                all == fields_of(packed_value(input@, 32), width, count as nat),
                result@ == all.subrange(0, i as int),
            decreases count - i,
        {
            proof {
                assert(width * (i as nat) + width <= 32 * input@.len()) by (nonlinear_arith)
                    requires
                        i < count,
                        count * bits_per_value <= 32 * length,
                        width == bits_per_value,
                        length == input@.len(),
                ;
                lemma_fundamental_div_mod_converse(
                    (width * (i as nat)) as int,
                    32,
                    first as int,
                    shift as int,
                );
                lemma_word_window(input@, width, i as nat);
                lemma_window_at_is_field(input@, width, i as nat);
                lemma_window_is_field(
                    input@[first as int],
                    if shift + width > 32 {
                        input@[first + 1]
                    } else {
                        0u32
                    },
                    shift as u32,
                    width as u32,
                );
                lemma_pow2_bound_32(width);
            }
            let lo = input[first];
            let hi = if shift + bits_per_value > 32 {
                input[first + 1]
            } else {
                0
            };
            let value = read_window(lo, hi, shift as u32, bits_per_value as u32);
            proof {
                assert(value == window_at(input@, width, i as nat));
                assert(all[i as int] == value);
                assert(all.subrange(0, i + 1) =~= all.subrange(0, i as int).push(value));
                assert(width * ((i + 1) as nat) == width * (i as nat) + width)
                    by (nonlinear_arith);
            }
            result.push(value);
            shift = shift + bits_per_value;
            if shift >= 32 {
                shift = shift - 32;
                first = first + 1;
            }
            i = i + 1;
        }
        assert(all.subrange(0, count as int) =~= all);
    }
    result
}

/// Number of bytes of the header.
pub const HEADER_SIZE: usize = 3;

/// The width that the header of a compressed batch names.
pub open spec fn stored_width(bytes: Seq<u8>) -> nat {
    bytes[0] as nat
}

/// The number of bytes of each exception that the header names.
pub open spec fn stored_size(bytes: Seq<u8>) -> nat {
    bytes[1] as nat / 8
}

/// The place at which the header lets the chain begin.
pub open spec fn stored_first(bytes: Seq<u8>) -> int {
    bytes[2] as int
}

/// The byte after the packed slots.
pub open spec fn slots_end(bytes: Seq<u8>) -> int {
    HEADER_SIZE + packed_len(BATCH_SIZE as nat, stored_width(bytes))
}

/// The 128 slots of a compressed batch.
pub open spec fn stored_slots(bytes: Seq<u8>) -> Seq<u32> {
    let words = le_chunks(bytes.subrange(HEADER_SIZE as int, slots_end(bytes)), 4);
    fields_of(packed_value(words, 32), stored_width(bytes), BATCH_SIZE as nat)
}

/// The exception values of a compressed batch: as many as the bytes after
/// the slots hold.
pub open spec fn stored_exceptions(bytes: Seq<u8>) -> Seq<u32> {
    le_chunks(bytes.subrange(slots_end(bytes), bytes.len() as int), stored_size(bytes))
}

/// A compressed batch can be read: it holds a header with a width from 1 to
/// 32 and an exception size of 8, 16 or 32 bits, it holds all the slots, and
/// the chain that begins at the place named in the header leads to a slot
/// for every exception value that follows the slots.
///
/// The number of exception values decides how far the chain is walked, so
/// the place that the header names is read only where there is an exception:
/// a batch without exceptions and a batch whose only exception lies at
/// place 127 are told apart by what follows the slots.
pub open spec fn well_formed(bytes: Seq<u8>) -> bool {
    &&& bytes.len() >= HEADER_SIZE
    &&& 1 <= stored_width(bytes) <= 32
    &&& (bytes[1] == 8 || bytes[1] == 16 || bytes[1] == 32)
    &&& slots_end(bytes) <= bytes.len()
    &&& walk_ok(stored_slots(bytes), stored_first(bytes), stored_exceptions(bytes))
}

/// The batch that a compressed batch stands for: its slots, with each
/// exception value put at its place along the chain.
pub open spec fn batch_decoding(bytes: Seq<u8>) -> Seq<u32> {
    patched(stored_slots(bytes), stored_first(bytes), stored_exceptions(bytes))
}

/// Tells whether a buffer is a compressed batch that `decompress_batch`
/// can read.
pub fn is_well_formed(compressed: &[u8]) -> (ok: bool)
    ensures
        ok == well_formed(compressed@),
{
    let length = compressed.len();
    if length < HEADER_SIZE {
        return false;
    }
    let b = compressed[0];
    let exc_size_code = compressed[1];
    let first_exc_idx = compressed[2];
    if b < 1 || b > 32 {
        return false;
    }
    if exc_size_code != 8 && exc_size_code != 16 && exc_size_code != 32 {
        return false;
    }
    let pos_end = HEADER_SIZE + (BATCH_SIZE * b as usize + 7) / 8;
    if pos_end > length {
        return false;
    }
    let words = u8_chunks_to_u32_vec(&compressed[HEADER_SIZE..pos_end], 4);
    proof {
        assert(words@.len() == (pos_end - HEADER_SIZE) / 4);
    }
    let mut slots = read_packed_bits(words.as_slice(), BATCH_SIZE, b as usize);
    let exception_values = u8_chunks_to_u32_vec(
        &compressed[pos_end..length],
        (exc_size_code / 8) as usize,
    );
    let ghost stored = slots@;
    let mut curr_exc_idx: u64 = first_exc_idx as u64;
    let mut i: usize = 0;
    proof {
        assert(exception_values@.skip(0) =~= exception_values@);
        assert(stored == stored_slots(compressed@));
        assert(exception_values@ == stored_exceptions(compressed@));
    }
    while i < exception_values.len()
        invariant
            i <= exception_values@.len(),
            slots@.len() == BATCH_SIZE,
            curr_exc_idx <= 0x1_0000_0000 + BATCH_SIZE,
            well_formed(compressed@) == walk_ok(stored, first_exc_idx as int, exception_values@),
            walk_ok(slots@, curr_exc_idx as int, exception_values@.skip(i as int)) == walk_ok(
                stored,
                first_exc_idx as int,
                exception_values@,
            ),
        decreases exception_values@.len() - i,
    {
        let ghost left = exception_values@.skip(i as int);
        proof {
            assert(left[0] == exception_values@[i as int]);
            assert(left.drop_first() =~= exception_values@.skip(i + 1));
        }
        if curr_exc_idx >= BATCH_SIZE as u64 {
            assert(!walk_ok(slots@, curr_exc_idx as int, left));
            return false;
        }
        let place = curr_exc_idx as usize;
        let offset_to_next_exception = slots[place];
        slots[place] = exception_values[i];
        curr_exc_idx = place as u64 + 1 + offset_to_next_exception as u64;
        i = i + 1;
    }
    true
}

/// Decompresses a batch.
///
/// Reads the header, unpacks the 128 slots, reads the exception values that
/// follow them, and walks the chain from the place named in the header: at
/// each place the slot gives the number of places to skip to the next
/// exception and is then overwritten by the exception value.
pub fn decompress_batch(compressed: &[u8]) -> (result: Vec<u32>)
    requires
        well_formed(compressed@),
    ensures
        result@ == batch_decoding(compressed@),
        result@.len() == BATCH_SIZE,
{
    let mut pos: usize = 0;

    let b = compressed[pos];
    pos = pos + 1;
    let exc_size_code = compressed[pos];
    pos += 1;
    let first_exc_idx = compressed[pos];
    pos += 1;

    let exc_size = match exc_size_code {
        8 => ExceptionSize::Bits8,
        16 => ExceptionSize::Bits16,
        _ => ExceptionSize::Bits32,
    };
    let pos_end = pos + (BATCH_SIZE * b as usize + 7) / 8;

    // Read b-bit slots
    let words = u8_chunks_to_u32_vec(&compressed[pos..pos_end], 4);
    proof {
        assert(words@.len() == (pos_end - pos) / 4);
    }
    let mut result = read_packed_bits(words.as_slice(), BATCH_SIZE, b as usize);

    // Read exception values
    let exception_values = u8_chunks_to_u32_vec(
        &compressed[pos_end..compressed.len()],
        exc_size.bits() / 8,
    );

    // Follow linked list to find exception positions
    let ghost slots = result@;
    let mut curr_exc_idx: u64 = first_exc_idx as u64;
    let mut i: usize = 0;
    proof {
        assert(exception_values@.skip(0) =~= exception_values@);
    }
    while i < exception_values.len()
        invariant
            i <= exception_values@.len(),
            result@.len() == BATCH_SIZE,
            curr_exc_idx <= 0x1_0000_0000 + BATCH_SIZE,
            walk_ok(result@, curr_exc_idx as int, exception_values@.skip(i as int)),
            patched(result@, curr_exc_idx as int, exception_values@.skip(i as int)) == patched(
                slots,
                first_exc_idx as int,
                exception_values@,
            ),
        decreases exception_values@.len() - i,
    {
        let ghost left = exception_values@.skip(i as int);
        proof {
            assert(left[0] == exception_values@[i as int]);
            assert(left.drop_first() =~= exception_values@.skip(i + 1));
        }
        let place = curr_exc_idx as usize;
        let offset_to_next_exception = result[place];
        result[place] = exception_values[i];
        curr_exc_idx = place as u64 + 1 + offset_to_next_exception as u64;
        i = i + 1;
    }

    result
}

/// Width selection: the width of a batch is the least number of bits that
/// holds its sample value, and one bit where that value is zero.
pub proof fn lemma_optimal_width(values: Seq<u32>)
    requires
        values.len() > SAMPLE_INDEX,
    ensures
        1 <= optimal_width(values) <= 32,
        values[SAMPLE_INDEX as int] < pow2(optimal_width(values)),
        values[SAMPLE_INDEX as int] == 0 ==> optimal_width(values) == 1,
        values[SAMPLE_INDEX as int] > 0 ==> pow2((optimal_width(values) - 1) as nat)
            <= values[SAMPLE_INDEX as int],
{
    lemma2_to64();
    let sample = values[SAMPLE_INDEX as int];
    if sample > 0 {
        lemma_bit_length_bounds(sample as nat);
        let width = bit_length(sample as nat);
        if width > 32 {
            if width > 33 {
                lemma_pow2_strictly_increases(32, (width - 1) as nat);
            }
        }
    }
}

/// Packed slots that fill whole words unpack to themselves when every slot
/// fits the width.
pub proof fn lemma_unpack_packed(slots: Seq<u32>, width: nat, words: nat)
    requires
        1 <= width <= 32,
        slots.len() * width == 32 * words,
        forall|i: int| 0 <= i < slots.len() ==> #[trigger] slots[i] < pow2(width),
    ensures
        packed_bytes(slots, width).len() == 4 * words,
        fields_of(packed_value(le_chunks(packed_bytes(slots, width), 4), 32), width, slots.len())
            == slots,
{
    lemma2_to64();
    let total = packed_value(slots, width);
    let bytes = packed_bytes(slots, width);
    let read = le_chunks(bytes, 4);
    assert(bytes.len() == 4 * words);
    assert(read =~= fields_of(total, 32, words)) by {
        assert forall|q: int| 0 <= q < words implies read[q] == fields_of(total, 32, words)[q] by {
            let chunk = bytes.subrange(q * 4, q * 4 + 4);
            assert(chunk =~= byte_fields(total, 32 * q as nat, 4));
            lemma_le_value_of_fields(total, 32 * q as nat, 4);
            lemma_pow2_pos(32 * q as nat);
            lemma_mod_pos_bound(
                total as int / pow2(32 * q as nat) as int,
                pow2(32) as int,
            );
        }
    }
    lemma_packed_fields_of(total, 32, words);
    lemma_packed_bound(slots, width);
    assert(width * slots.len() == 32 * words) by (nonlinear_arith)
        requires
            slots.len() * width == 32 * words,
    ;
    lemma_small_mod(total, pow2(32 * words));
    assert forall|i: int| 0 <= i < slots.len() implies fields_of(total, width, slots.len())[i]
        == slots[i] by {
        lemma_packed_field(slots, width, i as nat);
        lemma_small_mod(slots[i] as nat, pow2(width));
    }
    assert(fields_of(total, width, slots.len()) =~= slots);
}

/// Exception values that fit `size` bytes are read back from their bytes.
pub proof fn lemma_exception_bytes_read(exceptions: Seq<u32>, size: nat)
    requires
        1 <= size <= 4,
        forall|k: int| 0 <= k < exceptions.len() ==> #[trigger] exceptions[k] < pow2(8 * size),
    ensures
        le_chunks(exception_bytes(exceptions, size), size) == exceptions,
{
    lemma2_to64();
    let bytes = exception_bytes(exceptions, size);
    let width = size as int;
    let count = exceptions.len() as int;
    assert(bytes.len() / size == exceptions.len()) by {
        lemma_fundamental_div_mod_converse(
            count * width,
            width,
            count,
            0,
        );
    }
    let read = le_chunks(bytes, size);
    assert forall|k: int| 0 <= k < count implies read[k] == exceptions[k] by {
        let value = exceptions[k] as nat;
        assert(k * width + width <= count * width) by (nonlinear_arith)
            requires
                k < count,
                width >= 1,
        ;
        let chunk = bytes.subrange(k * size, k * size + size);
        assert(chunk =~= byte_fields(value, 0, size)) by {
            assert forall|t: int| 0 <= t < width implies chunk[t] == byte_fields(
                value,
                0,
                size,
            )[t] by {
                lemma_fundamental_div_mod_converse(
                    k * width + t,
                    width,
                    k,
                    t,
                );
            }
        }
        lemma_le_value_of_fields(value, 0, size);
        lemma_small_mod(value, pow2(8 * size));
    }
    assert(read =~= exceptions);
}

/// Round trip: what `compress_batch` gives for a batch can be read, and read
/// back it is the batch. This holds of every batch of 128 values: with no
/// exception, with every place an exception, with places forced into the
/// chain, and whatever the order of its values.
pub proof fn lemma_decompress_compress(values: Seq<u32>)
    requires
        values.len() == BATCH_SIZE,
    ensures
        well_formed(batch_encoding(values)),
        batch_decoding(batch_encoding(values)) == values,
{
    lemma2_to64();
    lemma_optimal_width(values);
    let width = optimal_width(values);
    let links = exception_chain(values, width);
    let slots = slots_of(values, links);
    let size = ExceptionSize::for_max(largest(values, values.len()));
    let bytes_each = size.bit_count() / 8;
    let header = seq![width as u8, size.bit_count() as u8, first_place(links)];
    let packed = packed_bytes(slots, width);
    let extra = exception_bytes(values_of(links), bytes_each);
    let encoded = batch_encoding(values);
    assert(encoded == header + packed + extra);

    lemma_exception_chain(values, width);
    lemma_slots_fit(values, links, width);
    assert(slots.len() * width == 32 * (4 * width)) by (nonlinear_arith)
        requires
            slots.len() == 128,
    ;
    lemma_unpack_packed(slots, width, 4 * width);
    assert(packed_len(BATCH_SIZE as nat, width) == 16 * width);
    assert(packed.len() == 16 * width);
    assert(stored_width(encoded) == width);
    assert(slots_end(encoded) == 3 + 16 * width);
    assert(encoded.subrange(HEADER_SIZE as int, slots_end(encoded)) =~= packed);
    assert(encoded.subrange(slots_end(encoded), encoded.len() as int) =~= extra);
    assert(stored_slots(encoded) == slots);

    lemma_largest(values, values.len());
    assert forall|k: int| 0 <= k < values_of(links).len() implies #[trigger] values_of(links)[k]
        < pow2(8 * bytes_each) by {
        assert(links[k].1 == values[links[k].0 as int]);
    }
    lemma_exception_bytes_read(values_of(links), bytes_each);
    assert(stored_size(encoded) == bytes_each);
    assert(stored_exceptions(encoded) == values_of(links));

    lemma_patched_slots(values, links, stored_first(encoded));
}

} // verus!
