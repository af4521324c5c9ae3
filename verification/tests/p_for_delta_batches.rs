use rust_compress::p_for_delta::{
    compress_batch, decompress_batch, find_optimal_b, force_intermediate_exceptions,
    ExceptionSize, BATCH_SIZE,
};

#[test]
fn test_compress_decompress() {
    let mut values = vec![0u32; BATCH_SIZE];
    for i in 0..BATCH_SIZE {
        values[i] = (i * 100) as u32;
    }
    values[10] = 1_000_000;
    values[50] = 2_000_000;
    values[120] = 3_000_000;

    let compressed = compress_batch(&values);
    let decompressed = decompress_batch(&compressed);

    assert_eq!(values, decompressed);
}

fn ascending(step: u32) -> Vec<u32> {
    (0..BATCH_SIZE as u32).map(|i| i * step).collect()
}

#[test]
fn width_is_the_bit_length_of_the_sample() {
    let mut values = vec![0u32; BATCH_SIZE];
    assert_eq!(find_optimal_b(&values), 1);
    for (sample, width) in [
        (1u32, 1usize),
        (2, 2),
        (3, 2),
        (4, 3),
        (63, 6),
        (64, 7),
        (65_535, 16),
        (65_536, 17),
        (0x7FFF_FFFF, 31),
        (0x8000_0000, 32),
        (u32::MAX, 32),
    ] {
        values[114] = sample;
        assert_eq!(find_optimal_b(&values), width, "sample {}", sample);
    }
}

#[test]
fn width_reads_no_other_place() {
    let mut values = vec![u32::MAX; BATCH_SIZE];
    values[114] = 5;
    assert_eq!(find_optimal_b(&values), 3);
}

#[test]
fn exception_size_follows_the_largest_value() {
    assert_eq!(ExceptionSize::from_max_value(0), ExceptionSize::Bits8);
    assert_eq!(ExceptionSize::from_max_value(255), ExceptionSize::Bits8);
    assert_eq!(ExceptionSize::from_max_value(256), ExceptionSize::Bits16);
    assert_eq!(ExceptionSize::from_max_value(65_535), ExceptionSize::Bits16);
    assert_eq!(ExceptionSize::from_max_value(65_536), ExceptionSize::Bits32);
    assert_eq!(ExceptionSize::from_max_value(u32::MAX), ExceptionSize::Bits32);
    assert_eq!(ExceptionSize::Bits8.bits(), 8);
    assert_eq!(ExceptionSize::Bits16.bits(), 16);
    assert_eq!(ExceptionSize::Bits32.bits(), 32);
}

#[test]
fn batch_of_zeros_has_the_smallest_form() {
    let values = vec![0u32; BATCH_SIZE];
    let compressed = compress_batch(&values);
    // header, then 128 slots of one bit: 16 bytes, and no exception
    let mut expected = vec![1u8, 8, 127];
    expected.extend_from_slice(&[0u8; 16]);
    assert_eq!(compressed, expected);
    assert_eq!(decompress_batch(&compressed), values);
}

#[test]
fn batch_without_exceptions_round_trips() {
    let values = ascending(1);
    let compressed = compress_batch(&values);
    // the sample 114 needs 7 bits, and so does every value
    assert_eq!(&compressed[..3], &[7u8, 8, 127]);
    assert_eq!(compressed.len(), 3 + 16 * 7);
    assert_eq!(decompress_batch(&compressed), values);
}

#[test]
fn exceptions_at_the_end_of_an_ascending_batch() {
    let mut values = ascending(2);
    for i in 120..BATCH_SIZE {
        values[i] = 70_000 + i as u32;
    }
    let compressed = compress_batch(&values);
    // sample 228 needs 8 bits; 8 exceptions of 32 bits each, the first at 120
    assert_eq!(&compressed[..3], &[8u8, 32, 120]);
    assert_eq!(compressed.len(), 3 + 16 * 8 + 8 * 4);
    // the slot of an exception holds the places to skip: none
    assert_eq!(compressed[3 + 120], 0);
    // the first exception value, lowest byte first
    assert_eq!(&compressed[3 + 128..3 + 128 + 4], &70_120u32.to_le_bytes());
    assert_eq!(decompress_batch(&compressed), values);
}

#[test]
fn exception_values_of_sixteen_bits() {
    let mut values = ascending(1);
    values[127] = 60_000;
    let compressed = compress_batch(&values);
    assert_eq!(&compressed[..3], &[7u8, 16, 127]);
    assert_eq!(compressed.len(), 3 + 16 * 7 + 2);
    assert_eq!(&compressed[3 + 16 * 7..], &60_000u16.to_le_bytes());
    assert_eq!(decompress_batch(&compressed), values);
}

#[test]
fn lone_exception_at_the_last_place_is_told_from_none() {
    // the header names place 127 in both batches
    let plain = vec![3u32; BATCH_SIZE];
    let mut tail = plain.clone();
    tail[127] = 200;
    let first = compress_batch(&plain);
    let second = compress_batch(&tail);
    assert_eq!(first[2], 127);
    assert_eq!(second[2], 127);
    assert_eq!(first.len(), 3 + 16 * 2);
    assert_eq!(second.len(), 3 + 16 * 2 + 1);
    assert_eq!(decompress_batch(&first), plain);
    assert_eq!(decompress_batch(&second), tail);
}

#[test]
fn forced_exception_between_two_far_exceptions() {
    // The sample needs 6 bits, so a skip is at most 63 places; the two
    // exceptions lie 100 places apart.
    let mut values: Vec<u32> = (0..BATCH_SIZE as u32).map(|i| i % 32).collect();
    values[114] = 40;
    values[5] = 1_000;
    values[105] = 2_000;
    assert_eq!(find_optimal_b(&values), 6);
    let compressed = compress_batch(&values);
    assert_eq!(&compressed[..3], &[6u8, 16, 5]);
    // the chain is 5, 69 (forced), 105: three exception values of two bytes
    assert_eq!(compressed.len(), 3 + 16 * 6 + 3 * 2);
    let tail = &compressed[3 + 16 * 6..];
    assert_eq!(&tail[0..2], &1_000u16.to_le_bytes());
    assert_eq!(&tail[2..4], &(values[69] as u16).to_le_bytes());
    assert_eq!(&tail[4..6], &2_000u16.to_le_bytes());
    assert_eq!(decompress_batch(&compressed), values);
}

#[test]
fn forced_exceptions_are_every_step_after_the_first() {
    let values: Vec<u32> = (0..BATCH_SIZE as u32).collect();
    let exceptions = vec![(3usize, 3u32), (30, 30), (31, 31), (127, 127)];
    let chain = force_intermediate_exceptions(&exceptions, 3, &values);
    let places: Vec<usize> = chain.iter().map(|link| link.0).collect();
    let mut expected = vec![3usize, 11, 19, 27, 30, 31];
    let mut place = 31 + 8;
    while place < 127 {
        expected.push(place);
        place += 8;
    }
    expected.push(127);
    assert_eq!(places, expected);
    for link in &chain {
        assert_eq!(link.1, values[link.0]);
    }
}

#[test]
fn exceptions_exactly_one_step_apart_need_no_forced_place() {
    let values: Vec<u32> = (0..BATCH_SIZE as u32).collect();
    let exceptions = vec![(10usize, 10u32), (14, 14)];
    let chain = force_intermediate_exceptions(&exceptions, 2, &values);
    assert_eq!(chain, exceptions);
    let far = vec![(10usize, 10u32), (15, 15)];
    let chain = force_intermediate_exceptions(&far, 2, &values);
    assert_eq!(chain, vec![(10usize, 10u32), (14, 14), (15, 15)]);
    assert_eq!(force_intermediate_exceptions(&[], 2, &values), vec![]);
}

#[test]
fn every_value_but_the_sample_is_an_exception() {
    let mut values = vec![1_000_000u32; BATCH_SIZE];
    values[114] = 1;
    let compressed = compress_batch(&values);
    assert_eq!(&compressed[..3], &[1u8, 32, 0]);
    assert_eq!(compressed.len(), 3 + 16 + 127 * 4);
    assert_eq!(decompress_batch(&compressed), values);
}

#[test]
fn widths_above_sixteen_bits_round_trip() {
    for width in 17..=32u32 {
        let top = if width == 32 { u32::MAX } else { (1u32 << width) - 1 };
        let mut values: Vec<u32> =
            (0..BATCH_SIZE as u32).map(|i| top - (i * 2_654_435) % (top / 2)).collect();
        values[114] = top;
        values[3] = u32::MAX;
        let compressed = compress_batch(&values);
        assert_eq!(compressed[0] as u32, width);
        assert_eq!(decompress_batch(&compressed), values, "width {}", width);
    }
}

#[test]
fn every_width_round_trips_with_scattered_exceptions() {
    for width in 1..=16u32 {
        let limit = 1u32 << width;
        let mut values: Vec<u32> =
            (0..BATCH_SIZE as u32).map(|i| (i * 7_919 + 13) % limit).collect();
        values[114] = limit - 1;
        values[0] = limit + 5;
        values[64] = limit * 3;
        values[127] = 4_000_000_000;
        let compressed = compress_batch(&values);
        assert_eq!(compressed[0] as u32, width);
        assert_eq!(compressed[1], 32);
        assert_eq!(compressed[2], 0);
        assert_eq!(decompress_batch(&compressed), values, "width {}", width);
    }
}
