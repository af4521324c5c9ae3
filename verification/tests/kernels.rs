use rust_compress::p_for_delta::decompress::{
    decompress_10_bit, decompress_11_bit, decompress_12_bit, decompress_13_bit,
    decompress_14_bit, decompress_15_bit, decompress_16_bit, decompress_1_bit,
    decompress_2_bit, decompress_3_bit, decompress_4_bit, decompress_5_bit, decompress_6_bit,
    decompress_7_bit, decompress_8_bit, decompress_9_bit,
};

fn kernel(width: usize, src: &[u32], dst: &mut [u32]) {
    match width {
        1 => decompress_1_bit(src, dst),
        2 => decompress_2_bit(src, dst),
        3 => decompress_3_bit(src, dst),
        4 => decompress_4_bit(src, dst),
        5 => decompress_5_bit(src, dst),
        6 => decompress_6_bit(src, dst),
        7 => decompress_7_bit(src, dst),
        8 => decompress_8_bit(src, dst),
        9 => decompress_9_bit(src, dst),
        10 => decompress_10_bit(src, dst),
        11 => decompress_11_bit(src, dst),
        12 => decompress_12_bit(src, dst),
        13 => decompress_13_bit(src, dst),
        14 => decompress_14_bit(src, dst),
        15 => decompress_15_bit(src, dst),
        16 => decompress_16_bit(src, dst),
        _ => unreachable!(),
    }
}

/// Packs values bit by bit, lowest bit first, into words.
fn pack(values: &[u32], width: usize) -> Vec<u32> {
    let mut words = vec![0u32; (values.len() * width + 31) / 32];
    for (i, value) in values.iter().enumerate() {
        for bit in 0..width {
            if (value >> bit) & 1 == 1 {
                let at = i * width + bit;
                words[at / 32] |= 1 << (at % 32);
            }
        }
    }
    words
}

fn sample(width: usize, seed: u64) -> Vec<u32> {
    let limit = 1u64 << width;
    let mut state = seed;
    (0..32)
        .map(|_| {
            state = state.wrapping_mul(6_364_136_223_846_793_005).wrapping_add(1_442_695_040_888_963_407);
            ((state >> 33) % limit) as u32
        })
        .collect()
}

#[test]
fn every_kernel_reads_what_was_packed() {
    for width in 1..=16usize {
        for seed in 1..=20u64 {
            let values = sample(width, seed * 97 + width as u64);
            let words = pack(&values, width);
            assert_eq!(words.len(), width);
            let mut out = vec![0u32; 32];
            kernel(width, &words, &mut out);
            assert_eq!(out, values, "width {} seed {}", width, seed);
        }
    }
}

#[test]
fn every_kernel_reads_all_ones() {
    for width in 1..=16usize {
        let words = vec![u32::MAX; width];
        let mut out = vec![0u32; 32];
        kernel(width, &words, &mut out);
        assert_eq!(out, vec![(1u32 << width) - 1; 32], "width {}", width);
    }
}

#[test]
fn a_kernel_writes_thirty_two_places_and_no_more() {
    for width in 1..=16usize {
        let words = vec![0u32; width + 2];
        let mut out = vec![9u32; 40];
        kernel(width, &words, &mut out);
        assert_eq!(&out[..32], &[0u32; 32]);
        assert_eq!(&out[32..], &[9u32; 8]);
    }
}

#[test]
fn three_bit_value_ten_spans_two_words() {
    // value 10 lies in bits 30..33: two bits of word 0 and one of word 1
    let words = [0b10u32 << 30, 0b1, 0];
    let mut out = [0u32; 32];
    decompress_3_bit(&words, &mut out);
    assert_eq!(out[10], 0b110);
    assert_eq!(out[9], 0);
    assert_eq!(out[11], 0);
}

#[test]
fn thirteen_bit_value_five_spans_two_words() {
    // value 5 lies in bits 65..78; set its lowest and its highest bit
    let mut words = [0u32; 13];
    words[2] = 1 << 1 | 1 << 13;
    let mut out = [0u32; 32];
    decompress_13_bit(&words, &mut out);
    assert_eq!(out[5], 1 | 1 << 12);
    // value 4 lies in bits 52..65 and ends in the lowest bit of word 2
    words[2] = 1;
    decompress_13_bit(&words, &mut out);
    assert_eq!(out[4], 1 << 12);
    assert_eq!(out[5], 0);
}

#[test]
fn fourteen_and_fifteen_bit_values_across_words() {
    // 14 bits: value 7 lies in bits 98..112, in word 3 from bit 2 on
    let mut words = [0u32; 14];
    words[3] = 0x3FFF << 2;
    let mut out = [0u32; 32];
    decompress_14_bit(&words, &mut out);
    assert_eq!(out[7], 0x3FFF);
    assert_eq!(out[6], 0);
    assert_eq!(out[8], 0);
    // 15 bits: value 13 lies in bits 195..210, in word 6 from bit 3 on
    let mut words = [0u32; 15];
    words[6] = 0x7FFF << 3;
    decompress_15_bit(&words, &mut out);
    assert_eq!(out[13], 0x7FFF);
    assert_eq!(out[12], 0);
    assert_eq!(out[14], 0);
}
