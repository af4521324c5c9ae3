use rust_compress::p_for_delta::{read_packed_bits, u8_chunks_to_u32_vec, write_packed_bits};

fn words_of(bytes: &[u8]) -> Vec<u32> {
    let mut padded = bytes.to_vec();
    while padded.len() % 4 != 0 {
        padded.push(0);
    }
    u8_chunks_to_u32_vec(&padded, 4)
}

#[test]
fn three_bit_values_fill_bytes_from_the_lowest_bit() {
    let mut output = vec![0xAAu8];
    write_packed_bits(&mut output, &[1, 2, 3, 4, 5], 3);
    // 001 010 011 100 101 from the lowest bit: 101_100_011_010_001
    let number: u32 = 1 | 2 << 3 | 3 << 6 | 4 << 9 | 5 << 12;
    assert_eq!(output, vec![0xAA, (number & 0xFF) as u8, (number >> 8) as u8]);
}

#[test]
fn values_are_cut_to_the_width() {
    let mut output = Vec::new();
    write_packed_bits(&mut output, &[0xFF, 0x101], 4);
    assert_eq!(output, vec![0x1F]);
}

#[test]
fn nothing_to_pack_writes_nothing() {
    let mut output = vec![7u8];
    write_packed_bits(&mut output, &[], 9);
    assert_eq!(output, vec![7u8]);
}

#[test]
fn thirty_two_bit_values_are_their_bytes() {
    let mut output = Vec::new();
    write_packed_bits(&mut output, &[0x1234_5678, u32::MAX], 32);
    assert_eq!(output, vec![0x78, 0x56, 0x34, 0x12, 0xFF, 0xFF, 0xFF, 0xFF]);
}

#[test]
fn chunks_are_read_lowest_byte_first() {
    let bytes = [0x01u8, 0x02, 0x03, 0x04, 0x05, 0x06, 0x07];
    assert_eq!(u8_chunks_to_u32_vec(&bytes, 1), vec![1, 2, 3, 4, 5, 6, 7]);
    assert_eq!(u8_chunks_to_u32_vec(&bytes, 2), vec![0x0201, 0x0403, 0x0605]);
    assert_eq!(u8_chunks_to_u32_vec(&bytes, 3), vec![0x030201, 0x060504]);
    assert_eq!(u8_chunks_to_u32_vec(&bytes, 4), vec![0x04030201]);
    assert_eq!(u8_chunks_to_u32_vec(&[], 4), Vec::<u32>::new());
}

#[test]
fn packed_values_are_read_back_at_every_width() {
    for width in 1..=32usize {
        for count in [1usize, 5, 31, 32, 33, 64, 100, 128] {
            let limit: u64 = 1u64 << width;
            let values: Vec<u32> = (0..count as u64)
                .map(|i| ((i * 2_654_435_761 + 12_345) % limit) as u32)
                .collect();
            let mut bytes = Vec::new();
            write_packed_bits(&mut bytes, &values, width);
            assert_eq!(bytes.len(), (count * width + 7) / 8);
            let words = words_of(&bytes);
            assert_eq!(
                read_packed_bits(&words, count, width),
                values,
                "width {} count {}",
                width,
                count
            );
        }
    }
}

#[test]
fn a_value_across_two_words_is_joined() {
    // 20-bit values: the second lies in bits 20..40
    let words = [0xFFF0_0000u32, 0x0000_00AB];
    assert_eq!(read_packed_bits(&words, 2, 20), vec![0, 0xABFFF]);
    assert_eq!(read_packed_bits(&words, 0, 20), Vec::<u32>::new());
}
