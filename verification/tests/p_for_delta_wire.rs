use rust_compress::p_for_delta::{compress_batch, decompress_batch, is_well_formed};

fn buffer(width: u8, size: u8, first: u8, slots: &[u8], exceptions: &[u8]) -> Vec<u8> {
    let mut bytes = vec![width, size, first];
    bytes.extend_from_slice(slots);
    bytes.extend_from_slice(exceptions);
    bytes
}

#[test]
fn hand_made_batch_is_read_along_its_chain() {
    // one bit for each slot; slot 0 holds the skip 1, so the chain is 0, 2
    let mut slots = [0u8; 16];
    slots[0] = 0b0000_0001;
    let bytes = buffer(1, 8, 0, &slots, &[200, 201]);
    assert!(is_well_formed(&bytes));
    let mut expected = vec![0u32; 128];
    expected[0] = 200;
    expected[2] = 201;
    assert_eq!(decompress_batch(&bytes), expected);
}

#[test]
fn exception_values_are_read_at_the_size_of_the_header() {
    let slots = [0u8; 32];
    // two bits for each slot, the chain is 5, 6
    let bytes = buffer(2, 16, 5, &slots, &[0x34, 0x12, 0x78, 0x56]);
    assert!(is_well_formed(&bytes));
    let decoded = decompress_batch(&bytes);
    assert_eq!(decoded[5], 0x1234);
    assert_eq!(decoded[6], 0x5678);
    let bytes = buffer(2, 32, 5, &slots, &[0x34, 0x12, 0x78, 0x56]);
    assert!(is_well_formed(&bytes));
    let decoded = decompress_batch(&bytes);
    assert_eq!(decoded[5], 0x5678_1234);
    assert_eq!(decoded[6], 0);
}

#[test]
fn bytes_after_the_last_whole_exception_are_not_read() {
    let slots = [0u8; 16];
    let bytes = buffer(1, 16, 9, &slots, &[1, 0, 7]);
    assert!(is_well_formed(&bytes));
    let decoded = decompress_batch(&bytes);
    assert_eq!(decoded[9], 1);
    assert_eq!(decoded.iter().filter(|v| **v != 0).count(), 1);
}

#[test]
fn slots_of_more_than_sixteen_bits_are_read() {
    // twenty bits for each slot: 320 bytes; slot 1 holds 0xABCDE
    let mut slots = vec![0u8; 320];
    slots[2] = 0xE0;
    slots[3] = 0xCD;
    slots[4] = 0xAB;
    let bytes = buffer(20, 32, 127, &slots, &[]);
    assert!(is_well_formed(&bytes));
    let decoded = decompress_batch(&bytes);
    assert_eq!(decoded[1], 0xABCDE);
    assert_eq!(decoded[0], 0);
    assert_eq!(decoded[2], 0);
}

#[test]
fn buffers_that_cannot_be_read_are_told() {
    let slots = [0u8; 16];
    assert!(!is_well_formed(&[]));
    assert!(!is_well_formed(&[1, 8]));
    // width 0 and width 33
    assert!(!is_well_formed(&buffer(0, 8, 127, &slots, &[])));
    assert!(!is_well_formed(&buffer(33, 8, 127, &vec![0u8; 16 * 33], &[])));
    // an exception size that is none of 8, 16, 32
    assert!(!is_well_formed(&buffer(1, 0, 127, &slots, &[])));
    assert!(!is_well_formed(&buffer(1, 24, 127, &slots, &[])));
    // slots cut short
    assert!(!is_well_formed(&buffer(1, 8, 127, &slots[..15], &[])));
    assert!(!is_well_formed(&buffer(2, 8, 127, &slots, &[])));
    // a chain that leaves the batch: after place 127 comes no place
    assert!(is_well_formed(&buffer(1, 8, 127, &slots, &[9])));
    assert!(!is_well_formed(&buffer(1, 8, 127, &slots, &[9, 9])));
    assert!(!is_well_formed(&buffer(1, 8, 128, &slots, &[9])));
    assert!(!is_well_formed(&buffer(1, 8, 255, &slots, &[9])));
    // a header alone with the place of no exception is a batch only with its slots
    assert!(is_well_formed(&buffer(1, 8, 200, &slots, &[])));
}

#[test]
fn what_is_compressed_can_be_read() {
    let values: Vec<u32> = (0..128u32).map(|i| i * i * 40).collect();
    let compressed = compress_batch(&values);
    assert!(is_well_formed(&compressed));
    // cut within its slots it cannot
    let slots_end = 3 + 16 * compressed[0] as usize;
    assert!(is_well_formed(&compressed[..slots_end]));
    assert!(!is_well_formed(&compressed[..slots_end - 1]));
    assert_eq!(decompress_batch(&compressed), values);
}
