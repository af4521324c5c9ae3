use rust_compress::simple9::{Simple9, MAX_NUMBER_POSSIBLE};

#[test]
fn mod_test_encode_single_element() {
    let list = vec![1];
    let result = Simple9::encode(list);
    assert!(!result.encoded_result.is_empty());
}

#[test]
fn mod_test_encode_small_values() {
    let list = vec![1, 2, 3, 4, 5];
    let result = Simple9::encode(list);
    assert_eq!(result.encoded_result.len(), 4); // Should fit in one u32
}

#[test]
fn mod_test_encode_28_ones() {
    // Best case: 28 values that fit in 1 bit each (selector 0)
    let list = vec![1; 28];
    let result = Simple9::encode(list);
    assert_eq!(result.encoded_result.len(), 4); // One u32
}

#[test]
fn test_encode_14_small_values() {
    // Values that fit in 2 bits (0-3) - selector 1
    let list = vec![0, 1, 2, 3, 0, 1, 2, 3, 0, 1, 2, 3, 0, 1];
    let result = Simple9::encode(list);
    assert_eq!(result.encoded_result.len(), 4); // One u32
}

#[test]
fn mod_test_encode_large_value() {
    // Value that requires 28 bits (selector 8)
    let list = vec![MAX_NUMBER_POSSIBLE];
    let result = Simple9::encode(list);
    assert_eq!(result.encoded_result.len(), 4);
}

#[test]
fn mod_test_encode_decode_roundtrip_small() {
    let original = vec![1, 2, 3, 4, 5];
    let encoded = Simple9::encode(original.clone());

    // Convert encoded bytes back to u32 for decoding
    let mut encoded_u32 = vec![];
    for chunk in encoded.encoded_result.chunks(4) {
        let mut bytes = [0u8; 4];
        bytes.copy_from_slice(chunk);
        encoded_u32.push(u32::from_le_bytes(bytes));
    }

    let decoded = Simple9::decode(encoded_u32);

    // Decoded may have padding zeros, so check prefix matches
    assert!(decoded.decoded_result.len() >= original.len());
    assert_eq!(&decoded.decoded_result[..original.len()], &original[..]);
}

#[test]
fn mod_test_encode_decode_roundtrip_mixed_sizes() {
    let original = vec![1, 10, 100, 1000, 10000];
    let encoded = Simple9::encode(original.clone());

    let mut encoded_u32 = vec![];
    for chunk in encoded.encoded_result.chunks(4) {
        let mut bytes = [0u8; 4];
        bytes.copy_from_slice(chunk);
        encoded_u32.push(u32::from_le_bytes(bytes));
    }

    let decoded = Simple9::decode(encoded_u32);

    assert!(decoded.decoded_result.len() >= original.len());
    assert_eq!(&decoded.decoded_result[..original.len()], &original[..]);
}

#[test]
fn mod_test_encode_decode_roundtrip_sequential() {
    let original = vec![1, 2, 3, 4, 5, 6, 7, 8, 9, 10];
    let encoded = Simple9::encode(original.clone());

    let mut encoded_u32 = vec![];
    for chunk in encoded.encoded_result.chunks(4) {
        let mut bytes = [0u8; 4];
        bytes.copy_from_slice(chunk);
        encoded_u32.push(u32::from_le_bytes(bytes));
    }

    let decoded = Simple9::decode(encoded_u32);

    assert!(decoded.decoded_result.len() >= original.len());
    assert_eq!(&decoded.decoded_result[..original.len()], &original[..]);
}

#[test]
fn mod_test_encode_decode_roundtrip_repeated_values() {
    let original = vec![7, 7, 7, 7, 7, 7];
    let encoded = Simple9::encode(original.clone());

    let mut encoded_u32 = vec![];
    for chunk in encoded.encoded_result.chunks(4) {
        let mut bytes = [0u8; 4];
        bytes.copy_from_slice(chunk);
        encoded_u32.push(u32::from_le_bytes(bytes));
    }

    let decoded = Simple9::decode(encoded_u32);

    assert!(decoded.decoded_result.len() >= original.len());
    assert_eq!(&decoded.decoded_result[..original.len()], &original[..]);
}

#[test]
fn mod_test_encode_decode_roundtrip_max_single_bit() {
    let original = vec![1, 1, 1, 1, 1, 1, 1, 1];
    let encoded = Simple9::encode(original.clone());

    let mut encoded_u32 = vec![];
    for chunk in encoded.encoded_result.chunks(4) {
        let mut bytes = [0u8; 4];
        bytes.copy_from_slice(chunk);
        encoded_u32.push(u32::from_le_bytes(bytes));
    }

    let decoded = Simple9::decode(encoded_u32);

    assert!(decoded.decoded_result.len() >= original.len());
    assert_eq!(&decoded.decoded_result[..original.len()], &original[..]);
}

#[test]
fn mod_test_encode_decode_roundtrip_large_dataset() {
    let original: Vec<u32> = (1..=100).collect();
    let encoded = Simple9::encode(original.clone());

    let mut encoded_u32 = vec![];
    for chunk in encoded.encoded_result.chunks(4) {
        let mut bytes = [0u8; 4];
        bytes.copy_from_slice(chunk);
        encoded_u32.push(u32::from_le_bytes(bytes));
    }

    let decoded = Simple9::decode(encoded_u32);

    assert!(decoded.decoded_result.len() >= original.len());
    assert_eq!(&decoded.decoded_result[..original.len()], &original[..]);
}

#[test]
fn mod_test_encode_decode_roundtrip_powers_of_two() {
    let original = vec![1, 2, 4, 8, 16, 32, 64, 128];
    let encoded = Simple9::encode(original.clone());

    let mut encoded_u32 = vec![];
    for chunk in encoded.encoded_result.chunks(4) {
        let mut bytes = [0u8; 4];
        bytes.copy_from_slice(chunk);
        encoded_u32.push(u32::from_le_bytes(bytes));
    }

    let decoded = Simple9::decode(encoded_u32);

    assert!(decoded.decoded_result.len() >= original.len());
    assert_eq!(&decoded.decoded_result[..original.len()], &original[..]);
}

#[test]
fn mod_test_encode_decode_roundtrip_ones() {
    let original = vec![1; 28];
    let encoded = Simple9::encode(original.clone());

    let mut encoded_u32 = vec![];
    for chunk in encoded.encoded_result.chunks(4) {
        let mut bytes = [0u8; 4];
        bytes.copy_from_slice(chunk);
        encoded_u32.push(u32::from_le_bytes(bytes));
    }

    let decoded = Simple9::decode(encoded_u32);
    assert_eq!(&decoded.decoded_result[..28], &original[..]);
}

#[test]
fn mod_test_encode_decode_roundtrip_large_values() {
    let original = vec![1000, 2000, 3000, 4000];
    let encoded = Simple9::encode(original.clone());

    let mut encoded_u32 = vec![];
    for chunk in encoded.encoded_result.chunks(4) {
        let mut bytes = [0u8; 4];
        bytes.copy_from_slice(chunk);
        encoded_u32.push(u32::from_le_bytes(bytes));
    }

    let decoded = Simple9::decode(encoded_u32);
    assert!(decoded.decoded_result.len() >= original.len());
    assert_eq!(&decoded.decoded_result[..original.len()], &original[..]);
}
