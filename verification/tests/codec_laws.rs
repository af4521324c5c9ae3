use rust_compress::simple16::{self, Simple16};
use rust_compress::simple9::{self, Simple9};

fn words_of(bytes: &[u8]) -> Vec<u32> {
    assert_eq!(bytes.len() % 4, 0);
    bytes.chunks(4).map(|chunk| u32::from_le_bytes([chunk[0], chunk[1], chunk[2], chunk[3]])).collect()
}

fn series(count: usize, limit: u32, seed: u64) -> Vec<u32> {
    let mut state = seed;
    (0..count)
        .map(|_| {
            state = state.wrapping_mul(6_364_136_223_846_793_005).wrapping_add(1_442_695_040_888_963_407);
            ((state >> 33) as u32) % limit
        })
        .collect()
}

#[test]
fn simple9_selectors_account_for_the_payload() {
    for index in 0..simple9::SELECTOR_COUNT {
        let entry = simple9::selector(index);
        assert_eq!(entry.no_of_items * entry.no_of_used_bits + entry.no_of_wasted_bits, 28);
    }
    assert_eq!(simple9::selector(0).no_of_items, 28);
    assert_eq!(simple9::selector(8).no_of_used_bits, 28);
}

#[test]
fn simple16_selectors_account_for_the_payload() {
    let mut layouts = 0;
    for index in 0..simple16::SELECTOR_COUNT {
        let entry = simple16::selector(index);
        match entry.layout {
            Some(widths) => {
                layouts += 1;
                assert_eq!(widths.len(), entry.no_of_items as usize);
                assert_eq!(widths.iter().map(|w| *w as u32).sum::<u32>(), 28);
            }
            None => {
                assert_eq!(
                    entry.no_of_items * entry.no_of_used_bits + entry.no_of_wasted_bits,
                    28
                );
            }
        }
    }
    assert_eq!(layouts, 8);
    assert_eq!(simple16::selector(4).layout, Some(&[3u8, 5, 5, 5, 5, 5][..]));
    assert_eq!(simple16::selector(13).layout, Some(&[10u8, 10, 8][..]));
}

#[test]
fn simple9_five_small_values_make_one_word() {
    let encoded = Simple9::encode(vec![1, 2, 3, 4, 5]);
    // the values 4 and 5 need three bits: selector 2, nine slots of three bits
    let word: u32 = 2 | 1 << 4 | 2 << 7 | 3 << 10 | 4 << 13 | 5 << 16;
    assert_eq!(word, 363_794);
    assert_eq!(encoded.encoded_result, word.to_le_bytes().to_vec());
    let decoded = Simple9::decode(vec![word]);
    assert_eq!(decoded.decoded_result, vec![1, 2, 3, 4, 5, 0, 0, 0, 0]);
}

#[test]
fn largest_value_makes_one_word_of_one_slot() {
    let encoded = Simple9::encode(vec![simple9::MAX_NUMBER_POSSIBLE]);
    assert_eq!(encoded.encoded_result, 0xFFFF_FFF8u32.to_le_bytes().to_vec());
    assert_eq!(
        Simple9::decode(vec![0xFFFF_FFF8]).decoded_result,
        vec![simple9::MAX_NUMBER_POSSIBLE]
    );
    let encoded = Simple16::encode(vec![simple16::MAX_NUMBER_POSSIBLE]);
    assert_eq!(encoded.encoded_result, 0xFFFF_FFFFu32.to_le_bytes().to_vec());
    assert_eq!(
        Simple16::decode(vec![0xFFFF_FFFF]).decoded_result,
        vec![simple16::MAX_NUMBER_POSSIBLE]
    );
}

#[test]
fn nothing_encodes_to_nothing() {
    assert!(Simple9::encode(vec![]).encoded_result.is_empty());
    assert!(Simple16::encode(vec![]).encoded_result.is_empty());
    assert!(Simple9::decode(vec![]).decoded_result.is_empty());
    assert!(Simple16::decode(vec![]).decoded_result.is_empty());
}

#[test]
fn simple9_takes_the_first_selector_that_fills_or_ends() {
    // 28 ones fill selector 0; one more value starts a second word, which
    // ends the input under selector 0 too
    let mut list = vec![1u32; 28];
    list.push(1);
    let words = words_of(&Simple9::encode(list).encoded_result);
    assert_eq!(words, vec![0xFFFF_FFF0, 0x0000_0010]);
    // a value too wide for the slot ends the attempt: [1, 1, 2] is no
    // selector 0 word, it is one word of selector 1
    let words = words_of(&Simple9::encode(vec![1, 1, 2]).encoded_result);
    assert_eq!(words, vec![1 | 1 << 4 | 1 << 6 | 2 << 8]);
    // seven values of four bits and one more: selector 3 is filled
    let words = words_of(&Simple9::encode(vec![15; 8]).encoded_result);
    assert_eq!(words, vec![0xFFFF_FFF3, 3 | 15 << 4]);
}

#[test]
fn simple16_uses_a_layout_where_simple9_needs_wider_slots() {
    let list = vec![7u32, 31, 30, 29, 28, 27];
    let words = words_of(&Simple16::encode(list.clone()).encoded_result);
    let word: u32 = 4 | 7 << 4 | 31 << 7 | 30 << 12 | 29 << 17 | 28 << 22 | 27 << 27;
    assert_eq!(words, vec![word]);
    assert_eq!(Simple16::decode(words).decoded_result, list);
    // Simple9 has no slot of five bits for six values
    let words = words_of(&Simple9::encode(list).encoded_result);
    assert_eq!(words.len(), 2);
    assert_eq!(words[0] & 0xF, 4);
}

#[test]
fn simple16_decodes_each_slot_at_its_own_width() {
    // selector 12: slots of 8, 10 and 10 bits
    let word: u32 = 12 | 255 << 4 | 1023 << 12 | 1022 << 22;
    assert_eq!(Simple16::decode(vec![word]).decoded_result, vec![255, 1023, 1022]);
    // selector 10: slots of 10, 6, 6 and 6 bits
    let word: u32 = 10 | 1000 << 4 | 1 << 14 | 2 << 20 | 3 << 26;
    assert_eq!(Simple16::decode(vec![word]).decoded_result, vec![1000, 1, 2, 3]);
}

#[test]
fn decoding_gives_a_value_for_every_slot_of_every_word() {
    let items9 = [28usize, 14, 9, 7, 5, 4, 3, 2, 1];
    for (index, items) in items9.iter().enumerate() {
        assert_eq!(Simple9::decode(vec![index as u32]).decoded_result, vec![0u32; *items]);
    }
    let items16 = [28usize, 14, 9, 7, 6, 5, 5, 5, 5, 4, 4, 3, 3, 3, 2, 1];
    for (index, items) in items16.iter().enumerate() {
        assert_eq!(Simple16::decode(vec![index as u32]).decoded_result, vec![0u32; *items]);
    }
}

#[test]
fn simple9_round_trips_and_pads_with_zeros_only() {
    for (count, limit) in [(1usize, 2u32), (100, 2), (57, 4), (300, 100), (64, 1 << 14), (33, 1 << 28), (500, 70_000)] {
        for seed in 1..=5u64 {
            let original = series(count, limit, seed * 31 + count as u64);
            let encoded = Simple9::encode(original.clone());
            let words = words_of(&encoded.encoded_result);
            for word in &words {
                assert!(word & 0xF < 9);
            }
            let decoded = Simple9::decode(words).decoded_result;
            assert!(decoded.len() >= original.len());
            assert_eq!(&decoded[..original.len()], &original[..]);
            assert!(decoded[original.len()..].iter().all(|v| *v == 0));
            assert!(decoded.len() - original.len() < 28);
        }
    }
}

#[test]
fn simple16_round_trips_and_pads_with_zeros_only() {
    for (count, limit) in [(1usize, 2u32), (100, 2), (57, 4), (300, 100), (64, 1 << 14), (33, 1 << 28), (500, 70_000), (200, 40), (200, 1_000)] {
        for seed in 1..=5u64 {
            let original = series(count, limit, seed * 17 + count as u64);
            let encoded = Simple16::encode(original.clone());
            let words = words_of(&encoded.encoded_result);
            let decoded = Simple16::decode(words).decoded_result;
            assert!(decoded.len() >= original.len());
            assert_eq!(&decoded[..original.len()], &original[..]);
            assert!(decoded[original.len()..].iter().all(|v| *v == 0));
            assert!(decoded.len() - original.len() < 28);
        }
    }
}

#[test]
fn a_value_above_the_limit_is_not_accepted() {
    assert!(Simple9::accepts(&[0, 1, simple9::MAX_NUMBER_POSSIBLE]));
    assert!(!Simple9::accepts(&[1 << 28]));
    assert!(!Simple9::accepts(&[1, 2, simple9::MAX_NUMBER_POSSIBLE + 1, 3]));
    assert!(!Simple9::accepts(&[u32::MAX]));
    assert!(Simple9::accepts(&[]));
    assert!(Simple16::accepts(&[0, 1, simple16::MAX_NUMBER_POSSIBLE]));
    assert!(!Simple16::accepts(&[1 << 28]));
    assert!(!Simple16::accepts(&[7, u32::MAX]));
    assert!(Simple16::accepts(&[]));
}
