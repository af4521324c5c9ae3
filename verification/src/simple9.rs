//! Simple9: nine layouts of equally wide slots.
use crate::digits::{le_bytes, le_chunks, lemma_le_chunks_of_le_bytes, lemma_u32_low_bits};
use crate::selectors::{
    chosen_from, commits, decoded_word, decoded_words, encoded_words, layout_ok, lemma_chosen,
    lemma_encoded_tags, lemma_le_bytes_push, lemma_pack_step, lemma_round_trip, lemma_taken_from, lemma_uniform_offset,
    lemma_unpack_step, payload, push_word, slot_offset, table_ok, taken, taken_from,
    uniform_layout, within_limit, word_of,
};
use vstd::arithmetic::power2::{lemma2_to64, pow2};
use vstd::prelude::*;

verus! {

/// The bytes of the encoded words, each word lowest byte first.
pub struct EncodeResult {
    pub encoded_result: Vec<u8>,
}

/// The decoded values; after the values that were encoded it may hold
/// zeros, one for each slot that the last word left free.
pub struct DecodeResult {
    pub decoded_result: Vec<u32>,
}

/// One entry of the selector table.
#[derive(Debug, Clone, Copy, PartialEq, Eq)]
pub struct Simple9Selector {
    pub no_of_items: u32,
    pub no_of_used_bits: u32,
    pub no_of_wasted_bits: u32,
}

/// The low bits of a word that hold the index of its selector.
pub const SELECTOR_MASK: u32 = 0x000F;

/// The largest value that can be encoded: `2^28 - 1`.
pub const MAX_NUMBER_POSSIBLE: u32 = 0x0FFF_FFFF;

/// Number of bits of the selector index.
pub const SELECTOR_BITS: u32 = 4;

/// Number of selectors.
pub const SELECTOR_COUNT: usize = 9;

/// The selector table, ordered from the most items to the fewest.
pub open spec fn selector_at(index: int) -> Simple9Selector {
    if index == 0 {
        Simple9Selector { no_of_items: 28, no_of_used_bits: 1, no_of_wasted_bits: 0 }
    } else if index == 1 {
        Simple9Selector { no_of_items: 14, no_of_used_bits: 2, no_of_wasted_bits: 0 }
    } else if index == 2 {
        Simple9Selector { no_of_items: 9, no_of_used_bits: 3, no_of_wasted_bits: 1 }
    } else if index == 3 {
        Simple9Selector { no_of_items: 7, no_of_used_bits: 4, no_of_wasted_bits: 0 }
    } else if index == 4 {
        Simple9Selector { no_of_items: 5, no_of_used_bits: 5, no_of_wasted_bits: 3 }
    } else if index == 5 {
        Simple9Selector { no_of_items: 4, no_of_used_bits: 7, no_of_wasted_bits: 0 }
    } else if index == 6 {
        Simple9Selector { no_of_items: 3, no_of_used_bits: 9, no_of_wasted_bits: 1 }
    } else if index == 7 {
        Simple9Selector { no_of_items: 2, no_of_used_bits: 14, no_of_wasted_bits: 0 }
    } else {
        Simple9Selector { no_of_items: 1, no_of_used_bits: 28, no_of_wasted_bits: 0 }
    }
}

/// The slots of a selector.
pub open spec fn layout_of(selector: Simple9Selector) -> Seq<nat> {
    uniform_layout(selector.no_of_items as nat, selector.no_of_used_bits as nat)
}

/// The layouts of the nine selectors.
pub open spec fn table() -> Seq<Seq<nat>> {
    Seq::new(SELECTOR_COUNT as nat, |index: int| layout_of(selector_at(index)))
}

/// Every selector accounts for the 28 bits of the payload: its slots and
/// the bits it leaves unused.
pub proof fn lemma_selector_capacity(index: int)
    requires
        0 <= index < SELECTOR_COUNT,
    ensures
        selector_at(index).no_of_items * selector_at(index).no_of_used_bits + selector_at(
            index,
        ).no_of_wasted_bits == 28,
{
}

/// The table of Simple9 is a table of layouts as the greedy packing needs it.
pub proof fn lemma_table_ok()
    ensures
        table_ok(table()),
{
    assert forall|index: int| 0 <= index < table().len() implies layout_ok(
        #[trigger] table()[index],
    ) by {
        let selector = selector_at(index);
        lemma_selector_capacity(index);
        lemma_uniform_offset(
            selector.no_of_items as nat,
            selector.no_of_used_bits as nat,
            selector.no_of_items as nat,
        );
        assert(selector.no_of_used_bits * selector.no_of_items == selector.no_of_items
            * selector.no_of_used_bits) by (nonlinear_arith);
    }
    assert(table().last() =~= seq![28nat]);
}

/// Round trip: the bytes of an encoding, read back as words and decoded,
/// give the values that were encoded, followed by nothing but zeros: fewer
/// than 28, one for each slot that the last word left free. Every word of an
/// encoding names a selector of the table.
pub proof fn lemma_decode_encode(values: Seq<u32>)
    requires
        forall|i: int| 0 <= i < values.len() ==> values[i] <= MAX_NUMBER_POSSIBLE,
    ensures
        ({
            let words = le_chunks(le_bytes(encoded_words(values, table())), 4);
            let decoded = decoded_words(words, table());
            &&& words == encoded_words(values, table())
            &&& forall|k: int| 0 <= k < words.len() ==> words[k] % 16 < SELECTOR_COUNT
            &&& decoded.len() >= values.len()
            &&& decoded.subrange(0, values.len() as int) == values
            &&& forall|i: int| values.len() <= i < decoded.len() ==> decoded[i] == 0
            &&& decoded.len() < values.len() + 28
        }),
{
    lemma2_to64();
    lemma_table_ok();
    lemma_le_chunks_of_le_bytes(encoded_words(values, table()));
    lemma_encoded_tags(values, table());
    lemma_round_trip(values, table());
}

/// Entry `index` of the selector table.
pub fn selector(index: usize) -> (entry: Simple9Selector)
    requires
        index < SELECTOR_COUNT,
    ensures
        entry == selector_at(index as int),
{
    match index {
        0 => Simple9Selector { no_of_items: 28, no_of_used_bits: 1, no_of_wasted_bits: 0 },
        1 => Simple9Selector { no_of_items: 14, no_of_used_bits: 2, no_of_wasted_bits: 0 },
        2 => Simple9Selector { no_of_items: 9, no_of_used_bits: 3, no_of_wasted_bits: 1 },
        3 => Simple9Selector { no_of_items: 7, no_of_used_bits: 4, no_of_wasted_bits: 0 },
        4 => Simple9Selector { no_of_items: 5, no_of_used_bits: 5, no_of_wasted_bits: 3 },
        5 => Simple9Selector { no_of_items: 4, no_of_used_bits: 7, no_of_wasted_bits: 0 },
        6 => Simple9Selector { no_of_items: 3, no_of_used_bits: 9, no_of_wasted_bits: 1 },
        7 => Simple9Selector { no_of_items: 2, no_of_used_bits: 14, no_of_wasted_bits: 0 },
        _ => Simple9Selector { no_of_items: 1, no_of_used_bits: 28, no_of_wasted_bits: 0 },
    }
}

/// The Simple9 codec.
pub struct Simple9 {}

impl Simple9 {
    /// Tells whether `encode` takes the values: whether none of them is
    /// above `MAX_NUMBER_POSSIBLE`.
    pub fn accepts(list: &[u32]) -> (ok: bool)
        ensures
            ok == (forall|i: int| 0 <= i < list@.len() ==> list@[i] <= MAX_NUMBER_POSSIBLE),
    {
        let mut i: usize = 0;
        while i < list.len()
            invariant
                i <= list@.len(),
                forall|j: int| 0 <= j < i ==> list@[j] <= MAX_NUMBER_POSSIBLE,
            decreases list@.len() - i,
        {
            if list[i] > MAX_NUMBER_POSSIBLE {
                return false;
            }
            i = i + 1;
        }
        true
    }

    /// Packs values from `list[start]` on into one word under the selector
    /// `selector_idx`, for as long as a slot is free and the next value fits.
    /// Returns the word and the number of values in it.
    fn pack(list: &Vec<u32>, start: usize, selector_idx: usize) -> (packed: (u32, u32))
        requires
            start <= list@.len(),
            selector_idx < SELECTOR_COUNT,
        ensures
            packed.1 == taken(list@.skip(start as int), table()[selector_idx as int]),
            packed.0 == word_of(
                selector_idx as nat,
                payload(list@.skip(start as int), table()[selector_idx as int], packed.1 as nat),
            ),
    {
        let selector = selector(selector_idx);
        let n = list.len();
        let ghost rest = list@.skip(start as int);
        let ghost layout = table()[selector_idx as int];
        let mut data = selector_idx as u32;
        let mut shift: u32 = 0;
        let mut no_of_items: u32 = 0;
        let mut idx = start;
        proof {
            lemma2_to64();
            lemma_table_ok();
            lemma_u32_low_bits(0, selector.no_of_used_bits);
            assert(pow2(4) * 0 == 0);
        }
        let limit = (1u32 << selector.no_of_used_bits) - 1;
        while idx < n && no_of_items < selector.no_of_items && list[idx] <= limit
            invariant
                n == list@.len(),
                rest == list@.skip(start as int),
                layout == table()[selector_idx as int],
                layout == layout_of(selector),
                layout_ok(layout),
                selector_idx < SELECTOR_COUNT,
                selector.no_of_used_bits < 32,
                limit == pow2(selector.no_of_used_bits as nat) - 1,
                no_of_items <= selector.no_of_items,
                idx == start + no_of_items,
                idx <= n,
                shift == slot_offset(layout, no_of_items as nat),
                shift <= 28,
                taken_from(rest, layout, no_of_items as nat) == taken(rest, layout),
                forall|slot: int| 0 <= slot < no_of_items ==> rest[slot] < pow2(layout[slot]),
                data == word_of(selector_idx as nat, payload(rest, layout, no_of_items as nat)),
            decreases n - idx,
        {
            proof {
                assert(rest[no_of_items as int] == list@[idx as int]);
                lemma_pack_step(rest, layout, selector_idx as nat, no_of_items as nat, data);
            }
            data |= list[idx] << (SELECTOR_BITS + shift);
            shift += selector.no_of_used_bits;
            no_of_items += 1;
            idx += 1;
        }
        (data, no_of_items)
    }

    /// Encodes values of at most `MAX_NUMBER_POSSIBLE` each into words and
    /// returns the bytes of the words.
    pub fn encode(list: Vec<u32>) -> (result: EncodeResult)
        requires
            forall|i: int| 0 <= i < list@.len() ==> list@[i] <= MAX_NUMBER_POSSIBLE,
        ensures
            result.encoded_result@ == le_bytes(encoded_words(list@, table())),
    {
        let mut encoded_result: Vec<u8> = Vec::new();
        let n = list.len();
        let mut i: usize = 0;
        let ghost mut words: Seq<u32> = Seq::empty();
        proof {
            lemma2_to64();
            lemma_table_ok();
            assert(list@.skip(0) =~= list@);
            assert(encoded_result@ =~= le_bytes(words));
        }
        while i < n
            invariant
                n == list@.len(),
                i <= n,
                within_limit(list@),
                table_ok(table()),
                encoded_result@ == le_bytes(words),
                words + encoded_words(list@.skip(i as int), table()) == encoded_words(
                    list@,
                    table(),
                ),
            decreases n - i,
        {
            let ghost start = i;
            let ghost rest = list@.skip(i as int);
            let mut selector_idx: usize = 0;
            proof {
                lemma_chosen(rest, table(), 0);
            }
            loop
                invariant_except_break
                    i == start,
                    selector_idx < SELECTOR_COUNT,
                    chosen_from(rest, table(), 0) == chosen_from(
                        rest,
                        table(),
                        selector_idx as nat,
                    ),
                    encoded_result@ == le_bytes(words),
                    words + encoded_words(rest, table()) == encoded_words(list@, table()),
                invariant
                    n == list@.len(),
                    start < n,
                    rest == list@.skip(start as int),
                    within_limit(list@),
                    within_limit(rest),
                    table_ok(table()),
                ensures
                    start < i <= n,
                    encoded_result@ == le_bytes(words),
                    words + encoded_words(list@.skip(i as int), table()) == encoded_words(
                        list@,
                        table(),
                    ),
                decreases SELECTOR_COUNT - selector_idx,
            {
                let entry = selector(selector_idx);
                let (data, no_of_items) = Self::pack(&list, i, selector_idx);
                proof {
                    lemma_chosen(rest, table(), selector_idx as nat);
                    lemma_taken_from(rest, table()[selector_idx as int], 0);
                }
                if no_of_items == entry.no_of_items || i + no_of_items as usize == n {
                    push_word(&mut encoded_result, data);
                    proof {
                        assert(commits(rest, table()[selector_idx as int]));
                        assert(chosen_from(rest, table(), selector_idx as nat) == selector_idx);
                        lemma_le_bytes_push(words, data);
                        assert(rest.skip(no_of_items as int) =~= list@.skip(
                            i + no_of_items as int,
                        ));
                        assert(encoded_words(rest, table()) == seq![data] + encoded_words(
                            rest.skip(no_of_items as int),
                            table(),
                        ));
                        assert(words.push(data) + encoded_words(
                            rest.skip(no_of_items as int),
                            table(),
                        ) =~= words + encoded_words(rest, table()));
                        words = words.push(data);
                    }
                    i = i + no_of_items as usize;
                    break ;
                }
                selector_idx += 1;
            }
        }
        proof {
            assert(list@.skip(n as int) =~= Seq::<u32>::empty());
            assert(words + Seq::<u32>::empty() =~= words);
        }
        return EncodeResult { encoded_result: encoded_result };
    }

    /// Decodes words whose selector index is one of the table: for each word
    /// as many values as its selector has slots.
    pub fn decode(list: Vec<u32>) -> (result: DecodeResult)
        requires
            forall|i: int| 0 <= i < list@.len() ==> list@[i] % 16 < SELECTOR_COUNT,
        ensures
            result.decoded_result@ == decoded_words(list@, table()),
    {
        let mut decoded_result: Vec<u32> = Vec::new();
        let mut k: usize = 0;
        proof {
            lemma_table_ok();
            assert(list@.skip(0) =~= list@);
        }
        while k < list.len()
            invariant
                k <= list@.len(),
                table_ok(table()),
                forall|i: int| 0 <= i < list@.len() ==> list@[i] % 16 < SELECTOR_COUNT,
                decoded_result@ + decoded_words(list@.skip(k as int), table()) == decoded_words(
                    list@,
                    table(),
                ),
            decreases list@.len() - k,
        {
            let word = list[k];
            let mut data = word;
            assert(data & 0xF == data % 16 && data >> 4 == data / 16) by (bit_vector);
            let selector_idx = data & SELECTOR_MASK;
            data = data >> SELECTOR_BITS;
            let entry = selector(selector_idx as usize);
            let ghost layout = table()[selector_idx as int];
            let ghost before = decoded_result@;
            let ghost slots = decoded_word(word, table());
            proof {
                lemma2_to64();
                assert(data == word as nat / 16);
                assert(slot_offset(layout, 0) == 0);
                lemma_unpack_step(word, layout, 0, data);
            }
            let mask = (1u32 << entry.no_of_used_bits) - 1;
            let mut j: u32 = 0;
            while j < entry.no_of_items
                invariant
                    j <= entry.no_of_items,
                    layout == layout_of(entry),
                    layout == table()[word as int % 16],
                    layout_ok(layout),
                    slots == decoded_word(word, table()),
                    entry.no_of_used_bits < 32,
                    mask == (1u32 << entry.no_of_used_bits) - 1,
                    data == (word as nat / 16) / pow2(slot_offset(layout, j as nat)),
                    decoded_result@ == before + slots.subrange(0, j as int),
                decreases entry.no_of_items - j,
            {
                proof {
                    lemma_unpack_step(word, layout, j as nat, data);
                    assert(before + slots.subrange(0, j + 1) =~= (before + slots.subrange(
                        0,
                        j as int,
                    )).push(slots[j as int]));
                }
                decoded_result.push(data & mask);
                data = data >> entry.no_of_used_bits;
                j += 1;
            }
            proof {
                let tail = list@.skip(k as int);
                assert(tail.drop_first() =~= list@.skip(k + 1));
                assert(slots.subrange(0, j as int) =~= slots);
                assert(decoded_words(tail, table()) == slots + decoded_words(
                    list@.skip(k + 1),
                    table(),
                ));
                assert(decoded_result@ + decoded_words(list@.skip(k + 1), table()) =~= before
                    + decoded_words(tail, table()));
            }
            k += 1;
        }
        proof {
            assert(list@.skip(k as int) =~= Seq::<u32>::empty());
            assert(decoded_result@ + Seq::<u32>::empty() =~= decoded_result@);
        }
        return DecodeResult { decoded_result: decoded_result };
    }
}

} // verus!
