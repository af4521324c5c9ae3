//! The packing that Simple9 and Simple16 share.
//!
//! A word holds a selector tag in its low four bits and a payload above it.
//! The selector names a layout: the widths of the slots of the payload, in
//! the order in which values fill them. Encoding is greedy: at each place of
//! the input the first selector of the table that either fills all its slots
//! or takes all that is left of the input is used.
use crate::digits::{
    bit_field, le_bytes, lemma_field_above_is_zero, lemma_field_ignores_above,
    lemma_split_low_high, lemma_u32_low_bits, lemma_u32_or_shifted,
};
use vstd::arithmetic::div_mod::{lemma_div_denominator, lemma_small_mod};
use vstd::arithmetic::power2::{
    lemma2_to64, lemma_pow2_adds, lemma_pow2_pos, lemma_pow2_strictly_increases, pow2,
};
use vstd::prelude::*;

verus! {

/// Number of bits of the selector tag.
pub const SELECTOR_BITS: u32 = 4;

/// Number of bits of the payload.
pub const PAYLOAD_BITS: u32 = 28;

/// The layout of a selector whose slots all have the same width.
pub open spec fn uniform_layout(items: nat, bits: nat) -> Seq<nat> {
    Seq::new(items, |slot: int| bits)
}

/// The bit of the payload at which slot `slot` begins.
pub open spec fn slot_offset(layout: Seq<nat>, slot: nat) -> nat
    decreases slot,
{
    if slot == 0 {
        0
    } else {
        slot_offset(layout, (slot - 1) as nat) + layout[slot - 1]
    }
}

/// A layout has at least one slot, no slot is empty, and together the slots
/// fit the payload.
pub open spec fn layout_ok(layout: Seq<nat>) -> bool {
    &&& 1 <= layout.len()
    &&& forall|slot: int| 0 <= slot < layout.len() ==> 1 <= #[trigger] layout[slot]
    &&& slot_offset(layout, layout.len()) <= PAYLOAD_BITS
}

/// A table holds at most 16 layouts, and its last one is a single slot as
/// wide as the payload, which takes any value that the codec accepts.
pub open spec fn table_ok(table: Seq<Seq<nat>>) -> bool {
    &&& 1 <= table.len() <= 16
    &&& forall|selector: int| 0 <= selector < table.len() ==> layout_ok(#[trigger] table[selector])
    &&& table.last() =~= seq![PAYLOAD_BITS as nat]
}

/// Every value fits the payload of a word.
pub open spec fn within_limit(values: Seq<u32>) -> bool {
    forall|i: int| 0 <= i < values.len() ==> #[trigger] values[i] < pow2(PAYLOAD_BITS as nat)
}

/// How many of the leading values a layout takes once it holds `count` of
/// them: it goes on while a slot is free, a value is left, and the value
/// fits the slot.
pub open spec fn taken_from(values: Seq<u32>, layout: Seq<nat>, count: nat) -> nat
    decreases layout.len() - count,
{
    if count < layout.len() && count < values.len() && values[count as int] < pow2(
        layout[count as int],
    ) {
        taken_from(values, layout, count + 1)
    } else {
        count
    }
}

/// How many of the leading values a layout takes.
pub open spec fn taken(values: Seq<u32>, layout: Seq<nat>) -> nat {
    taken_from(values, layout, 0)
}

/// A layout is used where it fills all its slots or takes every value left.
pub open spec fn commits(values: Seq<u32>, layout: Seq<nat>) -> bool {
    taken(values, layout) == layout.len() || taken(values, layout) == values.len()
}

/// The first selector at or after `selector` that is used; the last one of
/// the table if no earlier one is.
pub open spec fn chosen_from(values: Seq<u32>, table: Seq<Seq<nat>>, selector: nat) -> nat
    decreases table.len() - selector,
{
    if selector + 1 < table.len() && !commits(values, table[selector as int]) {
        chosen_from(values, table, selector + 1)
    } else {
        selector
    }
}

/// The payload that holds the first `count` values in the slots of a layout.
pub open spec fn payload(values: Seq<u32>, layout: Seq<nat>, count: nat) -> nat
    decreases count,
{
    if count == 0 {
        0
    } else {
        payload(values, layout, (count - 1) as nat) + values[count - 1] as nat * pow2(
            slot_offset(layout, (count - 1) as nat),
        )
    }
}

/// The word with its selector tag below its payload.
pub open spec fn word_of(selector: nat, payload: nat) -> nat {
    selector + pow2(SELECTOR_BITS as nat) * payload
}

/// The words that encode the values under a table of layouts.
pub open spec fn encoded_words(values: Seq<u32>, table: Seq<Seq<nat>>) -> Seq<u32>
    decreases values.len(),
{
    if values.len() == 0 {
        Seq::empty()
    } else {
        let selector = chosen_from(values, table, 0);
        let count = taken(values, table[selector as int]);
        if 1 <= count <= values.len() {
            seq![word_of(selector, payload(values, table[selector as int], count)) as u32]
                + encoded_words(values.skip(count as int), table)
        } else {
            // The first value is beyond what any layout takes.
            Seq::empty()
        }
    }
}

/// The values in the slots of one word: one for each slot of the layout that
/// its tag names.
pub open spec fn decoded_word(word: u32, table: Seq<Seq<nat>>) -> Seq<u32> {
    let layout = table[word as int % 16];
    Seq::new(
        layout.len(),
        |slot: int|
            bit_field(word as nat / 16, slot_offset(layout, slot as nat), layout[slot]) as u32,
    )
}

/// The values in the slots of the words, word after word.
pub open spec fn decoded_words(words: Seq<u32>, table: Seq<Seq<nat>>) -> Seq<u32>
    decreases words.len(),
{
    if words.len() == 0 {
        Seq::empty()
    } else {
        decoded_word(words[0], table) + decoded_words(words.drop_first(), table)
    }
}

/// A slot begins no earlier than the number of slots before it, since no
/// slot is empty.
pub proof fn lemma_slot_count(layout: Seq<nat>, slot: nat)
    requires
        layout_ok(layout),
        slot <= layout.len(),
    ensures
        slot <= slot_offset(layout, slot),
    decreases slot,
{
    if slot > 0 {
        lemma_slot_count(layout, (slot - 1) as nat);
        assert(1 <= layout[slot - 1]);
    }
}

/// Slot offsets grow with the slot.
pub proof fn lemma_slot_offset_grows(layout: Seq<nat>, low: nat, high: nat)
    requires
        low <= high,
    ensures
        slot_offset(layout, low) <= slot_offset(layout, high),
    decreases high,
{
    if low < high {
        lemma_slot_offset_grows(layout, low, (high - 1) as nat);
    }
}

/// In a uniform layout slot `slot` begins at `bits * slot`.
pub proof fn lemma_uniform_offset(items: nat, bits: nat, slot: nat)
    requires
        slot <= items,
    ensures
        slot_offset(uniform_layout(items, bits), slot) == bits * slot,
    decreases slot,
{
    if slot == 0 {
        assert(bits * slot == 0) by (nonlinear_arith)
            requires
                slot == 0,
        ;
    } else {
        lemma_uniform_offset(items, bits, (slot - 1) as nat);
        assert(bits * slot == bits * (slot - 1) + bits) by (nonlinear_arith);
    }
}

/// What a layout takes are values that fit their slots, and it stops only
/// at a value that does not fit, at its last slot, or at the end of the
/// values.
pub proof fn lemma_taken_from(values: Seq<u32>, layout: Seq<nat>, count: nat)
    requires
        count <= layout.len(),
        count <= values.len(),
    ensures
        count <= taken_from(values, layout, count) <= layout.len(),
        taken_from(values, layout, count) <= values.len(),
        forall|slot: int|
            count <= slot < taken_from(values, layout, count) ==> values[slot] < pow2(
                layout[slot],
            ),
        taken_from(values, layout, count) < layout.len() && taken_from(values, layout, count)
            < values.len() ==> values[taken_from(values, layout, count) as int] >= pow2(
            layout[taken_from(values, layout, count) as int],
        ),
    decreases layout.len() - count,
{
    if count < layout.len() && count < values.len() && values[count as int] < pow2(
        layout[count as int],
    ) {
        lemma_taken_from(values, layout, count + 1);
    }
}

/// A payload of `count` values ends below the slot that follows them.
pub proof fn lemma_payload_bound(values: Seq<u32>, layout: Seq<nat>, count: nat)
    requires
        count <= layout.len(),
        count <= values.len(),
        forall|slot: int| 0 <= slot < count ==> values[slot] < pow2(layout[slot]),
    ensures
        payload(values, layout, count) < pow2(slot_offset(layout, count)),
    decreases count,
{
    lemma2_to64();
    if count > 0 {
        let before = (count - 1) as nat;
        lemma_payload_bound(values, layout, before);
        let offset = slot_offset(layout, before);
        let width = layout[before as int];
        lemma_pow2_adds(offset, width);
        let p = payload(values, layout, before) as int;
        let v = values[before as int] as int;
        let a = pow2(offset) as int;
        let b = pow2(width) as int;
        assert(p + v * a < a * b) by (nonlinear_arith)
            requires
                0 <= p < a,
                0 <= v < b,
        ;
    }
}

/// The field at slot `slot` of a payload is the value stored there, and zero
/// in the slots that were left free.
pub proof fn lemma_payload_field(values: Seq<u32>, layout: Seq<nat>, count: nat, slot: nat)
    requires
        count <= layout.len(),
        count <= values.len(),
        slot < layout.len(),
        forall|j: int| 0 <= j < count ==> values[j] < pow2(layout[j]),
    ensures
        bit_field(payload(values, layout, count), slot_offset(layout, slot), layout[slot as int])
            == if slot < count {
            values[slot as int] as nat
        } else {
            0
        },
    decreases count,
{
    let offset = slot_offset(layout, slot);
    let width = layout[slot as int];
    if slot >= count {
        lemma_payload_bound(values, layout, count);
        lemma_slot_offset_grows(layout, count, slot);
        if slot_offset(layout, count) < offset {
            lemma_pow2_strictly_increases(slot_offset(layout, count), offset);
        }
        lemma_field_above_is_zero(payload(values, layout, count), offset, width);
    } else {
        let before = (count - 1) as nat;
        let below = payload(values, layout, before);
        let top = values[before as int] as nat;
        let boundary = slot_offset(layout, before);
        lemma_payload_bound(values, layout, before);
        assert(top * pow2(boundary) == pow2(boundary) * top) by (nonlinear_arith);
        if slot == before {
            lemma_split_low_high(below, top, boundary);
            lemma_small_mod(top, pow2(width));
        } else {
            lemma_slot_offset_grows(layout, slot + 1, before);
            lemma_field_ignores_above(below, top, boundary, offset, width);
            lemma_payload_field(values, layout, before, slot);
        }
    }
}

/// The selector that is chosen is one of the table and is used; it takes at
/// least one value.
pub proof fn lemma_chosen(values: Seq<u32>, table: Seq<Seq<nat>>, selector: nat)
    requires
        table_ok(table),
        within_limit(values),
        values.len() > 0,
        selector < table.len(),
    ensures
        selector <= chosen_from(values, table, selector) < table.len(),
        commits(values, table[chosen_from(values, table, selector) as int]),
        1 <= taken(values, table[chosen_from(values, table, selector) as int]) <= values.len(),
        forall|earlier: int|
            selector <= earlier < chosen_from(values, table, selector) ==> !commits(
                values,
                #[trigger] table[earlier],
            ),
    decreases table.len() - selector,
{
    if selector + 1 < table.len() && !commits(values, table[selector as int]) {
        lemma_chosen(values, table, selector + 1);
    } else {
        let layout = table[selector as int];
        if selector + 1 == table.len() {
            assert(layout == table.last());
            assert(layout.len() == 1 && layout[0] == PAYLOAD_BITS);
            assert(taken_from(values, layout, 1) == 1);
            assert(taken(values, layout) == 1);
        }
        lemma_taken_from(values, layout, 0);
    }
}

/// A word built from a selector below 16 and a payload of at most 28 bits
/// fits 32 bits and splits into the two again.
pub proof fn lemma_word_parts(selector: nat, packed: nat)
    requires
        selector < 16,
        packed < pow2(PAYLOAD_BITS as nat),
    ensures
        word_of(selector, packed) <= u32::MAX,
        word_of(selector, packed) % 16 == selector,
        word_of(selector, packed) / 16 == packed,
{
    lemma2_to64();
    lemma_split_low_high(selector, packed, SELECTOR_BITS as nat);
}

/// A word built from a selector and the values that its layout takes holds
/// the selector in its low four bits and decodes to those values, followed
/// by a zero for each slot left free.
pub proof fn lemma_decoded_word(
    values: Seq<u32>,
    table: Seq<Seq<nat>>,
    selector: nat,
    count: nat,
)
    requires
        table_ok(table),
        selector < table.len(),
        count <= table[selector as int].len(),
        count <= values.len(),
        forall|slot: int| 0 <= slot < count ==> values[slot] < pow2(table[selector as int][slot]),
    ensures
        ({
            let layout = table[selector as int];
            let word = word_of(selector, payload(values, layout, count));
            &&& word <= u32::MAX
            &&& word % 16 == selector
            &&& word / 16 == payload(values, layout, count)
            &&& decoded_word(word as u32, table) =~= Seq::new(
                layout.len(),
                |slot: int|
                    if slot < count {
                        values[slot]
                    } else {
                        0u32
                    },
            )
        }),
{
    let layout = table[selector as int];
    let packed = payload(values, layout, count);
    let word = word_of(selector, packed);
    lemma_payload_bound(values, layout, count);
    lemma_slot_offset_grows(layout, count, layout.len());
    if slot_offset(layout, count) < PAYLOAD_BITS {
        lemma_pow2_strictly_increases(slot_offset(layout, count), PAYLOAD_BITS as nat);
    }
    lemma_word_parts(selector, packed);
    let decoded = decoded_word(word as u32, table);
    assert(decoded.len() == layout.len());
    assert forall|slot: int| 0 <= slot < layout.len() implies decoded[slot] == if slot < count {
        values[slot]
    } else {
        0u32
    } by {
        lemma_payload_field(values, layout, count, slot as nat);
        assert(decoded[slot] == bit_field(
            packed,
            slot_offset(layout, slot as nat),
            layout[slot],
        ) as u32);
    }
}

/// Decoding what was encoded gives the values back, followed by nothing but
/// zeros: one for each slot that the last word left free.
pub proof fn lemma_round_trip(values: Seq<u32>, table: Seq<Seq<nat>>)
    requires
        table_ok(table),
        within_limit(values),
    ensures
        ({
            let decoded = decoded_words(encoded_words(values, table), table);
            &&& decoded.len() >= values.len()
            &&& decoded.subrange(0, values.len() as int) == values
            &&& forall|i: int| values.len() <= i < decoded.len() ==> decoded[i] == 0
            &&& decoded.len() < values.len() + PAYLOAD_BITS
        }),
    decreases values.len(),
{
    if values.len() > 0 {
        lemma_chosen(values, table, 0);
        lemma_slot_count(
            table[chosen_from(values, table, 0) as int],
            table[chosen_from(values, table, 0) as int].len(),
        );
        let selector = chosen_from(values, table, 0);
        let layout = table[selector as int];
        let count = taken(values, layout);
        lemma_taken_from(values, layout, 0);
        lemma_decoded_word(values, table, selector, count);
        let word = word_of(selector, payload(values, layout, count)) as u32;
        let rest = values.skip(count as int);
        let tail = encoded_words(rest, table);
        let words = encoded_words(values, table);
        assert(words == seq![word] + tail);
        assert(words.drop_first() =~= tail);
        assert(decoded_words(words, table) == decoded_word(word, table) + decoded_words(
            tail,
            table,
        ));
        lemma_round_trip(rest, table);
        let decoded = decoded_words(words, table);
        let head = decoded_word(word, table);
        let after = decoded_words(tail, table);
        if count < layout.len() {
            assert(rest.len() == 0);
            assert(tail.len() == 0);
        }
        assert forall|i: int| 0 <= i < values.len() implies decoded[i] == values[i] by {
            if i >= count {
                assert(after.subrange(0, rest.len() as int)[i - count] == rest[i - count]);
            }
        }
        assert(decoded.subrange(0, values.len() as int) =~= values);
    }
}

/// Every encoded word carries the index of a selector of the table in its
/// low four bits.
pub proof fn lemma_encoded_tags(values: Seq<u32>, table: Seq<Seq<nat>>)
    requires
        table_ok(table),
        within_limit(values),
    ensures
        forall|k: int|
            0 <= k < encoded_words(values, table).len() ==> (#[trigger] encoded_words(
                values,
                table,
            )[k]) % 16 < table.len(),
    decreases values.len(),
{
    if values.len() > 0 {
        lemma_chosen(values, table, 0);
        let selector = chosen_from(values, table, 0);
        let layout = table[selector as int];
        let count = taken(values, layout);
        lemma_taken_from(values, layout, 0);
        lemma_decoded_word(values, table, selector, count);
        let rest = values.skip(count as int);
        lemma_encoded_tags(rest, table);
        let word = word_of(selector, payload(values, layout, count)) as u32;
        let words = encoded_words(values, table);
        assert(words == seq![word] + encoded_words(rest, table));
        assert forall|k: int| 0 <= k < words.len() implies (#[trigger] words[k]) % 16
            < table.len() by {
            if k > 0 {
                assert(words[k] == encoded_words(rest, table)[k - 1]);
            }
        }
    }
}

/// One step of packing: or-ing the next value in at its slot gives the word
/// that holds one value more.
pub proof fn lemma_pack_step(
    values: Seq<u32>,
    layout: Seq<nat>,
    selector: nat,
    count: nat,
    data: u32,
)
    requires
        layout_ok(layout),
        selector < 16,
        count < layout.len(),
        count < values.len(),
        forall|slot: int| 0 <= slot <= count ==> values[slot] < pow2(layout[slot]),
        data == word_of(selector, payload(values, layout, count)),
    ensures
        slot_offset(layout, count) + layout[count as int] <= PAYLOAD_BITS,
        layout[count as int] <= PAYLOAD_BITS,
        data | (values[count as int] << ((SELECTOR_BITS + slot_offset(layout, count)) as u32))
            == word_of(selector, payload(values, layout, count + 1)),
{
    lemma2_to64();
    let offset = slot_offset(layout, count);
    let width = layout[count as int];
    let value = values[count as int];
    let below = payload(values, layout, count);
    lemma_slot_offset_grows(layout, count + 1, layout.len());
    lemma_payload_bound(values, layout, count);
    lemma_payload_bound(values, layout, count + 1);
    lemma_pow2_adds(SELECTOR_BITS as nat, offset);
    lemma_pow2_adds(SELECTOR_BITS as nat, offset + width);
    lemma_pow2_pos(offset);
    if offset + width < PAYLOAD_BITS {
        lemma_pow2_strictly_increases(SELECTOR_BITS as nat + offset + width, 32);
    }
    let shift = (SELECTOR_BITS + offset) as u32;
    let unit = pow2(offset) as int;
    let after = payload(values, layout, count + 1) as int;
    assert(after == below + value * unit);
    assert(data < pow2(shift as nat)) by (nonlinear_arith)
        requires
            data == selector + 16 * below,
            selector < 16,
            below < unit,
            pow2(shift as nat) == 16 * unit,
    ;
    assert(value * pow2(shift as nat) <= u32::MAX) by (nonlinear_arith)
        requires
            pow2(shift as nat) == 16 * unit,
            0 <= below,
            after == below + value * unit,
            16 * after < 0x1_0000_0000,
    ;
    lemma_u32_or_shifted(data, value, shift);
    assert(data + value * pow2(shift as nat) == selector + 16 * after) by (nonlinear_arith)
        requires
            data == selector + 16 * below,
            pow2(shift as nat) == 16 * unit,
            after == below + value * unit,
    ;
}

/// One step of unpacking: with the slots before `slot` shifted out, the mask
/// of the slot's width reads its value and the shift by its width moves on
/// to the next slot.
pub proof fn lemma_unpack_step(word: u32, layout: Seq<nat>, slot: nat, data: u32)
    requires
        layout_ok(layout),
        slot < layout.len(),
        data == (word as nat / 16) / pow2(slot_offset(layout, slot)),
    ensures
        layout[slot as int] <= PAYLOAD_BITS,
        (1u32 << (layout[slot as int] as u32)) == pow2(layout[slot as int]),
        data & (((1u32 << (layout[slot as int] as u32)) - 1) as u32) == bit_field(
            word as nat / 16,
            slot_offset(layout, slot),
            layout[slot as int],
        ),
        data >> (layout[slot as int] as u32) == (word as nat / 16) / pow2(
            slot_offset(layout, slot + 1),
        ),
{
    let offset = slot_offset(layout, slot);
    let width = layout[slot as int];
    lemma_slot_offset_grows(layout, slot + 1, layout.len());
    lemma_u32_low_bits(data, width as u32);
    lemma_pow2_pos(offset);
    lemma_pow2_pos(width);
    lemma_pow2_adds(offset, width);
    lemma_div_denominator(word as int / 16, pow2(offset) as int, pow2(width) as int);
}

/// The bytes of a longer run of words are those of the run and then those
/// of the word that was added.
pub proof fn lemma_le_bytes_push(words: Seq<u32>, word: u32)
    ensures
        le_bytes(words.push(word)) == le_bytes(words) + le_bytes(seq![word]),
{
    let longer = words.push(word);
    let joined = le_bytes(words) + le_bytes(seq![word]);
    assert forall|j: int| 0 <= j < 4 * longer.len() implies le_bytes(longer)[j] == joined[j] by {
        if j >= 4 * words.len() {
            assert(j / 4 == words.len());
            assert((j - 4 * words.len()) / 4 == 0);
            assert((j - 4 * words.len()) % 4 == j % 4);
        }
    }
    assert(le_bytes(longer) =~= joined);
}

/// Appends the four bytes of `word`, lowest first.
pub fn push_word(bytes: &mut Vec<u8>, word: u32)
    ensures
        final(bytes)@ == old(bytes)@ + le_bytes(seq![word]),
{
    assert(word & 0xFF == word % 256 && (word >> 8) & 0xFF == (word / 0x100) % 256 && (word >> 16)
        & 0xFF == (word / 0x1_0000) % 256 && (word >> 24) & 0xFF == (word / 0x100_0000) % 256)
        by (bit_vector);
    proof {
        lemma2_to64();
    }
    bytes.push((word & 0xFF) as u8);
    bytes.push(((word >> 8) & 0xFF) as u8);
    bytes.push(((word >> 16) & 0xFF) as u8);
    bytes.push(((word >> 24) & 0xFF) as u8);
    proof {
        let added = le_bytes(seq![word]);
        assert(added.len() == 4);
        assert(added[0] == bit_field(word as nat, 0, 8) as u8);
        assert(added[1] == bit_field(word as nat, 8, 8) as u8);
        assert(added[2] == bit_field(word as nat, 16, 8) as u8);
        assert(added[3] == bit_field(word as nat, 24, 8) as u8);
        assert(bytes@ =~= old(bytes)@ + added);
    }
}

} // verus!
