//! Fixed-width unpacking kernels, one for each width from 1 to 16 bits.
//!
//! Each kernel is a straight line of shifts and masks that reads 32 values
//! from the least number of words. Its contract says that the values it
//! writes are the 32 fields of its width in the words it reads. The proof has
//! two steps for each width: every term equals the generic window at its
//! place, which is decided on bit vectors, and the window at a place holds
//! the field stored there.
use crate::digits::{lemma_windows_are_fields, stored_field, window};
use vstd::prelude::*;

verus! {

/// Each term of the 1-bit kernel is the window at its place, decided on bit
/// vectors.
proof fn lemma_terms_1_bit(a0: u32)
    by (bit_vector)
    ensures
        (a0 >> 0) & 0x1 == window(a0, 0, 0, 1),
        (a0 >> 1) & 0x1 == window(a0, 0, 1, 1),
        (a0 >> 2) & 0x1 == window(a0, 0, 2, 1),
        (a0 >> 3) & 0x1 == window(a0, 0, 3, 1),
        (a0 >> 4) & 0x1 == window(a0, 0, 4, 1),
        (a0 >> 5) & 0x1 == window(a0, 0, 5, 1),
        (a0 >> 6) & 0x1 == window(a0, 0, 6, 1),
        (a0 >> 7) & 0x1 == window(a0, 0, 7, 1),
        (a0 >> 8) & 0x1 == window(a0, 0, 8, 1),
        (a0 >> 9) & 0x1 == window(a0, 0, 9, 1),
        (a0 >> 10) & 0x1 == window(a0, 0, 10, 1),
        (a0 >> 11) & 0x1 == window(a0, 0, 11, 1),
        (a0 >> 12) & 0x1 == window(a0, 0, 12, 1),
        (a0 >> 13) & 0x1 == window(a0, 0, 13, 1),
        (a0 >> 14) & 0x1 == window(a0, 0, 14, 1),
        (a0 >> 15) & 0x1 == window(a0, 0, 15, 1),
        (a0 >> 16) & 0x1 == window(a0, 0, 16, 1),
        (a0 >> 17) & 0x1 == window(a0, 0, 17, 1),
        (a0 >> 18) & 0x1 == window(a0, 0, 18, 1),
        (a0 >> 19) & 0x1 == window(a0, 0, 19, 1),
        (a0 >> 20) & 0x1 == window(a0, 0, 20, 1),
        (a0 >> 21) & 0x1 == window(a0, 0, 21, 1),
        (a0 >> 22) & 0x1 == window(a0, 0, 22, 1),
        (a0 >> 23) & 0x1 == window(a0, 0, 23, 1),
        (a0 >> 24) & 0x1 == window(a0, 0, 24, 1),
        (a0 >> 25) & 0x1 == window(a0, 0, 25, 1),
        (a0 >> 26) & 0x1 == window(a0, 0, 26, 1),
        (a0 >> 27) & 0x1 == window(a0, 0, 27, 1),
        (a0 >> 28) & 0x1 == window(a0, 0, 28, 1),
        (a0 >> 29) & 0x1 == window(a0, 0, 29, 1),
        (a0 >> 30) & 0x1 == window(a0, 0, 30, 1),
        (a0 >> 31) & 0x1 == window(a0, 0, 31, 1),
{
}

/// Values computed by the terms of the 1-bit kernel are the 32 fields of
/// 1 bit in `words`.
proof fn lemma_fields_1_bit(words: Seq<u32>, out: Seq<u32>)
    requires
        words.len() >= 1,
        out.len() >= 32,
        out[0] == (words[0] >> 0) & 0x1,
        out[1] == (words[0] >> 1) & 0x1,
        out[2] == (words[0] >> 2) & 0x1,
        out[3] == (words[0] >> 3) & 0x1,
        out[4] == (words[0] >> 4) & 0x1,
        out[5] == (words[0] >> 5) & 0x1,
        out[6] == (words[0] >> 6) & 0x1,
        out[7] == (words[0] >> 7) & 0x1,
        out[8] == (words[0] >> 8) & 0x1,
        out[9] == (words[0] >> 9) & 0x1,
        out[10] == (words[0] >> 10) & 0x1,
        out[11] == (words[0] >> 11) & 0x1,
        out[12] == (words[0] >> 12) & 0x1,
        out[13] == (words[0] >> 13) & 0x1,
        out[14] == (words[0] >> 14) & 0x1,
        out[15] == (words[0] >> 15) & 0x1,
        out[16] == (words[0] >> 16) & 0x1,
        out[17] == (words[0] >> 17) & 0x1,
        out[18] == (words[0] >> 18) & 0x1,
        out[19] == (words[0] >> 19) & 0x1,
        out[20] == (words[0] >> 20) & 0x1,
        out[21] == (words[0] >> 21) & 0x1,
        out[22] == (words[0] >> 22) & 0x1,
        out[23] == (words[0] >> 23) & 0x1,
        out[24] == (words[0] >> 24) & 0x1,
        out[25] == (words[0] >> 25) & 0x1,
        out[26] == (words[0] >> 26) & 0x1,
        out[27] == (words[0] >> 27) & 0x1,
        out[28] == (words[0] >> 28) & 0x1,
        out[29] == (words[0] >> 29) & 0x1,
        out[30] == (words[0] >> 30) & 0x1,
        out[31] == (words[0] >> 31) & 0x1,
    ensures
        forall|i: int| 0 <= i < 32 ==> out[i] == stored_field(words, 1, i as nat),
{
    lemma_terms_1_bit(words[0]);
    lemma_windows_are_fields(words, 1, out);
}

/// Unpacks 32 values of 1 bit each from the first 1 word of `src` into
/// the first 32 places of `dst`.
pub fn decompress_1_bit(src: &[u32], dst: &mut [u32])
    requires
        src@.len() >= 1,
        old(dst)@.len() >= 32,
    ensures
        final(dst)@.len() == old(dst)@.len(),
        forall|i: int| 0 <= i < 32 ==> final(dst)@[i] == stored_field(src@, 1, i as nat),
        forall|i: int| 32 <= i < old(dst)@.len() ==> final(dst)@[i] == old(dst)@[i],
{
    // Word 0: bits 0-31
    dst[0] = (src[0] >> 0) & 0x1;
    dst[1] = (src[0] >> 1) & 0x1;
    dst[2] = (src[0] >> 2) & 0x1;
    dst[3] = (src[0] >> 3) & 0x1;
    dst[4] = (src[0] >> 4) & 0x1;
    dst[5] = (src[0] >> 5) & 0x1;
    dst[6] = (src[0] >> 6) & 0x1;
    dst[7] = (src[0] >> 7) & 0x1;
    dst[8] = (src[0] >> 8) & 0x1;
    dst[9] = (src[0] >> 9) & 0x1;
    dst[10] = (src[0] >> 10) & 0x1;
    dst[11] = (src[0] >> 11) & 0x1;
    dst[12] = (src[0] >> 12) & 0x1;
    dst[13] = (src[0] >> 13) & 0x1;
    dst[14] = (src[0] >> 14) & 0x1;
    dst[15] = (src[0] >> 15) & 0x1;
    dst[16] = (src[0] >> 16) & 0x1;
    dst[17] = (src[0] >> 17) & 0x1;
    dst[18] = (src[0] >> 18) & 0x1;
    dst[19] = (src[0] >> 19) & 0x1;
    dst[20] = (src[0] >> 20) & 0x1;
    dst[21] = (src[0] >> 21) & 0x1;
    dst[22] = (src[0] >> 22) & 0x1;
    dst[23] = (src[0] >> 23) & 0x1;
    dst[24] = (src[0] >> 24) & 0x1;
    dst[25] = (src[0] >> 25) & 0x1;
    dst[26] = (src[0] >> 26) & 0x1;
    dst[27] = (src[0] >> 27) & 0x1;
    dst[28] = (src[0] >> 28) & 0x1;
    dst[29] = (src[0] >> 29) & 0x1;
    dst[30] = (src[0] >> 30) & 0x1;
    dst[31] = (src[0] >> 31) & 0x1;
    proof {
        lemma_fields_1_bit(src@, dst@);
    }
}

/// Each term of the 2-bit kernel is the window at its place, decided on bit
/// vectors.
proof fn lemma_terms_2_bit(a0: u32, a1: u32)
    by (bit_vector)
    ensures
        (a0 >> 0) & 0x3 == window(a0, 0, 0, 2),
        (a0 >> 2) & 0x3 == window(a0, 0, 2, 2),
        (a0 >> 4) & 0x3 == window(a0, 0, 4, 2),
        (a0 >> 6) & 0x3 == window(a0, 0, 6, 2),
        (a0 >> 8) & 0x3 == window(a0, 0, 8, 2),
        (a0 >> 10) & 0x3 == window(a0, 0, 10, 2),
        (a0 >> 12) & 0x3 == window(a0, 0, 12, 2),
        (a0 >> 14) & 0x3 == window(a0, 0, 14, 2),
        (a0 >> 16) & 0x3 == window(a0, 0, 16, 2),
        (a0 >> 18) & 0x3 == window(a0, 0, 18, 2),
        (a0 >> 20) & 0x3 == window(a0, 0, 20, 2),
        (a0 >> 22) & 0x3 == window(a0, 0, 22, 2),
        (a0 >> 24) & 0x3 == window(a0, 0, 24, 2),
        (a0 >> 26) & 0x3 == window(a0, 0, 26, 2),
        (a0 >> 28) & 0x3 == window(a0, 0, 28, 2),
        (a0 >> 30) & 0x3 == window(a0, 0, 30, 2),
        (a1 >> 0) & 0x3 == window(a1, 0, 0, 2),
        (a1 >> 2) & 0x3 == window(a1, 0, 2, 2),
        (a1 >> 4) & 0x3 == window(a1, 0, 4, 2),
        (a1 >> 6) & 0x3 == window(a1, 0, 6, 2),
        (a1 >> 8) & 0x3 == window(a1, 0, 8, 2),
        (a1 >> 10) & 0x3 == window(a1, 0, 10, 2),
        (a1 >> 12) & 0x3 == window(a1, 0, 12, 2),
        (a1 >> 14) & 0x3 == window(a1, 0, 14, 2),
        (a1 >> 16) & 0x3 == window(a1, 0, 16, 2),
        (a1 >> 18) & 0x3 == window(a1, 0, 18, 2),
        (a1 >> 20) & 0x3 == window(a1, 0, 20, 2),
        (a1 >> 22) & 0x3 == window(a1, 0, 22, 2),
        (a1 >> 24) & 0x3 == window(a1, 0, 24, 2),
        (a1 >> 26) & 0x3 == window(a1, 0, 26, 2),
        (a1 >> 28) & 0x3 == window(a1, 0, 28, 2),
        (a1 >> 30) & 0x3 == window(a1, 0, 30, 2),
{
}

/// Values computed by the terms of the 2-bit kernel are the 32 fields of
/// 2 bits in `words`.
proof fn lemma_fields_2_bit(words: Seq<u32>, out: Seq<u32>)
    requires
        words.len() >= 2,
        out.len() >= 32,
        out[0] == (words[0] >> 0) & 0x3,
        out[1] == (words[0] >> 2) & 0x3,
        out[2] == (words[0] >> 4) & 0x3,
        out[3] == (words[0] >> 6) & 0x3,
        out[4] == (words[0] >> 8) & 0x3,
        out[5] == (words[0] >> 10) & 0x3,
        out[6] == (words[0] >> 12) & 0x3,
        out[7] == (words[0] >> 14) & 0x3,
        out[8] == (words[0] >> 16) & 0x3,
        out[9] == (words[0] >> 18) & 0x3,
        out[10] == (words[0] >> 20) & 0x3,
        out[11] == (words[0] >> 22) & 0x3,
        out[12] == (words[0] >> 24) & 0x3,
        out[13] == (words[0] >> 26) & 0x3,
        out[14] == (words[0] >> 28) & 0x3,
        out[15] == (words[0] >> 30) & 0x3,
        out[16] == (words[1] >> 0) & 0x3,
        out[17] == (words[1] >> 2) & 0x3,
        out[18] == (words[1] >> 4) & 0x3,
        out[19] == (words[1] >> 6) & 0x3,
        out[20] == (words[1] >> 8) & 0x3,
        out[21] == (words[1] >> 10) & 0x3,
        out[22] == (words[1] >> 12) & 0x3,
        out[23] == (words[1] >> 14) & 0x3,
        out[24] == (words[1] >> 16) & 0x3,
        out[25] == (words[1] >> 18) & 0x3,
        out[26] == (words[1] >> 20) & 0x3,
        out[27] == (words[1] >> 22) & 0x3,
        out[28] == (words[1] >> 24) & 0x3,
        out[29] == (words[1] >> 26) & 0x3,
        out[30] == (words[1] >> 28) & 0x3,
        out[31] == (words[1] >> 30) & 0x3,
    ensures
        forall|i: int| 0 <= i < 32 ==> out[i] == stored_field(words, 2, i as nat),
{
    lemma_terms_2_bit(words[0], words[1]);
    lemma_windows_are_fields(words, 2, out);
}

/// Unpacks 32 values of 2 bits each from the first 2 words of `src` into
/// the first 32 places of `dst`.
pub fn decompress_2_bit(src: &[u32], dst: &mut [u32])
    requires
        src@.len() >= 2,
        old(dst)@.len() >= 32,
    ensures
        final(dst)@.len() == old(dst)@.len(),
        forall|i: int| 0 <= i < 32 ==> final(dst)@[i] == stored_field(src@, 2, i as nat),
        forall|i: int| 32 <= i < old(dst)@.len() ==> final(dst)@[i] == old(dst)@[i],
{
    // Word 0: bits 0-31
    dst[0] = (src[0] >> 0) & 0x3;
    dst[1] = (src[0] >> 2) & 0x3;
    dst[2] = (src[0] >> 4) & 0x3;
    dst[3] = (src[0] >> 6) & 0x3;
    dst[4] = (src[0] >> 8) & 0x3;
    dst[5] = (src[0] >> 10) & 0x3;
    dst[6] = (src[0] >> 12) & 0x3;
    dst[7] = (src[0] >> 14) & 0x3;
    dst[8] = (src[0] >> 16) & 0x3;
    dst[9] = (src[0] >> 18) & 0x3;
    dst[10] = (src[0] >> 20) & 0x3;
    dst[11] = (src[0] >> 22) & 0x3;
    dst[12] = (src[0] >> 24) & 0x3;
    dst[13] = (src[0] >> 26) & 0x3;
    dst[14] = (src[0] >> 28) & 0x3;
    dst[15] = (src[0] >> 30) & 0x3;

    // Word 1: bits 32-63
    dst[16] = (src[1] >> 0) & 0x3;
    dst[17] = (src[1] >> 2) & 0x3;
    dst[18] = (src[1] >> 4) & 0x3;
    dst[19] = (src[1] >> 6) & 0x3;
    dst[20] = (src[1] >> 8) & 0x3;
    dst[21] = (src[1] >> 10) & 0x3;
    dst[22] = (src[1] >> 12) & 0x3;
    dst[23] = (src[1] >> 14) & 0x3;
    dst[24] = (src[1] >> 16) & 0x3;
    dst[25] = (src[1] >> 18) & 0x3;
    dst[26] = (src[1] >> 20) & 0x3;
    dst[27] = (src[1] >> 22) & 0x3;
    dst[28] = (src[1] >> 24) & 0x3;
    dst[29] = (src[1] >> 26) & 0x3;
    dst[30] = (src[1] >> 28) & 0x3;
    dst[31] = (src[1] >> 30) & 0x3;
    proof {
        lemma_fields_2_bit(src@, dst@);
    }
}

/// Each term of the 3-bit kernel is the window at its place, decided on bit
/// vectors.
proof fn lemma_terms_3_bit(a0: u32, a1: u32, a2: u32)
    by (bit_vector)
    ensures
        (a0 >> 0) & 0x7 == window(a0, 0, 0, 3),
        (a0 >> 3) & 0x7 == window(a0, 0, 3, 3),
        (a0 >> 6) & 0x7 == window(a0, 0, 6, 3),
        (a0 >> 9) & 0x7 == window(a0, 0, 9, 3),
        (a0 >> 12) & 0x7 == window(a0, 0, 12, 3),
        (a0 >> 15) & 0x7 == window(a0, 0, 15, 3),
        (a0 >> 18) & 0x7 == window(a0, 0, 18, 3),
        (a0 >> 21) & 0x7 == window(a0, 0, 21, 3),
        (a0 >> 24) & 0x7 == window(a0, 0, 24, 3),
        (a0 >> 27) & 0x7 == window(a0, 0, 27, 3),
        ((a0 >> 30) & 0x3) | ((a1 & 0x1) << 2) == window(a0, a1, 30, 3),
        (a1 >> 1) & 0x7 == window(a1, 0, 1, 3),
        (a1 >> 4) & 0x7 == window(a1, 0, 4, 3),
        (a1 >> 7) & 0x7 == window(a1, 0, 7, 3),
        (a1 >> 10) & 0x7 == window(a1, 0, 10, 3),
        (a1 >> 13) & 0x7 == window(a1, 0, 13, 3),
        (a1 >> 16) & 0x7 == window(a1, 0, 16, 3),
        (a1 >> 19) & 0x7 == window(a1, 0, 19, 3),
        (a1 >> 22) & 0x7 == window(a1, 0, 22, 3),
        (a1 >> 25) & 0x7 == window(a1, 0, 25, 3),
        (a1 >> 28) & 0x7 == window(a1, 0, 28, 3),
        ((a1 >> 31) & 0x1) | ((a2 & 0x3) << 1) == window(a1, a2, 31, 3),
        (a2 >> 2) & 0x7 == window(a2, 0, 2, 3),
        (a2 >> 5) & 0x7 == window(a2, 0, 5, 3),
        (a2 >> 8) & 0x7 == window(a2, 0, 8, 3),
        (a2 >> 11) & 0x7 == window(a2, 0, 11, 3),
        (a2 >> 14) & 0x7 == window(a2, 0, 14, 3),
        (a2 >> 17) & 0x7 == window(a2, 0, 17, 3),
        (a2 >> 20) & 0x7 == window(a2, 0, 20, 3),
        (a2 >> 23) & 0x7 == window(a2, 0, 23, 3),
        (a2 >> 26) & 0x7 == window(a2, 0, 26, 3),
        (a2 >> 29) & 0x7 == window(a2, 0, 29, 3),
{
}

/// Values computed by the terms of the 3-bit kernel are the 32 fields of
/// 3 bits in `words`.
proof fn lemma_fields_3_bit(words: Seq<u32>, out: Seq<u32>)
    requires
        words.len() >= 3,
        out.len() >= 32,
        out[0] == (words[0] >> 0) & 0x7,
        out[1] == (words[0] >> 3) & 0x7,
        out[2] == (words[0] >> 6) & 0x7,
        out[3] == (words[0] >> 9) & 0x7,
        out[4] == (words[0] >> 12) & 0x7,
        out[5] == (words[0] >> 15) & 0x7,
        out[6] == (words[0] >> 18) & 0x7,
        out[7] == (words[0] >> 21) & 0x7,
        out[8] == (words[0] >> 24) & 0x7,
        out[9] == (words[0] >> 27) & 0x7,
        out[10] == ((words[0] >> 30) & 0x3) | ((words[1] & 0x1) << 2),
        out[11] == (words[1] >> 1) & 0x7,
        out[12] == (words[1] >> 4) & 0x7,
        out[13] == (words[1] >> 7) & 0x7,
        out[14] == (words[1] >> 10) & 0x7,
        out[15] == (words[1] >> 13) & 0x7,
        out[16] == (words[1] >> 16) & 0x7,
        out[17] == (words[1] >> 19) & 0x7,
        out[18] == (words[1] >> 22) & 0x7,
        out[19] == (words[1] >> 25) & 0x7,
        out[20] == (words[1] >> 28) & 0x7,
        out[21] == ((words[1] >> 31) & 0x1) | ((words[2] & 0x3) << 1),
        out[22] == (words[2] >> 2) & 0x7,
        out[23] == (words[2] >> 5) & 0x7,
        out[24] == (words[2] >> 8) & 0x7,
        out[25] == (words[2] >> 11) & 0x7,
        out[26] == (words[2] >> 14) & 0x7,
        out[27] == (words[2] >> 17) & 0x7,
        out[28] == (words[2] >> 20) & 0x7,
        out[29] == (words[2] >> 23) & 0x7,
        out[30] == (words[2] >> 26) & 0x7,
        out[31] == (words[2] >> 29) & 0x7,
    ensures
        forall|i: int| 0 <= i < 32 ==> out[i] == stored_field(words, 3, i as nat),
{
    lemma_terms_3_bit(words[0], words[1], words[2]);
    lemma_windows_are_fields(words, 3, out);
}

/// Unpacks 32 values of 3 bits each from the first 3 words of `src` into
/// the first 32 places of `dst`.
pub fn decompress_3_bit(src: &[u32], dst: &mut [u32])
    requires
        src@.len() >= 3,
        old(dst)@.len() >= 32,
    ensures
        final(dst)@.len() == old(dst)@.len(),
        forall|i: int| 0 <= i < 32 ==> final(dst)@[i] == stored_field(src@, 3, i as nat),
        forall|i: int| 32 <= i < old(dst)@.len() ==> final(dst)@[i] == old(dst)@[i],
{
    // Word 0: bits 0-31
    dst[0] = (src[0] >> 0) & 0x7;
    dst[1] = (src[0] >> 3) & 0x7;
    dst[2] = (src[0] >> 6) & 0x7;
    dst[3] = (src[0] >> 9) & 0x7;
    dst[4] = (src[0] >> 12) & 0x7;
    dst[5] = (src[0] >> 15) & 0x7;
    dst[6] = (src[0] >> 18) & 0x7;
    dst[7] = (src[0] >> 21) & 0x7;
    dst[8] = (src[0] >> 24) & 0x7;
    dst[9] = (src[0] >> 27) & 0x7;

    // Value 10 spans words 0-1
    dst[10] = ((src[0] >> 30) & 0x3) | ((src[1] & 0x1) << 2);

    // Word 1: bits 32-63
    dst[11] = (src[1] >> 1) & 0x7;
    dst[12] = (src[1] >> 4) & 0x7;
    dst[13] = (src[1] >> 7) & 0x7;
    dst[14] = (src[1] >> 10) & 0x7;
    dst[15] = (src[1] >> 13) & 0x7;
    dst[16] = (src[1] >> 16) & 0x7;
    dst[17] = (src[1] >> 19) & 0x7;
    dst[18] = (src[1] >> 22) & 0x7;
    dst[19] = (src[1] >> 25) & 0x7;
    dst[20] = (src[1] >> 28) & 0x7;

    // Value 21 spans words 1-2
    dst[21] = ((src[1] >> 31) & 0x1) | ((src[2] & 0x3) << 1);

    // Word 2: bits 64-95
    dst[22] = (src[2] >> 2) & 0x7;
    dst[23] = (src[2] >> 5) & 0x7;
    dst[24] = (src[2] >> 8) & 0x7;
    dst[25] = (src[2] >> 11) & 0x7;
    dst[26] = (src[2] >> 14) & 0x7;
    dst[27] = (src[2] >> 17) & 0x7;
    dst[28] = (src[2] >> 20) & 0x7;
    dst[29] = (src[2] >> 23) & 0x7;
    dst[30] = (src[2] >> 26) & 0x7;
    dst[31] = (src[2] >> 29) & 0x7;
    proof {
        lemma_fields_3_bit(src@, dst@);
    }
}

/// Each term of the 4-bit kernel is the window at its place, decided on bit
/// vectors.
proof fn lemma_terms_4_bit(a0: u32, a1: u32, a2: u32, a3: u32)
    by (bit_vector)
    ensures
        (a0 >> 0) & 0xF == window(a0, 0, 0, 4),
        (a0 >> 4) & 0xF == window(a0, 0, 4, 4),
        (a0 >> 8) & 0xF == window(a0, 0, 8, 4),
        (a0 >> 12) & 0xF == window(a0, 0, 12, 4),
        (a0 >> 16) & 0xF == window(a0, 0, 16, 4),
        (a0 >> 20) & 0xF == window(a0, 0, 20, 4),
        (a0 >> 24) & 0xF == window(a0, 0, 24, 4),
        (a0 >> 28) & 0xF == window(a0, 0, 28, 4),
        (a1 >> 0) & 0xF == window(a1, 0, 0, 4),
        (a1 >> 4) & 0xF == window(a1, 0, 4, 4),
        (a1 >> 8) & 0xF == window(a1, 0, 8, 4),
        (a1 >> 12) & 0xF == window(a1, 0, 12, 4),
        (a1 >> 16) & 0xF == window(a1, 0, 16, 4),
        (a1 >> 20) & 0xF == window(a1, 0, 20, 4),
        (a1 >> 24) & 0xF == window(a1, 0, 24, 4),
        (a1 >> 28) & 0xF == window(a1, 0, 28, 4),
        (a2 >> 0) & 0xF == window(a2, 0, 0, 4),
        (a2 >> 4) & 0xF == window(a2, 0, 4, 4),
        (a2 >> 8) & 0xF == window(a2, 0, 8, 4),
        (a2 >> 12) & 0xF == window(a2, 0, 12, 4),
        (a2 >> 16) & 0xF == window(a2, 0, 16, 4),
        (a2 >> 20) & 0xF == window(a2, 0, 20, 4),
        (a2 >> 24) & 0xF == window(a2, 0, 24, 4),
        (a2 >> 28) & 0xF == window(a2, 0, 28, 4),
        (a3 >> 0) & 0xF == window(a3, 0, 0, 4),
        (a3 >> 4) & 0xF == window(a3, 0, 4, 4),
        (a3 >> 8) & 0xF == window(a3, 0, 8, 4),
        (a3 >> 12) & 0xF == window(a3, 0, 12, 4),
        (a3 >> 16) & 0xF == window(a3, 0, 16, 4),
        (a3 >> 20) & 0xF == window(a3, 0, 20, 4),
        (a3 >> 24) & 0xF == window(a3, 0, 24, 4),
        (a3 >> 28) & 0xF == window(a3, 0, 28, 4),
{
}

/// Values computed by the terms of the 4-bit kernel are the 32 fields of
/// 4 bits in `words`.
proof fn lemma_fields_4_bit(words: Seq<u32>, out: Seq<u32>)
    requires
        words.len() >= 4,
        out.len() >= 32,
        out[0] == (words[0] >> 0) & 0xF,
        out[1] == (words[0] >> 4) & 0xF,
        out[2] == (words[0] >> 8) & 0xF,
        out[3] == (words[0] >> 12) & 0xF,
        out[4] == (words[0] >> 16) & 0xF,
        out[5] == (words[0] >> 20) & 0xF,
        out[6] == (words[0] >> 24) & 0xF,
        out[7] == (words[0] >> 28) & 0xF,
        out[8] == (words[1] >> 0) & 0xF,
        out[9] == (words[1] >> 4) & 0xF,
        out[10] == (words[1] >> 8) & 0xF,
        out[11] == (words[1] >> 12) & 0xF,
        out[12] == (words[1] >> 16) & 0xF,
        out[13] == (words[1] >> 20) & 0xF,
        out[14] == (words[1] >> 24) & 0xF,
        out[15] == (words[1] >> 28) & 0xF,
        out[16] == (words[2] >> 0) & 0xF,
        out[17] == (words[2] >> 4) & 0xF,
        out[18] == (words[2] >> 8) & 0xF,
        out[19] == (words[2] >> 12) & 0xF,
        out[20] == (words[2] >> 16) & 0xF,
        out[21] == (words[2] >> 20) & 0xF,
        out[22] == (words[2] >> 24) & 0xF,
        out[23] == (words[2] >> 28) & 0xF,
        out[24] == (words[3] >> 0) & 0xF,
        out[25] == (words[3] >> 4) & 0xF,
        out[26] == (words[3] >> 8) & 0xF,
        out[27] == (words[3] >> 12) & 0xF,
        out[28] == (words[3] >> 16) & 0xF,
        out[29] == (words[3] >> 20) & 0xF,
        out[30] == (words[3] >> 24) & 0xF,
        out[31] == (words[3] >> 28) & 0xF,
    ensures
        forall|i: int| 0 <= i < 32 ==> out[i] == stored_field(words, 4, i as nat),
{
    lemma_terms_4_bit(words[0], words[1], words[2], words[3]);
    lemma_windows_are_fields(words, 4, out);
}

/// Unpacks 32 values of 4 bits each from the first 4 words of `src` into
/// the first 32 places of `dst`.
pub fn decompress_4_bit(src: &[u32], dst: &mut [u32])
    requires
        src@.len() >= 4,
        old(dst)@.len() >= 32,
    ensures
        final(dst)@.len() == old(dst)@.len(),
        forall|i: int| 0 <= i < 32 ==> final(dst)@[i] == stored_field(src@, 4, i as nat),
        forall|i: int| 32 <= i < old(dst)@.len() ==> final(dst)@[i] == old(dst)@[i],
{
    // Word 0: bits 0-31
    dst[0] = (src[0] >> 0) & 0xF;
    dst[1] = (src[0] >> 4) & 0xF;
    dst[2] = (src[0] >> 8) & 0xF;
    dst[3] = (src[0] >> 12) & 0xF;
    dst[4] = (src[0] >> 16) & 0xF;
    dst[5] = (src[0] >> 20) & 0xF;
    dst[6] = (src[0] >> 24) & 0xF;
    dst[7] = (src[0] >> 28) & 0xF;

    // Word 1: bits 32-63
    dst[8] = (src[1] >> 0) & 0xF;
    dst[9] = (src[1] >> 4) & 0xF;
    dst[10] = (src[1] >> 8) & 0xF;
    dst[11] = (src[1] >> 12) & 0xF;
    dst[12] = (src[1] >> 16) & 0xF;
    dst[13] = (src[1] >> 20) & 0xF;
    dst[14] = (src[1] >> 24) & 0xF;
    dst[15] = (src[1] >> 28) & 0xF;

    // Word 2: bits 64-95
    dst[16] = (src[2] >> 0) & 0xF;
    dst[17] = (src[2] >> 4) & 0xF;
    dst[18] = (src[2] >> 8) & 0xF;
    dst[19] = (src[2] >> 12) & 0xF;
    dst[20] = (src[2] >> 16) & 0xF;
    dst[21] = (src[2] >> 20) & 0xF;
    dst[22] = (src[2] >> 24) & 0xF;
    dst[23] = (src[2] >> 28) & 0xF;

    // Word 3: bits 96-127
    dst[24] = (src[3] >> 0) & 0xF;
    dst[25] = (src[3] >> 4) & 0xF;
    dst[26] = (src[3] >> 8) & 0xF;
    dst[27] = (src[3] >> 12) & 0xF;
    dst[28] = (src[3] >> 16) & 0xF;
    dst[29] = (src[3] >> 20) & 0xF;
    dst[30] = (src[3] >> 24) & 0xF;
    dst[31] = (src[3] >> 28) & 0xF;
    proof {
        lemma_fields_4_bit(src@, dst@);
    }
}

/// Each term of the 5-bit kernel is the window at its place, decided on bit
/// vectors.
proof fn lemma_terms_5_bit(a0: u32, a1: u32, a2: u32, a3: u32, a4: u32)
    by (bit_vector)
    ensures
        (a0 >> 0) & 0x1F == window(a0, 0, 0, 5),
        (a0 >> 5) & 0x1F == window(a0, 0, 5, 5),
        (a0 >> 10) & 0x1F == window(a0, 0, 10, 5),
        (a0 >> 15) & 0x1F == window(a0, 0, 15, 5),
        (a0 >> 20) & 0x1F == window(a0, 0, 20, 5),
        (a0 >> 25) & 0x1F == window(a0, 0, 25, 5),
        ((a0 >> 30) & 0x3) | ((a1 & 0x7) << 2) == window(a0, a1, 30, 5),
        (a1 >> 3) & 0x1F == window(a1, 0, 3, 5),
        (a1 >> 8) & 0x1F == window(a1, 0, 8, 5),
        (a1 >> 13) & 0x1F == window(a1, 0, 13, 5),
        (a1 >> 18) & 0x1F == window(a1, 0, 18, 5),
        (a1 >> 23) & 0x1F == window(a1, 0, 23, 5),
        ((a1 >> 28) & 0xF) | ((a2 & 0x1) << 4) == window(a1, a2, 28, 5),
        (a2 >> 1) & 0x1F == window(a2, 0, 1, 5),
        (a2 >> 6) & 0x1F == window(a2, 0, 6, 5),
        (a2 >> 11) & 0x1F == window(a2, 0, 11, 5),
        (a2 >> 16) & 0x1F == window(a2, 0, 16, 5),
        (a2 >> 21) & 0x1F == window(a2, 0, 21, 5),
        (a2 >> 26) & 0x1F == window(a2, 0, 26, 5),
        ((a2 >> 31) & 0x1) | ((a3 & 0xF) << 1) == window(a2, a3, 31, 5),
        (a3 >> 4) & 0x1F == window(a3, 0, 4, 5),
        (a3 >> 9) & 0x1F == window(a3, 0, 9, 5),
        (a3 >> 14) & 0x1F == window(a3, 0, 14, 5),
        (a3 >> 19) & 0x1F == window(a3, 0, 19, 5),
        (a3 >> 24) & 0x1F == window(a3, 0, 24, 5),
        ((a3 >> 29) & 0x7) | ((a4 & 0x3) << 3) == window(a3, a4, 29, 5),
        (a4 >> 2) & 0x1F == window(a4, 0, 2, 5),
        (a4 >> 7) & 0x1F == window(a4, 0, 7, 5),
        (a4 >> 12) & 0x1F == window(a4, 0, 12, 5),
        (a4 >> 17) & 0x1F == window(a4, 0, 17, 5),
        (a4 >> 22) & 0x1F == window(a4, 0, 22, 5),
        (a4 >> 27) & 0x1F == window(a4, 0, 27, 5),
{
}

/// Values computed by the terms of the 5-bit kernel are the 32 fields of
/// 5 bits in `words`.
proof fn lemma_fields_5_bit(words: Seq<u32>, out: Seq<u32>)
    requires
        words.len() >= 5,
        out.len() >= 32,
        out[0] == (words[0] >> 0) & 0x1F,
        out[1] == (words[0] >> 5) & 0x1F,
        out[2] == (words[0] >> 10) & 0x1F,
        out[3] == (words[0] >> 15) & 0x1F,
        out[4] == (words[0] >> 20) & 0x1F,
        out[5] == (words[0] >> 25) & 0x1F,
        out[6] == ((words[0] >> 30) & 0x3) | ((words[1] & 0x7) << 2),
        out[7] == (words[1] >> 3) & 0x1F,
        out[8] == (words[1] >> 8) & 0x1F,
        out[9] == (words[1] >> 13) & 0x1F,
        out[10] == (words[1] >> 18) & 0x1F,
        out[11] == (words[1] >> 23) & 0x1F,
        out[12] == ((words[1] >> 28) & 0xF) | ((words[2] & 0x1) << 4),
        out[13] == (words[2] >> 1) & 0x1F,
        out[14] == (words[2] >> 6) & 0x1F,
        out[15] == (words[2] >> 11) & 0x1F,
        out[16] == (words[2] >> 16) & 0x1F,
        out[17] == (words[2] >> 21) & 0x1F,
        out[18] == (words[2] >> 26) & 0x1F,
        out[19] == ((words[2] >> 31) & 0x1) | ((words[3] & 0xF) << 1),
        out[20] == (words[3] >> 4) & 0x1F,
        out[21] == (words[3] >> 9) & 0x1F,
        out[22] == (words[3] >> 14) & 0x1F,
        out[23] == (words[3] >> 19) & 0x1F,
        out[24] == (words[3] >> 24) & 0x1F,
        out[25] == ((words[3] >> 29) & 0x7) | ((words[4] & 0x3) << 3),
        out[26] == (words[4] >> 2) & 0x1F,
        out[27] == (words[4] >> 7) & 0x1F,
        out[28] == (words[4] >> 12) & 0x1F,
        out[29] == (words[4] >> 17) & 0x1F,
        out[30] == (words[4] >> 22) & 0x1F,
        out[31] == (words[4] >> 27) & 0x1F,
    ensures
        forall|i: int| 0 <= i < 32 ==> out[i] == stored_field(words, 5, i as nat),
{
    lemma_terms_5_bit(words[0], words[1], words[2], words[3], words[4]);
    lemma_windows_are_fields(words, 5, out);
}

/// Unpacks 32 values of 5 bits each from the first 5 words of `src` into
/// the first 32 places of `dst`.
pub fn decompress_5_bit(src: &[u32], dst: &mut [u32])
    requires
        src@.len() >= 5,
        old(dst)@.len() >= 32,
    ensures
        final(dst)@.len() == old(dst)@.len(),
        forall|i: int| 0 <= i < 32 ==> final(dst)@[i] == stored_field(src@, 5, i as nat),
        forall|i: int| 32 <= i < old(dst)@.len() ==> final(dst)@[i] == old(dst)@[i],
{
    // Word 0: bits 0-31
    dst[0] = (src[0] >> 0) & 0x1F;
    dst[1] = (src[0] >> 5) & 0x1F;
    dst[2] = (src[0] >> 10) & 0x1F;
    dst[3] = (src[0] >> 15) & 0x1F;
    dst[4] = (src[0] >> 20) & 0x1F;
    dst[5] = (src[0] >> 25) & 0x1F;

    // Value 6 spans words 0-1
    dst[6] = ((src[0] >> 30) & 0x3) | ((src[1] & 0x7) << 2);

    // Word 1: bits 32-63
    dst[7] = (src[1] >> 3) & 0x1F;
    dst[8] = (src[1] >> 8) & 0x1F;
    dst[9] = (src[1] >> 13) & 0x1F;
    dst[10] = (src[1] >> 18) & 0x1F;
    dst[11] = (src[1] >> 23) & 0x1F;

    // Value 12 spans words 1-2
    dst[12] = ((src[1] >> 28) & 0xF) | ((src[2] & 0x1) << 4);

    // Word 2: bits 64-95
    dst[13] = (src[2] >> 1) & 0x1F;
    dst[14] = (src[2] >> 6) & 0x1F;
    dst[15] = (src[2] >> 11) & 0x1F;
    dst[16] = (src[2] >> 16) & 0x1F;
    dst[17] = (src[2] >> 21) & 0x1F;
    dst[18] = (src[2] >> 26) & 0x1F;

    // Value 19 spans words 2-3
    dst[19] = ((src[2] >> 31) & 0x1) | ((src[3] & 0xF) << 1);

    // Word 3: bits 96-127
    dst[20] = (src[3] >> 4) & 0x1F;
    dst[21] = (src[3] >> 9) & 0x1F;
    dst[22] = (src[3] >> 14) & 0x1F;
    dst[23] = (src[3] >> 19) & 0x1F;
    dst[24] = (src[3] >> 24) & 0x1F;

    // Value 25 spans words 3-4
    dst[25] = ((src[3] >> 29) & 0x7) | ((src[4] & 0x3) << 3);

    // Word 4: bits 128-159
    dst[26] = (src[4] >> 2) & 0x1F;
    dst[27] = (src[4] >> 7) & 0x1F;
    dst[28] = (src[4] >> 12) & 0x1F;
    dst[29] = (src[4] >> 17) & 0x1F;
    dst[30] = (src[4] >> 22) & 0x1F;
    dst[31] = (src[4] >> 27) & 0x1F;
    proof {
        lemma_fields_5_bit(src@, dst@);
    }
}

/// Each term of the 6-bit kernel is the window at its place, decided on bit
/// vectors.
proof fn lemma_terms_6_bit(a0: u32, a1: u32, a2: u32, a3: u32, a4: u32, a5: u32)
    by (bit_vector)
    ensures
        (a0 >> 0) & 0x3F == window(a0, 0, 0, 6),
        (a0 >> 6) & 0x3F == window(a0, 0, 6, 6),
        (a0 >> 12) & 0x3F == window(a0, 0, 12, 6),
        (a0 >> 18) & 0x3F == window(a0, 0, 18, 6),
        (a0 >> 24) & 0x3F == window(a0, 0, 24, 6),
        ((a0 >> 30) & 0x3) | ((a1 & 0xF) << 2) == window(a0, a1, 30, 6),
        (a1 >> 4) & 0x3F == window(a1, 0, 4, 6),
        (a1 >> 10) & 0x3F == window(a1, 0, 10, 6),
        (a1 >> 16) & 0x3F == window(a1, 0, 16, 6),
        (a1 >> 22) & 0x3F == window(a1, 0, 22, 6),
        ((a1 >> 28) & 0xF) | ((a2 & 0x3) << 4) == window(a1, a2, 28, 6),
        (a2 >> 2) & 0x3F == window(a2, 0, 2, 6),
        (a2 >> 8) & 0x3F == window(a2, 0, 8, 6),
        (a2 >> 14) & 0x3F == window(a2, 0, 14, 6),
        (a2 >> 20) & 0x3F == window(a2, 0, 20, 6),
        (a2 >> 26) & 0x3F == window(a2, 0, 26, 6),
        (a3 >> 0) & 0x3F == window(a3, 0, 0, 6),
        (a3 >> 6) & 0x3F == window(a3, 0, 6, 6),
        (a3 >> 12) & 0x3F == window(a3, 0, 12, 6),
        (a3 >> 18) & 0x3F == window(a3, 0, 18, 6),
        (a3 >> 24) & 0x3F == window(a3, 0, 24, 6),
        ((a3 >> 30) & 0x3) | ((a4 & 0xF) << 2) == window(a3, a4, 30, 6),
        (a4 >> 4) & 0x3F == window(a4, 0, 4, 6),
        (a4 >> 10) & 0x3F == window(a4, 0, 10, 6),
        (a4 >> 16) & 0x3F == window(a4, 0, 16, 6),
        (a4 >> 22) & 0x3F == window(a4, 0, 22, 6),
        ((a4 >> 28) & 0xF) | ((a5 & 0x3) << 4) == window(a4, a5, 28, 6),
        (a5 >> 2) & 0x3F == window(a5, 0, 2, 6),
        (a5 >> 8) & 0x3F == window(a5, 0, 8, 6),
        (a5 >> 14) & 0x3F == window(a5, 0, 14, 6),
        (a5 >> 20) & 0x3F == window(a5, 0, 20, 6),
        (a5 >> 26) & 0x3F == window(a5, 0, 26, 6),
{
}

/// Values computed by the terms of the 6-bit kernel are the 32 fields of
/// 6 bits in `words`.
proof fn lemma_fields_6_bit(words: Seq<u32>, out: Seq<u32>)
    requires
        words.len() >= 6,
        out.len() >= 32,
        out[0] == (words[0] >> 0) & 0x3F,
        out[1] == (words[0] >> 6) & 0x3F,
        out[2] == (words[0] >> 12) & 0x3F,
        out[3] == (words[0] >> 18) & 0x3F,
        out[4] == (words[0] >> 24) & 0x3F,
        out[5] == ((words[0] >> 30) & 0x3) | ((words[1] & 0xF) << 2),
        out[6] == (words[1] >> 4) & 0x3F,
        out[7] == (words[1] >> 10) & 0x3F,
        out[8] == (words[1] >> 16) & 0x3F,
        out[9] == (words[1] >> 22) & 0x3F,
        out[10] == ((words[1] >> 28) & 0xF) | ((words[2] & 0x3) << 4),
        out[11] == (words[2] >> 2) & 0x3F,
        out[12] == (words[2] >> 8) & 0x3F,
        out[13] == (words[2] >> 14) & 0x3F,
        out[14] == (words[2] >> 20) & 0x3F,
        out[15] == (words[2] >> 26) & 0x3F,
        out[16] == (words[3] >> 0) & 0x3F,
        out[17] == (words[3] >> 6) & 0x3F,
        out[18] == (words[3] >> 12) & 0x3F,
        out[19] == (words[3] >> 18) & 0x3F,
        out[20] == (words[3] >> 24) & 0x3F,
        out[21] == ((words[3] >> 30) & 0x3) | ((words[4] & 0xF) << 2),
        out[22] == (words[4] >> 4) & 0x3F,
        out[23] == (words[4] >> 10) & 0x3F,
        out[24] == (words[4] >> 16) & 0x3F,
        out[25] == (words[4] >> 22) & 0x3F,
        out[26] == ((words[4] >> 28) & 0xF) | ((words[5] & 0x3) << 4),
        out[27] == (words[5] >> 2) & 0x3F,
        out[28] == (words[5] >> 8) & 0x3F,
        out[29] == (words[5] >> 14) & 0x3F,
        out[30] == (words[5] >> 20) & 0x3F,
        out[31] == (words[5] >> 26) & 0x3F,
    ensures
        forall|i: int| 0 <= i < 32 ==> out[i] == stored_field(words, 6, i as nat),
{
    lemma_terms_6_bit(words[0], words[1], words[2], words[3], words[4], words[5]);
    lemma_windows_are_fields(words, 6, out);
}

/// Unpacks 32 values of 6 bits each from the first 6 words of `src` into
/// the first 32 places of `dst`.
pub fn decompress_6_bit(src: &[u32], dst: &mut [u32])
    requires
        src@.len() >= 6,
        old(dst)@.len() >= 32,
    ensures
        final(dst)@.len() == old(dst)@.len(),
        forall|i: int| 0 <= i < 32 ==> final(dst)@[i] == stored_field(src@, 6, i as nat),
        forall|i: int| 32 <= i < old(dst)@.len() ==> final(dst)@[i] == old(dst)@[i],
{
    // Word 0: bits 0-31
    dst[0] = (src[0] >> 0) & 0x3F;
    dst[1] = (src[0] >> 6) & 0x3F;
    dst[2] = (src[0] >> 12) & 0x3F;
    dst[3] = (src[0] >> 18) & 0x3F;
    dst[4] = (src[0] >> 24) & 0x3F;

    // Value 5 spans words 0-1
    dst[5] = ((src[0] >> 30) & 0x3) | ((src[1] & 0xF) << 2);

    // Word 1: bits 32-63
    dst[6] = (src[1] >> 4) & 0x3F;
    dst[7] = (src[1] >> 10) & 0x3F;
    dst[8] = (src[1] >> 16) & 0x3F;
    dst[9] = (src[1] >> 22) & 0x3F;

    // Value 10 spans words 1-2
    dst[10] = ((src[1] >> 28) & 0xF) | ((src[2] & 0x3) << 4);

    // Word 2: bits 64-95
    dst[11] = (src[2] >> 2) & 0x3F;
    dst[12] = (src[2] >> 8) & 0x3F;
    dst[13] = (src[2] >> 14) & 0x3F;
    dst[14] = (src[2] >> 20) & 0x3F;
    dst[15] = (src[2] >> 26) & 0x3F;

    // Word 3: bits 96-127
    dst[16] = (src[3] >> 0) & 0x3F;
    dst[17] = (src[3] >> 6) & 0x3F;
    dst[18] = (src[3] >> 12) & 0x3F;
    dst[19] = (src[3] >> 18) & 0x3F;
    dst[20] = (src[3] >> 24) & 0x3F;

    // Value 21 spans words 3-4
    dst[21] = ((src[3] >> 30) & 0x3) | ((src[4] & 0xF) << 2);

    // Word 4: bits 128-159
    dst[22] = (src[4] >> 4) & 0x3F;
    dst[23] = (src[4] >> 10) & 0x3F;
    dst[24] = (src[4] >> 16) & 0x3F;
    dst[25] = (src[4] >> 22) & 0x3F;

    // Value 26 spans words 4-5
    dst[26] = ((src[4] >> 28) & 0xF) | ((src[5] & 0x3) << 4);

    // Word 5: bits 160-191
    dst[27] = (src[5] >> 2) & 0x3F;
    dst[28] = (src[5] >> 8) & 0x3F;
    dst[29] = (src[5] >> 14) & 0x3F;
    dst[30] = (src[5] >> 20) & 0x3F;
    dst[31] = (src[5] >> 26) & 0x3F;
    proof {
        lemma_fields_6_bit(src@, dst@);
    }
}

/// Each term of the 7-bit kernel is the window at its place, decided on bit
/// vectors.
proof fn lemma_terms_7_bit(a0: u32, a1: u32, a2: u32, a3: u32, a4: u32, a5: u32, a6: u32)
    by (bit_vector)
    ensures
        (a0 >> 0) & 0x7F == window(a0, 0, 0, 7),
        (a0 >> 7) & 0x7F == window(a0, 0, 7, 7),
        (a0 >> 14) & 0x7F == window(a0, 0, 14, 7),
        (a0 >> 21) & 0x7F == window(a0, 0, 21, 7),
        ((a0 >> 28) & 0xF) | ((a1 & 0x7) << 4) == window(a0, a1, 28, 7),
        (a1 >> 3) & 0x7F == window(a1, 0, 3, 7),
        (a1 >> 10) & 0x7F == window(a1, 0, 10, 7),
        (a1 >> 17) & 0x7F == window(a1, 0, 17, 7),
        (a1 >> 24) & 0x7F == window(a1, 0, 24, 7),
        ((a1 >> 31) & 0x1) | ((a2 & 0x3F) << 1) == window(a1, a2, 31, 7),
        (a2 >> 6) & 0x7F == window(a2, 0, 6, 7),
        (a2 >> 13) & 0x7F == window(a2, 0, 13, 7),
        (a2 >> 20) & 0x7F == window(a2, 0, 20, 7),
        ((a2 >> 27) & 0x1F) | ((a3 & 0x3) << 5) == window(a2, a3, 27, 7),
        (a3 >> 2) & 0x7F == window(a3, 0, 2, 7),
        (a3 >> 9) & 0x7F == window(a3, 0, 9, 7),
        (a3 >> 16) & 0x7F == window(a3, 0, 16, 7),
        (a3 >> 23) & 0x7F == window(a3, 0, 23, 7),
        ((a3 >> 30) & 0x3) | ((a4 & 0x1F) << 2) == window(a3, a4, 30, 7),
        (a4 >> 5) & 0x7F == window(a4, 0, 5, 7),
        (a4 >> 12) & 0x7F == window(a4, 0, 12, 7),
        (a4 >> 19) & 0x7F == window(a4, 0, 19, 7),
        ((a4 >> 26) & 0x3F) | ((a5 & 0x1) << 6) == window(a4, a5, 26, 7),
        (a5 >> 1) & 0x7F == window(a5, 0, 1, 7),
        (a5 >> 8) & 0x7F == window(a5, 0, 8, 7),
        (a5 >> 15) & 0x7F == window(a5, 0, 15, 7),
        (a5 >> 22) & 0x7F == window(a5, 0, 22, 7),
        ((a5 >> 29) & 0x7) | ((a6 & 0xF) << 3) == window(a5, a6, 29, 7),
        (a6 >> 4) & 0x7F == window(a6, 0, 4, 7),
        (a6 >> 11) & 0x7F == window(a6, 0, 11, 7),
        (a6 >> 18) & 0x7F == window(a6, 0, 18, 7),
        (a6 >> 25) & 0x7F == window(a6, 0, 25, 7),
{
}

/// Values computed by the terms of the 7-bit kernel are the 32 fields of
/// 7 bits in `words`.
proof fn lemma_fields_7_bit(words: Seq<u32>, out: Seq<u32>)
    requires
        words.len() >= 7,
        out.len() >= 32,
        out[0] == (words[0] >> 0) & 0x7F,
        out[1] == (words[0] >> 7) & 0x7F,
        out[2] == (words[0] >> 14) & 0x7F,
        out[3] == (words[0] >> 21) & 0x7F,
        out[4] == ((words[0] >> 28) & 0xF) | ((words[1] & 0x7) << 4),
        out[5] == (words[1] >> 3) & 0x7F,
        out[6] == (words[1] >> 10) & 0x7F,
        out[7] == (words[1] >> 17) & 0x7F,
        out[8] == (words[1] >> 24) & 0x7F,
        out[9] == ((words[1] >> 31) & 0x1) | ((words[2] & 0x3F) << 1),
        out[10] == (words[2] >> 6) & 0x7F,
        out[11] == (words[2] >> 13) & 0x7F,
        out[12] == (words[2] >> 20) & 0x7F,
        out[13] == ((words[2] >> 27) & 0x1F) | ((words[3] & 0x3) << 5),
        out[14] == (words[3] >> 2) & 0x7F,
        out[15] == (words[3] >> 9) & 0x7F,
        out[16] == (words[3] >> 16) & 0x7F,
        out[17] == (words[3] >> 23) & 0x7F,
        out[18] == ((words[3] >> 30) & 0x3) | ((words[4] & 0x1F) << 2),
        out[19] == (words[4] >> 5) & 0x7F,
        out[20] == (words[4] >> 12) & 0x7F,
        out[21] == (words[4] >> 19) & 0x7F,
        out[22] == ((words[4] >> 26) & 0x3F) | ((words[5] & 0x1) << 6),
        out[23] == (words[5] >> 1) & 0x7F,
        out[24] == (words[5] >> 8) & 0x7F,
        out[25] == (words[5] >> 15) & 0x7F,
        out[26] == (words[5] >> 22) & 0x7F,
        out[27] == ((words[5] >> 29) & 0x7) | ((words[6] & 0xF) << 3),
        out[28] == (words[6] >> 4) & 0x7F,
        out[29] == (words[6] >> 11) & 0x7F,
        out[30] == (words[6] >> 18) & 0x7F,
        out[31] == (words[6] >> 25) & 0x7F,
    ensures
        forall|i: int| 0 <= i < 32 ==> out[i] == stored_field(words, 7, i as nat),
{
    lemma_terms_7_bit(words[0], words[1], words[2], words[3], words[4], words[5], words[6]);
    lemma_windows_are_fields(words, 7, out);
}

/// Unpacks 32 values of 7 bits each from the first 7 words of `src` into
/// the first 32 places of `dst`.
pub fn decompress_7_bit(src: &[u32], dst: &mut [u32])
    requires
        src@.len() >= 7,
        old(dst)@.len() >= 32,
    ensures
        final(dst)@.len() == old(dst)@.len(),
        forall|i: int| 0 <= i < 32 ==> final(dst)@[i] == stored_field(src@, 7, i as nat),
        forall|i: int| 32 <= i < old(dst)@.len() ==> final(dst)@[i] == old(dst)@[i],
{
    // Word 0: bits 0-31
    dst[0] = (src[0] >> 0) & 0x7F;
    dst[1] = (src[0] >> 7) & 0x7F;
    dst[2] = (src[0] >> 14) & 0x7F;
    dst[3] = (src[0] >> 21) & 0x7F;

    // Value 4 spans words 0-1
    dst[4] = ((src[0] >> 28) & 0xF) | ((src[1] & 0x7) << 4);

    // Word 1: bits 32-63
    dst[5] = (src[1] >> 3) & 0x7F;
    dst[6] = (src[1] >> 10) & 0x7F;
    dst[7] = (src[1] >> 17) & 0x7F;
    dst[8] = (src[1] >> 24) & 0x7F;

    // Value 9 spans words 1-2
    dst[9] = ((src[1] >> 31) & 0x1) | ((src[2] & 0x3F) << 1);

    // Word 2: bits 64-95
    dst[10] = (src[2] >> 6) & 0x7F;
    dst[11] = (src[2] >> 13) & 0x7F;
    dst[12] = (src[2] >> 20) & 0x7F;

    // Value 13 spans words 2-3
    dst[13] = ((src[2] >> 27) & 0x1F) | ((src[3] & 0x3) << 5);

    // Word 3: bits 96-127
    dst[14] = (src[3] >> 2) & 0x7F;
    dst[15] = (src[3] >> 9) & 0x7F;
    dst[16] = (src[3] >> 16) & 0x7F;
    dst[17] = (src[3] >> 23) & 0x7F;

    // Value 18 spans words 3-4
    dst[18] = ((src[3] >> 30) & 0x3) | ((src[4] & 0x1F) << 2);

    // Word 4: bits 128-159
    dst[19] = (src[4] >> 5) & 0x7F;
    dst[20] = (src[4] >> 12) & 0x7F;
    dst[21] = (src[4] >> 19) & 0x7F;

    // Value 22 spans words 4-5
    dst[22] = ((src[4] >> 26) & 0x3F) | ((src[5] & 0x1) << 6);

    // Word 5: bits 160-191
    dst[23] = (src[5] >> 1) & 0x7F;
    dst[24] = (src[5] >> 8) & 0x7F;
    dst[25] = (src[5] >> 15) & 0x7F;
    dst[26] = (src[5] >> 22) & 0x7F;

    // Value 27 spans words 5-6
    dst[27] = ((src[5] >> 29) & 0x7) | ((src[6] & 0xF) << 3);

    // Word 6: bits 192-223
    dst[28] = (src[6] >> 4) & 0x7F;
    dst[29] = (src[6] >> 11) & 0x7F;
    dst[30] = (src[6] >> 18) & 0x7F;
    dst[31] = (src[6] >> 25) & 0x7F;
    proof {
        lemma_fields_7_bit(src@, dst@);
    }
}

/// Each term of the 8-bit kernel is the window at its place, decided on bit
/// vectors.
proof fn lemma_terms_8_bit(a0: u32, a1: u32, a2: u32, a3: u32, a4: u32, a5: u32, a6: u32, a7: u32)
    by (bit_vector)
    ensures
        (a0 >> 0) & 0xFF == window(a0, 0, 0, 8),
        (a0 >> 8) & 0xFF == window(a0, 0, 8, 8),
        (a0 >> 16) & 0xFF == window(a0, 0, 16, 8),
        (a0 >> 24) & 0xFF == window(a0, 0, 24, 8),
        (a1 >> 0) & 0xFF == window(a1, 0, 0, 8),
        (a1 >> 8) & 0xFF == window(a1, 0, 8, 8),
        (a1 >> 16) & 0xFF == window(a1, 0, 16, 8),
        (a1 >> 24) & 0xFF == window(a1, 0, 24, 8),
        (a2 >> 0) & 0xFF == window(a2, 0, 0, 8),
        (a2 >> 8) & 0xFF == window(a2, 0, 8, 8),
        (a2 >> 16) & 0xFF == window(a2, 0, 16, 8),
        (a2 >> 24) & 0xFF == window(a2, 0, 24, 8),
        (a3 >> 0) & 0xFF == window(a3, 0, 0, 8),
        (a3 >> 8) & 0xFF == window(a3, 0, 8, 8),
        (a3 >> 16) & 0xFF == window(a3, 0, 16, 8),
        (a3 >> 24) & 0xFF == window(a3, 0, 24, 8),
        (a4 >> 0) & 0xFF == window(a4, 0, 0, 8),
        (a4 >> 8) & 0xFF == window(a4, 0, 8, 8),
        (a4 >> 16) & 0xFF == window(a4, 0, 16, 8),
        (a4 >> 24) & 0xFF == window(a4, 0, 24, 8),
        (a5 >> 0) & 0xFF == window(a5, 0, 0, 8),
        (a5 >> 8) & 0xFF == window(a5, 0, 8, 8),
        (a5 >> 16) & 0xFF == window(a5, 0, 16, 8),
        (a5 >> 24) & 0xFF == window(a5, 0, 24, 8),
        (a6 >> 0) & 0xFF == window(a6, 0, 0, 8),
        (a6 >> 8) & 0xFF == window(a6, 0, 8, 8),
        (a6 >> 16) & 0xFF == window(a6, 0, 16, 8),
        (a6 >> 24) & 0xFF == window(a6, 0, 24, 8),
        (a7 >> 0) & 0xFF == window(a7, 0, 0, 8),
        (a7 >> 8) & 0xFF == window(a7, 0, 8, 8),
        (a7 >> 16) & 0xFF == window(a7, 0, 16, 8),
        (a7 >> 24) & 0xFF == window(a7, 0, 24, 8),
{
}

/// Values computed by the terms of the 8-bit kernel are the 32 fields of
/// 8 bits in `words`.
proof fn lemma_fields_8_bit(words: Seq<u32>, out: Seq<u32>)
    requires
        words.len() >= 8,
        out.len() >= 32,
        out[0] == (words[0] >> 0) & 0xFF,
        out[1] == (words[0] >> 8) & 0xFF,
        out[2] == (words[0] >> 16) & 0xFF,
        out[3] == (words[0] >> 24) & 0xFF,
        out[4] == (words[1] >> 0) & 0xFF,
        out[5] == (words[1] >> 8) & 0xFF,
        out[6] == (words[1] >> 16) & 0xFF,
        out[7] == (words[1] >> 24) & 0xFF,
        out[8] == (words[2] >> 0) & 0xFF,
        out[9] == (words[2] >> 8) & 0xFF,
        out[10] == (words[2] >> 16) & 0xFF,
        out[11] == (words[2] >> 24) & 0xFF,
        out[12] == (words[3] >> 0) & 0xFF,
        out[13] == (words[3] >> 8) & 0xFF,
        out[14] == (words[3] >> 16) & 0xFF,
        out[15] == (words[3] >> 24) & 0xFF,
        out[16] == (words[4] >> 0) & 0xFF,
        out[17] == (words[4] >> 8) & 0xFF,
        out[18] == (words[4] >> 16) & 0xFF,
        out[19] == (words[4] >> 24) & 0xFF,
        out[20] == (words[5] >> 0) & 0xFF,
        out[21] == (words[5] >> 8) & 0xFF,
        out[22] == (words[5] >> 16) & 0xFF,
        out[23] == (words[5] >> 24) & 0xFF,
        out[24] == (words[6] >> 0) & 0xFF,
        out[25] == (words[6] >> 8) & 0xFF,
        out[26] == (words[6] >> 16) & 0xFF,
        out[27] == (words[6] >> 24) & 0xFF,
        out[28] == (words[7] >> 0) & 0xFF,
        out[29] == (words[7] >> 8) & 0xFF,
        out[30] == (words[7] >> 16) & 0xFF,
        out[31] == (words[7] >> 24) & 0xFF,
    ensures
        forall|i: int| 0 <= i < 32 ==> out[i] == stored_field(words, 8, i as nat),
{
    lemma_terms_8_bit(words[0], words[1], words[2], words[3], words[4], words[5], words[6], words[7]);
    lemma_windows_are_fields(words, 8, out);
}

/// Unpacks 32 values of 8 bits each from the first 8 words of `src` into
/// the first 32 places of `dst`.
pub fn decompress_8_bit(src: &[u32], dst: &mut [u32])
    requires
        src@.len() >= 8,
        old(dst)@.len() >= 32,
    ensures
        final(dst)@.len() == old(dst)@.len(),
        forall|i: int| 0 <= i < 32 ==> final(dst)@[i] == stored_field(src@, 8, i as nat),
        forall|i: int| 32 <= i < old(dst)@.len() ==> final(dst)@[i] == old(dst)@[i],
{
    // Word 0: bits 0-31
    dst[0] = (src[0] >> 0) & 0xFF;
    dst[1] = (src[0] >> 8) & 0xFF;
    dst[2] = (src[0] >> 16) & 0xFF;
    dst[3] = (src[0] >> 24) & 0xFF;

    // Word 1: bits 32-63
    dst[4] = (src[1] >> 0) & 0xFF;
    dst[5] = (src[1] >> 8) & 0xFF;
    dst[6] = (src[1] >> 16) & 0xFF;
    dst[7] = (src[1] >> 24) & 0xFF;

    // Word 2: bits 64-95
    dst[8] = (src[2] >> 0) & 0xFF;
    dst[9] = (src[2] >> 8) & 0xFF;
    dst[10] = (src[2] >> 16) & 0xFF;
    dst[11] = (src[2] >> 24) & 0xFF;

    // Word 3: bits 96-127
    dst[12] = (src[3] >> 0) & 0xFF;
    dst[13] = (src[3] >> 8) & 0xFF;
    dst[14] = (src[3] >> 16) & 0xFF;
    dst[15] = (src[3] >> 24) & 0xFF;

    // Word 4: bits 128-159
    dst[16] = (src[4] >> 0) & 0xFF;
    dst[17] = (src[4] >> 8) & 0xFF;
    dst[18] = (src[4] >> 16) & 0xFF;
    dst[19] = (src[4] >> 24) & 0xFF;

    // Word 5: bits 160-191
    dst[20] = (src[5] >> 0) & 0xFF;
    dst[21] = (src[5] >> 8) & 0xFF;
    dst[22] = (src[5] >> 16) & 0xFF;
    dst[23] = (src[5] >> 24) & 0xFF;

    // Word 6: bits 192-223
    dst[24] = (src[6] >> 0) & 0xFF;
    dst[25] = (src[6] >> 8) & 0xFF;
    dst[26] = (src[6] >> 16) & 0xFF;
    dst[27] = (src[6] >> 24) & 0xFF;

    // Word 7: bits 224-255
    dst[28] = (src[7] >> 0) & 0xFF;
    dst[29] = (src[7] >> 8) & 0xFF;
    dst[30] = (src[7] >> 16) & 0xFF;
    dst[31] = (src[7] >> 24) & 0xFF;
    proof {
        lemma_fields_8_bit(src@, dst@);
    }
}

/// Each term of the 9-bit kernel is the window at its place, decided on bit
/// vectors.
proof fn lemma_terms_9_bit(a0: u32, a1: u32, a2: u32, a3: u32, a4: u32, a5: u32, a6: u32, a7: u32, a8: u32)
    by (bit_vector)
    ensures
        (a0 >> 0) & 0x1FF == window(a0, 0, 0, 9),
        (a0 >> 9) & 0x1FF == window(a0, 0, 9, 9),
        (a0 >> 18) & 0x1FF == window(a0, 0, 18, 9),
        ((a0 >> 27) & 0x1F) | ((a1 & 0xF) << 5) == window(a0, a1, 27, 9),
        (a1 >> 4) & 0x1FF == window(a1, 0, 4, 9),
        (a1 >> 13) & 0x1FF == window(a1, 0, 13, 9),
        (a1 >> 22) & 0x1FF == window(a1, 0, 22, 9),
        ((a1 >> 31) & 0x1) | ((a2 & 0xFF) << 1) == window(a1, a2, 31, 9),
        (a2 >> 8) & 0x1FF == window(a2, 0, 8, 9),
        (a2 >> 17) & 0x1FF == window(a2, 0, 17, 9),
        ((a2 >> 26) & 0x3F) | ((a3 & 0x7) << 6) == window(a2, a3, 26, 9),
        (a3 >> 3) & 0x1FF == window(a3, 0, 3, 9),
        (a3 >> 12) & 0x1FF == window(a3, 0, 12, 9),
        (a3 >> 21) & 0x1FF == window(a3, 0, 21, 9),
        ((a3 >> 30) & 0x3) | ((a4 & 0x7F) << 2) == window(a3, a4, 30, 9),
        (a4 >> 7) & 0x1FF == window(a4, 0, 7, 9),
        (a4 >> 16) & 0x1FF == window(a4, 0, 16, 9),
        ((a4 >> 25) & 0x7F) | ((a5 & 0x3) << 7) == window(a4, a5, 25, 9),
        (a5 >> 2) & 0x1FF == window(a5, 0, 2, 9),
        (a5 >> 11) & 0x1FF == window(a5, 0, 11, 9),
        (a5 >> 20) & 0x1FF == window(a5, 0, 20, 9),
        ((a5 >> 29) & 0x7) | ((a6 & 0x3F) << 3) == window(a5, a6, 29, 9),
        (a6 >> 6) & 0x1FF == window(a6, 0, 6, 9),
        (a6 >> 15) & 0x1FF == window(a6, 0, 15, 9),
        ((a6 >> 24) & 0xFF) | ((a7 & 0x1) << 8) == window(a6, a7, 24, 9),
        (a7 >> 1) & 0x1FF == window(a7, 0, 1, 9),
        (a7 >> 10) & 0x1FF == window(a7, 0, 10, 9),
        (a7 >> 19) & 0x1FF == window(a7, 0, 19, 9),
        ((a7 >> 28) & 0xF) | ((a8 & 0x1F) << 4) == window(a7, a8, 28, 9),
        (a8 >> 5) & 0x1FF == window(a8, 0, 5, 9),
        (a8 >> 14) & 0x1FF == window(a8, 0, 14, 9),
        (a8 >> 23) & 0x1FF == window(a8, 0, 23, 9),
{
}

/// Values computed by the terms of the 9-bit kernel are the 32 fields of
/// 9 bits in `words`.
proof fn lemma_fields_9_bit(words: Seq<u32>, out: Seq<u32>)
    requires
        words.len() >= 9,
        out.len() >= 32,
        out[0] == (words[0] >> 0) & 0x1FF,
        out[1] == (words[0] >> 9) & 0x1FF,
        out[2] == (words[0] >> 18) & 0x1FF,
        out[3] == ((words[0] >> 27) & 0x1F) | ((words[1] & 0xF) << 5),
        out[4] == (words[1] >> 4) & 0x1FF,
        out[5] == (words[1] >> 13) & 0x1FF,
        out[6] == (words[1] >> 22) & 0x1FF,
        out[7] == ((words[1] >> 31) & 0x1) | ((words[2] & 0xFF) << 1),
        out[8] == (words[2] >> 8) & 0x1FF,
        out[9] == (words[2] >> 17) & 0x1FF,
        out[10] == ((words[2] >> 26) & 0x3F) | ((words[3] & 0x7) << 6),
        out[11] == (words[3] >> 3) & 0x1FF,
        out[12] == (words[3] >> 12) & 0x1FF,
        out[13] == (words[3] >> 21) & 0x1FF,
        out[14] == ((words[3] >> 30) & 0x3) | ((words[4] & 0x7F) << 2),
        out[15] == (words[4] >> 7) & 0x1FF,
        out[16] == (words[4] >> 16) & 0x1FF,
        out[17] == ((words[4] >> 25) & 0x7F) | ((words[5] & 0x3) << 7),
        out[18] == (words[5] >> 2) & 0x1FF,
        out[19] == (words[5] >> 11) & 0x1FF,
        out[20] == (words[5] >> 20) & 0x1FF,
        out[21] == ((words[5] >> 29) & 0x7) | ((words[6] & 0x3F) << 3),
        out[22] == (words[6] >> 6) & 0x1FF,
        out[23] == (words[6] >> 15) & 0x1FF,
        out[24] == ((words[6] >> 24) & 0xFF) | ((words[7] & 0x1) << 8),
        out[25] == (words[7] >> 1) & 0x1FF,
        out[26] == (words[7] >> 10) & 0x1FF,
        out[27] == (words[7] >> 19) & 0x1FF,
        out[28] == ((words[7] >> 28) & 0xF) | ((words[8] & 0x1F) << 4),
        out[29] == (words[8] >> 5) & 0x1FF,
        out[30] == (words[8] >> 14) & 0x1FF,
        out[31] == (words[8] >> 23) & 0x1FF,
    ensures
        forall|i: int| 0 <= i < 32 ==> out[i] == stored_field(words, 9, i as nat),
{
    lemma_terms_9_bit(words[0], words[1], words[2], words[3], words[4], words[5], words[6], words[7], words[8]);
    lemma_windows_are_fields(words, 9, out);
}

/// Unpacks 32 values of 9 bits each from the first 9 words of `src` into
/// the first 32 places of `dst`.
pub fn decompress_9_bit(src: &[u32], dst: &mut [u32])
    requires
        src@.len() >= 9,
        old(dst)@.len() >= 32,
    ensures
        final(dst)@.len() == old(dst)@.len(),
        forall|i: int| 0 <= i < 32 ==> final(dst)@[i] == stored_field(src@, 9, i as nat),
        forall|i: int| 32 <= i < old(dst)@.len() ==> final(dst)@[i] == old(dst)@[i],
{
    // Word 0: bits 0-31
    dst[0] = (src[0] >> 0) & 0x1FF;
    dst[1] = (src[0] >> 9) & 0x1FF;
    dst[2] = (src[0] >> 18) & 0x1FF;

    // Value 3 spans words 0-1
    dst[3] = ((src[0] >> 27) & 0x1F) | ((src[1] & 0xF) << 5);

    // Word 1: bits 32-63
    dst[4] = (src[1] >> 4) & 0x1FF;
    dst[5] = (src[1] >> 13) & 0x1FF;
    dst[6] = (src[1] >> 22) & 0x1FF;

    // Value 7 spans words 1-2
    dst[7] = ((src[1] >> 31) & 0x1) | ((src[2] & 0xFF) << 1);

    // Word 2: bits 64-95
    dst[8] = (src[2] >> 8) & 0x1FF;
    dst[9] = (src[2] >> 17) & 0x1FF;

    // Value 10 spans words 2-3
    dst[10] = ((src[2] >> 26) & 0x3F) | ((src[3] & 0x7) << 6);

    // Word 3: bits 96-127
    dst[11] = (src[3] >> 3) & 0x1FF;
    dst[12] = (src[3] >> 12) & 0x1FF;
    dst[13] = (src[3] >> 21) & 0x1FF;

    // Value 14 spans words 3-4
    dst[14] = ((src[3] >> 30) & 0x3) | ((src[4] & 0x7F) << 2);

    // Word 4: bits 128-159
    dst[15] = (src[4] >> 7) & 0x1FF;
    dst[16] = (src[4] >> 16) & 0x1FF;

    // Value 17 spans words 4-5
    dst[17] = ((src[4] >> 25) & 0x7F) | ((src[5] & 0x3) << 7);

    // Word 5: bits 160-191
    dst[18] = (src[5] >> 2) & 0x1FF;
    dst[19] = (src[5] >> 11) & 0x1FF;
    dst[20] = (src[5] >> 20) & 0x1FF;

    // Value 21 spans words 5-6
    dst[21] = ((src[5] >> 29) & 0x7) | ((src[6] & 0x3F) << 3);

    // Word 6: bits 192-223
    dst[22] = (src[6] >> 6) & 0x1FF;
    dst[23] = (src[6] >> 15) & 0x1FF;

    // Value 24 spans words 6-7
    dst[24] = ((src[6] >> 24) & 0xFF) | ((src[7] & 0x1) << 8);

    // Word 7: bits 224-255
    dst[25] = (src[7] >> 1) & 0x1FF;
    dst[26] = (src[7] >> 10) & 0x1FF;
    dst[27] = (src[7] >> 19) & 0x1FF;

    // Value 28 spans words 7-8
    dst[28] = ((src[7] >> 28) & 0xF) | ((src[8] & 0x1F) << 4);

    // Word 8: bits 256-287
    dst[29] = (src[8] >> 5) & 0x1FF;
    dst[30] = (src[8] >> 14) & 0x1FF;
    dst[31] = (src[8] >> 23) & 0x1FF;
    proof {
        lemma_fields_9_bit(src@, dst@);
    }
}

/// Each term of the 10-bit kernel is the window at its place, decided on bit
/// vectors.
proof fn lemma_terms_10_bit(a0: u32, a1: u32, a2: u32, a3: u32, a4: u32, a5: u32, a6: u32, a7: u32, a8: u32, a9: u32)
    by (bit_vector)
    ensures
        (a0 >> 0) & 0x3FF == window(a0, 0, 0, 10),
        (a0 >> 10) & 0x3FF == window(a0, 0, 10, 10),
        (a0 >> 20) & 0x3FF == window(a0, 0, 20, 10),
        ((a0 >> 30) & 0x3) | ((a1 & 0xFF) << 2) == window(a0, a1, 30, 10),
        (a1 >> 8) & 0x3FF == window(a1, 0, 8, 10),
        (a1 >> 18) & 0x3FF == window(a1, 0, 18, 10),
        ((a1 >> 28) & 0xF) | ((a2 & 0x3F) << 4) == window(a1, a2, 28, 10),
        (a2 >> 6) & 0x3FF == window(a2, 0, 6, 10),
        (a2 >> 16) & 0x3FF == window(a2, 0, 16, 10),
        ((a2 >> 26) & 0x3F) | ((a3 & 0xF) << 6) == window(a2, a3, 26, 10),
        (a3 >> 4) & 0x3FF == window(a3, 0, 4, 10),
        (a3 >> 14) & 0x3FF == window(a3, 0, 14, 10),
        ((a3 >> 24) & 0xFF) | ((a4 & 0x3) << 8) == window(a3, a4, 24, 10),
        (a4 >> 2) & 0x3FF == window(a4, 0, 2, 10),
        (a4 >> 12) & 0x3FF == window(a4, 0, 12, 10),
        (a4 >> 22) & 0x3FF == window(a4, 0, 22, 10),
        (a5 >> 0) & 0x3FF == window(a5, 0, 0, 10),
        (a5 >> 10) & 0x3FF == window(a5, 0, 10, 10),
        (a5 >> 20) & 0x3FF == window(a5, 0, 20, 10),
        ((a5 >> 30) & 0x3) | ((a6 & 0xFF) << 2) == window(a5, a6, 30, 10),
        (a6 >> 8) & 0x3FF == window(a6, 0, 8, 10),
        (a6 >> 18) & 0x3FF == window(a6, 0, 18, 10),
        ((a6 >> 28) & 0xF) | ((a7 & 0x3F) << 4) == window(a6, a7, 28, 10),
        (a7 >> 6) & 0x3FF == window(a7, 0, 6, 10),
        (a7 >> 16) & 0x3FF == window(a7, 0, 16, 10),
        ((a7 >> 26) & 0x3F) | ((a8 & 0xF) << 6) == window(a7, a8, 26, 10),
        (a8 >> 4) & 0x3FF == window(a8, 0, 4, 10),
        (a8 >> 14) & 0x3FF == window(a8, 0, 14, 10),
        ((a8 >> 24) & 0xFF) | ((a9 & 0x3) << 8) == window(a8, a9, 24, 10),
        (a9 >> 2) & 0x3FF == window(a9, 0, 2, 10),
        (a9 >> 12) & 0x3FF == window(a9, 0, 12, 10),
        (a9 >> 22) & 0x3FF == window(a9, 0, 22, 10),
{
}

/// Values computed by the terms of the 10-bit kernel are the 32 fields of
/// 10 bits in `words`.
proof fn lemma_fields_10_bit(words: Seq<u32>, out: Seq<u32>)
    requires
        words.len() >= 10,
        out.len() >= 32,
        out[0] == (words[0] >> 0) & 0x3FF,
        out[1] == (words[0] >> 10) & 0x3FF,
        out[2] == (words[0] >> 20) & 0x3FF,
        out[3] == ((words[0] >> 30) & 0x3) | ((words[1] & 0xFF) << 2),
        out[4] == (words[1] >> 8) & 0x3FF,
        out[5] == (words[1] >> 18) & 0x3FF,
        out[6] == ((words[1] >> 28) & 0xF) | ((words[2] & 0x3F) << 4),
        out[7] == (words[2] >> 6) & 0x3FF,
        out[8] == (words[2] >> 16) & 0x3FF,
        out[9] == ((words[2] >> 26) & 0x3F) | ((words[3] & 0xF) << 6),
        out[10] == (words[3] >> 4) & 0x3FF,
        out[11] == (words[3] >> 14) & 0x3FF,
        out[12] == ((words[3] >> 24) & 0xFF) | ((words[4] & 0x3) << 8),
        out[13] == (words[4] >> 2) & 0x3FF,
        out[14] == (words[4] >> 12) & 0x3FF,
        out[15] == (words[4] >> 22) & 0x3FF,
        out[16] == (words[5] >> 0) & 0x3FF,
        out[17] == (words[5] >> 10) & 0x3FF,
        out[18] == (words[5] >> 20) & 0x3FF,
        out[19] == ((words[5] >> 30) & 0x3) | ((words[6] & 0xFF) << 2),
        out[20] == (words[6] >> 8) & 0x3FF,
        out[21] == (words[6] >> 18) & 0x3FF,
        out[22] == ((words[6] >> 28) & 0xF) | ((words[7] & 0x3F) << 4),
        out[23] == (words[7] >> 6) & 0x3FF,
        out[24] == (words[7] >> 16) & 0x3FF,
        out[25] == ((words[7] >> 26) & 0x3F) | ((words[8] & 0xF) << 6),
        out[26] == (words[8] >> 4) & 0x3FF,
        out[27] == (words[8] >> 14) & 0x3FF,
        out[28] == ((words[8] >> 24) & 0xFF) | ((words[9] & 0x3) << 8),
        out[29] == (words[9] >> 2) & 0x3FF,
        out[30] == (words[9] >> 12) & 0x3FF,
        out[31] == (words[9] >> 22) & 0x3FF,
    ensures
        forall|i: int| 0 <= i < 32 ==> out[i] == stored_field(words, 10, i as nat),
{
    lemma_terms_10_bit(words[0], words[1], words[2], words[3], words[4], words[5], words[6], words[7], words[8], words[9]);
    lemma_windows_are_fields(words, 10, out);
}

/// Unpacks 32 values of 10 bits each from the first 10 words of `src` into
/// the first 32 places of `dst`.
pub fn decompress_10_bit(src: &[u32], dst: &mut [u32])
    requires
        src@.len() >= 10,
        old(dst)@.len() >= 32,
    ensures
        final(dst)@.len() == old(dst)@.len(),
        forall|i: int| 0 <= i < 32 ==> final(dst)@[i] == stored_field(src@, 10, i as nat),
        forall|i: int| 32 <= i < old(dst)@.len() ==> final(dst)@[i] == old(dst)@[i],
{
    // Word 0: bits 0-31
    dst[0] = (src[0] >> 0) & 0x3FF;
    dst[1] = (src[0] >> 10) & 0x3FF;
    dst[2] = (src[0] >> 20) & 0x3FF;

    // Value 3 spans words 0-1
    dst[3] = ((src[0] >> 30) & 0x3) | ((src[1] & 0xFF) << 2);

    // Word 1: bits 32-63
    dst[4] = (src[1] >> 8) & 0x3FF;
    dst[5] = (src[1] >> 18) & 0x3FF;

    // Value 6 spans words 1-2
    dst[6] = ((src[1] >> 28) & 0xF) | ((src[2] & 0x3F) << 4);

    // Word 2: bits 64-95
    dst[7] = (src[2] >> 6) & 0x3FF;
    dst[8] = (src[2] >> 16) & 0x3FF;

    // Value 9 spans words 2-3
    dst[9] = ((src[2] >> 26) & 0x3F) | ((src[3] & 0xF) << 6);

    // Word 3: bits 96-127
    dst[10] = (src[3] >> 4) & 0x3FF;
    dst[11] = (src[3] >> 14) & 0x3FF;

    // Value 12 spans words 3-4
    dst[12] = ((src[3] >> 24) & 0xFF) | ((src[4] & 0x3) << 8);

    // Word 4: bits 128-159
    dst[13] = (src[4] >> 2) & 0x3FF;
    dst[14] = (src[4] >> 12) & 0x3FF;
    dst[15] = (src[4] >> 22) & 0x3FF;

    // Word 5: bits 160-191
    dst[16] = (src[5] >> 0) & 0x3FF;
    dst[17] = (src[5] >> 10) & 0x3FF;
    dst[18] = (src[5] >> 20) & 0x3FF;

    // Value 19 spans words 5-6
    dst[19] = ((src[5] >> 30) & 0x3) | ((src[6] & 0xFF) << 2);

    // Word 6: bits 192-223
    dst[20] = (src[6] >> 8) & 0x3FF;
    dst[21] = (src[6] >> 18) & 0x3FF;

    // Value 22 spans words 6-7
    dst[22] = ((src[6] >> 28) & 0xF) | ((src[7] & 0x3F) << 4);

    // Word 7: bits 224-255
    dst[23] = (src[7] >> 6) & 0x3FF;
    dst[24] = (src[7] >> 16) & 0x3FF;

    // Value 25 spans words 7-8
    dst[25] = ((src[7] >> 26) & 0x3F) | ((src[8] & 0xF) << 6);

    // Word 8: bits 256-287
    dst[26] = (src[8] >> 4) & 0x3FF;
    dst[27] = (src[8] >> 14) & 0x3FF;

    // Value 28 spans words 8-9
    dst[28] = ((src[8] >> 24) & 0xFF) | ((src[9] & 0x3) << 8);

    // Word 9: bits 288-319
    dst[29] = (src[9] >> 2) & 0x3FF;
    dst[30] = (src[9] >> 12) & 0x3FF;
    dst[31] = (src[9] >> 22) & 0x3FF;
    proof {
        lemma_fields_10_bit(src@, dst@);
    }
}

/// Each term of the 11-bit kernel is the window at its place, decided on bit
/// vectors.
proof fn lemma_terms_11_bit(a0: u32, a1: u32, a2: u32, a3: u32, a4: u32, a5: u32, a6: u32, a7: u32, a8: u32, a9: u32, a10: u32)
    by (bit_vector)
    ensures
        (a0 >> 0) & 0x7FF == window(a0, 0, 0, 11),
        (a0 >> 11) & 0x7FF == window(a0, 0, 11, 11),
        ((a0 >> 22) & 0x3FF) | ((a1 & 0x1) << 10) == window(a0, a1, 22, 11),
        (a1 >> 1) & 0x7FF == window(a1, 0, 1, 11),
        (a1 >> 12) & 0x7FF == window(a1, 0, 12, 11),
        ((a1 >> 23) & 0x1FF) | ((a2 & 0x3) << 9) == window(a1, a2, 23, 11),
        (a2 >> 2) & 0x7FF == window(a2, 0, 2, 11),
        (a2 >> 13) & 0x7FF == window(a2, 0, 13, 11),
        ((a2 >> 24) & 0xFF) | ((a3 & 0x7) << 8) == window(a2, a3, 24, 11),
        (a3 >> 3) & 0x7FF == window(a3, 0, 3, 11),
        (a3 >> 14) & 0x7FF == window(a3, 0, 14, 11),
        ((a3 >> 25) & 0x7F) | ((a4 & 0xF) << 7) == window(a3, a4, 25, 11),
        (a4 >> 4) & 0x7FF == window(a4, 0, 4, 11),
        (a4 >> 15) & 0x7FF == window(a4, 0, 15, 11),
        ((a4 >> 26) & 0x3F) | ((a5 & 0x1F) << 6) == window(a4, a5, 26, 11),
        (a5 >> 5) & 0x7FF == window(a5, 0, 5, 11),
        (a5 >> 16) & 0x7FF == window(a5, 0, 16, 11),
        ((a5 >> 27) & 0x1F) | ((a6 & 0x3F) << 5) == window(a5, a6, 27, 11),
        (a6 >> 6) & 0x7FF == window(a6, 0, 6, 11),
        (a6 >> 17) & 0x7FF == window(a6, 0, 17, 11),
        ((a6 >> 28) & 0xF) | ((a7 & 0x7F) << 4) == window(a6, a7, 28, 11),
        (a7 >> 7) & 0x7FF == window(a7, 0, 7, 11),
        (a7 >> 18) & 0x7FF == window(a7, 0, 18, 11),
        ((a7 >> 29) & 0x7) | ((a8 & 0xFF) << 3) == window(a7, a8, 29, 11),
        (a8 >> 8) & 0x7FF == window(a8, 0, 8, 11),
        (a8 >> 19) & 0x7FF == window(a8, 0, 19, 11),
        ((a8 >> 30) & 0x3) | ((a9 & 0x1FF) << 2) == window(a8, a9, 30, 11),
        (a9 >> 9) & 0x7FF == window(a9, 0, 9, 11),
        (a9 >> 20) & 0x7FF == window(a9, 0, 20, 11),
        ((a9 >> 31) & 0x1) | ((a10 & 0x3FF) << 1) == window(a9, a10, 31, 11),
        (a10 >> 10) & 0x7FF == window(a10, 0, 10, 11),
        (a10 >> 21) & 0x7FF == window(a10, 0, 21, 11),
{
}

/// Values computed by the terms of the 11-bit kernel are the 32 fields of
/// 11 bits in `words`.
proof fn lemma_fields_11_bit(words: Seq<u32>, out: Seq<u32>)
    requires
        words.len() >= 11,
        out.len() >= 32,
        out[0] == (words[0] >> 0) & 0x7FF,
        out[1] == (words[0] >> 11) & 0x7FF,
        out[2] == ((words[0] >> 22) & 0x3FF) | ((words[1] & 0x1) << 10),
        out[3] == (words[1] >> 1) & 0x7FF,
        out[4] == (words[1] >> 12) & 0x7FF,
        out[5] == ((words[1] >> 23) & 0x1FF) | ((words[2] & 0x3) << 9),
        out[6] == (words[2] >> 2) & 0x7FF,
        out[7] == (words[2] >> 13) & 0x7FF,
        out[8] == ((words[2] >> 24) & 0xFF) | ((words[3] & 0x7) << 8),
        out[9] == (words[3] >> 3) & 0x7FF,
        out[10] == (words[3] >> 14) & 0x7FF,
        out[11] == ((words[3] >> 25) & 0x7F) | ((words[4] & 0xF) << 7),
        out[12] == (words[4] >> 4) & 0x7FF,
        out[13] == (words[4] >> 15) & 0x7FF,
        out[14] == ((words[4] >> 26) & 0x3F) | ((words[5] & 0x1F) << 6),
        out[15] == (words[5] >> 5) & 0x7FF,
        out[16] == (words[5] >> 16) & 0x7FF,
        out[17] == ((words[5] >> 27) & 0x1F) | ((words[6] & 0x3F) << 5),
        out[18] == (words[6] >> 6) & 0x7FF,
        out[19] == (words[6] >> 17) & 0x7FF,
        out[20] == ((words[6] >> 28) & 0xF) | ((words[7] & 0x7F) << 4),
        out[21] == (words[7] >> 7) & 0x7FF,
        out[22] == (words[7] >> 18) & 0x7FF,
        out[23] == ((words[7] >> 29) & 0x7) | ((words[8] & 0xFF) << 3),
        out[24] == (words[8] >> 8) & 0x7FF,
        out[25] == (words[8] >> 19) & 0x7FF,
        out[26] == ((words[8] >> 30) & 0x3) | ((words[9] & 0x1FF) << 2),
        out[27] == (words[9] >> 9) & 0x7FF,
        out[28] == (words[9] >> 20) & 0x7FF,
        out[29] == ((words[9] >> 31) & 0x1) | ((words[10] & 0x3FF) << 1),
        out[30] == (words[10] >> 10) & 0x7FF,
        out[31] == (words[10] >> 21) & 0x7FF,
    ensures
        forall|i: int| 0 <= i < 32 ==> out[i] == stored_field(words, 11, i as nat),
{
    lemma_terms_11_bit(words[0], words[1], words[2], words[3], words[4], words[5], words[6], words[7], words[8], words[9], words[10]);
    lemma_windows_are_fields(words, 11, out);
}

/// Unpacks 32 values of 11 bits each from the first 11 words of `src` into
/// the first 32 places of `dst`.
pub fn decompress_11_bit(src: &[u32], dst: &mut [u32])
    requires
        src@.len() >= 11,
        old(dst)@.len() >= 32,
    ensures
        final(dst)@.len() == old(dst)@.len(),
        forall|i: int| 0 <= i < 32 ==> final(dst)@[i] == stored_field(src@, 11, i as nat),
        forall|i: int| 32 <= i < old(dst)@.len() ==> final(dst)@[i] == old(dst)@[i],
{
    // Word 0: bits 0-31
    dst[0] = (src[0] >> 0) & 0x7FF;
    dst[1] = (src[0] >> 11) & 0x7FF;

    // Value 2 spans words 0-1
    dst[2] = ((src[0] >> 22) & 0x3FF) | ((src[1] & 0x1) << 10);

    // Word 1: bits 32-63
    dst[3] = (src[1] >> 1) & 0x7FF;
    dst[4] = (src[1] >> 12) & 0x7FF;

    // Value 5 spans words 1-2
    dst[5] = ((src[1] >> 23) & 0x1FF) | ((src[2] & 0x3) << 9);

    // Word 2: bits 64-95
    dst[6] = (src[2] >> 2) & 0x7FF;
    dst[7] = (src[2] >> 13) & 0x7FF;

    // Value 8 spans words 2-3
    dst[8] = ((src[2] >> 24) & 0xFF) | ((src[3] & 0x7) << 8);

    // Word 3: bits 96-127
    dst[9] = (src[3] >> 3) & 0x7FF;
    dst[10] = (src[3] >> 14) & 0x7FF;

    // Value 11 spans words 3-4
    dst[11] = ((src[3] >> 25) & 0x7F) | ((src[4] & 0xF) << 7);

    // Word 4: bits 128-159
    dst[12] = (src[4] >> 4) & 0x7FF;
    dst[13] = (src[4] >> 15) & 0x7FF;

    // Value 14 spans words 4-5
    dst[14] = ((src[4] >> 26) & 0x3F) | ((src[5] & 0x1F) << 6);

    // Word 5: bits 160-191
    dst[15] = (src[5] >> 5) & 0x7FF;
    dst[16] = (src[5] >> 16) & 0x7FF;

    // Value 17 spans words 5-6
    dst[17] = ((src[5] >> 27) & 0x1F) | ((src[6] & 0x3F) << 5);

    // Word 6: bits 192-223
    dst[18] = (src[6] >> 6) & 0x7FF;
    dst[19] = (src[6] >> 17) & 0x7FF;

    // Value 20 spans words 6-7
    dst[20] = ((src[6] >> 28) & 0xF) | ((src[7] & 0x7F) << 4);

    // Word 7: bits 224-255
    dst[21] = (src[7] >> 7) & 0x7FF;
    dst[22] = (src[7] >> 18) & 0x7FF;

    // Value 23 spans words 7-8
    dst[23] = ((src[7] >> 29) & 0x7) | ((src[8] & 0xFF) << 3);

    // Word 8: bits 256-287
    dst[24] = (src[8] >> 8) & 0x7FF;
    dst[25] = (src[8] >> 19) & 0x7FF;

    // Value 26 spans words 8-9
    dst[26] = ((src[8] >> 30) & 0x3) | ((src[9] & 0x1FF) << 2);

    // Word 9: bits 288-319
    dst[27] = (src[9] >> 9) & 0x7FF;
    dst[28] = (src[9] >> 20) & 0x7FF;

    // Value 29 spans words 9-10
    dst[29] = ((src[9] >> 31) & 0x1) | ((src[10] & 0x3FF) << 1);

    // Word 10: bits 320-351
    dst[30] = (src[10] >> 10) & 0x7FF;
    dst[31] = (src[10] >> 21) & 0x7FF;
    proof {
        lemma_fields_11_bit(src@, dst@);
    }
}

/// Each term of the 12-bit kernel is the window at its place, decided on bit
/// vectors.
proof fn lemma_terms_12_bit(a0: u32, a1: u32, a2: u32, a3: u32, a4: u32, a5: u32, a6: u32, a7: u32, a8: u32, a9: u32, a10: u32, a11: u32)
    by (bit_vector)
    ensures
        (a0 >> 0) & 0xFFF == window(a0, 0, 0, 12),
        (a0 >> 12) & 0xFFF == window(a0, 0, 12, 12),
        ((a0 >> 24) & 0xFF) | ((a1 & 0xF) << 8) == window(a0, a1, 24, 12),
        (a1 >> 4) & 0xFFF == window(a1, 0, 4, 12),
        (a1 >> 16) & 0xFFF == window(a1, 0, 16, 12),
        ((a1 >> 28) & 0xF) | ((a2 & 0xFF) << 4) == window(a1, a2, 28, 12),
        (a2 >> 8) & 0xFFF == window(a2, 0, 8, 12),
        (a2 >> 20) & 0xFFF == window(a2, 0, 20, 12),
        (a3 >> 0) & 0xFFF == window(a3, 0, 0, 12),
        (a3 >> 12) & 0xFFF == window(a3, 0, 12, 12),
        ((a3 >> 24) & 0xFF) | ((a4 & 0xF) << 8) == window(a3, a4, 24, 12),
        (a4 >> 4) & 0xFFF == window(a4, 0, 4, 12),
        (a4 >> 16) & 0xFFF == window(a4, 0, 16, 12),
        ((a4 >> 28) & 0xF) | ((a5 & 0xFF) << 4) == window(a4, a5, 28, 12),
        (a5 >> 8) & 0xFFF == window(a5, 0, 8, 12),
        (a5 >> 20) & 0xFFF == window(a5, 0, 20, 12),
        (a6 >> 0) & 0xFFF == window(a6, 0, 0, 12),
        (a6 >> 12) & 0xFFF == window(a6, 0, 12, 12),
        ((a6 >> 24) & 0xFF) | ((a7 & 0xF) << 8) == window(a6, a7, 24, 12),
        (a7 >> 4) & 0xFFF == window(a7, 0, 4, 12),
        (a7 >> 16) & 0xFFF == window(a7, 0, 16, 12),
        ((a7 >> 28) & 0xF) | ((a8 & 0xFF) << 4) == window(a7, a8, 28, 12),
        (a8 >> 8) & 0xFFF == window(a8, 0, 8, 12),
        (a8 >> 20) & 0xFFF == window(a8, 0, 20, 12),
        (a9 >> 0) & 0xFFF == window(a9, 0, 0, 12),
        (a9 >> 12) & 0xFFF == window(a9, 0, 12, 12),
        ((a9 >> 24) & 0xFF) | ((a10 & 0xF) << 8) == window(a9, a10, 24, 12),
        (a10 >> 4) & 0xFFF == window(a10, 0, 4, 12),
        (a10 >> 16) & 0xFFF == window(a10, 0, 16, 12),
        ((a10 >> 28) & 0xF) | ((a11 & 0xFF) << 4) == window(a10, a11, 28, 12),
        (a11 >> 8) & 0xFFF == window(a11, 0, 8, 12),
        (a11 >> 20) & 0xFFF == window(a11, 0, 20, 12),
{
}

/// Values computed by the terms of the 12-bit kernel are the 32 fields of
/// 12 bits in `words`.
proof fn lemma_fields_12_bit(words: Seq<u32>, out: Seq<u32>)
    requires
        words.len() >= 12,
        out.len() >= 32,
        out[0] == (words[0] >> 0) & 0xFFF,
        out[1] == (words[0] >> 12) & 0xFFF,
        out[2] == ((words[0] >> 24) & 0xFF) | ((words[1] & 0xF) << 8),
        out[3] == (words[1] >> 4) & 0xFFF,
        out[4] == (words[1] >> 16) & 0xFFF,
        out[5] == ((words[1] >> 28) & 0xF) | ((words[2] & 0xFF) << 4),
        out[6] == (words[2] >> 8) & 0xFFF,
        out[7] == (words[2] >> 20) & 0xFFF,
        out[8] == (words[3] >> 0) & 0xFFF,
        out[9] == (words[3] >> 12) & 0xFFF,
        out[10] == ((words[3] >> 24) & 0xFF) | ((words[4] & 0xF) << 8),
        out[11] == (words[4] >> 4) & 0xFFF,
        out[12] == (words[4] >> 16) & 0xFFF,
        out[13] == ((words[4] >> 28) & 0xF) | ((words[5] & 0xFF) << 4),
        out[14] == (words[5] >> 8) & 0xFFF,
        out[15] == (words[5] >> 20) & 0xFFF,
        out[16] == (words[6] >> 0) & 0xFFF,
        out[17] == (words[6] >> 12) & 0xFFF,
        out[18] == ((words[6] >> 24) & 0xFF) | ((words[7] & 0xF) << 8),
        out[19] == (words[7] >> 4) & 0xFFF,
        out[20] == (words[7] >> 16) & 0xFFF,
        out[21] == ((words[7] >> 28) & 0xF) | ((words[8] & 0xFF) << 4),
        out[22] == (words[8] >> 8) & 0xFFF,
        out[23] == (words[8] >> 20) & 0xFFF,
        out[24] == (words[9] >> 0) & 0xFFF,
        out[25] == (words[9] >> 12) & 0xFFF,
        out[26] == ((words[9] >> 24) & 0xFF) | ((words[10] & 0xF) << 8),
        out[27] == (words[10] >> 4) & 0xFFF,
        out[28] == (words[10] >> 16) & 0xFFF,
        out[29] == ((words[10] >> 28) & 0xF) | ((words[11] & 0xFF) << 4),
        out[30] == (words[11] >> 8) & 0xFFF,
        out[31] == (words[11] >> 20) & 0xFFF,
    ensures
        forall|i: int| 0 <= i < 32 ==> out[i] == stored_field(words, 12, i as nat),
{
    lemma_terms_12_bit(words[0], words[1], words[2], words[3], words[4], words[5], words[6], words[7], words[8], words[9], words[10], words[11]);
    lemma_windows_are_fields(words, 12, out);
}

/// Unpacks 32 values of 12 bits each from the first 12 words of `src` into
/// the first 32 places of `dst`.
pub fn decompress_12_bit(src: &[u32], dst: &mut [u32])
    requires
        src@.len() >= 12,
        old(dst)@.len() >= 32,
    ensures
        final(dst)@.len() == old(dst)@.len(),
        forall|i: int| 0 <= i < 32 ==> final(dst)@[i] == stored_field(src@, 12, i as nat),
        forall|i: int| 32 <= i < old(dst)@.len() ==> final(dst)@[i] == old(dst)@[i],
{
    // Word 0: bits 0-31
    dst[0] = (src[0] >> 0) & 0xFFF;
    dst[1] = (src[0] >> 12) & 0xFFF;

    // Value 2 spans words 0-1
    dst[2] = ((src[0] >> 24) & 0xFF) | ((src[1] & 0xF) << 8);

    // Word 1: bits 32-63
    dst[3] = (src[1] >> 4) & 0xFFF;
    dst[4] = (src[1] >> 16) & 0xFFF;

    // Value 5 spans words 1-2
    dst[5] = ((src[1] >> 28) & 0xF) | ((src[2] & 0xFF) << 4);

    // Word 2: bits 64-95
    dst[6] = (src[2] >> 8) & 0xFFF;
    dst[7] = (src[2] >> 20) & 0xFFF;

    // Word 3: bits 96-127
    dst[8] = (src[3] >> 0) & 0xFFF;
    dst[9] = (src[3] >> 12) & 0xFFF;

    // Value 10 spans words 3-4
    dst[10] = ((src[3] >> 24) & 0xFF) | ((src[4] & 0xF) << 8);

    // Word 4: bits 128-159
    dst[11] = (src[4] >> 4) & 0xFFF;
    dst[12] = (src[4] >> 16) & 0xFFF;

    // Value 13 spans words 4-5
    dst[13] = ((src[4] >> 28) & 0xF) | ((src[5] & 0xFF) << 4);

    // Word 5: bits 160-191
    dst[14] = (src[5] >> 8) & 0xFFF;
    dst[15] = (src[5] >> 20) & 0xFFF;

    // Word 6: bits 192-223
    dst[16] = (src[6] >> 0) & 0xFFF;
    dst[17] = (src[6] >> 12) & 0xFFF;

    // Value 18 spans words 6-7
    dst[18] = ((src[6] >> 24) & 0xFF) | ((src[7] & 0xF) << 8);

    // Word 7: bits 224-255
    dst[19] = (src[7] >> 4) & 0xFFF;
    dst[20] = (src[7] >> 16) & 0xFFF;

    // Value 21 spans words 7-8
    dst[21] = ((src[7] >> 28) & 0xF) | ((src[8] & 0xFF) << 4);

    // Word 8: bits 256-287
    dst[22] = (src[8] >> 8) & 0xFFF;
    dst[23] = (src[8] >> 20) & 0xFFF;

    // Word 9: bits 288-319
    dst[24] = (src[9] >> 0) & 0xFFF;
    dst[25] = (src[9] >> 12) & 0xFFF;

    // Value 26 spans words 9-10
    dst[26] = ((src[9] >> 24) & 0xFF) | ((src[10] & 0xF) << 8);

    // Word 10: bits 320-351
    dst[27] = (src[10] >> 4) & 0xFFF;
    dst[28] = (src[10] >> 16) & 0xFFF;

    // Value 29 spans words 10-11
    dst[29] = ((src[10] >> 28) & 0xF) | ((src[11] & 0xFF) << 4);

    // Word 11: bits 352-383
    dst[30] = (src[11] >> 8) & 0xFFF;
    dst[31] = (src[11] >> 20) & 0xFFF;
    proof {
        lemma_fields_12_bit(src@, dst@);
    }
}

/// Each term of the 13-bit kernel is the window at its place, decided on bit
/// vectors.
proof fn lemma_terms_13_bit(a0: u32, a1: u32, a2: u32, a3: u32, a4: u32, a5: u32, a6: u32, a7: u32, a8: u32, a9: u32, a10: u32, a11: u32, a12: u32)
    by (bit_vector)
    ensures
        (a0 >> 0) & 0x1FFF == window(a0, 0, 0, 13),
        (a0 >> 13) & 0x1FFF == window(a0, 0, 13, 13),
        ((a0 >> 26) & 0x3F) | ((a1 & 0x7F) << 6) == window(a0, a1, 26, 13),
        (a1 >> 7) & 0x1FFF == window(a1, 0, 7, 13),
        ((a1 >> 20) & 0xFFF) | ((a2 & 0x1) << 12) == window(a1, a2, 20, 13),
        (a2 >> 1) & 0x1FFF == window(a2, 0, 1, 13),
        (a2 >> 14) & 0x1FFF == window(a2, 0, 14, 13),
        ((a2 >> 27) & 0x1F) | ((a3 & 0xFF) << 5) == window(a2, a3, 27, 13),
        (a3 >> 8) & 0x1FFF == window(a3, 0, 8, 13),
        ((a3 >> 21) & 0x7FF) | ((a4 & 0x3) << 11) == window(a3, a4, 21, 13),
        (a4 >> 2) & 0x1FFF == window(a4, 0, 2, 13),
        (a4 >> 15) & 0x1FFF == window(a4, 0, 15, 13),
        ((a4 >> 28) & 0xF) | ((a5 & 0x1FF) << 4) == window(a4, a5, 28, 13),
        (a5 >> 9) & 0x1FFF == window(a5, 0, 9, 13),
        ((a5 >> 22) & 0x3FF) | ((a6 & 0x7) << 10) == window(a5, a6, 22, 13),
        (a6 >> 3) & 0x1FFF == window(a6, 0, 3, 13),
        (a6 >> 16) & 0x1FFF == window(a6, 0, 16, 13),
        ((a6 >> 29) & 0x7) | ((a7 & 0x3FF) << 3) == window(a6, a7, 29, 13),
        (a7 >> 10) & 0x1FFF == window(a7, 0, 10, 13),
        ((a7 >> 23) & 0x1FF) | ((a8 & 0xF) << 9) == window(a7, a8, 23, 13),
        (a8 >> 4) & 0x1FFF == window(a8, 0, 4, 13),
        (a8 >> 17) & 0x1FFF == window(a8, 0, 17, 13),
        ((a8 >> 30) & 0x3) | ((a9 & 0x7FF) << 2) == window(a8, a9, 30, 13),
        (a9 >> 11) & 0x1FFF == window(a9, 0, 11, 13),
        ((a9 >> 24) & 0xFF) | ((a10 & 0x1F) << 8) == window(a9, a10, 24, 13),
        (a10 >> 5) & 0x1FFF == window(a10, 0, 5, 13),
        (a10 >> 18) & 0x1FFF == window(a10, 0, 18, 13),
        ((a10 >> 31) & 0x1) | ((a11 & 0xFFF) << 1) == window(a10, a11, 31, 13),
        (a11 >> 12) & 0x1FFF == window(a11, 0, 12, 13),
        ((a11 >> 25) & 0x7F) | ((a12 & 0x3F) << 7) == window(a11, a12, 25, 13),
        (a12 >> 6) & 0x1FFF == window(a12, 0, 6, 13),
        (a12 >> 19) & 0x1FFF == window(a12, 0, 19, 13),
{
}

/// Values computed by the terms of the 13-bit kernel are the 32 fields of
/// 13 bits in `words`.
proof fn lemma_fields_13_bit(words: Seq<u32>, out: Seq<u32>)
    requires
        words.len() >= 13,
        out.len() >= 32,
        out[0] == (words[0] >> 0) & 0x1FFF,
        out[1] == (words[0] >> 13) & 0x1FFF,
        out[2] == ((words[0] >> 26) & 0x3F) | ((words[1] & 0x7F) << 6),
        out[3] == (words[1] >> 7) & 0x1FFF,
        out[4] == ((words[1] >> 20) & 0xFFF) | ((words[2] & 0x1) << 12),
        out[5] == (words[2] >> 1) & 0x1FFF,
        out[6] == (words[2] >> 14) & 0x1FFF,
        out[7] == ((words[2] >> 27) & 0x1F) | ((words[3] & 0xFF) << 5),
        out[8] == (words[3] >> 8) & 0x1FFF,
        out[9] == ((words[3] >> 21) & 0x7FF) | ((words[4] & 0x3) << 11),
        out[10] == (words[4] >> 2) & 0x1FFF,
        out[11] == (words[4] >> 15) & 0x1FFF,
        out[12] == ((words[4] >> 28) & 0xF) | ((words[5] & 0x1FF) << 4),
        out[13] == (words[5] >> 9) & 0x1FFF,
        out[14] == ((words[5] >> 22) & 0x3FF) | ((words[6] & 0x7) << 10),
        out[15] == (words[6] >> 3) & 0x1FFF,
        out[16] == (words[6] >> 16) & 0x1FFF,
        out[17] == ((words[6] >> 29) & 0x7) | ((words[7] & 0x3FF) << 3),
        out[18] == (words[7] >> 10) & 0x1FFF,
        out[19] == ((words[7] >> 23) & 0x1FF) | ((words[8] & 0xF) << 9),
        out[20] == (words[8] >> 4) & 0x1FFF,
        out[21] == (words[8] >> 17) & 0x1FFF,
        out[22] == ((words[8] >> 30) & 0x3) | ((words[9] & 0x7FF) << 2),
        out[23] == (words[9] >> 11) & 0x1FFF,
        out[24] == ((words[9] >> 24) & 0xFF) | ((words[10] & 0x1F) << 8),
        out[25] == (words[10] >> 5) & 0x1FFF,
        out[26] == (words[10] >> 18) & 0x1FFF,
        out[27] == ((words[10] >> 31) & 0x1) | ((words[11] & 0xFFF) << 1),
        out[28] == (words[11] >> 12) & 0x1FFF,
        out[29] == ((words[11] >> 25) & 0x7F) | ((words[12] & 0x3F) << 7),
        out[30] == (words[12] >> 6) & 0x1FFF,
        out[31] == (words[12] >> 19) & 0x1FFF,
    ensures
        forall|i: int| 0 <= i < 32 ==> out[i] == stored_field(words, 13, i as nat),
{
    lemma_terms_13_bit(words[0], words[1], words[2], words[3], words[4], words[5], words[6], words[7], words[8], words[9], words[10], words[11], words[12]);
    lemma_windows_are_fields(words, 13, out);
}

/// Unpacks 32 values of 13 bits each from the first 13 words of `src` into
/// the first 32 places of `dst`.
pub fn decompress_13_bit(src: &[u32], dst: &mut [u32])
    requires
        src@.len() >= 13,
        old(dst)@.len() >= 32,
    ensures
        final(dst)@.len() == old(dst)@.len(),
        forall|i: int| 0 <= i < 32 ==> final(dst)@[i] == stored_field(src@, 13, i as nat),
        forall|i: int| 32 <= i < old(dst)@.len() ==> final(dst)@[i] == old(dst)@[i],
{
    // Word 0: bits 0-31
    dst[0] = (src[0] >> 0) & 0x1FFF;
    dst[1] = (src[0] >> 13) & 0x1FFF;

    // Value 2 spans words 0-1
    dst[2] = ((src[0] >> 26) & 0x3F) | ((src[1] & 0x7F) << 6);

    // Word 1: bits 32-63
    dst[3] = (src[1] >> 7) & 0x1FFF;

    // Value 4 spans words 1-2
    dst[4] = ((src[1] >> 20) & 0xFFF) | ((src[2] & 0x1) << 12);

    // Word 2: bits 64-95
    dst[5] = (src[2] >> 1) & 0x1FFF;
    dst[6] = (src[2] >> 14) & 0x1FFF;

    // Value 7 spans words 2-3
    dst[7] = ((src[2] >> 27) & 0x1F) | ((src[3] & 0xFF) << 5);

    // Word 3: bits 96-127
    dst[8] = (src[3] >> 8) & 0x1FFF;

    // Value 9 spans words 3-4
    dst[9] = ((src[3] >> 21) & 0x7FF) | ((src[4] & 0x3) << 11);

    // Word 4: bits 128-159
    dst[10] = (src[4] >> 2) & 0x1FFF;
    dst[11] = (src[4] >> 15) & 0x1FFF;

    // Value 12 spans words 4-5
    dst[12] = ((src[4] >> 28) & 0xF) | ((src[5] & 0x1FF) << 4);

    // Word 5: bits 160-191
    dst[13] = (src[5] >> 9) & 0x1FFF;

    // Value 14 spans words 5-6
    dst[14] = ((src[5] >> 22) & 0x3FF) | ((src[6] & 0x7) << 10);

    // Word 6: bits 192-223
    dst[15] = (src[6] >> 3) & 0x1FFF;
    dst[16] = (src[6] >> 16) & 0x1FFF;

    // Value 17 spans words 6-7
    dst[17] = ((src[6] >> 29) & 0x7) | ((src[7] & 0x3FF) << 3);

    // Word 7: bits 224-255
    dst[18] = (src[7] >> 10) & 0x1FFF;

    // Value 19 spans words 7-8
    dst[19] = ((src[7] >> 23) & 0x1FF) | ((src[8] & 0xF) << 9);

    // Word 8: bits 256-287
    dst[20] = (src[8] >> 4) & 0x1FFF;
    dst[21] = (src[8] >> 17) & 0x1FFF;

    // Value 22 spans words 8-9
    dst[22] = ((src[8] >> 30) & 0x3) | ((src[9] & 0x7FF) << 2);

    // Word 9: bits 288-319
    dst[23] = (src[9] >> 11) & 0x1FFF;

    // Value 24 spans words 9-10
    dst[24] = ((src[9] >> 24) & 0xFF) | ((src[10] & 0x1F) << 8);

    // Word 10: bits 320-351
    dst[25] = (src[10] >> 5) & 0x1FFF;
    dst[26] = (src[10] >> 18) & 0x1FFF;

    // Value 27 spans words 10-11
    dst[27] = ((src[10] >> 31) & 0x1) | ((src[11] & 0xFFF) << 1);

    // Word 11: bits 352-383
    dst[28] = (src[11] >> 12) & 0x1FFF;

    // Value 29 spans words 11-12
    dst[29] = ((src[11] >> 25) & 0x7F) | ((src[12] & 0x3F) << 7);

    // Word 12: bits 384-415
    dst[30] = (src[12] >> 6) & 0x1FFF;
    dst[31] = (src[12] >> 19) & 0x1FFF;
    proof {
        lemma_fields_13_bit(src@, dst@);
    }
}

/// Each term of the 14-bit kernel is the window at its place, decided on bit
/// vectors.
proof fn lemma_terms_14_bit(a0: u32, a1: u32, a2: u32, a3: u32, a4: u32, a5: u32, a6: u32, a7: u32, a8: u32, a9: u32, a10: u32, a11: u32, a12: u32, a13: u32)
    by (bit_vector)
    ensures
        (a0 >> 0) & 0x3FFF == window(a0, 0, 0, 14),
        (a0 >> 14) & 0x3FFF == window(a0, 0, 14, 14),
        ((a0 >> 28) & 0xF) | ((a1 & 0x3FF) << 4) == window(a0, a1, 28, 14),
        (a1 >> 10) & 0x3FFF == window(a1, 0, 10, 14),
        ((a1 >> 24) & 0xFF) | ((a2 & 0x3F) << 8) == window(a1, a2, 24, 14),
        (a2 >> 6) & 0x3FFF == window(a2, 0, 6, 14),
        ((a2 >> 20) & 0xFFF) | ((a3 & 0x3) << 12) == window(a2, a3, 20, 14),
        (a3 >> 2) & 0x3FFF == window(a3, 0, 2, 14),
        (a3 >> 16) & 0x3FFF == window(a3, 0, 16, 14),
        ((a3 >> 30) & 0x3) | ((a4 & 0xFFF) << 2) == window(a3, a4, 30, 14),
        (a4 >> 12) & 0x3FFF == window(a4, 0, 12, 14),
        ((a4 >> 26) & 0x3F) | ((a5 & 0xFF) << 6) == window(a4, a5, 26, 14),
        (a5 >> 8) & 0x3FFF == window(a5, 0, 8, 14),
        ((a5 >> 22) & 0x3FF) | ((a6 & 0xF) << 10) == window(a5, a6, 22, 14),
        (a6 >> 4) & 0x3FFF == window(a6, 0, 4, 14),
        (a6 >> 18) & 0x3FFF == window(a6, 0, 18, 14),
        (a7 >> 0) & 0x3FFF == window(a7, 0, 0, 14),
        (a7 >> 14) & 0x3FFF == window(a7, 0, 14, 14),
        ((a7 >> 28) & 0xF) | ((a8 & 0x3FF) << 4) == window(a7, a8, 28, 14),
        (a8 >> 10) & 0x3FFF == window(a8, 0, 10, 14),
        ((a8 >> 24) & 0xFF) | ((a9 & 0x3F) << 8) == window(a8, a9, 24, 14),
        (a9 >> 6) & 0x3FFF == window(a9, 0, 6, 14),
        ((a9 >> 20) & 0xFFF) | ((a10 & 0x3) << 12) == window(a9, a10, 20, 14),
        (a10 >> 2) & 0x3FFF == window(a10, 0, 2, 14),
        (a10 >> 16) & 0x3FFF == window(a10, 0, 16, 14),
        ((a10 >> 30) & 0x3) | ((a11 & 0xFFF) << 2) == window(a10, a11, 30, 14),
        (a11 >> 12) & 0x3FFF == window(a11, 0, 12, 14),
        ((a11 >> 26) & 0x3F) | ((a12 & 0xFF) << 6) == window(a11, a12, 26, 14),
        (a12 >> 8) & 0x3FFF == window(a12, 0, 8, 14),
        ((a12 >> 22) & 0x3FF) | ((a13 & 0xF) << 10) == window(a12, a13, 22, 14),
        (a13 >> 4) & 0x3FFF == window(a13, 0, 4, 14),
        (a13 >> 18) & 0x3FFF == window(a13, 0, 18, 14),
{
}

/// Values computed by the terms of the 14-bit kernel are the 32 fields of
/// 14 bits in `words`.
proof fn lemma_fields_14_bit(words: Seq<u32>, out: Seq<u32>)
    requires
        words.len() >= 14,
        out.len() >= 32,
        out[0] == (words[0] >> 0) & 0x3FFF,
        out[1] == (words[0] >> 14) & 0x3FFF,
        out[2] == ((words[0] >> 28) & 0xF) | ((words[1] & 0x3FF) << 4),
        out[3] == (words[1] >> 10) & 0x3FFF,
        out[4] == ((words[1] >> 24) & 0xFF) | ((words[2] & 0x3F) << 8),
        out[5] == (words[2] >> 6) & 0x3FFF,
        out[6] == ((words[2] >> 20) & 0xFFF) | ((words[3] & 0x3) << 12),
        out[7] == (words[3] >> 2) & 0x3FFF,
        out[8] == (words[3] >> 16) & 0x3FFF,
        out[9] == ((words[3] >> 30) & 0x3) | ((words[4] & 0xFFF) << 2),
        out[10] == (words[4] >> 12) & 0x3FFF,
        out[11] == ((words[4] >> 26) & 0x3F) | ((words[5] & 0xFF) << 6),
        out[12] == (words[5] >> 8) & 0x3FFF,
        out[13] == ((words[5] >> 22) & 0x3FF) | ((words[6] & 0xF) << 10),
        out[14] == (words[6] >> 4) & 0x3FFF,
        out[15] == (words[6] >> 18) & 0x3FFF,
        out[16] == (words[7] >> 0) & 0x3FFF,
        out[17] == (words[7] >> 14) & 0x3FFF,
        out[18] == ((words[7] >> 28) & 0xF) | ((words[8] & 0x3FF) << 4),
        out[19] == (words[8] >> 10) & 0x3FFF,
        out[20] == ((words[8] >> 24) & 0xFF) | ((words[9] & 0x3F) << 8),
        out[21] == (words[9] >> 6) & 0x3FFF,
        out[22] == ((words[9] >> 20) & 0xFFF) | ((words[10] & 0x3) << 12),
        out[23] == (words[10] >> 2) & 0x3FFF,
        out[24] == (words[10] >> 16) & 0x3FFF,
        out[25] == ((words[10] >> 30) & 0x3) | ((words[11] & 0xFFF) << 2),
        out[26] == (words[11] >> 12) & 0x3FFF,
        out[27] == ((words[11] >> 26) & 0x3F) | ((words[12] & 0xFF) << 6),
        out[28] == (words[12] >> 8) & 0x3FFF,
        out[29] == ((words[12] >> 22) & 0x3FF) | ((words[13] & 0xF) << 10),
        out[30] == (words[13] >> 4) & 0x3FFF,
        out[31] == (words[13] >> 18) & 0x3FFF,
    ensures
        forall|i: int| 0 <= i < 32 ==> out[i] == stored_field(words, 14, i as nat),
{
    lemma_terms_14_bit(words[0], words[1], words[2], words[3], words[4], words[5], words[6], words[7], words[8], words[9], words[10], words[11], words[12], words[13]);
    lemma_windows_are_fields(words, 14, out);
}

/// Unpacks 32 values of 14 bits each from the first 14 words of `src` into
/// the first 32 places of `dst`.
pub fn decompress_14_bit(src: &[u32], dst: &mut [u32])
    requires
        src@.len() >= 14,
        old(dst)@.len() >= 32,
    ensures
        final(dst)@.len() == old(dst)@.len(),
        forall|i: int| 0 <= i < 32 ==> final(dst)@[i] == stored_field(src@, 14, i as nat),
        forall|i: int| 32 <= i < old(dst)@.len() ==> final(dst)@[i] == old(dst)@[i],
{
    // Word 0: bits 0-31
    dst[0] = (src[0] >> 0) & 0x3FFF;
    dst[1] = (src[0] >> 14) & 0x3FFF;

    // Value 2 spans words 0-1
    dst[2] = ((src[0] >> 28) & 0xF) | ((src[1] & 0x3FF) << 4);

    // Word 1: bits 32-63
    dst[3] = (src[1] >> 10) & 0x3FFF;

    // Value 4 spans words 1-2
    dst[4] = ((src[1] >> 24) & 0xFF) | ((src[2] & 0x3F) << 8);

    // Word 2: bits 64-95
    dst[5] = (src[2] >> 6) & 0x3FFF;

    // Value 6 spans words 2-3
    dst[6] = ((src[2] >> 20) & 0xFFF) | ((src[3] & 0x3) << 12);

    // Word 3: bits 96-127
    dst[7] = (src[3] >> 2) & 0x3FFF;
    dst[8] = (src[3] >> 16) & 0x3FFF;

    // Value 9 spans words 3-4
    dst[9] = ((src[3] >> 30) & 0x3) | ((src[4] & 0xFFF) << 2);

    // Word 4: bits 128-159
    dst[10] = (src[4] >> 12) & 0x3FFF;

    // Value 11 spans words 4-5
    dst[11] = ((src[4] >> 26) & 0x3F) | ((src[5] & 0xFF) << 6);

    // Word 5: bits 160-191
    dst[12] = (src[5] >> 8) & 0x3FFF;

    // Value 13 spans words 5-6
    dst[13] = ((src[5] >> 22) & 0x3FF) | ((src[6] & 0xF) << 10);

    // Word 6: bits 192-223
    dst[14] = (src[6] >> 4) & 0x3FFF;
    dst[15] = (src[6] >> 18) & 0x3FFF;

    // Word 7: bits 224-255
    dst[16] = (src[7] >> 0) & 0x3FFF;
    dst[17] = (src[7] >> 14) & 0x3FFF;

    // Value 18 spans words 7-8
    dst[18] = ((src[7] >> 28) & 0xF) | ((src[8] & 0x3FF) << 4);

    // Word 8: bits 256-287
    dst[19] = (src[8] >> 10) & 0x3FFF;

    // Value 20 spans words 8-9
    dst[20] = ((src[8] >> 24) & 0xFF) | ((src[9] & 0x3F) << 8);

    // Word 9: bits 288-319
    dst[21] = (src[9] >> 6) & 0x3FFF;

    // Value 22 spans words 9-10
    dst[22] = ((src[9] >> 20) & 0xFFF) | ((src[10] & 0x3) << 12);

    // Word 10: bits 320-351
    dst[23] = (src[10] >> 2) & 0x3FFF;
    dst[24] = (src[10] >> 16) & 0x3FFF;

    // Value 25 spans words 10-11
    dst[25] = ((src[10] >> 30) & 0x3) | ((src[11] & 0xFFF) << 2);

    // Word 11: bits 352-383
    dst[26] = (src[11] >> 12) & 0x3FFF;

    // Value 27 spans words 11-12
    dst[27] = ((src[11] >> 26) & 0x3F) | ((src[12] & 0xFF) << 6);

    // Word 12: bits 384-415
    dst[28] = (src[12] >> 8) & 0x3FFF;

    // Value 29 spans words 12-13
    dst[29] = ((src[12] >> 22) & 0x3FF) | ((src[13] & 0xF) << 10);

    // Word 13: bits 416-447
    dst[30] = (src[13] >> 4) & 0x3FFF;
    dst[31] = (src[13] >> 18) & 0x3FFF;
    proof {
        lemma_fields_14_bit(src@, dst@);
    }
}

/// Each term of the 15-bit kernel is the window at its place, decided on bit
/// vectors.
proof fn lemma_terms_15_bit(a0: u32, a1: u32, a2: u32, a3: u32, a4: u32, a5: u32, a6: u32, a7: u32, a8: u32, a9: u32, a10: u32, a11: u32, a12: u32, a13: u32, a14: u32)
    by (bit_vector)
    ensures
        (a0 >> 0) & 0x7FFF == window(a0, 0, 0, 15),
        (a0 >> 15) & 0x7FFF == window(a0, 0, 15, 15),
        ((a0 >> 30) & 0x3) | ((a1 & 0x1FFF) << 2) == window(a0, a1, 30, 15),
        (a1 >> 13) & 0x7FFF == window(a1, 0, 13, 15),
        ((a1 >> 28) & 0xF) | ((a2 & 0x7FF) << 4) == window(a1, a2, 28, 15),
        (a2 >> 11) & 0x7FFF == window(a2, 0, 11, 15),
        ((a2 >> 26) & 0x3F) | ((a3 & 0x1FF) << 6) == window(a2, a3, 26, 15),
        (a3 >> 9) & 0x7FFF == window(a3, 0, 9, 15),
        ((a3 >> 24) & 0xFF) | ((a4 & 0x7F) << 8) == window(a3, a4, 24, 15),
        (a4 >> 7) & 0x7FFF == window(a4, 0, 7, 15),
        ((a4 >> 22) & 0x3FF) | ((a5 & 0x1F) << 10) == window(a4, a5, 22, 15),
        (a5 >> 5) & 0x7FFF == window(a5, 0, 5, 15),
        ((a5 >> 20) & 0xFFF) | ((a6 & 0x7) << 12) == window(a5, a6, 20, 15),
        (a6 >> 3) & 0x7FFF == window(a6, 0, 3, 15),
        ((a6 >> 18) & 0x3FFF) | ((a7 & 0x1) << 14) == window(a6, a7, 18, 15),
        (a7 >> 1) & 0x7FFF == window(a7, 0, 1, 15),
        (a7 >> 16) & 0x7FFF == window(a7, 0, 16, 15),
        ((a7 >> 31) & 0x1) | ((a8 & 0x3FFF) << 1) == window(a7, a8, 31, 15),
        (a8 >> 14) & 0x7FFF == window(a8, 0, 14, 15),
        ((a8 >> 29) & 0x7) | ((a9 & 0xFFF) << 3) == window(a8, a9, 29, 15),
        (a9 >> 12) & 0x7FFF == window(a9, 0, 12, 15),
        ((a9 >> 27) & 0x1F) | ((a10 & 0x3FF) << 5) == window(a9, a10, 27, 15),
        (a10 >> 10) & 0x7FFF == window(a10, 0, 10, 15),
        ((a10 >> 25) & 0x7F) | ((a11 & 0xFF) << 7) == window(a10, a11, 25, 15),
        (a11 >> 8) & 0x7FFF == window(a11, 0, 8, 15),
        ((a11 >> 23) & 0x1FF) | ((a12 & 0x3F) << 9) == window(a11, a12, 23, 15),
        (a12 >> 6) & 0x7FFF == window(a12, 0, 6, 15),
        ((a12 >> 21) & 0x7FF) | ((a13 & 0xF) << 11) == window(a12, a13, 21, 15),
        (a13 >> 4) & 0x7FFF == window(a13, 0, 4, 15),
        ((a13 >> 19) & 0x1FFF) | ((a14 & 0x3) << 13) == window(a13, a14, 19, 15),
        (a14 >> 2) & 0x7FFF == window(a14, 0, 2, 15),
        (a14 >> 17) & 0x7FFF == window(a14, 0, 17, 15),
{
}

/// Values computed by the terms of the 15-bit kernel are the 32 fields of
/// 15 bits in `words`.
proof fn lemma_fields_15_bit(words: Seq<u32>, out: Seq<u32>)
    requires
        words.len() >= 15,
        out.len() >= 32,
        out[0] == (words[0] >> 0) & 0x7FFF,
        out[1] == (words[0] >> 15) & 0x7FFF,
        out[2] == ((words[0] >> 30) & 0x3) | ((words[1] & 0x1FFF) << 2),
        out[3] == (words[1] >> 13) & 0x7FFF,
        out[4] == ((words[1] >> 28) & 0xF) | ((words[2] & 0x7FF) << 4),
        out[5] == (words[2] >> 11) & 0x7FFF,
        out[6] == ((words[2] >> 26) & 0x3F) | ((words[3] & 0x1FF) << 6),
        out[7] == (words[3] >> 9) & 0x7FFF,
        out[8] == ((words[3] >> 24) & 0xFF) | ((words[4] & 0x7F) << 8),
        out[9] == (words[4] >> 7) & 0x7FFF,
        out[10] == ((words[4] >> 22) & 0x3FF) | ((words[5] & 0x1F) << 10),
        out[11] == (words[5] >> 5) & 0x7FFF,
        out[12] == ((words[5] >> 20) & 0xFFF) | ((words[6] & 0x7) << 12),
        out[13] == (words[6] >> 3) & 0x7FFF,
        out[14] == ((words[6] >> 18) & 0x3FFF) | ((words[7] & 0x1) << 14),
        out[15] == (words[7] >> 1) & 0x7FFF,
        out[16] == (words[7] >> 16) & 0x7FFF,
        out[17] == ((words[7] >> 31) & 0x1) | ((words[8] & 0x3FFF) << 1),
        out[18] == (words[8] >> 14) & 0x7FFF,
        out[19] == ((words[8] >> 29) & 0x7) | ((words[9] & 0xFFF) << 3),
        out[20] == (words[9] >> 12) & 0x7FFF,
        out[21] == ((words[9] >> 27) & 0x1F) | ((words[10] & 0x3FF) << 5),
        out[22] == (words[10] >> 10) & 0x7FFF,
        out[23] == ((words[10] >> 25) & 0x7F) | ((words[11] & 0xFF) << 7),
        out[24] == (words[11] >> 8) & 0x7FFF,
        out[25] == ((words[11] >> 23) & 0x1FF) | ((words[12] & 0x3F) << 9),
        out[26] == (words[12] >> 6) & 0x7FFF,
        out[27] == ((words[12] >> 21) & 0x7FF) | ((words[13] & 0xF) << 11),
        out[28] == (words[13] >> 4) & 0x7FFF,
        out[29] == ((words[13] >> 19) & 0x1FFF) | ((words[14] & 0x3) << 13),
        out[30] == (words[14] >> 2) & 0x7FFF,
        out[31] == (words[14] >> 17) & 0x7FFF,
    ensures
        forall|i: int| 0 <= i < 32 ==> out[i] == stored_field(words, 15, i as nat),
{
    lemma_terms_15_bit(words[0], words[1], words[2], words[3], words[4], words[5], words[6], words[7], words[8], words[9], words[10], words[11], words[12], words[13], words[14]);
    lemma_windows_are_fields(words, 15, out);
}

/// Unpacks 32 values of 15 bits each from the first 15 words of `src` into
/// the first 32 places of `dst`.
pub fn decompress_15_bit(src: &[u32], dst: &mut [u32])
    requires
        src@.len() >= 15,
        old(dst)@.len() >= 32,
    ensures
        final(dst)@.len() == old(dst)@.len(),
        forall|i: int| 0 <= i < 32 ==> final(dst)@[i] == stored_field(src@, 15, i as nat),
        forall|i: int| 32 <= i < old(dst)@.len() ==> final(dst)@[i] == old(dst)@[i],
{
    // Word 0: bits 0-31
    dst[0] = (src[0] >> 0) & 0x7FFF;
    dst[1] = (src[0] >> 15) & 0x7FFF;

    // Value 2 spans words 0-1
    dst[2] = ((src[0] >> 30) & 0x3) | ((src[1] & 0x1FFF) << 2);

    // Word 1: bits 32-63
    dst[3] = (src[1] >> 13) & 0x7FFF;

    // Value 4 spans words 1-2
    dst[4] = ((src[1] >> 28) & 0xF) | ((src[2] & 0x7FF) << 4);

    // Word 2: bits 64-95
    dst[5] = (src[2] >> 11) & 0x7FFF;

    // Value 6 spans words 2-3
    dst[6] = ((src[2] >> 26) & 0x3F) | ((src[3] & 0x1FF) << 6);

    // Word 3: bits 96-127
    dst[7] = (src[3] >> 9) & 0x7FFF;

    // Value 8 spans words 3-4
    dst[8] = ((src[3] >> 24) & 0xFF) | ((src[4] & 0x7F) << 8);

    // Word 4: bits 128-159
    dst[9] = (src[4] >> 7) & 0x7FFF;

    // Value 10 spans words 4-5
    dst[10] = ((src[4] >> 22) & 0x3FF) | ((src[5] & 0x1F) << 10);

    // Word 5: bits 160-191
    dst[11] = (src[5] >> 5) & 0x7FFF;

    // Value 12 spans words 5-6
    dst[12] = ((src[5] >> 20) & 0xFFF) | ((src[6] & 0x7) << 12);

    // Word 6: bits 192-223
    dst[13] = (src[6] >> 3) & 0x7FFF;

    // Value 14 spans words 6-7
    dst[14] = ((src[6] >> 18) & 0x3FFF) | ((src[7] & 0x1) << 14);

    // Word 7: bits 224-255
    dst[15] = (src[7] >> 1) & 0x7FFF;
    dst[16] = (src[7] >> 16) & 0x7FFF;

    // Value 17 spans words 7-8
    dst[17] = ((src[7] >> 31) & 0x1) | ((src[8] & 0x3FFF) << 1);

    // Word 8: bits 256-287
    dst[18] = (src[8] >> 14) & 0x7FFF;

    // Value 19 spans words 8-9
    dst[19] = ((src[8] >> 29) & 0x7) | ((src[9] & 0xFFF) << 3);

    // Word 9: bits 288-319
    dst[20] = (src[9] >> 12) & 0x7FFF;

    // Value 21 spans words 9-10
    dst[21] = ((src[9] >> 27) & 0x1F) | ((src[10] & 0x3FF) << 5);

    // Word 10: bits 320-351
    dst[22] = (src[10] >> 10) & 0x7FFF;

    // Value 23 spans words 10-11
    dst[23] = ((src[10] >> 25) & 0x7F) | ((src[11] & 0xFF) << 7);

    // Word 11: bits 352-383
    dst[24] = (src[11] >> 8) & 0x7FFF;

    // Value 25 spans words 11-12
    dst[25] = ((src[11] >> 23) & 0x1FF) | ((src[12] & 0x3F) << 9);

    // Word 12: bits 384-415
    dst[26] = (src[12] >> 6) & 0x7FFF;

    // Value 27 spans words 12-13
    dst[27] = ((src[12] >> 21) & 0x7FF) | ((src[13] & 0xF) << 11);

    // Word 13: bits 416-447
    dst[28] = (src[13] >> 4) & 0x7FFF;

    // Value 29 spans words 13-14
    dst[29] = ((src[13] >> 19) & 0x1FFF) | ((src[14] & 0x3) << 13);

    // Word 14: bits 448-479
    dst[30] = (src[14] >> 2) & 0x7FFF;
    dst[31] = (src[14] >> 17) & 0x7FFF;
    proof {
        lemma_fields_15_bit(src@, dst@);
    }
}

/// Each term of the 16-bit kernel is the window at its place, decided on bit
/// vectors.
proof fn lemma_terms_16_bit(a0: u32, a1: u32, a2: u32, a3: u32, a4: u32, a5: u32, a6: u32, a7: u32, a8: u32, a9: u32, a10: u32, a11: u32, a12: u32, a13: u32, a14: u32, a15: u32)
    by (bit_vector)
    ensures
        (a0 >> 0) & 0xFFFF == window(a0, 0, 0, 16),
        (a0 >> 16) & 0xFFFF == window(a0, 0, 16, 16),
        (a1 >> 0) & 0xFFFF == window(a1, 0, 0, 16),
        (a1 >> 16) & 0xFFFF == window(a1, 0, 16, 16),
        (a2 >> 0) & 0xFFFF == window(a2, 0, 0, 16),
        (a2 >> 16) & 0xFFFF == window(a2, 0, 16, 16),
        (a3 >> 0) & 0xFFFF == window(a3, 0, 0, 16),
        (a3 >> 16) & 0xFFFF == window(a3, 0, 16, 16),
        (a4 >> 0) & 0xFFFF == window(a4, 0, 0, 16),
        (a4 >> 16) & 0xFFFF == window(a4, 0, 16, 16),
        (a5 >> 0) & 0xFFFF == window(a5, 0, 0, 16),
        (a5 >> 16) & 0xFFFF == window(a5, 0, 16, 16),
        (a6 >> 0) & 0xFFFF == window(a6, 0, 0, 16),
        (a6 >> 16) & 0xFFFF == window(a6, 0, 16, 16),
        (a7 >> 0) & 0xFFFF == window(a7, 0, 0, 16),
        (a7 >> 16) & 0xFFFF == window(a7, 0, 16, 16),
        (a8 >> 0) & 0xFFFF == window(a8, 0, 0, 16),
        (a8 >> 16) & 0xFFFF == window(a8, 0, 16, 16),
        (a9 >> 0) & 0xFFFF == window(a9, 0, 0, 16),
        (a9 >> 16) & 0xFFFF == window(a9, 0, 16, 16),
        (a10 >> 0) & 0xFFFF == window(a10, 0, 0, 16),
        (a10 >> 16) & 0xFFFF == window(a10, 0, 16, 16),
        (a11 >> 0) & 0xFFFF == window(a11, 0, 0, 16),
        (a11 >> 16) & 0xFFFF == window(a11, 0, 16, 16),
        (a12 >> 0) & 0xFFFF == window(a12, 0, 0, 16),
        (a12 >> 16) & 0xFFFF == window(a12, 0, 16, 16),
        (a13 >> 0) & 0xFFFF == window(a13, 0, 0, 16),
        (a13 >> 16) & 0xFFFF == window(a13, 0, 16, 16),
        (a14 >> 0) & 0xFFFF == window(a14, 0, 0, 16),
        (a14 >> 16) & 0xFFFF == window(a14, 0, 16, 16),
        (a15 >> 0) & 0xFFFF == window(a15, 0, 0, 16),
        (a15 >> 16) & 0xFFFF == window(a15, 0, 16, 16),
{
}

/// Values computed by the terms of the 16-bit kernel are the 32 fields of
/// 16 bits in `words`.
proof fn lemma_fields_16_bit(words: Seq<u32>, out: Seq<u32>)
    requires
        words.len() >= 16,
        out.len() >= 32,
        out[0] == (words[0] >> 0) & 0xFFFF,
        out[1] == (words[0] >> 16) & 0xFFFF,
        out[2] == (words[1] >> 0) & 0xFFFF,
        out[3] == (words[1] >> 16) & 0xFFFF,
        out[4] == (words[2] >> 0) & 0xFFFF,
        out[5] == (words[2] >> 16) & 0xFFFF,
        out[6] == (words[3] >> 0) & 0xFFFF,
        out[7] == (words[3] >> 16) & 0xFFFF,
        out[8] == (words[4] >> 0) & 0xFFFF,
        out[9] == (words[4] >> 16) & 0xFFFF,
        out[10] == (words[5] >> 0) & 0xFFFF,
        out[11] == (words[5] >> 16) & 0xFFFF,
        out[12] == (words[6] >> 0) & 0xFFFF,
        out[13] == (words[6] >> 16) & 0xFFFF,
        out[14] == (words[7] >> 0) & 0xFFFF,
        out[15] == (words[7] >> 16) & 0xFFFF,
        out[16] == (words[8] >> 0) & 0xFFFF,
        out[17] == (words[8] >> 16) & 0xFFFF,
        out[18] == (words[9] >> 0) & 0xFFFF,
        out[19] == (words[9] >> 16) & 0xFFFF,
        out[20] == (words[10] >> 0) & 0xFFFF,
        out[21] == (words[10] >> 16) & 0xFFFF,
        out[22] == (words[11] >> 0) & 0xFFFF,
        out[23] == (words[11] >> 16) & 0xFFFF,
        out[24] == (words[12] >> 0) & 0xFFFF,
        out[25] == (words[12] >> 16) & 0xFFFF,
        out[26] == (words[13] >> 0) & 0xFFFF,
        out[27] == (words[13] >> 16) & 0xFFFF,
        out[28] == (words[14] >> 0) & 0xFFFF,
        out[29] == (words[14] >> 16) & 0xFFFF,
        out[30] == (words[15] >> 0) & 0xFFFF,
        out[31] == (words[15] >> 16) & 0xFFFF,
    ensures
        forall|i: int| 0 <= i < 32 ==> out[i] == stored_field(words, 16, i as nat),
{
    lemma_terms_16_bit(words[0], words[1], words[2], words[3], words[4], words[5], words[6], words[7], words[8], words[9], words[10], words[11], words[12], words[13], words[14], words[15]);
    lemma_windows_are_fields(words, 16, out);
}

/// Unpacks 32 values of 16 bits each from the first 16 words of `src` into
/// the first 32 places of `dst`.
pub fn decompress_16_bit(src: &[u32], dst: &mut [u32])
    requires
        src@.len() >= 16,
        old(dst)@.len() >= 32,
    ensures
        final(dst)@.len() == old(dst)@.len(),
        forall|i: int| 0 <= i < 32 ==> final(dst)@[i] == stored_field(src@, 16, i as nat),
        forall|i: int| 32 <= i < old(dst)@.len() ==> final(dst)@[i] == old(dst)@[i],
{
    // Word 0: bits 0-31
    dst[0] = (src[0] >> 0) & 0xFFFF;
    dst[1] = (src[0] >> 16) & 0xFFFF;

    // Word 1: bits 32-63
    dst[2] = (src[1] >> 0) & 0xFFFF;
    dst[3] = (src[1] >> 16) & 0xFFFF;

    // Word 2: bits 64-95
    dst[4] = (src[2] >> 0) & 0xFFFF;
    dst[5] = (src[2] >> 16) & 0xFFFF;

    // Word 3: bits 96-127
    dst[6] = (src[3] >> 0) & 0xFFFF;
    dst[7] = (src[3] >> 16) & 0xFFFF;

    // Word 4: bits 128-159
    dst[8] = (src[4] >> 0) & 0xFFFF;
    dst[9] = (src[4] >> 16) & 0xFFFF;

    // Word 5: bits 160-191
    dst[10] = (src[5] >> 0) & 0xFFFF;
    dst[11] = (src[5] >> 16) & 0xFFFF;

    // Word 6: bits 192-223
    dst[12] = (src[6] >> 0) & 0xFFFF;
    dst[13] = (src[6] >> 16) & 0xFFFF;

    // Word 7: bits 224-255
    dst[14] = (src[7] >> 0) & 0xFFFF;
    dst[15] = (src[7] >> 16) & 0xFFFF;

    // Word 8: bits 256-287
    dst[16] = (src[8] >> 0) & 0xFFFF;
    dst[17] = (src[8] >> 16) & 0xFFFF;

    // Word 9: bits 288-319
    dst[18] = (src[9] >> 0) & 0xFFFF;
    dst[19] = (src[9] >> 16) & 0xFFFF;

    // Word 10: bits 320-351
    dst[20] = (src[10] >> 0) & 0xFFFF;
    dst[21] = (src[10] >> 16) & 0xFFFF;

    // Word 11: bits 352-383
    dst[22] = (src[11] >> 0) & 0xFFFF;
    dst[23] = (src[11] >> 16) & 0xFFFF;

    // Word 12: bits 384-415
    dst[24] = (src[12] >> 0) & 0xFFFF;
    dst[25] = (src[12] >> 16) & 0xFFFF;

    // Word 13: bits 416-447
    dst[26] = (src[13] >> 0) & 0xFFFF;
    dst[27] = (src[13] >> 16) & 0xFFFF;

    // Word 14: bits 448-479
    dst[28] = (src[14] >> 0) & 0xFFFF;
    dst[29] = (src[14] >> 16) & 0xFFFF;

    // Word 15: bits 480-511
    dst[30] = (src[15] >> 0) & 0xFFFF;
    dst[31] = (src[15] >> 16) & 0xFFFF;
    proof {
        lemma_fields_16_bit(src@, dst@);
    }
}

} // verus!
