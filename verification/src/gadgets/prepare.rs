use vstd::prelude::*;

verus! {

use crate::word::{bytes_to_words, word_from_le_bytes};

/// Parses a byte string into exactly `number_of_words` words, four bytes to a
/// word, little-endian.
pub fn generic_parse(bytes: &Vec<u8>, number_of_words: usize) -> (r: Vec<u32>)
    requires
        bytes@.len() == number_of_words * 4,
    ensures
        r@ == bytes_to_words(bytes@),
        r@.len() == number_of_words,
{
    let total: usize = bytes.len();
    let mut out: Vec<u32> = Vec::new();
    let mut i: usize = 0;
    while i < number_of_words
        invariant
            i <= number_of_words,
            bytes@.len() == number_of_words * 4,
            total == bytes@.len(),
            out@ =~= bytes_to_words(bytes@).take(i as int),
        decreases number_of_words - i,
    {
        let w = word_from_le_bytes(bytes[4 * i], bytes[4 * i + 1], bytes[4 * i + 2], bytes[4 * i + 3]);
        out.push(w);
        i = i + 1;
    }
    proof {
        assert(out@ =~= bytes_to_words(bytes@));
    }
    out
}

} // verus!
