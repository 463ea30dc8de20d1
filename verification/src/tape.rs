use vstd::prelude::*;

verus! {

use crate::gadgets::prepare::generic_parse;
use crate::hash::{shake128, shake128_of};
use crate::word::bytes_to_words;

/// The pseudorandom words a key expands to: the SHAKE128 output on the key,
/// read four bytes to a word, little-endian.  A pure function of the key and
/// the length, so equal keys always yield equal tapes.
pub open spec fn tape_words_of(key: Seq<u8>, len: int) -> Seq<u32> {
    bytes_to_words(shake128_of(key, 4 * len))
}

/// Tape determinism: two tapes expanded from one key to one length hold the
/// same words -- the expansion is a pure function of the key.
pub proof fn lemma_tape_deterministic(t1: Tape, t2: Tape, key: Seq<u8>, len: int)
    requires
        t1.words@ == tape_words_of(key, len),
        t2.words@ == tape_words_of(key, len),
    ensures
        t1.words@ == t2.words@,
{
}

/// One party's pseudorandom tape: one word per multiplication gate, consumed
/// in gate order through the cursor.
#[derive(Debug)]
pub struct Tape {
    pub words: Vec<u32>,
    pub cursor: usize,
}

impl Tape {
    /// Materializes the tape of a key, `len` words long.
    pub fn from_key(key: &Vec<u8>, len: usize) -> (t: Tape)
        requires
            len <= usize::MAX as int / 4,
        ensures
            t.words@ == tape_words_of(key@, len as int),
            t.words@.len() == len,
            t.cursor == 0,
    {
        let bytes = shake128(key, 4 * len);
        let words = generic_parse(&bytes, len);
        Tape { words, cursor: 0 }
    }

    /// Reads the next tape word.  Reading past the end is a caller's bug and
    /// is ruled out here rather than handled.
    pub fn next_word(&mut self) -> (w: u32)
        requires
            old(self).cursor < old(self).words@.len(),
        ensures
            w == old(self).words@[old(self).cursor as int],
            final(self).words@ == old(self).words@,
            final(self).cursor == old(self).cursor + 1,
    {
        let n: usize = self.words.len();
        assert(self.cursor < n);
        let w = self.words[self.cursor];
        self.cursor = self.cursor + 1;
        w
    }
}

} // verus!
