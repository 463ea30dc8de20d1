use vstd::prelude::*;

verus! {

use crate::tape::{Tape, tape_words_of};
use crate::view::PartyView;

/// One simulated party: its view paired with its pseudorandom tape.  Created
/// from a share and a key, mutated only by the circuit evaluator, and
/// consumed at the end of a repetition to extract the view.
#[derive(Debug)]
pub struct Party {
    pub view: PartyView,
    pub tape: Tape,
}

impl Party {
    /// A party holding an input share, with its tape expanded from `key`.
    pub fn new(share: Vec<u8>, key: &Vec<u8>, tape_len: usize) -> (p: Party)
        requires
            tape_len <= usize::MAX as int / 4,
        ensures
            p.view.input@ == share@,
            p.view.messages@ == Seq::<u32>::empty(),
            p.view.cursor == 0,
            p.tape.words@ == tape_words_of(key@, tape_len as int),
            p.tape.words@.len() == tape_len,
            p.tape.cursor == 0,
    {
        Party { view: PartyView::new(share), tape: Tape::from_key(key, tape_len) }
    }

    /// A party rebuilt for re-simulation from a replayed view and a tape.
    pub fn from_tape_and_view(view: PartyView, tape: Tape) -> (p: Party)
        ensures
            p.view == view,
            p.tape == tape,
    {
        Party { view, tape }
    }
}

} // verus!
