use vstd::prelude::*;

verus! {

/// One party's record of one repetition: its input share, the AND-gate
/// output words it wrote, in gate order, and a read cursor used only when the
/// record is replayed.  The cursor is bookkeeping and is never committed to.
#[derive(Debug)]
pub struct PartyView {
    pub input: Vec<u8>,
    pub messages: Vec<u32>,
    pub cursor: usize,
}

impl PartyView {
    /// A fresh view holding an input share and no messages yet.
    pub fn new(input: Vec<u8>) -> (v: PartyView)
        ensures
            v.input@ == input@,
            v.messages@ == Seq::<u32>::empty(),
            v.cursor == 0,
    {
        PartyView { input, messages: Vec::new(), cursor: 0 }
    }

    /// Appends one AND-gate output word to the record.
    pub fn send_msg(&mut self, msg: u32)
        ensures
            final(self).input@ == old(self).input@,
            final(self).messages@ == old(self).messages@.push(msg),
            final(self).cursor == old(self).cursor,
    {
        self.messages.push(msg);
    }

    /// A fresh copy of the record with its read cursor rewound, ready to be
    /// replayed.
    pub fn replay_copy(&self) -> (v: PartyView)
        ensures
            v.input@ == self.input@,
            v.messages@ == self.messages@,
            v.cursor == 0,
    {
        PartyView {
            input: crate::word::copy_bytes(&self.input),
            messages: crate::word::copy_words(&self.messages),
            cursor: 0,
        }
    }

    /// Reads the next replayed message, in insertion order.
    pub fn read_next(&mut self) -> (msg: u32)
        requires
            old(self).cursor < old(self).messages@.len(),
        ensures
            msg == old(self).messages@[old(self).cursor as int],
            final(self).input@ == old(self).input@,
            final(self).messages@ == old(self).messages@,
            final(self).cursor == old(self).cursor + 1,
    {
        let n: usize = self.messages.len();
        assert(self.cursor < n);
        let msg = self.messages[self.cursor];
        self.cursor = self.cursor + 1;
        msg
    }
}

} // verus!
