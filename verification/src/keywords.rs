//! The keyword buffer as the scanner fills it: the finished entries, and the
//! entry that is being read.

use vstd::prelude::*;
use crate::scan::{assign_word, sentinel, with_assign, with_break, with_char, with_entry};

verus! {

/// A keyword buffer. It always holds at least one entry.
pub struct Keywords {
    finished: Vec<Vec<char>>,
    current: Vec<char>,
}

/// The entries that a vector of words stands for.
pub open spec fn entries_of(words: Seq<Vec<char>>) -> Seq<Seq<char>> {
    Seq::new(words.len(), |i: int| words[i]@)
}

impl View for Keywords {
    type V = Seq<Seq<char>>;

    closed spec fn view(&self) -> Seq<Seq<char>> {
        entries_of(self.finished@).push(self.current@)
    }
}

impl Keywords {
    /// The buffer before any character: one empty entry.
    pub fn new() -> (buffer: Keywords)
        ensures
            buffer@ == seq![Seq::<char>::empty()],
    {
        let buffer = Keywords { finished: Vec::new(), current: Vec::new() };
        buffer
    }

    /// Moves the entry being read to the finished ones and starts on `next`.
    fn begin(&mut self, next: Vec<char>)
        ensures
            final(self)@ == old(self)@.push(next@),
    {
        let mut done = next;
        std::mem::swap(&mut self.current, &mut done);
        self.finished.push(done);
    }

    /// Whether the entry being read is an assignment sign.
    fn at_assign(&self) -> (at: bool)
        ensures
            at == (self@.last() == assign_word()),
    {
        let at = self.current.len() == 1 && self.current[0] == '=';
        proof {
            if at {
                assert(self.current@ =~= assign_word());
            }
        }
        at
    }

    /// A space: starts a new, empty entry.
    pub fn start_entry(&mut self)
        ensures
            final(self)@ == with_break(old(self)@),
    {
        self.begin(Vec::new());
    }

    /// An assignment sign: it becomes an entry of its own.
    pub fn push_assign(&mut self)
        ensures
            final(self)@ == with_assign(old(self)@),
    {
        let mut sign: Vec<char> = Vec::new();
        sign.push('=');
        if self.current.len() == 0 {
            self.current = sign;
        } else {
            self.begin(sign);
        }
    }

    /// An ordinary character: it joins the entry being read, or starts a new
    /// entry after an assignment sign.
    pub fn push_char(&mut self, c: char)
        ensures
            final(self)@ == with_char(old(self)@, c),
    {
        if self.at_assign() {
            let mut word: Vec<char> = Vec::new();
            word.push(c);
            self.begin(word);
        } else {
            self.current.push(c);
        }
    }

    /// The end of a quoted span: the sentinel takes the place of the entry
    /// being read, or is added after an assignment sign.
    pub fn put_sentinel(&mut self)
        ensures
            final(self)@ == with_entry(old(self)@, sentinel()),
    {
        let mut word: Vec<char> = Vec::new();
        word.push('v');
        word.push('a');
        word.push('l');
        word.push('u');
        word.push('e');
        assert(word@ =~= sentinel());
        if self.at_assign() {
            self.begin(word);
        } else {
            self.current = word;
        }
    }

    /// The entries, first to last.
    pub fn into_entries(self) -> (words: Vec<Vec<char>>)
        ensures
            entries_of(words@) == self@,
    {
        let mut words = self.finished;
        words.push(self.current);
        words
    }
}

} // verus!
