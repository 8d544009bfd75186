//! The scanner as a mathematical object: a state, a step for one character,
//! and the state reached after a whole text.
//!
//! Nothing here is executable. The functions that scan real text say in their
//! contracts that they compute what is defined here.

use vstd::prelude::*;

verus! {

/// What the scanner is about to do with the next character.
pub enum Phase {
    /// Read it by the ordinary rules.
    Code,
    /// Drop it: a backslash came just before.
    Escape,
    /// A slash came just before, outside any quote. A second slash starts a
    /// line comment; anything else is read by the ordinary rules and the
    /// first slash is forgotten.
    Slash,
    /// Drop it: a line comment is running. A newline ends the comment.
    Comment,
}

/// The state of a scan.
pub struct Scanner {
    /// Open braces that have not been closed. A closing brace with nothing
    /// to close leaves it at zero.
    pub brace_depth: nat,
    /// The quote character that opened the quote the scan is inside of.
    pub enclosure: Option<char>,
    /// The words read so far outside quotes and comments. Never empty: the
    /// last entry is the word being read.
    pub keyword_buffer: Seq<Seq<char>>,
    /// What happens to the next character.
    pub phase: Phase,
}

/// The entry that stands for a quoted span: `value`.
pub open spec fn sentinel() -> Seq<char> {
    seq!['v', 'a', 'l', 'u', 'e']
}

/// The entry that an assignment sign makes: `=`.
pub open spec fn assign_word() -> Seq<char> {
    seq!['=']
}

/// The keyword that starts a binding: `let`.
pub open spec fn let_word() -> Seq<char> {
    seq!['l', 'e', 't']
}

/// A keyword buffer after a space: a new, empty entry is started.
pub open spec fn with_break(buffer: Seq<Seq<char>>) -> Seq<Seq<char>> {
    buffer.push(Seq::empty())
}

/// A keyword buffer after an assignment sign. The sign is always an entry of
/// its own: it fills the last entry if that is empty and starts a new one
/// otherwise, so `r=2` reads as `r`, `=`, `2`.
pub open spec fn with_assign(buffer: Seq<Seq<char>>) -> Seq<Seq<char>> {
    if buffer.len() > 0 && buffer.last().len() == 0 {
        buffer.drop_last().push(assign_word())
    } else {
        buffer.push(assign_word())
    }
}

/// A keyword buffer after `entry` has been put in the place of the last
/// entry. An assignment sign is never overwritten: after one, `entry` is
/// added.
pub open spec fn with_entry(buffer: Seq<Seq<char>>, entry: Seq<char>) -> Seq<Seq<char>> {
    if buffer.len() > 0 && buffer.last() != assign_word() {
        buffer.drop_last().push(entry)
    } else {
        buffer.push(entry)
    }
}

/// A keyword buffer after the ordinary character `c`: it is added to the
/// last entry, or starts a new entry after an assignment sign.
pub open spec fn with_char(buffer: Seq<Seq<char>>, c: char) -> Seq<Seq<char>> {
    if buffer.len() > 0 && buffer.last() != assign_word() {
        buffer.drop_last().push(buffer.last().push(c))
    } else {
        buffer.push(seq![c])
    }
}

impl Scanner {
    /// The state before any character: nothing open, one empty entry.
    pub open spec fn start() -> Scanner {
        Scanner {
            brace_depth: 0,
            enclosure: None,
            keyword_buffer: seq![Seq::empty()],
            phase: Phase::Code,
        }
    }

    /// This state with another phase.
    pub open spec fn in_phase(self, phase: Phase) -> Scanner {
        Scanner { phase, ..self }
    }

    /// The state after `c` has been read by the ordinary rules.
    ///
    /// A backslash makes the scanner drop the next character, inside a quote
    /// and outside. Inside a quote only the quote character that opened it
    /// matters: it closes the quote, and the last entry becomes the
    /// sentinel. Outside, a quote character opens a quote, a slash waits for
    /// a second one, braces move the depth, a space starts an entry, and
    /// everything else is part of a word.
    pub open spec fn read(self, c: char) -> Scanner {
        if c == '\\' {
            self.in_phase(Phase::Escape)
        } else if let Some(quote) = self.enclosure {
            if c == quote {
                Scanner {
                    enclosure: None,
                    keyword_buffer: with_entry(self.keyword_buffer, sentinel()),
                    ..self
                }
            } else {
                self
            }
        } else if c == '\'' || c == '"' {
            Scanner { enclosure: Some(c), ..self }
        } else if c == '/' {
            self.in_phase(Phase::Slash)
        } else if c == '{' {
            Scanner { brace_depth: self.brace_depth + 1, ..self }
        } else if c == '}' {
            Scanner {
                brace_depth: if self.brace_depth > 0 {
                    (self.brace_depth - 1) as nat
                } else {
                    0
                },
                ..self
            }
        } else if c == ' ' {
            Scanner { keyword_buffer: with_break(self.keyword_buffer), ..self }
        } else if c == '=' {
            Scanner { keyword_buffer: with_assign(self.keyword_buffer), ..self }
        } else {
            Scanner { keyword_buffer: with_char(self.keyword_buffer, c), ..self }
        }
    }

    /// The state after the next character `c`.
    pub open spec fn step(self, c: char) -> Scanner {
        match self.phase {
            Phase::Code => self.read(c),
            Phase::Escape => self.in_phase(Phase::Code),
            Phase::Slash => if c == '/' {
                self.in_phase(Phase::Comment)
            } else {
                self.in_phase(Phase::Code).read(c)
            },
            Phase::Comment => if c == '\n' {
                self.in_phase(Phase::Code)
            } else {
                self
            },
        }
    }

    /// The state after the characters of `text`, first to last.
    pub open spec fn feed(self, text: Seq<char>) -> Scanner
        decreases text.len(),
    {
        if text.len() == 0 {
            self
        } else {
            self.feed(text.drop_last()).step(text.last())
        }
    }

    /// Whether a quote or a brace is still open.
    pub open spec fn is_open(self) -> bool {
        self.enclosure is Some || self.brace_depth > 0
    }

    /// Whether the scanner reads the next character by the ordinary rules
    /// and outside any quote, so that a brace would count.
    pub open spec fn reads_code(self) -> bool {
        self.enclosure is None && (self.phase is Code || self.phase is Slash)
    }

    /// What holds of every state that a scan can reach: the keyword buffer
    /// is not empty, only a quote character opens a quote, and a slash or a
    /// comment is only ever pending outside quotes.
    pub open spec fn wf(self) -> bool {
        &&& self.keyword_buffer.len() > 0
        &&& self.enclosure matches Some(quote) ==> quote == '\'' || quote == '"'
        &&& self.enclosure is Some ==> self.phase is Code || self.phase is Escape
    }
}

/// The state of the scanner after the whole of `text`.
pub open spec fn scan(text: Seq<char>) -> Scanner {
    Scanner::start().feed(text)
}

/// Feeding a text and then one more character is feeding the longer text.
pub proof fn lemma_feed_push(st: Scanner, text: Seq<char>, c: char)
    ensures
        st.feed(text.push(c)) == st.feed(text).step(c),
{
    assert(text.push(c).drop_last() =~= text);
}

/// Feeding two texts one after the other is feeding them joined.
pub proof fn lemma_feed_concat(st: Scanner, first: Seq<char>, second: Seq<char>)
    ensures
        st.feed(first + second) == st.feed(first).feed(second),
    decreases second.len(),
{
    if second.len() > 0 {
        lemma_feed_concat(st, first, second.drop_last());
        assert((first + second).drop_last() =~= first + second.drop_last());
    }
}

/// A step keeps a state well formed.
pub proof fn lemma_step_wf(st: Scanner, c: char)
    requires
        st.wf(),
    ensures
        st.step(c).wf(),
{
}

/// Every state that feeding reaches from a well-formed state is well formed.
pub proof fn lemma_feed_wf(st: Scanner, text: Seq<char>)
    requires
        st.wf(),
    ensures
        st.feed(text).wf(),
    decreases text.len(),
{
    if text.len() > 0 {
        lemma_feed_wf(st, text.drop_last());
        lemma_step_wf(st.feed(text.drop_last()), text.last());
    }
}

/// Every state that a scan reaches is well formed.
pub proof fn lemma_scan_wf(text: Seq<char>)
    ensures
        scan(text).wf(),
{
    lemma_feed_wf(Scanner::start(), text);
}

} // verus!
