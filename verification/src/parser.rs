//! The classifier: what to do with the text typed so far.

use vstd::prelude::*;
use crate::keywords::{entries_of, Keywords};
use crate::regions::{lemma_stop_offset_bounds, shifted, stop_offset};
use crate::scan::{assign_word, let_word, scan, Phase, Scanner};
use crate::text::{lemma_pending_pop, pending, reversed_chars};
use crate::tracking::{
    lemma_track_comment, lemma_track_end, lemma_track_escape, lemma_track_quote,
    lemma_track_read, lemma_track_start, tracks,
};
use crate::words::{trim, trimmed_equals};

verus! {

/// What the loop should do with the text typed so far.
#[derive(Debug, Clone, Copy, PartialEq, Eq, Structural)]
pub enum ParseResult {
    /// No problems found.
    AllGood,
    /// The text has to be suffixed with a semicolon, as in `let a = 5`.
    RequiresSemicolon,
    /// A brace or a quote has been opened without being closed.
    Incomplete,
}

/// Whether a keyword buffer ends in `let`, a name, `=` and a value: a
/// binding that has not been terminated.
pub open spec fn ends_with_bare_let(buffer: Seq<Seq<char>>) -> bool {
    &&& buffer.len() >= 4
    &&& trim(buffer[buffer.len() - 4]) == let_word()
    &&& trim(buffer[buffer.len() - 2]) == assign_word()
}

/// The result that belongs to the state at the end of a scan. An open quote
/// or brace comes first; only closed text is looked at for a bare binding.
pub open spec fn verdict(st: Scanner) -> ParseResult {
    if st.is_open() {
        ParseResult::Incomplete
    } else if ends_with_bare_let(st.keyword_buffer) {
        ParseResult::RequiresSemicolon
    } else {
        ParseResult::AllGood
    }
}

/// The result that belongs to `text`.
pub open spec fn classify(text: Seq<char>) -> ParseResult {
    verdict(scan(text))
}

/// Pops characters off the end of `chars` until `stop` has been popped.
/// With `backslash_escaped`, a backslash is popped together with the
/// character under it, and neither is looked at. Returns whether `stop` was
/// found; if not, `chars` is left empty.
pub fn pop_until(chars: &mut Vec<char>, stop: char, backslash_escaped: bool) -> (hit: bool)
    ensures
        match stop_offset(pending(old(chars)@), stop, backslash_escaped) {
            Some(n) => hit && n <= old(chars)@.len() && final(chars)@ == old(chars)@.take(
                old(chars)@.len() - n,
            ),
            None => !hit && final(chars)@.len() == 0,
        },
{
    let ghost all = chars@;
    proof {
        lemma_stop_offset_bounds(pending(all), stop, backslash_escaped);
    }
    loop
        invariant
            all == old(chars)@,
            chars@.len() <= all.len(),
            chars@ == all.take(chars@.len() as int),
            stop_offset(pending(all), stop, backslash_escaped) == shifted(
                stop_offset(pending(chars@), stop, backslash_escaped),
                (all.len() - chars@.len()) as nat,
            ),
            stop_offset(pending(all), stop, backslash_escaped) matches Some(n) ==> n <= all.len(),
        decreases chars@.len(),
    {
        let ghost before = chars@;
        match chars.pop() {
            None => {
                return false;
            },
            Some(popped) => {
                proof {
                    lemma_pending_pop(before);
                }
                if backslash_escaped && popped == '\\' {
                    let ghost middle = chars@;
                    let under = chars.pop();
                    proof {
                        if middle.len() > 0 {
                            lemma_pending_pop(middle);
                            assert(pending(before).skip(1).skip(1) =~= pending(before).skip(2));
                        }
                    }
                    if under.is_none() {
                        return false;
                    }
                } else if popped == stop {
                    return true;
                }
            },
        }
    }
}

/// The state at the end of a scan, as the classifier takes it.
#[derive(Debug, PartialEq, Eq)]
pub struct ScanState {
    /// Open braces that have not been closed.
    pub brace_depth: usize,
    /// The quote character of the quote that is still open, if one is.
    pub enclosure: Option<char>,
    /// The words read outside quotes and comments.
    pub keyword_buffer: Vec<Vec<char>>,
}

impl View for ScanState {
    type V = Scanner;

    /// The scanner state that this stands for. The phase is left out of a
    /// `ScanState`: nothing is decided by it once the text has ended.
    open spec fn view(&self) -> Scanner {
        Scanner {
            brace_depth: self.brace_depth as nat,
            enclosure: self.enclosure,
            keyword_buffer: entries_of(self.keyword_buffer@),
            phase: Phase::Code,
        }
    }
}

impl ScanState {
    /// The result that belongs to this state: `Incomplete` while a quote or
    /// a brace is open, `RequiresSemicolon` for closed text that ends in a
    /// bare binding, `AllGood` otherwise.
    pub fn verdict(&self) -> (result: ParseResult)
        ensures
            result == verdict(self@),
    {
        if self.enclosure.is_some() || self.brace_depth > 0 {
            return ParseResult::Incomplete;
        }
        let length = self.keyword_buffer.len();
        if length < 4 {
            return ParseResult::AllGood;
        }
        let mut keyword: Vec<char> = Vec::new();
        keyword.push('l');
        keyword.push('e');
        keyword.push('t');
        let mut sign: Vec<char> = Vec::new();
        sign.push('=');
        proof {
            assert(keyword@ =~= let_word());
        }
        if trimmed_equals(&self.keyword_buffer[length - 4], &keyword) && trimmed_equals(
            &self.keyword_buffer[length - 2],
            &sign,
        ) {
            ParseResult::RequiresSemicolon
        } else {
            ParseResult::AllGood
        }
    }
}

/// Scans `input` and returns the state at the end. The characters are put
/// on a stack last to first, so that popping reads the text from its first
/// character to its last; what follows a character is then on top of the
/// stack, to be looked at, dropped or put back.
pub fn scan_input(input: &str) -> (state: ScanState)
    ensures
        state@ == scan(input@).in_phase(Phase::Code),
{
    let mut chars = reversed_chars(input);
    let ghost text = input@;
    let mut keywords = Keywords::new();
    let mut opened_closures: usize = 0;
    proof {
        lemma_track_start(text, chars@);
    }
    loop
        invariant
            text == input@,
            text.len() <= usize::MAX,
            tracks(text, chars@, opened_closures as int, None, keywords@),
        ensures
            chars@.len() == 0,
        decreases chars@.len(),
    {
        let ghost before = chars@;
        let ghost buffer = keywords@;
        let c = match chars.pop() {
            Some(c) => c,
            None => {
                break ;
            },
        };
        if c == '\\' {
            chars.pop();
            proof {
                lemma_track_escape(text, before, opened_closures as int, None, buffer);
            }
        } else if c == '\'' || c == '"' {
            proof {
                lemma_track_read(text, before, opened_closures as int, None, buffer);
                lemma_track_quote(text, chars@, opened_closures as int, c, buffer);
            }
            let stopped = pop_until(&mut chars, c, true);
            if !stopped {
                return ScanState {
                    brace_depth: opened_closures,
                    enclosure: Some(c),
                    keyword_buffer: keywords.into_entries(),
                };
            }
            keywords.put_sentinel();
        } else if c == '/' {
            match chars.pop() {
                Some(next) => {
                    if next == '/' {
                        proof {
                            lemma_track_comment(text, before, opened_closures as int, buffer);
                        }
                        pop_until(&mut chars, '\n', false);
                    } else {
                        chars.push(next);
                        proof {
                            assert(chars@ =~= before.drop_last());
                            lemma_track_read(text, before, opened_closures as int, None, buffer);
                        }
                    }
                },
                None => {
                    proof {
                        lemma_track_read(text, before, opened_closures as int, None, buffer);
                    }
                },
            }
        } else {
            proof {
                lemma_track_read(text, before, opened_closures as int, None, buffer);
            }
            if c == '{' {
                opened_closures += 1;
            } else if c == '}' {
                opened_closures = opened_closures.saturating_sub(1);
            } else if c == ' ' {
                keywords.start_entry();
            } else if c == '=' {
                keywords.push_assign();
            } else {
                keywords.push_char(c);
            }
        }
    }
    proof {
        lemma_track_end(text, chars@, opened_closures as int, None, keywords@);
    }
    ScanState {
        brace_depth: opened_closures,
        enclosure: None,
        keyword_buffer: keywords.into_entries(),
    }
}

/// Parses the text typed so far and says whether it can go to the compiler
/// as it is, needs a semicolon first, or is not finished.
pub fn parse_input(input: &str) -> (result: ParseResult)
    ensures
        result == classify(input@),
{
    scan_input(input).verdict()
}

} // verus!
