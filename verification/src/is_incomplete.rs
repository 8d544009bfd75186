//! A quick test for unfinished input, without the keyword buffer.

use vstd::prelude::*;
use crate::parser::{classify, pop_until, ParseResult};
use crate::scan::scan;
use crate::text::reversed_chars;
use crate::tracking::{
    lemma_track_comment, lemma_track_end, lemma_track_escape, lemma_track_read,
    lemma_track_start, reading, tracks,
};

verus! {

/// Whether a user's input is incomplete: true if a brace has been opened
/// that is not closed, or a quote is without its terminating quote
/// character. These are the inputs that `parse_input` calls `Incomplete`;
/// this function finds them without keeping the keyword buffer.
pub fn is_input_incomplete(input: &str) -> (incomplete: bool)
    ensures
        incomplete == scan(input@).is_open(),
        incomplete == (classify(input@) == ParseResult::Incomplete),
{
    let mut chars = reversed_chars(input);
    let ghost text = input@;
    let ghost mut buffer: Seq<Seq<char>> = seq![Seq::<char>::empty()];
    let mut enclosed: Option<char> = None;
    let mut opened_closures: usize = 0;
    proof {
        lemma_track_start(text, chars@);
    }
    loop
        invariant
            text == input@,
            text.len() <= usize::MAX,
            tracks(text, chars@, opened_closures as int, enclosed, buffer),
            enclosed matches Some(quote) ==> quote == '\'' || quote == '"',
        ensures
            chars@.len() == 0,
        decreases chars@.len(),
    {
        let ghost before = chars@;
        let c = match chars.pop() {
            Some(c) => c,
            None => {
                break ;
            },
        };
        if c == '\\' {
            chars.pop();
            proof {
                lemma_track_escape(text, before, opened_closures as int, enclosed, buffer);
            }
        } else if c == '/' && enclosed.is_none() {
            match chars.pop() {
                Some(next) => {
                    if next == '/' {
                        proof {
                            lemma_track_comment(text, before, opened_closures as int, buffer);
                        }
                        pop_until(&mut chars, '\n', false);
                    } else {
                        chars.push(next);
                        proof {
                            assert(chars@ =~= before.drop_last());
                            lemma_track_read(text, before, opened_closures as int, None, buffer);
                        }
                    }
                },
                None => {
                    proof {
                        lemma_track_read(text, before, opened_closures as int, None, buffer);
                    }
                },
            }
        } else {
            proof {
                lemma_track_read(text, before, opened_closures as int, enclosed, buffer);
                buffer = reading(opened_closures as int, enclosed, buffer).read(c).keyword_buffer;
            }
            if c == '\'' || c == '"' {
                if let Some(enclosure_char) = enclosed {
                    if enclosure_char == c {
                        enclosed = None;
                    }
                } else {
                    enclosed = Some(c);
                }
            } else if c == '{' && enclosed.is_none() {
                opened_closures += 1;
            } else if c == '}' && enclosed.is_none() {
                opened_closures = opened_closures.saturating_sub(1);
            }
        }
    }
    proof {
        lemma_track_end(text, chars@, opened_closures as int, enclosed, buffer);
    }
    enclosed.is_some() || opened_closures > 0
}

} // verus!
