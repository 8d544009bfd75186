//! Quoted spans and line comments as regions of the text: where a region
//! ends, and what the scanner's state is once it has passed one.

use vstd::prelude::*;
use crate::scan::{Phase, Scanner, sentinel, with_entry};

verus! {

/// `offset` moved on by `by` characters.
pub open spec fn shifted(offset: Option<nat>, by: nat) -> Option<nat> {
    match offset {
        Some(n) => Some(n + by),
        None => None,
    }
}

/// How many characters of `text` are read up to and including the first
/// `stop` that counts, if there is one. With `escaped`, a backslash takes
/// the character after it out of the search, whatever that character is.
pub open spec fn stop_offset(text: Seq<char>, stop: char, escaped: bool) -> Option<nat>
    decreases text.len(),
{
    if text.len() == 0 {
        None
    } else if escaped && text[0] == '\\' {
        if text.len() == 1 {
            None
        } else {
            shifted(stop_offset(text.skip(2), stop, escaped), 2)
        }
    } else if text[0] == stop {
        Some(1)
    } else {
        shifted(stop_offset(text.skip(1), stop, escaped), 1)
    }
}

/// An offset, where there is one, lies in the text and is not zero.
pub proof fn lemma_stop_offset_bounds(text: Seq<char>, stop: char, escaped: bool)
    ensures
        stop_offset(text, stop, escaped) matches Some(n) ==> 0 < n <= text.len(),
    decreases text.len(),
{
    if text.len() == 0 {
    } else if escaped && text[0] == '\\' {
        if text.len() > 1 {
            lemma_stop_offset_bounds(text.skip(2), stop, escaped);
        }
    } else if text[0] != stop {
        lemma_stop_offset_bounds(text.skip(1), stop, escaped);
    }
}

/// Feeding a text is a step for its first character and then feeding the
/// rest.
pub proof fn lemma_feed_first(st: Scanner, text: Seq<char>)
    requires
        text.len() > 0,
    ensures
        st.feed(text) == st.step(text[0]).feed(text.skip(1)),
{
    let head = seq![text[0]];
    assert(head + text.skip(1) =~= text);
    crate::scan::lemma_feed_concat(st, head, text.skip(1));
    assert(st.feed(head) == st.feed(head.drop_last()).step(head.last()));
}

/// Feeding the first `n + k` characters of a text is feeding the first `k`
/// and then `n` more.
pub proof fn lemma_feed_take(st: Scanner, text: Seq<char>, k: int, n: int)
    requires
        0 <= k,
        0 <= n,
        k + n <= text.len(),
    ensures
        st.feed(text.take(k + n)) == st.feed(text.take(k)).feed(text.skip(k).take(n)),
{
    assert(text.take(k + n) =~= text.take(k) + text.skip(k).take(n));
    crate::scan::lemma_feed_concat(st, text.take(k), text.skip(k).take(n));
}

/// The state in which the quote that `st` is inside of has been closed.
pub open spec fn closed(st: Scanner) -> Scanner {
    Scanner {
        enclosure: None,
        keyword_buffer: with_entry(st.keyword_buffer, sentinel()),
        ..st
    }
}

/// Inside a quote, the scanner reads on to the first quote character of the
/// same kind that no backslash escapes, and closes the quote there. Where
/// there is none, the quote is still open at the end of the text, and
/// nothing but the phase has changed.
pub proof fn lemma_quote_region(st: Scanner, rest: Seq<char>, quote: char)
    requires
        st.enclosure == Some(quote),
        st.phase is Code,
        quote != '\\',
    ensures
        match stop_offset(rest, quote, true) {
            Some(n) => n <= rest.len() && st.feed(rest.take(n as int)) == closed(st),
            None => st.feed(rest).in_phase(Phase::Code) == st,
        },
    decreases rest.len(),
{
    lemma_stop_offset_bounds(rest, quote, true);
    if rest.len() == 0 {
    } else if rest[0] == '\\' {
        lemma_feed_first(st, rest);
        if rest.len() > 1 {
            let tail = rest.skip(1);
            lemma_feed_first(st.step(rest[0]), tail);
            assert(tail.skip(1) =~= rest.skip(2));
            lemma_quote_region(st, rest.skip(2), quote);
            lemma_stop_offset_bounds(rest.skip(2), quote, true);
            match stop_offset(rest.skip(2), quote, true) {
                Some(n) => {
                    lemma_feed_take(st, rest, 2, n as int);
                    let head = rest.take(2);
                    lemma_feed_first(st, head);
                    lemma_feed_first(st.step(head[0]), head.skip(1));
                },
                None => {},
            }
        }
    } else if rest[0] == quote {
        let head = rest.take(1);
        lemma_feed_first(st, head);
    } else {
        lemma_feed_first(st, rest);
        lemma_quote_region(st, rest.skip(1), quote);
        lemma_stop_offset_bounds(rest.skip(1), quote, true);
        match stop_offset(rest.skip(1), quote, true) {
            Some(n) => {
                lemma_feed_take(st, rest, 1, n as int);
                let head = rest.take(1);
                lemma_feed_first(st, head);
            },
            None => {},
        }
    }
}

/// Inside a line comment, the scanner reads on to the first newline and is
/// then back in the state it had before the comment. Where there is none,
/// the comment runs to the end of the text.
pub proof fn lemma_comment_region(st: Scanner, rest: Seq<char>)
    requires
        st.phase is Comment,
    ensures
        match stop_offset(rest, '\n', false) {
            Some(n) => n <= rest.len() && st.feed(rest.take(n as int)) == st.in_phase(
                Phase::Code,
            ),
            None => st.feed(rest) == st,
        },
    decreases rest.len(),
{
    lemma_stop_offset_bounds(rest, '\n', false);
    if rest.len() == 0 {
    } else if rest[0] == '\n' {
        let head = rest.take(1);
        lemma_feed_first(st, head);
    } else {
        lemma_feed_first(st, rest);
        lemma_comment_region(st, rest.skip(1));
        lemma_stop_offset_bounds(rest.skip(1), '\n', false);
        match stop_offset(rest.skip(1), '\n', false) {
            Some(n) => {
                lemma_feed_take(st, rest, 1, n as int);
                let head = rest.take(1);
                lemma_feed_first(st, head);
            },
            None => {},
        }
    }
}

} // verus!
