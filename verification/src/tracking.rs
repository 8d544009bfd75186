//! How a scan that pops characters off a reversed vector keeps step with
//! the scanner: what it knows after each kind of character.

use vstd::prelude::*;
use crate::regions::{
    lemma_comment_region, lemma_feed_take, lemma_quote_region, lemma_stop_offset_bounds,
    stop_offset,
};
use crate::scan::{lemma_feed_push, lemma_scan_wf, scan, sentinel, with_entry, Phase, Scanner};
use crate::text::{lemma_pending_pop, lemma_pending_take, pending};

verus! {

/// The scanner state with these parts, about to read by the ordinary rules.
pub open spec fn reading(depth: int, enclosure: Option<char>, buffer: Seq<Seq<char>>) -> Scanner {
    Scanner {
        brace_depth: depth as nat,
        enclosure,
        keyword_buffer: buffer,
        phase: Phase::Code,
    }
}

/// Whether a scanner in state `st` reads `c` by the ordinary rules: it is
/// in the code phase, or it has seen one slash and `c` is not a second one.
pub open spec fn reads_plainly(st: Scanner, c: char) -> bool {
    st.phase is Code || (st.phase is Slash && c != '/')
}

/// Whether a scan of `text` that still has `left` to pop has reached the
/// scanner's state: the characters popped so far are a prefix of the text,
/// the scanner has `depth`, `enclosure` and `buffer` after that prefix, and
/// it reads the next character, if there is one, by the ordinary rules.
pub open spec fn tracks(
    text: Seq<char>,
    left: Seq<char>,
    depth: int,
    enclosure: Option<char>,
    buffer: Seq<Seq<char>>,
) -> bool {
    let k = text.len() - left.len();
    let st = scan(text.take(k));
    &&& left.len() <= text.len()
    &&& pending(left) == text.skip(k)
    &&& 0 <= depth <= k
    &&& st.in_phase(Phase::Code) == reading(depth, enclosure, buffer)
    &&& left.len() > 0 ==> reads_plainly(st, text[k])
}

/// The scan of one more character is a step from the scan so far.
pub proof fn lemma_scan_next(text: Seq<char>, k: int)
    requires
        0 <= k < text.len(),
    ensures
        scan(text.take(k + 1)) == scan(text.take(k)).step(text[k]),
{
    assert(text.take(k + 1) =~= text.take(k).push(text[k]));
    lemma_feed_push(Scanner::start(), text.take(k), text[k]);
}

/// The scan of a text is the scan of its first `k` characters, fed the rest.
pub proof fn lemma_scan_rest(text: Seq<char>, k: int)
    requires
        0 <= k <= text.len(),
    ensures
        scan(text) == scan(text.take(k)).feed(text.skip(k)),
{
    lemma_feed_take(Scanner::start(), text, k, text.len() - k);
    assert(text.take(k + (text.len() - k)) =~= text);
    assert(text.skip(k).take(text.len() - k) =~= text.skip(k));
}

/// Before anything has been popped the scan is at the scanner's start.
pub proof fn lemma_track_start(text: Seq<char>, left: Seq<char>)
    requires
        pending(left) == text,
        left.len() == text.len(),
    ensures
        tracks(text, left, 0, None, seq![Seq::<char>::empty()]),
{
    assert(text.skip(0) =~= text);
}

/// When nothing is left to pop, the scanner's state after the whole text is
/// known, but for its phase.
pub proof fn lemma_track_end(
    text: Seq<char>,
    left: Seq<char>,
    depth: int,
    enclosure: Option<char>,
    buffer: Seq<Seq<char>>,
)
    requires
        tracks(text, left, depth, enclosure, buffer),
        left.len() == 0,
    ensures
        scan(text).in_phase(Phase::Code) == reading(depth, enclosure, buffer),
{
    assert(text.take(text.len() as int) =~= text);
}

/// After a character that is read on its own, the scan has the state that
/// reading it gives. A backslash is not such a character, nor is a slash
/// outside quotes that another slash follows.
pub proof fn lemma_track_read(
    text: Seq<char>,
    left: Seq<char>,
    depth: int,
    enclosure: Option<char>,
    buffer: Seq<Seq<char>>,
)
    requires
        tracks(text, left, depth, enclosure, buffer),
        left.len() > 0,
        left.last() != '\\',
        left.last() == '/' && enclosure is None && left.len() > 1 ==> left[left.len() - 2] != '/',
    ensures
        ({
            let after = reading(depth, enclosure, buffer).read(left.last());
            tracks(
                text,
                left.drop_last(),
                after.brace_depth as int,
                after.enclosure,
                after.keyword_buffer,
            )
        }),
{
    let k = text.len() - left.len();
    lemma_pending_pop(left);
    assert(text.skip(k).skip(1) =~= text.skip(k + 1));
    lemma_scan_next(text, k);
    lemma_scan_wf(text.take(k));
    if left.len() > 1 {
        lemma_pending_pop(left.drop_last());
    }
}

/// After a backslash and the character under it, the scan has the state it
/// had before.
pub proof fn lemma_track_escape(
    text: Seq<char>,
    left: Seq<char>,
    depth: int,
    enclosure: Option<char>,
    buffer: Seq<Seq<char>>,
)
    requires
        tracks(text, left, depth, enclosure, buffer),
        left.len() > 0,
        left.last() == '\\',
    ensures
        tracks(
            text,
            if left.len() > 1 {
                left.drop_last().drop_last()
            } else {
                left.drop_last()
            },
            depth,
            enclosure,
            buffer,
        ),
{
    let k = text.len() - left.len();
    lemma_pending_pop(left);
    assert(text.skip(k).skip(1) =~= text.skip(k + 1));
    lemma_scan_next(text, k);
    if left.len() > 1 {
        lemma_pending_pop(left.drop_last());
        assert(text.skip(k + 1).skip(1) =~= text.skip(k + 2));
        lemma_scan_next(text, k + 1);
    }
}

/// After the two slashes that start a line comment, and everything up to
/// and including the next newline, the scan has the state it had before.
/// Without a newline nothing is left of the text.
pub proof fn lemma_track_comment(
    text: Seq<char>,
    left: Seq<char>,
    depth: int,
    buffer: Seq<Seq<char>>,
)
    requires
        tracks(text, left, depth, None, buffer),
        left.len() > 1,
        left.last() == '/',
        left[left.len() - 2] == '/',
    ensures
        ({
            let inner = left.drop_last().drop_last();
            match stop_offset(pending(inner), '\n', false) {
                Some(n) => n <= inner.len() && tracks(
                    text,
                    inner.take(inner.len() - n),
                    depth,
                    None,
                    buffer,
                ),
                None => tracks(text, Seq::<char>::empty(), depth, None, buffer),
            }
        }),
{
    let k = text.len() - left.len();
    let inner = left.drop_last().drop_last();
    let rest = text.skip(k + 2);
    lemma_pending_pop(left);
    lemma_pending_pop(left.drop_last());
    assert(text.skip(k).skip(1) =~= text.skip(k + 1));
    assert(text.skip(k + 1).skip(1) =~= rest);
    lemma_scan_next(text, k);
    lemma_scan_next(text, k + 1);
    let comment = scan(text.take(k + 2));
    lemma_comment_region(comment, rest);
    lemma_stop_offset_bounds(rest, '\n', false);
    match stop_offset(rest, '\n', false) {
        Some(n) => {
            lemma_pending_take(inner, n as int);
            assert(rest.skip(n as int) =~= text.skip(k + 2 + n));
            lemma_feed_take(Scanner::start(), text, k + 2, n as int);
        },
        None => {
            lemma_scan_rest(text, k + 2);
            assert(text.take(text.len() as int) =~= text);
            assert(pending(Seq::<char>::empty()) =~= text.skip(text.len() as int));
        },
    }
}

/// Inside a quote, after everything up to and including the quote
/// character that closes it, the scan is outside the quote and the sentinel
/// is in the buffer. Where nothing closes the quote, the scanner's state
/// after the whole text is the one the scan has, but for its phase.
pub proof fn lemma_track_quote(
    text: Seq<char>,
    left: Seq<char>,
    depth: int,
    quote: char,
    buffer: Seq<Seq<char>>,
)
    requires
        tracks(text, left, depth, Some(quote), buffer),
        quote != '\\',
    ensures
        match stop_offset(pending(left), quote, true) {
            Some(n) => n <= left.len() && tracks(
                text,
                left.take(left.len() - n),
                depth,
                None,
                with_entry(buffer, sentinel()),
            ),
            None => scan(text).in_phase(Phase::Code) == reading(depth, Some(quote), buffer),
        },
{
    let k = text.len() - left.len();
    let st = scan(text.take(k));
    let rest = text.skip(k);
    lemma_scan_wf(text.take(k));
    lemma_stop_offset_bounds(rest, quote, true);
    if left.len() == 0 {
        assert(text.take(text.len() as int) =~= text);
    } else {
        lemma_quote_region(st, rest, quote);
        match stop_offset(rest, quote, true) {
            Some(n) => {
                lemma_pending_take(left, n as int);
                assert(rest.skip(n as int) =~= text.skip(k + n));
                lemma_feed_take(Scanner::start(), text, k, n as int);
            },
            None => {
                lemma_scan_rest(text, k);
            },
        }
    }
}

} // verus!
