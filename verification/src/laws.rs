//! What holds of the classifier on every text.

use vstd::prelude::*;
use crate::parser::{classify, ends_with_bare_let, ParseResult};
use crate::regions::lemma_feed_first;
use crate::scan::{
    assign_word, lemma_feed_concat, lemma_scan_wf, let_word, scan, sentinel, with_entry, Phase,
    Scanner,
};
use crate::words::{
    all_white_space, lemma_trim_end_is_take, lemma_trim_start_is_skip, trim,
};

verus! {

/// The three results part the texts: a text is `Incomplete` exactly when a
/// quote or a brace is open at its end, `RequiresSemicolon` exactly when
/// nothing is open and its keyword buffer ends in a bare binding, and
/// `AllGood` exactly when nothing is open and it does not.
pub proof fn results_part_the_texts(text: Seq<char>)
    ensures
        classify(text) == ParseResult::Incomplete <==> scan(text).is_open(),
        classify(text) == ParseResult::RequiresSemicolon <==> !scan(text).is_open()
            && ends_with_bare_let(scan(text).keyword_buffer),
        classify(text) == ParseResult::AllGood <==> !scan(text).is_open() && !ends_with_bare_let(
            scan(text).keyword_buffer,
        ),
{
}

/// A text with its braces and quotes closed, and without a bare binding at
/// its end, is `AllGood`.
pub proof fn closed_text_without_bare_let_is_all_good(text: Seq<char>)
    requires
        scan(text).brace_depth == 0,
        scan(text).enclosure is None,
        !ends_with_bare_let(scan(text).keyword_buffer),
    ensures
        classify(text) == ParseResult::AllGood,
{
}

/// A text with its braces and quotes closed that ends in a bare binding is
/// `RequiresSemicolon`.
pub proof fn closed_text_with_bare_let_requires_semicolon(text: Seq<char>)
    requires
        scan(text).brace_depth == 0,
        scan(text).enclosure is None,
        ends_with_bare_let(scan(text).keyword_buffer),
    ensures
        classify(text) == ParseResult::RequiresSemicolon,
{
}

/// A text that ends inside a quote is `Incomplete`, whatever else it holds.
pub proof fn open_quote_is_incomplete(text: Seq<char>)
    requires
        scan(text).enclosure is Some,
    ensures
        classify(text) == ParseResult::Incomplete,
{
}

/// The two slashes that start a line comment.
pub open spec fn comment_start() -> Seq<char> {
    seq!['/', '/']
}

/// Whether `text` holds no newline.
pub open spec fn on_one_line(text: Seq<char>) -> bool {
    forall|i: int| 0 <= i < text.len() ==> text[i] != '\n'
}

/// A scanner that is inside a line comment stays as it is over text without
/// a newline.
pub proof fn comment_swallows_line(st: Scanner, line: Seq<char>)
    requires
        st.phase is Comment,
        on_one_line(line),
    ensures
        st.feed(line) == st,
    decreases line.len(),
{
    if line.len() > 0 {
        comment_swallows_line(st, line.drop_last());
    }
}

/// A line comment at the end of a text changes nothing: after `//` and any
/// characters but a newline, braces and quotes among them, the scanner has
/// the brace depth, the enclosure and the keyword buffer that it had before
/// the comment, and the text is classified as it was without the comment.
///
/// This holds where the comment stands outside quotes and its first slash is
/// not escaped by a backslash at the end of the text.
pub proof fn line_comment_is_inert(text: Seq<char>, comment: Seq<char>)
    requires
        scan(text).enclosure is None,
        !(scan(text).phase is Escape),
        on_one_line(comment),
    ensures
        scan(text + comment_start() + comment) == scan(text).in_phase(Phase::Comment),
        classify(text + comment_start() + comment) == classify(text),
{
    let st = scan(text);
    let start = comment_start();
    lemma_feed_concat(Scanner::start(), text, start);
    assert(start.drop_last() =~= seq!['/']);
    assert(seq!['/'].drop_last() =~= Seq::<char>::empty());
    assert(st.feed(seq!['/']) == st.feed(Seq::<char>::empty()).step('/'));
    lemma_feed_concat(Scanner::start(), text + start, comment);
    comment_swallows_line(st.in_phase(Phase::Comment), comment);
}

/// Inside a quote, a quote character of the same kind that follows a
/// backslash does not close the quote: the scanner is where it was before
/// the two, and the text is `Incomplete`.
///
/// This holds where the backslash is not itself escaped by a backslash
/// before it.
pub proof fn escaped_quote_keeps_enclosure(text: Seq<char>, quote: char)
    requires
        scan(text).enclosure == Some(quote),
        !(scan(text).phase is Escape),
    ensures
        scan(text + seq!['\\', quote]) == scan(text),
        classify(text + seq!['\\', quote]) == ParseResult::Incomplete,
{
    let st = scan(text);
    let pair = seq!['\\', quote];
    lemma_scan_wf(text);
    lemma_feed_concat(Scanner::start(), text, pair);
    assert(pair.drop_last() =~= seq!['\\']);
    assert(seq!['\\'].drop_last() =~= Seq::<char>::empty());
    assert(st.feed(seq!['\\']) == st.feed(Seq::<char>::empty()).step('\\'));
}

/// How often `brace` stands in `text` where the scanner reads it as code:
/// outside quotes and comments, and not after a backslash.
pub open spec fn counted(text: Seq<char>, brace: char) -> nat
    decreases text.len(),
{
    if text.len() == 0 {
        0
    } else if scan(text.drop_last()).reads_code() && text.last() == brace {
        counted(text.drop_last(), brace) + 1
    } else {
        counted(text.drop_last(), brace)
    }
}

/// The brace depth is at least the number of opening braces less the number
/// of closing ones, counted where the scanner reads them as code. It can be
/// more: a closing brace with nothing to close is passed over.
pub proof fn depth_covers_open_braces(text: Seq<char>)
    ensures
        scan(text).brace_depth >= counted(text, '{') - counted(text, '}'),
    decreases text.len(),
{
    if text.len() > 0 {
        depth_covers_open_braces(text.drop_last());
    }
}

/// A text with more opening braces than closing ones, counted where the
/// scanner reads them as code, is `Incomplete`, whatever else it holds.
pub proof fn more_open_braces_is_incomplete(text: Seq<char>)
    requires
        counted(text, '{') > counted(text, '}'),
    ensures
        classify(text) == ParseResult::Incomplete,
{
    depth_covers_open_braces(text);
}

/// How often `c` stands in `text`.
pub open spec fn occurrences(text: Seq<char>, c: char) -> nat
    decreases text.len(),
{
    if text.len() == 0 {
        0
    } else if text.last() == c {
        occurrences(text.drop_last(), c) + 1
    } else {
        occurrences(text.drop_last(), c)
    }
}

/// Whether `text` holds no backslash, quote character or slash, so that all
/// of it is read as code.
pub open spec fn is_plain(text: Seq<char>) -> bool {
    forall|i: int|
        0 <= i < text.len() ==> text[i] != '\\' && text[i] != '\'' && text[i] != '"' && text[i]
            != '/'
}

/// In a plain text every brace counts.
pub proof fn plain_text_is_code(text: Seq<char>, brace: char)
    requires
        is_plain(text),
    ensures
        scan(text).phase is Code,
        scan(text).enclosure is None,
        counted(text, brace) == occurrences(text, brace),
    decreases text.len(),
{
    if text.len() > 0 {
        plain_text_is_code(text.drop_last(), brace);
    }
}

/// A text without backslashes, quote characters and slashes that holds more
/// `{` than `}` is `Incomplete`.
pub proof fn plain_text_with_more_open_braces_is_incomplete(text: Seq<char>)
    requires
        is_plain(text),
        occurrences(text, '{') > occurrences(text, '}'),
    ensures
        classify(text) == ParseResult::Incomplete,
{
    plain_text_is_code(text, '{');
    plain_text_is_code(text, '}');
    more_open_braces_is_incomplete(text);
}

/// Whether `text` holds no backslash and no slash, and no quote character
/// but `quote`, so that every `quote` in it opens or closes a quote.
pub open spec fn quotes_only_with(text: Seq<char>, quote: char) -> bool {
    forall|i: int|
        0 <= i < text.len() ==> text[i] != '\\' && text[i] != '/' && (text[i] == '\'' || text[i]
            == '"' ==> text[i] == quote)
}

/// In a text whose only quote character is `quote`, and which holds no
/// backslash and no slash, the scanner is inside a quote exactly after an
/// odd number of quote characters.
pub proof fn quotes_open_and_close(text: Seq<char>, quote: char)
    requires
        quote == '\'' || quote == '"',
        quotes_only_with(text, quote),
    ensures
        scan(text).phase is Code,
        scan(text).enclosure == (if occurrences(text, quote) % 2 == 1 {
            Some(quote)
        } else {
            None
        }),
    decreases text.len(),
{
    if text.len() > 0 {
        quotes_open_and_close(text.drop_last(), quote);
    }
}

/// A text with an odd number of quote characters of one kind, and without
/// backslashes, slashes and quote characters of the other kind, is
/// `Incomplete`.
pub proof fn odd_quotes_are_incomplete(text: Seq<char>, quote: char)
    requires
        quote == '\'' || quote == '"',
        quotes_only_with(text, quote),
        occurrences(text, quote) % 2 == 1,
    ensures
        classify(text) == ParseResult::Incomplete,
{
    quotes_open_and_close(text, quote);
}

/// Whether `c` is read as part of a word: it is none of the characters that
/// the scanner treats in a way of their own.
pub open spec fn is_word_char(c: char) -> bool {
    c != '\\' && c != '\'' && c != '"' && c != '/' && c != '{' && c != '}' && c != ' ' && c != '='
}

/// Whether `word` is a word: not empty, and made of word characters.
pub open spec fn is_word(word: Seq<char>) -> bool {
    &&& word.len() > 0
    &&& forall|i: int| 0 <= i < word.len() ==> is_word_char(#[trigger] word[i])
}

/// Whether `literal` is a quoted literal: it starts with a quote character,
/// ends with the same one, and holds neither that character nor a backslash
/// in between.
pub open spec fn is_quoted(literal: Seq<char>) -> bool {
    &&& literal.len() >= 2
    &&& literal[0] == '\'' || literal[0] == '"'
    &&& literal.last() == literal[0]
    &&& forall|i: int|
        0 < i < literal.len() - 1 ==> #[trigger] literal[i] != literal[0] && literal[i] != '\\'
}

/// One space, or nothing.
pub open spec fn gap(spaced: bool) -> Seq<char> {
    if spaced {
        seq![' ']
    } else {
        Seq::empty()
    }
}

/// The text of a binding without a semicolon: `let`, a space, `name`, `=`
/// with or without a space before it and after it, and `value`.
pub open spec fn bare_let(
    name: Seq<char>,
    value: Seq<char>,
    space_before: bool,
    space_after: bool,
) -> Seq<char> {
    let_word() + seq![' '] + name + gap(space_before) + assign_word() + gap(space_after) + value
}

/// Whether the scanner in state `st` is outside quotes, braces and comments
/// and at the start of a word: the entry it is reading holds nothing but
/// white space, or is an assignment sign. A single slash may have come just
/// before: it is forgotten with the next character.
pub open spec fn at_word_start(st: Scanner) -> bool {
    &&& st.phase is Code || st.phase is Slash
    &&& !st.is_open()
    &&& st.keyword_buffer.len() > 0
    &&& st.keyword_buffer.last() == assign_word() || all_white_space(
        st.keyword_buffer.last(),
        0,
        st.keyword_buffer.last().len() as int,
    )
}

/// A keyword buffer after the word `word`: it is added to the last entry, or
/// starts a new entry after an assignment sign.
pub open spec fn with_word(buffer: Seq<Seq<char>>, word: Seq<char>) -> Seq<Seq<char>> {
    if buffer.len() > 0 && buffer.last() != assign_word() {
        buffer.drop_last().push(buffer.last() + word)
    } else {
        buffer.push(word)
    }
}

/// Feeding one character is one step.
pub proof fn feed_one(st: Scanner, c: char)
    ensures
        st.feed(seq![c]) == st.step(c),
{
    assert(st.feed(seq![c]) == st.feed(seq![c].drop_last()).step(seq![c].last()));
}

/// Outside quotes, a word goes into the keyword buffer and changes nothing
/// else.
pub proof fn feed_word(st: Scanner, word: Seq<char>)
    requires
        st.phase is Code,
        st.enclosure is None,
        is_word(word),
    ensures
        st.feed(word) == (Scanner { keyword_buffer: with_word(st.keyword_buffer, word), ..st }),
    decreases word.len(),
{
    let head = word.drop_last();
    let c = word.last();
    let buffer = st.keyword_buffer;
    if head.len() == 0 {
        assert(st.feed(head) == st);
        if buffer.len() > 0 && buffer.last() != assign_word() {
            assert(buffer.last().push(c) =~= buffer.last() + word);
        } else {
            assert(seq![c] =~= word);
        }
    } else {
        feed_word(st, head);
        let middle = with_word(buffer, head);
        if buffer.len() > 0 && buffer.last() != assign_word() {
            assert((buffer.last() + head).push(c) =~= buffer.last() + word);
            assert(middle.drop_last() =~= buffer.drop_last());
        } else {
            assert(head.push(c) =~= word);
            assert(middle.drop_last() =~= buffer);
        }
    }
}

/// Inside a quote, text without the quote character and without backslashes
/// changes nothing.
pub proof fn feed_inside_quote(st: Scanner, quote: char, body: Seq<char>)
    requires
        st.phase is Code,
        st.enclosure == Some(quote),
        forall|i: int| 0 <= i < body.len() ==> #[trigger] body[i] != quote && body[i] != '\\',
    ensures
        st.feed(body) == st,
    decreases body.len(),
{
    if body.len() > 0 {
        let head = body.drop_last();
        feed_inside_quote(st, quote, head);
    }
}

/// Outside quotes, a quoted literal puts the sentinel into the keyword
/// buffer and changes nothing else.
pub proof fn feed_quoted(st: Scanner, literal: Seq<char>)
    requires
        st.phase is Code,
        st.enclosure is None,
        is_quoted(literal),
    ensures
        st.feed(literal) == (Scanner {
            keyword_buffer: with_entry(st.keyword_buffer, sentinel()),
            ..st
        }),
{
    let quote = literal[0];
    let body = literal.subrange(1, literal.len() - 1);
    assert(literal =~= seq![quote] + body + seq![quote]);
    lemma_feed_concat(st, seq![quote] + body, seq![quote]);
    lemma_feed_concat(st, seq![quote], body);
    feed_one(st, quote);
    let inside = st.step(quote);
    feed_inside_quote(inside, quote, body);
    feed_one(inside, quote);
}

/// The keyword `let` after white space is still `let` when trimmed.
pub proof fn trim_of_padded_let(blank: Seq<char>)
    requires
        all_white_space(blank, 0, blank.len() as int),
    ensures
        trim(blank + let_word()) == let_word(),
{
    let padded = blank + let_word();
    lemma_trim_start_is_skip(padded, blank.len() as int);
    lemma_trim_end_is_take(let_word(), 3);
}

/// The entry that a value leaves in the keyword buffer: the value itself
/// if it is a word, the sentinel if it is a quoted literal.
pub open spec fn value_entry(value: Seq<char>) -> Seq<char> {
    if is_word(value) {
        value
    } else {
        sentinel()
    }
}

/// The keyword buffer after a bare binding has been read into `buffer`.
pub open spec fn with_bare_let(
    buffer: Seq<Seq<char>>,
    name: Seq<char>,
    value: Seq<char>,
) -> Seq<Seq<char>> {
    with_word(buffer, let_word()).push(name).push(assign_word()).push(value_entry(value))
}

/// Outside quotes, `let`, a space and a name add the name as an entry
/// after the one that `let` went into.
pub proof fn feed_let_and_name(st: Scanner, name: Seq<char>)
    requires
        st.phase is Code,
        st.enclosure is None,
        is_word(name),
    ensures
        st.feed(let_word() + seq![' '] + name) == (Scanner {
            keyword_buffer: with_word(st.keyword_buffer, let_word()).push(name),
            ..st
        }),
{
    let keyword = let_word();
    lemma_feed_concat(st, keyword + seq![' '], name);
    lemma_feed_concat(st, keyword, seq![' ']);
    feed_word(st, keyword);
    let s1 = st.feed(keyword);
    feed_one(s1, ' ');
    let s2 = s1.step(' ');
    feed_word(s2, name);
    assert(s2.keyword_buffer.drop_last() =~= s1.keyword_buffer);
}

/// Outside quotes and after a word, an assignment sign becomes the next
/// entry, with or without a space before it.
pub proof fn feed_sign(st: Scanner, space_before: bool)
    requires
        st.phase is Code,
        st.enclosure is None,
        st.keyword_buffer.len() > 0,
        st.keyword_buffer.last().len() > 0,
    ensures
        st.feed(gap(space_before) + assign_word()) == (Scanner {
            keyword_buffer: st.keyword_buffer.push(assign_word()),
            ..st
        }),
{
    lemma_feed_concat(st, gap(space_before), assign_word());
    let s1 = st.feed(gap(space_before));
    if space_before {
        feed_one(st, ' ');
        assert(s1.keyword_buffer.drop_last() =~= st.keyword_buffer);
    }
    feed_one(s1, '=');
}

/// Outside quotes and after an assignment sign, a value becomes the next
/// entry, with or without a space before it.
pub proof fn feed_value(st: Scanner, space_before: bool, value: Seq<char>)
    requires
        st.phase is Code,
        st.enclosure is None,
        st.keyword_buffer.len() > 0,
        st.keyword_buffer.last() == assign_word(),
        is_word(value) || is_quoted(value),
    ensures
        st.feed(gap(space_before) + value) == (Scanner {
            keyword_buffer: st.keyword_buffer.push(value_entry(value)),
            ..st
        }),
{
    lemma_feed_concat(st, gap(space_before), value);
    let s1 = st.feed(gap(space_before));
    if space_before {
        feed_one(st, ' ');
        assert(s1.keyword_buffer.drop_last() =~= st.keyword_buffer);
    }
    if is_word(value) {
        feed_word(s1, value);
    } else {
        feed_quoted(s1, value);
    }
}

/// Outside quotes, a bare binding goes into the keyword buffer and changes
/// nothing else.
pub proof fn feed_bare_let(
    st: Scanner,
    name: Seq<char>,
    value: Seq<char>,
    space_before: bool,
    space_after: bool,
)
    requires
        st.phase is Code,
        st.enclosure is None,
        is_word(name),
        is_word(value) || is_quoted(value),
    ensures
        st.feed(bare_let(name, value, space_before, space_after)) == (Scanner {
            keyword_buffer: with_bare_let(st.keyword_buffer, name, value),
            ..st
        }),
{
    let head = let_word() + seq![' '] + name;
    let sign = gap(space_before) + assign_word();
    let tail = gap(space_after) + value;
    assert(bare_let(name, value, space_before, space_after) =~= head + sign + tail);
    lemma_feed_concat(st, head + sign, tail);
    lemma_feed_concat(st, head, sign);
    feed_let_and_name(st, name);
    feed_sign(st.feed(head), space_before);
    feed_value(st.feed(head).feed(sign), space_after, value);
}

/// A keyword buffer that a bare binding has been read into, starting at the
/// start of a word, ends in a bare binding.
pub proof fn bare_let_is_found(buffer: Seq<Seq<char>>, name: Seq<char>, value: Seq<char>)
    requires
        buffer.len() > 0,
        buffer.last() == assign_word() || all_white_space(
            buffer.last(),
            0,
            buffer.last().len() as int,
        ),
    ensures
        ends_with_bare_let(with_bare_let(buffer, name, value)),
{
    if buffer.last() != assign_word() {
        trim_of_padded_let(buffer.last());
    } else {
        trim_of_padded_let(Seq::<char>::empty());
    }
    lemma_trim_start_is_skip(assign_word(), 0);
    lemma_trim_end_is_take(assign_word(), 1);
}

/// A text that ends in a bare binding is `RequiresSemicolon`: after any
/// text that leaves the scanner at the start of a word with nothing open,
/// `let`, a name, `=` and a value that is a word or a quoted literal call
/// for a semicolon, with or without a space on either side of the `=`.
pub proof fn bare_let_requires_semicolon(
    before: Seq<char>,
    name: Seq<char>,
    value: Seq<char>,
    space_before: bool,
    space_after: bool,
)
    requires
        at_word_start(scan(before)),
        is_word(name),
        is_word(value) || is_quoted(value),
    ensures
        classify(before + bare_let(name, value, space_before, space_after))
            == ParseResult::RequiresSemicolon,
{
    let st = scan(before);
    let binding = bare_let(name, value, space_before, space_after);
    lemma_feed_concat(Scanner::start(), before, binding);
    lemma_feed_first(st, binding);
    lemma_feed_first(st.in_phase(Phase::Code), binding);
    feed_bare_let(st.in_phase(Phase::Code), name, value, space_before, space_after);
    bare_let_is_found(st.keyword_buffer, name, value);
}

} // verus!
