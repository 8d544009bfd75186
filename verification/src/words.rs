//! Words of the keyword buffer: white space, trimming, and comparing a
//! trimmed entry with a keyword.

use vstd::prelude::*;

verus! {

/// Whether `c` is white space: a character with the Unicode property
/// `White_Space`.
pub open spec fn is_white_space(c: char) -> bool {
    let n = c as u32;
    ||| 0x09 <= n <= 0x0D
    ||| n == 0x20
    ||| n == 0x85
    ||| n == 0xA0
    ||| n == 0x1680
    ||| 0x2000 <= n <= 0x200A
    ||| n == 0x2028
    ||| n == 0x2029
    ||| n == 0x202F
    ||| n == 0x205F
    ||| n == 0x3000
}

/// `word` without the white space it starts with.
pub open spec fn trim_start(word: Seq<char>) -> Seq<char>
    decreases word.len(),
{
    if word.len() > 0 && is_white_space(word.first()) {
        trim_start(word.drop_first())
    } else {
        word
    }
}

/// `word` without the white space it ends with.
pub open spec fn trim_end(word: Seq<char>) -> Seq<char>
    decreases word.len(),
{
    if word.len() > 0 && is_white_space(word.last()) {
        trim_end(word.drop_last())
    } else {
        word
    }
}

/// `word` without the white space around it.
pub open spec fn trim(word: Seq<char>) -> Seq<char> {
    trim_end(trim_start(word))
}

/// Whether every character of `word` from `from` up to `to` is white space.
pub open spec fn all_white_space(word: Seq<char>, from: int, to: int) -> bool {
    forall|i: int| from <= i < to ==> is_white_space(#[trigger] word[i])
}

/// Trimming at the start drops exactly the leading run of white space.
pub proof fn lemma_trim_start_is_skip(word: Seq<char>, start: int)
    requires
        0 <= start <= word.len(),
        all_white_space(word, 0, start),
        start < word.len() ==> !is_white_space(word[start]),
    ensures
        trim_start(word) == word.skip(start),
    decreases word.len(),
{
    if start > 0 {
        lemma_trim_start_is_skip(word.drop_first(), start - 1);
    }
}

/// Trimming at the end drops exactly the trailing run of white space.
pub proof fn lemma_trim_end_is_take(word: Seq<char>, end: int)
    requires
        0 <= end <= word.len(),
        all_white_space(word, end, word.len() as int),
        end > 0 ==> !is_white_space(word[end - 1]),
    ensures
        trim_end(word) == word.take(end),
    decreases word.len(),
{
    if end < word.len() {
        lemma_trim_end_is_take(word.drop_last(), end);
    }
}

/// Whether `c` is white space.
pub fn is_white_space_char(c: char) -> (white: bool)
    ensures
        white == is_white_space(c),
{
    let n: u32 = c as u32;
    (0x09 <= n && n <= 0x0D) || n == 0x20 || n == 0x85 || n == 0xA0 || n == 0x1680 || (0x2000 <= n
        && n <= 0x200A) || n == 0x2028 || n == 0x2029 || n == 0x202F || n == 0x205F || n
        == 0x3000
}

/// Where `word` without the white space around it starts and ends in
/// `word`. For a word of white space only, both are its length.
pub fn trim_bounds(word: &Vec<char>) -> (bounds: (usize, usize))
    ensures
        bounds.0 <= bounds.1 <= word.len(),
        trim(word@) == word@.subrange(bounds.0 as int, bounds.1 as int),
        all_white_space(word@, 0, bounds.0 as int),
        all_white_space(word@, bounds.1 as int, word.len() as int),
        bounds.0 < word.len() ==> !is_white_space(word@[bounds.0 as int]),
        bounds.0 < bounds.1 ==> !is_white_space(word@[bounds.1 - 1]),
{
    let mut start: usize = 0;
    while start < word.len() && is_white_space_char(word[start])
        invariant
            start <= word.len(),
            all_white_space(word@, 0, start as int),
        decreases word.len() - start,
    {
        start = start + 1;
    }
    let mut end: usize = word.len();
    while end > start && is_white_space_char(word[end - 1])
        invariant
            start <= end <= word.len(),
            all_white_space(word@, end as int, word.len() as int),
        decreases end,
    {
        end = end - 1;
    }
    proof {
        lemma_trim_start_is_skip(word@, start as int);
        lemma_trim_end_is_take(word@.skip(start as int), end - start);
    }
    (start, end)
}

/// `word` without the white space around it.
pub fn trimmed(word: &Vec<char>) -> (out: Vec<char>)
    ensures
        out@ == trim(word@),
{
    let (start, end) = trim_bounds(word);
    let mut out: Vec<char> = Vec::new();
    let mut i: usize = start;
    while i < end
        invariant
            start <= i <= end <= word.len(),
            out@ == word@.subrange(start as int, i as int),
        decreases end - i,
    {
        out.push(word[i]);
        i = i + 1;
    }
    out
}

/// Whether `entry`, without the white space around it, is `word`.
pub fn trimmed_equals(entry: &Vec<char>, word: &Vec<char>) -> (same: bool)
    ensures
        same == (trim(entry@) == word@),
{
    let (start, end) = trim_bounds(entry);
    if end - start != word.len() {
        return false;
    }
    let mut i: usize = 0;
    while i < word.len()
        invariant
            start <= end <= entry.len(),
            end - start == word.len(),
            i <= word.len(),
            trim(entry@) == entry@.subrange(start as int, end as int),
            forall|j: int| 0 <= j < i ==> entry@[start + j] == word@[j],
        decreases word.len() - i,
    {
        if entry[start + i] != word[i] {
            return false;
        }
        i = i + 1;
    }
    assert(entry@.subrange(start as int, end as int) =~= word@);
    true
}

} // verus!
