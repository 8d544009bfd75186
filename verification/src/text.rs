//! Plain character sequences: reading a string slice into a vector, and
//! reading a vector from its end.

use vstd::prelude::*;

verus! {

/// The text that a vector of characters still holds for reading: the vector
/// is read from its end.
pub open spec fn pending(chars: Seq<char>) -> Seq<char> {
    chars.reverse()
}

/// Popping one character reads the first character of the pending text.
pub proof fn lemma_pending_pop(chars: Seq<char>)
    requires
        chars.len() > 0,
    ensures
        pending(chars)[0] == chars.last(),
        pending(chars.drop_last()) == pending(chars).skip(1),
{
}

/// Popping `n` characters reads the first `n` characters of the pending
/// text.
pub proof fn lemma_pending_take(chars: Seq<char>, n: int)
    requires
        0 <= n <= chars.len(),
    ensures
        pending(chars.take(chars.len() - n)) == pending(chars).skip(n),
{
}

/// The characters of `input`, first to last.
pub fn chars_of(input: &str) -> (chars: Vec<char>)
    ensures
        chars@ == input@,
{
    let mut chars: Vec<char> = Vec::new();
    for c in it: input.chars()
        invariant
            chars@ == it.seq().take(it.index() as int),
            it.seq() == input@,
    {
        chars.push(c);
    }
    chars
}

/// `String::push`: the character is added at the end of the string.
#[verifier::external_body]
pub(crate) fn push_char(text: &mut String, c: char)
    ensures
        final(text)@ == old(text)@.push(c),
{
    text.push(c)
}

/// The string made of `chars`, first to last.
pub fn string_of(chars: &Vec<char>) -> (text: String)
    ensures
        text@ == chars@,
{
    let mut text = String::new();
    let mut i: usize = 0;
    while i < chars.len()
        invariant
            i <= chars.len(),
            text@ == chars@.take(i as int),
        decreases chars.len() - i,
    {
        push_char(&mut text, chars[i]);
        i = i + 1;
    }
    text
}

/// Adds the characters of `more` to the end of `chars`.
pub fn append_chars(chars: &mut Vec<char>, more: &Vec<char>)
    ensures
        final(chars)@ == old(chars)@ + more@,
{
    let mut i: usize = 0;
    while i < more.len()
        invariant
            i <= more.len(),
            chars@ == old(chars)@ + more@.take(i as int),
        decreases more.len() - i,
    {
        chars.push(more[i]);
        i = i + 1;
    }
}

/// Whether `text` holds `word` from position `at` on.
pub open spec fn holds_at(text: Seq<char>, at: int, word: Seq<char>) -> bool {
    &&& 0 <= at
    &&& at + word.len() <= text.len()
    &&& text.subrange(at, at + word.len()) == word
}

/// Whether `text` holds `word` from position `at` on.
pub fn has_at(text: &Vec<char>, at: usize, word: &Vec<char>) -> (found: bool)
    ensures
        found == holds_at(text@, at as int, word@),
{
    if at > text.len() || word.len() > text.len() - at {
        return false;
    }
    let mut i: usize = 0;
    while i < word.len()
        invariant
            at + word.len() <= text.len(),
            i <= word.len(),
            forall|j: int| 0 <= j < i ==> text@[at + j] == word@[j],
        decreases word.len() - i,
    {
        if text[at + i] != word[i] {
            return false;
        }
        i = i + 1;
    }
    assert(text@.subrange(at as int, at + word.len()) =~= word@);
    true
}

/// The characters of `input`, last to first.
pub fn reversed_chars(input: &str) -> (chars: Vec<char>)
    ensures
        pending(chars@) == input@,
        chars@.len() == input@.len() <= usize::MAX,
{
    let forward = chars_of(input);
    let mut chars: Vec<char> = Vec::new();
    let mut left: usize = forward.len();
    while left > 0
        invariant
            left <= forward.len(),
            forward@ == input@,
            chars@ == input@.reverse().take(forward.len() - left),
        decreases left,
    {
        left = left - 1;
        chars.push(forward[left]);
    }
    chars
}

} // verus!
