//! The source file that is handed to the compiler: a frame with the code
//! typed so far in the place of a marker.

use vstd::prelude::*;
use crate::text::{append_chars, chars_of, has_at, holds_at, string_of};

verus! {

/// The marker that stands in a frame where the code goes: `// user input`.
pub open spec fn marker() -> Seq<char> {
    seq!['/', '/', ' ', 'u', 's', 'e', 'r', ' ', 'i', 'n', 'p', 'u', 't']
}

/// `text` with `with` in the place of each `word` in it. The text is read
/// from its start, and what has taken the place of a `word` is not read
/// again. An empty `word` is found nowhere.
pub open spec fn replaced(text: Seq<char>, word: Seq<char>, with: Seq<char>) -> Seq<char>
    decreases text.len(),
{
    if word.len() == 0 || text.len() < word.len() {
        text
    } else if holds_at(text, 0, word) {
        with + replaced(text.skip(word.len() as int), word, with)
    } else {
        seq![text[0]] + replaced(text.skip(1), word, with)
    }
}

/// Where the text does not start with the word, replacing keeps the first
/// character and goes on behind it.
pub proof fn lemma_replaced_unfound(text: Seq<char>, word: Seq<char>, with: Seq<char>)
    requires
        text.len() > 0,
        word.len() == 0 || !holds_at(text, 0, word),
    ensures
        replaced(text, word, with) == seq![text[0]] + replaced(text.skip(1), word, with),
{
}

/// `text` with `with` in the place of each `word` in it.
pub fn replace_all(text: &Vec<char>, word: &Vec<char>, with: &Vec<char>) -> (out: Vec<char>)
    ensures
        out@ == replaced(text@, word@, with@),
{
    let mut out: Vec<char> = Vec::new();
    let mut i: usize = 0;
    proof {
        assert(text@.skip(0) =~= text@);
    }
    while i < text.len()
        invariant
            i <= text.len(),
            out@ + replaced(text@.skip(i as int), word@, with@) == replaced(text@, word@, with@),
        decreases text.len() - i,
    {
        let ghost rest = text@.skip(i as int);
        if word.len() > 0 && has_at(text, i, word) {
            proof {
                assert(rest.subrange(0, word.len() as int) =~= text@.subrange(
                    i as int,
                    i + word.len(),
                ));
                assert(rest.skip(word.len() as int) =~= text@.skip(i + word.len()));
                assert((out@ + with@) + replaced(text@.skip(i + word.len()), word@, with@) =~= out@
                    + (with@ + replaced(text@.skip(i + word.len()), word@, with@)));
            }
            append_chars(&mut out, with);
            i = i + word.len();
        } else {
            proof {
                if word.len() > 0 && rest.len() >= word.len() {
                    assert(rest.subrange(0, word.len() as int) =~= text@.subrange(
                        i as int,
                        i + word.len(),
                    ));
                }
                assert(rest.skip(1) =~= text@.skip(i + 1));
                lemma_replaced_unfound(rest, word@, with@);
                assert(out@.push(text@[i as int]) + replaced(text@.skip(i + 1), word@, with@)
                    =~= out@ + (seq![rest[0]] + replaced(rest.skip(1), word@, with@)));
            }
            out.push(text[i]);
            i = i + 1;
        }
    }
    out
}

/// Puts `input` into the frame `base`: the source that is compiled is `base`
/// with `input` in the place of each marker `// user input`.
pub fn format(base: &str, input: &str) -> (source: String)
    ensures
        source@ == replaced(base@, marker(), input@),
{
    let frame = chars_of(base);
    let code = chars_of(input);
    let word = chars_of("// user input");
    proof {
        reveal_strlit("// user input");
        assert(word@ =~= marker());
    }
    let out = replace_all(&frame, &word, &code);
    string_of(&out)
}

} // verus!
