//! The name of the directory that a session works in.

use rand::rngs::ThreadRng;
use rand::Rng;
use vstd::prelude::*;
use vstd::string::StringExecFns;
use crate::text::push_char;

verus! {

/// The generator that `rand::rng` hands out. Nothing is known of what is
/// inside one.
#[verifier::external_type_specification]
#[verifier::external_body]
pub struct ExThreadRng(ThreadRng);

/// `rand::rng`: a handle to the generator of the current thread. Nothing is
/// claimed of it.
pub assume_specification[ rand::rng ]() -> (generator: ThreadRng)
;

/// `Rng::random_range` on a half-open range of `u8`: some value of the
/// range, `low` included and `high` not. The call panics on an empty range,
/// so `low` has to be below `high`. Which value comes is not said: two calls
/// may differ.
#[verifier::external_body]
fn random_in(generator: &mut ThreadRng, low: u8, high: u8) -> (value: u8)
    requires
        low < high,
    ensures
        low <= value < high,
{
    generator.random_range(low..high)
}

/// What every name starts with: `rupple-`.
pub open spec fn id_prefix() -> Seq<char> {
    seq!['r', 'u', 'p', 'p', 'l', 'e', '-']
}

/// How many letters follow the prefix.
pub const ID_LETTERS: usize = 5;

/// The lowest character code that a letter of a name is drawn from: `a`.
pub const FIRST_LETTER: u8 = 97;

/// The character code that the letters of a name stay below: `z`.
pub const LETTER_LIMIT: u8 = 122;

/// Whether `code` is the code of a letter that a name may hold.
pub open spec fn is_letter_code(code: u8) -> bool {
    FIRST_LETTER <= code < LETTER_LIMIT
}

/// The characters with the codes `codes`.
pub open spec fn letters_of(codes: Seq<u8>) -> Seq<char> {
    Seq::new(codes.len(), |i: int| codes[i] as char)
}

/// The name made of the prefix and the characters with the codes `codes`.
pub open spec fn rupple_id(codes: Seq<u8>) -> Seq<char> {
    id_prefix() + letters_of(codes)
}

/// Whether `id` is a name as `generate_rupple_id` makes them: the prefix and
/// five letters from `a` to `y`.
pub open spec fn is_rupple_id(id: Seq<char>) -> bool {
    exists|codes: Seq<u8>|
        {
            &&& codes.len() == ID_LETTERS
            &&& forall|i: int| 0 <= i < codes.len() ==> is_letter_code(#[trigger] codes[i])
            &&& id == #[trigger] rupple_id(codes)
        }
}

/// A name as `generate_rupple_id` makes them has twelve characters: the
/// prefix, and five letters from `a` to `y`.
pub proof fn rupple_id_shape(id: Seq<char>)
    requires
        is_rupple_id(id),
    ensures
        id.len() == 12,
        id.take(7) == id_prefix(),
        forall|i: int| 7 <= i < 12 ==> 'a' as u32 <= (#[trigger] id[i]) as u32 <= 'y' as u32,
{
    let codes = choose|codes: Seq<u8>|
        {
            &&& codes.len() == ID_LETTERS
            &&& forall|i: int| 0 <= i < codes.len() ==> is_letter_code(#[trigger] codes[i])
            &&& id == #[trigger] rupple_id(codes)
        };
    assert(id.take(7) =~= id_prefix());
    assert forall|i: int| 7 <= i < 12 implies 'a' as u32 <= (#[trigger] id[i]) as u32 <= 'y' as u32 by {
        assert(is_letter_code(codes[i - 7]));
    }
}

/// The name with the letters that `codes` gives.
pub fn rupple_id_from(codes: &Vec<u8>) -> (id: String)
    ensures
        id@ == rupple_id(codes@),
{
    let mut id = String::from_str("rupple-");
    proof {
        reveal_strlit("rupple-");
    }
    let mut i: usize = 0;
    while i < codes.len()
        invariant
            i <= codes.len(),
            id@ == id_prefix() + letters_of(codes@.take(i as int)),
        decreases codes.len() - i,
    {
        push_char(&mut id, codes[i] as char);
        i = i + 1;
    }
    id
}

/// Generates a name for the directory of a session, formatted like
/// `rupple-XXXXX`, where each `X` is a letter drawn at random.
pub fn generate_rupple_id() -> (id: String)
    ensures
        is_rupple_id(id@),
{
    let mut generator = rand::rng();
    let mut codes: Vec<u8> = Vec::new();
    while codes.len() < ID_LETTERS
        invariant
            codes.len() <= ID_LETTERS,
            forall|i: int| 0 <= i < codes.len() ==> is_letter_code(#[trigger] codes[i]),
        decreases ID_LETTERS - codes.len(),
    {
        let code = random_in(&mut generator, FIRST_LETTER, LETTER_LIMIT);
        codes.push(code);
    }
    rupple_id_from(&codes)
}

} // verus!
