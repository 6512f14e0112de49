//! The word source: supplies one freshly drawn secret word per game.
use vstd::prelude::*;

verus! {

/// Relies on rand::random: a value from the thread-local generator.
/// Nothing holds of which value comes back.
#[verifier::external_body]
fn random_u64() -> u64 {
    rand::random()
}

/// How many letters a drawn word has. Fourteen base-26 digits are enough to
/// spell out every value of a 64-bit seed.
pub const WORD_LEN: usize = 14;

/// The seed after its `i` lowest base-26 digits have been shifted out.
pub open spec fn spec_shifted(seed: u64, i: int) -> u64
    decreases i,
{
    if i <= 0 {
        seed
    } else {
        spec_shifted(seed, i - 1) / 26
    }
}

/// The seed's base-26 digit at position `i`, least significant first.
pub open spec fn spec_digit(seed: u64, i: int) -> u64 {
    spec_shifted(seed, i) % 26
}

/// The lowercase letter standing for one base-26 digit.
pub open spec fn spec_letter(d: u64) -> char {
    ((('a' as u8) + ((d % 26) as u8)) as char)
}

/// The lowercase letter standing for one base-26 digit.
fn letter_of(d: u8) -> (c: char)
    requires
        d < 26,
    ensures
        c == spec_letter(d as u64),
        'a' <= c <= 'z',
{
    (('a' as u8) + d) as char
}

/// Spells a word out of the seed's base-26 digits, least significant first:
/// `WORD_LEN` lowercase letters, the letter at each position pinned by the
/// seed's digit there.
fn word_of_seed(seed: u64) -> (w: String)
    ensures
        w@.len() == WORD_LEN,
        forall|i: int| 0 <= i < w@.len() ==> #[trigger] w@[i] == spec_letter(spec_digit(seed, i)),
        forall|i: int| 0 <= i < w@.len() ==> 'a' <= #[trigger] w@[i] <= 'z',
{
    let mut rest: u64 = seed;
    let mut w = String::new();
    let mut i: usize = 0;
    while i < WORD_LEN
        invariant
            i <= WORD_LEN,
            w@.len() == i,
            rest == spec_shifted(seed, i as int),
            forall|j: int|
                0 <= j < w@.len() ==> #[trigger] w@[j] == spec_letter(spec_digit(seed, j)),
            forall|j: int| 0 <= j < w@.len() ==> 'a' <= #[trigger] w@[j] <= 'z',
        decreases WORD_LEN - i,
    {
        let d: u8 = (rest % 26) as u8;
        proof {
            assert(d as u64 == spec_digit(seed, i as int));
        }
        crate::game::push_char(&mut w, letter_of(d));
        rest = rest / 26;
        i = i + 1;
    }
    w
}

/// Draws a fresh secret word: always non-empty, entirely lowercase letters.
/// Which word comes back depends on the random seed.
pub fn get_random_word() -> (w: String)
    ensures
        w@.len() == WORD_LEN,
        w@.len() > 0,
        forall|i: int| 0 <= i < w@.len() ==> 'a' <= #[trigger] w@[i] <= 'z',
{
    word_of_seed(random_u64())
}

} // verus!
