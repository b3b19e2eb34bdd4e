//! Random identifiers for new playlists and stored files.
use vstd::prelude::*;
use rand::Rng;

verus! {

/// An ASCII letter or digit.
pub open spec fn is_alphanumeric(c: char) -> bool {
    ('a' as int <= c as int && c as int <= 'z' as int) || ('A' as int <= c as int && c as int
        <= 'Z' as int) || ('0' as int <= c as int && c as int <= '9' as int)
}

/// An identifier as the program makes them: 32 ASCII letters and digits.
pub open spec fn is_random_id(s: Seq<char>) -> bool {
    s.len() == ID_LEN && forall|i: int| 0 <= i < s.len() ==> is_alphanumeric(#[trigger] s[i])
}

/// The number of characters in an identifier.
pub const ID_LEN: usize = 32;

/// One character drawn by `rand::rng()` from `rand::distr::Alphanumeric`, which samples the
/// ASCII letters and digits. Which one comes out is chance: only its kind is stated.
#[verifier::external_body]
fn draw_alphanumeric() -> (c: char)
    ensures
        is_alphanumeric(c),
{
    char::from(rand::rng().sample(rand::distr::Alphanumeric))
}

/// A fresh identifier for a new playlist or a stored file: 32 random ASCII letters and
/// digits.
pub fn random_id() -> (r: String)
    ensures
        is_random_id(r@),
{
    let mut chars: Vec<char> = Vec::new();
    while chars.len() < ID_LEN
        invariant
            chars@.len() <= ID_LEN,
            forall|i: int| 0 <= i < chars@.len() ==> is_alphanumeric(#[trigger] chars@[i]),
        decreases ID_LEN - chars@.len(),
    {
        let c = draw_alphanumeric();
        chars.push(c);
    }
    crate::text::text_of(&chars)
}

} // verus!
