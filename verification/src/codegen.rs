//! Random investigation-code generation: eight characters drawn uniformly
//! from the 36-character uppercase alphanumeric alphabet.

use vstd::prelude::*;

use crate::store::{code_char_ok, code_wf};

verus! {

/// Relies on `rand::thread_rng` and `Rng::gen_range`: a uniformly drawn
/// index below the bound; nothing holds of the value beyond its range.
#[verifier::external_body]
fn random_below(bound: usize) -> (r: usize)
    requires
        bound > 0,
    ensures
        r < bound,
{
    rand::Rng::gen_range(&mut rand::thread_rng(), 0..bound)
}

/// Relies on `String::from_utf8`: ASCII bytes become the string holding
/// exactly those characters.
#[verifier::external_body]
fn string_from_ascii(bytes: Vec<u8>) -> (r: String)
    requires
        forall|i: int| 0 <= i < bytes@.len() ==> bytes@[i] < 128,
    ensures
        r@.len() == bytes@.len(),
        forall|i: int| 0 <= i < r@.len() ==> r@[i] == bytes@[i] as char,
{
    String::from_utf8(bytes).unwrap_or_default()
}

/// The byte standing at position `i` of the code alphabet: the uppercase
/// letters first, then the digits.
pub open spec fn code_alphabet_byte(i: int) -> u8 {
    if i < 26 {
        (65 + i) as u8
    } else {
        (48 + (i - 26)) as u8
    }
}

/// Generate a random join code: eight characters, each drawn independently
/// and uniformly from the uppercase letters and digits. Uniqueness against
/// stored codes is the caller's business (a bounded retry loop).
pub fn generate_investigation_code() -> (code: String)
    ensures
        code_wf(code@),
{
    let mut bytes: Vec<u8> = Vec::new();
    let mut i: usize = 0;
    while i < 8
        invariant
            i <= 8,
            bytes@.len() == i,
            forall|k: int|
                #![trigger bytes@[k]]
                0 <= k < i ==> ((65 <= bytes@[k] <= 90) || (48 <= bytes@[k] <= 57)),
        decreases 8 - i,
    {
        let idx = random_below(36);
        let b: u8 = if idx < 26 {
            65 + (idx as u8)
        } else {
            48 + (idx as u8 - 26)
        };
        bytes.push(b);
        i = i + 1;
    }
    let ghost bs = bytes@;
    let code = string_from_ascii(bytes);
    proof {
        assert forall|k: int| 0 <= k < 8 implies code_char_ok(code@[k]) by {
            assert(code@[k] == bs[k] as char);
            assert(bs[k] < 128);
        }
    }
    code
}

} // verus!
