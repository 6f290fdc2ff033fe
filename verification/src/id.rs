//! Random paste identifiers.
//!
//! An identifier is a short random string over an alphabet that leaves out
//! the Latin letters easily confused across fonts (`i`, `l`, `o` and their
//! upper-case forms). The generator is stateless; uniqueness is enforced by
//! the caller's existence check against the target repository.

use vstd::prelude::*;
use vstd::string::StrSliceExecFns;

verus! {

/// Length, in characters, of every generated identifier.
pub const ID_LENGTH: usize = 12;

/// Number of characters in the identifier alphabet: the 52 Latin letters
/// minus the six confusable ones.
pub const ALPHABET_SIZE: usize = 46;

/// Whether `c` belongs to the identifier alphabet: a Latin letter, in either
/// case, other than `i`, `l`, `o`, `I`, `L`, `O`.
pub open spec fn is_id_char(c: char) -> bool {
    let u = c as u32;
    &&& (('a' as u32) <= u <= ('z' as u32)) || (('A' as u32) <= u <= ('Z' as u32))
    &&& u != ('i' as u32)
    &&& u != ('l' as u32)
    &&& u != ('o' as u32)
    &&& u != ('I' as u32)
    &&& u != ('L' as u32)
    &&& u != ('O' as u32)
}

/// Whether `s` has the exact shape of a generated identifier: `ID_LENGTH`
/// characters, each drawn from the identifier alphabet.
pub open spec fn valid_id(s: Seq<char>) -> bool {
    &&& s.len() == ID_LENGTH
    &&& forall|i: int| 0 <= i < s.len() ==> is_id_char(#[trigger] s[i])
}

/// Exec check of `is_id_char`.
fn id_char(c: char) -> (r: bool)
    ensures
        r == is_id_char(c),
{
    let u = c as u32;
    (('a' as u32) <= u && u <= ('z' as u32) || ('A' as u32) <= u && u <= ('Z' as u32))
        && u != ('i' as u32) && u != ('l' as u32) && u != ('o' as u32)
        && u != ('I' as u32) && u != ('L' as u32) && u != ('O' as u32)
}

/// Whether `id` has the exact shape of a generated identifier.
///
/// Every externally supplied identifier is untrusted: the disk-backed
/// repository uses the identifier as a file name, and this check is what
/// keeps an identifier from escaping the storage directory.
pub fn is_valid_id(id: &str) -> (r: bool)
    ensures
        r == valid_id(id@),
{
    let n = id.unicode_len();
    if n != ID_LENGTH {
        return false;
    }
    let mut k: usize = 0;
    while k < n
        invariant
            n == id@.len(),
            k <= n,
            forall|i: int| 0 <= i < k ==> is_id_char(#[trigger] id@[i]),
        decreases n - k,
    {
        if !id_char(id.get_char(k)) {
            return false;
        }
        k += 1;
    }
    true
}

/// Relies on rand's `Rng::gen_range` over `thread_rng`: the sample is drawn
/// from the half-open range, so it is strictly below `n`; the range is
/// non-empty, so the call does not panic. Nothing is assumed about which
/// value comes back.
#[verifier::external_body]
fn random_below(n: usize) -> (r: usize)
    requires
        n > 0,
    ensures
        r < n,
{
    <rand::rngs::ThreadRng as rand::Rng>::gen_range(&mut rand::thread_rng(), 0..n)
}

/// Relies on `String::push`: appends exactly the given character at the end.
#[verifier::external_body]
fn push_char(s: &mut String, c: char)
    ensures
        final(s)@ == old(s)@.push(c),
{
    s.push(c);
}

/// The identifier alphabet as a string slice: the lower-case letters, then
/// the upper-case ones, each run missing its three confusable letters.
fn alphabet() -> (s: &'static str)
    ensures
        s@.len() == ALPHABET_SIZE,
        forall|i: int| 0 <= i < s@.len() ==> is_id_char(#[trigger] s@[i]),
{
    let s = "abcdefghjkmnpqrstuvwxyzABCDEFGHJKMNPQRSTUVWXYZ";
    proof {
        reveal_strlit("abcdefghjkmnpqrstuvwxyzABCDEFGHJKMNPQRSTUVWXYZ");
        assert(s@.len() == ALPHABET_SIZE);
        assert forall|i: int| 0 <= i < s@.len() implies is_id_char(#[trigger] s@[i]) by {
            assert(s@.len() == 46);
        }
    }
    s
}

/// Generates a fresh random identifier: `ID_LENGTH` characters drawn, with
/// replacement, from the confusable-free alphabet.
///
/// The generator keeps no state and makes no uniqueness promise of its own;
/// the submission flow pairs it with the repository's existence check.
pub fn generate_id() -> (id: String)
    ensures
        valid_id(id@),
{
    let chars = alphabet();
    let mut id = String::new();
    let mut k: usize = 0;
    while k < ID_LENGTH
        invariant
            k <= ID_LENGTH,
            id@.len() == k,
            chars@.len() == ALPHABET_SIZE,
            forall|i: int| 0 <= i < chars@.len() ==> is_id_char(#[trigger] chars@[i]),
            forall|i: int| 0 <= i < k ==> is_id_char(#[trigger] id@[i]),
        decreases ID_LENGTH - k,
    {
        let j = random_below(ALPHABET_SIZE);
        let c = chars.get_char(j);
        push_char(&mut id, c);
        k += 1;
    }
    id
}

} // verus!
