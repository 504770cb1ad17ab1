//! Password hashing: a one-way salted bcrypt hash and its constant-time
//! check, delegated to the pwhash crate behind two trusted wrappers.
use vstd::prelude::*;

verus! {

use vstd::string::StrSliceExecFns;

/// Whether `pass` matches the salted bcrypt hash text `hash`.  The check
/// recomputes the hash with the salt and cost embedded in the text, so its
/// outcome is a pure function of the two texts.
pub uninterp spec fn bcrypt_matches(pass: Seq<char>, hash: Seq<char>) -> bool;

/// Every character lies in the printable ASCII range.  Hash texts satisfy
/// it by construction: they are `$`, digits and the bcrypt hash64 alphabet.
pub open spec fn printable_ascii(s: Seq<char>) -> bool {
    forall|i: int| 0 <= i < s.len() ==> 0x20 <= (#[trigger] s[i]) as u32 <= 0x7e
}

/// A password hash could not be produced.  Surfaced to the caller, never
/// silently defaulted.
#[derive(Clone, Copy, Debug, PartialEq, Eq, Structural)]
pub struct HashingError;

/// Relies on `pwhash::bcrypt::hash`: it emits `$`, digits and hash64
/// characters only, and never an error in the version built here (its one
/// Result source is parameter validation, which the default parameters
/// pass; a failing system random source aborts inside the call).
/// `pwhash::bcrypt::verify` recomputes the hash from the parameters
/// embedded in the emitted text, so the hash matches the password it was
/// made from.
#[verifier::external_body]
fn bcrypt_hash(pass: &str) -> (r: Option<String>)
    ensures
        r is Some,
        r matches Some(h) ==> bcrypt_matches(pass@, h@) && printable_ascii(h@),
{
    pwhash::bcrypt::hash(pass).ok()
}

/// Relies on `pwhash::bcrypt::verify`: it recomputes the bcrypt hash of
/// `pass` under the salt and cost embedded in `hash` and compares in
/// constant time; a malformed hash fails its parsing and yields `false`.
/// Its salt decoder subtracts 0x20 from each character's code before a
/// table lookup, which underflows on a control character, so those hash
/// texts are kept out by the precondition; every character at or above
/// 0x20 is either mapped or rejected as an encoding error.
#[verifier::external_body]
fn bcrypt_verify(pass: &str, hash: &str) -> (r: bool)
    requires
        printable_ascii(hash@),
    ensures
        r == bcrypt_matches(pass@, hash@),
{
    pwhash::bcrypt::verify(pass, hash)
}

/// Hashes a password with a fresh random salt.  Every hash this returns
/// matches the password it was made from, so `verify_password(p, hash(p))`
/// holds, and its text is printable ASCII.  The failure arm is part of the
/// hasher's interface; in the version built here it is never taken.
pub fn hash_password(pass: &str) -> (r: Result<String, HashingError>)
    ensures
        r is Ok,
        r matches Ok(h) ==> bcrypt_matches(pass@, h@) && printable_ascii(h@),
{
    match bcrypt_hash(pass) {
        Some(h) => Ok(h),
        None => Err(HashingError),
    }
}

/// Checks a password against a stored hash in constant time; a hash that
/// is not printable ASCII, or that bcrypt rejects, is a plain mismatch,
/// never an error or a panic.
pub fn verify_password(pass: &str, hash: &str) -> (r: bool)
    ensures
        r == (printable_ascii(hash@) && bcrypt_matches(pass@, hash@)),
{
    let n = hash.unicode_len();
    let mut i: usize = 0;
    while i < n
        invariant
            i <= n,
            n == hash@.len(),
            forall|m: int| 0 <= m < i ==> 0x20 <= (#[trigger] hash@[m]) as u32 <= 0x7e,
        decreases n - i,
    {
        let c = hash.get_char(i);
        let code = c as u32;
        if code < 0x20 || code > 0x7e {
            return false;
        }
        i = i + 1;
    }
    bcrypt_verify(pass, hash)
}

} // verus!
