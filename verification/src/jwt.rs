//! The session-token codec: a compact, URL-safe, three-part signed token
//! (`header.payload.signature`) carrying the claims as its payload, signed
//! with a symmetric HMAC-SHA-256 key.
//!
//! The payload is a hex text encoding of the claims: sixteen little-endian
//! hex digits for the expiry, sixteen for the byte length of the name, then
//! the name and the user id as hex-encoded UTF-8.  Issuing and checking a
//! token are verified against the spec-level grammar below; only the HMAC
//! itself is delegated to an outside crate.
use crate::hexnum::{
    hex_of, hex_read, hex_write, is_hex_digit, le_digits, lemma_hex_of_len, lemma_le_digits_len,
    nib16_parse, nib16_write, parse_le_digits, unhex,
};
use vstd::prelude::*;
use vstd::utf8::*;

verus! {

use vstd::string::StrSliceExecFns;
use vstd::string::StringSliceAdditionalSpecFns;

/// How the check of a token can fail.  The kinds are distinguishable here,
/// for logging and for tests; the HTTP boundary collapses them into one
/// opaque rejection.
#[derive(Clone, Copy, Debug, PartialEq, Eq, Structural)]
pub enum TokenError {
    /// The token is structurally invalid or names a different algorithm.
    Malformed,
    /// The signature does not match the payload under the given key.
    BadSignature,
    /// The signature matches but the expiry time has passed.
    Expired,
}

/// The claims carried by a session token.
#[derive(Debug, PartialEq, Eq)]
pub struct Claims {
    /// Expiry, as seconds since the Unix epoch.
    pub exp: u64,
    /// The user's name.
    pub name: String,
    /// The user's id.
    pub user_id: String,
}

/// How authentication can fail at the session guard.  Every variant is
/// reported to the client as an opaque rejection; the kinds exist for the
/// boundary's status mapping and for logging.
#[derive(Clone, Copy, Debug, PartialEq, Eq, Structural)]
pub enum AuthError {
    /// The name or the password was wrong; which one is not revealed.
    WrongCredentials,
    /// No usable bearer credentials in the request.
    MissingCredentials,
    /// A token could not be created.
    TokenCreation,
    /// The presented token is malformed, mis-signed or expired.
    InvalidToken,
}

/// The fixed header part, naming the one accepted algorithm: `"HS256"`.
pub open spec fn header_bytes() -> Seq<u8> {
    seq![72u8, 83u8, 50u8, 53u8, 54u8]
}

/// The `.` separator between the token's three parts.
pub open spec fn dot() -> u8 {
    46u8
}

/// The payload encoding of a claims triple.
pub open spec fn payload_bytes_of(exp: u64, name: Seq<char>, user_id: Seq<char>) -> Seq<u8> {
    le_digits(exp as nat, 16) + le_digits(encode_utf8(name).len(), 16) + hex_of(encode_utf8(name))
        + hex_of(encode_utf8(user_id))
}

/// The bytes that are signed: `header "." payload`.
pub open spec fn signing_input(exp: u64, name: Seq<char>, user_id: Seq<char>) -> Seq<u8> {
    header_bytes() + seq![dot()] + payload_bytes_of(exp, name, user_id)
}

/// The base64url text of the HMAC-SHA-256 signature that
/// `jsonwebtoken::crypto::sign` computes for a message under a secret.  The
/// result depends on the secret and the message alone.
pub uninterp spec fn sig_of(secret: Seq<u8>, msg: Seq<u8>) -> Seq<u8>;

/// A full issued token: `header "." payload "." signature`.
pub open spec fn token_bytes_of(secret: Seq<u8>, exp: u64, name: Seq<char>, user_id: Seq<char>) -> Seq<u8> {
    signing_input(exp, name, user_id) + seq![dot()] + sig_of(secret, signing_input(exp, name, user_id))
}

/// The position of the first occurrence of `b`, if any.
pub open spec fn spec_find(s: Seq<u8>, b: u8) -> Option<int>
    decreases s.len(),
{
    if s.len() == 0 {
        None
    } else if s[0] == b {
        Some(0int)
    } else {
        match spec_find(s.drop_first(), b) {
            Some(i) => Some(i + 1),
            None => None,
        }
    }
}

/// Splits a token into header, payload and signature: the parts before the
/// first `.`, between the first and the second, and everything after the
/// second.
pub open spec fn split3(t: Seq<u8>) -> Option<(Seq<u8>, Seq<u8>, Seq<u8>)> {
    match spec_find(t, dot()) {
        None => None,
        Some(i) => {
            let rest = t.skip(i + 1);
            match spec_find(rest, dot()) {
                None => None,
                Some(j) => Some((t.take(i), rest.take(j), rest.skip(j + 1))),
            }
        },
    }
}

/// Reads a payload back into a claims triple; `None` when it is not a valid
/// encoding.
pub open spec fn parse_payload(p: Seq<u8>) -> Option<(u64, Seq<char>, Seq<char>)> {
    if p.len() < 32 {
        None
    } else {
        let e = parse_le_digits(p.subrange(0, 16));
        let l = parse_le_digits(p.subrange(16, 32));
        if e is None || l is None {
            None
        } else {
            let nl = l->Some_0;
            if 32 + 2 * nl > p.len() {
                None
            } else {
                let nb = unhex(p.subrange(32, 32 + 2 * nl as int));
                let ub = unhex(p.subrange(32 + 2 * nl as int, p.len() as int));
                if nb is Some && ub is Some && valid_utf8(nb->Some_0) && valid_utf8(ub->Some_0) {
                    Some(
                        (
                            e->Some_0 as u64,
                            decode_utf8(nb->Some_0),
                            decode_utf8(ub->Some_0),
                        ),
                    )
                } else {
                    None
                }
            }
        }
    }
}

/// The outcome of checking token bytes against a secret at time `now`: the
/// mathematical model that the executable `decode` is proved to implement.
pub open spec fn spec_verify_token(secret: Seq<u8>, t: Seq<u8>, now: u64) -> Result<
    (u64, Seq<char>, Seq<char>),
    TokenError,
> {
    match split3(t) {
        None => Err(TokenError::Malformed),
        Some((h, p, s)) => {
            if h != header_bytes() {
                Err(TokenError::Malformed)
            } else if s != sig_of(secret, h + seq![dot()] + p) {
                Err(TokenError::BadSignature)
            } else {
                match parse_payload(p) {
                    None => Err(TokenError::Malformed),
                    Some((exp, name, user_id)) => {
                        if now < exp {
                            Ok((exp, name, user_id))
                        } else {
                            Err(TokenError::Expired)
                        }
                    },
                }
            }
        },
    }
}

/// Every byte of a payload is a lowercase hex digit.
proof fn lemma_payload_hex(exp: u64, name: Seq<char>, user_id: Seq<char>)
    ensures
        forall|i: int|
            0 <= i < payload_bytes_of(exp, name, user_id).len() ==> is_hex_digit(
                #[trigger] payload_bytes_of(exp, name, user_id)[i],
            ),
{
    let p = payload_bytes_of(exp, name, user_id);
    let b1 = le_digits(exp as nat, 16);
    let b2 = le_digits(encode_utf8(name).len(), 16);
    let c1 = hex_of(encode_utf8(name));
    let c2 = hex_of(encode_utf8(user_id));
    lemma_le_digits_len(exp as nat, 16);
    lemma_le_digits_len(encode_utf8(name).len(), 16);
    lemma_hex_of_len(encode_utf8(name));
    lemma_hex_of_len(encode_utf8(user_id));
    assert(p =~= b1 + b2 + c1 + c2);
    assert forall|i: int| 0 <= i < p.len() implies is_hex_digit(#[trigger] p[i]) by {
        if i < 16 {
            assert(p[i] == b1[i]);
        } else if i < 32 {
            assert(p[i] == b2[i - 16]);
        } else if i < 32 + c1.len() {
            assert(p[i] == c1[i - 32]);
        } else {
            assert(p[i] == c2[i - 32 - c1.len()]);
        }
    }
}

/// Checking an issued token succeeds with the claims it was issued for at
/// any time before the expiry, and fails as expired at the expiry or later.
pub proof fn lemma_token_round_trip(
    secret: Seq<u8>,
    exp: u64,
    name: Seq<char>,
    user_id: Seq<char>,
    now: u64,
)
    requires
        encode_utf8(name).len() < 0x10000000000000000,
    ensures
        spec_verify_token(secret, token_bytes_of(secret, exp, name, user_id), now) == (if now < exp {
            Ok::<(u64, Seq<char>, Seq<char>), TokenError>((exp, name, user_id))
        } else {
            Err::<(u64, Seq<char>, Seq<char>), TokenError>(TokenError::Expired)
        }),
{
    let pay = payload_bytes_of(exp, name, user_id);
    let si = signing_input(exp, name, user_id);
    let sig = sig_of(secret, si);
    let t = token_bytes_of(secret, exp, name, user_id);
    let nb = encode_utf8(name);
    let ub = encode_utf8(user_id);
    lemma_le_digits_len(exp as nat, 16);
    lemma_le_digits_len(nb.len(), 16);
    lemma_hex_of_len(nb);
    lemma_hex_of_len(ub);
    lemma_payload_hex(exp, name, user_id);
    // The first dot stands right after the five header bytes.
    assert(t[0] == 72 && t[1] == 83 && t[2] == 50 && t[3] == 53 && t[4] == 54 && t[5] == 46);
    lemma_spec_find_at(t, 46, 5);
    let rest = t.skip(6);
    assert(rest =~= pay + seq![dot()] + sig);
    // The second dot stands right after the payload, whose bytes are all
    // hex digits.
    assert forall|m: int| 0 <= m < pay.len() implies rest[m] != 46 by {
        assert(rest[m] == pay[m]);
        assert(is_hex_digit(pay[m]));
    }
    assert(rest[pay.len() as int] == 46);
    lemma_spec_find_at(rest, 46, pay.len() as int);
    let h = t.take(5);
    let p = rest.take(pay.len() as int);
    let s = rest.skip(pay.len() as int + 1);
    assert(split3(t) == Some((h, p, s)));
    assert(h =~= header_bytes());
    assert(p =~= pay);
    assert(s =~= sig);
    assert(h + seq![dot()] + p =~= si);
    // The payload parses back to the claims it was built from.
    assert(pay.subrange(0, 16) =~= le_digits(exp as nat, 16));
    assert(pay.subrange(16, 32) =~= le_digits(nb.len(), 16));
    crate::hexnum::lemma_pow16_16();
    crate::hexnum::lemma_le_digits_round_trip(exp as nat, 16);
    crate::hexnum::lemma_le_digits_round_trip(nb.len(), 16);
    let nl = nb.len();
    assert(pay.subrange(32, 32 + 2 * nl as int) =~= hex_of(nb));
    assert(pay.subrange(32 + 2 * nl as int, pay.len() as int) =~= hex_of(ub));
    crate::hexnum::lemma_hex_round_trip(nb);
    crate::hexnum::lemma_hex_round_trip(ub);
    broadcast use encode_utf8_valid_utf8;
    broadcast use encode_utf8_decode_utf8;

    assert(parse_payload(pay) == Some((exp, name, user_id)));
}

/// A token that checks out is exactly the token issued for its claims under
/// the checking key: apart from a forged signature, no token but the issued
/// one is ever accepted.
pub proof fn lemma_accepted_token_is_canonical(
    secret: Seq<u8>,
    t: Seq<u8>,
    now: u64,
    exp: u64,
    name: Seq<char>,
    user_id: Seq<char>,
)
    requires
        spec_verify_token(secret, t, now) == Ok::<(u64, Seq<char>, Seq<char>), TokenError>(
            (exp, name, user_id),
        ),
    ensures
        t == token_bytes_of(secret, exp, name, user_id),
{
    let i = spec_find(t, dot())->Some_0;
    lemma_spec_find_props(t, dot());
    let rest = t.skip(i + 1);
    let j = spec_find(rest, dot())->Some_0;
    lemma_spec_find_props(rest, dot());
    let h = t.take(i);
    let p = rest.take(j);
    let s = rest.skip(j + 1);
    assert(split3(t) == Some((h, p, s)));
    assert(h == header_bytes());
    assert(i == 5);
    // Reconstruct the payload from what parsing saw of it.
    let e = parse_le_digits(p.subrange(0, 16))->Some_0;
    let l = parse_le_digits(p.subrange(16, 32))->Some_0;
    crate::hexnum::lemma_parse_le_digits_bound(p.subrange(0, 16));
    crate::hexnum::lemma_parse_le_digits_bound(p.subrange(16, 32));
    crate::hexnum::lemma_pow16_16();
    crate::hexnum::lemma_le_digits_canonical(p.subrange(0, 16));
    crate::hexnum::lemma_le_digits_canonical(p.subrange(16, 32));
    let nl = l as int;
    let nb = unhex(p.subrange(32, 32 + 2 * nl))->Some_0;
    let ub = unhex(p.subrange(32 + 2 * nl, p.len() as int))->Some_0;
    crate::hexnum::lemma_unhex_canonical(p.subrange(32, 32 + 2 * nl));
    crate::hexnum::lemma_unhex_canonical(p.subrange(32 + 2 * nl, p.len() as int));
    crate::hexnum::lemma_hex_of_len(nb);
    crate::hexnum::lemma_hex_of_len(ub);
    broadcast use decode_utf8_encode_utf8;

    assert(exp == e as u64 && name == decode_utf8(nb) && user_id == decode_utf8(ub));
    assert(encode_utf8(name) == nb);
    assert(encode_utf8(user_id) == ub);
    assert(nb.len() == l);
    assert(exp as nat == e);
    assert(payload_bytes_of(exp, name, user_id) =~= p.subrange(0, 16) + p.subrange(16, 32)
        + p.subrange(32, 32 + 2 * nl) + p.subrange(32 + 2 * nl, p.len() as int));
    assert(payload_bytes_of(exp, name, user_id) =~= p);
    assert(signing_input(exp, name, user_id) =~= h + seq![dot()] + p);
    assert(s == sig_of(secret, signing_input(exp, name, user_id)));
    assert(t =~= h + seq![dot()] + p + seq![dot()] + s) by {
        assert(t[i] == 46);
        assert(rest[j] == 46);
        assert(forall|m: int| 0 <= m < rest.len() ==> rest[m] == t[m + i + 1]);
    }
    assert(t =~= token_bytes_of(secret, exp, name, user_id));
}

/// Relies on `jsonwebtoken::crypto::sign` with `Algorithm::HS256` and a key
/// from `EncodingKey::from_secret`: it returns the base64url text of the
/// HMAC-SHA-256 of the message, a pure function of secret and message, made
/// of ASCII characters; for an HMAC algorithm it cannot fail.
#[verifier::external_body]
fn hmac_sign_b64(secret: &Vec<u8>, msg: &Vec<u8>) -> (r: Vec<u8>)
    ensures
        r@ == sig_of(secret@, msg@),
        forall|i: int| 0 <= i < r@.len() ==> r@[i] < 128,
{
    let key = jsonwebtoken::EncodingKey::from_secret(secret.as_slice());
    let s = jsonwebtoken::crypto::sign(msg.as_slice(), &key, jsonwebtoken::Algorithm::HS256)
        .expect("HMAC signing cannot fail");
    s.into_bytes()
}

/// Relies on `jsonwebtoken::crypto::verify` with `Algorithm::HS256`: it
/// recomputes the HMAC of the message and compares in constant time, so it
/// accepts exactly the base64url signature text that `sign` produces (the
/// base64url decoding it applies is strict, so no other text decodes to the
/// same signature bytes).
#[verifier::external_body]
fn hmac_verify_b64(secret: &Vec<u8>, msg: &Vec<u8>, sig: &Vec<u8>) -> (r: bool)
    ensures
        r == (sig@ == sig_of(secret@, msg@)),
{
    match std::str::from_utf8(sig.as_slice()) {
        Ok(s) => {
            let key = jsonwebtoken::DecodingKey::from_secret(secret.as_slice());
            jsonwebtoken::crypto::verify(s, msg.as_slice(), &key, jsonwebtoken::Algorithm::HS256)
                .unwrap_or(false)
        },
        Err(_) => false,
    }
}

/// Relies on `String::from_utf8` of std: it succeeds exactly on valid UTF-8
/// and then carries the given bytes unchanged.
#[verifier::external_body]
fn string_from_utf8(v: Vec<u8>) -> (r: Option<String>)
    ensures
        match r {
            Some(s) => valid_utf8(v@) && encode_utf8(s@) == v@,
            None => !valid_utf8(v@),
        },
{
    String::from_utf8(v).ok()
}

/// Relies on `chrono::Utc::now`: the current Unix timestamp in seconds.
/// Nothing can be promised of the clock's value.
#[verifier::external_body]
pub fn now_timestamp() -> (r: i64) {
    chrono::Utc::now().timestamp()
}

/// A byte sequence of ASCII bytes is valid UTF-8.
proof fn lemma_ascii_valid_utf8(bytes: Seq<u8>)
    requires
        forall|i: int| 0 <= i < bytes.len() ==> bytes[i] < 128,
    ensures
        valid_utf8(bytes),
    decreases bytes.len(),
{
    if bytes.len() > 0 {
        let b = bytes[0];
        assert(b & 0x80 == 0 && b & 0x7f == b) by (bit_vector)
            requires
                b < 128,
        ;
        assert(is_leading_byte_width_1(b));
        assert(length_of_first_scalar(bytes) == 1);
        assert(decode_first_codepoint(bytes) == b as u32);
        assert(pop_first_scalar(bytes) =~= bytes.drop_first());
        lemma_ascii_valid_utf8(bytes.drop_first());
    }
}

/// Finds the first occurrence of `b` in `v` at or after `start`.
fn find_byte(v: &Vec<u8>, start: usize, b: u8) -> (r: Option<usize>)
    requires
        start <= v@.len(),
    ensures
        match r {
            Some(k) => start <= k < v@.len() && spec_find(v@.skip(start as int), b) == Some(
                k - start,
            ),
            None => spec_find(v@.skip(start as int), b) is None,
        },
{
    let mut i: usize = start;
    while i < v.len()
        invariant
            start <= i <= v@.len(),
            forall|m: int| start <= m < i ==> v@[m] != b,
        decreases v@.len() - i,
    {
        if v[i] == b {
            proof {
                assert(forall|m: int|
                    0 <= m < v@.skip(start as int).len() ==> v@.skip(start as int)[m] == v@[
                        m + start
                    ]);
                lemma_spec_find_at(v@.skip(start as int), b, i - start);
            }
            return Some(i);
        }
        i = i + 1;
    }
    proof {
        assert(forall|m: int|
            0 <= m < v@.skip(start as int).len() ==> v@.skip(start as int)[m] == v@[m + start]);
        lemma_spec_find_none(v@.skip(start as int), b);
    }
    None
}

proof fn lemma_spec_find_at(s: Seq<u8>, b: u8, j: int)
    requires
        0 <= j < s.len(),
        s[j] == b,
        forall|m: int| 0 <= m < j ==> s[m] != b,
    ensures
        spec_find(s, b) == Some(j),
    decreases j,
{
    if j > 0 {
        lemma_spec_find_at(s.drop_first(), b, j - 1);
    }
}

proof fn lemma_spec_find_none(s: Seq<u8>, b: u8)
    requires
        forall|m: int| 0 <= m < s.len() ==> s[m] != b,
    ensures
        spec_find(s, b) is None,
    decreases s.len(),
{
    if s.len() > 0 {
        lemma_spec_find_none(s.drop_first(), b);
    }
}

/// What a found position means: the byte is there and none before it.
proof fn lemma_spec_find_props(s: Seq<u8>, b: u8)
    requires
        spec_find(s, b) is Some,
    ensures
        0 <= spec_find(s, b)->Some_0 < s.len(),
        s[spec_find(s, b)->Some_0] == b,
        forall|m: int| 0 <= m < spec_find(s, b)->Some_0 ==> s[m] != b,
    decreases s.len(),
{
    if s.len() > 0 && s[0] != b {
        lemma_spec_find_props(s.drop_first(), b);
        let j = spec_find(s, b)->Some_0;
        assert forall|m: int| 0 <= m < j implies s[m] != b by {
            if m > 0 {
                assert(s.drop_first()[m - 1] == s[m]);
            }
        }
    }
}

/// Every byte of the signed part of a token is ASCII.
proof fn lemma_signing_input_ascii(exp: u64, name: Seq<char>, user_id: Seq<char>)
    ensures
        forall|i: int|
            0 <= i < signing_input(exp, name, user_id).len() ==> #[trigger] signing_input(
                exp,
                name,
                user_id,
            )[i] < 128,
{
    let s = signing_input(exp, name, user_id);
    let a = header_bytes() + seq![dot()];
    let b1 = le_digits(exp as nat, 16);
    let b2 = le_digits(encode_utf8(name).len(), 16);
    let c1 = hex_of(encode_utf8(name));
    let c2 = hex_of(encode_utf8(user_id));
    lemma_le_digits_len(exp as nat, 16);
    lemma_le_digits_len(encode_utf8(name).len(), 16);
    lemma_hex_of_len(encode_utf8(name));
    lemma_hex_of_len(encode_utf8(user_id));
    assert(s =~= a + b1 + b2 + c1 + c2);
    assert forall|i: int| 0 <= i < s.len() implies #[trigger] s[i] < 128 by {
        if i < 6 {
            assert(s[i] == a[i]);
            assert(a[0] == 72 && a[1] == 83 && a[2] == 50 && a[3] == 53 && a[4] == 54 && a[5]
                == 46);
        } else if i < 22 {
            assert(s[i] == b1[i - 6]);
            assert(is_hex_digit(b1[i - 6]));
        } else if i < 38 {
            assert(s[i] == b2[i - 22]);
            assert(is_hex_digit(b2[i - 22]));
        } else if i < 38 + c1.len() {
            assert(s[i] == c1[i - 38]);
            assert(is_hex_digit(c1[i - 38]));
        } else {
            assert(s[i] == c2[i - 38 - c1.len()]);
            assert(is_hex_digit(c2[i - 38 - c1.len()]));
        }
    }
}

/// Copies `v[from..to]` into a fresh vector.
fn subvec(v: &Vec<u8>, from: usize, to: usize) -> (r: Vec<u8>)
    requires
        from <= to <= v@.len(),
    ensures
        r@ == v@.subrange(from as int, to as int),
{
    let mut out: Vec<u8> = Vec::new();
    let mut i: usize = from;
    while i < to
        invariant
            from <= i <= to <= v@.len(),
            out@ == v@.subrange(from as int, i as int),
        decreases to - i,
    {
        proof {
            assert(v@.subrange(from as int, i as int + 1) =~= v@.subrange(
                from as int,
                i as int,
            ).push(v@[i as int]));
        }
        out.push(v[i]);
        i = i + 1;
    }
    out
}

impl Claims {
    /// Claims for `name` and `user_id` expiring one validity window after
    /// the given issue time.
    pub fn new_at(name: String, user_id: String, now: u64) -> (c: Claims)
        requires
            now + crate::VALIDITY_WINDOW <= u64::MAX,
        ensures
            c.exp == now + crate::VALIDITY_WINDOW,
            c.name@ == name@,
            c.user_id@ == user_id@,
    {
        Claims { exp: now + crate::VALIDITY_WINDOW, name, user_id }
    }

    /// Claims issued at the current clock time.  The clock's value cannot be
    /// pinned down, so only the name and the id are.
    pub fn new(name: String, user_id: String) -> (c: Claims)
        ensures
            c.name@ == name@,
            c.user_id@ == user_id@,
            c.exp >= crate::VALIDITY_WINDOW,
    {
        let now = now_timestamp();
        let now_u: u64 = if now < 0 {
            0
        } else {
            now as u64
        };
        Claims::new_at(name, user_id, now_u)
    }
}

/// Issues the signed token for `claims` under `secret`.  Signing cannot
/// fail, so the result is always `Ok`; the `Result` mirrors the fallible
/// interface the HTTP layer consumes.
pub fn encode(claims: &Claims, secret: &Vec<u8>) -> (r: Result<String, TokenError>)
    ensures
        match r {
            Ok(t) => encode_utf8(t@) == token_bytes_of(
                secret@,
                claims.exp,
                claims.name@,
                claims.user_id@,
            ) && encode_utf8(claims.name@).len() < 0x10000000000000000,
            Err(_) => false,
        },
{
    let mut msg: Vec<u8> = Vec::new();
    msg.push(72);
    msg.push(83);
    msg.push(50);
    msg.push(53);
    msg.push(54);
    msg.push(46);
    let ghost pre = msg@;
    proof {
        assert(pre =~= header_bytes() + seq![dot()]);
    }
    nib16_write(claims.exp, &mut msg);
    let nb = claims.name.as_str().as_bytes_vec();
    let ub = claims.user_id.as_str().as_bytes_vec();
    nib16_write(nb.len() as u64, &mut msg);
    hex_write(&nb, &mut msg);
    hex_write(&ub, &mut msg);
    proof {
        assert(nb@ == encode_utf8(claims.name@));
        assert(ub@ == encode_utf8(claims.user_id@));
        assert(msg@ =~= signing_input(claims.exp, claims.name@, claims.user_id@));
    }
    let sig = hmac_sign_b64(secret, &msg);
    let mut token: Vec<u8> = msg;
    token.push(46);
    let mut k: usize = 0;
    let ghost before_sig = token@;
    while k < sig.len()
        invariant
            k <= sig@.len(),
            token@ == before_sig + sig@.take(k as int),
        decreases sig@.len() - k,
    {
        proof {
            assert(sig@.take(k as int + 1) =~= sig@.take(k as int).push(sig@[k as int]));
        }
        token.push(sig[k]);
        k = k + 1;
    }
    proof {
        assert(sig@.take(sig@.len() as int) =~= sig@);
        assert(token@ =~= token_bytes_of(secret@, claims.exp, claims.name@, claims.user_id@));
        lemma_signing_input_ascii(claims.exp, claims.name@, claims.user_id@);
        let si = signing_input(claims.exp, claims.name@, claims.user_id@);
        let slen = si.len() as int;
        assert forall|i: int| 0 <= i < token@.len() implies token@[i] < 128 by {
            if i < slen {
                assert(token@[i] == si[i]);
            } else if i == slen {
                assert(token@[i] == 46);
            } else {
                assert(token@[i] == sig@[i - slen - 1]);
            }
        }
        lemma_ascii_valid_utf8(token@);
    }
    match string_from_utf8(token) {
        Some(s) => Ok(s),
        None => {
            proof {
                assert(false);
            }
            Err(TokenError::Malformed)
        },
    }
}

/// Checks a token against the secret at time `now` and returns its claims,
/// or says exactly how it failed: the executable counterpart of
/// [`spec_verify_token`].
pub fn decode(token: &str, secret: &Vec<u8>, now: u64) -> (r: Result<Claims, TokenError>)
    ensures
        match r {
            Ok(c) => spec_verify_token(secret@, encode_utf8(token@), now) == Ok::<
                (u64, Seq<char>, Seq<char>),
                TokenError,
            >((c.exp, c.name@, c.user_id@)),
            Err(e) => spec_verify_token(secret@, encode_utf8(token@), now) == Err::<
                (u64, Seq<char>, Seq<char>),
                TokenError,
            >(e),
        },
{
    let tb = token.as_bytes_vec();
    let ghost t = tb@;
    let dot1 = match find_byte(&tb, 0, 46) {
        Some(i) => i,
        None => {
            proof {
                assert(t.skip(0) =~= t);
            }
            return Err(TokenError::Malformed);
        },
    };
    proof {
        assert(t.skip(0) =~= t);
    }
    let dot2 = match find_byte(&tb, dot1 + 1, 46) {
        Some(j) => j,
        None => {
            proof {
                assert(t.skip(dot1 + 1) =~= t.skip(spec_find(t, dot())->Some_0 + 1));
            }
            return Err(TokenError::Malformed);
        },
    };
    let ghost rest = t.skip(dot1 + 1);
    let ghost h = t.take(dot1 as int);
    let ghost p = rest.take(dot2 - dot1 - 1);
    let ghost s = rest.skip(dot2 - dot1);
    proof {
        lemma_spec_find_props(t, 46);
        lemma_spec_find_props(rest, 46);
        assert(t[dot1 as int] == 46);
        assert(rest[dot2 - dot1 - 1] == t[dot2 as int]);
        assert(t[dot2 as int] == 46);
        assert(split3(t) == Some((h, p, s)));
    }
    // The header must name the one accepted algorithm.
    let header_ok = dot1 == 5 && tb[0] == 72 && tb[1] == 83 && tb[2] == 50 && tb[3] == 53
        && tb[4] == 54;
    proof {
        assert(forall|m: int| 0 <= m < h.len() ==> h[m] == t[m]);
        if header_ok {
            assert(h =~= header_bytes());
        } else {
            assert(h != header_bytes());
        }
    }
    if !header_ok {
        return Err(TokenError::Malformed);
    }
    let tlen: usize = tb.len();
    let msg = subvec(&tb, 0, dot2);
    let sigv = subvec(&tb, dot2 + 1, tlen);
    proof {
        assert(forall|m: int| 0 <= m < p.len() ==> p[m] == t[dot1 + 1 + m]);
        assert(msg@ =~= h + seq![dot()] + p);
        assert(sigv@ =~= s);
    }
    if !hmac_verify_b64(secret, &msg, &sigv) {
        return Err(TokenError::BadSignature);
    }
    let pv = subvec(&tb, dot1 + 1, dot2);
    proof {
        assert(pv@ =~= p);
    }
    if pv.len() < 32 {
        return Err(TokenError::Malformed);
    }
    let exp = match nib16_parse(&pv, 0) {
        Some(e) => e,
        None => {
            return Err(TokenError::Malformed);
        },
    };
    let nl = match nib16_parse(&pv, 16) {
        Some(l) => l,
        None => {
            return Err(TokenError::Malformed);
        },
    };
    let plen: usize = pv.len();
    if 32 + 2 * (nl as u128) > plen as u128 {
        return Err(TokenError::Malformed);
    }
    let name_end: usize = 32 + 2 * (nl as usize);
    let nb = match hex_read(&pv, 32, name_end) {
        Some(v) => v,
        None => {
            return Err(TokenError::Malformed);
        },
    };
    let ub = match hex_read(&pv, name_end, plen) {
        Some(v) => v,
        None => {
            return Err(TokenError::Malformed);
        },
    };
    let ghost nbg = nb@;
    let ghost ubg = ub@;
    let name = match string_from_utf8(nb) {
        Some(x) => x,
        None => {
            return Err(TokenError::Malformed);
        },
    };
    let user_id = match string_from_utf8(ub) {
        Some(x) => x,
        None => {
            return Err(TokenError::Malformed);
        },
    };
    proof {
        broadcast use encode_utf8_decode_utf8;

        assert(name@ == decode_utf8(nbg));
        assert(user_id@ == decode_utf8(ubg));
    }
    if now < exp {
        Ok(Claims { exp, name, user_id })
    } else {
        Err(TokenError::Expired)
    }
}


/// The scheme prefix of an authorization header: `"Bearer "`.
pub open spec fn bearer_prefix() -> Seq<char> {
    seq!['B', 'e', 'a', 'r', 'e', 'r', ' ']
}

/// The token carried by a bearer authorization header, if the header is
/// well-formed.
pub open spec fn spec_bearer_token(h: Seq<char>) -> Option<Seq<char>> {
    if h.len() >= 7 && h.subrange(0, 7) == bearer_prefix() {
        Some(h.skip(7))
    } else {
        None
    }
}

/// The outcome of the session guard on a request's authorization header:
/// the model that the executable `authenticate` is proved to implement.
/// No header or a wrong scheme is missing credentials; any failure of the
/// token check is one opaque invalid-token rejection.
pub open spec fn spec_authenticate(
    header: Option<Seq<char>>,
    secret: Seq<u8>,
    now: u64,
) -> Result<(u64, Seq<char>, Seq<char>), AuthError> {
    match header {
        None => Err(AuthError::MissingCredentials),
        Some(h) => match spec_bearer_token(h) {
            None => Err(AuthError::MissingCredentials),
            Some(tok) => match spec_verify_token(secret, encode_utf8(tok), now) {
                Ok(c) => Ok(c),
                Err(_) => Err(AuthError::InvalidToken),
            },
        },
    }
}

/// The session guard: the single enforcement point in front of every
/// protected operation.  It extracts the bearer token from the request's
/// authorization header and checks it, statelessly; it never touches the
/// store.
pub fn authenticate(header: Option<&str>, secret: &Vec<u8>, now: u64) -> (r: Result<
    Claims,
    AuthError,
>)
    ensures
        ({
            let hv = match header {
                Some(h) => Some(h@),
                None => None,
            };
            match r {
                Ok(c) => spec_authenticate(hv, secret@, now) == Ok::<
                    (u64, Seq<char>, Seq<char>),
                    AuthError,
                >((c.exp, c.name@, c.user_id@)),
                Err(e) => spec_authenticate(hv, secret@, now) == Err::<
                    (u64, Seq<char>, Seq<char>),
                    AuthError,
                >(e),
            }
        }),
{
    let h = match header {
        Some(h) => h,
        None => {
            return Err(AuthError::MissingCredentials);
        },
    };
    let hlen = h.unicode_len();
    if hlen < 7 {
        return Err(AuthError::MissingCredentials);
    }
    let scheme_ok = h.get_char(0) == 'B' && h.get_char(1) == 'e' && h.get_char(2) == 'a'
        && h.get_char(3) == 'r' && h.get_char(4) == 'e' && h.get_char(5) == 'r' && h.get_char(6)
        == ' ';
    proof {
        if scheme_ok {
            assert(h@.subrange(0, 7) =~= bearer_prefix());
        } else {
            assert(h@.subrange(0, 7) != bearer_prefix());
        }
    }
    if !scheme_ok {
        return Err(AuthError::MissingCredentials);
    }
    let tok = h.substring_char(7, hlen);
    proof {
        assert(tok@ =~= h@.skip(7));
    }
    match decode(tok, secret, now) {
        Ok(c) => Ok(c),
        Err(_) => Err(AuthError::InvalidToken),
    }
}

} // verus!
