//! The login and registration flows: credential verification against the
//! store, password hashing, and token issuance.  Authentication failures
//! are opaque: a missing user and a wrong password are one rejection.
use crate::hashing::{bcrypt_matches, hash_password, verify_password};
use crate::jwt::{encode, token_bytes_of, AuthError, Claims};
use crate::models::{UserLoginDto, UserRegisterDto};
use crate::store::Store;
use vstd::prelude::*;
use vstd::utf8::encode_utf8;

verus! {

/// How registration can fail.  The boundary maps each to a status and an
/// error message of its own, as the HTTP layer always has.
#[derive(Clone, Copy, Debug, PartialEq, Eq, Structural)]
pub enum RegisterError {
    /// A user with this name already exists; no record was created.
    NameTaken,
    /// A user with this email already exists; no record was created.
    EmailTaken,
    /// The password could not be hashed; no record was created.
    HashingFailure,
    /// The store rejected the new record; nothing was created.
    StoreFailure,
}

/// Logs a user in: succeeds exactly when a user with the given name exists
/// and the password matches the stored hash, and then returns a token whose
/// claims carry the stored user's name and id and expire one validity
/// window from `now`.  Whether the name or the password was wrong is not
/// revealed.
pub fn login(store: &Store, body: &UserLoginDto, secret: &Vec<u8>, now: u64) -> (r: Result<
    String,
    AuthError,
>)
    requires
        store.wf(),
        now + crate::VALIDITY_WINDOW <= u64::MAX,
    ensures
        match r {
            Ok(t) => ({
                &&& store.has_user_named(body.name@)
                &&& bcrypt_matches(body.password@, store.user_named(body.name@).password@)
                &&& encode_utf8(t@) == token_bytes_of(
                    secret@,
                    (now + crate::VALIDITY_WINDOW) as u64,
                    store.user_named(body.name@).name@,
                    store.user_named(body.name@).id@,
                )
                &&& encode_utf8(store.user_named(body.name@).name@).len() < 0x10000000000000000
            }),
            Err(e) => ({
                &&& e == AuthError::WrongCredentials
                &&& !(store.has_user_named(body.name@) && bcrypt_matches(
                    body.password@,
                    store.user_named(body.name@).password@,
                ))
            }),
        },
{
    let user = match store.get_user_by_name(body.name.as_str()) {
        Some(u) => u,
        None => {
            return Err(AuthError::WrongCredentials);
        },
    };
    if !verify_password(body.password.as_str(), user.password.as_str()) {
        return Err(AuthError::WrongCredentials);
    }
    let claims = Claims::new_at(user.name, user.id, now);
    match encode(&claims, secret) {
        Ok(t) => Ok(t),
        Err(_) => {
            proof {
                assert(false);
            }
            Err(AuthError::TokenCreation)
        },
    }
}

/// Registers a user: rejects a taken name or email without touching the
/// store, hashes the password, stores the record under a fresh id, and
/// returns a token for the new user expiring one validity window from
/// `now`.
pub fn register(store: &mut Store, user: &UserRegisterDto, secret: &Vec<u8>, now: u64) -> (r:
    Result<String, RegisterError>)
    requires
        old(store).wf(),
        now + crate::VALIDITY_WINDOW <= u64::MAX,
    ensures
        final(store).wf(),
        match r {
            Ok(t) => ({
                let us = final(store).users@;
                let os = old(store).users@;
                &&& !old(store).has_user_named(user.name@)
                &&& !old(store).has_user_email(user.email@)
                &&& us.len() == os.len() + 1
                &&& us.take(os.len() as int) == os
                &&& us.last().name@ == user.name@
                &&& us.last().email@ == user.email@
                &&& bcrypt_matches(user.password@, us.last().password@)
                &&& us.last().id@.len() == 36
                &&& encode_utf8(user.name@).len() < 0x10000000000000000
                &&& final(store).lists@ == old(store).lists@
                &&& final(store).todos@ == old(store).todos@
                &&& encode_utf8(t@) == token_bytes_of(
                    secret@,
                    (now + crate::VALIDITY_WINDOW) as u64,
                    user.name@,
                    us.last().id@,
                )
            }),
            Err(e) => ({
                &&& *final(store) == *old(store)
                &&& (e == RegisterError::NameTaken <==> old(store).has_user_named(user.name@))
                &&& (e == RegisterError::EmailTaken <==> !old(store).has_user_named(user.name@)
                    && old(store).has_user_email(user.email@))
                &&& (e == RegisterError::StoreFailure ==> old(store).users@.len() > 0)
                &&& e != RegisterError::HashingFailure
            }),
        },
{
    if store.user_exists_by_name(user.name.as_str()) {
        return Err(RegisterError::NameTaken);
    }
    if store.user_exists_by_email(user.email.as_str()) {
        return Err(RegisterError::EmailTaken);
    }
    let hashed = match hash_password(user.password.as_str()) {
        Ok(h) => h,
        Err(_) => {
            proof {
                assert(false);
            }
            return Err(RegisterError::HashingFailure);
        },
    };
    let record = UserRegisterDto {
        name: user.name.clone(),
        email: user.email.clone(),
        password: hashed,
    };
    let user_id = match store.create_user(&record) {
        Some(id) => id,
        None => {
            return Err(RegisterError::StoreFailure);
        },
    };
    let claims = Claims::new_at(user.name.clone(), user_id, now);
    match encode(&claims, secret) {
        Ok(t) => Ok(t),
        Err(_) => {
            proof {
                assert(false);
            }
            Err(RegisterError::StoreFailure)
        },
    }
}

} // verus!
