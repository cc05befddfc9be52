use vstd::prelude::*;
use crate::error::AppError;
use crate::models::AuthResponse;
use crate::store::{AuthRecord, Store};
use argon2::password_hash::{rand_core::OsRng, PasswordHash, PasswordHasher, PasswordVerifier,
    SaltString};
use argon2::Argon2;
use rand::Rng;

verus! {

// Single-operator authentication: one stored password hash and one
// bearer token, rotated on every login. Hashing and verification are
// done by argon2 behind trusted wrappers; the decisions around them are
// verified.

/// Whether argon2 verification of `password` against the hash text `hash`
/// succeeds. The outcome is a function of the two texts alone; nothing
/// else is assumed about it.
pub uninterp spec fn password_matches(password: Seq<char>, hash: Seq<char>) -> bool;

/// Whether `PasswordHash::new` parses the text `hash`: its outcome is a
/// function of the text alone.
pub uninterp spec fn hash_wellformed(hash: Seq<char>) -> bool;

/// Relies on argon2's `hash_password` with a fresh random salt: when it
/// succeeds, the produced hash text is the canonical PHC rendering of a
/// `PasswordHash`, so it parses back, and verifying the same password
/// against it succeeds.
#[verifier::external_body]
fn hash_password_raw(password: &str) -> (r: Option<String>)
    ensures
        r matches Some(h) ==> password_matches(password@, h@) && hash_wellformed(h@),
{
    let salt = SaltString::generate(&mut OsRng);
    match Argon2::default().hash_password(password.as_bytes(), &salt) {
        Ok(h) => Some(h.to_string()),
        Err(_) => None,
    }
}

/// Relies on argon2's `PasswordHash::new` and `verify_password`: parsing
/// succeeds exactly when the hash text is well formed, and the
/// verification outcome depends only on the password and the hash text.
#[verifier::external_body]
fn verify_password_raw(password: &str, hash: &str) -> (r: Option<bool>)
    ensures
        r is Some <==> hash_wellformed(hash@),
        r matches Some(b) ==> b == password_matches(password@, hash@),
{
    match PasswordHash::new(hash) {
        Ok(parsed) => Some(
            Argon2::default().verify_password(password.as_bytes(), &parsed).is_ok(),
        ),
        Err(_) => None,
    }
}

/// Relies on rand's `thread_rng`: nothing is promised about the value.
#[verifier::external_body]
fn random_byte() -> u8 {
    rand::thread_rng().gen()
}

/// Relies on hex::encode: two lowercase hex digits for each byte.
#[verifier::external_body]
fn hex_encode(bytes: &Vec<u8>) -> (r: String)
    ensures
        r@.len() == 2 * bytes@.len(),
{
    hex::encode(bytes)
}

/// A fresh bearer token: 32 random bytes as 64 hex digits.
fn generate_token() -> (r: String)
    ensures
        r@.len() == 64,
{
    let mut bytes: Vec<u8> = Vec::new();
    let mut i: usize = 0;
    while i < 32
        invariant
            i <= 32,
            bytes@.len() == i,
        decreases 32 - i,
    {
        bytes.push(random_byte());
        i += 1;
    }
    hex_encode(&bytes)
}

/// Configures the password once: stores its hash and issues the first
/// token. Fails once auth is already configured.
pub fn setup(store: &mut Store, password: &str) -> (r: Result<AuthResponse, AppError>)
    requires
        old(store).wf(),
    ensures
        final(store).wf(),
        final(store).next_id == old(store).next_id,
        final(store).exercises == old(store).exercises,
        final(store).templates == old(store).templates,
        final(store).template_exercises == old(store).template_exercises,
        final(store).sessions == old(store).sessions,
        final(store).session_exercises == old(store).session_exercises,
        final(store).sets == old(store).sets,
        match r {
            Ok(resp) => {
                &&& old(store).auth is None
                &&& final(store).auth matches Some(rec) && password_matches(
                    password@,
                    rec.password_hash@,
                ) && hash_wellformed(rec.password_hash@) && rec.token == resp.token
                &&& resp.token@.len() == 64
            },
            Err(e) => {
                &&& *final(store) == *old(store)
                &&& match e {
                    AppError::AuthAlreadyConfigured => old(store).auth is Some,
                    AppError::BadRequest(_) => old(store).auth is None,
                    _ => false,
                }
            },
        },
{
    if store.auth.is_some() {
        return Err(AppError::AuthAlreadyConfigured);
    }
    let hash = match hash_password_raw(password) {
        Some(h) => h,
        None => {
            return Err(AppError::BadRequest("hash error".to_owned()));
        },
    };
    let token = generate_token();
    let out = AuthResponse { token: token.clone() };
    store.auth = Some(AuthRecord { password_hash: hash, token });
    Ok(out)
}

/// Logs in: verifies the password against the stored hash and, on
/// success, rotates and returns the token. A correct password is never
/// refused as unauthorized; a wrong one, or an unconfigured store, is.
pub fn login(store: &mut Store, password: &str) -> (r: Result<AuthResponse, AppError>)
    requires
        old(store).wf(),
    ensures
        final(store).wf(),
        final(store).next_id == old(store).next_id,
        final(store).exercises == old(store).exercises,
        final(store).templates == old(store).templates,
        final(store).template_exercises == old(store).template_exercises,
        final(store).sessions == old(store).sessions,
        final(store).session_exercises == old(store).session_exercises,
        final(store).sets == old(store).sets,
        old(store).auth matches Some(rec) ==> final(store).auth matches Some(rec2)
            && rec2.password_hash == rec.password_hash,
        // a correct password against a well-formed stored hash always
        // logs in; setup only ever stores well-formed hashes
        old(store).auth matches Some(rec) && hash_wellformed(rec.password_hash@)
            && password_matches(password@, rec.password_hash@) ==> r is Ok,
        match r {
            Ok(resp) => {
                &&& old(store).auth matches Some(rec) && password_matches(
                    password@,
                    rec.password_hash@,
                ) && final(store).auth == Some(
                    AuthRecord { password_hash: rec.password_hash, token: resp.token },
                )
                &&& resp.token@.len() == 64
            },
            Err(e) => {
                &&& *final(store) == *old(store)
                &&& match e {
                    AppError::Unauthorized => old(store).auth is None || (old(
                        store,
                    ).auth matches Some(rec) && !password_matches(password@, rec.password_hash@)),
                    AppError::BadRequest(_) => old(store).auth matches Some(rec)
                        && !hash_wellformed(rec.password_hash@),
                    _ => false,
                }
            },
        },
{
    let hash = match &store.auth {
        Some(rec) => rec.password_hash.clone(),
        None => {
            return Err(AppError::Unauthorized);
        },
    };
    match verify_password_raw(password, hash.as_str()) {
        Some(true) => {
            let token = generate_token();
            let out = AuthResponse { token: token.clone() };
            store.auth = Some(AuthRecord { password_hash: hash, token });
            Ok(out)
        },
        Some(false) => Err(AppError::Unauthorized),
        None => Err(AppError::BadRequest("hash parse error".to_owned())),
    }
}

/// Whether the presented token is the current one.
pub fn verify_token(store: &Store, token: &str) -> (r: Result<bool, AppError>)
    ensures
        r matches Ok(b) && b == (store.auth matches Some(rec) && rec.token@ == token@),
{
    match &store.auth {
        Some(rec) => {
            let presented = token.to_owned();
            Ok(rec.token == presented)
        },
        None => Ok(false),
    }
}

/// Whether a password has been configured.
pub fn is_setup(store: &Store) -> (r: Result<bool, AppError>)
    ensures
        r matches Ok(b) && b == (store.auth is Some),
{
    Ok(store.auth.is_some())
}

} // verus!
