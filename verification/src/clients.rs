//! The credential records and the check of a login against them.
//!
//! A stored hash is a string in the PHC format. Reading it and checking a
//! password against it is the work of the `argon2` crate; which record is
//! consulted, and what each answer of that crate leads to, is decided and
//! verified here.

use vstd::prelude::*;
use argon2::password_hash::{Error, PasswordHash, PasswordVerifier};
use argon2::Argon2;

verus! {

/// One credential record: an identity and the hash of its password.
#[derive(Debug, Clone)]
pub struct Client {
    pub key: String,
    pub hash: String,
}

/// A parsed PHC string, as `argon2` holds it. Nothing of its inside is
/// visible here; it is only handed from the parser to the verifier.
#[verifier::external_type_specification]
#[verifier::external_body]
pub struct ExPasswordHash<'a>(PasswordHash<'a>);

/// The error type of `argon2`'s password-hash functions.
#[verifier::external_type_specification]
#[verifier::external_body]
pub struct ExPasswordHashError(Error);

/// What `PasswordHash::new` returns for a text: the parsed hash, or the
/// error with which it turns the text down.
pub uninterp spec fn phc_parse(text: Seq<char>) -> Result<PasswordHash<'static>, Error>;

/// What `Argon2::default().verify_password` returns for a password and a
/// parsed hash: `Ok` where hashing the password with the parameters and salt
/// of the parsed hash gives the stored output.
pub uninterp spec fn argon2_verify(password: Seq<char>, hash: PasswordHash<'static>) -> Result<
    (),
    Error,
>;

/// Calls `PasswordHash::new`. The result is a function of the text alone,
/// and the contract does no more than give it its name.
#[verifier::external_body]
fn parse_hash<'a>(text: &'a str) -> (parsed: Result<PasswordHash<'a>, Error>)
    ensures
        parsed == phc_parse(text@),
{
    PasswordHash::new(text)
}

/// Calls `verify_password` of `argon2`'s default `Argon2` on the bytes of
/// the password. The result is a function of the password and the parsed
/// hash alone, and the contract does no more than give it its name. The
/// call hashes the password with the cost parameters that the stored hash
/// names, and takes the time and memory that they ask for.
#[verifier::external_body]
fn verify_password(password: &str, hash: &PasswordHash<'_>) -> (verdict: Result<(), Error>)
    ensures
        verdict == argon2_verify(password@, *hash),
{
    Argon2::default().verify_password(password.as_bytes(), hash)
}

/// The record at `i` is the first one for `key`.
pub open spec fn is_first_for(clients: Seq<Client>, key: Seq<char>, i: int) -> bool {
    &&& 0 <= i < clients.len()
    &&& clients[i].key@ == key
    &&& forall|j: int| 0 <= j < i ==> (#[trigger] clients[j]).key@ != key
}

/// No record is for `key`.
pub open spec fn unknown_key(clients: Seq<Client>, key: Seq<char>) -> bool {
    forall|j: int| 0 <= j < clients.len() ==> (#[trigger] clients[j]).key@ != key
}

/// What a stored hash says of a password: an error where the hash cannot be
/// read, else whether the password is the one that was hashed.
pub open spec fn hash_verdict(hash: Seq<char>, password: Seq<char>) -> Result<bool, ()> {
    match phc_parse(hash) {
        Ok(parsed) => Ok(argon2_verify(password, parsed) is Ok),
        Err(_) => Err(()),
    }
}

/// What the records say of a login: the first record for the identity
/// decides, and an identity without a record is refused.
pub open spec fn login_verdict(clients: Seq<Client>, key: Seq<char>, password: Seq<char>) -> Result<
    bool,
    (),
> {
    if unknown_key(clients, key) {
        Ok(false)
    } else {
        let i = choose|i: int| is_first_for(clients, key, i);
        hash_verdict(clients[i].hash@, password)
    }
}

/// Checks a password against a stored hash.
pub fn check_hash(hash: &str, password: &str) -> (verdict: Result<bool, ()>)
    ensures
        verdict == hash_verdict(hash@, password@),
{
    match parse_hash(hash) {
        Ok(parsed) => Ok(verify_password(password, &parsed).is_ok()),
        Err(_) => Err(()),
    }
}

/// Checks a login. The first record for the identity decides: `Ok(true)`
/// where its hash accepts the password, `Ok(false)` where it does not, and
/// `Err` where its hash cannot be read. An identity without a record is
/// refused with `Ok(false)`.
pub fn client_login_is_valid(key: &String, password: &String, clients: &Vec<Client>) -> (verdict:
    Result<bool, ()>)
    ensures
        verdict == login_verdict(clients@, key@, password@),
        unknown_key(clients@, key@) ==> verdict == Ok::<bool, ()>(false),
        forall|i: int|
            is_first_for(clients@, key@, i) ==> verdict == hash_verdict(
                clients@[i].hash@,
                password@,
            ),
{
    let mut i: usize = 0;
    while i < clients.len()
        invariant
            i <= clients.len(),
            forall|j: int| 0 <= j < i ==> (#[trigger] clients@[j]).key@ != key@,
        decreases clients.len() - i,
    {
        if clients[i].key == *key {
            proof {
                assert(is_first_for(clients@, key@, i as int));
                let first = choose|k: int| is_first_for(clients@, key@, k);
                assert(first == i);
            }
            return check_hash(clients[i].hash.as_str(), password.as_str());
        }
        i = i + 1;
    }
    Ok(false)
}

} // verus!
