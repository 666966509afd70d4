//! The sending actor's signing key.
use openssl::error::ErrorStack;
use openssl::pkey::{PKey, Private};
use vstd::prelude::*;
use vstd::string::*;

use crate::error::Error;

verus! {

#[verifier::external_type_specification]
#[verifier::external_body]
#[verifier::reject_recursive_types(T)]
pub struct ExPKey<T>(PKey<T>);

#[verifier::external_type_specification]
#[verifier::external_body]
pub struct ExPrivate(Private);

#[verifier::external_type_specification]
#[verifier::external_body]
pub struct ExErrorStack(ErrorStack);

/// The largest PEM text, in bytes, that OpenSSL's memory reader accepts
/// (`c_int::MAX`); longer input makes it panic.
pub const MAX_PEM_BYTES: usize = 2147483647;

/// Relies on openssl's `PKey::private_key_from_pem_passphrase`: a private
/// key parsed from PEM text, or OpenSSL's error stack. The passphrase is
/// empty, so an encrypted key fails to parse instead of OpenSSL prompting
/// for a passphrase on the terminal. Its memory reader asserts that the
/// text is at most `c_int::MAX` bytes.
#[verifier::external_body]
fn parse_private_key(pem: &str) -> (r: Result<PKey<Private>, ErrorStack>)
    requires
        pem.spec_bytes().len() <= MAX_PEM_BYTES,
{
    PKey::private_key_from_pem_passphrase(pem.as_bytes(), b"")
}

/// The key handle for a parse result: the key itself, or
/// `InvalidPrivateKey` for a parse error.
pub fn key_from_parse(parsed: Result<PKey<Private>, ErrorStack>) -> (r: Result<
    PKey<Private>,
    Error,
>)
    ensures
        parsed is Ok ==> r == Ok::<PKey<Private>, Error>(parsed->Ok_0),
        parsed is Err ==> r == Err::<PKey<Private>, Error>(Error::InvalidPrivateKey),
{
    match parsed {
        Ok(key) => Ok(key),
        Err(_) => Err(Error::InvalidPrivateKey),
    }
}

/// The signing key of an actor whose PEM-encoded private key is `pem`:
/// `MissingPrivateKey` when it has none; `InvalidPrivateKey` for text
/// longer than `MAX_PEM_BYTES`; otherwise the parsed key, or
/// `InvalidPrivateKey` where the text does not parse.
pub fn signing_key(pem: Option<&str>) -> (r: Result<PKey<Private>, Error>)
    ensures
        pem is None <==> r == Err::<PKey<Private>, Error>(Error::MissingPrivateKey),
        pem is Some ==> (r is Ok || r == Err::<PKey<Private>, Error>(Error::InvalidPrivateKey)),
        pem is Some && pem->Some_0.spec_bytes().len() > MAX_PEM_BYTES ==> r == Err::<
            PKey<Private>,
            Error,
        >(Error::InvalidPrivateKey),
{
    match pem {
        None => Err(Error::MissingPrivateKey),
        Some(text) => {
            if text.as_bytes().len() > MAX_PEM_BYTES {
                Err(Error::InvalidPrivateKey)
            } else {
                key_from_parse(parse_private_key(text))
            }
        },
    }
}

} // verus!
