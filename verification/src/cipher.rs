use vstd::prelude::*;
use vstd::utf8::encode_utf8;

use crate::errors::StoreError;

verus! {

/// What decrypting a container under a password yields: the sealed plaintext
/// bytes when the container was sealed under that password, nothing otherwise.
/// Decryption is a pure function of the container and the password.
pub uninterp spec fn open_of(container: Seq<u8>, password: Seq<u8>) -> Option<Seq<u8>>;

/// Relies on cocoon::Cocoon::wrap: the returned container holds the sealed
/// bytes so that cocoon::Cocoon::unwrap under the same password returns
/// exactly them, while the authenticated tag makes unwrap reject the
/// container under every other password.
#[verifier::external_body]
fn cocoon_seal(plain: &[u8], password: &[u8]) -> (r: Option<Vec<u8>>)
    ensures
        r matches Some(c) ==> open_of(c@, password@) == Some(plain@),
        r matches Some(c) ==> forall|w: Seq<u8>| w != password@ ==> open_of(c@, w) is None,
{
    let mut cocoon = cocoon::Cocoon::new(password);
    cocoon.wrap(plain).ok()
}

/// Relies on cocoon::Cocoon::unwrap: it decrypts deterministically from the
/// container and the password alone, and fails on a wrong password or a
/// tampered container.
#[verifier::external_body]
fn cocoon_open(container: &[u8], password: &[u8]) -> (r: Option<Vec<u8>>)
    ensures
        match r {
            Some(p) => open_of(container@, password@) == Some(p@),
            None => open_of(container@, password@) is None,
        },
{
    let cocoon = cocoon::Cocoon::new(password);
    cocoon.unwrap(container).ok()
}

/// Relies on String::from_utf8: it accepts exactly the UTF-8 encodings and
/// decodes each to the characters that were encoded.
#[verifier::external_body]
fn bytes_to_string(bytes: Vec<u8>) -> (r: Option<String>)
    ensures
        r matches Some(p) ==> bytes@ == encode_utf8(p@),
        r is None ==> forall|s: Seq<char>| bytes@ != #[trigger] encode_utf8(s),
{
    String::from_utf8(bytes).ok()
}

/// Encrypts the text under the password. A sealed container opens only under
/// the same password, and then to exactly the sealed text: for any plaintext
/// `p` and password `w`, `open(seal(p, w), w)` returns `p`, while
/// `open(seal(p, w), w2)` is a decryption failure for every `w2 != w`.
pub fn seal(plaintext: &str, password: &[u8]) -> (r: Result<Vec<u8>, StoreError>)
    ensures
        r matches Ok(c) ==> open_of(c@, password@) == Some(encode_utf8(plaintext@)),
        r matches Ok(c) ==> forall|w: Seq<u8>| w != password@ ==> open_of(c@, w) is None,
        r matches Err(e) ==> e == StoreError::Encryption,
{
    match cocoon_seal(plaintext.as_bytes(), password) {
        Some(c) => Ok(c),
        None => Err(StoreError::Encryption),
    }
}

/// Decrypts a container and decodes the plaintext as text. Opening anything
/// sealed under the same password returns exactly the sealed text; a wrong
/// password or a tampered container is a decryption failure, and decrypted
/// bytes that are not text are an encoding failure.
pub fn open(container: &[u8], password: &[u8]) -> (r: Result<String, StoreError>)
    ensures
        forall|s: Seq<char>|
            open_of(container@, password@) == Some(#[trigger] encode_utf8(s)) ==> (r matches Ok(p)
                && p@ == s),
        r matches Ok(p) ==> open_of(container@, password@) == Some(encode_utf8(p@)),
        (r matches Err(StoreError::Decryption)) <==> open_of(container@, password@) is None,
        r matches Err(e) ==> e == StoreError::Decryption || e == StoreError::Encoding,
{
    match cocoon_open(container, password) {
        Some(bytes) => {
            let ghost decrypted = bytes@;
            match bytes_to_string(bytes) {
                Some(text) => {
                    proof {
                        assert forall|s: Seq<char>|
                            open_of(container@, password@) == Some(
                                #[trigger] encode_utf8(s),
                            ) implies text@ == s by {
                            vstd::utf8::encode_utf8_decode_utf8(s);
                            vstd::utf8::encode_utf8_decode_utf8(text@);
                        }
                    }
                    Ok(text)
                },
                None => {
                    proof {
                        assert forall|s: Seq<char>|
                            open_of(container@, password@) != Some(
                                #[trigger] encode_utf8(s),
                            ) by {
                            assert(decrypted != encode_utf8(s));
                        }
                    }
                    Err(StoreError::Encoding)
                },
            }
        },
        None => Err(StoreError::Decryption),
    }
}

} // verus!
