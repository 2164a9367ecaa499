use vstd::prelude::*;
use vstd::utf8::{decode_utf8, valid_utf8};

verus! {

/// What `simple_crypt::decrypt` gives for the data and the password: the plain bytes, or
/// `None` for an error. It is a function of its arguments alone (the salt and the nonce
/// travel inside the data).
pub uninterp spec fn decrypted(data: Seq<u8>, password: Seq<u8>) -> Option<Seq<u8>>;

/// What `String::from_utf8_lossy` makes of bytes that are not valid UTF-8.
pub uninterp spec fn utf8_lossy(bytes: Seq<u8>) -> Seq<char>;

/// The characters that `String::from_utf8_lossy` makes of bytes: the decoded text for valid
/// UTF-8.
pub open spec fn text_of_bytes(bytes: Seq<u8>) -> Seq<char> {
    if valid_utf8(bytes) {
        decode_utf8(bytes)
    } else {
        utf8_lossy(bytes)
    }
}

/// Calls `simple_crypt::decrypt`. Claims that the result, with the error mapped to `None`,
/// is the function `decrypted` of the data and the password.
#[verifier::external_body]
pub(crate) fn decrypt(data: &[u8], password: &[u8]) -> (r: Option<Vec<u8>>)
    ensures
        match r {
            Some(v) => decrypted(data@, password@) == Some(v@),
            None => decrypted(data@, password@) is None,
        },
{
    simple_crypt::decrypt(data, password).ok()
}

/// Calls `simple_crypt::encrypt`, which seals with a fresh random salt and nonce. Claims that
/// a sealed result opens again with the same password to the data, and that it is 68 bytes
/// longer than the data: the crate writes, with bincode's fixed-width encoding, the length of
/// the ciphertext as 8 bytes, the ciphertext (the data and AES-GCM-SIV's 16-byte tag), the
/// 12-byte nonce and the 32-byte salt. When the call fails the result is `None`. Which bytes
/// come out is left unsaid: they depend on chance.
#[verifier::external_body]
pub(crate) fn encrypt(data: &[u8], password: &[u8]) -> (r: Option<Vec<u8>>)
    ensures
        r matches Some(c) ==> decrypted(c@, password@) == Some(data@) && c@.len() == data@.len()
            + SEAL_OVERHEAD,
{
    simple_crypt::encrypt(data, password).ok()
}

/// Calls `String::from_utf8_lossy`. Claims that valid UTF-8 is decoded as it stands, and names
/// the result for other bytes.
#[verifier::external_body]
pub(crate) fn string_from_utf8_lossy(v: &[u8]) -> (s: String)
    ensures
        s@ == (if valid_utf8(v@) {
            decode_utf8(v@)
        } else {
            utf8_lossy(v@)
        }),
{
    String::from_utf8_lossy(v).into_owned()
}

/// How many bytes sealing adds to the data.
pub const SEAL_OVERHEAD: usize = 68;

/// The password that archives are sealed with.
pub open spec fn lumina_key() -> Seq<u8> {
    seq![
        99u8, 103, 118, 110, 104, 102, 106, 120, 99, 110, 109, 118, 109, 106, 116, 121, 117, 114,
        100, 51, 52, 53, 54, 51, 50, 52, 53, 53, 54, 55, 56, 55, 56, 54, 57, 48, 104, 102, 103,
        106, 99, 109, 120, 102, 103, 104, 121, 117, 104, 106, 107, 102, 117, 105, 111, 106, 108, 103,
    ]
}

/// The password that archives are sealed with.
pub fn key_bytes() -> (k: Vec<u8>)
    ensures
        k@ == lumina_key(),
{
    vec![
        99u8, 103, 118, 110, 104, 102, 106, 120, 99, 110, 109, 118, 109, 106, 116, 121, 117, 114,
        100, 51, 52, 53, 54, 51, 50, 52, 53, 53, 54, 55, 56, 55, 56, 54, 57, 48, 104, 102, 103,
        106, 99, 109, 120, 102, 103, 104, 121, 117, 104, 106, 107, 102, 117, 105, 111, 106, 108, 103,
    ]
}

} // verus!
