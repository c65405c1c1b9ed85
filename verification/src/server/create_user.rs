//! Salts and salted password hashes for accounts.
use vstd::prelude::*;
use vstd::utf8::{encode_utf8, encode_scalar};
use base64::Engine;
use rand::Rng;
use sha2::Digest;

verus! {

/// The SHA-256 digest of a byte string (computed by the `sha2` crate).
pub uninterp spec fn sha256_digest(data: Seq<u8>) -> Seq<u8>;

/// The standard Base64 encoding, with padding (computed by the `base64` crate).
pub uninterp spec fn base64_standard(data: Seq<u8>) -> Seq<char>;

/// Calls `sha2::Sha256::digest`. Claimed: the result is the digest named
/// `sha256_digest` of the input, and it is 32 bytes long.
#[verifier::external_body]
fn sha256(data: &[u8]) -> (d: Vec<u8>)
    ensures
        d@ == sha256_digest(data@),
        d@.len() == 32,
{
    sha2::Sha256::digest(data).to_vec()
}

/// A character of the standard Base64 alphabet, or the padding `=`.
pub open spec fn is_base64_char(c: char) -> bool {
    ('A' <= c <= 'Z') || ('a' <= c <= 'z') || ('0' <= c <= '9') || c == '+' || c == '/' || c == '='
}

/// Calls `base64::engine::general_purpose::STANDARD.encode`. Claimed: the
/// result is the encoding named `base64_standard` of the input; it holds
/// four characters for every started group of three bytes, all of them
/// from the standard alphabet or `=`, and it ends in padding `=` when the
/// last group is incomplete.
#[verifier::external_body]
fn base64_encode(data: &[u8]) -> (s: String)
    requires
        data@.len() <= usize::MAX / 2,
    ensures
        s@ == base64_standard(data@),
        s@.len() == 4 * ((data@.len() + 2) / 3),
        forall|i: int| 0 <= i < s@.len() ==> is_base64_char(#[trigger] s@[i]),
        data@.len() % 3 != 0 ==> s@.last() == '=',
{
    base64::engine::general_purpose::STANDARD.encode(data)
}

/// Calls `rand::thread_rng().sample_iter(&Alphanumeric)`, taking `len`
/// samples. Claimed: `len` characters, each an ASCII letter or digit. Which
/// ones is left open: they are random.
#[verifier::external_body]
fn random_alphanumeric(len: usize) -> (s: String)
    ensures
        s@.len() == len,
        forall|i: int| 0 <= i < len ==> is_ascii_alphanumeric(#[trigger] s@[i]),
{
    rand::thread_rng().sample_iter(&rand::distributions::Alphanumeric).take(len).map(char::from).collect()
}

/// An ASCII letter or digit.
pub open spec fn is_ascii_alphanumeric(c: char) -> bool {
    ('0' <= c <= '9') || ('A' <= c <= 'Z') || ('a' <= c <= 'z')
}

/// The number of characters in a salt.
pub const SALT_LEN: usize = 16;

/// A well-formed salt: sixteen ASCII letters and digits.
pub open spec fn is_salt(s: Seq<char>) -> bool {
    s.len() == SALT_LEN && forall|i: int| 0 <= i < s.len() ==> is_ascii_alphanumeric(#[trigger] s[i])
}

/// The stored form of `pass` under `salt`: Base64 of SHA-256 over the UTF-8
/// bytes of the salt followed by those of the password.
pub open spec fn password_hash(pass: Seq<char>, salt: Seq<char>) -> Seq<char> {
    base64_standard(sha256_digest(encode_utf8(salt) + encode_utf8(pass)))
}

/// A fresh random salt.
pub fn generate_salt() -> (s: String)
    ensures
        is_salt(s@),
{
    random_alphanumeric(SALT_LEN)
}

/// The salted hash of `pass`, as it is stored for an account: 44 Base64
/// characters, the last of them the padding `=`.
pub fn sha256_hash(pass: String, salt: String) -> (h: String)
    ensures
        h@ == password_hash(pass@, salt@),
        h@.len() == 44,
        forall|i: int| 0 <= i < h@.len() ==> is_base64_char(#[trigger] h@[i]),
        h@.last() == '=',
{
    let mut data: Vec<u8> = Vec::new();
    data.extend_from_slice(salt.as_str().as_bytes());
    data.extend_from_slice(pass.as_str().as_bytes());
    assert(data@ =~= encode_utf8(salt@) + encode_utf8(pass@));
    let digest = sha256(data.as_slice());
    assert(digest@.len() == 32);
    base64_encode(digest.as_slice())
}

proof fn lemma_encode_utf8_concat(a: Seq<char>, b: Seq<char>)
    ensures
        encode_utf8(a + b) == encode_utf8(a) + encode_utf8(b),
    decreases a.len(),
{
    if a.len() == 0 {
        assert(a + b =~= b);
        assert(encode_utf8(a) =~= Seq::<u8>::empty());
        assert(encode_utf8(a) + encode_utf8(b) =~= encode_utf8(b));
    } else {
        assert((a + b)[0] == a[0]);
        assert((a + b).drop_first() =~= a.drop_first() + b);
        lemma_encode_utf8_concat(a.drop_first(), b);
        let e = encode_scalar(a[0] as u32);
        assert(e + (encode_utf8(a.drop_first()) + encode_utf8(b)) =~= (e + encode_utf8(a.drop_first()))
            + encode_utf8(b));
    }
}

/// The stored hash depends only on the salt and password written one after
/// the other: equal joined texts give equal hashes.
pub proof fn lemma_password_hash_of_joined_text(pass1: Seq<char>, salt1: Seq<char>, pass2: Seq<char>, salt2: Seq<char>)
    requires
        salt1 + pass1 == salt2 + pass2,
    ensures
        password_hash(pass1, salt1) == password_hash(pass2, salt2),
{
    lemma_encode_utf8_concat(salt1, pass1);
    lemma_encode_utf8_concat(salt2, pass2);
}

} // verus!
