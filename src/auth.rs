//! Access tokens: how a password becomes the token that clients present, and
//! the rules that decide whether a request carries it.
use vstd::prelude::*;
use crate::text::str_eq;
use base64::Engine;
use vstd::utf8::encode_utf8;

verus! {

/// The HMAC-SHA256 tag of `message` under `key`.
pub uninterp spec fn hmac_sha256_of(message: Seq<u8>, key: Seq<u8>) -> Seq<u8>;

/// The standard base64 alphabet.
pub open spec fn base64_alphabet() -> Seq<char> {
    "ABCDEFGHIJKLMNOPQRSTUVWXYZabcdefghijklmnopqrstuvwxyz0123456789+/"@
}

/// The standard base64 text of `bytes`: each group of three bytes becomes
/// four characters of six bits each; a last group of one or two bytes is
/// padded with `=`.
pub open spec fn base64_of(bytes: Seq<u8>) -> Seq<char>
    decreases bytes.len(),
{
    let a = base64_alphabet();
    if bytes.len() == 0 {
        Seq::empty()
    } else if bytes.len() == 1 {
        let n = bytes[0] as int;
        seq![a[n / 4], a[(n % 4) * 16], '=', '=']
    } else if bytes.len() == 2 {
        let n = bytes[0] as int * 256 + bytes[1] as int;
        seq![a[n / 1024], a[(n / 16) % 64], a[(n % 16) * 4], '=']
    } else {
        let n = bytes[0] as int * 65536 + bytes[1] as int * 256 + bytes[2] as int;
        seq![a[n / 262144], a[(n / 4096) % 64], a[(n / 64) % 64], a[n % 64]] + base64_of(
            bytes.subrange(3, bytes.len() as int),
        )
    }
}

/// Base64 text has four characters for every started group of three bytes.
pub proof fn lemma_base64_len(bytes: Seq<u8>)
    ensures
        base64_of(bytes).len() == 4 * ((bytes.len() + 2) / 3),
    decreases bytes.len(),
{
    if bytes.len() > 2 {
        lemma_base64_len(bytes.subrange(3, bytes.len() as int));
    }
}

/// Relies on `hmac_sha256::HMAC::mac`: the 32-byte tag of `message` under `key`.
#[verifier::external_body]
fn hmac_sha256(message: &[u8], key: &[u8]) -> (r: Vec<u8>)
    ensures
        r@ == hmac_sha256_of(message@, key@),
        r@.len() == 32,
{
    hmac_sha256::HMAC::mac(message, key).to_vec()
}

/// Relies on `base64::engine::general_purpose::STANDARD.encode`: standard
/// alphabet, padded; it panics only where the encoded length overflows
/// `usize`.
#[verifier::external_body]
fn base64_standard(bytes: &[u8]) -> (r: String)
    requires
        bytes@.len() <= 4096,
    ensures
        r@ == base64_of(bytes@),
{
    base64::engine::general_purpose::STANDARD.encode(bytes)
}

/// The token that a password stands for under an encryption key: the
/// base64 text of the HMAC-SHA256 tag of the password's UTF-8 bytes under the
/// key's.
pub open spec fn token_of(password: Seq<char>, key: Seq<char>) -> Seq<char> {
    base64_of(hmac_sha256_of(encode_utf8(password), encode_utf8(key)))
}

/// The token for `password` under `key`: 44 characters of base64.
pub fn encode_password(password: &str, key: &str) -> (r: String)
    ensures
        r@ == token_of(password@, key@),
        r@.len() == 44,
{
    let tag = hmac_sha256(password.as_bytes(), key.as_bytes());
    proof {
        lemma_base64_len(tag@);
    }
    base64_standard(tag.as_slice())
}

/// What a login attempt comes to.
#[derive(Debug, Clone, PartialEq, Eq)]
pub enum AuthOutcome {
    /// The server was started without a password or key.
    NotImplemented,
    /// The password matched: the token to hand back.
    Created(String),
    Unauthorized,
}

/// Decides a login attempt, given the token that the attempt's password
/// encodes to (`encoded`).
pub fn judge_login(
    access_token: &Option<String>,
    has_key: bool,
    encoded: &str,
) -> (r: AuthOutcome)
    ensures
        access_token.is_none() || !has_key ==> r == AuthOutcome::NotImplemented,
        access_token.is_some() && has_key && access_token.unwrap()@ == encoded@ ==> (r
            matches AuthOutcome::Created(t) && t@ == encoded@),
        access_token.is_some() && has_key && access_token.unwrap()@ != encoded@ ==> r
            == AuthOutcome::Unauthorized,
{
    match access_token {
        None => AuthOutcome::NotImplemented,
        Some(token) => {
            if !has_key {
                AuthOutcome::NotImplemented
            } else if str_eq(token.as_str(), encoded) {
                AuthOutcome::Created(token.clone())
            } else {
                AuthOutcome::Unauthorized
            }
        },
    }
}

/// Decides a login attempt with `password`: the server holds `access_token`,
/// made from its password under `encryption_key`.
pub fn login(
    access_token: &Option<String>,
    encryption_key: &Option<String>,
    password: &str,
) -> (r: AuthOutcome)
    ensures
        access_token.is_none() || encryption_key.is_none() ==> r == AuthOutcome::NotImplemented,
        access_token.is_some() && encryption_key.is_some() ==> {
            let expected = token_of(password@, encryption_key.unwrap()@);
            &&& access_token.unwrap()@ == expected ==> (r matches AuthOutcome::Created(t) && t@
                == expected)
            &&& access_token.unwrap()@ != expected ==> r == AuthOutcome::Unauthorized
        },
{
    match encryption_key {
        None => AuthOutcome::NotImplemented,
        Some(key) => {
            if access_token.is_none() {
                return AuthOutcome::NotImplemented;
            }
            let encoded = encode_password(password, key.as_str());
            judge_login(access_token, true, encoded.as_str())
        },
    }
}

/// Whether a request to a guarded listing may proceed: with a token set, a
/// request needs a header equal to it.
pub fn may_list(access_token: &Option<String>, header: &Option<String>) -> (r: bool)
    ensures
        r == (access_token.is_none() || (header.is_some() && header.unwrap()@
            == access_token.unwrap()@)),
{
    match access_token {
        None => true,
        Some(token) => match header {
            None => false,
            Some(h) => str_eq(h.as_str(), token.as_str()),
        },
    }
}

} // verus!
