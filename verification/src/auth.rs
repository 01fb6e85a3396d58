//! Data carried by the sign-in flow, and the secret codes minted for
//! sessions. The OAuth exchange itself is network work the embedding
//! application performs; the values it moves are plain data declared here.

use vstd::prelude::*;

use crate::hex::{byte_hex_of, push_byte_hex};

verus! {

/// The token pair the identity provider answers a code exchange with.
pub struct DiscordToken {
    pub access_token: String,
    pub refresh_token: String,
}

/// A code exchange either yields a token pair or an error description.
pub enum DiscordTokenInfo {
    Token(DiscordToken),
    Error {
        error: Option<String>,
        error_description: Option<String>,
        error_uri: Option<String>,
    },
}

/// The profile of the signed-in user, as the identity provider reports it.
pub struct DiscordUserProfile {
    pub username: String,
    pub id: String,
}

/// Body of the sign-in endpoint: the authorization code to exchange.
pub struct DiscordSignInInfo {
    pub code: String,
}

/// What the sign-in endpoint answers.
pub struct SignInResp {
    pub username: String,
}

/// The claims carried by a session token.
pub struct TokenClaims {
    pub sub: u64,
    pub code: String,
    pub iss: String,
    pub exp: i64,
}

/// The secret code encoding: each byte as unpadded lower-case hex, in order.
pub open spec fn spec_secret_code_of(bytes: Seq<u8>) -> Seq<char>
    decreases bytes.len(),
{
    if bytes.len() == 0 {
        Seq::<char>::empty()
    } else {
        spec_secret_code_of(bytes.drop_last()) + byte_hex_of(bytes.last())
    }
}

/// Relies on rand::random: a value drawn from the thread-local generator.
/// Nothing is promised of the value.
pub assume_specification<T>[ rand::random::<T> ]() -> (r: T)
    where
        rand::distributions::Standard: rand::distributions::Distribution<T>,
;

/// How many random bytes one secret code encodes.
pub const SECRET_CODE_BYTES: usize = 16;

/// Encodes bytes as a secret-code string.
pub fn secret_code_from_bytes(bytes: &Vec<u8>) -> (r: String)
    ensures
        r@ == spec_secret_code_of(bytes@),
{
    let mut r = String::new();
    let n = bytes.len();
    let mut i: usize = 0;
    while i < n
        invariant
            i <= n,
            n == bytes@.len(),
            r@ == spec_secret_code_of(bytes@.take(i as int)),
        decreases n - i,
    {
        push_byte_hex(&mut r, bytes[i]);
        i = i + 1;
        proof {
            assert(bytes@.take(i as int).drop_last() =~= bytes@.take(i - 1));
            assert(bytes@.take(i as int).last() == bytes@[i - 1]);
        }
    }
    proof {
        assert(bytes@.take(n as int) =~= bytes@);
    }
    r
}

/// Mints a fresh secret code: sixteen random bytes, each rendered as
/// unpadded lower-case hex.
pub fn generate_secret_code() -> (r: String)
    ensures
        exists|bytes: Seq<u8>|
            bytes.len() == SECRET_CODE_BYTES as int && r@ == #[trigger] spec_secret_code_of(bytes),
{
    let mut bytes: Vec<u8> = Vec::new();
    let mut i: usize = 0;
    while i < SECRET_CODE_BYTES
        invariant
            i <= SECRET_CODE_BYTES,
            bytes@.len() == i,
        decreases SECRET_CODE_BYTES - i,
    {
        let b: u8 = rand::random::<u8>();
        bytes.push(b);
        i = i + 1;
    }
    let r = secret_code_from_bytes(&bytes);
    proof {
        assert(bytes@.len() == SECRET_CODE_BYTES as int && r@ == spec_secret_code_of(bytes@));
    }
    r
}

} // verus!
