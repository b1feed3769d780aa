use base64::Engine;
use vstd::prelude::*;

verus! {

/// What the standard, padded base64 engine makes of some bytes.
pub uninterp spec fn base64_of(bytes: Seq<u8>) -> Seq<char>;

/// What the standard, padded base64 engine decodes from some text: `None`
/// where it reports an error.
pub uninterp spec fn bytes_of_base64(text: Seq<char>) -> Option<Seq<u8>>;

/// Relies on `base64::Engine::encode` with `general_purpose::STANDARD`: the
/// encoding depends on the bytes alone. The engine panics when the encoded
/// length overflows `usize`, which the bound on the input rules out.
#[verifier::external_body]
fn encode_standard(bytes: &[u8]) -> (r: String)
    requires
        bytes@.len() <= usize::MAX / 2,
    ensures
        r@ == base64_of(bytes@),
{
    base64::engine::general_purpose::STANDARD.encode(bytes)
}

/// Relies on `base64::Engine::decode` with `general_purpose::STANDARD`: the
/// result, bytes or an error, depends on the text alone.
#[verifier::external_body]
fn decode_standard(text: &str) -> (r: Option<Vec<u8>>)
    ensures
        match r {
            Some(v) => bytes_of_base64(text@) == Some(v@),
            None => bytes_of_base64(text@) is None,
        },
{
    base64::engine::general_purpose::STANDARD.decode(text).ok()
}

/// The token was not valid standard base64.
#[derive(Clone, Copy, Debug, PartialEq, Eq, Structural)]
pub enum TokenError {
    Malformed,
}

/// The bootstrap token a server hands out for its certificate hash: the
/// hash in standard base64.
pub fn cert_hash_token(hash: &Vec<u8>) -> (r: String)
    requires
        hash@.len() <= usize::MAX / 2,
    ensures
        r@ == base64_of(hash@),
{
    encode_standard(hash.as_slice())
}

/// The certificate hash a client reads from its bootstrap token; an error
/// when the token is not standard base64.
pub fn server_cert_hash(token: &str) -> (r: Result<Vec<u8>, TokenError>)
    ensures
        match r {
            Ok(v) => bytes_of_base64(token@) == Some(v@),
            Err(e) => bytes_of_base64(token@) is None && e == TokenError::Malformed,
        },
{
    match decode_standard(token) {
        Some(v) => Ok(v),
        None => Err(TokenError::Malformed),
    }
}

} // verus!
