//! Text-safe encoding of binary fields: standard padded base64.

use base64::Engine;
use vstd::prelude::*;

verus! {

/// The standard padded base64 text of `bytes`.
pub uninterp spec fn base64_text(bytes: Seq<u8>) -> Seq<char>;

/// The bytes that `text` stands for in standard padded base64, if it is
/// valid base64.
pub uninterp spec fn base64_bytes(text: Seq<char>) -> Option<Seq<u8>>;

/// How decoding a text-encoded field can go wrong.
#[derive(Debug, Clone, Copy, PartialEq, Eq, Structural)]
pub enum FromBase64Error {
    /// The text is not valid base64.
    NotValidBase64,
    /// The text decodes to another number of bytes than the field holds.
    InvalidLength,
}

/// `base64::DecodeError`, what the decoder fails with. Nothing is read out
/// of it.
#[verifier::external_type_specification]
#[verifier::external_body]
pub struct ExDecodeError(base64::DecodeError);

/// Whether a buffer of `len` bytes can exist in memory, so that its encoding
/// has a length that fits the machine.
pub open spec fn fits_in_memory(len: nat) -> bool {
    len <= isize::MAX
}

/// `Engine::encode` of the engine `base64::prelude::BASE64_STANDARD`.
/// Trusted: the text it returns is the base64 text of the bytes, and
/// decoding that text gives the bytes back.
#[verifier::external_body]
pub(crate) fn standard_encode(bytes: &[u8]) -> (text: String)
    requires
        fits_in_memory(bytes@.len()),
    ensures
        text@ == base64_text(bytes@),
        base64_bytes(text@) == Some(bytes@),
{
    base64::prelude::BASE64_STANDARD.encode(bytes)
}

/// `Engine::decode` of the engine `base64::prelude::BASE64_STANDARD`.
/// Trusted: it returns the bytes that the text stands for, and fails
/// where the text is not valid base64.
#[verifier::external_body]
pub(crate) fn standard_decode(text: &str) -> (r: Result<Vec<u8>, base64::DecodeError>)
    ensures
        match r {
            Ok(bytes) => base64_bytes(text@) == Some(bytes@),
            Err(_) => base64_bytes(text@) is None,
        },
{
    base64::prelude::BASE64_STANDARD.decode(text)
}

/// Tells whether a buffer of `len` bytes can be encoded.
pub fn can_encode(len: usize) -> (b: bool)
    ensures
        b == fits_in_memory(len as nat),
{
    len <= isize::MAX as usize
}

/// What decoding `text` into a field of `n` bytes gives.
pub open spec fn decoded_exact(text: Seq<char>, n: nat) -> Result<Seq<u8>, FromBase64Error> {
    match base64_bytes(text) {
        None => Err(FromBase64Error::NotValidBase64),
        Some(bytes) => if bytes.len() == n {
            Ok(bytes)
        } else {
            Err(FromBase64Error::InvalidLength)
        },
    }
}

/// What decoding `text` into a field of any length gives.
pub open spec fn decoded(text: Seq<char>) -> Result<Seq<u8>, FromBase64Error> {
    match base64_bytes(text) {
        None => Err(FromBase64Error::NotValidBase64),
        Some(bytes) => Ok(bytes),
    }
}

/// Sorts the outcome of decoding into a field of `N` bytes: the bytes, if
/// there are exactly `N`.
pub fn exact_bytes<const N: usize>(outcome: Result<Vec<u8>, base64::DecodeError>) -> (r: Result<
    [u8; N],
    FromBase64Error,
>)
    ensures
        match outcome {
            Err(_) => r == Err::<[u8; N], FromBase64Error>(FromBase64Error::NotValidBase64),
            Ok(bytes) => if bytes@.len() == N {
                r is Ok && r->Ok_0@ == bytes@
            } else {
                r == Err::<[u8; N], FromBase64Error>(FromBase64Error::InvalidLength)
            },
        },
{
    match outcome {
        Err(_) => Err(FromBase64Error::NotValidBase64),
        Ok(bytes) => {
            if bytes.len() != N {
                return Err(FromBase64Error::InvalidLength);
            }
            let mut out = [0u8;N];
            let mut i: usize = 0;
            while i < N
                invariant
                    i <= N,
                    bytes@.len() == N,
                    out@.len() == N,
                    forall|k: int| 0 <= k < i ==> out@[k] == bytes@[k],
                decreases N - i,
            {
                out[i] = bytes[i];
                i += 1;
            }
            assert(out@ =~= bytes@);
            Ok(out)
        },
    }
}

/// Decodes text into a field of exactly `N` bytes.
pub fn try_b64_to_arr<const N: usize>(text: &str) -> (r: Result<[u8; N], FromBase64Error>)
    ensures
        match decoded_exact(text@, N as nat) {
            Ok(bytes) => r is Ok && r->Ok_0@ == bytes,
            Err(e) => r == Err::<[u8; N], FromBase64Error>(e),
        },
{
    exact_bytes(standard_decode(text))
}

/// Decodes text into a field of any length.
pub fn try_b64_to_vec(text: &str) -> (r: Result<Vec<u8>, FromBase64Error>)
    ensures
        match decoded(text@) {
            Ok(bytes) => r is Ok && r->Ok_0@ == bytes,
            Err(e) => r == Err::<Vec<u8>, FromBase64Error>(e),
        },
{
    match standard_decode(text) {
        Ok(bytes) => Ok(bytes),
        Err(_) => Err(FromBase64Error::NotValidBase64),
    }
}

} // verus!
