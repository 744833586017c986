use vstd::prelude::*;
use vstd::string::StringExecFns;
use vstd::utf8::encode_utf8;

use crate::digest::{sha256, sha256_digest};
use crate::hex::{hex_encode, hex_lower};

verus! {

#[verifier::external_type_specification]
#[verifier::external_body]
pub struct ExKeypair(libp2p::identity::Keypair);

/// Why a stored key cannot be used.
#[derive(Debug, Clone, PartialEq, Eq)]
pub enum KeypairError {
    /// The key file belongs to another persona.
    WrongPersona,
    /// The stored bytes are not a key libp2p can decode; libp2p's message.
    InvalidKey(String),
}

/// The text of libp2p's error when `Keypair::from_protobuf_encoding` refuses
/// `bytes`, or `None` when it decodes them.
pub uninterp spec fn keypair_decode_error(bytes: Seq<u8>) -> Option<Seq<char>>;

/// `libp2p::identity::Keypair::from_protobuf_encoding`: the keypair that `bytes`
/// encode, or the text of libp2p's decoding error. Which keypair comes back is
/// opaque here, so only whether it decodes is stated.
#[verifier::external_body]
fn keypair_from_protobuf(bytes: &[u8]) -> (res: Result<libp2p::identity::Keypair, String>)
    ensures
        match res {
            Ok(_) => keypair_decode_error(bytes@) is None,
            Err(e) => keypair_decode_error(bytes@) == Some(e@),
        },
{
    libp2p::identity::Keypair::from_protobuf_encoding(bytes).map_err(|e| e.to_string())
}

/// The name of the file that holds a persona's key: the lower-case hex of the
/// SHA-256 digest of the persona's UTF-8 text, then `.key`.
pub open spec fn key_file_name_of(persona: Seq<char>) -> Seq<char> {
    hex_lower(sha256_digest(encode_utf8(persona))) + ".key"@
}

/// Bytes as text that is safe in a file name: their lower-case hex.
pub fn sanitize(data: &[u8]) -> (s: String)
    ensures
        s@ == hex_lower(data@),
{
    hex_encode(data)
}

/// The name of the file that holds a persona's key.
pub fn key_file_name(persona: &str) -> (name: String)
    ensures
        name@ == key_file_name_of(persona@),
{
    let hashed = sha256(persona.as_bytes());
    let mut name = sanitize(hashed.as_slice());
    name.append(".key");
    name
}

/// Whether a key stored for `stored_persona` may be used by `persona`: only by
/// the same persona.
pub fn check_persona(stored_persona: &str, persona: &str) -> (res: Result<(), KeypairError>)
    ensures
        res is Ok <==> stored_persona@ == persona@,
        res is Err ==> res == Err::<(), KeypairError>(KeypairError::WrongPersona),
{
    let stored = stored_persona.to_owned();
    let given = persona.to_owned();
    if stored.eq(&given) {
        Ok(())
    } else {
        Err(KeypairError::WrongPersona)
    }
}

/// The keypair stored for `stored_persona` as `key`, when `persona` opens it: the
/// persona is checked first, then the key is decoded.
pub fn open_stored_key(stored_persona: &str, persona: &str, key: &[u8]) -> (res: Result<
    libp2p::identity::Keypair,
    KeypairError,
>)
    ensures
        stored_persona@ != persona@ ==> res matches Err(KeypairError::WrongPersona),
        stored_persona@ == persona@ ==> (res is Ok <==> keypair_decode_error(key@) is None),
        stored_persona@ == persona@ ==> (res matches Err(e) ==> (e matches KeypairError::InvalidKey(m)
            && keypair_decode_error(key@) == Some(m@))),
{
    if check_persona(stored_persona, persona).is_err() {
        return Err(KeypairError::WrongPersona);
    }
    match keypair_from_protobuf(key) {
        Ok(keypair) => Ok(keypair),
        Err(m) => Err(KeypairError::InvalidKey(m)),
    }
}

} // verus!
