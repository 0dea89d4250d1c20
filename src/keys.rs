//! Key material: 32 raw bytes, typed as public or private, written as
//! standard base64 text.
use vstd::prelude::*;
use vstd::string::*;
use base64::Engine;

verus! {

/// Length in bytes of every key.
pub const KEY_LEN: usize = 32;

/// What the standard base64 engine decodes `text` to; `None` where the text
/// is not valid padded base64.
pub uninterp spec fn base64_decoded(text: Seq<char>) -> Option<Seq<u8>>;

/// What the standard base64 engine encodes `bytes` to.
pub uninterp spec fn base64_encoded(bytes: Seq<u8>) -> Seq<char>;

/// Relies on base64's `STANDARD.decode`: the bytes that the text encodes,
/// or an error where it is not valid padded base64.
#[verifier::external_body]
fn decode_base64(text: &str) -> (r: Option<Vec<u8>>)
    ensures
        base64_decoded(text@) == match r {
            Some(v) => Some(v@),
            None => None::<Seq<u8>>,
        },
{
    match base64::engine::general_purpose::STANDARD.decode(text) {
        Ok(v) => Some(v),
        Err(_) => None,
    }
}

/// Relies on base64's `STANDARD.encode`: padded base64 text, which
/// `STANDARD.decode` reads back to the same bytes.
#[verifier::external_body]
fn encode_base64(bytes: &[u8]) -> (r: String)
    ensures
        r@ == base64_encoded(bytes@),
        base64_decoded(r@) == Some(bytes@),
{
    base64::engine::general_purpose::STANDARD.encode(bytes)
}

/// The X25519 public key of a secret: base-point multiplication.
pub uninterp spec fn x25519_public(secret: Seq<u8>) -> Seq<u8>;

/// Relies on x25519_dalek's `StaticSecret::random_from_rng` over rand's
/// `OsRng`: a secret drawn from the operating system's secure source.
#[verifier::external_body]
fn random_secret() -> (r: [u8; 32]) {
    x25519_dalek::StaticSecret::random_from_rng(rand::rngs::OsRng).to_bytes()
}

/// Relies on x25519_dalek's `PublicKey::from(&StaticSecret)`: the public key
/// of the secret, a function of its 32 bytes.
#[verifier::external_body]
fn public_of_secret(secret: &[u8; 32]) -> (r: [u8; 32])
    ensures
        r@ == x25519_public(secret@),
{
    x25519_dalek::PublicKey::from(&x25519_dalek::StaticSecret::from(*secret)).to_bytes()
}

/// Why a key text was refused. Each variant carries the text.
#[derive(Clone, Debug, PartialEq, Eq)]
pub enum ParseError {
    NotBase64(String),
    IncorrectLength(String),
}

impl ParseError {
    pub open spec fn text(self) -> Seq<char> {
        match self {
            ParseError::NotBase64(s) => s@,
            ParseError::IncorrectLength(s) => s@,
        }
    }

    /// A human-readable description.
    pub fn message(&self) -> (r: String)
        ensures
            r@ == match self {
                ParseError::NotBase64(s) => "cannot decode base64: "@ + s@,
                ParseError::IncorrectLength(s) => "incorrect key length after base64 decode: "@
                    + s@,
            },
    {
        match self {
            ParseError::NotBase64(s) => String::from_str("cannot decode base64: ").concat(
                s.as_str(),
            ),
            ParseError::IncorrectLength(s) => String::from_str(
                "incorrect key length after base64 decode: ",
            ).concat(s.as_str()),
        }
    }
}

/// The key that `text` writes: the bytes it decodes to, where they are 32.
pub open spec fn key_bytes_of(text: Seq<char>) -> Option<Seq<u8>> {
    match base64_decoded(text) {
        Some(b) => if b.len() == KEY_LEN {
            Some(b)
        } else {
            None
        },
        None => None,
    }
}

/// `r` is what reading `text` as a key gives: the key's bytes, or the error
/// that says why there is none, carrying the text.
pub open spec fn key_read_as(text: Seq<char>, r: Result<Seq<u8>, ParseError>) -> bool {
    match (base64_decoded(text), r) {
        (Some(b), Ok(k)) => b.len() == KEY_LEN && k == b,
        (None, Err(ParseError::NotBase64(s))) => s@ == text,
        (Some(b), Err(ParseError::IncorrectLength(s))) => b.len() != KEY_LEN && s@ == text,
        _ => false,
    }
}

/// Decodes key text into exactly 32 bytes.
fn decode_key(text: &str) -> (r: Result<[u8; 32], ParseError>)
    ensures
        key_read_as(
            text@,
            match r {
                Ok(k) => Ok(k@),
                Err(e) => Err(e),
            },
        ),
{
    let decoded = match decode_base64(text) {
        Some(v) => v,
        None => {
            return Err(ParseError::NotBase64(String::from_str(text)));
        },
    };
    if decoded.len() != KEY_LEN {
        return Err(ParseError::IncorrectLength(String::from_str(text)));
    }
    let mut bytes = [0u8; 32];
    let mut i: usize = 0;
    while i < KEY_LEN
        invariant
            decoded@.len() == KEY_LEN,
            i <= KEY_LEN,
            bytes@.len() == KEY_LEN,
            forall|j: int| 0 <= j < i ==> bytes@[j] == decoded@[j],
        decreases KEY_LEN - i,
    {
        bytes[i] = decoded[i];
        i = i + 1;
    }
    assert(bytes@ =~= decoded@);
    Ok(bytes)
}

/// Key material as raw bytes.
pub trait KeyMaterial {
    spec fn raw(&self) -> Seq<u8>;
}

/// Reading a key from base64 text.
pub trait FromBase64: KeyMaterial + Sized {
    fn from_base_64(value: &str) -> (r: Result<Self, ParseError>)
        ensures
            key_read_as(
                value@,
                match r {
                    Ok(k) => Ok(k.raw()),
                    Err(e) => Err(e),
                },
            ),
    ;
}

/// Writing a key as base64 text.
pub trait IntoBase64: KeyMaterial {
    fn into_base_64(&self) -> (r: String)
        ensures
            r@ == base64_encoded(self.raw()),
            base64_decoded(r@) == Some(self.raw()),
    ;
}

/// A peer's or the server's public key.
#[derive(Clone, Copy, Debug, PartialEq, Eq)]
pub struct PublicKey {
    pub bytes: [u8; 32],
}

/// The server's private key.
#[derive(Clone, Copy, Debug, PartialEq, Eq)]
pub struct PrivateKey {
    pub bytes: [u8; 32],
}

impl KeyMaterial for PublicKey {
    open spec fn raw(&self) -> Seq<u8> {
        self.bytes@
    }
}

impl KeyMaterial for PrivateKey {
    open spec fn raw(&self) -> Seq<u8> {
        self.bytes@
    }
}

impl FromBase64 for PublicKey {
    fn from_base_64(value: &str) -> (r: Result<Self, ParseError>) {
        match decode_key(value) {
            Ok(bytes) => Ok(PublicKey { bytes }),
            Err(e) => Err(e),
        }
    }
}

impl FromBase64 for PrivateKey {
    fn from_base_64(value: &str) -> (r: Result<Self, ParseError>) {
        match decode_key(value) {
            Ok(bytes) => Ok(PrivateKey { bytes }),
            Err(e) => Err(e),
        }
    }
}

impl IntoBase64 for PublicKey {
    fn into_base_64(&self) -> (r: String) {
        SerdeBase64::encode(&self.bytes)
    }
}

impl IntoBase64 for PrivateKey {
    fn into_base_64(&self) -> (r: String) {
        SerdeBase64::encode(&self.bytes)
    }
}

impl PublicKey {
    /// Byte-wise equality of two keys.
    pub fn same_as(&self, other: &PublicKey) -> (r: bool)
        ensures
            r == (self.bytes@ == other.bytes@),
    {
        let mut i: usize = 0;
        while i < KEY_LEN
            invariant
                i <= KEY_LEN,
                self.bytes@.len() == KEY_LEN,
                other.bytes@.len() == KEY_LEN,
                forall|j: int| 0 <= j < i ==> self.bytes@[j] == other.bytes@[j],
            decreases KEY_LEN - i,
        {
            if self.bytes[i] != other.bytes[i] {
                return false;
            }
            i = i + 1;
        }
        assert(self.bytes@ =~= other.bytes@);
        true
    }
}

impl PrivateKey {
    /// The public key that belongs to this private key.
    pub fn public_key(&self) -> (r: PublicKey)
        ensures
            r.raw() == x25519_public(self.raw()),
    {
        PublicKey { bytes: public_of_secret(&self.bytes) }
    }
}

/// A private key with its public key.
#[derive(Clone, Copy, Debug)]
pub struct KeyPair {
    pub public: PublicKey,
    pub private: PrivateKey,
}

impl KeyPair {
    /// A fresh key pair from a secure random source.
    pub fn gen() -> (r: KeyPair)
        ensures
            r.public.raw() == x25519_public(r.private.raw()),
    {
        let private = PrivateKey { bytes: random_secret() };
        let public = private.public_key();
        KeyPair { public, private }
    }
}

/// Base64 form of raw key bytes, as the store document writes them.
pub struct SerdeBase64 {}

impl SerdeBase64 {
    pub fn encode<const N: usize>(bytes: &[u8; N]) -> (r: String)
        ensures
            r@ == base64_encoded(bytes@),
            base64_decoded(r@) == Some(bytes@),
    {
        encode_base64(bytes.as_slice())
    }
}

} // verus!
