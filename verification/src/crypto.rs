//! The encrypted form of the configuration: a key out of a password, and a
//! sealed payload in an envelope of texts.
use argon2::Argon2;
use base64::engine::general_purpose::STANDARD;
use base64::Engine as _;
use chacha20poly1305::aead::{Aead, KeyInit};
use chacha20poly1305::{Key, XChaCha20Poly1305, XNonce};
use rand::rngs::OsRng;
use rand::RngCore;

use vstd::prelude::*;
use vstd::utf8::encode_utf8;

use crate::text::same_text;

verus! {

/// The name of what the standard Base64 engine encodes bytes to.
pub uninterp spec fn base64_text(bytes: Seq<u8>) -> Seq<char>;

/// The name of what the standard Base64 engine decodes a text to, where it is
/// one that it accepts.
pub uninterp spec fn base64_bytes(text: Seq<char>) -> Option<Seq<u8>>;

/// `STANDARD.encode` of the `base64` crate writes bytes as a text, which
/// depends on the bytes alone; decoding it gives the bytes back.
#[verifier::external_body]
pub(crate) fn base64_encode(bytes: &[u8]) -> (r: String)
    ensures
        r@ == base64_text(bytes@),
        base64_bytes(r@) == Some(bytes@),
{
    STANDARD.encode(bytes)
}

/// `STANDARD.decode` of the `base64` crate reads the bytes that a text writes,
/// or refuses the text; which of these, and which bytes, depends on the text
/// alone.
#[verifier::external_body]
pub(crate) fn base64_decode(text: &str) -> (r: Option<Vec<u8>>)
    ensures
        match r {
            Some(bytes) => base64_bytes(text@) == Some(bytes@),
            None => base64_bytes(text@) is None,
        },
{
    STANDARD.decode(text).ok()
}

/// The name of the key that Argon2 derives from a password and a salt.
pub uninterp spec fn argon2_key(password: Seq<u8>, salt: Seq<u8>) -> Seq<u8>;

/// What Argon2 says of a password or a salt that it does not take.
pub open spec fn key_refusal(password: Seq<u8>, salt: Seq<u8>) -> Option<Seq<char>> {
    if password.len() > 0xffff_ffff {
        Some("password is too long"@)
    } else if salt.len() < 8 {
        Some("salt is too short"@)
    } else if salt.len() > 0xffff_ffff {
        Some("salt is too long"@)
    } else {
        None
    }
}

/// `Argon2::hash_password_into` with the default settings fills 32 bytes from a
/// password and a salt. It refuses a password of more than 4294967295 bytes
/// and a salt of fewer than 8 or more than 4294967295 bytes; the texts are
/// those in which it says so. What it fills in depends on the two alone.
#[verifier::external_body]
fn derive_key(password: &[u8], salt: &[u8]) -> (r: Result<Vec<u8>, String>)
    ensures
        match r {
            Ok(key) => key_refusal(password@, salt@) is None && key@ == argon2_key(
                password@,
                salt@,
            ) && key@.len() == 32,
            Err(text) => key_refusal(password@, salt@) == Some(text@),
        },
{
    let mut key = vec![0u8; 32];
    match Argon2::default().hash_password_into(password, salt, &mut key) {
        Ok(()) => Ok(key),
        Err(error) => Err(error.to_string()),
    }
}

/// The name of what XChaCha20-Poly1305 encrypts a message to.
pub uninterp spec fn sealed(key: Seq<u8>, nonce: Seq<u8>, message: Seq<u8>) -> Seq<u8>;

/// The name of the message that XChaCha20-Poly1305 decrypts, where the bytes
/// are one that was encrypted with the key and the nonce.
pub uninterp spec fn opened(key: Seq<u8>, nonce: Seq<u8>, bytes: Seq<u8>) -> Option<Seq<u8>>;

/// How many bytes XChaCha20-Poly1305 encrypts at most: 4294967294 blocks of 64
/// bytes.
pub open spec fn message_fits(len: nat) -> bool {
    len <= 0x3f_ffff_ff80
}

/// How many bytes XChaCha20-Poly1305 decrypts at most: those of a message and of
/// its tag.
pub open spec fn payload_fits(len: nat) -> bool {
    len <= 0x3f_ffff_ff90
}

/// `XChaCha20Poly1305::encrypt` of the `chacha20poly1305` crate encrypts a
/// message and puts a tag of 16 bytes behind it. The result depends on the
/// arguments alone, and decrypting it with the same key and nonce gives the
/// message back. The key stream ends after 4294967294 blocks of 64 bytes, and a
/// longer message is not handed to it.
#[verifier::external_body]
fn seal(key: &[u8], nonce: &[u8], message: &[u8]) -> (r: Option<Vec<u8>>)
    requires
        key@.len() == 32,
        nonce@.len() == 24,
        message_fits(message@.len()),
    ensures
        match r {
            Some(bytes) => {
                &&& bytes@ == sealed(key@, nonce@, message@)
                &&& bytes@.len() == message@.len() + 16
                &&& opened(key@, nonce@, bytes@) == Some(message@)
            },
            None => false,
        },
{
    XChaCha20Poly1305::new(Key::from_slice(key)).encrypt(XNonce::from_slice(nonce), message).ok()
}

/// `XChaCha20Poly1305::decrypt` of the `chacha20poly1305` crate gives the
/// message back that was encrypted, or refuses the bytes; which of these, and
/// which message, depends on the arguments alone. More bytes than a message and
/// its tag can have are not handed to it.
#[verifier::external_body]
fn open(key: &[u8], nonce: &[u8], bytes: &[u8]) -> (r: Option<Vec<u8>>)
    requires
        key@.len() == 32,
        nonce@.len() == 24,
        payload_fits(bytes@.len()),
    ensures
        match r {
            Some(message) => opened(key@, nonce@, bytes@) == Some(message@),
            None => opened(key@, nonce@, bytes@) is None,
        },
{
    XChaCha20Poly1305::new(Key::from_slice(key)).decrypt(XNonce::from_slice(nonce), bytes).ok()
}

/// `OsRng::try_fill_bytes` of the `rand` crate fills a buffer with random
/// bytes, or says that the system gives none. Which bytes they are is chance.
#[verifier::external_body]
fn random_bytes(len: usize) -> (r: Option<Vec<u8>>)
    ensures
        r matches Some(bytes) ==> bytes@.len() == len,
{
    let mut bytes = vec![0u8; len];
    match OsRng.try_fill_bytes(&mut bytes) {
        Ok(()) => Some(bytes),
        Err(_) => None,
    }
}

/// An encrypted configuration, as it is stored.
#[derive(Debug)]
pub struct EncryptedConfigEnvelope {
    pub format_version: u32,
    pub kdf: String,
    pub cipher: String,
    pub salt: String,
    pub nonce: String,
    pub payload: String,
}

/// Why a configuration was not encrypted or not decrypted.
#[derive(Debug)]
pub enum CryptoError {
    NoRandomness,
    UnsupportedFormat,
    DecodeSalt,
    DecodeNonce,
    InvalidNonce,
    DecodePayload,
    DeriveKey(String),
    Encrypt,
    Decrypt,
}

impl CryptoError {
    /// The error in words.
    pub open spec fn words(self) -> Seq<char> {
        match self {
            CryptoError::NoRandomness => "the system gives no random bytes"@,
            CryptoError::UnsupportedFormat => "unsupported encrypted config format"@,
            CryptoError::DecodeSalt => "decode config salt"@,
            CryptoError::DecodeNonce => "decode config nonce"@,
            CryptoError::InvalidNonce => "invalid config nonce"@,
            CryptoError::DecodePayload => "decode encrypted config payload"@,
            CryptoError::DeriveKey(cause) => "derive encryption key: "@ + cause@,
            CryptoError::Encrypt => "encrypt config payload"@,
            CryptoError::Decrypt =>
                "cannot decrypt config; hardware UUID mismatch or corrupted data"@,
        }
    }

    /// The error in words.
    pub fn message(&self) -> (r: String)
        ensures
            r@ == self.words(),
    {
        match self {
            CryptoError::NoRandomness => "the system gives no random bytes".to_owned(),
            CryptoError::UnsupportedFormat => "unsupported encrypted config format".to_owned(),
            CryptoError::DecodeSalt => "decode config salt".to_owned(),
            CryptoError::DecodeNonce => "decode config nonce".to_owned(),
            CryptoError::InvalidNonce => "invalid config nonce".to_owned(),
            CryptoError::DecodePayload => "decode encrypted config payload".to_owned(),
            CryptoError::DeriveKey(cause) => {
                let mut r = "derive encryption key: ".to_owned();
                r.append(cause.as_str());
                r
            },
            CryptoError::Encrypt => "encrypt config payload".to_owned(),
            CryptoError::Decrypt =>
                "cannot decrypt config; hardware UUID mismatch or corrupted data".to_owned(),
        }
    }
}

impl EncryptedConfigEnvelope {
    /// The formats that can be decrypted.
    pub open spec fn supported(self) -> bool {
        self.format_version == 1 && self.kdf@ == "argon2id"@ && self.cipher@
            == "xchacha20poly1305"@
    }

    /// The error that decrypting the envelope with the password gives, if any.
    pub open spec fn refusal(self, password: Seq<u8>) -> Option<CryptoError> {
        if !self.supported() {
            Some(CryptoError::UnsupportedFormat)
        } else if base64_bytes(self.salt@) is None {
            Some(CryptoError::DecodeSalt)
        } else if base64_bytes(self.nonce@) is None {
            Some(CryptoError::DecodeNonce)
        } else if base64_bytes(self.nonce@).unwrap().len() != 24 {
            Some(CryptoError::InvalidNonce)
        } else if base64_bytes(self.payload@) is None {
            Some(CryptoError::DecodePayload)
        } else if key_refusal(password, base64_bytes(self.salt@).unwrap()) is Some {
            None
        } else if self.content(password) is None {
            Some(CryptoError::Decrypt)
        } else {
            None
        }
    }

    /// Whether the key cannot be derived, and what is said of it.
    pub open spec fn key_error(self, password: Seq<u8>) -> Option<Seq<char>> {
        if self.refusal(password) is None {
            key_refusal(password, base64_bytes(self.salt@).unwrap())
        } else {
            None
        }
    }

    /// What the payload holds under the password. One that is too long holds
    /// nothing.
    pub open spec fn content(self, password: Seq<u8>) -> Option<Seq<u8>> {
        if payload_fits(base64_bytes(self.payload@).unwrap().len()) {
            opened(
                argon2_key(password, base64_bytes(self.salt@).unwrap()),
                base64_bytes(self.nonce@).unwrap(),
                base64_bytes(self.payload@).unwrap(),
            )
        } else {
            None
        }
    }

    /// Whether the envelope is the one that seals the message under the
    /// password with the given salt and nonce.
    pub open spec fn seals(
        self,
        message: Seq<u8>,
        password: Seq<u8>,
        salt: Seq<u8>,
        nonce: Seq<u8>,
    ) -> bool {
        &&& self.supported()
        &&& self.salt@ == base64_text(salt)
        &&& self.nonce@ == base64_text(nonce)
        &&& self.payload@ == base64_text(sealed(argon2_key(password, salt), nonce, message))
    }

    /// Whether decrypting the envelope with the password gives the message.
    pub open spec fn gives(self, password: Seq<u8>, message: Seq<u8>) -> bool {
        &&& self.refusal(password) is None
        &&& self.key_error(password) is None
        &&& self.content(password) == Some(message)
    }
}

/// Seals a serialised configuration under a password with the given salt and
/// nonce. Decrypting the envelope with the same password gives it back.
pub fn seal_config(
    plaintext: &[u8],
    password: &str,
    salt: &[u8],
    nonce: &[u8],
) -> (r: Result<EncryptedConfigEnvelope, CryptoError>)
    requires
        nonce@.len() == 24,
    ensures
        match r {
            Ok(envelope) => {
                &&& envelope.seals(plaintext@, encode_utf8(password@), salt@, nonce@)
                &&& envelope.gives(encode_utf8(password@), plaintext@)
                &&& key_refusal(encode_utf8(password@), salt@) is None
                &&& message_fits(plaintext@.len())
            },
            Err(CryptoError::DeriveKey(text)) => key_refusal(encode_utf8(password@), salt@) == Some(
                text@,
            ),
            Err(error) => error == CryptoError::Encrypt && !message_fits(plaintext@.len())
                && key_refusal(encode_utf8(password@), salt@) is None,
        },
{
    let key = match derive_key(password.as_bytes(), salt) {
        Ok(key) => key,
        Err(text) => {
            return Err(CryptoError::DeriveKey(text));
        },
    };
    if plaintext.len() as u64 > 0x3f_ffff_ff80 {
        return Err(CryptoError::Encrypt);
    }
    let payload = match seal(key.as_slice(), nonce, plaintext) {
        Some(payload) => payload,
        None => {
            return Err(CryptoError::Encrypt);
        },
    };
    Ok(
        EncryptedConfigEnvelope {
            format_version: 1,
            kdf: "argon2id".to_owned(),
            cipher: "xchacha20poly1305".to_owned(),
            salt: base64_encode(salt),
            nonce: base64_encode(nonce),
            payload: base64_encode(payload.as_slice()),
        },
    )
}

/// Encrypts a serialised configuration under a password, with a salt and a
/// nonce that chance gives. Where there is an envelope, the password opens it
/// and gives the configuration back.
pub fn encrypt_config(plaintext: &[u8], password: &str) -> (r: Result<
    EncryptedConfigEnvelope,
    CryptoError,
>)
    ensures
        match r {
            Ok(envelope) => {
                &&& envelope.gives(encode_utf8(password@), plaintext@)
                &&& exists|salt: Seq<u8>, nonce: Seq<u8>|
                    salt.len() == 16 && nonce.len() == 24 && #[trigger] envelope.seals(
                        plaintext@,
                        encode_utf8(password@),
                        salt,
                        nonce,
                    )
                &&& encode_utf8(password@).len() <= 0xffff_ffff
                &&& message_fits(plaintext@.len())
            },
            Err(CryptoError::NoRandomness) => true,
            Err(CryptoError::DeriveKey(text)) => encode_utf8(password@).len() > 0xffff_ffff && text@
                == "password is too long"@,
            Err(error) => error == CryptoError::Encrypt && !message_fits(plaintext@.len())
                && encode_utf8(password@).len() <= 0xffff_ffff,
        },
{
    let salt = match random_bytes(16) {
        Some(salt) => salt,
        None => {
            return Err(CryptoError::NoRandomness);
        },
    };
    let nonce = match random_bytes(24) {
        Some(nonce) => nonce,
        None => {
            return Err(CryptoError::NoRandomness);
        },
    };
    seal_config(plaintext, password, salt.as_slice(), nonce.as_slice())
}

/// An envelope that holds a message under a password is refused for no reason with
/// that password, and holds no other message under it.
pub proof fn an_envelope_gives_one_message_back(
    envelope: EncryptedConfigEnvelope,
    password: Seq<u8>,
    message: Seq<u8>,
    other: Seq<u8>,
)
    requires
        envelope.gives(password, message),
    ensures
        envelope.refusal(password) is None,
        envelope.key_error(password) is None,
        envelope.gives(password, other) ==> other == message,
{
}

/// Decrypts an envelope with a password.
pub fn decrypt_config(envelope: &EncryptedConfigEnvelope, password: &str) -> (r: Result<
    Vec<u8>,
    CryptoError,
>)
    ensures
        match r {
            Ok(message) => envelope.gives(encode_utf8(password@), message@),
            Err(CryptoError::DeriveKey(text)) => envelope.key_error(encode_utf8(password@)) == Some(
                text@,
            ),
            Err(error) => envelope.refusal(encode_utf8(password@)) == Some(error),
        },
{
    if envelope.format_version != 1 || !same_text(envelope.kdf.as_str(), "argon2id") || !same_text(
        envelope.cipher.as_str(),
        "xchacha20poly1305",
    ) {
        return Err(CryptoError::UnsupportedFormat);
    }
    let salt = match base64_decode(envelope.salt.as_str()) {
        Some(salt) => salt,
        None => {
            return Err(CryptoError::DecodeSalt);
        },
    };
    let nonce = match base64_decode(envelope.nonce.as_str()) {
        Some(nonce) => nonce,
        None => {
            return Err(CryptoError::DecodeNonce);
        },
    };
    if nonce.len() != 24 {
        return Err(CryptoError::InvalidNonce);
    }
    let payload = match base64_decode(envelope.payload.as_str()) {
        Some(payload) => payload,
        None => {
            return Err(CryptoError::DecodePayload);
        },
    };
    let key = match derive_key(password.as_bytes(), salt.as_slice()) {
        Ok(key) => key,
        Err(text) => {
            return Err(CryptoError::DeriveKey(text));
        },
    };
    if payload.len() as u64 > 0x3f_ffff_ff90 {
        return Err(CryptoError::Decrypt);
    }
    match open(key.as_slice(), nonce.as_slice(), payload.as_slice()) {
        Some(message) => Ok(message),
        None => Err(CryptoError::Decrypt),
    }
}

/// An envelope is refused for the first thing that is wrong with it: its format, then its
/// salt, its nonce and its payload, and last that it does not open.
pub proof fn an_envelope_is_refused_for_what_is_wrong(
    envelope: EncryptedConfigEnvelope,
    password: Seq<u8>,
)
    ensures
        ({
            let refusal = envelope.refusal(password);
            let known = envelope.format_version == 1 && envelope.kdf@ == "argon2id"@
                && envelope.cipher@ == "xchacha20poly1305"@;
            let salt = base64_bytes(envelope.salt@);
            let nonce = base64_bytes(envelope.nonce@);
            let payload = base64_bytes(envelope.payload@);
            &&& refusal is Some && refusal->Some_0 is UnsupportedFormat <==> !known
            &&& refusal is Some && refusal->Some_0 is DecodeSalt <==> known && salt is None
            &&& refusal is Some && refusal->Some_0 is DecodeNonce <==> known && salt is Some
                && nonce is None
            &&& refusal is Some && refusal->Some_0 is InvalidNonce <==> known && salt is Some && (
            nonce matches Some(bytes) && bytes.len() != 24)
            &&& refusal is Some && refusal->Some_0 is DecodePayload <==> known && salt is Some && (
            nonce matches Some(bytes) && bytes.len() == 24) && payload is None
            &&& envelope.key_error(password) is Some ==> refusal is None
        }),
{
}

/// A password is too long above 32 bits of bytes, and a salt too short below eight.
pub proof fn a_key_needs_a_salt_of_eight_bytes(password: Seq<u8>, salt: Seq<u8>)
    ensures
        key_refusal(password, salt) is None <==> password.len() < 0x1_0000_0000 && 8 <= salt.len()
            < 0x1_0000_0000,
        (password.len() < 0x1_0000_0000 && salt.len() < 8) ==> key_refusal(password, salt) == Some(
            "salt is too short"@,
        ),
        password.len() >= 0x1_0000_0000 ==> key_refusal(password, salt) == Some(
            "password is too long"@,
        ),
{
}

} // verus!
