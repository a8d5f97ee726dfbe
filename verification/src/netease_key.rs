//! Recovery of the stable identifier from the key that the music client leaves
//! among the tags of a file.
//!
//! The key is a text of the form `163 key(Don't modify):<payload>`. The payload
//! is base64; decoded, it is AES-128 in ECB mode under a fixed key, with PKCS
//! padding; decrypted, it is UTF-8 text of the form `music:<JSON object>`, and
//! the member `musicId` of that object is the identifier.
//!
//! Decoding base64, the block cipher and reading JSON are the work of other
//! crates. What they return is named here, not defined: the contracts say how
//! the steps are put together, and which failure each step gives.

use crypto::aes::KeySize;
use crypto::aes::ecb_decryptor;
use crypto::blockmodes::NoPadding;
use crypto::buffer::RefReadBuffer;
use crypto::buffer::RefWriteBuffer;
use vstd::prelude::*;
use vstd::string::*;
use vstd::utf8::*;

use crate::filename::chars_of;

verus! {

/// The step at which a key could not be read.
#[derive(Clone, Copy, Debug, PartialEq, Eq, Structural)]
pub enum KeyError {
    /// The text does not start with `163 key(Don't modify):`.
    NoKeyPrefix,
    /// The payload is not base64.
    Base64,
    /// The payload is not a whole number of cipher blocks, or the plain text
    /// does not end in PKCS padding.
    Cipher,
    /// The plain text is not UTF-8.
    Utf8,
    /// The plain text does not start with `music:`.
    NoPayloadPrefix,
    /// What follows `music:` is not JSON, or is not an object whose member
    /// `musicId` is a number that fits 64 bits without a sign.
    Json,
}

impl KeyError {
    /// The words for each failure.
    pub open spec fn message_text(&self) -> Seq<char> {
        match self {
            KeyError::NoKeyPrefix => "no valid 163 key found"@,
            KeyError::Base64 => "163 key is not base64"@,
            KeyError::Cipher => "163 key cannot be decrypted"@,
            KeyError::Utf8 => "163 key is not text"@,
            KeyError::NoPayloadPrefix => "unsupported 163 key"@,
            KeyError::Json => "163 key holds no music id"@,
        }
    }

    /// What went wrong, in words.
    pub fn message(&self) -> (text: &'static str)
        ensures
            text@ == self.message_text(),
    {
        match self {
            KeyError::NoKeyPrefix => "no valid 163 key found",
            KeyError::Base64 => "163 key is not base64",
            KeyError::Cipher => "163 key cannot be decrypted",
            KeyError::Utf8 => "163 key is not text",
            KeyError::NoPayloadPrefix => "unsupported 163 key",
            KeyError::Json => "163 key holds no music id",
        }
    }
}

/// The key under which the client encrypts the payload.
pub const METADATA_KEY: [u8; 16] = [
    0x23,
    0x31,
    0x34,
    0x6C,
    0x6A,
    0x6B,
    0x5F,
    0x21,
    0x5C,
    0x5D,
    0x26,
    0x30,
    0x55,
    0x3C,
    0x27,
    0x28,
];

/// The length of a cipher block in bytes.
pub const BLOCK_LEN: usize = 16;

/// What every key starts with.
pub open spec fn key_prefix() -> Seq<char> {
    "163 key(Don't modify):"@
}

/// What every plain text starts with.
pub open spec fn payload_prefix() -> Seq<char> {
    "music:"@
}

/// The name of the member that holds the identifier.
pub open spec fn id_member() -> Seq<char> {
    "musicId"@
}

/// The bytes that `base64::decode` gives for a text, or `None` where it refuses
/// the text.
pub uninterp spec fn base64_decoded(text: Seq<char>) -> Option<Seq<u8>>;

/// The bytes that AES-128 decryption in ECB mode gives for `data` under `key`,
/// block by block, padding included.
pub uninterp spec fn aes128_ecb_decrypted(key: Seq<u8>, data: Seq<u8>) -> Seq<u8>;

/// The number that `serde_json` reads under the member `name` of the JSON object
/// `text`, or `None` where `text` is no JSON, no object, has no such member, or
/// the member is no number that fits `u64`.
pub uninterp spec fn json_unsigned_member(text: Seq<char>, name: Seq<char>) -> Option<u64>;

/// The view of optional bytes.
pub open spec fn bytes_view(bytes: Option<Vec<u8>>) -> Option<Seq<u8>> {
    match bytes {
        Some(b) => Some(b@),
        None => None,
    }
}

/// Calls `base64::decode`, which reads standard base64 with padding. The result
/// is the named one; a refusal of the text, whatever its reason, is `None`.
#[verifier::external_body]
fn base64_decode(text: &str) -> (bytes: Option<Vec<u8>>)
    ensures
        bytes_view(bytes) == base64_decoded(text@),
{
    match base64::decode(text) {
        Ok(bytes) => Some(bytes),
        Err(_) => None,
    }
}

/// Calls `crypto::aes::ecb_decryptor` for AES-128 without padding and runs its
/// `decrypt` once over all of `data`, into a buffer of the same length. The
/// decryptor turns each block of 16 bytes into one block and refuses data that
/// is no whole number of blocks: that refusal is `None`.
#[verifier::external_body]
fn aes128_ecb_decrypt(key: &[u8; 16], data: &Vec<u8>) -> (plain: Option<Vec<u8>>)
    ensures
        plain is Some <==> data@.len() % 16 == 0,
        plain matches Some(p) ==> p@ == aes128_ecb_decrypted(key@, data@) && p@.len()
            == data@.len(),
{
    let mut plain = vec![0u8; data.len()];
    let mut decryptor = ecb_decryptor(KeySize::KeySize128, &key[..], NoPadding);
    let mut input = RefReadBuffer::new(&data[..]);
    let mut output = RefWriteBuffer::new(&mut plain[..]);
    match decryptor.decrypt(&mut input, &mut output, true) {
        Ok(_) => Some(plain),
        Err(_) => None,
    }
}

/// Calls `String::from_utf8`, which accepts exactly the bytes that are UTF-8 and
/// gives the text that they encode.
#[verifier::external_body]
fn utf8_text(bytes: Vec<u8>) -> (text: Option<String>)
    ensures
        text is Some <==> valid_utf8(bytes@),
        text matches Some(t) ==> t@ == decode_utf8(bytes@),
{
    match String::from_utf8(bytes) {
        Ok(text) => Some(text),
        Err(_) => None,
    }
}

/// Calls `serde_json::from_str` for a `serde_json::Value` and reads the member
/// `name` of it as a `u64`. The result is the named one.
#[verifier::external_body]
fn json_read_unsigned(text: &str, name: &str) -> (number: Option<u64>)
    ensures
        number == json_unsigned_member(text@, name@),
{
    match serde_json::from_str::<serde_json::Value>(text) {
        Ok(value) => value[name].as_u64(),
        Err(_) => None,
    }
}

/// The plain text ends in PKCS padding: its last byte is a length from 1 to the
/// block length, and as many bytes at the end hold that length.
pub open spec fn well_padded(plain: Seq<u8>) -> bool {
    &&& plain.len() > 0
    &&& 1 <= plain.last() <= BLOCK_LEN
    &&& plain.last() <= plain.len()
    &&& forall|i: int|
        plain.len() - plain.last() <= i < plain.len() ==> #[trigger] plain[i] == plain.last()
}

/// The plain text without its padding.
pub open spec fn unpadded(plain: Seq<u8>) -> Seq<u8> {
    plain.subrange(0, plain.len() - plain.last())
}

/// The JSON text that a decrypted payload holds, or the step that fails: the
/// padding is taken off, the rest is read as UTF-8, and `music:` is taken off
/// its front.
pub open spec fn payload_of(plain: Seq<u8>) -> Result<Seq<char>, KeyError> {
    if !well_padded(plain) {
        Err(KeyError::Cipher)
    } else if !valid_utf8(unpadded(plain)) {
        Err(KeyError::Utf8)
    } else {
        let text = decode_utf8(unpadded(plain));
        if payload_prefix().is_prefix_of(text) {
            Ok(text.skip(payload_prefix().len() as int))
        } else {
            Err(KeyError::NoPayloadPrefix)
        }
    }
}

/// The identifier that a JSON text holds.
pub open spec fn id_of_json(json: Seq<char>) -> Result<u64, KeyError> {
    match json_unsigned_member(json, id_member()) {
        Some(id) => Ok(id),
        None => Err(KeyError::Json),
    }
}

/// The identifier that decrypted bytes hold.
pub open spec fn id_of_plain(plain: Seq<u8>) -> Result<u64, KeyError> {
    match payload_of(plain) {
        Ok(json) => id_of_json(json),
        Err(e) => Err(e),
    }
}

/// The identifier that encrypted bytes hold.
pub open spec fn id_of_cipher(cipher: Seq<u8>) -> Result<u64, KeyError> {
    if cipher.len() % 16 == 0 {
        id_of_plain(aes128_ecb_decrypted(METADATA_KEY@, cipher))
    } else {
        Err(KeyError::Cipher)
    }
}

/// The identifier that a key holds, or the first step that fails.
pub open spec fn id_of_key(key: Seq<char>) -> Result<u64, KeyError> {
    if key_prefix().is_prefix_of(key) {
        match base64_decoded(key.skip(key_prefix().len() as int)) {
            Some(cipher) => id_of_cipher(cipher),
            None => Err(KeyError::Base64),
        }
    } else {
        Err(KeyError::NoKeyPrefix)
    }
}

/// The view of a text or a failure.
pub open spec fn text_or_error(outcome: Result<String, KeyError>) -> Result<Seq<char>, KeyError> {
    match outcome {
        Ok(text) => Ok(text@),
        Err(e) => Err(e),
    }
}

/// Whether `text` starts with `prefix`.
pub fn starts_with(text: &str, prefix: &str) -> (starts: bool)
    ensures
        starts == prefix@.is_prefix_of(text@),
{
    let text_chars = chars_of(text);
    let prefix_chars = chars_of(prefix);
    if prefix_chars.len() > text_chars.len() {
        return false;
    }
    let mut i: usize = 0;
    while i < prefix_chars.len()
        invariant
            i <= prefix_chars.len() <= text_chars.len(),
            text_chars@ == text@,
            prefix_chars@ == prefix@,
            forall|j: int| 0 <= j < i ==> text@[j] == prefix@[j],
        decreases prefix_chars.len() - i,
    {
        if text_chars[i] != prefix_chars[i] {
            return false;
        }
        i += 1;
    }
    true
}

/// `text` without `prefix` at its front, where it starts with `prefix`.
pub fn strip_prefix<'a>(text: &'a str, prefix: &str) -> (rest: Option<&'a str>)
    ensures
        rest is Some <==> prefix@.is_prefix_of(text@),
        rest matches Some(r) ==> r@ == text@.skip(prefix@.len() as int),
{
    if starts_with(text, prefix) {
        Some(text.substring_char(prefix.unicode_len(), text.unicode_len()))
    } else {
        None
    }
}

/// Takes the PKCS padding off decrypted bytes, where they end in it.
pub fn strip_padding(plain: Vec<u8>) -> (bare: Option<Vec<u8>>)
    ensures
        bare is Some <==> well_padded(plain@),
        bare matches Some(b) ==> b@ == unpadded(plain@),
{
    let len = plain.len();
    if len == 0 {
        return None;
    }
    let last = plain[len - 1];
    let pad = last as usize;
    if pad < 1 || pad > BLOCK_LEN || pad > len {
        return None;
    }
    let mut i: usize = len - pad;
    while i < len
        invariant
            len == plain.len(),
            1 <= pad <= len,
            len - pad <= i <= len,
            last == plain@.last(),
            pad == last,
            forall|j: int| len - pad <= j < i ==> #[trigger] plain@[j] == last,
        decreases len - i,
    {
        if plain[i] != last {
            return None;
        }
        i += 1;
    }
    let mut bare = plain;
    bare.truncate(len - pad);
    Some(bare)
}

/// Reads the JSON text out of a decrypted payload. The padding is taken off, the
/// rest must be UTF-8 and start with `music:`; what follows is the JSON text.
pub fn payload_text(plain: Vec<u8>) -> (outcome: Result<String, KeyError>)
    ensures
        text_or_error(outcome) == payload_of(plain@),
{
    let bare = match strip_padding(plain) {
        Some(bare) => bare,
        None => {
            return Err(KeyError::Cipher);
        },
    };
    let text = match utf8_text(bare) {
        Some(text) => text,
        None => {
            return Err(KeyError::Utf8);
        },
    };
    match strip_prefix(text.as_str(), "music:") {
        Some(json) => Ok(json.to_owned()),
        None => Err(KeyError::NoPayloadPrefix),
    }
}

/// Reads the identifier out of the encrypted payload of a key.
pub fn decrypt_payload(cipher: &Vec<u8>) -> (outcome: Result<u64, KeyError>)
    ensures
        outcome == id_of_cipher(cipher@),
{
    let plain = match aes128_ecb_decrypt(&METADATA_KEY, cipher) {
        Some(plain) => plain,
        None => {
            return Err(KeyError::Cipher);
        },
    };
    let json = match payload_text(plain) {
        Ok(json) => json,
        Err(e) => {
            return Err(e);
        },
    };
    match json_read_unsigned(json.as_str(), "musicId") {
        Some(id) => Ok(id),
        None => Err(KeyError::Json),
    }
}

/// Recovers the stable identifier from a key, or says at which step the key
/// could not be read.
pub fn decrypt_163_key(key: &str) -> (outcome: Result<u64, KeyError>)
    ensures
        outcome == id_of_key(key@),
{
    let payload = match strip_prefix(key, "163 key(Don't modify):") {
        Some(payload) => payload,
        None => {
            return Err(KeyError::NoKeyPrefix);
        },
    };
    match base64_decode(payload) {
        Some(cipher) => decrypt_payload(&cipher),
        None => Err(KeyError::Base64),
    }
}

/// Whether a text is a key: whether it starts with `163 key(Don't modify):`.
pub fn is_163_key(text: &str) -> (is_key: bool)
    ensures
        is_key == key_prefix().is_prefix_of(text@),
{
    starts_with(text, "163 key(Don't modify):")
}

} // verus!
