//! The image-only interface.
//!
//! This decrypter learns its key from PNG assets alone, and it takes the
//! caller's word that a buffer is an encrypted asset: it does not look at the
//! marker. What it needs of a buffer, the marker and a whole header behind it,
//! is a precondition of the call, not an error, and each kind of failure that
//! is left has an error type of its own.

use vstd::prelude::*;
use vstd::slice::slice_to_vec;
use crate::hex::{
    encode_key,
    hex_decode,
    hex_encode,
    is_key_hex,
    lemma_decode_encode,
    lemma_encode_is_hex,
};
use crate::key_after_set;
use crate::signature::{encrypted_header, key_from_reference, PNG_HEADER};
use crate::transform::{
    lemma_xor_header_opens,
    lemma_xor_header_twice,
    payload_of,
    with_marker,
    xor_header,
};
use crate::HEADER_LENGTH;

verus! {

/// Number of characters in the textual form of a key.
pub const KEY_LENGTH: usize = 32;

/// The key of a project whose encryption key was left unfilled.
pub const DEFAULT_KEY: &'static str = "d41d8cd98f00b204e9800998ecf8427e";

/// Why a text was not taken as a key.
#[derive(Clone, Copy, Debug, PartialEq, Eq, Structural)]
pub enum KeyError {
    /// The text is not 32 hexadecimal digits.
    InvalidLength,
}

/// Why an asset was not encrypted.
#[derive(Clone, Copy, Debug, PartialEq, Eq, Structural)]
pub enum EncryptError {
    /// No key was set before.
    KeyNotSet,
}

pub const INVALID_LENGTH_MESSAGE: &'static str = "Key must have a fixed length of 32 characters.";

pub const KEY_NOT_SET_MESSAGE: &'static str =
    "Key must be set using any of `set_key*` methods before calling `encrypt` function.";

impl KeyError {
    /// The sentence that describes this error.
    pub fn to_string(&self) -> (s: String)
        ensures
            s@ == INVALID_LENGTH_MESSAGE@,
    {
        INVALID_LENGTH_MESSAGE.to_owned()
    }
}

impl EncryptError {
    /// The sentence that describes this error.
    pub fn to_string(&self) -> (s: String)
        ensures
            s@ == KEY_NOT_SET_MESSAGE@,
    {
        KEY_NOT_SET_MESSAGE.to_owned()
    }
}

/// The text of the key that encrypted the image in `file`: the encrypted
/// header XOR-ed against the first bytes of a PNG.
pub open spec fn image_key(file: Seq<u8>) -> Seq<char>
    recommends
        file.len() >= 2 * HEADER_LENGTH,
{
    hex_encode(xor_header(PNG_HEADER@, encrypted_header(file)))
}

/// The key that decryption of `file` works with: the one that is held, and
/// only where none is held the one of the image in `file`.
pub open spec fn image_key_for(held: Option<Seq<char>>, file: Seq<u8>) -> Seq<char> {
    match held {
        Some(key) => key,
        None => image_key(file),
    }
}

/// Decrypts and encrypts assets with one key, which it is given as text or
/// learns from the first image it decrypts.
pub struct Decrypter {
    inner: crate::Decrypter,
}

impl Decrypter {
    /// The text of the key that is held, if one is.
    pub closed spec fn view(&self) -> Option<Seq<char>> {
        self.inner@
    }

    /// A decrypter that holds no key.
    pub fn new() -> (d: Self)
        ensures
            d@ is None,
    {
        Decrypter { inner: crate::Decrypter::new() }
    }

    /// The text of the key, or `None` if no key is set.
    pub fn key(&self) -> (r: Option<&str>)
        ensures
            r is Some <==> self@ is Some,
            r is Some ==> r->0@ == self@->0 && is_key_hex(r->0@),
    {
        self.inner.key()
    }

    /// Sets the key from its text: 32 hexadecimal digits, in either case. Any
    /// other text is refused, and the key that was held stays.
    pub fn set_key_from_str(&mut self, key: &str) -> (r: Result<(), KeyError>)
        ensures
            r is Ok <==> is_key_hex(key@),
            final(self)@ == key_after_set(old(self)@, key@),
    {
        match self.inner.set_key_from_str(key) {
            Ok(()) => Ok(()),
            Err(_) => Err(KeyError::InvalidLength),
        }
    }

    /// Sets the key to the one that encrypted the image in `file_content`,
    /// which must hold the marker and a whole encrypted header.
    pub fn set_key_from_image(&mut self, file_content: &[u8])
        requires
            file_content@.len() >= 2 * HEADER_LENGTH,
        ensures
            final(self)@ == Some(image_key(file_content@)),
    {
        let key = key_from_reference(&PNG_HEADER, file_content);
        proof {
            lemma_encode_is_hex(key@);
        }
        let text = encode_key(&key);
        let _ = self.inner.set_key_from_str(text.as_str());
    }

    /// Decrypts an asset into a new buffer: the sixteen bytes in front are
    /// taken off, and the header of what follows is XOR-ed against the key.
    /// Where no key is held, the asset is taken for an image, and its key is
    /// set first.
    ///
    /// The buffer must hold the marker and a whole encrypted header behind it.
    pub fn decrypt(&mut self, file_content: &[u8]) -> (r: Vec<u8>)
        requires
            file_content@.len() >= 2 * HEADER_LENGTH,
        ensures
            final(self)@ == Some(image_key_for(old(self)@, file_content@)),
            r@ == xor_header(hex_decode(final(self)@->0), payload_of(file_content@)),
    {
        if self.inner.key().is_none() {
            self.set_key_from_image(file_content);
        }
        let mut result = slice_to_vec(&file_content[HEADER_LENGTH..file_content.len()]);
        let _ = self.inner.xor_buffer(result.as_mut_slice());
        result
    }

    /// Encrypts an asset into a new buffer, which begins with the marker.
    pub fn encrypt(&self, file_content: &[u8]) -> (r: Result<Vec<u8>, EncryptError>)
        ensures
            r is Ok <==> self@ is Some,
            r is Ok ==> r->Ok_0@ == with_marker(
                xor_header(hex_decode(self@->0), file_content@),
            ),
    {
        match self.inner.encrypt(file_content) {
            Ok(data) => Ok(data),
            Err(_) => Err(EncryptError::KeyNotSet),
        }
    }
}

impl Default for Decrypter {
    fn default() -> (d: Self)
        ensures
            d@ is None,
    {
        Decrypter::new()
    }
}

/// What this decrypter encrypted it decrypts again, to the asset that was
/// given and with the same key, where that asset has a whole header.
pub proof fn lemma_encrypt_then_decrypt(key: Seq<char>, plain: Seq<u8>)
    requires
        plain.len() >= HEADER_LENGTH,
    ensures
        with_marker(xor_header(hex_decode(key), plain)).len() >= 2 * HEADER_LENGTH,
        image_key_for(Some(key), with_marker(xor_header(hex_decode(key), plain))) == key,
        xor_header(hex_decode(key), payload_of(with_marker(xor_header(hex_decode(key), plain))))
            == plain,
{
    lemma_xor_header_twice(hex_decode(key), plain);
}

/// An asset that is decrypted with the key learnt from itself begins with the
/// first bytes of a PNG.
pub proof fn lemma_image_begins_with_png_header(file: Seq<u8>)
    requires
        file.len() >= 2 * HEADER_LENGTH,
    ensures
        xor_header(hex_decode(image_key(file)), payload_of(file)).take(HEADER_LENGTH as int)
            == PNG_HEADER@,
{
    let header = encrypted_header(file);
    let plain = xor_header(hex_decode(image_key(file)), payload_of(file));
    lemma_decode_encode(xor_header(PNG_HEADER@, header));
    lemma_xor_header_opens(PNG_HEADER@, header);
    assert forall|i: int| 0 <= i < HEADER_LENGTH implies plain[i] == PNG_HEADER@[i] by {
        assert(xor_header(xor_header(PNG_HEADER@, header), header)[i] == PNG_HEADER@[i]);
    }
}

} // verus!
