//! Decryption and encryption of RPG Maker MV/MZ assets.
//!
//! The engine stores an image or a sound as a marker of sixteen bytes followed
//! by the plain file, whose first sixteen bytes are XOR-ed against a key of
//! sixteen bytes. What a plain file of each kind begins with is known, so the
//! key can be read off any encrypted asset.
//!
//! Everything here works on buffers in memory. The state of a [`Decrypter`] is
//! the text of its key, or nothing: `view` gives it, and the contracts say how
//! each operation reads and changes it.

use vstd::prelude::*;
use vstd::slice::slice_to_vec;
use vstd::std_specs::convert::TryFromSpecImpl;
use vstd::utf8::*;
use crate::hex::{
    decode_key,
    encode_key,
    hex_decode,
    hex_encode,
    is_key_hex,
    lemma_decode_encode,
    lemma_encode_is_hex,
};
use crate::signature::{
    derive_key,
    derived_key,
    encrypted_header,
    lemma_derived_key_opens_header,
    lemma_reference_header_len,
    reference_header,
};
use crate::transform::{
    has_marker,
    lemma_marker_then_payload,
    lemma_with_marker,
    lemma_xor_header_twice,
    payload_of,
    starts_with_marker,
    with_marker,
    xor_header,
    xor_in_place,
};

pub mod decrypter;
pub mod hex;
pub mod signature;
pub mod transform;

verus! {

/// Number of leading payload bytes that the transform touches.
pub const HEADER_LENGTH: usize = 16;

/// Number of raw bytes in a key.
pub const KEY_LENGTH: usize = 16;

/// Number of characters in the textual form of a key.
pub const KEY_STR_LENGTH: usize = 32;

/// The key of a project whose encryption key was left unfilled.
pub const DEFAULT_KEY: &'static str = "d41d8cd98f00b204e9800998ecf8427e";

/// The marker that every encrypted asset begins with.
pub const RPGM_HEADER: [u8; 16] = [
    0x52, 0x50, 0x47, 0x4d, 0x56, 0x00, 0x00, 0x00, 0x00, 0x03, 0x01, 0x00, 0x00, 0x00, 0x00, 0x00,
];

pub const MV_PNG_EXT: &'static str = "rpgmvp";

pub const MZ_PNG_EXT: &'static str = "png_";

pub const MV_OGG_EXT: &'static str = "rpgmvo";

pub const MZ_OGG_EXT: &'static str = "ogg_";

pub const MV_M4A_EXT: &'static str = "rpgmvm";

pub const MZ_M4A_EXT: &'static str = "m4a_";

pub const PNG_EXT: &'static str = "png";

pub const OGG_EXT: &'static str = "ogg";

pub const M4A_EXT: &'static str = "m4a";

/// The extensions of encrypted assets, MV then MZ.
pub const ENCRYPTED_ASSET_EXTS: [&'static str; 6] = [
    MV_PNG_EXT,
    MV_OGG_EXT,
    MV_M4A_EXT,
    MZ_PNG_EXT,
    MZ_OGG_EXT,
    MZ_M4A_EXT,
];

/// The extensions of plain assets.
pub const DECRYPTED_ASSETS_EXTS: [&'static str; 3] = [PNG_EXT, OGG_EXT, M4A_EXT];

/// What `FileType::try_from` answers to an extension it does not know.
pub const UNSUPPORTED_EXTENSION: &'static str = "Extension not supported";

/// The kind of asset that a buffer holds.
#[derive(Clone, Copy, Debug, PartialEq, Eq, Structural)]
pub enum FileType {
    PNG,
    OGG,
    M4A,
}

/// The kind of asset that a file with the extension `extension` holds, for
/// the extensions of encrypted assets.
pub open spec fn file_type_of(extension: Seq<char>) -> Option<FileType> {
    if extension == MV_PNG_EXT@ || extension == MZ_PNG_EXT@ {
        Some(FileType::PNG)
    } else if extension == MV_OGG_EXT@ || extension == MZ_OGG_EXT@ {
        Some(FileType::OGG)
    } else if extension == MV_M4A_EXT@ || extension == MZ_M4A_EXT@ {
        Some(FileType::M4A)
    } else {
        None
    }
}

/// The extension of a plain asset of kind `file_type`.
pub open spec fn file_type_name(file_type: FileType) -> Seq<char> {
    match file_type {
        FileType::PNG => PNG_EXT@,
        FileType::OGG => OGG_EXT@,
        FileType::M4A => M4A_EXT@,
    }
}

/// Whether two texts are the same, character for character.
fn same_text(a: &str, b: &str) -> (r: bool)
    ensures
        r == (a@ == b@),
{
    let x = a.as_bytes();
    let y = b.as_bytes();
    proof {
        encode_utf8_decode_utf8(a@);
        encode_utf8_decode_utf8(b@);
    }
    if x.len() != y.len() {
        return false;
    }
    let mut i: usize = 0;
    while i < x.len()
        invariant
            i <= x@.len(),
            x@.len() == y@.len(),
            forall|j: int| 0 <= j < i ==> x@[j] == y@[j],
            x@ == encode_utf8(a@),
            y@ == encode_utf8(b@),
            decode_utf8(encode_utf8(a@)) == a@,
            decode_utf8(encode_utf8(b@)) == b@,
        decreases x@.len() - i,
    {
        if x[i] != y[i] {
            return false;
        }
        i += 1;
    }
    assert(x@ =~= y@);
    true
}

impl FileType {
    pub fn is_png(self) -> (b: bool)
        ensures
            b == (self == FileType::PNG),
    {
        matches!(self, FileType::PNG)
    }

    pub fn is_ogg(self) -> (b: bool)
        ensures
            b == (self == FileType::OGG),
    {
        matches!(self, FileType::OGG)
    }

    pub fn is_m4a(self) -> (b: bool)
        ensures
            b == (self == FileType::M4A),
    {
        matches!(self, FileType::M4A)
    }

    /// The extension of a plain asset of this kind: `png`, `ogg` or `m4a`.
    pub fn to_string(&self) -> (s: String)
        ensures
            s@ == file_type_name(*self),
    {
        match self {
            FileType::PNG => PNG_EXT.to_owned(),
            FileType::OGG => OGG_EXT.to_owned(),
            FileType::M4A => M4A_EXT.to_owned(),
        }
    }
}

impl<'a> TryFrom<&'a str> for FileType {
    type Error = &'static str;

    /// The kind of asset behind the extension of an encrypted file.
    fn try_from(value: &'a str) -> (r: Result<Self, Self::Error>) {
        if same_text(value, MV_PNG_EXT) || same_text(value, MZ_PNG_EXT) {
            Ok(FileType::PNG)
        } else if same_text(value, MV_OGG_EXT) || same_text(value, MZ_OGG_EXT) {
            Ok(FileType::OGG)
        } else if same_text(value, MV_M4A_EXT) || same_text(value, MZ_M4A_EXT) {
            Ok(FileType::M4A)
        } else {
            Err(UNSUPPORTED_EXTENSION)
        }
    }
}

impl<'a> TryFromSpecImpl<&'a str> for FileType {
    open spec fn obeys_try_from_spec() -> bool {
        true
    }

    open spec fn try_from_spec(value: &'a str) -> Result<Self, &'static str> {
        match file_type_of(value@) {
            Some(file_type) => Ok(file_type),
            None => Err(UNSUPPORTED_EXTENSION),
        }
    }
}

/// Why an operation was refused.
#[derive(Clone, Copy, Debug, PartialEq, Eq, Structural)]
pub enum Error {
    /// Encryption was asked for before any key was set.
    KeyNotSet,
    /// The text given as a key is not 32 hexadecimal digits.
    InvalidKeyLength,
    /// The data does not begin with the marker of an encrypted asset.
    InvalidHeader,
    /// The data ends before everything needed could be read from it.
    UnexpectedEOF,
}

pub const KEY_NOT_SET_MESSAGE: &'static str =
    "Key must be set using any of `set_key` methods before calling `encrypt` function.";

pub const INVALID_KEY_LENGTH_MESSAGE: &'static str =
    "Key must have a fixed length of 32 characters.";

pub const INVALID_HEADER_MESSAGE: &'static str =
    "Passed data has invalid header. RPG Maker encrypted files should always start with RPGMV header. Either passed data is not RPG Maker data or it's corrupted.";

pub const UNEXPECTED_EOF_MESSAGE: &'static str =
    "Unexpected end of file encountered. Either passed data is not RPG Maker data or it's corrupted.";

/// The sentence that describes `error`.
pub open spec fn error_message(error: Error) -> Seq<char> {
    match error {
        Error::KeyNotSet => KEY_NOT_SET_MESSAGE@,
        Error::InvalidKeyLength => INVALID_KEY_LENGTH_MESSAGE@,
        Error::InvalidHeader => INVALID_HEADER_MESSAGE@,
        Error::UnexpectedEOF => UNEXPECTED_EOF_MESSAGE@,
    }
}

impl Error {
    /// The sentence that describes this error.
    pub fn to_string(&self) -> (s: String)
        ensures
            s@ == error_message(*self),
    {
        match self {
            Error::KeyNotSet => KEY_NOT_SET_MESSAGE.to_owned(),
            Error::InvalidKeyLength => INVALID_KEY_LENGTH_MESSAGE.to_owned(),
            Error::InvalidHeader => INVALID_HEADER_MESSAGE.to_owned(),
            Error::UnexpectedEOF => UNEXPECTED_EOF_MESSAGE.to_owned(),
        }
    }
}

/// The key that is held after `text` was offered as one: `text` if it is the
/// text of a key, and otherwise what was held before.
pub open spec fn key_after_set(before: Option<Seq<char>>, text: Seq<char>) -> Option<Seq<char>> {
    if is_key_hex(text) {
        Some(text)
    } else {
        before
    }
}

/// The key that decryption of `file` works with: the one that is held, and
/// only where none is held the one derived from `file`.
pub open spec fn key_for(held: Option<Seq<char>>, file: Seq<u8>, file_type: FileType) -> Result<
    Seq<char>,
    Error,
> {
    match held {
        Some(key) => Ok(key),
        None => match derived_key(file, file_type) {
            Ok(raw) => Ok(hex_encode(raw)),
            Err(e) => Err(e),
        },
    }
}

/// What decryption of `file` gives, with `held` as the key held before: the
/// key held afterwards and the plain asset. The marker is taken off and the
/// header of what follows is XOR-ed against the key. An asset without the
/// marker is refused, and so is one whose header is not whole, with or
/// without a key.
pub open spec fn decrypted(held: Option<Seq<char>>, file: Seq<u8>, file_type: FileType) -> Result<
    (Seq<char>, Seq<u8>),
    Error,
> {
    if !has_marker(file) {
        Err(Error::InvalidHeader)
    } else if file.len() < 2 * HEADER_LENGTH {
        Err(Error::UnexpectedEOF)
    } else {
        match key_for(held, file, file_type) {
            Ok(key) => Ok((key, xor_header(hex_decode(key), payload_of(file)))),
            Err(e) => Err(e),
        }
    }
}

/// What encryption of `plain` gives, with `held` as the key: the marker, then
/// `plain` with its header XOR-ed against the key.
pub open spec fn encrypted(held: Option<Seq<char>>, plain: Seq<u8>) -> Result<Seq<u8>, Error> {
    match held {
        Some(key) => Ok(with_marker(xor_header(hex_decode(key), plain))),
        None => Err(Error::KeyNotSet),
    }
}

/// What encryption in place leaves in the buffer: `plain` with its header
/// XOR-ed against the key, and no marker in front of it.
pub open spec fn encrypted_in_place(held: Option<Seq<char>>, plain: Seq<u8>) -> Result<
    Seq<u8>,
    Error,
> {
    match held {
        Some(key) => Ok(xor_header(hex_decode(key), plain)),
        None => Err(Error::KeyNotSet),
    }
}

/// What the transform alone leaves in a buffer that held `data`, with `held`
/// as the key: `data` with its header XOR-ed against the key. It is refused
/// where `data` is shorter than a header.
pub open spec fn xored(held: Option<Seq<char>>, data: Seq<u8>) -> Result<Seq<u8>, Error> {
    match held {
        Some(key) => if data.len() < HEADER_LENGTH {
            Err(Error::UnexpectedEOF)
        } else {
            Ok(xor_header(hex_decode(key), data))
        },
        None => Err(Error::KeyNotSet),
    }
}

/// Decrypts and encrypts assets with one key, which it is given as text or
/// learns from the first asset it decrypts.
pub struct Decrypter {
    key_hex: String,
    key: [u8; 16],
    has_key: bool,
}

impl Decrypter {
    /// The two forms of a key that is held agree.
    #[verifier::type_invariant]
    spec fn consistent(&self) -> bool {
        self.has_key ==> is_key_hex(self.key_hex@) && self.key@ == hex_decode(self.key_hex@)
    }

    /// The text of the key that is held, if one is.
    pub closed spec fn view(&self) -> Option<Seq<char>> {
        if self.has_key {
            Some(self.key_hex@)
        } else {
            None
        }
    }

    /// A decrypter that holds no key.
    pub fn new() -> (d: Self)
        ensures
            d@ is None,
    {
        Decrypter { key_hex: String::new(), key: [0u8; 16], has_key: false }
    }

    /// Takes `key_hex` as the key if it is the text of one, and says whether it did.
    fn set_key_from_hex(&mut self, key_hex: String) -> (taken: bool)
        ensures
            taken == is_key_hex(key_hex@),
            final(self)@ == key_after_set(old(self)@, key_hex@),
    {
        match decode_key(key_hex.as_str()) {
            Some(key) => {
                *self = Decrypter { key_hex, key, has_key: true };
                true
            },
            None => false,
        }
    }

    /// XORs the header of the payload that begins at `start` against the key,
    /// as far as the payload goes.
    fn xor_payload(&self, buffer: &mut [u8], start: usize)
        requires
            self@ is Some,
            start <= old(buffer)@.len(),
        ensures
            final(buffer)@ == old(buffer)@.take(start as int) + xor_header(
                hex_decode(self@->0),
                old(buffer)@.skip(start as int),
            ),
    {
        proof {
            use_type_invariant(self);
        }
        xor_in_place(&self.key, buffer, start);
    }

    /// The transform alone: XORs the first sixteen bytes of `buffer` against
    /// the key, and leaves the rest. Done twice it gives the buffer back.
    ///
    /// This is for callers who frame assets themselves, and like decryption it
    /// asks for a whole header: a shorter buffer is refused with
    /// `UnexpectedEOF`. Only encryption, which has no error but `KeyNotSet`,
    /// transforms of a shorter buffer what there is. `KeyNotSet` where no key
    /// is held. A buffer that is refused is left as it was.
    pub fn xor_buffer(&self, buffer: &mut [u8]) -> (r: Result<(), Error>)
        ensures
            match xored(self@, old(buffer)@) {
                Ok(data) => r is Ok && final(buffer)@ == data,
                Err(e) => r is Err && r->Err_0 == e && final(buffer)@ == old(buffer)@,
            },
    {
        if !self.has_key {
            return Err(Error::KeyNotSet);
        }
        if buffer.len() < HEADER_LENGTH {
            return Err(Error::UnexpectedEOF);
        }
        self.xor_payload(buffer, 0);
        Ok(())
    }

    /// The text of the key, or `None` if no key is set.
    pub fn key(&self) -> (r: Option<&str>)
        ensures
            r is Some <==> self@ is Some,
            r is Some ==> r->0@ == self@->0 && is_key_hex(r->0@),
    {
        proof {
            use_type_invariant(self);
        }
        if !self.has_key {
            return None;
        }
        Some(self.key_hex.as_str())
    }

    /// Sets the key from its text: 32 hexadecimal digits, in either case.
    ///
    /// Any other text is refused with `InvalidKeyLength`, and the key that was
    /// held stays.
    pub fn set_key_from_str(&mut self, key: &str) -> (r: Result<(), Error>)
        ensures
            r is Ok <==> is_key_hex(key@),
            r is Err ==> r->Err_0 == Error::InvalidKeyLength,
            final(self)@ == key_after_set(old(self)@, key@),
    {
        if self.set_key_from_hex(key.to_owned()) {
            Ok(())
        } else {
            Err(Error::InvalidKeyLength)
        }
    }

    /// Sets the key to the one that encrypted `file_content`, an asset of kind
    /// `file_type`, and returns its text.
    ///
    /// `InvalidHeader` where the marker is missing; `UnexpectedEOF` where the
    /// data ends before the encrypted header, or before what the reference
    /// header of an Ogg or M4A asset is built from. On an error the key that
    /// was held stays.
    pub fn set_key_from_file<'a>(&'a mut self, file_content: &[u8], file_type: FileType) -> (r:
        Result<&'a str, Error>)
        ensures
            match derived_key(file_content@, file_type) {
                Ok(raw) => r is Ok && r->Ok_0@ == hex_encode(raw) && final(self)@ == Some(
                    hex_encode(raw),
                ),
                Err(e) => r is Err && r->Err_0 == e && final(self)@ == old(self)@,
            },
    {
        let key = match derive_key(file_content, file_type) {
            Ok(key) => key,
            Err(e) => {
                return Err(e);
            },
        };
        proof {
            lemma_encode_is_hex(key@);
        }
        self.set_key_from_hex(encode_key(&key));
        Ok(self.key_hex.as_str())
    }

    /// Decrypts an asset into a new buffer. Where no key is held, the key is
    /// first derived from the asset itself, and held from then on.
    ///
    /// `InvalidHeader` where the marker is missing; `UnexpectedEOF` where the
    /// sixteen bytes behind the marker are not all there, whether a key is
    /// held or not; without a key, the errors of `set_key_from_file`. On an
    /// error nothing changes.
    pub fn decrypt(&mut self, file_content: &[u8], file_type: FileType) -> (r: Result<
        Vec<u8>,
        Error,
    >)
        ensures
            match decrypted(old(self)@, file_content@, file_type) {
                Ok((key, plain)) => r is Ok && r->Ok_0@ == plain && final(self)@ == Some(key),
                Err(e) => r is Err && r->Err_0 == e && final(self)@ == old(self)@,
            },
    {
        if !starts_with_marker(file_content) {
            return Err(Error::InvalidHeader);
        }
        if file_content.len() < 2 * HEADER_LENGTH {
            return Err(Error::UnexpectedEOF);
        }
        if !self.has_key {
            match self.set_key_from_file(file_content, file_type) {
                Ok(_) => {},
                Err(e) => {
                    return Err(e);
                },
            }
        }
        let mut result = slice_to_vec(&file_content[HEADER_LENGTH..file_content.len()]);
        self.xor_payload(result.as_mut_slice(), 0);
        Ok(result)
    }

    /// Decrypts an asset where it lies, and returns the plain asset: the part
    /// of the buffer behind the marker. The marker itself stays in the buffer.
    ///
    /// Keys and errors are those of `decrypt`.
    pub fn decrypt_in_place<'a>(
        &'a mut self,
        file_content: &'a mut [u8],
        file_type: FileType,
    ) -> (r: Result<&'a [u8], Error>)
        ensures
            match decrypted(old(self)@, old(file_content)@, file_type) {
                Ok((key, plain)) => {
                    &&& r is Ok
                    &&& r->Ok_0@ == plain
                    &&& final(file_content)@ == with_marker(plain)
                    &&& final(self)@ == Some(key)
                },
                Err(e) => {
                    &&& r is Err
                    &&& r->Err_0 == e
                    &&& final(file_content)@ == old(file_content)@
                    &&& final(self)@ == old(self)@
                },
            },
    {
        if !starts_with_marker(file_content) {
            return Err(Error::InvalidHeader);
        }
        if file_content.len() < 2 * HEADER_LENGTH {
            return Err(Error::UnexpectedEOF);
        }
        if !self.has_key {
            match self.set_key_from_file(file_content, file_type) {
                Ok(_) => {},
                Err(e) => {
                    return Err(e);
                },
            }
        }
        let end = file_content.len();
        self.xor_payload(file_content, HEADER_LENGTH);
        Ok(&file_content[HEADER_LENGTH..end])
    }

    /// Encrypts an asset into a new buffer, which begins with the marker.
    ///
    /// `KeyNotSet` where no key is held: there is nothing to derive one from.
    pub fn encrypt(&self, file_content: &[u8]) -> (r: Result<Vec<u8>, Error>)
        ensures
            match encrypted(self@, file_content@) {
                Ok(file) => r is Ok && r->Ok_0@ == file,
                Err(e) => r is Err && r->Err_0 == e,
            },
    {
        if !self.has_key {
            return Err(Error::KeyNotSet);
        }
        let mut data = slice_to_vec(file_content);
        self.xor_payload(data.as_mut_slice(), 0);
        let mut output_data: Vec<u8> = Vec::new();
        output_data.extend_from_slice(&RPGM_HEADER);
        output_data.extend_from_slice(data.as_slice());
        Ok(output_data)
    }

    /// Encrypts an asset where it lies. No marker is put in front of it: that
    /// is left to the caller, who may write `RPGM_HEADER` wherever the
    /// encrypted asset goes.
    ///
    /// `KeyNotSet` where no key is held; the buffer is then left as it was.
    pub fn encrypt_in_place(&self, file_content: &mut [u8]) -> (r: Result<(), Error>)
        ensures
            match encrypted_in_place(self@, old(file_content)@) {
                Ok(payload) => r is Ok && final(file_content)@ == payload,
                Err(e) => {
                    &&& r is Err
                    &&& r->Err_0 == e
                    &&& final(file_content)@ == old(file_content)@
                },
            },
    {
        if !self.has_key {
            return Err(Error::KeyNotSet);
        }
        self.xor_payload(file_content, 0);
        Ok(())
    }
}

impl Default for Decrypter {
    fn default() -> (d: Self)
        ensures
            d@ is None,
    {
        Decrypter::new()
    }
}

/// Decrypts an asset into a new buffer, with the key that the asset itself gives.
///
/// `InvalidHeader` where the marker is missing; `UnexpectedEOF` where the data
/// ends before the encrypted header, or before what the reference header of
/// an Ogg or M4A asset is built from.
pub fn decrypt(file_content: &[u8], file_type: FileType) -> (r: Result<Vec<u8>, Error>)
    ensures
        match decrypted(None, file_content@, file_type) {
            Ok((_, plain)) => r is Ok && r->Ok_0@ == plain,
            Err(e) => r is Err && r->Err_0 == e,
        },
{
    let mut decrypter = Decrypter::new();
    decrypter.decrypt(file_content, file_type)
}

/// Decrypts an asset where it lies, with the key that the asset itself gives.
/// The plain asset begins behind the marker, which stays in the buffer.
///
/// The errors are those of `decrypt`; a buffer that is refused is left as it was.
pub fn decrypt_in_place(file_content: &mut [u8], file_type: FileType) -> (r: Result<(), Error>)
    ensures
        match decrypted(None, old(file_content)@, file_type) {
            Ok((_, plain)) => r is Ok && final(file_content)@ == with_marker(plain),
            Err(e) => r is Err && r->Err_0 == e && final(file_content)@ == old(file_content)@,
        },
{
    let mut decrypter = Decrypter::new();
    match decrypter.decrypt_in_place(file_content, file_type) {
        Ok(_) => Ok(()),
        Err(e) => Err(e),
    }
}

/// Encrypts an asset into a new buffer, which begins with the marker, with
/// the key whose text is `key`.
///
/// `InvalidKeyLength` where `key` is not the text of a key.
pub fn encrypt(file_content: &[u8], key: &str) -> (r: Result<Vec<u8>, Error>)
    ensures
        is_key_hex(key@) ==> r is Ok && r->Ok_0@ == with_marker(
            xor_header(hex_decode(key@), file_content@),
        ),
        !is_key_hex(key@) ==> r is Err && r->Err_0 == Error::InvalidKeyLength,
{
    let mut decrypter = Decrypter::new();
    match decrypter.set_key_from_str(key) {
        Ok(()) => {},
        Err(e) => {
            return Err(e);
        },
    }
    decrypter.encrypt(file_content)
}

/// Encrypts an asset where it lies, with the key whose text is `key`, and
/// puts no marker in front of it.
///
/// `InvalidKeyLength` where `key` is not the text of a key; the buffer is
/// then left as it was.
pub fn encrypt_in_place(file_content: &mut [u8], key: &str) -> (r: Result<(), Error>)
    ensures
        is_key_hex(key@) ==> r is Ok && final(file_content)@ == xor_header(
            hex_decode(key@),
            old(file_content)@,
        ),
        !is_key_hex(key@) ==> {
            &&& r is Err
            &&& r->Err_0 == Error::InvalidKeyLength
            &&& final(file_content)@ == old(file_content)@
        },
{
    let mut decrypter = Decrypter::new();
    match decrypter.set_key_from_str(key) {
        Ok(()) => {},
        Err(e) => {
            return Err(e);
        },
    }
    decrypter.encrypt_in_place(file_content)
}

/// A key that was set from its text is the key that is held, whatever was
/// held before: reading it back gives the same text.
pub proof fn lemma_set_key_then_read(before: Option<Seq<char>>, text: Seq<char>)
    requires
        is_key_hex(text),
    ensures
        key_after_set(before, text) == Some(text),
{
}

/// A key that is held is never lost: offering a text keeps a key held, and
/// decryption, where it succeeds, works with the key that is held and keeps
/// it, as it does on every asset with the marker and a whole header.
pub proof fn lemma_key_stays(key: Seq<char>, text: Seq<char>, file: Seq<u8>, file_type: FileType)
    ensures
        key_after_set(Some(key), text) is Some,
        decrypted(Some(key), file, file_type) is Ok ==> decrypted(
            Some(key),
            file,
            file_type,
        )->Ok_0.0 == key,
        has_marker(file) && file.len() >= 2 * HEADER_LENGTH ==> decrypted(
            Some(key),
            file,
            file_type,
        ) is Ok,
{
}

/// Whatever decryption succeeds on it gives back under encryption: an asset
/// that was decrypted, then encrypted with the key held after that, is the
/// asset that was given, byte for byte.
pub proof fn lemma_decrypt_then_encrypt(
    held: Option<Seq<char>>,
    file: Seq<u8>,
    file_type: FileType,
)
    requires
        decrypted(held, file, file_type) is Ok,
    ensures
        ({
            let (key, plain) = decrypted(held, file, file_type)->Ok_0;
            encrypted(Some(key), plain) == Ok::<Seq<u8>, Error>(file)
        }),
{
    let (key, plain) = decrypted(held, file, file_type)->Ok_0;
    lemma_xor_header_twice(hex_decode(key), payload_of(file));
    lemma_marker_then_payload(file);
}

/// Encryption is undone by decryption with the same key, for every plain
/// asset that has a whole header.
pub proof fn lemma_encrypt_then_decrypt(key: Seq<char>, plain: Seq<u8>, file_type: FileType)
    requires
        plain.len() >= HEADER_LENGTH,
    ensures
        decrypted(Some(key), encrypted(Some(key), plain)->Ok_0, file_type) == Ok::<
            (Seq<char>, Seq<u8>),
            Error,
        >((key, plain)),
{
    let payload = xor_header(hex_decode(key), plain);
    lemma_with_marker(payload);
    lemma_xor_header_twice(hex_decode(key), plain);
}

/// The transform alone is its own inverse: where it was done once, doing it
/// again with the same key gives back the buffer as it was.
pub proof fn lemma_xor_buffer_twice(held: Option<Seq<char>>, data: Seq<u8>)
    requires
        xored(held, data) is Ok,
    ensures
        xored(held, xored(held, data)->Ok_0) == Ok::<Seq<u8>, Error>(data),
{
    lemma_xor_header_twice(hex_decode(held->0), data);
}

/// Decryption succeeds on every asset that has the marker and a whole header
/// behind it, once a key is held; and without a key on every such asset from
/// which a reference header can be built, as it can from every image.
pub proof fn lemma_decrypt_succeeds(held: Option<Seq<char>>, file: Seq<u8>, file_type: FileType)
    requires
        has_marker(file),
        file.len() >= 2 * HEADER_LENGTH,
        held is Some || file_type == FileType::PNG || reference_header(file, file_type) is Some,
    ensures
        decrypted(held, file, file_type) is Ok,
{
}

/// Decryption never gives less than a header: where it succeeds, the asset
/// had the marker and at least sixteen bytes behind it, and the plain asset is
/// as long as what stood behind the marker.
pub proof fn lemma_decrypted_is_whole(held: Option<Seq<char>>, file: Seq<u8>, file_type: FileType)
    requires
        decrypted(held, file, file_type) is Ok,
    ensures
        has_marker(file),
        file.len() >= 2 * HEADER_LENGTH,
        decrypted(held, file, file_type)->Ok_0.1.len() == file.len() - HEADER_LENGTH,
{
}

/// An asset that was decrypted with the key derived from itself begins with
/// its reference header: a PNG with the signature of a PNG, an Ogg stream with
/// `OggS`, an M4A file with the size of its first box and `ftypM4A `.
pub proof fn lemma_decrypted_begins_with_reference(file: Seq<u8>, file_type: FileType)
    requires
        decrypted(None, file, file_type) is Ok,
    ensures
        decrypted(None, file, file_type)->Ok_0.1.len() >= HEADER_LENGTH,
        decrypted(None, file, file_type)->Ok_0.1.take(HEADER_LENGTH as int) == reference_header(
            file,
            file_type,
        )->0,
{
    let raw = derived_key(file, file_type)->Ok_0;
    let reference = reference_header(file, file_type)->0;
    let plain = decrypted(None, file, file_type)->Ok_0.1;
    lemma_decode_encode(raw);
    lemma_reference_header_len(file, file_type);
    lemma_derived_key_opens_header(file, file_type);
    assert forall|i: int| 0 <= i < HEADER_LENGTH implies plain[i] == reference[i] by {
        assert(xor_header(raw, encrypted_header(file))[i] == reference[i]);
    }
}

/// Encryption in place, with the marker put in front afterwards, is
/// encryption into a new buffer.
pub proof fn lemma_encrypt_in_place_then_marker(held: Option<Seq<char>>, plain: Seq<u8>)
    requires
        held is Some,
    ensures
        with_marker(encrypted_in_place(held, plain)->Ok_0) == encrypted(held, plain)->Ok_0,
{
}

} // verus!
