//! The confidentiality layer: AES-256 in CBC mode with PKCS#7 padding, with
//! ciphertexts carried as base64 text.

use aes::Aes256;
use block_modes::block_padding::Pkcs7;
use block_modes::{BlockMode, Cbc};
use crate::random::random_bytes;
use vstd::prelude::*;
use vstd::utf8::{
    decode_utf8, encode_utf8, encode_utf8_decode_utf8, encode_utf8_valid_utf8, valid_utf8,
};

verus! {

/// The length of a key, in bytes.
pub const KEY_LEN: usize = 32;

/// The length of an initialisation vector, in bytes.
pub const IV_LEN: usize = 16;

/// Why a confidentiality layer could not be set up.
#[derive(Clone, Copy, Debug, PartialEq, Eq, Structural)]
pub enum ConfigError {
    /// A key that is not 32 bytes long, or an initialisation vector that is not 16.
    InvalidKeyMaterial,
}

/// Why a ciphertext could not be turned back into its plaintext.
#[derive(Clone, Copy, Debug, PartialEq, Eq, Structural)]
pub enum CryptoError {
    /// The text is not base64.
    DecodeError,
    /// The bytes are no ciphertext under this key: their length is no multiple
    /// of the block size, or the padding that comes out is malformed.
    DecryptionFailed,
    /// The plaintext is not UTF-8 where text was asked for.
    EncodingError,
}

/// The error of `decrypt_vec`. It carries nothing that is looked at here.
#[verifier::external_type_specification]
#[verifier::external_body]
pub struct ExBlockModeError(block_modes::BlockModeError);

/// The error of `base64::decode`. It carries nothing that is looked at here.
#[verifier::external_type_specification]
#[verifier::external_body]
pub struct ExDecodeError(base64::DecodeError);

/// The error of `String::from_utf8`. It carries nothing that is looked at here.
#[verifier::external_type_specification]
#[verifier::external_body]
pub struct ExFromUtf8Error(std::string::FromUtf8Error);

/// What `encrypt_vec` of `Cbc<Aes256, Pkcs7>` returns for a plaintext, under a
/// key of 32 bytes and an initialisation vector of 16.
pub uninterp spec fn aes256_cbc_encrypt(key: Seq<u8>, iv: Seq<u8>, plaintext: Seq<u8>) -> Seq<u8>;

/// What `decrypt_vec` of `Cbc<Aes256, Pkcs7>` returns for a ciphertext, `None`
/// standing for its error.
pub uninterp spec fn aes256_cbc_decrypt(key: Seq<u8>, iv: Seq<u8>, ciphertext: Seq<u8>) -> Option<
    Seq<u8>,
>;

/// What `base64::encode` returns for some bytes.
pub uninterp spec fn base64_encode(bytes: Seq<u8>) -> Seq<char>;

/// What `base64::decode` returns for a text, `None` standing for its error.
pub uninterp spec fn base64_decode(text: Seq<char>) -> Option<Seq<u8>>;

/// Calls `Cbc::<Aes256, Pkcs7>::new_var` and then `encrypt_vec`. With a key of
/// 32 bytes and an initialisation vector of 16, `new_var` returns a cipher.
/// `encrypt_vec` pads the plaintext to the next full block, so the ciphertext
/// is between 1 and 16 bytes longer, and `decrypt_vec` under the same key
/// material gives the plaintext back. As with any allocation, a buffer that
/// does not fit in memory is outside this contract.
#[verifier::external_body]
fn cbc_encrypt(key: &Vec<u8>, iv: &Vec<u8>, plaintext: &[u8]) -> (ciphertext: Vec<u8>)
    requires
        key@.len() == KEY_LEN,
        iv@.len() == IV_LEN,
    ensures
        ciphertext@ == aes256_cbc_encrypt(key@, iv@, plaintext@),
        ciphertext@.len() == (plaintext@.len() / 16 + 1) * 16,
        aes256_cbc_decrypt(key@, iv@, ciphertext@) == Some(plaintext@),
{
    Cbc::<Aes256, Pkcs7>::new_var(key, iv).unwrap().encrypt_vec(plaintext)
}

/// Calls `Cbc::<Aes256, Pkcs7>::new_var` and then `decrypt_vec`, which fails
/// where the length is no multiple of 16 or the padding is malformed.
#[verifier::external_body]
fn cbc_decrypt(key: &Vec<u8>, iv: &Vec<u8>, ciphertext: &Vec<u8>) -> (plaintext: Result<
    Vec<u8>,
    block_modes::BlockModeError,
>)
    requires
        key@.len() == KEY_LEN,
        iv@.len() == IV_LEN,
    ensures
        match plaintext {
            Ok(bytes) => aes256_cbc_decrypt(key@, iv@, ciphertext@) == Some(bytes@),
            Err(_) => aes256_cbc_decrypt(key@, iv@, ciphertext@) is None,
        },
        ciphertext@.len() % 16 != 0 ==> plaintext is Err,
{
    Cbc::<Aes256, Pkcs7>::new_var(key, iv).unwrap().decrypt_vec(ciphertext)
}

/// Calls `base64::encode`, the standard alphabet with padding: four
/// characters for every three bytes, the last group filled up. Decoding its
/// result gives the bytes back. It panics only where the encoded size does not
/// fit in `usize`, which no slice is long enough to cause.
#[verifier::external_body]
fn base64_encode_bytes(bytes: &Vec<u8>) -> (text: String)
    ensures
        text@ == base64_encode(bytes@),
        text@.len() == (bytes@.len() + 2) / 3 * 4,
        base64_decode(text@) == Some(bytes@),
{
    base64::encode(bytes)
}

/// Calls `base64::decode`, which fails on text that is not base64 in the
/// standard alphabet.
#[verifier::external_body]
fn base64_decode_text(text: &str) -> (bytes: Result<Vec<u8>, base64::DecodeError>)
    ensures
        match bytes {
            Ok(decoded) => base64_decode(text@) == Some(decoded@),
            Err(_) => base64_decode(text@) is None,
        },
{
    base64::decode(text)
}

/// Calls `String::from_utf8`, which turns bytes into the text they encode and
/// fails exactly where they are not valid UTF-8.
#[verifier::external_body]
fn string_from_utf8(bytes: Vec<u8>) -> (text: Result<String, std::string::FromUtf8Error>)
    ensures
        match text {
            Ok(decoded) => valid_utf8(bytes@) && decoded@ == decode_utf8(bytes@),
            Err(_) => !valid_utf8(bytes@),
        },
{
    String::from_utf8(bytes)
}

/// Whether the key material handed to `Privacy::new` is acceptable: a key, where
/// one is given, is 32 bytes long, and an initialisation vector 16.
pub open spec fn valid_key_material(key: Option<Vec<u8>>, iv: Option<Vec<u8>>) -> bool {
    &&& key matches Some(k) ==> k@.len() == KEY_LEN
    &&& iv matches Some(i) ==> i@.len() == IV_LEN
}

/// The text that stands for `plaintext` under `key` and `iv`.
pub open spec fn encrypted(key: Seq<u8>, iv: Seq<u8>, plaintext: Seq<u8>) -> Seq<char> {
    base64_encode(aes256_cbc_encrypt(key, iv, plaintext))
}

/// The bytes that `text` stands for under `key` and `iv`, or why it stands for none.
pub open spec fn decrypted(key: Seq<u8>, iv: Seq<u8>, text: Seq<char>) -> Result<
    Seq<u8>,
    CryptoError,
> {
    match base64_decode(text) {
        None => Err(CryptoError::DecodeError),
        Some(ciphertext) => match aes256_cbc_decrypt(key, iv, ciphertext) {
            None => Err(CryptoError::DecryptionFailed),
            Some(plaintext) => Ok(plaintext),
        },
    }
}

/// The text that some bytes encode, if they are UTF-8.
pub open spec fn text_of(bytes: Seq<u8>) -> Result<Seq<char>, CryptoError> {
    if valid_utf8(bytes) {
        Ok(decode_utf8(bytes))
    } else {
        Err(CryptoError::EncodingError)
    }
}

/// The text that `text` stands for under `key` and `iv`, or why it stands for none.
pub open spec fn decrypted_text(key: Seq<u8>, iv: Seq<u8>, text: Seq<char>) -> Result<
    Seq<char>,
    CryptoError,
> {
    match decrypted(key, iv, text) {
        Err(e) => Err(e),
        Ok(plaintext) => text_of(plaintext),
    }
}

/// Turns decrypted bytes into text: `EncodingError` exactly where they are not UTF-8.
pub fn text_from_bytes(bytes: Vec<u8>) -> (text: Result<String, CryptoError>)
    ensures
        match text {
            Ok(t) => text_of(bytes@) == Ok::<Seq<char>, CryptoError>(t@),
            Err(e) => text_of(bytes@) == Err::<Seq<char>, CryptoError>(e),
        },
{
    match string_from_utf8(bytes) {
        Ok(t) => Ok(t),
        Err(_) => Err(CryptoError::EncodingError),
    }
}

/// The length of the ciphertext of a plaintext of `len` bytes: the padding
/// fills the last block, and adds a whole block where the last one is full.
pub open spec fn padded_len(len: nat) -> nat {
    ((len / 16 + 1) * 16) as nat
}

/// The length of the base64 text of `len` bytes.
pub open spec fn base64_len(len: nat) -> nat {
    ((len + 2) / 3 * 4) as nat
}

/// Whether `text` is what encrypting `plaintext` under `key` and `iv` gives:
/// the text itself, that it decrypts to `plaintext` again, and how long the
/// ciphertext and the text are.
pub open spec fn is_encryption_of(
    key: Seq<u8>,
    iv: Seq<u8>,
    plaintext: Seq<u8>,
    text: Seq<char>,
) -> bool {
    &&& text == encrypted(key, iv, plaintext)
    &&& decrypted(key, iv, text) == Ok::<Seq<u8>, CryptoError>(plaintext)
    &&& base64_decode(text) matches Some(ciphertext) && ciphertext.len() == padded_len(
        plaintext.len(),
    )
    &&& text.len() == base64_len(padded_len(plaintext.len()))
}

/// Whether decrypting `text` is bound to fail before the cipher is even run:
/// with `DecodeError` where it is not base64, with `DecryptionFailed` where
/// the bytes it stands for do not fill whole blocks of 16 bytes.
pub open spec fn early_failure(text: Seq<char>) -> Option<CryptoError> {
    match base64_decode(text) {
        None => Some(CryptoError::DecodeError),
        Some(ciphertext) => if ciphertext.len() % 16 != 0 {
            Some(CryptoError::DecryptionFailed)
        } else {
            None
        },
    }
}

/// A key and an initialisation vector, fixed for the life of the value.
pub struct Privacy {
    key: Vec<u8>,
    iv: Vec<u8>,
}

impl Privacy {
    /// The key.
    pub closed spec fn key(&self) -> Seq<u8> {
        self.key@
    }

    /// The initialisation vector.
    pub closed spec fn iv(&self) -> Seq<u8> {
        self.iv@
    }

    #[verifier::type_invariant]
    spec fn well_formed(&self) -> bool {
        self.key@.len() == KEY_LEN && self.iv@.len() == IV_LEN
    }

    /// Sets up the layer with the key material given; what is not given is
    /// drawn at random. Key material of the wrong length is refused.
    pub fn new(key: Option<Vec<u8>>, iv: Option<Vec<u8>>) -> (r: Result<Privacy, ConfigError>)
        ensures
            r is Ok <==> valid_key_material(key, iv),
            r matches Err(e) ==> e == ConfigError::InvalidKeyMaterial,
            r matches Ok(p) ==> {
                &&& p.key().len() == KEY_LEN
                &&& p.iv().len() == IV_LEN
                &&& key matches Some(k) ==> p.key() == k@
                &&& iv matches Some(i) ==> p.iv() == i@
            },
    {
        let final_key = match key {
            Some(k) => {
                if k.len() != KEY_LEN {
                    return Err(ConfigError::InvalidKeyMaterial);
                }
                k
            },
            None => random_bytes(KEY_LEN),
        };
        let final_iv = match iv {
            Some(i) => {
                if i.len() != IV_LEN {
                    return Err(ConfigError::InvalidKeyMaterial);
                }
                i
            },
            None => random_bytes(IV_LEN),
        };
        Ok(Privacy { key: final_key, iv: final_iv })
    }

    /// Sets up the layer with a key and an initialisation vector drawn at random.
    pub fn generate() -> (p: Privacy)
        ensures
            p.key().len() == KEY_LEN,
            p.iv().len() == IV_LEN,
    {
        Privacy { key: random_bytes(KEY_LEN), iv: random_bytes(IV_LEN) }
    }

    /// The ciphertext of `plaintext`, as base64 text.
    fn seal(&self, plaintext: &[u8]) -> (text: String)
        ensures
            is_encryption_of(self.key(), self.iv(), plaintext@, text@),
    {
        proof {
            use_type_invariant(self);
        }
        let ciphertext = cbc_encrypt(&self.key, &self.iv, plaintext);
        base64_encode_bytes(&ciphertext)
    }

    /// Encrypts `plaintext` and returns the ciphertext as base64 text. It
    /// always succeeds, and `decrypt` turns the text back into `plaintext`.
    /// The ciphertext is the plaintext padded to whole blocks of 16 bytes.
    pub fn encrypt(&self, plaintext: &[u8]) -> (r: Result<String, CryptoError>)
        ensures
            r matches Ok(text) && is_encryption_of(self.key(), self.iv(), plaintext@, text@),
    {
        Ok(self.seal(plaintext))
    }

    /// Turns base64 text back into the bytes that were encrypted: `DecodeError`
    /// where the text is not base64, `DecryptionFailed` where the bytes it
    /// stands for are no ciphertext under this key material, as when they do
    /// not fill whole blocks of 16 bytes.
    pub fn decrypt(&self, text: &str) -> (r: Result<Vec<u8>, CryptoError>)
        ensures
            match r {
                Ok(plaintext) => decrypted(self.key(), self.iv(), text@) == Ok::<
                    Seq<u8>,
                    CryptoError,
                >(plaintext@),
                Err(e) => decrypted(self.key(), self.iv(), text@) == Err::<Seq<u8>, CryptoError>(e),
            },
            early_failure(text@) matches Some(e) ==> r == Err::<Vec<u8>, CryptoError>(e),
    {
        proof {
            use_type_invariant(self);
        }
        let ciphertext = match base64_decode_text(text) {
            Ok(bytes) => bytes,
            Err(_) => {
                return Err(CryptoError::DecodeError);
            },
        };
        match cbc_decrypt(&self.key, &self.iv, &ciphertext) {
            Ok(plaintext) => Ok(plaintext),
            Err(_) => Err(CryptoError::DecryptionFailed),
        }
    }

    /// The ciphertext of the UTF-8 bytes of `data`, as base64 text.
    /// `decrypt_data` turns it back into `data`.
    pub fn encrypt_text(&self, data: &str) -> (text: String)
        ensures
            is_encryption_of(self.key(), self.iv(), encode_utf8(data@), text@),
            decrypted_text(self.key(), self.iv(), text@) == Ok::<Seq<char>, CryptoError>(data@),
    {
        proof {
            encode_utf8_valid_utf8(data@);
            encode_utf8_decode_utf8(data@);
        }
        self.seal(data.as_bytes())
    }

    /// Encrypts the UTF-8 bytes of `data` and returns the ciphertext as base64
    /// text. It always succeeds, and `decrypt_data` turns the text back into `data`.
    pub fn encrypt_data(&self, data: &str) -> (r: Result<String, CryptoError>)
        ensures
            r matches Ok(text) && is_encryption_of(
                self.key(),
                self.iv(),
                encode_utf8(data@),
                text@,
            ),
            r matches Ok(text) && decrypted_text(self.key(), self.iv(), text@) == Ok::<
                Seq<char>,
                CryptoError,
            >(data@),
    {
        Ok(self.encrypt_text(data))
    }

    /// Turns base64 text back into the text that was encrypted: the errors of
    /// `decrypt`, and `EncodingError` where the plaintext is not UTF-8.
    pub fn decrypt_data(&self, data: &str) -> (r: Result<String, CryptoError>)
        ensures
            match r {
                Ok(text) => decrypted_text(self.key(), self.iv(), data@) == Ok::<
                    Seq<char>,
                    CryptoError,
                >(text@),
                Err(e) => decrypted_text(self.key(), self.iv(), data@) == Err::<
                    Seq<char>,
                    CryptoError,
                >(e),
            },
            early_failure(data@) matches Some(e) ==> r == Err::<String, CryptoError>(e),
    {
        match self.decrypt(data) {
            Ok(plaintext) => text_from_bytes(plaintext),
            Err(e) => Err(e),
        }
    }
}

} // verus!
