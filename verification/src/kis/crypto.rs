//! Notices of fills come encrypted.

use aes::cipher::block_padding::Pkcs7;
use aes::cipher::{BlockDecryptMut, KeyIvInit};
use base64::Engine;
use vstd::prelude::*;
use vstd::utf8::{decode_utf8, encode_utf8, valid_utf8};

use crate::error::{is_parse, AppError, AppResult};
use crate::text::{joined, occurs_at, trim, trimmed};

verus! {

/// The bytes that standard base64 with padding reads from a text, or the message of its error.
pub uninterp spec fn base64_bytes(text: Seq<char>) -> Result<Seq<u8>, Seq<char>>;

/// `base64::engine::general_purpose::STANDARD.decode`.
///
/// Claimed: whether there are bytes, and which, depends on the text alone, and so does the message
/// of an error, which is the decoder's own.
#[verifier::external_body]
fn decode_base64(text: &str) -> (bytes: Result<Vec<u8>, String>)
    ensures
        base64_bytes(text@) == (match bytes {
            Ok(b) => Ok::<Seq<u8>, Seq<char>>(b@),
            Err(message) => Err(message@),
        }),
{
    base64::engine::general_purpose::STANDARD.decode(text).map_err(|e| e.to_string())
}

/// What keeps data from being decrypted, in the cipher's own words.
#[derive(Debug)]
pub enum CipherFault {
    /// The key or the initial block has the wrong length.
    Length(String),
    /// The data are not whole blocks, or do not end in padding.
    Padding(String),
}

/// What AES with 256 bits, chained by blocks, decrypts data to, without the padding of PKCS 7, where
/// the data are whole blocks that end in such padding.
pub uninterp spec fn cbc_plain(key: Seq<u8>, iv: Seq<u8>, data: Seq<u8>) -> Option<Seq<u8>>;

/// `cbc::Decryptor<aes::Aes256>`: `new_from_slices`, then `decrypt_padded_vec_mut` with `Pkcs7`.
///
/// Claimed: the key has 32 bytes and the initial block 16, or there is an error of length. What the
/// data decrypt to, and whether they do, depends on the key, the initial block and the data alone.
/// The words of each error are always the same.
#[verifier::external_body]
fn decrypt_cbc(key: &[u8], iv: &[u8], data: &Vec<u8>) -> (plain: Result<Vec<u8>, CipherFault>)
    ensures
        match plain {
            Ok(p) => key@.len() == 32 && iv@.len() == 16 && cbc_plain(key@, iv@, data@) == Some(p@),
            Err(CipherFault::Length(told)) => (key@.len() != 32 || iv@.len() != 16) && told@
                == "Invalid Length"@,
            Err(CipherFault::Padding(told)) => key@.len() == 32 && iv@.len() == 16 && cbc_plain(
                key@,
                iv@,
                data@,
            ) is None && told@ == "Unpad Error"@,
        },
{
    cbc::Decryptor::<aes::Aes256>::new_from_slices(key, iv)
        .map_err(|e| CipherFault::Length(e.to_string()))?
        .decrypt_padded_vec_mut::<Pkcs7>(data)
        .map_err(|e| CipherFault::Padding(e.to_string()))
}

/// `String::from_utf8`.
///
/// Claimed: bytes that are UTF-8 give the text that they encode, and others an error.
#[verifier::external_body]
fn text_of_utf8(bytes: Vec<u8>) -> (text: Result<String, String>)
    ensures
        match text {
            Ok(t) => valid_utf8(bytes@) && t@ == decode_utf8(bytes@),
            Err(_) => !valid_utf8(bytes@),
        },
{
    String::from_utf8(bytes).map_err(|e| e.to_string())
}

/// The bytes that a notice decrypts to, or the message that says why not.
pub open spec fn plain_bytes(key: Seq<char>, iv: Seq<char>, text: Seq<char>) -> Result<
    Seq<u8>,
    Seq<char>,
> {
    match base64_bytes(trimmed(text)) {
        Err(told) => Err("base64 디코드 실패: "@ + told),
        Ok(data) => {
            let k = encode_utf8(key);
            let v = encode_utf8(iv);
            if k.len() != 32 || v.len() != 16 {
                Err("AES key/iv 길이 오류: "@ + "Invalid Length"@)
            } else {
                match cbc_plain(k, v, data) {
                    None => Err("AES 복호 실패: "@ + "Unpad Error"@),
                    Some(bytes) => Ok(bytes),
                }
            }
        },
    }
}

/// What a notice decrypts to, if it does to a text.
pub open spec fn decrypted(key: Seq<char>, iv: Seq<char>, text: Seq<char>) -> Option<Seq<char>> {
    match plain_bytes(key, iv, text) {
        Ok(bytes) => if valid_utf8(bytes) {
            Some(decode_utf8(bytes))
        } else {
            None
        },
        Err(_) => None,
    }
}

proof fn lemma_begins(start: Seq<char>)
    ensures
        forall|told: Seq<char>| #[trigger] occurs_at(start + told, start, 0),
{
    assert forall|told: Seq<char>| #[trigger] occurs_at(start + told, start, 0) by {
        assert((start + told).subrange(0, start.len() as int) =~= start);
    }
}

fn fault(start: &str, told: &str) -> (error: AppError)
    ensures
        is_parse(error, start@ + told@),
        error matches AppError::Parse(message) && occurs_at(message@, start@, 0),
{
    proof {
        lemma_begins(start@);
    }
    let message = joined(start, told);
    assert(message@ == start@ + told@);
    AppError::Parse(message)
}

/// Decrypts a notice: base64, AES with 256 bits chained by blocks, padding of PKCS 7, UTF-8. The
/// bytes of the two texts that came with the subscription are the key and the initial block. Of bytes
/// that are no text, the message goes on in the words of the standard library.
pub fn aes_cbc_decrypt(key: &str, iv: &str, b64: &str) -> (plain: AppResult<String>)
    ensures
        match plain_bytes(key@, iv@, b64@) {
            Ok(bytes) => if valid_utf8(bytes) {
                plain matches Ok(p) && p@ == decode_utf8(bytes)
            } else {
                plain matches Err(AppError::Parse(message)) && occurs_at(
                    message@,
                    "UTF-8 변환 실패: "@,
                    0,
                )
            },
            Err(message) => plain matches Err(error) && is_parse(error, message),
        },
        match decrypted(key@, iv@, b64@) {
            Some(text) => plain matches Ok(p) && p@ == text,
            None => plain is Err,
        },
{
    let data = match decode_base64(trim(b64).as_str()) {
        Ok(data) => data,
        Err(e) => return Err(fault("base64 디코드 실패: ", e.as_str())),
    };
    settle_plain(decrypt_cbc(key.as_bytes(), iv.as_bytes(), &data))
}

/// What a cipher's answer comes to: the text that the bytes are, or why there is none.
pub fn settle_plain(answer: Result<Vec<u8>, CipherFault>) -> (plain: AppResult<String>)
    ensures
        match answer {
            Ok(bytes) => if valid_utf8(bytes@) {
                plain matches Ok(p) && p@ == decode_utf8(bytes@)
            } else {
                plain matches Err(AppError::Parse(message)) && occurs_at(
                    message@,
                    "UTF-8 변환 실패: "@,
                    0,
                )
            },
            Err(CipherFault::Length(told)) => plain matches Err(error) && is_parse(
                error,
                "AES key/iv 길이 오류: "@ + told@,
            ),
            Err(CipherFault::Padding(told)) => plain matches Err(error) && is_parse(
                error,
                "AES 복호 실패: "@ + told@,
            ),
        },
{
    match answer {
        Ok(bytes) => match text_of_utf8(bytes) {
            Ok(text) => Ok(text),
            Err(told) => Err(fault("UTF-8 변환 실패: ", told.as_str())),
        },
        Err(CipherFault::Length(told)) => Err(fault("AES key/iv 길이 오류: ", told.as_str())),
        Err(CipherFault::Padding(told)) => Err(fault("AES 복호 실패: ", told.as_str())),
    }
}

/// A notice decrypts only with a key of 32 bytes and an initial block of 16, out of text that is
/// base64, white space around it aside.
pub proof fn notices_need_their_key(key: Seq<char>, iv: Seq<char>, text: Seq<char>)
    ensures
        decrypted(key, iv, text) is Some ==> encode_utf8(key).len() == 32 && encode_utf8(iv).len()
            == 16 && base64_bytes(trimmed(text)) is Ok,
        decrypted(key, iv, text) is Some ==> (cbc_plain(
            encode_utf8(key),
            encode_utf8(iv),
            base64_bytes(trimmed(text))->Ok_0,
        ) matches Some(bytes) && valid_utf8(bytes) && decrypted(key, iv, text) == Some(
            decode_utf8(bytes),
        )),
{
}

} // verus!
