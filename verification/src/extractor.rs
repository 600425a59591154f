//! Turning the bytes of a supported file into an indexed document.
use vstd::prelude::*;
use vstd::utf8::{decode_utf8, valid_utf8};

use crate::discovery::{is_supported, is_supported_name};
use crate::error::Error;
use crate::text::push_char;

verus! {

/// Files larger than this (16 MiB) are not indexed.
pub const MAX_FILE_SIZE: u64 = 16 * 1024 * 1024;

/// The text and identity of an indexed file.
#[derive(Debug)]
pub struct ExtractedDocument {
    pub content: String,
    pub size: u64,
    pub modified_ns: i64,
    pub fingerprint: String,
}

/// The 32-byte BLAKE3 hash of `data`, as `blake3::hash` computes it.
pub uninterp spec fn blake3_digest(data: Seq<u8>) -> Seq<u8>;

/// `blake3::hash`; the digest is given the name `blake3_digest`. A BLAKE3 hash has
/// 32 bytes (`blake3::OUT_LEN`).
#[verifier::external_body]
fn blake3_hash(data: &[u8]) -> (r: Vec<u8>)
    ensures
        r@ == blake3_digest(data@),
        r@.len() == 32,
{
    blake3::hash(data).as_bytes().to_vec()
}

/// `String::from_utf8`: the text that `bytes` encode, when they are valid UTF-8.
#[verifier::external_body]
fn string_from_utf8(bytes: Vec<u8>) -> (r: Option<String>)
    ensures
        r is Some <==> valid_utf8(bytes@),
        r matches Some(s) ==> s@ == decode_utf8(bytes@),
{
    String::from_utf8(bytes).ok()
}

/// The lowercase hexadecimal digit for `n < 16`.
pub open spec fn hex_digit(n: int) -> char {
    if n < 10 {
        (48 + n) as char
    } else {
        (87 + n) as char
    }
}

/// Lowercase hexadecimal, two digits per byte, high half first, as
/// `blake3::Hash::to_hex` writes a hash.
pub open spec fn hex_lower(bytes: Seq<u8>) -> Seq<char>
    decreases bytes.len(),
{
    if bytes.len() == 0 {
        seq![]
    } else {
        hex_lower(bytes.drop_last()) + seq![
            hex_digit(bytes.last() as int / 16),
            hex_digit(bytes.last() as int % 16),
        ]
    }
}

/// The fingerprint recorded for a file's bytes: their BLAKE3 hash in lowercase hex.
pub open spec fn fingerprint_of(data: Seq<u8>) -> Seq<char> {
    hex_lower(blake3_digest(data))
}

fn hex_digit_exec(n: u8) -> (c: char)
    requires
        n < 16,
    ensures
        c == hex_digit(n as int),
{
    if n < 10 {
        (48 + n) as char
    } else {
        (87 + n) as char
    }
}

/// Lowercase hexadecimal of `bytes` (see `hex_lower`).
pub fn to_hex(bytes: &Vec<u8>) -> (r: String)
    ensures
        r@ == hex_lower(bytes@),
{
    let mut s = String::new();
    let mut i: usize = 0;
    while i < bytes.len()
        invariant
            i <= bytes.len(),
            s@ == hex_lower(bytes@.take(i as int)),
        decreases bytes.len() - i,
    {
        let b = bytes[i];
        push_char(&mut s, hex_digit_exec(b / 16));
        push_char(&mut s, hex_digit_exec(b % 16));
        proof {
            assert(bytes@.take(i + 1).drop_last() =~= bytes@.take(i as int));
        }
        i += 1;
        assert(s@ =~= hex_lower(bytes@.take(i as int)));
    }
    assert(bytes@.take(bytes@.len() as int) =~= bytes@);
    s
}

/// The BLAKE3 fingerprint of `data` in lowercase hex.
pub fn fingerprint(data: &[u8]) -> (r: String)
    ensures
        r@ == fingerprint_of(data@),
        r@.len() == 64,
{
    let digest = blake3_hash(data);
    let r = to_hex(&digest);
    proof {
        lemma_hex_len(digest@);
    }
    r
}

proof fn lemma_hex_len(bytes: Seq<u8>)
    ensures
        hex_lower(bytes).len() == 2 * bytes.len(),
    decreases bytes.len(),
{
    if bytes.len() > 0 {
        lemma_hex_len(bytes.drop_last());
    }
}

/// Whether a file of `size` bytes may be indexed.
pub fn check_size(path: &str, size: u64) -> (r: Result<(), Error>)
    ensures
        r is Ok <==> size <= MAX_FILE_SIZE,
        r matches Err(e) ==> (e matches Error::FileTooLarge(p) && p@ == path@),
{
    if size > MAX_FILE_SIZE {
        return Err(Error::FileTooLarge(path.to_owned()));
    }
    Ok(())
}

/// The document for the bytes of a file: its text, when they are valid UTF-8, and
/// their fingerprint.
pub fn document_from_bytes(path: &str, size: u64, modified_ns: i64, bytes: Vec<u8>) -> (r: Result<
    ExtractedDocument,
    Error,
>)
    ensures
        match r {
            Ok(d) => {
                &&& valid_utf8(bytes@)
                &&& d.content@ == decode_utf8(bytes@)
                &&& d.fingerprint@ == fingerprint_of(bytes@)
                &&& d.size == size
                &&& d.modified_ns == modified_ns
            },
            Err(e) => !valid_utf8(bytes@) && (e matches Error::InvalidText(p) && p@ == path@),
        },
{
    let fingerprint = fingerprint(bytes.as_slice());
    match string_from_utf8(bytes) {
        Some(content) => Ok(ExtractedDocument { content, size, modified_ns, fingerprint }),
        None => Err(Error::InvalidText(path.to_owned())),
    }
}

/// Extracts the file at position `index` of a walk: refuses unsupported extensions,
/// reads its size and modification time with `metadata`, refuses files over 16 MiB
/// before reading them, reads its bytes with `read`, and decodes them as UTF-8. Errors
/// of `metadata` and `read` are passed on.
pub fn extract_document<M, R>(file_name: &str, path: &str, metadata: &M, read: &R, index: usize) -> (r:
    Result<ExtractedDocument, Error>) where
    M: Fn(usize) -> Result<(u64, i64), Error>,
    R: Fn(usize) -> Result<Vec<u8>, Error>,

    requires
        metadata.requires((index,)),
        read.requires((index,)),
    ensures
        !is_supported_name(file_name@) ==> (r matches Err(e) && (e matches Error::Unsupported(p)
            && p@ == path@)),
        r matches Ok(d) ==> {
            &&& is_supported_name(file_name@)
            &&& d.size <= MAX_FILE_SIZE
            &&& metadata.ensures((index,), Ok((d.size, d.modified_ns)))
            &&& exists|bytes: Vec<u8>|
                {
                    &&& read.ensures((index,), Ok(bytes))
                    &&& valid_utf8(bytes@)
                    &&& d.content@ == decode_utf8(bytes@)
                    &&& d.fingerprint@ == fingerprint_of(bytes@)
                }
        },
        is_supported_name(file_name@) && (forall|m: Result<(u64, i64), Error>|
            #[trigger] metadata.ensures((index,), m) ==> (m matches Ok(v) && v.0 > MAX_FILE_SIZE))
            ==> (r matches Err(e) && (e matches Error::FileTooLarge(p) && p@ == path@)),
        r matches Err(e) ==> {
            ||| (!is_supported_name(file_name@) && (e matches Error::Unsupported(p) && p@
                == path@))
            ||| (is_supported_name(file_name@) && metadata.ensures((index,), Err(e)))
            ||| (is_supported_name(file_name@) && (e matches Error::FileTooLarge(p) && p@ == path@)
                && exists|m: (u64, i64)| metadata.ensures((index,), Ok(m)) && m.0 > MAX_FILE_SIZE)
            ||| (is_supported_name(file_name@) && (exists|m: (u64, i64)|
                metadata.ensures((index,), Ok(m)) && m.0 <= MAX_FILE_SIZE) && read.ensures(
                (index,),
                Err(e),
            ))
            ||| (is_supported_name(file_name@) && (exists|m: (u64, i64)|
                metadata.ensures((index,), Ok(m)) && m.0 <= MAX_FILE_SIZE) && (e matches Error::InvalidText(
                p,
            ) && p@ == path@) && exists|bytes: Vec<u8>|
                read.ensures((index,), Ok(bytes)) && !valid_utf8(bytes@))
        },
{
    if !is_supported(file_name) {
        return Err(Error::Unsupported(path.to_owned()));
    }
    let answer = metadata(index);
    let (size, modified_ns) = match answer {
        Ok(m) => m,
        Err(e) => return Err(e),
    };
    let ghost m = (size, modified_ns);
    assert(metadata.ensures((index,), Ok(m)));
    match check_size(path, size) {
        Ok(()) => {},
        Err(e) => return Err(e),
    }
    let bytes = match read(index) {
        Ok(b) => b,
        Err(e) => return Err(e),
    };
    let ghost read_bytes = bytes;
    let r = document_from_bytes(path, size, modified_ns, bytes);
    assert(read.ensures((index,), Ok(read_bytes)));
    r
}

} // verus!
