//! The metadata blob of a record: a file's name and the length of its
//! contents, in bincode's default encoding of a `(String, u64)` pair.

use vstd::prelude::*;
use vstd::utf8::*;
use crate::bytes::{le_bytes, le_value, lemma_le_round_trip, lemma_le_bytes_of_value};
use crate::error::ArchiveError;

verus! {

#[verifier::external_type_specification]
#[verifier::external_body]
pub struct ExBincodeErrorKind(bincode::ErrorKind);

/// What a record says about its file before the file's bytes.
#[derive(Debug)]
pub struct FileInfo {
    pub file_name: String,
    pub data_len: u64,
}

/// The blob for `name` and `data_len`: the name's UTF-8 length (8 bytes,
/// little-endian), the name's UTF-8 bytes, then `data_len` (8 bytes,
/// little-endian).
pub open spec fn info_blob(name: Seq<char>, data_len: u64) -> Seq<u8> {
    le_bytes(encode_utf8(name).len() as u64) + encode_utf8(name) + le_bytes(data_len)
}

/// The name length announced by the first eight bytes of a blob.
pub open spec fn announced_name_len(b: Seq<u8>) -> int {
    le_value(b) as int
}

/// The bytes that a blob holds as a name.
pub open spec fn name_bytes(b: Seq<u8>) -> Seq<u8> {
    b.subrange(8, 8 + announced_name_len(b))
}

/// `b` starts with a length, that many UTF-8 bytes, and eight more bytes.
pub open spec fn pair_readable(b: Seq<u8>) -> bool {
    &&& b.len() >= 8
    &&& 8 + announced_name_len(b) + 8 <= b.len()
    &&& valid_utf8(name_bytes(b))
}

/// The name that a readable blob holds.
pub open spec fn pair_name(b: Seq<u8>) -> Seq<char> {
    decode_utf8(name_bytes(b))
}

/// The integer that a readable blob holds after the name.
pub open spec fn pair_count(b: Seq<u8>) -> u64 {
    let k = 8 + announced_name_len(b);
    le_value(b.subrange(k, k + 8))
}

/// `b` is readable and holds nothing after the integer.
pub open spec fn info_decodes(b: Seq<u8>) -> bool {
    pair_readable(b) && b.len() == 16 + announced_name_len(b)
}

/// The name and length held by a metadata blob, if it is one.
pub open spec fn info_of_blob(b: Seq<u8>) -> Option<(Seq<char>, u64)> {
    if info_decodes(b) {
        Some((pair_name(b), pair_count(b)))
    } else {
        None
    }
}

/// Relies on bincode::serialize: with its default options a `(&str, u64)`
/// is written as the string's byte length (u64, little-endian), the string's
/// UTF-8 bytes, and the integer (little-endian); writing into a `Vec` under
/// no size limit does not fail.
#[verifier::external_body]
fn bincode_serialize_pair(name: &str, n: u64) -> (r: Result<Vec<u8>, Box<bincode::ErrorKind>>)
    ensures
        r is Ok,
        r matches Ok(v) ==> v@ == info_blob(name@, n),
{
    bincode::serialize(&(name, n))
}

/// Relies on bincode::deserialize: with its default options a
/// `(String, u64)` is read as a u64 length, that many bytes that must be
/// UTF-8, and a u64, both little-endian; it fails when the slice ends
/// early or the bytes are not UTF-8, and ignores bytes after the pair.
#[verifier::external_body]
fn bincode_deserialize_pair(b: &[u8]) -> (r: Result<(String, u64), Box<bincode::ErrorKind>>)
    ensures
        r is Ok <==> pair_readable(b@),
        r matches Ok(p) ==> p.0@ == pair_name(b@) && p.1 == pair_count(b@),
{
    bincode::deserialize::<(String, u64)>(b)
}

/// Encodes the metadata of a record.
pub fn encode_info(info: &FileInfo) -> (r: Vec<u8>)
    ensures
        r@ == info_blob(info.file_name@, info.data_len),
{
    bincode_serialize_pair(info.file_name.as_str(), info.data_len).unwrap()
}

/// Decodes a metadata blob; the blob must hold exactly one encoded pair.
pub fn decode_info(blob: &[u8]) -> (r: Result<FileInfo, ArchiveError>)
    ensures
        r is Ok <==> info_decodes(blob@),
        r matches Ok(i) ==> info_of_blob(blob@) == Some((i.file_name@, i.data_len)),
        r matches Err(e) ==> e == ArchiveError::MalformedMetadata,
{
    match bincode_deserialize_pair(blob) {
        Ok((name, n)) => {
            proof {
                decode_utf8_encode_utf8(name_bytes(blob@));
            }
            let name_len = name.as_str().len();
            if blob.len() - 16 == name_len {
                Ok(FileInfo { file_name: name, data_len: n })
            } else {
                Err(ArchiveError::MalformedMetadata)
            }
        },
        Err(_) => Err(ArchiveError::MalformedMetadata),
    }
}

/// Decoding the blob of a name and a length gives back that name and length.
pub proof fn lemma_info_round_trip(name: Seq<char>, data_len: u64)
    requires
        encode_utf8(name).len() <= u64::MAX,
    ensures
        info_of_blob(info_blob(name, data_len)) == Some((name, data_len)),
{
    let e = encode_utf8(name);
    let b = info_blob(name, data_len);
    lemma_le_round_trip(e.len() as u64);
    lemma_le_round_trip(data_len);
    assert(b.subrange(0, 8) =~= le_bytes(e.len() as u64));
    assert(announced_name_len(b) == e.len());
    assert(name_bytes(b) =~= e);
    encode_utf8_valid_utf8(name);
    encode_utf8_decode_utf8(name);
    let k = 8 + e.len() as int;
    assert(b.subrange(k, k + 8) =~= le_bytes(data_len));
}

/// A blob that decodes is the blob of what it decodes to.
pub proof fn lemma_info_decodes_is_blob(b: Seq<u8>)
    requires
        info_decodes(b),
    ensures
        b == info_blob(pair_name(b), pair_count(b)),
        encode_utf8(pair_name(b)).len() <= u64::MAX,
{
    let k = 8 + announced_name_len(b);
    decode_utf8_encode_utf8(name_bytes(b));
    lemma_le_bytes_of_value(b.subrange(0, 8));
    lemma_le_bytes_of_value(b.subrange(k, k + 8));
    assert(le_value(b.subrange(0, 8)) == le_value(b));
    assert(b =~= b.subrange(0, 8) + name_bytes(b) + b.subrange(k, k + 8));
}

} // verus!
