//! Content hashes, as they stand in file names.

use vstd::prelude::*;

use crate::text::{from_chars, to_chars};

verus! {

/// The SHA-256 digest of the bytes.
pub uninterp spec fn sha256_digest(bytes: Seq<u8>) -> Seq<u8>;

/// `sha2::Sha256`: a fresh hasher, fed the bytes and finalized. The digest
/// depends on the bytes alone and is 32 bytes long.
#[verifier::external_body]
fn sha256(bytes: &[u8]) -> (r: Vec<u8>)
    ensures
        r@ == sha256_digest(bytes@),
        r@.len() == 32,
{
    let mut hasher = <sha2::Sha256 as sha2::Digest>::new();
    sha2::Digest::update(&mut hasher, bytes);
    sha2::Digest::finalize(hasher).to_vec()
}

/// The hexadecimal digit of a value below sixteen, in lower case.
pub open spec fn hex_digit(value: int) -> char {
    if value < 10 {
        (48 + value) as char
    } else {
        (87 + value) as char
    }
}

/// The bytes in hexadecimal, two digits each, the high one first.
pub open spec fn hex_text(bytes: Seq<u8>) -> Seq<char> {
    Seq::new(
        2 * bytes.len(),
        |i: int|
            if i % 2 == 0 {
                hex_digit(bytes[i / 2] as int / 16)
            } else {
                hex_digit(bytes[i / 2] as int % 16)
            },
    )
}

/// `hex::encode`: every byte as two lower-case digits, the high one first. The
/// text has to fit into memory.
#[verifier::external_body]
fn hex_encode(bytes: &Vec<u8>) -> (r: String)
    requires
        2 * bytes@.len() <= isize::MAX,
    ensures
        r@ == hex_text(bytes@),
{
    hex::encode(bytes)
}

/// The character is a hexadecimal digit in lower case.
pub open spec fn is_hex_digit(c: char) -> bool {
    exists|value: int| 0 <= value < 16 && c == #[trigger] hex_digit(value)
}

/// The text is made of hexadecimal digits in lower case.
pub open spec fn hexadecimal(text: Seq<char>) -> bool {
    forall|i: int| 0 <= i < text.len() ==> is_hex_digit(#[trigger] text[i])
}

/// Hexadecimal digits are no separators.
pub proof fn lemma_hexadecimal_is_no_path(text: Seq<char>)
    requires
        hexadecimal(text),
    ensures
        !text.contains('/'),
{
}

/// The first eight hexadecimal digits of a digest.
pub open spec fn short_hash(digest: Seq<u8>) -> Seq<char> {
    hex_text(digest).take(8)
}

/// The first eight hexadecimal digits of a digest.
pub fn shorten(digest: &Vec<u8>) -> (r: String)
    requires
        digest@.len() >= 4,
        2 * digest@.len() <= isize::MAX,
    ensures
        r@ == short_hash(digest@),
        r@.len() == 8,
        hexadecimal(r@),
{
    let full = to_chars(hex_encode(digest).as_str());
    assert(full@.subrange(0, 8) =~= hex_text(digest@).take(8));
    assert(hexadecimal(full@.subrange(0, 8))) by {
        assert forall|i: int| 0 <= i < 8 implies is_hex_digit(
            #[trigger] full@.subrange(0, 8)[i],
        ) by {
            let byte = digest@[i / 2] as int;
            let value = if i % 2 == 0 {
                byte / 16
            } else {
                byte % 16
            };
            assert(0 <= value < 16);
            assert(full@.subrange(0, 8)[i] == hex_digit(value));
        }
    }
    from_chars(&full, 0, 8)
}

/// The SHA-256 digest of the bytes, cut to eight hexadecimal digits.
pub fn sha256_8(bytes: &[u8]) -> (r: String)
    ensures
        r@ == short_hash(sha256_digest(bytes@)),
        r@.len() == 8,
        hexadecimal(r@),
{
    shorten(&sha256(bytes))
}

} // verus!
