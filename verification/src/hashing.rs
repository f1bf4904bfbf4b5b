use vstd::prelude::*;

verus! {

/// The lowercase hexadecimal BLAKE3 digest of `data`
/// (`blake3::hash(data).to_hex()`).
pub uninterp spec fn blake3_hex(data: Seq<u8>) -> Seq<char>;

pub open spec fn is_lower_hex_char(c: char) -> bool {
    ('0' <= c && c <= '9') || ('a' <= c && c <= 'f')
}

/// Hashes `data` with `blake3::hash` and renders the digest with `Hash::to_hex`.
/// The contract claims that the text is a function of the bytes
/// (`blake3_hex`) and, as `to_hex` documents, 64 lowercase hexadecimal digits.
#[verifier::external_body]
pub(crate) fn blake3_hex_of(data: &[u8]) -> (r: String)
    ensures
        r@ == blake3_hex(data@),
        r@.len() == 64,
        forall|i: int| 0 <= i < r@.len() ==> is_lower_hex_char(#[trigger] r@[i]),
{
    blake3::hash(data).to_hex().to_string()
}

/// The BLAKE3 digest of `bytes` as lowercase hexadecimal text.
pub fn hash_bytes(bytes: &[u8]) -> (r: String)
    ensures
        r@ == blake3_hex(bytes@),
        r@.len() == 64,
{
    blake3_hex_of(bytes)
}

} // verus!
