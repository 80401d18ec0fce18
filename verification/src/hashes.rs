use vstd::prelude::*;
use vstd::string::StringSliceAdditionalSpecFns;
use sha1::Digest;

verus! {

/// A lowercase hex digit: `0`..`9` or `a`..`f`.
pub open spec fn is_lower_hex_char(c: char) -> bool {
    (48 <= c as u32 && c as u32 <= 57) || (97 <= c as u32 && c as u32 <= 102)
}

/// The shape of a hex digest: exactly `n` lowercase hex digits.
pub open spec fn is_hex_digest_chars(t: Seq<char>, n: nat) -> bool {
    t.len() == n && forall|i: int| 0 <= i < t.len() ==> is_lower_hex_char(#[trigger] t[i])
}

/// The lowercase hex SHA-1 digest of a byte string; a function of the
/// bytes alone, left unspecified here and computed only by `sha1_hex_bytes`.
pub uninterp spec fn sha1_hex_of(input: Seq<u8>) -> Seq<char>;

/// The lowercase hex MD5 digest of a byte string; a function of the bytes
/// alone, computed only by `md5_hex_bytes`.
pub uninterp spec fn md5_hex_of(input: Seq<u8>) -> Seq<char>;

/// Whether `password` re-derives the stored bcrypt record `record`; `false`
/// also when the record cannot be parsed. A function of its two arguments.
pub uninterp spec fn bcrypt_verify_of(password: Seq<u8>, record: Seq<char>) -> bool;

/// Whether `record` parses as a stored bcrypt password-hash record.
pub uninterp spec fn bcrypt_record_ok(record: Seq<char>) -> bool;

/// Relies on sha1's `Sha1` (through the `Digest` trait, output size 20
/// bytes) and `hex::encode` (two lowercase hex digits per byte): the
/// digest of the input bytes, as 40 lowercase hex digits. The result
/// depends on the input bytes alone.
#[verifier::external_body]
pub(crate) fn sha1_hex_bytes(input: &[u8]) -> (r: String)
    ensures
        r@ == sha1_hex_of(input@),
        is_hex_digest_chars(r@, 40),
{
    hex::encode(sha1::Sha1::digest(input))
}

/// Relies on `md5::compute` (a 16-byte digest) and `hex::encode` (two
/// lowercase hex digits per byte): the digest of the input bytes, as 32
/// lowercase hex digits. The result depends on the input bytes alone.
#[verifier::external_body]
pub(crate) fn md5_hex_bytes(input: &[u8]) -> (r: String)
    ensures
        r@ == md5_hex_of(input@),
        is_hex_digest_chars(r@, 32),
{
    hex::encode(md5::compute(input).0)
}

/// Relies on `bcrypt::verify`: re-derives the hash from `password` and the
/// record's own salt and cost, and compares. A parse or cost error is
/// reported as "no match", so a record that does not parse never verifies.
/// Deterministic in its two arguments.
#[verifier::external_body]
pub(crate) fn bcrypt_verify_bytes(password: &[u8], record: &str) -> (r: bool)
    ensures
        r == bcrypt_verify_of(password@, record@),
        !bcrypt_record_ok(record@) ==> !r,
{
    bcrypt::verify(password, record).unwrap_or(false)
}

/// Relies on bcrypt's `HashParts` parser (its `FromStr`): whether the
/// record is well-formed depends on the record alone.
#[verifier::external_body]
pub(crate) fn bcrypt_record_valid(record: &str) -> (r: bool)
    ensures
        r == bcrypt_record_ok(record@),
{
    record.parse::<bcrypt::HashParts>().is_ok()
}

/// The lowercase hex SHA-1 digest of `input`: always 40 lowercase hex
/// digits, the format a fast-digest target is compared against.
pub fn hash_sha1(input: &str) -> (r: String)
    ensures
        r@ == sha1_hex_of(input.spec_bytes()),
        is_hex_digest_chars(r@, 40),
{
    sha1_hex_bytes(input.as_bytes())
}

/// The lowercase hex MD5 digest of `input`: always 32 lowercase hex digits.
pub fn hash_md5(input: &str) -> (r: String)
    ensures
        r@ == md5_hex_of(input.spec_bytes()),
        is_hex_digest_chars(r@, 32),
{
    md5_hex_bytes(input.as_bytes())
}

/// Whether `password` matches the stored bcrypt record `hash`; an
/// unparseable record is not a match.
pub fn verify_bcrypt(password: &str, hash: &str) -> (r: bool)
    ensures
        r == bcrypt_verify_of(password.spec_bytes(), hash@),
        !bcrypt_record_ok(hash@) ==> !r,
{
    bcrypt_verify_bytes(password.as_bytes(), hash)
}

} // verus!
