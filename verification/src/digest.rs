//! MD5-based sample identities and the train/validation split.
use vstd::prelude::*;
use crate::format::{decimal, hex_bytes, push_decimal, push_hex};
use crate::text::{append_chars, chars_of, string_from_chars};
use vstd::utf8::encode_utf8;

verus! {

/// The MD5 digest of a byte string, as `md5::compute` gives it.
pub uninterp spec fn md5_digest(data: Seq<u8>) -> Seq<u8>;

/// `md5::compute`: the 16 bytes of the digest of `data`.
///
/// Claims that the result is the named digest of the input bytes; MD5 itself
/// is not stated.
#[verifier::external_body]
fn md5_compute(data: &[u8]) -> (r: [u8; 16])
    ensures
        r@ == md5_digest(data@),
{
    md5::compute(data).0
}

/// The digest as `{:x}` prints it: 32 lower-case hexadecimal digits.
pub fn digest_hex(digest: [u8; 16]) -> (r: String)
    ensures
        r@ == hex_bytes(digest@),
{
    let mut v: Vec<char> = Vec::new();
    push_hex(&mut v, &digest);
    assert(v@ =~= hex_bytes(digest@));
    string_from_chars(&v)
}

/// The text whose digest identifies the frame of a video at a second:
/// `<video path>:<second>`.
pub open spec fn sample_key(video_display: Seq<char>, sec: u64) -> Seq<char> {
    video_display + ":"@ + decimal(sec as nat)
}

/// The identity of the sample taken from a video at a second: the hex MD5
/// digest of the UTF-8 bytes of `sample_key`.
pub fn sample_id(video_display: &str, sec: u64) -> (r: String)
    ensures
        r@ == hex_bytes(md5_digest(encode_utf8(sample_key(video_display@, sec)))),
{
    let mut key = chars_of(video_display);
    append_chars(&mut key, &chars_of(":"));
    push_decimal(&mut key, sec);
    let text = string_from_chars(&key);
    let digest = md5_compute(text.as_str().as_bytes());
    digest_hex(digest)
}

/// Whether a digest puts its sample in the validation set: its first byte is
/// a multiple of ten (about one sample in ten).
pub fn val_split_by_digest(digest: [u8; 16]) -> (r: bool)
    ensures
        r == (digest@[0] % 10 == 0),
{
    digest[0] % 10 == 0
}

/// Whether the sample goes to the validation set, decided by the MD5 digest
/// of its id alone.
pub fn deterministic_val_split(sample_id: &str) -> (r: bool)
    ensures
        r == (md5_digest(encode_utf8(sample_id@))[0] % 10 == 0),
{
    let digest = md5_compute(sample_id.as_bytes());
    val_split_by_digest(digest)
}

} // verus!
