use vstd::prelude::*;
use crypto::digest::Digest;
use rustc_serialize::base64::FromBase64;

verus! {

/// The lower-case hexadecimal digits.
pub open spec fn is_lower_hex(c: char) -> bool {
    ('0' <= c <= '9') || ('a' <= c <= 'f')
}

/// The MD5 digest of the UTF-8 bytes of a text, as 32 lower-case hex digits.
pub uninterp spec fn md5_hex(input: Seq<char>) -> Seq<char>;

/// The bytes that a base64 text decodes to; `None` where the text is not base64.
pub uninterp spec fn base64_decode(text: Seq<char>) -> Option<Seq<u8>>;

/// Calls `crypto::md5::Md5` (`input_str`, then `result_str`). The digest is
/// named, not stated; its text is 32 lower-case hex digits, since `result_str`
/// hex-encodes the 16 bytes of the MD5 output.
#[verifier::external_body]
fn md5_result_str(input: &str) -> (out: String)
    ensures
        out@ == md5_hex(input@),
        out@.len() == 32,
        forall|i: int| 0 <= i < 32 ==> #[trigger] is_lower_hex(out@[i]),
{
    let mut sh = crypto::md5::Md5::new();
    sh.input_str(input);
    sh.result_str()
}

/// Calls `rustc_serialize::base64::FromBase64::from_base64` on a `str`. The
/// decoded bytes are named; the detail of a failure is converted by
/// `base64_error_of` and not stated.
#[verifier::external_body]
fn from_base64_str(text: &str) -> (r: Result<Vec<u8>, rustc_serialize::base64::FromBase64Error>)
    ensures
        r is Ok <==> base64_decode(text@) is Some,
        r matches Ok(v) ==> base64_decode(text@) == Some(v@),
{
    text.from_base64()
}

/// The outside error of a base64 decoding.
#[verifier::external_type_specification]
#[verifier::external_body]
pub struct ExFromBase64Error(rustc_serialize::base64::FromBase64Error);

/// What went wrong in a base64 decoding.
#[derive(Debug, Clone, Copy, PartialEq, Eq)]
pub enum Base64Error {
    /// A character that base64 does not use, with its byte and position.
    InvalidBase64Byte(u8, usize),
    /// The input had an invalid length.
    InvalidBase64Length,
}

/// Converts `rustc_serialize::base64::FromBase64Error` variant by variant.
#[verifier::external_body]
fn base64_error_of(e: rustc_serialize::base64::FromBase64Error) -> (r: Base64Error) {
    match e {
        rustc_serialize::base64::FromBase64Error::InvalidBase64Byte(b, i) => Base64Error::InvalidBase64Byte(b, i),
        rustc_serialize::base64::FromBase64Error::InvalidBase64Length => Base64Error::InvalidBase64Length,
    }
}

/// Calls `time::get_time` and formats the `Timespec` with `{:?}`; the text
/// depends on the clock, so nothing is stated of it.
#[verifier::external_body]
fn timespec_text() -> (t: String) {
    format!("{:?}", time::get_time())
}

/// Calls `time::get_time` and returns its `sec`; the clock decides it.
#[verifier::external_body]
fn clock_seconds() -> (s: i64) {
    time::get_time().sec
}

/// Digests and keys.
pub struct DigestUtil;

impl DigestUtil {
    /// The MD5 digest of `input` in lower-case hex.
    pub fn md5(input: &str) -> (out: String)
        ensures
            out@ == md5_hex(input@),
            out@.len() == 32,
            forall|i: int| 0 <= i < 32 ==> #[trigger] is_lower_hex(out@[i]),
    {
        md5_result_str(input)
    }

    /// The key of 32 `A`s.
    pub fn empty_key() -> (key: String)
        ensures
            key@ == Seq::new(32, |i: int| 'A'),
    {
        let key = String::from_str("AAAAAAAAAAAAAAAAAAAAAAAAAAAAAAAA");
        proof {
            reveal_strlit("AAAAAAAAAAAAAAAAAAAAAAAAAAAAAAAA");
        }
        assert(key@ =~= Seq::new(32, |i: int| 'A'));
        key
    }

    /// A key made from the current time: the MD5 digest of a text of the clock.
    pub fn random_key() -> (key: String)
        ensures
            exists|t: Seq<char>| key@ == md5_hex(t),
            key@.len() == 32,
            forall|i: int| 0 <= i < 32 ==> #[trigger] is_lower_hex(key@[i]),
    {
        let t = timespec_text();
        let key = DigestUtil::md5(t.as_str());
        key
    }

    /// The bytes of a base64 text.
    pub fn base64_to_bytes(text: &str) -> (r: Result<Vec<u8>, Base64Error>)
        ensures
            r is Ok <==> base64_decode(text@) is Some,
            r matches Ok(v) ==> base64_decode(text@) == Some(v@),
    {
        match from_base64_str(text) {
            Ok(v) => Ok(v),
            Err(e) => Err(base64_error_of(e)),
        }
    }
}

/// The clock.
pub struct TimeUtil;

impl TimeUtil {
    /// The current time in whole seconds since the epoch, as the clock gives it.
    pub fn get_cur_second() -> i64 {
        clock_seconds()
    }
}

} // verus!
