//! DAP wire protocol codec: `Content-Length: N\r\n\r\n{json}` framing.

use vstd::prelude::*;
use vstd::utf8::{valid_utf8, decode_utf8, encode_utf8};
use vstd::slice::slice_subrange;

use crate::dap::header::{
    lines_of, first_stripped, trimmed, parse_usize, int_error_text, IntErrorKind,
    find_prefixed_line, trim, parse_usize_chars,
};
use crate::error::AppError;
use crate::text::{decimal_text, chars_of, push_decimal, push_str, string_of};

verus! {

#[verifier::external_type_specification]
#[verifier::external_body]
pub struct ExBytesMut(bytes::BytesMut);

#[verifier::external_type_specification]
#[verifier::external_body]
pub struct ExJsonValue(serde_json::Value);

#[verifier::external_type_specification]
#[verifier::external_body]
pub struct ExJsonError(serde_json::Error);

#[verifier::external_type_specification]
#[verifier::external_body]
pub struct ExUtf8Error(core::str::Utf8Error);

/// The bytes a `BytesMut` buffer holds, in order.
pub uninterp spec fn buf_bytes(b: bytes::BytesMut) -> Seq<u8>;

/// Whether `serde_json` accepts `bytes` as one JSON document.
pub uninterp spec fn json_accepts(bytes: Seq<u8>) -> bool;

/// The value `serde_json` parses from `bytes` (meaningful where it accepts them).
pub uninterp spec fn json_parse(bytes: Seq<u8>) -> serde_json::Value;

/// The compact JSON text `serde_json` writes for `v`, as bytes.
pub uninterp spec fn json_encoding(v: serde_json::Value) -> Seq<u8>;

/// Number of bytes in the buffer (`BytesMut::len`).
#[verifier::external_body]
fn buf_len(b: &bytes::BytesMut) -> (n: usize)
    ensures
        n == buf_bytes(*b).len(),
{
    b.len()
}

/// The buffer's bytes as a slice (`Deref` of `BytesMut`).
#[verifier::external_body]
fn buf_slice(b: &bytes::BytesMut) -> (s: &[u8])
    ensures
        s@ == buf_bytes(*b),
{
    &b[..]
}

/// Drops the first `n` bytes (`Buf::advance`; panics past the end, hence the `requires`).
#[verifier::external_body]
fn buf_advance(b: &mut bytes::BytesMut, n: usize)
    requires
        n <= buf_bytes(*old(b)).len(),
    ensures
        buf_bytes(*final(b)) == buf_bytes(*old(b)).skip(n as int),
{
    bytes::Buf::advance(b, n)
}

/// Splits off and returns the first `at` bytes (`BytesMut::split_to`; panics past the end).
#[verifier::external_body]
fn buf_split_to(b: &mut bytes::BytesMut, at: usize) -> (front: bytes::BytesMut)
    requires
        at <= buf_bytes(*old(b)).len(),
    ensures
        buf_bytes(front) == buf_bytes(*old(b)).take(at as int),
        buf_bytes(*final(b)) == buf_bytes(*old(b)).skip(at as int),
{
    b.split_to(at)
}

/// Makes room for `additional` more bytes without changing the contents
/// (`BytesMut::reserve`; panics when the capacity would overflow).
#[verifier::external_body]
fn buf_reserve(b: &mut bytes::BytesMut, additional: usize)
    requires
        buf_bytes(*old(b)).len() + additional <= isize::MAX,
    ensures
        buf_bytes(*final(b)) == buf_bytes(*old(b)),
{
    b.reserve(additional)
}

/// Appends `s` (`BufMut::put_slice`; grows the buffer, which panics past `isize::MAX`).
#[verifier::external_body]
fn buf_put_slice(b: &mut bytes::BytesMut, s: &[u8])
    requires
        buf_bytes(*old(b)).len() + s@.len() <= isize::MAX,
    ensures
        buf_bytes(*final(b)) == buf_bytes(*old(b)) + s@,
{
    bytes::BufMut::put_slice(b, s)
}

/// Index of the first occurrence of `needle` in `haystack` (`memchr::memmem::find`).
#[verifier::external_body]
fn find_bytes(haystack: &[u8], needle: &[u8]) -> (r: Option<usize>)
    ensures
        r matches Some(i) ==> first_occurrence(haystack@, needle@) == Some(i as int),
        r is None ==> first_occurrence(haystack@, needle@) is None,
{
    memchr::memmem::find(haystack, needle)
}

/// The bytes as text (`std::str::from_utf8`): accepted exactly when they are UTF-8.
#[verifier::external_body]
fn utf8_text(b: &[u8]) -> (r: Result<&str, core::str::Utf8Error>)
    ensures
        r is Ok <==> valid_utf8(b@),
        r matches Ok(t) ==> t@ == decode_utf8(b@),
{
    core::str::from_utf8(b)
}

/// The message of a UTF-8 error (its `Display`); nothing is stated of the text.
#[verifier::external_body]
fn utf8_error_text(e: &core::str::Utf8Error) -> String {
    e.to_string()
}

/// Parses one JSON document (`serde_json::from_slice` into `serde_json::Value`).
/// Success is named by `json_accepts`, the value by `json_parse`: both are
/// functions of the bytes alone.
#[verifier::external_body]
pub(crate) fn parse_json(b: &[u8]) -> (r: Result<serde_json::Value, serde_json::Error>)
    ensures
        r is Ok <==> json_accepts(b@),
        r matches Ok(v) ==> v == json_parse(b@),
{
    serde_json::from_slice(b)
}

/// Serializes a JSON value (`serde_json::to_vec`), named by `json_encoding`.
/// For a `Value` it cannot fail: the `Vec` writer never fails and every map
/// key is a string, which are the only error sources in `to_vec`.
#[verifier::external_body]
fn json_bytes(v: &serde_json::Value) -> (r: Result<Vec<u8>, serde_json::Error>)
    ensures
        r is Ok,
        r matches Ok(b) ==> b@ == json_encoding(*v),
{
    serde_json::to_vec(v)
}

/// The message of a JSON error (its `Display`); nothing is stated of the text.
#[verifier::external_body]
fn json_error_text(e: &serde_json::Error) -> String {
    e.to_string()
}

/// 1 MB — generous for any realistic DAP JSON payload.
pub const MAX_DAP_MESSAGE_SIZE: usize = 1_048_576;

/// Maximum header size before the `\r\n\r\n` separator.
pub const MAX_HEADER_SIZE: usize = 8 * 1024;

/// The `\r\n\r\n` that ends a header.
pub open spec fn header_separator() -> Seq<u8> {
    seq![13u8, 10u8, 13u8, 10u8]
}

/// The first position at or after `i` where `needle` occurs in `h`.
pub open spec fn occurrence_from(h: Seq<u8>, needle: Seq<u8>, i: int) -> Option<int>
    decreases h.len() + 1 - i,
{
    if i < 0 || i > h.len() || i + needle.len() > h.len() {
        None
    } else if h.subrange(i, i + needle.len()) == needle {
        Some(i)
    } else {
        occurrence_from(h, needle, i + 1)
    }
}

/// The first position where `needle` occurs in `h`.
pub open spec fn first_occurrence(h: Seq<u8>, needle: Seq<u8>) -> Option<int> {
    occurrence_from(h, needle, 0)
}

/// What the front of a receive buffer holds.
pub enum FrameScan {
    /// More bytes are needed before a message can be read.
    Incomplete,
    /// A whole message: header (separator included) then body.
    Complete { header_len: nat, body_len: nat },
    /// No separator within the first `MAX_HEADER_SIZE` bytes.
    NoSeparator,
    /// The header is not UTF-8.
    HeaderNotUtf8,
    /// No header line starts with `Content-Length: `.
    MissingLength,
    /// The `Content-Length` value is not a `usize`.
    BadLength(IntErrorKind),
    /// The `Content-Length` value exceeds `MAX_DAP_MESSAGE_SIZE`.
    TooLarge(nat),
}

/// Reading a receive buffer: the separator is looked for in the first
/// `MAX_HEADER_SIZE + 4` bytes; the header before it must be UTF-8 and hold a
/// `Content-Length: N` line (N trimmed, at most `MAX_DAP_MESSAGE_SIZE`), and
/// the message is complete once N body bytes follow the separator.
pub open spec fn scan_frame(s: Seq<u8>) -> FrameScan {
    let limit = if s.len() < MAX_HEADER_SIZE + 4 {
        s.len() as int
    } else {
        MAX_HEADER_SIZE + 4
    };
    match first_occurrence(s.take(limit), header_separator()) {
        None => if s.len() > MAX_HEADER_SIZE {
            FrameScan::NoSeparator
        } else {
            FrameScan::Incomplete
        },
        Some(p) => {
            let header = s.take(p);
            if !valid_utf8(header) {
                FrameScan::HeaderNotUtf8
            } else {
                match first_stripped(lines_of(decode_utf8(header)), "Content-Length: "@) {
                    None => FrameScan::MissingLength,
                    Some(v) => match parse_usize(trimmed(v)) {
                        Err(k) => FrameScan::BadLength(k),
                        Ok(n) => if n > MAX_DAP_MESSAGE_SIZE {
                            FrameScan::TooLarge(n)
                        } else if s.len() < p + 4 + n {
                            FrameScan::Incomplete
                        } else {
                            FrameScan::Complete { header_len: (p + 4) as nat, body_len: n }
                        },
                    },
                }
            }
        },
    }
}

/// The bytes of one framed message with body `body`.
pub open spec fn framed(body: Seq<u8>) -> Seq<u8> {
    encode_utf8("Content-Length: "@ + decimal_text(body.len()) + "\r\n\r\n"@) + body
}

/// The framed message is the header's bytes followed by the body.
proof fn lemma_framed_len(body: Seq<u8>, header: Seq<u8>)
    requires
        header == encode_utf8("Content-Length: "@ + decimal_text(body.len()) + "\r\n\r\n"@),
    ensures
        framed(body) == header + body,
        framed(body).len() == header.len() + body.len(),
{
}

/// Whether `e` is a codec error whose message is `m`.
pub open spec fn is_codec_error(e: AppError, m: Seq<char>) -> bool {
    e matches AppError::Codec(t) && t@ == m
}

/// DAP wire protocol codec: `Content-Length: N\r\n\r\n{json}` framing.
#[derive(Debug, Default)]
pub struct DapCodec;

/// A match found by `occurrence_from` lies within the haystack.
pub proof fn lemma_occurrence_bounds(h: Seq<u8>, needle: Seq<u8>, i: int)
    ensures
        occurrence_from(h, needle, i) matches Some(p) ==> i <= p && p + needle.len() <= h.len()
            && h.subrange(p, p + needle.len()) == needle,
    decreases h.len() + 1 - i,
{
    if !(i < 0 || i > h.len() || i + needle.len() > h.len()) && h.subrange(i, i + needle.len())
        != needle {
        lemma_occurrence_bounds(h, needle, i + 1);
    }
}

/// Whether `r` is a codec error with message `m`.
pub open spec fn fails_with(r: Result<Option<serde_json::Value>, AppError>, m: Seq<char>) -> bool {
    match r {
        Err(e) => is_codec_error(e, m),
        Ok(_) => false,
    }
}

/// Reading a receive buffer `s` answers `r` and leaves `s2` (see [`scan_frame`]):
/// an incomplete message leaves the buffer as it is and answers `None`; a
/// complete one is consumed and its body parsed as JSON; a bad header is an
/// error that leaves the buffer as it is.
pub open spec fn decode_result(
    s: Seq<u8>,
    r: Result<Option<serde_json::Value>, AppError>,
    s2: Seq<u8>,
) -> bool {
    match scan_frame(s) {
        FrameScan::Incomplete => s2 == s && r matches Ok(None),
        FrameScan::NoSeparator => s2 == s && fails_with(r,
            "no header separator found within "@ + decimal_text(MAX_HEADER_SIZE as nat)
                + " bytes"@,
        ),
        FrameScan::HeaderNotUtf8 => s2 == s && r matches Err(AppError::Codec(_)),
        FrameScan::MissingLength => s2 == s && fails_with(r,
            "missing Content-Length header"@,
        ),
        FrameScan::BadLength(k) => s2 == s && fails_with(r,
            int_error_text(k),
        ),
        FrameScan::TooLarge(n) => s2 == s && fails_with(r,
            "Content-Length "@ + decimal_text(n) + " exceeds maximum "@ + decimal_text(
                MAX_DAP_MESSAGE_SIZE as nat,
            ),
        ),
        FrameScan::Complete { header_len, body_len } => {
            &&& s2 == s.skip((header_len + body_len) as int)
            &&& r is Ok <==> json_accepts(s.subrange(header_len as int, (header_len + body_len) as int))
            &&& r matches Ok(v) ==> v == Some(
                json_parse(s.subrange(header_len as int, (header_len + body_len) as int)),
            )
            &&& r is Err ==> r matches Err(AppError::Json(_))
        },
    }
}

fn codec_error(m: &str) -> (e: AppError)
    ensures
        is_codec_error(e, m@),
{
    AppError::Codec(m.to_owned())
}

fn int_error_message(k: IntErrorKind) -> (e: AppError)
    ensures
        is_codec_error(e, int_error_text(k)),
{
    match k {
        IntErrorKind::Empty => codec_error("cannot parse integer from empty string"),
        IntErrorKind::InvalidDigit => codec_error("invalid digit found in string"),
        IntErrorKind::PosOverflow => codec_error("number too large to fit in target type"),
    }
}

impl DapCodec {
    /// Read one message from the front of `src`, if a whole one is there.
    pub fn decode(&mut self, src: &mut bytes::BytesMut) -> (r: Result<
        Option<serde_json::Value>,
        AppError,
    >)
        ensures
            decode_result(buf_bytes(*old(src)), r, buf_bytes(*final(src))),
    {
        let ghost s = buf_bytes(*src);
        let len = buf_len(src);
        let (p, n) = {
            let data = buf_slice(src);
            let limit: usize = if len < MAX_HEADER_SIZE + 4 {
                len
            } else {
                MAX_HEADER_SIZE + 4
            };
            let window = slice_subrange(data, 0, limit);
            let mut sep: Vec<u8> = Vec::new();
            sep.push(13u8);
            sep.push(10u8);
            sep.push(13u8);
            sep.push(10u8);
            assert(sep@ =~= header_separator());
            assert(window@ == s.take(limit as int));
            let p = match find_bytes(window, sep.as_slice()) {
                None => {
                    if len > MAX_HEADER_SIZE {
                        let mut m: Vec<char> = Vec::new();
                        push_str(&mut m, "no header separator found within ");
                        push_decimal(&mut m, MAX_HEADER_SIZE as u64);
                        push_str(&mut m, " bytes");
                        return Err(AppError::Codec(string_of(&m)));
                    }
                    return Ok(None);
                },
                Some(p) => p,
            };
            proof {
                lemma_occurrence_bounds(s.take(limit as int), header_separator(), 0);
            }
            let header_bytes = slice_subrange(data, 0, p);
            assert(header_bytes@ == s.take(p as int));
            let text = match utf8_text(header_bytes) {
                Ok(t) => t,
                Err(e) => {
                    return Err(AppError::Codec(utf8_error_text(&e)));
                },
            };
            let chars = chars_of(text);
            let prefix = chars_of("Content-Length: ");
            let value = match find_prefixed_line(&chars, &prefix) {
                None => {
                    return Err(codec_error("missing Content-Length header"));
                },
                Some(v) => v,
            };
            let digits = trim(&value);
            let n = match parse_usize_chars(&digits) {
                Err(k) => {
                    return Err(int_error_message(k));
                },
                Ok(n) => n,
            };
            if n > MAX_DAP_MESSAGE_SIZE {
                let mut m: Vec<char> = Vec::new();
                push_str(&mut m, "Content-Length ");
                push_decimal(&mut m, n as u64);
                push_str(&mut m, " exceeds maximum ");
                push_decimal(&mut m, MAX_DAP_MESSAGE_SIZE as u64);
                return Err(AppError::Codec(string_of(&m)));
            }
            if len - (p + 4) < n {
                return Ok(None);
            }
            (p, n)
        };
        buf_advance(src, p + 4);
        let body = buf_split_to(src, n);
        assert(s.skip(p + 4).take(n as int) == s.subrange(p + 4, p + 4 + n));
        assert(s.skip(p + 4).skip(n as int) == s.skip(p + 4 + n));
        let body_bytes = buf_slice(&body);
        match parse_json(body_bytes) {
            Ok(v) => Ok(Some(v)),
            Err(e) => Err(AppError::Json(json_error_text(&e))),
        }
    }

    /// Append `item` to `dst` as one framed message.
    pub fn encode(&mut self, item: serde_json::Value, dst: &mut bytes::BytesMut) -> (r: Result<
        (),
        AppError,
    >)
        ensures
            r is Ok <==> buf_bytes(*old(dst)).len() + framed(json_encoding(item)).len() <= isize::MAX,
            r is Ok ==> buf_bytes(*final(dst)) == buf_bytes(*old(dst)) + framed(json_encoding(item)),
            r is Err ==> buf_bytes(*final(dst)) == buf_bytes(*old(dst)),
            r matches Err(e) ==> is_codec_error(e, "message too large for the output buffer"@),
    {
        let body = match json_bytes(&item) {
            Ok(b) => b,
            Err(e) => {
                return Err(AppError::Json(json_error_text(&e)));
            },
        };
        let mut h: Vec<char> = Vec::new();
        push_str(&mut h, "Content-Length: ");
        push_decimal(&mut h, body.len() as u64);
        push_str(&mut h, "\r\n\r\n");
        let header = string_of(&h);
        let header_bytes = header.as_str().as_bytes();
        let dlen = buf_len(dst);
        proof {
            lemma_framed_len(body@, header_bytes@);
        }
        let needed = match header_bytes.len().checked_add(body.len()) {
            Some(t) => t,
            None => {
                return Err(codec_error("message too large for the output buffer"));
            },
        };
        if dlen > (isize::MAX as usize) || needed > (isize::MAX as usize) - dlen {
            return Err(codec_error("message too large for the output buffer"));
        }
        buf_reserve(dst, header_bytes.len() + body.len());
        buf_put_slice(dst, header_bytes);
        buf_put_slice(dst, body.as_slice());
        assert(buf_bytes(*dst) == buf_bytes(*old(dst)) + framed(body@));
        Ok(())
    }
}

} // verus!
