//! What the codec writes, it reads back: a framed message is recognised as
//! one complete message whose body is exactly the body that was framed.

use vstd::prelude::*;
use vstd::utf8::{valid_utf8, decode_utf8, encode_utf8, encode_scalar, encode_utf8_decode_utf8, encode_utf8_valid_utf8};

use crate::dap::codec::{
    FrameScan, MAX_DAP_MESSAGE_SIZE, MAX_HEADER_SIZE, decode_result, first_occurrence, framed,
    header_separator, occurrence_from, scan_frame,
};
use crate::dap::header::{
    first_index_of, first_stripped, is_digit_char, is_whitespace_char, lemma_first_index_of,
    lines_of, parse_digits, parse_usize, trim_end, trim_start, trimmed,
};
use crate::text::{decimal_text, digit_char};

verus! {

/// Every character of `decimal_text(n)` is an ASCII digit, and there is at least one.
pub proof fn lemma_decimal_digits(n: nat)
    ensures
        decimal_text(n).len() >= 1,
        forall|i: int| 0 <= i < decimal_text(n).len() ==> is_digit_char(#[trigger] decimal_text(n)[i]),
    decreases n,
{
    if n >= 10 {
        lemma_decimal_digits(n / 10);
        assert forall|i: int| 0 <= i < decimal_text(n).len() implies is_digit_char(
            #[trigger] decimal_text(n)[i],
        ) by {
            if i < decimal_text(n / 10).len() {
                assert(decimal_text(n)[i] == decimal_text(n / 10)[i]);
            }
        }
    }
}

/// The decimal text of `n` has at most 20 digits when `n` fits in 64 bits.
proof fn lemma_decimal_len(n: nat)
    requires
        n <= u64::MAX,
    ensures
        decimal_text(n).len() <= 20,
{
    lemma_pow10_20();
    lemma_decimal_len_bound(n, 20);
}

proof fn lemma_decimal_len_bound(n: nat, k: nat)
    requires
        k >= 1,
        n < pow10(k),
    ensures
        decimal_text(n).len() <= k,
    decreases k,
{
    if n >= 10 {
        assert(k >= 2) by {
            if k == 1 {
                assert(pow10(1) == 10 * pow10(0));
            }
        }
        assert(pow10(k) == 10 * pow10((k - 1) as nat));
        assert(n / 10 < pow10((k - 1) as nat)) by (nonlinear_arith)
            requires
                n < pow10(k),
                pow10(k) == 10 * pow10((k - 1) as nat),
        ;
        lemma_decimal_len_bound(n / 10, (k - 1) as nat);
    }
}

/// Ten to the power `k`.
pub open spec fn pow10(k: nat) -> nat
    decreases k,
{
    if k == 0 {
        1
    } else {
        10 * pow10((k - 1) as nat)
    }
}

proof fn lemma_pow10_20()
    ensures
        pow10(20) > u64::MAX,
{
    reveal_with_fuel(pow10, 21);
}

/// Reading one more digit after digits that read as `v`.
proof fn lemma_parse_push(d: Seq<char>, c: char, acc: nat, v: nat)
    requires
        parse_digits(d, acc) == Ok::<nat, crate::dap::header::IntErrorKind>(v),
        is_digit_char(c),
        v * 10 + ((c as u32) - 48) <= usize::MAX,
    ensures
        parse_digits(d.push(c), acc) == Ok::<nat, crate::dap::header::IntErrorKind>(
            (v * 10 + ((c as u32) - 48)) as nat,
        ),
    decreases d.len(),
{
    let e = d.push(c);
    if d.len() == 0 {
        assert(v == acc);
        assert(e =~= seq![c]);
        assert(e[0] == c);
        assert(e.drop_first() =~= Seq::<char>::empty());
        let w = acc * 10 + ((c as u32) - 48);
        assert(parse_digits(e.drop_first(), w as nat) == Ok::<nat, crate::dap::header::IntErrorKind>(w as nat));
        assert(parse_digits(e, acc) == parse_digits(e.drop_first(), w as nat));
    } else {
        assert(is_digit_char(d[0]));
        let a2 = acc * 10 + ((d[0] as u32) - 48);
        assert(a2 <= usize::MAX);
        assert(parse_digits(d, acc) == parse_digits(d.drop_first(), a2 as nat));
        assert(e[0] == d[0]);
        assert(e.drop_first() =~= d.drop_first().push(c));
        lemma_parse_push(d.drop_first(), c, a2 as nat, v);
        assert(parse_digits(e, acc) == parse_digits(e.drop_first(), a2 as nat));
    }
}

/// The decimal text of a `usize` reads back as that number.
pub proof fn lemma_parse_decimal(n: nat)
    requires
        n <= usize::MAX,
    ensures
        parse_usize(decimal_text(n)) == Ok::<nat, crate::dap::header::IntErrorKind>(n),
    decreases n,
{
    lemma_parse_digits_decimal(n);
    lemma_decimal_digits(n);
    assert(is_digit_char(decimal_text(n)[0]));
}

proof fn lemma_parse_digits_decimal(n: nat)
    requires
        n <= usize::MAX,
    ensures
        parse_digits(decimal_text(n), 0) == Ok::<nat, crate::dap::header::IntErrorKind>(n),
    decreases n,
{
    if n < 10 {
        let t = decimal_text(n);
        assert(t =~= seq![digit_char(n)]);
        assert(t.drop_first() =~= Seq::<char>::empty());
        assert((digit_char(n) as u32) == 48 + n);
        assert(is_digit_char(t[0]));
        assert(parse_digits(t.drop_first(), n) == Ok::<nat, crate::dap::header::IntErrorKind>(n));
        assert(parse_digits(t, 0) == parse_digits(t.drop_first(), n));
    } else {
        lemma_parse_digits_decimal(n / 10);
        assert((digit_char(n % 10) as u32) == 48 + n % 10);
        assert(is_digit_char(digit_char(n % 10)));
        assert(n / 10 * 10 + n % 10 == n);
        lemma_parse_push(decimal_text(n / 10), digit_char(n % 10), 0, n / 10);
    }
}

/// A text with no whitespace at either end is its own trim.
pub proof fn lemma_trimmed_digits(t: Seq<char>)
    requires
        t.len() >= 1,
        forall|i: int| 0 <= i < t.len() ==> is_digit_char(#[trigger] t[i]),
    ensures
        trimmed(t) == t,
{
    assert(is_digit_char(t[0]));
    assert(is_digit_char(t.last()));
    assert(!is_whitespace_char(t[0]));
    assert(!is_whitespace_char(t.last()));
}

/// UTF-8 encoding distributes over concatenation.
pub proof fn lemma_encode_concat(a: Seq<char>, b: Seq<char>)
    ensures
        encode_utf8(a + b) == encode_utf8(a) + encode_utf8(b),
    decreases a.len(),
{
    if a.len() == 0 {
        assert(a + b =~= b);
    } else {
        assert((a + b)[0] == a[0]);
        assert((a + b).drop_first() =~= a.drop_first() + b);
        lemma_encode_concat(a.drop_first(), b);
    }
}

/// ASCII text encodes one byte per character.
pub proof fn lemma_encode_ascii(s: Seq<char>)
    requires
        forall|i: int| 0 <= i < s.len() ==> (#[trigger] s[i] as u32) < 0x80,
    ensures
        encode_utf8(s).len() == s.len(),
        forall|i: int| 0 <= i < s.len() ==> #[trigger] encode_utf8(s)[i] == (s[i] as u32) as u8,
    decreases s.len(),
{
    if s.len() > 0 {
        let u = s[0] as u32;
        assert(u < 0x80);
        assert((u & 0x7F) == u) by (bit_vector)
            requires
                u < 0x80,
        ;
        assert(encode_scalar(u) =~= seq![u as u8]);
        assert forall|i: int| 0 <= i < s.len() - 1 implies (#[trigger] s.drop_first()[i] as u32) < 0x80 by {
            assert(s.drop_first()[i] == s[i + 1]);
        }
        lemma_encode_ascii(s.drop_first());
        assert forall|i: int| 0 <= i < s.len() implies #[trigger] encode_utf8(s)[i] == (s[i] as u32) as u8 by {
            if i > 0 {
                assert(s.drop_first()[i - 1] == s[i]);
            }
        }
    }
}

/// A match at `p`, and none from `i` up to `p`, makes `p` the first match from `i`.
proof fn lemma_occurrence_at(h: Seq<u8>, needle: Seq<u8>, i: int, p: int)
    requires
        0 <= i <= p,
        p + needle.len() <= h.len(),
        h.subrange(p, p + needle.len()) == needle,
        forall|j: int| i <= j < p ==> #[trigger] h.subrange(j, j + needle.len()) != needle,
    ensures
        occurrence_from(h, needle, i) == Some(p),
    decreases p - i,
{
    if i < p {
        lemma_occurrence_at(h, needle, i + 1, p);
    }
}

/// The header text of a framed message with a body of `n` bytes.
pub open spec fn length_line(n: nat) -> Seq<char> {
    "Content-Length: "@ + decimal_text(n)
}

/// Reading a framed message, followed by anything, finds exactly that
/// message: its header, then a body as long as the one framed (a body of at
/// most `MAX_DAP_MESSAGE_SIZE` bytes; larger ones are refused on reading).
pub proof fn lemma_framed_scan(body: Seq<u8>, rest: Seq<u8>)
    requires
        body.len() <= MAX_DAP_MESSAGE_SIZE,
    ensures
        scan_frame(framed(body) + rest) == (FrameScan::Complete {
            header_len: (framed(body).len() - body.len()) as nat,
            body_len: body.len(),
        }),
{
    reveal_strlit("Content-Length: ");
    reveal_strlit("\r\n\r\n");
    let n = body.len();
    let d = decimal_text(n);
    let h = length_line(n);
    let t = h + "\r\n\r\n"@;
    let hb = encode_utf8(t);
    let s = framed(body) + rest;
    lemma_decimal_digits(n);
    lemma_pow10_20();
    lemma_decimal_len(n);
    assert(h.len() == 16 + d.len());
    // The header is ASCII: one byte per character, none of them `\r` or `\n`.
    assert forall|i: int| 0 <= i < t.len() implies (#[trigger] t[i] as u32) < 0x80 by {
        if 16 <= i < h.len() {
            assert(t[i] == d[i - 16]);
            assert(is_digit_char(d[i - 16]));
        }
    }
    assert forall|i: int| 0 <= i < h.len() implies #[trigger] h[i] != '\r' && h[i] != '\n' by {
        if 16 <= i {
            assert(h[i] == d[i - 16]);
            assert(is_digit_char(d[i - 16]));
        }
    }
    lemma_encode_ascii(t);
    assert(framed(body) == hb + body);
    assert(s =~= hb + (body + rest));
    let p = h.len() as int;
    let limit: int = if s.len() < MAX_HEADER_SIZE + 4 {
        s.len() as int
    } else {
        MAX_HEADER_SIZE + 4
    };
    let w = s.take(limit);
    assert(p + 4 <= limit);
    // The separator first occurs right after the header line.
    assert(w.subrange(p, p + 4) =~= header_separator()) by {
        assert(t[p] == '\r' && t[p + 1] == '\n' && t[p + 2] == '\r' && t[p + 3] == '\n');
    }
    assert forall|j: int| 0 <= j < p implies #[trigger] w.subrange(j, j + 4) != header_separator() by {
        assert(w.subrange(j, j + 4)[0] == hb[j]);
        assert(t[j] == h[j]);
        assert(hb[j] == (h[j] as u32) as u8);
        assert(h[j] != '\r');
        assert((h[j] as u32) != 13);
    }
    lemma_occurrence_at(w, header_separator(), 0, p);
    assert(first_occurrence(w, header_separator()) == Some(p));
    // The header decodes back to the header line.
    let header = s.take(p);
    lemma_encode_concat(h, "\r\n\r\n"@);
    lemma_encode_ascii(h);
    assert(header =~= encode_utf8(h));
    encode_utf8_valid_utf8(h);
    encode_utf8_decode_utf8(h);
    assert(valid_utf8(header));
    assert(decode_utf8(header) == h);
    // It is a single line holding the length.
    lemma_first_index_of(h, '\n');
    assert(first_index_of(h, '\n') is None);
    assert(lines_of(h) == seq![h]);
    assert(h.take(16) =~= "Content-Length: "@);
    assert(h.skip(16) =~= d);
    assert(first_stripped(seq![h], "Content-Length: "@) == Some(d));
    lemma_trimmed_digits(d);
    lemma_parse_decimal(n);
    assert(s.len() >= p + 4 + n);
}

/// Reading a buffer that begins with a framed message consumes exactly that
/// message; it yields the value serde_json parses from the body when serde_json
/// accepts the body, and a JSON error otherwise. With `body` the encoding of a
/// value (`json_encoding`), this is what reading gives back of what `encode` wrote.
pub proof fn lemma_framed_decode(body: Seq<u8>, rest: Seq<u8>, r: Result<Option<serde_json::Value>, crate::error::AppError>, after: Seq<u8>)
    requires
        body.len() <= MAX_DAP_MESSAGE_SIZE,
        decode_result(framed(body) + rest, r, after),
    ensures
        after == rest,
        r is Ok <==> crate::dap::codec::json_accepts(body),
        r matches Ok(v) ==> v == Some(crate::dap::codec::json_parse(body)),
        r is Err ==> r matches Err(crate::error::AppError::Json(_)),
{
    lemma_framed_scan(body, rest);
    let s = framed(body) + rest;
    let hl = framed(body).len() - body.len();
    assert(s.skip(hl + body.len()) =~= rest);
    assert(s.subrange(hl, hl + body.len()) =~= body);
}

/// Header lines, each followed by `\r\n`.
pub open spec fn crlf_lines(ls: Seq<Seq<char>>) -> Seq<char>
    decreases ls.len(),
{
    if ls.len() == 0 {
        Seq::empty()
    } else {
        ls[0] + "\r\n"@ + crlf_lines(ls.drop_first())
    }
}

/// A header line that a reader passes over: non-empty ASCII text without
/// line breaks that does not start with `Content-Length: `.
pub open spec fn extra_header_line(l: Seq<char>) -> bool {
    &&& l.len() > 0
    &&& forall|i: int| 0 <= i < l.len() ==> (#[trigger] l[i] as u32) < 0x80 && l[i] != '\r' && l[i] != '\n'
    &&& !("Content-Length: "@.len() <= l.len() && l.take("Content-Length: "@.len() as int) == "Content-Length: "@)
}

/// Lines that a reader passes over before the length line, with room for
/// the whole header (blank line included) within `MAX_HEADER_SIZE` bytes.
pub open spec fn extra_headers_ok(extra: Seq<Seq<char>>, n: nat) -> bool {
    &&& forall|i: int| 0 <= i < extra.len() ==> extra_header_line(#[trigger] extra[i])
    &&& header_text(extra, n).len() <= MAX_HEADER_SIZE
}

/// The header of a frame with a body of `n` bytes: the extra lines, the
/// length line, and the blank line that ends the header.
pub open spec fn header_text(extra: Seq<Seq<char>>, n: nat) -> Seq<char> {
    crlf_lines(extra) + length_line(n) + "\r\n\r\n"@
}

/// A frame whose header holds `extra` lines before the length line.
pub open spec fn framed_with(extra: Seq<Seq<char>>, body: Seq<u8>) -> Seq<u8> {
    encode_utf8(header_text(extra, body.len())) + body
}

/// The first `c` in `t` is at `k` when `t[k]` is one and none comes before.
proof fn lemma_first_index_at(t: Seq<char>, c: char, k: int)
    requires
        0 <= k < t.len(),
        t[k] == c,
        forall|j: int| 0 <= j < k ==> t[j] != c,
    ensures
        first_index_of(t, c) == Some(k),
{
    lemma_first_index_of(t, c);
}

/// The lines of the extra header lines followed by one last line without a
/// line break are those lines and the last one.
proof fn lemma_lines_crlf(ls: Seq<Seq<char>>, tail: Seq<char>)
    requires
        forall|i: int| 0 <= i < ls.len() ==> extra_header_line(#[trigger] ls[i]),
        tail.len() > 0,
        forall|i: int| 0 <= i < tail.len() ==> #[trigger] tail[i] != '\n',
    ensures
        lines_of(crlf_lines(ls) + tail) == ls + seq![tail],
    decreases ls.len(),
{
    reveal_strlit("\r\n");
    if ls.len() == 0 {
        assert(crlf_lines(ls) + tail =~= tail);
        lemma_first_index_of(tail, '\n');
        assert(ls + seq![tail] =~= seq![tail]);
    } else {
        let l = ls[0];
        let rest = ls.drop_first();
        assert forall|i: int| 0 <= i < rest.len() implies extra_header_line(#[trigger] rest[i]) by {
            assert(rest[i] == ls[i + 1]);
        }
        lemma_lines_crlf(rest, tail);
        let t = crlf_lines(ls) + tail;
        let after = crlf_lines(rest) + tail;
        assert(t =~= l + "\r\n"@ + after);
        assert(extra_header_line(ls[0]));
        let k = l.len() as int + 1;
        assert forall|j: int| 0 <= j < k implies t[j] != '\n' by {
            if j < l.len() {
                assert(t[j] == l[j]);
            }
        }
        lemma_first_index_at(t, '\n', k);
        assert(t.take(k) =~= l.push('\r'));
        assert(t.take(k).drop_last() =~= l);
        assert(t.skip(k + 1) =~= after);
        assert(ls + seq![tail] =~= seq![l] + (rest + seq![tail]));
    }
}

/// Among the extra lines and then the length line, the first line starting
/// with `Content-Length: ` is the length line.
proof fn lemma_first_stripped_extra(ls: Seq<Seq<char>>, last: Seq<char>)
    requires
        forall|i: int| 0 <= i < ls.len() ==> extra_header_line(#[trigger] ls[i]),
        "Content-Length: "@.len() <= last.len(),
        last.take("Content-Length: "@.len() as int) == "Content-Length: "@,
    ensures
        first_stripped(ls + seq![last], "Content-Length: "@) == Some(
            last.skip("Content-Length: "@.len() as int),
        ),
    decreases ls.len(),
{
    if ls.len() == 0 {
        assert(ls + seq![last] =~= seq![last]);
    } else {
        let rest = ls.drop_first();
        assert forall|i: int| 0 <= i < rest.len() implies extra_header_line(#[trigger] rest[i]) by {
            assert(rest[i] == ls[i + 1]);
        }
        lemma_first_stripped_extra(rest, last);
        assert(extra_header_line(ls[0]));
        assert((ls + seq![last])[0] == ls[0]);
        assert((ls + seq![last]).drop_first() =~= rest + seq![last]);
    }
}

/// The extra lines are ASCII, and a `\r` among them is followed by `\n` and
/// then by a character that is not `\r` (the next line, or `tail`).
proof fn lemma_crlf_chars(ls: Seq<Seq<char>>, tail: Seq<char>)
    requires
        forall|i: int| 0 <= i < ls.len() ==> extra_header_line(#[trigger] ls[i]),
        tail.len() > 0,
        tail[0] != '\r',
    ensures
        forall|j: int| 0 <= j < crlf_lines(ls).len() ==> (#[trigger] crlf_lines(ls)[j] as u32) < 0x80,
        forall|j: int|
            0 <= j < crlf_lines(ls).len() && #[trigger] (crlf_lines(ls) + tail)[j] == '\r' ==> j + 2
                < (crlf_lines(ls) + tail).len() && (crlf_lines(ls) + tail)[j + 2] != '\r',
    decreases ls.len(),
{
    reveal_strlit("\r\n");
    if ls.len() > 0 {
        let l = ls[0];
        let rest = ls.drop_first();
        assert forall|i: int| 0 <= i < rest.len() implies extra_header_line(#[trigger] rest[i]) by {
            assert(rest[i] == ls[i + 1]);
        }
        lemma_crlf_chars(rest, tail);
        assert(extra_header_line(l));
        let x = crlf_lines(ls);
        let y = crlf_lines(rest);
        assert(x =~= l + "\r\n"@ + y);
        let k = l.len() as int;
        assert forall|j: int| 0 <= j < x.len() implies (#[trigger] x[j] as u32) < 0x80 by {
            if j < k {
                assert(x[j] == l[j]);
            } else if j >= k + 2 {
                assert(x[j] == y[j - k - 2]);
            }
        }
        let g = x + tail;
        let h = y + tail;
        assert(g =~= l + "\r\n"@ + h);
        assert forall|j: int| 0 <= j < x.len() && #[trigger] g[j] == '\r' implies j + 2 < g.len() && g[j
            + 2] != '\r' by {
            if j < k {
                assert(g[j] == l[j]);
            } else if j == k {
                assert(g[j + 2] == h[0]);
                if rest.len() > 0 {
                    assert(extra_header_line(rest[0]));
                    assert(y =~= rest[0] + "\r\n"@ + crlf_lines(rest.drop_first()));
                    assert(h[0] == rest[0][0]);
                } else {
                    assert(h =~= tail);
                }
            } else if j == k + 1 {
                assert(g[j] == '\n');
            } else {
                assert(g[j] == h[j - k - 2]);
                assert(g[j + 2] == h[j - k]);
            }
        }
    }
}

/// A character other than `\r` has another code than 13.
proof fn lemma_not_cr(c: char)
    requires
        c != '\r',
    ensures
        (c as u32) != 13,
{
    vstd::utf8::char_u32_cast(c, c as u32);
    vstd::utf8::char_u32_cast('\r', '\r' as u32);
}

/// No match of `needle` from `i` on makes `occurrence_from` fail.
proof fn lemma_no_occurrence(h: Seq<u8>, needle: Seq<u8>, i: int)
    requires
        0 <= i,
        forall|j: int| i <= j && j + needle.len() <= h.len() ==> #[trigger] h.subrange(j, j + needle.len()) != needle,
    ensures
        occurrence_from(h, needle, i) is None,
    decreases h.len() + 1 - i,
{
    if !(i > h.len() || i + needle.len() > h.len()) {
        lemma_no_occurrence(h, needle, i + 1);
    }
}

/// The facts about a header that reading relies on: it is ASCII, one byte
/// per character; no `\r\n\r\n` starts before the blank line; before it lie
/// the extra lines and the length line, whose value reads as `n`.
proof fn lemma_header_facts(extra: Seq<Seq<char>>, n: nat)
    requires
        extra_headers_ok(extra, n),
        n <= usize::MAX,
    ensures
        ({
            let t = header_text(extra, n);
            let p = t.len() - 4;
            let hb = encode_utf8(t);
            &&& t.len() >= 4
            &&& hb.len() == t.len()
            &&& forall|i: int| 0 <= i < t.len() ==> #[trigger] hb[i] == (t[i] as u32) as u8
            &&& forall|j: int| 0 <= j < p ==> #[trigger] hb.subrange(j, j + 4) != header_separator()
            &&& hb.subrange(p, p + 4) == header_separator()
            &&& valid_utf8(hb.take(p))
            &&& first_stripped(lines_of(decode_utf8(hb.take(p))), "Content-Length: "@) matches Some(v)
                && parse_usize(trimmed(v)) == Ok::<nat, crate::dap::header::IntErrorKind>(n)
        }),
{
    reveal_strlit("Content-Length: ");
    reveal_strlit("\r\n\r\n");
    let x = crlf_lines(extra);
    let d = decimal_text(n);
    let l = length_line(n);
    let g = x + l;
    let t = header_text(extra, n);
    assert(t =~= g + "\r\n\r\n"@);
    let p = g.len() as int;
    lemma_decimal_digits(n);
    assert(l.len() == 16 + d.len());
    assert(l[0] == 'C');
    lemma_crlf_chars(extra, l);
    assert forall|i: int| 0 <= i < l.len() implies (#[trigger] l[i] as u32) < 0x80 && l[i] != '\r' && l[i]
        != '\n' by {
        if 16 <= i {
            assert(l[i] == d[i - 16]);
            assert(is_digit_char(d[i - 16]));
        }
    }
    assert forall|i: int| 0 <= i < t.len() implies (#[trigger] t[i] as u32) < 0x80 by {
        if i < x.len() {
            assert(t[i] == x[i]);
        } else if i < p {
            assert(t[i] == l[i - x.len()]);
        }
    }
    lemma_encode_ascii(t);
    let hb = encode_utf8(t);
    assert(t[p] == '\r' && t[p + 1] == '\n' && t[p + 2] == '\r' && t[p + 3] == '\n');
    assert(hb.subrange(p, p + 4) =~= header_separator());
    assert forall|j: int| 0 <= j < p implies #[trigger] hb.subrange(j, j + 4) != header_separator() by {
        assert(hb.subrange(j, j + 4)[0] == hb[j]);
        assert(hb.subrange(j, j + 4)[2] == hb[j + 2]);
        if t[j] == '\r' {
            assert(j < x.len()) by {
                if j >= x.len() {
                    assert(t[j] == l[j - x.len()]);
                }
            }
            assert(t[j] == (x + l)[j]);
            assert(j + 2 < g.len() && g[j + 2] != '\r');
            assert(t[j + 2] == g[j + 2]);
            lemma_not_cr(t[j + 2]);
        } else {
            lemma_not_cr(t[j]);
        }
    }
    // The header before the blank line decodes to the extra lines and the length line.
    lemma_encode_concat(g, "\r\n\r\n"@);
    assert forall|i: int| 0 <= i < g.len() implies (#[trigger] g[i] as u32) < 0x80 by {
        assert(g[i] == t[i]);
    }
    lemma_encode_ascii(g);
    assert(hb.take(p) =~= encode_utf8(g));
    encode_utf8_valid_utf8(g);
    encode_utf8_decode_utf8(g);
    assert forall|i: int| 0 <= i < l.len() implies #[trigger] l[i] != '\n' by {}
    lemma_lines_crlf(extra, l);
    assert(l.take(16) =~= "Content-Length: "@);
    assert(l.skip(16) =~= d);
    lemma_first_stripped_extra(extra, l);
    lemma_trimmed_digits(d);
    lemma_parse_decimal(n);
}

/// Reading a buffer that begins with a whole header (extra lines allowed)
/// finds that header and the length it gives: the message is complete once
/// the body is all there, and incomplete before.
pub proof fn lemma_scan_after_header(extra: Seq<Seq<char>>, n: nat, s: Seq<u8>)
    requires
        extra_headers_ok(extra, n),
        n <= MAX_DAP_MESSAGE_SIZE,
        s.len() >= header_text(extra, n).len(),
        s.take(header_text(extra, n).len() as int) == encode_utf8(header_text(extra, n)),
    ensures
        scan_frame(s) == if s.len() < header_text(extra, n).len() + n {
            FrameScan::Incomplete
        } else {
            FrameScan::Complete { header_len: header_text(extra, n).len(), body_len: n }
        },
{
    lemma_header_facts(extra, n);
    let t = header_text(extra, n);
    let hb = encode_utf8(t);
    let p = t.len() - 4;
    let limit: int = if s.len() < MAX_HEADER_SIZE + 4 {
        s.len() as int
    } else {
        MAX_HEADER_SIZE + 4
    };
    let w = s.take(limit);
    assert(p + 4 <= limit);
    assert(w.subrange(p, p + 4) =~= hb.subrange(p, p + 4));
    assert forall|j: int| 0 <= j < p implies #[trigger] w.subrange(j, j + 4) != header_separator() by {
        assert(w.subrange(j, j + 4) =~= hb.subrange(j, j + 4));
    }
    lemma_occurrence_at(w, header_separator(), 0, p);
    assert(s.take(p) =~= hb.take(p));
}

/// Reading a buffer that holds only part of a frame (extra header lines
/// allowed) finds it incomplete: the answer is `None` and the buffer stays.
pub proof fn lemma_partial_frame(extra: Seq<Seq<char>>, body: Seq<u8>, k: int)
    requires
        extra_headers_ok(extra, body.len()),
        body.len() <= MAX_DAP_MESSAGE_SIZE,
        0 <= k < framed_with(extra, body).len(),
    ensures
        scan_frame(framed_with(extra, body).take(k)) == FrameScan::Incomplete,
        forall|r: Result<Option<serde_json::Value>, crate::error::AppError>, after: Seq<u8>|
            #[trigger] decode_result(framed_with(extra, body).take(k), r, after) ==> (r matches Ok(None)
                && after == framed_with(extra, body).take(k)),
{
    let n = body.len();
    let t = header_text(extra, n);
    let hb = encode_utf8(t);
    let f = framed_with(extra, body);
    let s = f.take(k);
    lemma_header_facts(extra, n);
    assert(f =~= hb + body);
    if k >= t.len() {
        assert(s.take(t.len() as int) =~= hb);
        lemma_scan_after_header(extra, n, s);
    } else {
        let p = t.len() - 4;
        assert(s.len() <= MAX_HEADER_SIZE);
        assert(s.take(s.len() as int) =~= s);
        assert forall|j: int| 0 <= j && j + header_separator().len() <= s.len() implies #[trigger] s.subrange(
            j,
            j + header_separator().len(),
        ) != header_separator() by {
            assert(j < p);
            assert(s.subrange(j, j + 4) =~= hb.subrange(j, j + 4));
        }
        lemma_no_occurrence(s, header_separator(), 0);
    }
}

/// Reading a buffer that begins with a frame (extra header lines allowed)
/// consumes exactly that frame and yields the value serde_json parses from
/// its body, or a JSON error when serde_json refuses the body; so frames
/// placed one after another are read in order.
pub proof fn lemma_framed_with_decode(
    extra: Seq<Seq<char>>,
    body: Seq<u8>,
    rest: Seq<u8>,
    r: Result<Option<serde_json::Value>, crate::error::AppError>,
    after: Seq<u8>,
)
    requires
        extra_headers_ok(extra, body.len()),
        body.len() <= MAX_DAP_MESSAGE_SIZE,
        decode_result(framed_with(extra, body) + rest, r, after),
    ensures
        after == rest,
        r is Ok <==> crate::dap::codec::json_accepts(body),
        r matches Ok(v) ==> v == Some(crate::dap::codec::json_parse(body)),
        r is Err ==> r matches Err(crate::error::AppError::Json(_)),
{
    let n = body.len();
    let t = header_text(extra, n);
    let s = framed_with(extra, body) + rest;
    assert(s.take(t.len() as int) =~= encode_utf8(t)) by {
        lemma_header_facts(extra, n);
    }
    lemma_header_facts(extra, n);
    lemma_scan_after_header(extra, n, s);
    assert(s.skip(t.len() as int + n as int) =~= rest);
    assert(s.subrange(t.len() as int, t.len() as int + n as int) =~= body);
}

} // verus!
