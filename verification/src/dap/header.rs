//! Reading the `Content-Length` out of a DAP message header.
//!
//! The header is read the way `str::lines`, `str::strip_prefix`,
//! `str::trim` and `usize::from_str` read it.

use vstd::prelude::*;

verus! {

/// A Unicode `White_Space` character (what `char::is_whitespace` accepts).
pub open spec fn is_whitespace_char(c: char) -> bool {
    let u = c as u32;
    (0x9 <= u && u <= 0xd) || u == 0x20 || u == 0x85 || u == 0xa0 || u == 0x1680 || (0x2000 <= u
        && u <= 0x200a) || u == 0x2028 || u == 0x2029 || u == 0x202f || u == 0x205f || u == 0x3000
}

/// `t` without its leading whitespace.
pub open spec fn trim_start(t: Seq<char>) -> Seq<char>
    decreases t.len(),
{
    if t.len() > 0 && is_whitespace_char(t[0]) {
        trim_start(t.drop_first())
    } else {
        t
    }
}

/// `t` without its trailing whitespace.
pub open spec fn trim_end(t: Seq<char>) -> Seq<char>
    decreases t.len(),
{
    if t.len() > 0 && is_whitespace_char(t.last()) {
        trim_end(t.drop_last())
    } else {
        t
    }
}

/// `t` without leading and trailing whitespace.
pub open spec fn trimmed(t: Seq<char>) -> Seq<char> {
    trim_end(trim_start(t))
}

/// Index of the first `c` in `t`.
pub open spec fn first_index_of(t: Seq<char>, c: char) -> Option<int>
    decreases t.len(),
{
    if t.len() == 0 {
        None
    } else if t[0] == c {
        Some(0)
    } else {
        match first_index_of(t.drop_first(), c) {
            Some(i) => Some(i + 1),
            None => None,
        }
    }
}

/// A line without the `\r` of a `\r\n` ending.
pub open spec fn strip_cr(l: Seq<char>) -> Seq<char> {
    if l.len() > 0 && l.last() == '\r' {
        l.drop_last()
    } else {
        l
    }
}

/// The lines of `t`: split after each `\n`, the ending (`\n` or `\r\n`)
/// removed; text after the last `\n`, if any, is the last line.
pub open spec fn lines_of(t: Seq<char>) -> Seq<Seq<char>>
    decreases t.len(),
{
    if t.len() == 0 {
        Seq::empty()
    } else {
        match first_index_of(t, '\n') {
            None => seq![t],
            Some(k) => if 0 <= k < t.len() {
                seq![strip_cr(t.take(k))] + lines_of(t.skip(k + 1))
            } else {
                seq![t]
            },
        }
    }
}

/// The rest of the first line that starts with `prefix`, after the prefix.
pub open spec fn first_stripped(ls: Seq<Seq<char>>, prefix: Seq<char>) -> Option<Seq<char>>
    decreases ls.len(),
{
    if ls.len() == 0 {
        None
    } else if prefix.len() <= ls[0].len() && ls[0].take(prefix.len() as int) == prefix {
        Some(ls[0].skip(prefix.len() as int))
    } else {
        first_stripped(ls.drop_first(), prefix)
    }
}

/// Why a text is not a `usize`.
#[derive(Debug, Clone, Copy, PartialEq, Eq, Structural)]
pub enum IntErrorKind {
    Empty,
    InvalidDigit,
    PosOverflow,
}

/// An ASCII decimal digit.
pub open spec fn is_digit_char(c: char) -> bool {
    '0' <= c && c <= '9'
}

/// Reading decimal digits `d` left to right onto `acc`: the first
/// non-digit is an invalid digit, a value above `usize::MAX` an overflow.
pub open spec fn parse_digits(d: Seq<char>, acc: nat) -> Result<nat, IntErrorKind>
    decreases d.len(),
{
    if d.len() == 0 {
        Ok(acc)
    } else if !is_digit_char(d[0]) {
        Err(IntErrorKind::InvalidDigit)
    } else {
        let v = acc * 10 + ((d[0] as u32) - 48);
        if v > usize::MAX {
            Err(IntErrorKind::PosOverflow)
        } else {
            parse_digits(d.drop_first(), v as nat)
        }
    }
}

/// A text read as a `usize`: optional `+`, then one or more decimal digits.
pub open spec fn parse_usize(t: Seq<char>) -> Result<nat, IntErrorKind> {
    if t.len() == 0 {
        Err(IntErrorKind::Empty)
    } else if (t[0] == '+' || t[0] == '-') && t.len() == 1 {
        Err(IntErrorKind::InvalidDigit)
    } else if t[0] == '+' {
        parse_digits(t.drop_first(), 0)
    } else {
        parse_digits(t, 0)
    }
}

/// The message of an integer-parsing error.
pub open spec fn int_error_text(k: IntErrorKind) -> Seq<char> {
    match k {
        IntErrorKind::Empty => "cannot parse integer from empty string"@,
        IntErrorKind::InvalidDigit => "invalid digit found in string"@,
        IntErrorKind::PosOverflow => "number too large to fit in target type"@,
    }
}

fn is_whitespace(c: char) -> (b: bool)
    ensures
        b == is_whitespace_char(c),
{
    let u = c as u32;
    (0x9 <= u && u <= 0xd) || u == 0x20 || u == 0x85 || u == 0xa0 || u == 0x1680 || (0x2000 <= u
        && u <= 0x200a) || u == 0x2028 || u == 0x2029 || u == 0x202f || u == 0x205f || u == 0x3000
}

/// `t[lo..hi]` copied.
pub fn sub_chars(t: &Vec<char>, lo: usize, hi: usize) -> (r: Vec<char>)
    requires
        lo <= hi <= t@.len(),
    ensures
        r@ == t@.subrange(lo as int, hi as int),
{
    let mut r: Vec<char> = Vec::new();
    let mut i = lo;
    while i < hi
        invariant
            lo <= i <= hi <= t@.len(),
            r@ == t@.subrange(lo as int, i as int),
        decreases hi - i,
    {
        r.push(t[i]);
        assert(t@.subrange(lo as int, i + 1) == t@.subrange(lo as int, i as int).push(t@[i as int]));
        i = i + 1;
    }
    r
}

proof fn lemma_trim_start_skip(t: Seq<char>, i: int)
    requires
        0 <= i <= t.len(),
        forall|j: int| 0 <= j < i ==> is_whitespace_char(t[j]),
    ensures
        trim_start(t) == trim_start(t.skip(i)),
    decreases i,
{
    if i > 0 {
        assert(t.skip(i - 1).drop_first() == t.skip(i));
        lemma_trim_start_skip(t, i - 1);
    } else {
        assert(t.skip(0) == t);
    }
}

proof fn lemma_trim_end_take(t: Seq<char>, j: int)
    requires
        0 <= j <= t.len(),
        forall|k: int| j <= k < t.len() ==> is_whitespace_char(t[k]),
    ensures
        trim_end(t) == trim_end(t.take(j)),
    decreases t.len() - j,
{
    if j < t.len() {
        assert(t.take(j + 1).drop_last() == t.take(j));
        lemma_trim_end_take(t, j + 1);
    } else {
        assert(t.take(j) == t);
    }
}

/// `t` without leading and trailing whitespace (std `str::trim`).
pub fn trim(t: &Vec<char>) -> (r: Vec<char>)
    ensures
        r@ == trimmed(t@),
{
    let n = t.len();
    let mut i: usize = 0;
    while i < n && is_whitespace(t[i])
        invariant
            i <= n == t@.len(),
            forall|j: int| 0 <= j < i ==> is_whitespace_char(t@[j]),
        decreases n - i,
    {
        i = i + 1;
    }
    proof {
        lemma_trim_start_skip(t@, i as int);
    }
    let ghost s = t@.skip(i as int);
    assert(!(s.len() > 0 && is_whitespace_char(s[0])));
    let mut j: usize = n;
    while j > i && is_whitespace(t[j - 1])
        invariant
            i <= j <= n == t@.len(),
            forall|k: int| j <= k < n ==> is_whitespace_char(t@[k]),
        decreases j,
    {
        j = j - 1;
    }
    proof {
        assert(trim_start(t@) == s);
        lemma_trim_end_take(s, j - i);
        assert(s.take(j - i) == t@.subrange(i as int, j as int));
        let u = s.take(j - i);
        if u.len() > 0 {
            assert(u.last() == t@[j - 1]);
        }
    }
    sub_chars(t, i, j)
}

/// `first_index_of` finds the first occurrence, and fails exactly when there is none.
pub proof fn lemma_first_index_of(t: Seq<char>, c: char)
    ensures
        first_index_of(t, c) matches Some(k) ==> 0 <= k < t.len() && t[k] == c && forall|j: int|
            0 <= j < k ==> t[j] != c,
        first_index_of(t, c) is None ==> forall|j: int| 0 <= j < t.len() ==> t[j] != c,
    decreases t.len(),
{
    if t.len() > 0 {
        lemma_first_index_of(t.drop_first(), c);
        assert forall|j: int| 0 < j < t.len() implies t[j] == t.drop_first()[j - 1] by {}
    }
}

/// Whether `prefix` begins `t` at position `lo` and ends before `hi`.
fn has_prefix_at(t: &Vec<char>, lo: usize, hi: usize, prefix: &Vec<char>) -> (b: bool)
    requires
        lo <= hi <= t@.len(),
    ensures
        b == (prefix@.len() <= hi - lo && t@.subrange(lo as int, hi as int).take(
            prefix@.len() as int,
        ) == prefix@),
{
    if prefix.len() > hi - lo {
        return false;
    }
    let mut i: usize = 0;
    while i < prefix.len()
        invariant
            lo <= hi <= t@.len(),
            prefix@.len() <= hi - lo,
            i <= prefix@.len(),
            forall|j: int| 0 <= j < i ==> t@[lo + j] == prefix@[j],
        decreases prefix.len() - i,
    {
        if t[lo + i] != prefix[i] {
            assert(t@.subrange(lo as int, hi as int).take(prefix@.len() as int)[i as int] != prefix@[i as int]);
            return false;
        }
        i = i + 1;
    }
    assert(t@.subrange(lo as int, hi as int).take(prefix@.len() as int) =~= prefix@);
    true
}

/// The rest of the first line of `t` that starts with `prefix` (std
/// `lines().find_map(|l| l.strip_prefix(prefix))`).
pub fn find_prefixed_line(t: &Vec<char>, prefix: &Vec<char>) -> (r: Option<Vec<char>>)
    ensures
        r matches Some(v) ==> first_stripped(lines_of(t@), prefix@) == Some(v@),
        r is None ==> first_stripped(lines_of(t@), prefix@) is None,
{
    let n = t.len();
    let mut start: usize = 0;
    assert(t@.skip(0) == t@);
    while start < n
        invariant
            start <= n == t@.len(),
            first_stripped(lines_of(t@), prefix@) == first_stripped(lines_of(t@.skip(start as int)), prefix@),
        decreases n - start,
    {
        let ghost u = t@.skip(start as int);
        let mut k = start;
        while k < n && t[k] != '\n'
            invariant
                start <= k <= n == t@.len(),
                u == t@.skip(start as int),
                forall|j: int| start <= j < k ==> t@[j] != '\n',
            decreases n - k,
        {
            k = k + 1;
        }
        proof {
            lemma_first_index_of(u, '\n');
            if k < n {
                assert(u[k - start] == '\n');
                assert(first_index_of(u, '\n') == Some(k - start));
            } else {
                assert(forall|j: int| 0 <= j < u.len() ==> u[j] != '\n');
            }
        }
        let mut hi = k;
        if hi > start && t[hi - 1] == '\r' && k < n {
            hi = hi - 1;
        }
        let ghost line = if k < n { strip_cr(u.take(k - start)) } else { u };
        proof {
            assert(u.take(k - start) == t@.subrange(start as int, k as int));
            assert(line == t@.subrange(start as int, hi as int));
            if k < n {
                assert(lines_of(u) == seq![line] + lines_of(u.skip(k - start + 1)));
                assert(u.skip(k - start + 1) == t@.skip(k + 1));
            } else {
                assert(lines_of(u) == seq![line]);
            }
            assert((seq![line] + lines_of(t@.skip(k + 1)))[0] == line);
            assert((seq![line] + lines_of(t@.skip(k + 1))).drop_first() == lines_of(t@.skip(k + 1)));
        }
        if has_prefix_at(t, start, hi, prefix) {
            let rest = sub_chars(t, start + prefix.len(), hi);
            assert(rest@ == line.skip(prefix@.len() as int));
            return Some(rest);
        }
        if k >= n {
            assert(first_stripped(lines_of(u), prefix@) is None) by {
                let ls = seq![line];
                assert(ls.drop_first() == Seq::<Seq<char>>::empty());
                assert(first_stripped(Seq::<Seq<char>>::empty(), prefix@) is None);
                assert(ls[0] == line);
                assert(first_stripped(ls, prefix@) == first_stripped(ls.drop_first(), prefix@));
            }
            return None;
        }
        start = k + 1;
    }
    assert(t@.skip(start as int) == Seq::<char>::empty());
    None
}

/// Reads a text as a `usize` (std `usize::from_str`).
pub fn parse_usize_chars(t: &Vec<char>) -> (r: Result<usize, IntErrorKind>)
    ensures
        r matches Ok(v) ==> parse_usize(t@) == Ok::<nat, IntErrorKind>(v as nat),
        r matches Err(k) ==> parse_usize(t@) == Err::<nat, IntErrorKind>(k),
{
    let n = t.len();
    if n == 0 {
        return Err(IntErrorKind::Empty);
    }
    if (t[0] == '+' || t[0] == '-') && n == 1 {
        return Err(IntErrorKind::InvalidDigit);
    }
    let mut i: usize = if t[0] == '+' {
        1
    } else {
        0
    };
    let ghost d = if t@[0] == '+' { t@.drop_first() } else { t@ };
    assert(d == t@.skip(i as int));
    let mut acc: usize = 0;
    while i < n
        invariant
            i <= n == t@.len(),
            parse_usize(t@) == parse_digits(t@.skip(i as int), acc as nat),
        decreases n - i,
    {
        let c = t[i];
        assert(t@.skip(i as int)[0] == c);
        assert(t@.skip(i as int).drop_first() == t@.skip(i + 1));
        if !('0' <= c && c <= '9') {
            return Err(IntErrorKind::InvalidDigit);
        }
        let dv = ((c as u32) - 48) as usize;
        match acc.checked_mul(10) {
            None => {
                return Err(IntErrorKind::PosOverflow);
            },
            Some(m) => match m.checked_add(dv) {
                None => {
                    return Err(IntErrorKind::PosOverflow);
                },
                Some(v) => {
                    acc = v;
                },
            },
        }
        i = i + 1;
    }
    assert(t@.skip(i as int).len() == 0);
    Ok(acc)
}
/// The lines of `t` (std `str::lines`, collected).
pub fn split_lines(t: &Vec<char>) -> (r: Vec<Vec<char>>)
    ensures
        r@.map_values(|l: Vec<char>| l@) == lines_of(t@),
{
    let n = t.len();
    let mut out: Vec<Vec<char>> = Vec::new();
    let mut start: usize = 0;
    assert(t@.skip(0) == t@);
    while start < n
        invariant
            start <= n == t@.len(),
            out@.map_values(|l: Vec<char>| l@) + lines_of(t@.skip(start as int)) == lines_of(t@),
        decreases n - start,
    {
        let ghost u = t@.skip(start as int);
        let mut k = start;
        while k < n && t[k] != '\n'
            invariant
                start <= k <= n == t@.len(),
                u == t@.skip(start as int),
                forall|j: int| start <= j < k ==> t@[j] != '\n',
            decreases n - k,
        {
            k = k + 1;
        }
        proof {
            lemma_first_index_of(u, '\n');
            if k < n {
                assert(u[k - start] == '\n');
                assert(first_index_of(u, '\n') == Some(k - start));
            } else {
                assert(forall|j: int| 0 <= j < u.len() ==> u[j] != '\n');
            }
        }
        let mut hi = k;
        if hi > start && t[hi - 1] == '\r' && k < n {
            hi = hi - 1;
        }
        let ghost line = if k < n { strip_cr(u.take(k - start)) } else { u };
        let ghost before = out@.map_values(|l: Vec<char>| l@);
        let piece = sub_chars(t, start, hi);
        proof {
            assert(u.take(k - start) == t@.subrange(start as int, k as int));
            assert(piece@ == line);
            if k < n {
                assert(lines_of(u) == seq![line] + lines_of(u.skip(k - start + 1)));
                assert(u.skip(k - start + 1) == t@.skip(k + 1));
            } else {
                assert(lines_of(u) == seq![line]);
                assert(t@.skip(n as int) == Seq::<char>::empty());
            }
        }
        out.push(piece);
        assert(out@.map_values(|l: Vec<char>| l@) == before.push(line));
        if k >= n {
            assert(before.push(line) == before + seq![line]);
            assert(lines_of(t@.skip(n as int)) == Seq::<Seq<char>>::empty());
            assert(before.push(line) + Seq::<Seq<char>>::empty() == before.push(line));
            return out;
        }
        assert(before + (seq![line] + lines_of(t@.skip(k + 1))) == before.push(line) + lines_of(
            t@.skip(k + 1),
        ));
        start = k + 1;
    }
    assert(t@.skip(start as int) == Seq::<char>::empty());
    assert(out@.map_values(|l: Vec<char>| l@) + Seq::<Seq<char>>::empty() == out@.map_values(|l: Vec<char>| l@));
    out
}
} // verus!
