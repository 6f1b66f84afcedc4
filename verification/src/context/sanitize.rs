//! Stripping of terminal escape sequences and control characters from
//! untrusted debuggee output.

use vstd::prelude::*;

use crate::text::{chars_of, string_of};

verus! {

/// A C0 or C1 control character (Unicode general category Cc).
pub open spec fn is_control_char(c: char) -> bool {
    (c as u32) <= 0x1f || (0x7f <= (c as u32) && (c as u32) <= 0x9f)
}

/// The characters that survive sanitizing: everything but control
/// characters, except newline, carriage return and tab.
pub open spec fn is_kept_char(c: char) -> bool {
    !is_control_char(c) || c == '\n' || c == '\r' || c == '\t'
}

/// A final byte of an ANSI CSI escape sequence (`@` through `~`).
pub open spec fn is_csi_final(c: char) -> bool {
    '@' <= c && c <= '~'
}

/// The position just after the CSI sequence whose parameters begin at `j`:
/// one past the first final byte at or after `j`, or the end of input.
pub open spec fn csi_end(s: Seq<char>, j: int) -> int
    decreases s.len() - j,
{
    if j >= s.len() {
        s.len() as int
    } else if is_csi_final(s[j]) {
        j + 1
    } else {
        csi_end(s, j + 1)
    }
}

/// The end of a CSI sequence lies between its start and the end of input.
pub proof fn lemma_csi_end_bounds(s: Seq<char>, j: int)
    requires
        0 <= j,
    ensures
        j <= csi_end(s, j) || j >= s.len(),
        csi_end(s, j) <= s.len() || j > s.len(),
        csi_end(s, j) >= 0,
    decreases s.len() - j,
{
    if j < s.len() && !is_csi_final(s[j]) {
        lemma_csi_end_bounds(s, j + 1);
    }
}

/// The sanitized rendering of `s` from position `i` on: each `ESC [`
/// sequence is dropped through its final byte, and other control
/// characters except `\n`, `\r`, `\t` are dropped.
pub open spec fn sanitized_from(s: Seq<char>, i: int) -> Seq<char>
    decreases s.len() - i,
{
    if i < 0 || i >= s.len() {
        Seq::empty()
    } else if s[i] == '\x1b' && i + 1 < s.len() && s[i + 1] == '[' {
        proof {
            lemma_csi_end_bounds(s, i + 2);
        }
        sanitized_from(s, csi_end(s, i + 2))
    } else if is_kept_char(s[i]) {
        seq![s[i]] + sanitized_from(s, i + 1)
    } else {
        sanitized_from(s, i + 1)
    }
}

/// The sanitized rendering of a whole character sequence.
pub open spec fn sanitized(s: Seq<char>) -> Seq<char> {
    sanitized_from(s, 0)
}

fn is_control(c: char) -> (b: bool)
    ensures
        b == is_control_char(c),
{
    let u = c as u32;
    u <= 0x1f || (0x7f <= u && u <= 0x9f)
}

/// Strip ANSI escape codes and common control characters from untrusted debuggee output.
pub fn sanitize_debuggee_output(input: &str) -> (res: String)
    ensures
        res@ == sanitized(input@),
{
    let cs = chars_of(input);
    let n = cs.len();
    let mut out: Vec<char> = Vec::new();
    let mut i: usize = 0;
    while i < n
        invariant
            n == cs@.len(),
            cs@ == input@,
            i <= n,
            out@ + sanitized_from(cs@, i as int) == sanitized(cs@),
        decreases n - i,
    {
        let ch = cs[i];
        if ch == '\x1b' && i + 1 < n && cs[i + 1] == '[' {
            let mut j: usize = i + 2;
            while j < n && !('@' <= cs[j] && cs[j] <= '~')
                invariant
                    n == cs@.len(),
                    i + 2 <= j <= n,
                    csi_end(cs@, j as int) == csi_end(cs@, i + 2),
                decreases n - j,
            {
                j = j + 1;
            }
            if j < n {
                j = j + 1;
            }
            i = j;
        } else {
            if !is_control(ch) || ch == '\n' || ch == '\r' || ch == '\t' {
                let ghost before = out@;
                out.push(ch);
                assert(out@ + sanitized_from(cs@, i + 1) == before + (seq![ch] + sanitized_from(
                    cs@,
                    i + 1,
                )));
            }
            i = i + 1;
        }
    }
    string_of(&out)
}

/// Everything that sanitizing from position `i` emits is a kept character.
proof fn lemma_sanitized_from_kept(s: Seq<char>, i: int)
    ensures
        forall|k: int| 0 <= k < sanitized_from(s, i).len() ==> is_kept_char(#[trigger] sanitized_from(s, i)[k]),
    decreases s.len() - i,
{
    if i < 0 || i >= s.len() {
    } else if s[i] == '\x1b' && i + 1 < s.len() && s[i + 1] == '[' {
        lemma_csi_end_bounds(s, i + 2);
        lemma_sanitized_from_kept(s, csi_end(s, i + 2));
        assert(sanitized_from(s, i) == sanitized_from(s, csi_end(s, i + 2)));
    } else if is_kept_char(s[i]) {
        lemma_sanitized_from_kept(s, i + 1);
        let r = sanitized_from(s, i);
        assert forall|k: int| 0 <= k < r.len() implies is_kept_char(#[trigger] r[k]) by {
            if k > 0 {
                assert(r[k] == sanitized_from(s, i + 1)[k - 1]);
            }
        }
    } else {
        lemma_sanitized_from_kept(s, i + 1);
        assert(sanitized_from(s, i) == sanitized_from(s, i + 1));
    }
}

/// Text made only of kept characters is left as it is from position `i` on.
proof fn lemma_sanitized_from_plain(s: Seq<char>, i: int)
    requires
        0 <= i <= s.len(),
        forall|k: int| 0 <= k < s.len() ==> is_kept_char(#[trigger] s[k]),
    ensures
        sanitized_from(s, i) == s.skip(i),
    decreases s.len() - i,
{
    if i < s.len() {
        assert(is_kept_char(s[i]));
        lemma_sanitized_from_plain(s, i + 1);
        assert(seq![s[i]] + s.skip(i + 1) =~= s.skip(i));
    } else {
        assert(s.skip(i) =~= Seq::<char>::empty());
    }
}

/// Sanitized output holds no control characters other than newline,
/// carriage return and tab (so no escape sequence survives).
pub proof fn lemma_sanitized_is_clean(s: Seq<char>)
    ensures
        forall|k: int| 0 <= k < sanitized(s).len() ==> is_kept_char(#[trigger] sanitized(s)[k]),
{
    lemma_sanitized_from_kept(s, 0);
}

/// Text without control characters (other than newline, carriage return
/// and tab) passes through sanitizing unchanged.
pub proof fn lemma_sanitized_plain(s: Seq<char>)
    requires
        forall|k: int| 0 <= k < s.len() ==> is_kept_char(#[trigger] s[k]),
    ensures
        sanitized(s) == s,
{
    lemma_sanitized_from_plain(s, 0);
    assert(s.skip(0) =~= s);
}

/// Sanitizing twice is the same as sanitizing once.
pub proof fn lemma_sanitized_idempotent(s: Seq<char>)
    ensures
        sanitized(sanitized(s)) == sanitized(s),
{
    lemma_sanitized_is_clean(s);
    lemma_sanitized_plain(sanitized(s));
}

} // verus!
