//! Excerpts of source text around a line, for stopped-location context.

use vstd::prelude::*;

use crate::dap::header::{lines_of, split_lines};
use crate::text::{decimal_text, chars_of, push_decimal, push_str, push_chars, string_of};

verus! {

/// `s` right-aligned in a field of `width` characters (spaces on the left).
pub open spec fn pad_left(s: Seq<char>, width: nat) -> Seq<char> {
    if s.len() >= width {
        s
    } else {
        Seq::new((width - s.len()) as nat, |i: int| ' ') + s
    }
}

/// One excerpt line: an arrow on the target line, the line number
/// right-aligned in 4 columns, a `│` and the text.
pub open spec fn excerpt_line(num: nat, target: nat, line: Seq<char>) -> Seq<char> {
    (if num == target {
        "→"@
    } else {
        " "@
    }) + " "@ + pad_left(decimal_text(num), 4) + " │ "@ + line + "\n"@
}

/// The excerpt lines for `ls[start..end]` (line numbers are 1-based).
pub open spec fn excerpt(ls: Seq<Seq<char>>, start: int, end: int, target: nat) -> Seq<char>
    decreases end - start,
{
    if start >= end || start < 0 || end > ls.len() {
        Seq::empty()
    } else {
        excerpt(ls, start, end - 1, target) + excerpt_line(end as nat, target, ls[end - 1])
    }
}

/// The window of `context_lines` lines around `target_line` (1-based) of
/// `content`, or a note when the line is out of range.
pub open spec fn source_context_text(content: Seq<char>, target_line: nat, context_lines: nat) -> Seq<
    char,
> {
    let ls = lines_of(content);
    if target_line == 0 || target_line > ls.len() {
        "[line "@ + decimal_text(target_line) + " out of range, file has "@ + decimal_text(ls.len())
            + " lines]"@
    } else {
        let start: int = if target_line >= context_lines + 1 {
            target_line - context_lines - 1
        } else {
            0
        };
        let end: int = if target_line + context_lines <= ls.len() {
            (target_line + context_lines) as int
        } else {
            ls.len() as int
        };
        excerpt(ls, start, end, target_line)
    }
}

fn push_padded_decimal(out: &mut Vec<char>, n: u64)
    ensures
        final(out)@ == old(out)@ + pad_left(decimal_text(n as nat), 4),
{
    let mut digits: Vec<char> = Vec::new();
    push_decimal(&mut digits, n);
    let mut k = digits.len();
    let ghost before = out@;
    let ghost pad = if digits@.len() >= 4 { 0 } else { 4 - digits@.len() };
    let mut i: usize = 0;
    while k < 4
        invariant
            digits@ == decimal_text(n as nat),
            k == digits@.len() + i,
            i <= pad,
            pad == (if digits@.len() >= 4 { 0 } else { 4 - digits@.len() }),
            out@ == before + Seq::new(i as nat, |j: int| ' '),
        decreases 4 - k,
    {
        out.push(' ');
        assert(Seq::new((i + 1) as nat, |j: int| ' ') == Seq::new(i as nat, |j: int| ' ').push(' '));
        i = i + 1;
        k = k + 1;
    }
    let ghost spaces = out@.skip(before.len() as int);
    push_chars(out, &digits);
    proof {
        if digits@.len() >= 4 {
            assert(Seq::new(0nat, |j: int| ' ') == Seq::<char>::empty());
            assert(out@ == before + digits@);
        } else {
            assert(out@ == before + (Seq::new((4 - digits@.len()) as nat, |j: int| ' ') + digits@));
        }
    }
}

/// Format a window of `content` around `target_line` (1-based): line
/// numbers, an arrow on the target line; a note when the line is out of range.
pub fn source_context_of(content: &str, target_line: usize, context_lines: usize) -> (r: String)
    requires
        1 <= target_line <= lines_of(content@).len() ==> context_lines < usize::MAX && target_line
            + context_lines <= usize::MAX,
    ensures
        r@ == source_context_text(content@, target_line as nat, context_lines as nat),
{
    let text = chars_of(content);
    let lines = split_lines(&text);
    let ghost ls = lines@.map_values(|l: Vec<char>| l@);
    let n = lines.len();
    let mut out: Vec<char> = Vec::new();
    if target_line == 0 || target_line > n {
        push_str(&mut out, "[line ");
        push_decimal(&mut out, target_line as u64);
        push_str(&mut out, " out of range, file has ");
        push_decimal(&mut out, n as u64);
        push_str(&mut out, " lines]");
        return string_of(&out);
    }
    let start = if target_line >= context_lines + 1 {
        target_line - context_lines - 1
    } else {
        0
    };
    let end = if target_line + context_lines <= n {
        target_line + context_lines
    } else {
        n
    };
    let mut i = start;
    while i < end
        invariant
            ls == lines@.map_values(|l: Vec<char>| l@),
            n == ls.len(),
            start <= i <= end <= n,
            out@ == excerpt(ls, start as int, i as int, target_line as nat),
        decreases end - i,
    {
        let num = i + 1;
        if num == target_line {
            push_str(&mut out, "→");
        } else {
            push_str(&mut out, " ");
        }
        push_str(&mut out, " ");
        push_padded_decimal(&mut out, num as u64);
        push_str(&mut out, " │ ");
        push_chars(&mut out, &lines[i]);
        push_str(&mut out, "\n");
        assert(ls[i as int] == lines@[i as int]@);
        i = i + 1;
    }
    string_of(&out)
}

} // verus!
