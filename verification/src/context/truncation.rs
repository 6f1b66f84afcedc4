//! Truncation of long values so that they fit an agent's context window.

use vstd::prelude::*;
use vstd::utf8::{encode_scalar, encode_utf8};

use crate::json::{JsonValue, JsonView, object_insert, object_set};
use crate::text::{decimal_text, push_decimal, push_str, chars_of, string_of};

verus! {

/// Number of bytes of the UTF-8 encoding of `c`.
pub open spec fn char_width(c: char) -> nat {
    encode_scalar(c as u32).len()
}

/// Number of bytes of the UTF-8 encoding of `s`.
pub open spec fn byte_len(s: Seq<char>) -> nat {
    encode_utf8(s).len()
}

/// How many leading characters of `s` fit, encoded, in `budget` bytes:
/// the largest char boundary at or below `budget`, counted in characters.
pub open spec fn fit_count(s: Seq<char>, budget: int) -> nat
    decreases s.len(),
{
    if s.len() == 0 {
        0
    } else if char_width(s[0]) <= budget {
        1 + fit_count(s.drop_first(), budget - char_width(s[0]))
    } else {
        0
    }
}

/// `value` unchanged when it is at most `max_len` bytes long; otherwise its
/// longest prefix of at most `max_len` bytes that ends on a char boundary,
/// followed by `... [truncated, N total chars]`, N being its byte length.
pub open spec fn truncated_text(value: Seq<char>, max_len: nat) -> Seq<char> {
    if byte_len(value) <= max_len {
        value
    } else {
        value.take(fit_count(value, max_len as int) as int) + "... [truncated, "@ + decimal_text(
            byte_len(value),
        ) + " total chars]"@
    }
}

fn width_of(c: char) -> (w: usize)
    ensures
        w == char_width(c),
        1 <= w <= 4,
{
    proof {
        vstd::utf8::char_is_scalar(c);
    }
    let u = c as u32;
    if u < 0x80 {
        1
    } else if u < 0x800 {
        2
    } else if u < 0x10000 {
        3
    } else {
        4
    }
}

proof fn lemma_byte_len_step(s: Seq<char>)
    requires
        s.len() > 0,
    ensures
        byte_len(s) == char_width(s[0]) + byte_len(s.drop_first()),
{
}

/// Truncate a variable value string if it exceeds `max_len` bytes, appending an ellipsis summary.
pub fn truncate_value(value: &str, max_len: usize) -> (res: String)
    ensures
        res@ == truncated_text(value@, max_len as nat),
{
    let total = value.as_bytes().len();
    if total <= max_len {
        return value.to_owned();
    }
    let cs = chars_of(value);
    let n = cs.len();
    let mut used: usize = 0;
    let mut k: usize = 0;
    let mut out: Vec<char> = Vec::new();
    assert(cs@.skip(0) == cs@);
    while k < n && width_of(cs[k]) <= max_len - used
        invariant
            cs@ == value@,
            n == cs@.len(),
            k <= n,
            used <= max_len,
            out@ == cs@.take(k as int),
            fit_count(cs@, max_len as int) == k + fit_count(cs@.skip(k as int), max_len - used),
        decreases n - k,
    {
        let w = width_of(cs[k]);
        assert(cs@.skip(k as int).drop_first() == cs@.skip(k + 1));
        assert(cs@.skip(k as int)[0] == cs@[k as int]);
        out.push(cs[k]);
        assert(cs@.take(k + 1) == cs@.take(k as int).push(cs@[k as int]));
        used = used + w;
        k = k + 1;
    }
    assert(fit_count(cs@.skip(k as int), max_len - used) == 0) by {
        if k < n {
            assert(cs@.skip(k as int)[0] == cs@[k as int]);
        }
    }
    push_str(&mut out, "... [truncated, ");
    push_decimal(&mut out, total as u64);
    push_str(&mut out, " total chars]");
    string_of(&out)
}

/// `[Array of N items — showing first M]`
pub open spec fn array_summary_text(len: nat, max_items: nat) -> Seq<char> {
    "[Array of "@ + decimal_text(len) + " items — showing first "@ + decimal_text(max_items)
        + "]"@
}

/// `[Object with N keys — showing first M]`
pub open spec fn object_summary_text(len: nat, max_keys: nat) -> Seq<char> {
    "[Object with "@ + decimal_text(len) + " keys — showing first "@ + decimal_text(max_keys)
        + "]"@
}

/// `[Array with N items — depth limit reached]`
pub open spec fn array_depth_text(len: nat) -> Seq<char> {
    "[Array with "@ + decimal_text(len) + " items — depth limit reached]"@
}

/// `[Object with N keys — depth limit reached]`
pub open spec fn object_depth_text(len: nat) -> Seq<char> {
    "[Object with "@ + decimal_text(len) + " keys — depth limit reached]"@
}

/// An array longer than `max_items` becomes `{"_summary": .., "items": first max_items}`;
/// every other value is unchanged.
pub open spec fn summarized_array(value: JsonView, max_items: nat) -> JsonView {
    match value {
        JsonView::Array(items) => if items.len() <= max_items {
            value
        } else {
            JsonView::Object(
                seq![
                    ("_summary"@, JsonView::Str(array_summary_text(items.len(), max_items))),
                    ("items"@, JsonView::Array(items.take(max_items as int))),
                ],
            )
        },
        _ => value,
    }
}

/// An object with more than `max_keys` members keeps its first `max_keys`
/// members plus a `_summary` member; every other value is unchanged.
pub open spec fn summarized_object(value: JsonView, max_keys: nat) -> JsonView {
    match value {
        JsonView::Object(entries) => if entries.len() <= max_keys {
            value
        } else {
            JsonView::Object(
                object_set(
                    entries.take(max_keys as int),
                    "_summary"@,
                    JsonView::Str(object_summary_text(entries.len(), max_keys)),
                ),
            )
        },
        _ => value,
    }
}

/// `value` with every array or object found at depth `max_depth` (the root
/// being at depth 0) replaced by a summary string; scalars are unchanged.
pub open spec fn depth_limited(value: JsonView, max_depth: nat) -> JsonView
    decreases value,
{
    match value {
        JsonView::Array(items) => if max_depth == 0 {
            JsonView::Str(array_depth_text(items.len()))
        } else {
            JsonView::Array(
                Seq::new(
                    items.len(),
                    |i: int|
                        if 0 <= i < items.len() {
                            depth_limited(items[i], (max_depth - 1) as nat)
                        } else {
                            JsonView::Null
                        },
                ),
            )
        },
        JsonView::Object(entries) => if max_depth == 0 {
            JsonView::Str(object_depth_text(entries.len()))
        } else {
            JsonView::Object(
                Seq::new(
                    entries.len(),
                    |i: int|
                        if 0 <= i < entries.len() {
                            (entries[i].0, depth_limited(entries[i].1, (max_depth - 1) as nat))
                        } else {
                            (Seq::empty(), JsonView::Null)
                        },
                ),
            )
        },
        _ => value,
    }
}

fn summary_string(prefix: &str, len: usize, middle: &str, max: usize) -> (s: String)
    ensures
        s@ == prefix@ + decimal_text(len as nat) + middle@ + decimal_text(max as nat) + "]"@,
{
    let mut out: Vec<char> = Vec::new();
    push_str(&mut out, prefix);
    push_decimal(&mut out, len as u64);
    push_str(&mut out, middle);
    push_decimal(&mut out, max as u64);
    push_str(&mut out, "]");
    string_of(&out)
}

fn depth_string(prefix: &str, len: usize, suffix: &str) -> (s: String)
    ensures
        s@ == prefix@ + decimal_text(len as nat) + suffix@,
{
    let mut out: Vec<char> = Vec::new();
    push_str(&mut out, prefix);
    push_decimal(&mut out, len as u64);
    push_str(&mut out, suffix);
    string_of(&out)
}

/// Elements `from..to` of `items`, copied.
pub fn slice_items(items: &Vec<JsonValue>, from: usize, to: usize) -> (r: Vec<JsonValue>)
    requires
        from <= to <= items@.len(),
    ensures
        JsonValue::Array(r)@ == JsonView::Array(
            JsonValue::Array(*items)@->Array_0.subrange(from as int, to as int),
        ),
{
    let mut out: Vec<JsonValue> = Vec::new();
    for i in from..to
        invariant
            from <= to <= items@.len(),
            out@.len() == i - from,
            forall|j: int| 0 <= j < i - from ==> #[trigger] out@[j]@ == items@[j + from]@,
    {
        out.push(items[i].deep_clone());
    }
    let r = out;
    assert(JsonValue::Array(r)@->Array_0 =~= JsonValue::Array(*items)@->Array_0.subrange(
        from as int,
        to as int,
    )) by {
        assert forall|j: int| 0 <= j < to - from implies #[trigger] (JsonValue::Array(r)@->Array_0)[j]
            == JsonValue::Array(*items)@->Array_0.subrange(from as int, to as int)[j] by {
            assert(r@[j]@ == items@[j + from]@);
        }
    }
    r
}

/// Members `from..to` of `entries`, copied.
pub fn slice_entries(entries: &Vec<(String, JsonValue)>, from: usize, to: usize) -> (r: Vec<(String, JsonValue)>)
    requires
        from <= to <= entries@.len(),
    ensures
        JsonValue::Object(r)@ == JsonView::Object(
            JsonValue::Object(*entries)@->Object_0.subrange(from as int, to as int),
        ),
{
    let mut out: Vec<(String, JsonValue)> = Vec::new();
    for i in from..to
        invariant
            from <= to <= entries@.len(),
            out@.len() == i - from,
            forall|j: int| 0 <= j < i - from ==> (#[trigger] out@[j]).0@ == entries@[j + from].0@,
            forall|j: int| 0 <= j < i - from ==> (#[trigger] out@[j]).1@ == entries@[j + from].1@,
    {
        let k = entries[i].0.clone();
        let v = entries[i].1.deep_clone();
        out.push((k, v));
    }
    let r = out;
    assert(JsonValue::Object(r)@->Object_0 =~= JsonValue::Object(*entries)@->Object_0.subrange(
        from as int,
        to as int,
    )) by {
        assert forall|j: int| 0 <= j < to - from implies #[trigger] (JsonValue::Object(r)@->Object_0)[j]
            == JsonValue::Object(*entries)@->Object_0.subrange(from as int, to as int)[j] by {
            assert(r@[j].0@ == entries@[j + from].0@);
            assert(r@[j].1@ == entries@[j + from].1@);
        }
    }
    r
}

/// Summarize a JSON array that is too large for LLM context.
pub fn summarize_array(value: &JsonValue, max_items: usize) -> (r: JsonValue)
    ensures
        r@ == summarized_array(value@, max_items as nat),
{
    let items = match value {
        JsonValue::Array(items) => items,
        _ => {
            return value.deep_clone();
        },
    };
    if items.len() <= max_items {
        return value.deep_clone();
    }
    let summary = summary_string("[Array of ", items.len(), " items — showing first ", max_items);
    let preview = slice_items(items, 0, max_items);
    assert(JsonValue::Array(*items)@->Array_0.subrange(0, max_items as int) =~= JsonValue::Array(
        *items,
    )@->Array_0.take(max_items as int));
    let mut entries: Vec<(String, JsonValue)> = Vec::new();
    entries.push(("_summary".to_owned(), JsonValue::String(summary)));
    entries.push(("items".to_owned(), JsonValue::Array(preview)));
    let r = JsonValue::Object(entries);
    assert(value@->Array_0 == JsonValue::Array(*items)@->Array_0);
    assert(summary@ == array_summary_text(items@.len(), max_items as nat));
    assert(entries@[0].0@ == "_summary"@);
    assert(entries@[0].1@ == JsonView::Str(summary@));
    assert((r@->Object_0)[0] == (entries@[0].0@, entries@[0].1@));
    assert((r@->Object_0)[0] == summarized_array(value@, max_items as nat)->Object_0[0]);
    assert((r@->Object_0)[1] == summarized_array(value@, max_items as nat)->Object_0[1]);
    assert(r@->Object_0 =~= summarized_array(value@, max_items as nat)->Object_0);
    r
}

/// Summarize a JSON object that has too many keys for LLM context.
pub fn summarize_object(value: &JsonValue, max_keys: usize) -> (r: JsonValue)
    ensures
        r@ == summarized_object(value@, max_keys as nat),
{
    let entries = match value {
        JsonValue::Object(entries) => entries,
        _ => {
            return value.deep_clone();
        },
    };
    if entries.len() <= max_keys {
        return value.deep_clone();
    }
    let mut preview = slice_entries(entries, 0, max_keys);
    assert(JsonValue::Object(*entries)@->Object_0.subrange(0, max_keys as int) =~= JsonValue::Object(
        *entries,
    )@->Object_0.take(max_keys as int));
    let summary = summary_string("[Object with ", entries.len(), " keys — showing first ", max_keys);
    object_insert(&mut preview, "_summary", JsonValue::String(summary));
    JsonValue::Object(preview)
}

/// Recursively truncate JSON values beyond `max_depth`, replacing deep
/// containers with summary strings.
#[verifier::loop_isolation(false)]
pub fn truncate_nested(value: &JsonValue, max_depth: usize) -> (r: JsonValue)
    ensures
        r@ == depth_limited(value@, max_depth as nat),
    decreases value,
{
    match value {
        JsonValue::Array(items) => {
            if max_depth == 0 {
                return JsonValue::String(
                    depth_string("[Array with ", items.len(), " items — depth limit reached]"),
                );
            }
            let mut out: Vec<JsonValue> = Vec::new();
            for i in 0..items.len()
                invariant
                    out@.len() == i,
                    forall|j: int|
                        0 <= j < i ==> #[trigger] out@[j]@ == depth_limited(
                            items@[j]@,
                            (max_depth - 1) as nat,
                        ),
            {
                proof {
                    assert(decreases_to!(*value => items@[i as int]));
                }
                out.push(truncate_nested(&items[i], max_depth - 1));
            }
            let r = JsonValue::Array(out);
            assert(r@->Array_0 =~= depth_limited(value@, max_depth as nat)->Array_0) by {
                assert forall|j: int| 0 <= j < items@.len() implies #[trigger] (r@->Array_0)[j]
                    == depth_limited(value@, max_depth as nat)->Array_0[j] by {
                    assert(out@[j]@ == depth_limited(items@[j]@, (max_depth - 1) as nat));
                    assert((value@->Array_0)[j] == items@[j]@);
                }
            }
            r
        },
        JsonValue::Object(entries) => {
            if max_depth == 0 {
                return JsonValue::String(
                    depth_string("[Object with ", entries.len(), " keys — depth limit reached]"),
                );
            }
            let mut out: Vec<(String, JsonValue)> = Vec::new();
            for i in 0..entries.len()
                invariant
                    out@.len() == i,
                    forall|j: int| 0 <= j < i ==> (#[trigger] out@[j]).0@ == entries@[j].0@,
                    forall|j: int|
                        0 <= j < i ==> (#[trigger] out@[j]).1@ == depth_limited(
                            entries@[j].1@,
                            (max_depth - 1) as nat,
                        ),
            {
                proof {
                    assert(decreases_to!(*value => entries@[i as int].1));
                }
                let k = entries[i].0.clone();
                let v = truncate_nested(&entries[i].1, max_depth - 1);
                out.push((k, v));
            }
            let r = JsonValue::Object(out);
            assert(r@->Object_0 =~= depth_limited(value@, max_depth as nat)->Object_0) by {
                assert forall|j: int| 0 <= j < entries@.len() implies #[trigger] (r@->Object_0)[j]
                    == depth_limited(value@, max_depth as nat)->Object_0[j] by {
                    assert(out@[j].0@ == entries@[j].0@);
                    assert(out@[j].1@ == depth_limited(entries@[j].1@, (max_depth - 1) as nat));
                    assert((value@->Object_0)[j] == (entries@[j].0@, entries@[j].1@));
                }
            }
            r
        },
        _ => value.deep_clone(),
    }
}

/// The characters kept by truncation fit the byte budget, and the next
/// character would not: the kept prefix ends at the last char boundary at
/// or below `budget`.
pub proof fn lemma_fit_count(s: Seq<char>, budget: int)
    requires
        budget >= 0,
    ensures
        fit_count(s, budget) <= s.len(),
        byte_len(s.take(fit_count(s, budget) as int)) <= budget,
        fit_count(s, budget) < s.len() ==> byte_len(s.take(fit_count(s, budget) as int + 1)) > budget,
    decreases s.len(),
{
    if s.len() == 0 {
        assert(s.take(0) =~= Seq::<char>::empty());
    } else {
        let w = char_width(s[0]);
        let k = fit_count(s, budget);
        if w <= budget {
            let rest = s.drop_first();
            lemma_fit_count(rest, budget - w);
            let k2 = fit_count(rest, budget - w);
            assert(k == 1 + k2);
            assert(s.take(k as int).drop_first() =~= rest.take(k2 as int));
            lemma_byte_len_step(s.take(k as int));
            if k < s.len() {
                assert(s.take(k as int + 1).drop_first() =~= rest.take(k2 as int + 1));
                lemma_byte_len_step(s.take(k as int + 1));
            }
        } else {
            assert(k == 0);
            assert(s.take(0) =~= Seq::<char>::empty());
            assert(s.take(1).drop_first() =~= Seq::<char>::empty());
            lemma_byte_len_step(s.take(1));
        }
    }
}

/// A truncated value begins with the longest prefix of the input that
/// fits in `max_len` bytes and ends on a char boundary, and a value that
/// fits is returned unchanged.
pub proof fn lemma_truncation_prefix(value: Seq<char>, max_len: nat)
    ensures
        byte_len(value) <= max_len ==> truncated_text(value, max_len) == value,
        byte_len(value) > max_len ==> {
            let k = fit_count(value, max_len as int);
            &&& k < value.len()
            &&& truncated_text(value, max_len).take(k as int) == value.take(k as int)
            &&& byte_len(value.take(k as int)) <= max_len
            &&& byte_len(value.take(k as int + 1)) > max_len
        },
{
    lemma_fit_count(value, max_len as int);
    if byte_len(value) > max_len {
        let k = fit_count(value, max_len as int);
        if k == value.len() {
            assert(value.take(k as int) =~= value);
        }
        let t = truncated_text(value, max_len);
        assert(t.take(k as int) =~= value.take(k as int));
    }
}

/// Whether no array or object in `v` lies at depth `d` or deeper (the root
/// being at depth 0): scalars always qualify.
pub open spec fn within_depth(v: JsonView, d: nat) -> bool
    decreases v,
{
    match v {
        JsonView::Array(items) => d > 0 && forall|i: int|
            0 <= i < items.len() ==> within_depth(#[trigger] items[i], (d - 1) as nat),
        JsonView::Object(entries) => d > 0 && forall|i: int|
            0 <= i < entries.len() ==> within_depth(#[trigger] entries[i].1, (d - 1) as nat),
        _ => true,
    }
}

/// Depth limiting leaves nothing nested at or below the limit.
pub proof fn lemma_depth_limited_within(v: JsonView, d: nat)
    ensures
        within_depth(depth_limited(v, d), d),
    decreases v,
{
    match v {
        JsonView::Array(items) => {
            if d > 0 {
                let r = depth_limited(v, d)->Array_0;
                assert forall|i: int| 0 <= i < r.len() implies within_depth(#[trigger] r[i], (d - 1) as nat) by {
                    assert(r[i] == depth_limited(items[i], (d - 1) as nat));
                    lemma_depth_limited_within(items[i], (d - 1) as nat);
                }
            }
        },
        JsonView::Object(entries) => {
            if d > 0 {
                let r = depth_limited(v, d)->Object_0;
                assert forall|i: int| 0 <= i < r.len() implies within_depth(#[trigger] r[i].1, (d - 1) as nat) by {
                    assert(r[i].1 == depth_limited(entries[i].1, (d - 1) as nat));
                    lemma_depth_limited_within(entries[i].1, (d - 1) as nat);
                }
            }
        },
        _ => {},
    }
}

/// A value already within the depth limit is left unchanged.
pub proof fn lemma_depth_limited_shallow(v: JsonView, d: nat)
    requires
        within_depth(v, d),
    ensures
        depth_limited(v, d) == v,
    decreases v,
{
    match v {
        JsonView::Array(items) => {
            let r = depth_limited(v, d)->Array_0;
            assert forall|i: int| 0 <= i < items.len() implies r[i] == items[i] by {
                lemma_depth_limited_shallow(items[i], (d - 1) as nat);
            }
            assert(r =~= items);
        },
        JsonView::Object(entries) => {
            let r = depth_limited(v, d)->Object_0;
            assert forall|i: int| 0 <= i < entries.len() implies r[i] == entries[i] by {
                assert(within_depth(entries[i].1, (d - 1) as nat));
                lemma_depth_limited_shallow(entries[i].1, (d - 1) as nat);
            }
            assert(r =~= entries);
        },
        _ => {},
    }
}

/// Limiting the depth twice is the same as limiting it once.
pub proof fn lemma_depth_limited_idempotent(v: JsonView, d: nat)
    ensures
        depth_limited(depth_limited(v, d), d) == depth_limited(v, d),
{
    lemma_depth_limited_within(v, d);
    lemma_depth_limited_shallow(depth_limited(v, d), d);
}

/// Limiting the depth to `a` and then to `b` is limiting it to the smaller of the two.
pub proof fn lemma_depth_limited_compose(v: JsonView, a: nat, b: nat)
    ensures
        depth_limited(depth_limited(v, a), b) == depth_limited(v, if a <= b { a } else { b }),
    decreases v,
{
    let m: nat = if a <= b { a } else { b };
    match v {
        JsonView::Array(items) => {
            if a > 0 && b > 0 {
                let inner = depth_limited(v, a)->Array_0;
                let outer = depth_limited(depth_limited(v, a), b)->Array_0;
                let want = depth_limited(v, m)->Array_0;
                assert forall|i: int| 0 <= i < items.len() implies outer[i] == want[i] by {
                    assert(inner[i] == depth_limited(items[i], (a - 1) as nat));
                    lemma_depth_limited_compose(items[i], (a - 1) as nat, (b - 1) as nat);
                }
                assert(outer =~= want);
            }
        },
        JsonView::Object(entries) => {
            if a > 0 && b > 0 {
                let inner = depth_limited(v, a)->Object_0;
                let outer = depth_limited(depth_limited(v, a), b)->Object_0;
                let want = depth_limited(v, m)->Object_0;
                assert forall|i: int| 0 <= i < entries.len() implies outer[i] == want[i] by {
                    assert(inner[i].1 == depth_limited(entries[i].1, (a - 1) as nat));
                    lemma_depth_limited_compose(entries[i].1, (a - 1) as nat, (b - 1) as nat);
                }
                assert(outer =~= want);
            }
        },
        _ => {},
    }
}

} // verus!
