//! Inspection: call stacks, scopes, evaluation, and paging through large results.

use vstd::prelude::*;

use crate::context::sanitize::{sanitize_debuggee_output, sanitized};
use crate::context::truncation::{truncate_value, truncated_text};
use crate::dap::header::{parse_usize, parse_usize_chars};
use crate::json::{JsonValue, JsonView, object_insert, object_set, str_eq, json_text, push_json_text, keys_sorted, lemma_object_set_sorted, lemma_find_key_at};
use crate::services::event_loop::or_else;
use crate::text::{chars_of, push_str, push_decimal, push_signed_decimal, string_of, decimal_text, signed_decimal_text};
use crate::services::event_loop::{int_json, int_number};
use crate::json::{JsonNumber, NumberView};
use crate::error::AppError;

verus! {

/// Parameters of the get-stack tool.
#[derive(Debug)]
pub struct GetStackParams {
    /// Thread ID. Uses first available thread if omitted.
    pub thread_id: Option<i64>,
    /// Maximum number of frames to return.
    pub max_frames: usize,
}

/// The default number of stack frames fetched.
pub fn default_max_frames() -> (n: usize)
    ensures
        n == 20,
{
    20
}

/// Parameters of the evaluate tool.
#[derive(Debug)]
pub struct EvaluateParams {
    /// Expression to evaluate in the current frame.
    pub expression: String,
    /// Frame ID for evaluation context. Uses top frame if omitted.
    pub frame_id: Option<i64>,
}

/// Parameters of the get-page tool.
#[derive(Debug)]
pub struct GetPageParams {
    /// Pagination token from a previous truncated result.
    pub token: String,
    /// 0-based offset into the collection. Defaults to the next page after the initial result.
    pub offset: Option<usize>,
    /// Maximum items to return. Defaults to config `max_array_items` / `max_object_keys`.
    pub limit: Option<usize>,
}

/// Whether `s` starts with `p`.
pub open spec fn starts_with(s: Seq<char>, p: Seq<char>) -> bool {
    p.len() <= s.len() && s.take(p.len() as int) == p
}

/// Whether `s` ends with `p`.
pub open spec fn ends_with(s: Seq<char>, p: Seq<char>) -> bool {
    p.len() <= s.len() && s.skip(s.len() - p.len()) == p
}

/// Adapter bookkeeping children that are hidden from the agent: debugpy's
/// `special variables`, `function variables`, `len()` and dunder names.
pub open spec fn is_internal_name(name: Seq<char>) -> bool {
    name == "special variables"@ || name == "function variables"@ || name == "len()"@ || (
    starts_with(name, "__"@) && ends_with(name, "__"@))
}

/// The name of a DAP variable (empty when missing).
pub open spec fn var_name(v: JsonView) -> Seq<char> {
    or_else(v.get_str("name"@), Seq::empty())
}

/// The variables that are shown, in order.
pub open spec fn visible(vars: Seq<JsonView>) -> Seq<JsonView>
    decreases vars.len(),
{
    if vars.len() == 0 {
        vars
    } else if is_internal_name(var_name(vars.last())) {
        visible(vars.drop_last())
    } else {
        visible(vars.drop_last()).push(vars.last())
    }
}

fn has_prefix(s: &Vec<char>, p: &Vec<char>) -> (b: bool)
    ensures
        b == starts_with(s@, p@),
{
    if p.len() > s.len() {
        return false;
    }
    let mut i: usize = 0;
    while i < p.len()
        invariant
            p@.len() <= s@.len(),
            i <= p@.len(),
            forall|j: int| 0 <= j < i ==> s@[j] == p@[j],
        decreases p.len() - i,
    {
        if s[i] != p[i] {
            assert(s@.take(p@.len() as int)[i as int] != p@[i as int]);
            return false;
        }
        i = i + 1;
    }
    assert(s@.take(p@.len() as int) =~= p@);
    true
}

fn has_suffix(s: &Vec<char>, p: &Vec<char>) -> (b: bool)
    ensures
        b == ends_with(s@, p@),
{
    if p.len() > s.len() {
        return false;
    }
    let n = s.len();
    let off = n - p.len();
    let mut i: usize = 0;
    while i < p.len()
        invariant
            n == s@.len(),
            p@.len() <= s@.len(),
            off == s@.len() - p@.len(),
            i <= p@.len(),
            forall|j: int| 0 <= j < i ==> s@[off + j] == p@[j],
        decreases p.len() - i,
    {
        if s[off + i] != p[i] {
            assert(s@.skip(off as int)[i as int] != p@[i as int]);
            return false;
        }
        i = i + 1;
    }
    assert(s@.skip(off as int) =~= p@);
    true
}

/// Whether a variable name is adapter bookkeeping (see [`is_internal_name`]).
pub fn is_internal(name: &str) -> (b: bool)
    ensures
        b == is_internal_name(name@),
{
    if str_eq(name, "special variables") || str_eq(name, "function variables") || str_eq(name, "len()") {
        return true;
    }
    let n = chars_of(name);
    let u = chars_of("__");
    has_prefix(&n, &u) && has_suffix(&n, &u)
}

fn name_of(v: &JsonValue) -> (r: &str)
    ensures
        r@ == var_name(v@),
{
    proof {
        reveal_strlit("");
    }
    match v.get_str("name") {
        Some(n) => n,
        None => "",
    }
}

/// The shown variables of a list (see [`visible`]), copied.
pub fn visible_variables(vars: &Vec<JsonValue>) -> (r: Vec<JsonValue>)
    ensures
        JsonValue::Array(r)@ == JsonView::Array(visible(JsonValue::Array(*vars)@->Array_0)),
{
    let ghost vv = JsonValue::Array(*vars)@->Array_0;
    let mut out: Vec<JsonValue> = Vec::new();
    for i in 0..vars.len()
        invariant
            vv == JsonValue::Array(*vars)@->Array_0,
            JsonValue::Array(out)@->Array_0 == visible(vv.take(i as int)),
    {
        let ghost prev = JsonValue::Array(out)@->Array_0;
        assert(vv[i as int] == vars@[i as int]@);
        assert(vv.take(i + 1).drop_last() == vv.take(i as int));
        assert(vv.take(i + 1).last() == vars@[i as int]@);
        if !is_internal(name_of(&vars[i])) {
            let ghost before = out@;
            out.push(vars[i].deep_clone());
            assert(JsonValue::Array(out)@->Array_0 =~= prev.push(vars@[i as int]@)) by {
                assert forall|j: int| 0 <= j < before.len() implies out@[j] == before[j] by {}
            }
        }
    }
    assert(vv.take(vars.len() as int) == vv);
    let r = out;
    assert(JsonValue::Array(r)@ == JsonView::Array(JsonValue::Array(r)@->Array_0));
    r
}

/// How a child variable is shown: `{"type": .., "value": ..}`, the value
/// sanitized and truncated to `max_len` bytes.
pub open spec fn child_entry(c: JsonView, max_len: nat) -> JsonView {
    JsonView::Object(
        seq![
            ("type"@, JsonView::Str(or_else(c.get_str("type"@), ""@))),
            (
                "value"@,
                JsonView::Str(truncated_text(sanitized(or_else(c.get_str("value"@), ""@)), max_len)),
            ),
        ],
    )
}

/// The member name of a child variable: its sanitized name, `?` when missing.
pub open spec fn child_key(c: JsonView) -> Seq<char> {
    sanitized(or_else(c.get_str("name"@), "?"@))
}

/// The members built from children `cs`, each set in turn (a later child
/// with the same name replaces an earlier one).
pub open spec fn child_members(cs: Seq<JsonView>, max_len: nat) -> Seq<(Seq<char>, JsonView)>
    decreases cs.len(),
{
    if cs.len() == 0 {
        Seq::empty()
    } else {
        object_set(child_members(cs.drop_last(), max_len), child_key(cs.last()), child_entry(cs.last(), max_len))
    }
}

/// Whether a child's name reads as a `usize` index.
pub open spec fn has_index_name(c: JsonView) -> bool {
    match c.get_str("name"@) {
        Some(n) => parse_usize(n) is Ok,
        None => false,
    }
}

/// Whether every child's name reads as a `usize` index.
pub open spec fn all_indexed(cs: Seq<JsonView>) -> bool {
    forall|i: int| 0 <= i < cs.len() ==> has_index_name(#[trigger] cs[i])
}

/// Whether the children form an array: by the adapter's indexed/named
/// counts when they decide, else by all names being indices.
pub open spec fn array_like(cs: Seq<JsonView>, indexed: Option<i64>, named: Option<i64>) -> bool {
    match (indexed, named) {
        (Some(idx), Some(nm)) => if idx > 0 && nm == 0 {
            true
        } else if nm > 0 {
            false
        } else {
            all_indexed(cs)
        },
        _ => all_indexed(cs),
    }
}

/// The structured value of a compound variable from its `variables`
/// response body: `None` when no child is shown, else an array of child
/// entries or an object keyed by child name, with whether it is an array.
pub open spec fn children_view(body: JsonView, indexed: Option<i64>, named: Option<i64>, max_len: nat) -> Option<(JsonView, bool)> {
    let cs = visible(or_else(body.get_array("variables"@), Seq::empty()));
    if cs.len() == 0 {
        None
    } else if array_like(cs, indexed, named) {
        Some((JsonView::Array(cs.map_values(|c: JsonView| child_entry(c, max_len))), true))
    } else {
        Some((JsonView::Object(child_members(cs, max_len)), false))
    }
}

fn text_of<'a>(v: &'a JsonValue, key: &str, default: &'a str) -> (r: &'a str)
    ensures
        r@ == or_else(v@.get_str(key@), default@),
{
    match v.get_str(key) {
        Some(t) => t,
        None => default,
    }
}

fn child_entry_of(c: &JsonValue, max_len: usize) -> (r: JsonValue)
    ensures
        r@ == child_entry(c@, max_len as nat),
{
    let value = sanitize_debuggee_output(text_of(c, "value", ""));
    let typ = text_of(c, "type", "");
    let mut members: Vec<(String, JsonValue)> = Vec::new();
    members.push(("type".to_owned(), JsonValue::String(typ.to_owned())));
    members.push(("value".to_owned(), JsonValue::String(truncate_value(value.as_str(), max_len))));
    let r = JsonValue::Object(members);
    proof {
        let mv = r@->Object_0;
        assert forall|k: int| 0 <= k < 2 implies mv[k] == (members@[k].0@, members@[k].1@) by {}
        assert(mv =~= child_entry(c@, max_len as nat)->Object_0);
    }
    r
}

fn all_names_indexed(cs: &Vec<JsonValue>) -> (b: bool)
    ensures
        b == all_indexed(JsonValue::Array(*cs)@->Array_0),
{
    let ghost cv = JsonValue::Array(*cs)@->Array_0;
    for i in 0..cs.len()
        invariant
            cv == JsonValue::Array(*cs)@->Array_0,
            forall|j: int| 0 <= j < i ==> has_index_name(#[trigger] cv[j]),
    {
        assert(cv[i as int] == cs@[i as int]@);
        match cs[i].get_str("name") {
            None => {
                return false;
            },
            Some(n) => {
                let chars = chars_of(n);
                if parse_usize_chars(&chars).is_err() {
                    return false;
                }
            },
        }
    }
    true
}

/// The structured value of a compound variable (see [`children_view`]).
pub fn children_value(body: &JsonValue, indexed: Option<i64>, named: Option<i64>, max_len: usize) -> (r: Option<(JsonValue, bool)>)
    ensures
        match r {
            Some((v, a)) => children_view(body@, indexed, named, max_len as nat) == Some((v@, a)),
            None => children_view(body@, indexed, named, max_len as nat) is None,
        },
{
    let empty: Vec<JsonValue> = Vec::new();
    let vars: &Vec<JsonValue> = match body.get("variables") {
        Some(v) => match v.as_array() {
            Some(a) => a,
            None => &empty,
        },
        None => &empty,
    };
    assert(JsonValue::Array(*vars)@->Array_0 =~= or_else(body@.get_array("variables"@), Seq::empty()));
    let cs = visible_variables(vars);
    let ghost cv = JsonValue::Array(cs)@->Array_0;
    if cs.len() == 0 {
        return None;
    }
    let is_array = match (indexed, named) {
        (Some(idx), Some(nm)) => if idx > 0 && nm == 0 {
            true
        } else if nm > 0 {
            false
        } else {
            all_names_indexed(&cs)
        },
        _ => all_names_indexed(&cs),
    };
    if is_array {
        let mut out: Vec<JsonValue> = Vec::new();
        for i in 0..cs.len()
            invariant
                cv == JsonValue::Array(cs)@->Array_0,
                out@.len() == i,
                forall|j: int| 0 <= j < i ==> #[trigger] out@[j]@ == child_entry(cv[j], max_len as nat),
        {
            assert(cv[i as int] == cs@[i as int]@);
            out.push(child_entry_of(&cs[i], max_len));
        }
        let v = JsonValue::Array(out);
        assert(v@->Array_0 =~= cv.map_values(|c: JsonView| child_entry(c, max_len as nat))) by {
            assert forall|j: int| 0 <= j < cv.len() implies (v@->Array_0)[j] == cv.map_values(|c: JsonView| child_entry(c, max_len as nat))[j] by {
                assert(out@[j]@ == child_entry(cv[j], max_len as nat));
            }
        }
        Some((v, true))
    } else {
        let mut members: Vec<(String, JsonValue)> = Vec::new();
        assert(JsonValue::Object(members)@->Object_0 =~= child_members(cv.take(0), max_len as nat));
        for i in 0..cs.len()
            invariant
                cv == JsonValue::Array(cs)@->Array_0,
                JsonValue::Object(members)@->Object_0 == child_members(cv.take(i as int), max_len as nat),
        {
            assert(cv[i as int] == cs@[i as int]@);
            assert(cv.take(i + 1).drop_last() == cv.take(i as int));
            assert(cv.take(i + 1).last() == cv[i as int]);
            let key = sanitize_debuggee_output(text_of(&cs[i], "name", "?"));
            let entry = child_entry_of(&cs[i], max_len);
            object_insert(&mut members, key.as_str(), entry);
        }
        assert(cv.take(cs.len() as int) == cv);
        let v = JsonValue::Object(members);
        Some((v, false))
    }
}

/// Where a page sits in a paginated collection.
#[derive(Debug)]
pub struct PaginationMeta {
    pub token: String,
    pub total: usize,
    pub offset: usize,
    pub end: usize,
}

/// Mathematical view of pagination metadata.
pub struct MetaView {
    pub token: Seq<char>,
    pub total: nat,
    pub offset: nat,
    pub end: nat,
}

impl PaginationMeta {
    pub open spec fn view(&self) -> MetaView {
        MetaView {
            token: self.token@,
            total: self.total as nat,
            offset: self.offset as nat,
            end: self.end as nat,
        }
    }
}

/// The view of optional pagination metadata.
pub open spec fn meta_view(p: Option<&PaginationMeta>) -> Option<MetaView> {
    match p {
        Some(m) => Some(m@),
        None => None,
    }
}

/// The text after an entry's label: for `{"value", "type"}` objects the value
/// and, when non-empty, the type in parentheses; strings as they are; other
/// values as JSON.
pub open spec fn entry_value_text(val: JsonView) -> Seq<char> {
    match val {
        JsonView::Object(_) => {
            let v = or_else(val.get_str("value"@), ""@);
            let t = or_else(val.get_str("type"@), ""@);
            if t.len() == 0 {
                v + "\n"@
            } else {
                v + " ("@ + t + ")\n"@
            }
        },
        JsonView::Str(text) => text + "\n"@,
        _ => json_text(val) + "\n"@,
    }
}

/// One entry line: `[key] ...` for arrays, `key: ...` for objects.
pub open spec fn entry_line_text(is_array: bool, key: Seq<char>, val: JsonView) -> Seq<char> {
    (if is_array {
        "["@ + key + "] "@
    } else {
        key + ": "@
    }) + entry_value_text(val)
}

/// The entry lines of array items, numbered from `base`.
pub open spec fn array_lines(items: Seq<JsonView>, base: nat) -> Seq<char>
    decreases items.len(),
{
    if items.len() == 0 {
        Seq::empty()
    } else {
        array_lines(items.drop_last(), base) + entry_line_text(
            true,
            decimal_text((base + items.len() - 1) as nat),
            items.last(),
        )
    }
}

/// Whether an object member is bookkeeping added by summarizing.
pub open spec fn is_meta_key(k: Seq<char>) -> bool {
    k == "_summary"@ || k == "_pagination"@
}

/// The entry lines of object members, bookkeeping members left out.
pub open spec fn object_lines(entries: Seq<(Seq<char>, JsonView)>) -> Seq<char>
    decreases entries.len(),
{
    if entries.len() == 0 {
        Seq::empty()
    } else if is_meta_key(entries.last().0) {
        object_lines(entries.drop_last())
    } else {
        object_lines(entries.drop_last()) + entry_line_text(false, entries.last().0, entries.last().1)
    }
}

/// Compact text of a compound value: a header `expr (type, N items|keys
/// [, showing a..b]) [page: token]` then one line per entry.
pub open spec fn compact_text(value: JsonView, is_array: bool, expression: Seq<char>, value_type: Seq<char>, p: Option<MetaView>) -> Seq<char> {
    let total: nat = match p {
        Some(m) => m.total,
        None => if is_array {
            or_else(value.as_array(), Seq::empty()).len()
        } else {
            or_else(value.as_object(), Seq::empty()).len()
        },
    };
    let header = expression + " ("@ + value_type + ", "@ + decimal_text(total) + (if is_array {
        " items"@
    } else {
        " keys"@
    }) + (match p {
        Some(m) => ", showing "@ + decimal_text(m.offset) + ".."@ + decimal_text(m.end),
        None => Seq::empty(),
    }) + ")"@ + (match p {
        Some(m) => " [page: "@ + m.token + "]"@,
        None => Seq::empty(),
    }) + "\n"@;
    let body = if is_array {
        array_lines(
            or_else(value.as_array(), Seq::empty()),
            match p {
                Some(m) => m.offset,
                None => 0,
            },
        )
    } else {
        object_lines(or_else(value.as_object(), Seq::empty()))
    };
    header + body
}

fn push_entry_line(out: &mut Vec<char>, is_array: bool, key: &str, val: &JsonValue)
    ensures
        final(out)@ == old(out)@ + entry_line_text(is_array, key@, val@),
{
    proof {
        reveal_strlit("");
    }
    if is_array {
        push_str(out, "[");
        push_str(out, key);
        push_str(out, "] ");
    } else {
        push_str(out, key);
        push_str(out, ": ");
    }
    match val {
        JsonValue::Object(_) => {
            let v = text_of(val, "value", "");
            let t = text_of(val, "type", "");
            push_str(out, v);
            if t.is_empty() {
                push_str(out, "\n");
            } else {
                push_str(out, " (");
                push_str(out, t);
                push_str(out, ")\n");
            }
        },
        JsonValue::String(text) => {
            push_str(out, text.as_str());
            push_str(out, "\n");
        },
        _ => {
            push_json_text(out, val);
            push_str(out, "\n");
        },
    }
}

fn decimal_string(n: usize) -> (s: String)
    ensures
        s@ == decimal_text(n as nat),
{
    let mut d: Vec<char> = Vec::new();
    push_decimal(&mut d, n as u64);
    string_of(&d)
}

/// Format a compound value as compact text lines (see [`compact_text`]).
#[verifier::rlimit(40)]
pub fn format_compact(value: &JsonValue, is_array: bool, expression: &str, value_type: &str, pagination: Option<&PaginationMeta>) -> (r: String)
    requires
        pagination matches Some(m) ==> m.offset + or_else(value@.as_array(), Seq::empty()).len() <= usize::MAX,
    ensures
        r@ == compact_text(value@, is_array, expression@, value_type@, meta_view(pagination)),
{
    let mut out: Vec<char> = Vec::new();
    push_str(&mut out, expression);
    push_str(&mut out, " (");
    push_str(&mut out, value_type);
    push_str(&mut out, ", ");
    let empty_items: Vec<JsonValue> = Vec::new();
    let empty_members: Vec<(String, JsonValue)> = Vec::new();
    let items: &Vec<JsonValue> = match value.as_array() {
        Some(a) => a,
        None => &empty_items,
    };
    let members: &Vec<(String, JsonValue)> = match value.as_object() {
        Some(m) => m,
        None => &empty_members,
    };
    let ghost iv = JsonValue::Array(*items)@->Array_0;
    let ghost mv = JsonValue::Object(*members)@->Object_0;
    assert(iv =~= or_else(value@.as_array(), Seq::empty()));
    assert(mv =~= or_else(value@.as_object(), Seq::empty()));
    let total = match pagination {
        Some(m) => m.total,
        None => if is_array {
            items.len()
        } else {
            members.len()
        },
    };
    push_decimal(&mut out, total as u64);
    if is_array {
        push_str(&mut out, " items");
    } else {
        push_str(&mut out, " keys");
    }
    match pagination {
        Some(m) => {
            push_str(&mut out, ", showing ");
            push_decimal(&mut out, m.offset as u64);
            push_str(&mut out, "..");
            push_decimal(&mut out, m.end as u64);
        },
        None => {},
    }
    push_str(&mut out, ")");
    match pagination {
        Some(m) => {
            push_str(&mut out, " [page: ");
            push_str(&mut out, m.token.as_str());
            push_str(&mut out, "]");
        },
        None => {},
    }
    push_str(&mut out, "\n");
    let ghost header = out@;
    if is_array {
        let base = match pagination {
            Some(m) => m.offset,
            None => 0,
        };
        for i in 0..items.len()
            invariant
                iv == JsonValue::Array(*items)@->Array_0,
                base + iv.len() <= usize::MAX,
                out@ == header + array_lines(iv.take(i as int), base as nat),
        {
            let key = decimal_string(base + i);
            push_entry_line(&mut out, true, key.as_str(), &items[i]);
            proof {
                assert(iv[i as int] == items@[i as int]@);
                assert(iv.take(i + 1).drop_last() == iv.take(i as int));
                assert(iv.take(i + 1).last() == iv[i as int]);
            }
        }
        assert(iv.take(items.len() as int) == iv);
    } else {
        for i in 0..members.len()
            invariant
                mv == JsonValue::Object(*members)@->Object_0,
                out@ == header + object_lines(mv.take(i as int)),
        {
            let k = members[i].0.as_str();
            proof {
                assert(mv[i as int] == (members@[i as int].0@, members@[i as int].1@));
                assert(mv.take(i + 1).drop_last() == mv.take(i as int));
                assert(mv.take(i + 1).last() == mv[i as int]);
            }
            if !(str_eq(k, "_summary") || str_eq(k, "_pagination")) {
                push_entry_line(&mut out, false, k, &members[i].1);
            }
        }
        assert(mv.take(members.len() as int) == mv);
    }
    string_of(&out)
}

/// The location `(path, line)` of a stack frame, when it has both.
pub open spec fn frame_location_view(frame: JsonView) -> Option<(Seq<char>, i64)> {
    match (
        match frame.get("source"@) {
            Some(src) => src.get_str("path"@),
            None => None,
        },
        frame.get_i64("line"@),
    ) {
        (Some(p), Some(l)) => Some((p, l)),
        _ => None,
    }
}

/// A stack frame's line in a stack listing: `#i name at file:line`
/// (the location only when known), the name sanitized.
pub open spec fn frame_line_text(i: nat, frame: JsonView) -> Seq<char> {
    "#"@ + decimal_text(i) + " "@ + sanitized(or_else(frame.get_str("name"@), "<unknown>"@)) + (
    match frame_location_view(frame) {
        Some((p, l)) => " at "@ + p + ":"@ + signed_decimal_text(l as int),
        None => Seq::empty(),
    }) + "\n"@
}

/// The location `(path, line)` of a stack frame, when it has both.
pub fn frame_location(frame: &JsonValue) -> (r: Option<(String, i64)>)
    ensures
        match r {
            Some((p, l)) => frame_location_view(frame@) == Some((p@, l)),
            None => frame_location_view(frame@) is None,
        },
{
    let path = match frame.get("source") {
        Some(src) => src.get_str("path"),
        None => None,
    };
    match (path, frame.get_i64("line")) {
        (Some(p), Some(l)) => Some((p.to_owned(), l)),
        _ => None,
    }
}

/// A stack frame's line in a stack listing (see [`frame_line_text`]).
pub fn frame_line(i: usize, frame: &JsonValue) -> (r: String)
    ensures
        r@ == frame_line_text(i as nat, frame@),
{
    let mut out: Vec<char> = Vec::new();
    push_str(&mut out, "#");
    push_decimal(&mut out, i as u64);
    push_str(&mut out, " ");
    let name = sanitize_debuggee_output(text_of(frame, "name", "<unknown>"));
    push_str(&mut out, name.as_str());
    match frame_location(frame) {
        Some((p, l)) => {
            push_str(&mut out, " at ");
            push_str(&mut out, p.as_str());
            push_str(&mut out, ":");
            push_signed_decimal(&mut out, l);
        },
        None => {},
    }
    push_str(&mut out, "\n");
    string_of(&out)
}

/// A DAP line number as a 1-based line index: 0 when it is negative or too large.
pub fn line_index(line: i64) -> (r: usize)
    ensures
        r == (if 0 <= line <= usize::MAX {
            line as usize
        } else {
            0usize
        }),
{
    if line < 0 {
        0
    } else if (line as u64) > (usize::MAX as u64) {
        0
    } else {
        line as usize
    }
}

/// Number of top stack frames that get source context.
pub const SOURCE_INJECT_FRAMES: usize = 3;

/// Where to show source context for frame number `i` of a stack listing:
/// the frame's file and line index, for the top frames that have both.
pub open spec fn source_target_view(i: nat, frame: JsonView) -> Option<(Seq<char>, int)> {
    if i < SOURCE_INJECT_FRAMES {
        match frame_location_view(frame) {
            Some((p, l)) => Some((
                p,
                if 0 <= l <= usize::MAX {
                    l as int
                } else {
                    0
                },
            )),
            None => None,
        }
    } else {
        None
    }
}

/// Where to show source context for frame `i` (see [`source_target_view`]).
pub fn source_target(i: usize, frame: &JsonValue) -> (r: Option<(String, usize)>)
    ensures
        match r {
            Some((p, l)) => source_target_view(i as nat, frame@) == Some((p@, l as int)),
            None => source_target_view(i as nat, frame@) is None,
        },
{
    if i >= SOURCE_INJECT_FRAMES {
        return None;
    }
    match frame_location(frame) {
        Some((p, l)) => Some((p, line_index(l))),
        None => None,
    }
}

/// One local variable's line: `  name: value (type)`, the type only when
/// non-empty, the value sanitized and truncated.
pub open spec fn local_line(v: JsonView, max_len: nat) -> Seq<char> {
    let t = or_else(v.get_str("type"@), ""@);
    "  "@ + sanitized(or_else(v.get_str("name"@), "?"@)) + ": "@ + truncated_text(
        sanitized(or_else(v.get_str("value"@), ""@)),
        max_len,
    ) + (if t.len() == 0 {
        Seq::empty()
    } else {
        " ("@ + t + ")"@
    }) + "\n"@
}

/// The lines of the local variables `vs`.
pub open spec fn local_lines(vs: Seq<JsonView>, max_len: nat) -> Seq<char>
    decreases vs.len(),
{
    if vs.len() == 0 {
        Seq::empty()
    } else {
        local_lines(vs.drop_last(), max_len) + local_line(vs.last(), max_len)
    }
}

/// The locals of one scope for auto-context: the first `max_vars` shown
/// variables of its `variables` response, under a `\nScope:` heading; empty
/// when none is shown.
pub open spec fn scope_locals_text(scope: JsonView, vars_body: JsonView, max_vars: nat, max_len: nat) -> Seq<char> {
    let vs = visible(or_else(vars_body.get_array("variables"@), Seq::empty()));
    let shown = if vs.len() <= max_vars {
        vs
    } else {
        vs.take(max_vars as int)
    };
    if shown.len() == 0 {
        Seq::empty()
    } else {
        "\n"@ + or_else(scope.get_str("name"@), "Scope"@) + ":\n"@ + local_lines(shown, max_len)
    }
}

fn push_local_line(out: &mut Vec<char>, v: &JsonValue, max_len: usize)
    ensures
        final(out)@ == old(out)@ + local_line(v@, max_len as nat),
{
    proof {
        reveal_strlit("");
    }
    let name = sanitize_debuggee_output(text_of(v, "name", "?"));
    let value = sanitize_debuggee_output(text_of(v, "value", ""));
    let value = truncate_value(value.as_str(), max_len);
    let t = text_of(v, "type", "");
    push_str(out, "  ");
    push_str(out, name.as_str());
    push_str(out, ": ");
    push_str(out, value.as_str());
    if !t.is_empty() {
        push_str(out, " (");
        push_str(out, t);
        push_str(out, ")");
    }
    push_str(out, "\n");
}

/// The locals of one scope for auto-context (see [`scope_locals_text`]).
pub fn scope_locals(scope: &JsonValue, vars_body: &JsonValue, max_vars: usize, max_len: usize) -> (r: String)
    ensures
        r@ == scope_locals_text(scope@, vars_body@, max_vars as nat, max_len as nat),
{
    proof {
        reveal_strlit("");
    }
    let empty: Vec<JsonValue> = Vec::new();
    let vars: &Vec<JsonValue> = match vars_body.get("variables") {
        Some(v) => match v.as_array() {
            Some(a) => a,
            None => &empty,
        },
        None => &empty,
    };
    assert(JsonValue::Array(*vars)@->Array_0 =~= or_else(vars_body@.get_array("variables"@), Seq::empty()));
    let vs = visible_variables(vars);
    let ghost vv = JsonValue::Array(vs)@->Array_0;
    let n = if vs.len() <= max_vars {
        vs.len()
    } else {
        max_vars
    };
    let ghost shown = if vv.len() <= max_vars { vv } else { vv.take(max_vars as int) };
    assert(shown == vv.take(n as int));
    let mut out: Vec<char> = Vec::new();
    if n == 0 {
        return string_of(&out);
    }
    push_str(&mut out, "\n");
    push_str(&mut out, text_of(scope, "name", "Scope"));
    push_str(&mut out, ":\n");
    let ghost head = out@;
    for i in 0..n
        invariant
            n <= vs@.len(),
            vv == JsonValue::Array(vs)@->Array_0,
            out@ == head + local_lines(vv.take(i as int), max_len as nat),
    {
        push_local_line(&mut out, &vs[i], max_len);
        proof {
            assert(vv[i as int] == vs@[i as int]@);
            assert(vv.take(i + 1).drop_last() == vv.take(i as int));
            assert(vv.take(i + 1).last() == vv[i as int]);
        }
    }
    string_of(&out)
}

/// The reference of a scope's variables (0 when missing).
pub fn scope_reference(scope: &JsonValue) -> (r: i64)
    ensures
        r == or_else(scope@.get_i64("variablesReference"@), 0i64),
{
    match scope.get_i64("variablesReference") {
        Some(r) => r,
        None => 0,
    }
}

/// The reply to evaluating `expression` to a scalar: `expr = value (type: T)`,
/// the value sanitized and truncated, `<no result>` and `unknown` standing in
/// for missing parts.
pub open spec fn scalar_result_text(expression: Seq<char>, body: JsonView, max_len: nat) -> Seq<char> {
    expression + " = "@ + truncated_text(sanitized(or_else(body.get_str("result"@), "<no result>"@)), max_len)
        + " (type: "@ + or_else(body.get_str("type"@), "unknown"@) + ")"@
}

/// The reply to evaluating an expression to a scalar (see [`scalar_result_text`]).
pub fn scalar_result(expression: &str, body: &JsonValue, max_len: usize) -> (r: String)
    ensures
        r@ == scalar_result_text(expression@, body@, max_len as nat),
{
    let result = sanitize_debuggee_output(text_of(body, "result", "<no result>"));
    let value = truncate_value(result.as_str(), max_len);
    let mut out: Vec<char> = Vec::new();
    push_str(&mut out, expression);
    push_str(&mut out, " = ");
    push_str(&mut out, value.as_str());
    push_str(&mut out, " (type: ");
    push_str(&mut out, text_of(body, "type", "unknown"));
    push_str(&mut out, ")");
    string_of(&out)
}

/// The arguments of an `evaluate` request in the watch context.
pub open spec fn evaluate_arguments_view(expression: Seq<char>, frame_id: i64) -> JsonView {
    JsonView::Object(
        seq![
            ("context"@, JsonView::Str("watch"@)),
            ("expression"@, JsonView::Str(expression)),
            ("frameId"@, JsonView::Number(int_number(frame_id))),
        ],
    )
}

/// The arguments of an `evaluate` request in the watch context.
pub fn evaluate_arguments(expression: &str, frame_id: i64) -> (r: JsonValue)
    ensures
        r@ == evaluate_arguments_view(expression@, frame_id),
{
    let id = int_json(frame_id);
    let mut members: Vec<(String, JsonValue)> = Vec::new();
    members.push(("context".to_owned(), JsonValue::String("watch".to_owned())));
    members.push(("expression".to_owned(), JsonValue::String(expression.to_owned())));
    members.push(("frameId".to_owned(), id));
    let r = JsonValue::Object(members);
    proof {
        let mv = r@->Object_0;
        assert forall|k: int| 0 <= k < 3 implies mv[k] == (members@[k].0@, members@[k].1@) by {}
        assert(mv =~= evaluate_arguments_view(expression@, frame_id)->Object_0);
    }
    r
}

/// The arguments of a `stackTrace` request for `levels` frames of a thread.
pub open spec fn stack_trace_arguments_view(thread_id: i64, levels: u64) -> JsonView {
    JsonView::Object(
        seq![
            ("levels"@, JsonView::Number(NumberView::PosInt(levels))),
            ("threadId"@, JsonView::Number(int_number(thread_id))),
        ],
    )
}

/// The arguments of a `stackTrace` request (see [`stack_trace_arguments_view`]).
pub fn stack_trace_arguments(thread_id: i64, levels: u64) -> (r: JsonValue)
    ensures
        r@ == stack_trace_arguments_view(thread_id, levels),
{
    let mut members: Vec<(String, JsonValue)> = Vec::new();
    members.push(("levels".to_owned(), JsonValue::Number(JsonNumber::PosInt(levels))));
    members.push(("threadId".to_owned(), int_json(thread_id)));
    let r = JsonValue::Object(members);
    proof {
        let mv = r@->Object_0;
        assert forall|k: int| 0 <= k < members@.len() implies mv[k] == (
        members@[k].0@, members@[k].1@) by {}
        assert(mv =~= stack_trace_arguments_view(thread_id, levels)->Object_0);
    }
    r
}

/// An object with the single integer member `key`.
pub open spec fn int_member_view(key: Seq<char>, value: i64) -> JsonView {
    JsonView::Object(seq![(key, JsonView::Number(int_number(value)))])
}

/// An object with the single integer member `key`: the arguments of a
/// `scopes` request (`frameId`) or a `variables` request (`variablesReference`).
pub fn int_member(key: &str, value: i64) -> (r: JsonValue)
    ensures
        r@ == int_member_view(key@, value),
{
    let mut members: Vec<(String, JsonValue)> = Vec::new();
    members.push((key.to_owned(), int_json(value)));
    let r = JsonValue::Object(members);
    proof {
        let mv = r@->Object_0;
        assert(mv[0] == (members@[0].0@, members@[0].1@));
        assert(mv =~= int_member_view(key@, value)->Object_0);
    }
    r
}

/// The id of the top frame in a `stackTrace` response body.
pub open spec fn first_frame(body: JsonView) -> Option<i64> {
    match body.get_array("stackFrames"@) {
        Some(fs) => if fs.len() > 0 {
            fs[0].get_i64("id"@)
        } else {
            None
        },
        None => None,
    }
}

/// The id of the top frame, or an error when the adapter reports none.
pub fn first_frame_id(body: &JsonValue) -> (r: Result<i64, AppError>)
    ensures
        r matches Ok(id) ==> first_frame(body@) == Some(id),
        r is Err ==> first_frame(body@) is None,
        r matches Err(e) ==> (e matches AppError::DapError(m) && m@ == "no stack frames available"@),
{
    match body.get("stackFrames") {
        Some(fs) => match fs.as_array() {
            Some(items) => {
                if items.len() > 0 {
                    assert((fs@->Array_0)[0] == items@[0]@);
                    match items[0].get_i64("id") {
                        Some(id) => {
                            return Ok(id);
                        },
                        None => {},
                    }
                }
            },
            None => {},
        },
        None => {},
    }
    Err(AppError::DapError("no stack frames available".to_owned()))
}

/// The type an `evaluate` response reports (`unknown` when missing).
pub fn result_type(body: &JsonValue) -> (r: &str)
    ensures
        r@ == or_else(body@.get_str("type"@), "unknown"@),
{
    text_of(body, "type", "unknown")
}

/// The members built from child variables have strictly increasing keys,
/// so each name occurs once, in the order of a map keyed by name.
pub proof fn lemma_child_members_sorted(cs: Seq<JsonView>, max_len: nat)
    ensures
        keys_sorted(child_members(cs, max_len)),
    decreases cs.len(),
{
    if cs.len() > 0 {
        lemma_child_members_sorted(cs.drop_last(), max_len);
        lemma_object_set_sorted(
            child_members(cs.drop_last(), max_len),
            child_key(cs.last()),
            child_entry(cs.last(), max_len),
        );
    }
}

/// The scopes among `ss` whose variables can be fetched (a positive
/// `variablesReference`), in order.
pub open spec fn fetchable_scopes(ss: Seq<JsonView>) -> Seq<JsonView>
    decreases ss.len(),
{
    if ss.len() == 0 {
        ss
    } else if or_else(ss.last().get_i64("variablesReference"@), 0i64) > 0 {
        fetchable_scopes(ss.drop_last()).push(ss.last())
    } else {
        fetchable_scopes(ss.drop_last())
    }
}

/// The scopes whose locals auto-context shows: of the first `max_scopes`
/// scopes of a `scopes` response body, those with variables to fetch.
pub open spec fn scopes_to_expand_view(body: JsonView, max_scopes: nat) -> Seq<JsonView> {
    let ss = or_else(body.get_array("scopes"@), Seq::empty());
    fetchable_scopes(
        if ss.len() <= max_scopes {
            ss
        } else {
            ss.take(max_scopes as int)
        },
    )
}

/// The scopes whose locals auto-context shows (see [`scopes_to_expand_view`]).
pub fn scopes_to_expand(body: &JsonValue, max_scopes: usize) -> (r: Vec<JsonValue>)
    ensures
        JsonValue::Array(r)@ == JsonView::Array(scopes_to_expand_view(body@, max_scopes as nat)),
{
    let empty: Vec<JsonValue> = Vec::new();
    let items: &Vec<JsonValue> = match body.get("scopes") {
        Some(v) => match v.as_array() {
            Some(a) => a,
            None => &empty,
        },
        None => &empty,
    };
    let ghost iv = JsonValue::Array(*items)@->Array_0;
    assert(iv =~= or_else(body@.get_array("scopes"@), Seq::empty()));
    let n = if items.len() <= max_scopes {
        items.len()
    } else {
        max_scopes
    };
    let ghost shown = if iv.len() <= max_scopes { iv } else { iv.take(max_scopes as int) };
    assert(shown =~= iv.take(n as int));
    let mut out: Vec<JsonValue> = Vec::new();
    for i in 0..n
        invariant
            n <= items@.len(),
            iv == JsonValue::Array(*items)@->Array_0,
            JsonValue::Array(out)@->Array_0 == fetchable_scopes(iv.take(i as int)),
    {
        let ghost before = JsonValue::Array(out)@->Array_0;
        proof {
            assert(iv.take(i + 1).drop_last() =~= iv.take(i as int));
            assert(iv.take(i + 1).last() == iv[i as int]);
            assert(iv[i as int] == items@[i as int]@);
        }
        if scope_reference(&items[i]) > 0 {
            out.push(items[i].deep_clone());
            proof {
                let after = JsonValue::Array(out)@->Array_0;
                assert(after =~= before.push(iv[i as int])) by {
                    assert forall|j: int| 0 <= j < before.len() implies after[j] == before[j] by {}
                }
            }
        }
    }
    out
}

/// The reply to a stop with auto-context: the stop header alone when the
/// stack is empty, else the header, a blank line, the stack listing and the
/// locals of the top frame.
pub open spec fn stopped_context_text(header: Seq<char>, stack: Seq<char>, frames: nat, locals: Seq<char>) -> Seq<char> {
    if frames == 0 {
        header
    } else {
        header + "\n\n"@ + stack + locals
    }
}

/// The reply to a stop with auto-context (see [`stopped_context_text`]).
pub fn stopped_context(header: &str, stack: &str, frames: usize, locals: &str) -> (r: String)
    ensures
        r@ == stopped_context_text(header@, stack@, frames as nat, locals@),
{
    let mut out: Vec<char> = Vec::new();
    push_str(&mut out, header);
    if frames > 0 {
        push_str(&mut out, "\n\n");
        push_str(&mut out, stack);
        push_str(&mut out, locals);
    }
    string_of(&out)
}

/// The header of a compact rendering names the expression and its type,
/// then counts the elements: with page metadata the count is the metadata's
/// total, for objects as for arrays; without it, the elements of the value
/// itself. Then come the shown range and the token of a page.
pub proof fn lemma_compact_header(
    value: JsonView,
    is_array: bool,
    expression: Seq<char>,
    value_type: Seq<char>,
    p: Option<MetaView>,
)
    ensures
        ({
            let total: nat = match p {
                Some(m) => m.total,
                None => if is_array {
                    or_else(value.as_array(), Seq::empty()).len()
                } else {
                    or_else(value.as_object(), Seq::empty()).len()
                },
            };
            let h = expression + " ("@ + value_type + ", "@ + decimal_text(total) + (if is_array {
                " items"@
            } else {
                " keys"@
            }) + (match p {
                Some(m) => ", showing "@ + decimal_text(m.offset) + ".."@ + decimal_text(m.end),
                None => Seq::empty(),
            }) + ")"@ + (match p {
                Some(m) => " [page: "@ + m.token + "]"@,
                None => Seq::empty(),
            }) + "\n"@;
            compact_text(value, is_array, expression, value_type, p).take(h.len() as int) == h
        }),
{
    let text = compact_text(value, is_array, expression, value_type, p);
    let total: nat = match p {
        Some(m) => m.total,
        None => if is_array {
            or_else(value.as_array(), Seq::empty()).len()
        } else {
            or_else(value.as_object(), Seq::empty()).len()
        },
    };
    let h = expression + " ("@ + value_type + ", "@ + decimal_text(total) + (if is_array {
        " items"@
    } else {
        " keys"@
    }) + (match p {
        Some(m) => ", showing "@ + decimal_text(m.offset) + ".."@ + decimal_text(m.end),
        None => Seq::empty(),
    }) + ")"@ + (match p {
        Some(m) => " [page: "@ + m.token + "]"@,
        None => Seq::empty(),
    }) + "\n"@;
    let body = if is_array {
        array_lines(
            or_else(value.as_array(), Seq::empty()),
            match p {
                Some(m) => m.offset,
                None => 0,
            },
        )
    } else {
        object_lines(or_else(value.as_object(), Seq::empty()))
    };
    assert(text == h + body);
    assert((h + body).take(h.len() as int) =~= h);
}

/// The top frame of a `stackTrace` response is its first frame: a frame id
/// taken from the body is the `id` of `stackFrames[0]`, and there is one
/// exactly when that frame has an integer id.
pub proof fn lemma_first_frame_is_top(body: JsonView)
    ensures
        first_frame(body) matches Some(id) ==> (body.get_array("stackFrames"@) matches Some(fs) && fs.len()
            > 0 && fs[0].get_i64("id"@) == Some(id)),
        (body.get_array("stackFrames"@) matches Some(fs) && fs.len() > 0 && fs[0].get_i64("id"@) is Some)
            ==> first_frame(body) is Some,
{
}

/// An evaluate request asks for `expression` in frame `frame_id`, in the
/// watch context.
pub proof fn lemma_evaluate_fields(expression: Seq<char>, frame_id: i64)
    ensures
        evaluate_arguments_view(expression, frame_id).get("expression"@) == Some(JsonView::Str(expression)),
        evaluate_arguments_view(expression, frame_id).get("frameId"@) == Some(
            JsonView::Number(int_number(frame_id)),
        ),
        evaluate_arguments_view(expression, frame_id).get("context"@) == Some(JsonView::Str("watch"@)),
{
    reveal_strlit("context");
    reveal_strlit("expression");
    reveal_strlit("frameId");
    assert("context"@[0] != "expression"@[0] && "context"@[0] != "frameId"@[0] && "expression"@[0]
        != "frameId"@[0]);
    let ms = evaluate_arguments_view(expression, frame_id)->Object_0;
    lemma_find_key_at(ms, "context"@, 0);
    lemma_find_key_at(ms, "expression"@, 1);
    lemma_find_key_at(ms, "frameId"@, 2);
}

/// A stack trace request names the thread and asks for `levels` frames.
pub proof fn lemma_stack_trace_fields(thread_id: i64, levels: u64)
    ensures
        stack_trace_arguments_view(thread_id, levels).get("threadId"@) == Some(
            JsonView::Number(int_number(thread_id)),
        ),
        stack_trace_arguments_view(thread_id, levels).get("levels"@) == Some(
            JsonView::Number(NumberView::PosInt(levels)),
        ),
{
    reveal_strlit("levels");
    reveal_strlit("threadId");
    assert("levels"@[0] != "threadId"@[0]);
    let ms = stack_trace_arguments_view(thread_id, levels)->Object_0;
    lemma_find_key_at(ms, "levels"@, 0);
    lemma_find_key_at(ms, "threadId"@, 1);
}

/// The scalar reply starts with the expression and ` = `, and ends with the
/// reported type (`unknown` when missing).
pub proof fn lemma_scalar_result_parts(expression: Seq<char>, body: JsonView, max_len: nat)
    ensures
        ({
            let t = scalar_result_text(expression, body, max_len);
            let head = expression + " = "@;
            let tail = " (type: "@ + or_else(body.get_str("type"@), "unknown"@) + ")"@;
            &&& t.take(head.len() as int) == head
            &&& t.len() >= tail.len() && t.skip(t.len() - tail.len()) == tail
        }),
{
    let t = scalar_result_text(expression, body, max_len);
    let head = expression + " = "@;
    let mid = truncated_text(sanitized(or_else(body.get_str("result"@), "<no result>"@)), max_len);
    let tail = " (type: "@ + or_else(body.get_str("type"@), "unknown"@) + ")"@;
    assert(t =~= head + mid + tail);
    assert(t.take(head.len() as int) =~= head);
    assert(t.skip(t.len() - tail.len()) =~= tail);
}

/// A child variable is shown by its type (empty when missing) and its
/// value, sanitized and truncated to `max_len` bytes.
pub proof fn lemma_child_entry_fields(c: JsonView, max_len: nat)
    ensures
        child_entry(c, max_len).get("type"@) == Some(JsonView::Str(or_else(c.get_str("type"@), ""@))),
        child_entry(c, max_len).get("value"@) == Some(
            JsonView::Str(truncated_text(sanitized(or_else(c.get_str("value"@), ""@)), max_len)),
        ),
{
    reveal_strlit("type");
    reveal_strlit("value");
    assert("type"@[0] != "value"@[0]);
    let ms = child_entry(c, max_len)->Object_0;
    lemma_find_key_at(ms, "type"@, 0);
    lemma_find_key_at(ms, "value"@, 1);
}

} // verus!
