//! A JSON value model: the library's own representation of the JSON that
//! flows between the debug adapter and the agent.

use vstd::prelude::*;

use crate::text::{
    push_decimal, push_signed_decimal, push_str, push_chars, chars_of, joined, decimal_text,
    signed_decimal_text, digit_char,
};

verus! {

/// A JSON number as it was read: a non-negative integer, a negative
/// integer, or any other number kept as its decimal text.
#[derive(Debug, Clone, PartialEq, Eq)]
pub enum JsonNumber {
    PosInt(u64),
    NegInt(i64),
    Float(String),
}

/// A JSON value. Object members are kept in order; a well-formed object
/// has each key once.
#[derive(Debug, PartialEq, Eq)]
pub enum JsonValue {
    Null,
    Bool(bool),
    Number(JsonNumber),
    String(String),
    Array(Vec<JsonValue>),
    Object(Vec<(String, JsonValue)>),
}

/// Mathematical view of a JSON number.
pub enum NumberView {
    PosInt(u64),
    NegInt(i64),
    Float(Seq<char>),
}

/// Mathematical view of a JSON value.
pub enum JsonView {
    Null,
    Bool(bool),
    Number(NumberView),
    Str(Seq<char>),
    Array(Seq<JsonView>),
    Object(Seq<(Seq<char>, JsonView)>),
}

impl JsonNumber {
    pub open spec fn view(&self) -> NumberView {
        match self {
            JsonNumber::PosInt(u) => NumberView::PosInt(*u),
            JsonNumber::NegInt(i) => NumberView::NegInt(*i),
            JsonNumber::Float(s) => NumberView::Float(s@),
        }
    }
}

impl JsonValue {
    /// The mathematical view of the value.
    pub open spec fn view(&self) -> JsonView
        decreases self,
    {
        match self {
            JsonValue::Null => JsonView::Null,
            JsonValue::Bool(b) => JsonView::Bool(*b),
            JsonValue::Number(n) => JsonView::Number(n.view()),
            JsonValue::String(s) => JsonView::Str(s@),
            JsonValue::Array(v) => JsonView::Array(
                Seq::new(
                    v@.len(),
                    |i: int|
                        if 0 <= i < v@.len() {
                            v@[i].view()
                        } else {
                            JsonView::Null
                        },
                ),
            ),
            JsonValue::Object(v) => JsonView::Object(
                Seq::new(
                    v@.len(),
                    |i: int|
                        if 0 <= i < v@.len() {
                            (v@[i].0@, v@[i].1.view())
                        } else {
                            (Seq::empty(), JsonView::Null)
                        },
                ),
            ),
        }
    }
}

/// Index of the first member of `entries` whose key is `key`.
pub open spec fn find_key(entries: Seq<(Seq<char>, JsonView)>, key: Seq<char>) -> Option<int>
    decreases entries.len(),
{
    if entries.len() == 0 {
        None
    } else if entries[0].0 == key {
        Some(0)
    } else {
        match find_key(entries.drop_first(), key) {
            Some(i) => Some(i + 1),
            None => None,
        }
    }
}

/// Lexicographic order of strings by code point (the order of their UTF-8 bytes).
pub open spec fn text_lt(a: Seq<char>, b: Seq<char>) -> bool
    decreases a.len(),
{
    if a.len() == 0 {
        b.len() > 0
    } else if b.len() == 0 {
        false
    } else if a[0] != b[0] {
        (a[0] as u32) < (b[0] as u32)
    } else {
        text_lt(a.drop_first(), b.drop_first())
    }
}

/// Where a new member `key` goes among `entries`: after the leading members
/// whose keys sort before it (its place in a key-sorted object).
pub open spec fn insert_position(entries: Seq<(Seq<char>, JsonView)>, key: Seq<char>) -> nat
    decreases entries.len(),
{
    if entries.len() == 0 {
        0
    } else if text_lt(entries[0].0, key) {
        1 + insert_position(entries.drop_first(), key)
    } else {
        0
    }
}

/// The members after setting `key` to `val`: an existing member keeps its
/// place and gets the new value; otherwise the member is inserted at its
/// sorted place.
pub open spec fn object_set(entries: Seq<(Seq<char>, JsonView)>, key: Seq<char>, val: JsonView) -> Seq<
    (Seq<char>, JsonView),
> {
    match find_key(entries, key) {
        Some(i) => entries.update(i, (key, val)),
        None => entries.insert(insert_position(entries, key) as int, (key, val)),
    }
}

/// `find_key` gives the first index holding `key`, and `None` exactly when
/// no member has that key.
pub proof fn lemma_find_key(entries: Seq<(Seq<char>, JsonView)>, key: Seq<char>)
    ensures
        find_key(entries, key) matches Some(i) ==> 0 <= i < entries.len() && entries[i].0 == key
            && forall|j: int| 0 <= j < i ==> entries[j].0 != key,
        find_key(entries, key) is None ==> forall|j: int|
            0 <= j < entries.len() ==> entries[j].0 != key,
    decreases entries.len(),
{
    if entries.len() > 0 {
        lemma_find_key(entries.drop_first(), key);
        assert forall|j: int| 0 < j < entries.len() implies entries[j] == entries.drop_first()[j
            - 1] by {}
    }
}

impl JsonView {
    /// The member `key` of an object (its first occurrence); `None` for
    /// other values or absent keys.
    pub open spec fn get(self, key: Seq<char>) -> Option<JsonView> {
        match self {
            JsonView::Object(entries) => match find_key(entries, key) {
                Some(i) => Some(entries[i].1),
                None => None,
            },
            _ => None,
        }
    }

    /// The text of a string value.
    pub open spec fn as_str(self) -> Option<Seq<char>> {
        match self {
            JsonView::Str(s) => Some(s),
            _ => None,
        }
    }

    /// The value of a boolean.
    pub open spec fn as_bool(self) -> Option<bool> {
        match self {
            JsonView::Bool(b) => Some(b),
            _ => None,
        }
    }

    /// The value as an `i64`, for integers that fit.
    pub open spec fn as_i64(self) -> Option<i64> {
        match self {
            JsonView::Number(NumberView::PosInt(u)) => if u <= i64::MAX {
                Some(u as i64)
            } else {
                None
            },
            JsonView::Number(NumberView::NegInt(i)) => Some(i),
            _ => None,
        }
    }

    /// The value as a `u64`, for non-negative integers.
    pub open spec fn as_u64(self) -> Option<u64> {
        match self {
            JsonView::Number(NumberView::PosInt(u)) => Some(u),
            _ => None,
        }
    }

    /// The items of an array.
    pub open spec fn as_array(self) -> Option<Seq<JsonView>> {
        match self {
            JsonView::Array(items) => Some(items),
            _ => None,
        }
    }

    /// The members of an object.
    pub open spec fn as_object(self) -> Option<Seq<(Seq<char>, JsonView)>> {
        match self {
            JsonView::Object(entries) => Some(entries),
            _ => None,
        }
    }

    /// The string member `key`, if present and a string.
    pub open spec fn get_str(self, key: Seq<char>) -> Option<Seq<char>> {
        match self.get(key) {
            Some(v) => v.as_str(),
            None => None,
        }
    }

    /// The integer member `key`, if present and an `i64`.
    pub open spec fn get_i64(self, key: Seq<char>) -> Option<i64> {
        match self.get(key) {
            Some(v) => v.as_i64(),
            None => None,
        }
    }

    /// The boolean member `key`, if present and a boolean.
    pub open spec fn get_bool(self, key: Seq<char>) -> Option<bool> {
        match self.get(key) {
            Some(v) => v.as_bool(),
            None => None,
        }
    }

    /// The array member `key`, if present and an array.
    pub open spec fn get_array(self, key: Seq<char>) -> Option<Seq<JsonView>> {
        match self.get(key) {
            Some(v) => v.as_array(),
            None => None,
        }
    }
}

/// Whether two strings are equal, character by character.
pub(crate) fn str_eq(a: &str, b: &str) -> (r: bool)
    ensures
        r == (a@ == b@),
{
    let x = chars_of(a);
    let y = chars_of(b);
    if x.len() != y.len() {
        return false;
    }
    for i in 0..x.len()
        invariant
            x@ == a@,
            y@ == b@,
            x@.len() == y@.len(),
            forall|j: int| 0 <= j < i ==> x@[j] == y@[j],
    {
        if x[i] != y[i] {
            return false;
        }
    }
    assert(x@ =~= y@);
    true
}

impl JsonValue {
    /// The member `key` of an object (its first occurrence).
    pub fn get(&self, key: &str) -> (r: Option<&JsonValue>)
        ensures
            r matches Some(v) ==> self@.get(key@) == Some(v@),
            r is None ==> self@.get(key@) is None,
    {
        match self {
            JsonValue::Object(entries) => {
                let ghost ev = self@->Object_0;
                let mut i: usize = 0;
                while i < entries.len()
                    invariant
                        self@ == JsonView::Object(ev),
                        ev.len() == entries@.len(),
                        forall|j: int| 0 <= j < entries@.len() ==> #[trigger] ev[j] == (entries@[j].0@, entries@[j].1@),
                        i <= entries@.len(),
                        forall|j: int| 0 <= j < i ==> ev[j].0 != key@,
                    decreases entries.len() - i,
                {
                    if str_eq(entries[i].0.as_str(), key) {
                        proof {
                            lemma_find_key(ev, key@);
                            assert(ev[i as int] == (entries@[i as int].0@, entries@[i as int].1@));
                            assert(find_key(ev, key@) == Some(i as int));
                            assert(self@.get(key@) == Some(ev[i as int].1));
                        }
                        return Some(&entries[i].1);
                    }
                    i = i + 1;
                }
                proof {
                    lemma_find_key(ev, key@);
                }
                None
            },
            _ => None,
        }
    }
}

impl JsonValue {
    /// The text of a string value.
    pub fn as_str(&self) -> (r: Option<&str>)
        ensures
            r matches Some(t) ==> self@.as_str() == Some(t@),
            r is None ==> self@.as_str() is None,
    {
        match self {
            JsonValue::String(s) => Some(s.as_str()),
            _ => None,
        }
    }

    /// A boolean value.
    pub fn as_bool(&self) -> (r: Option<bool>)
        ensures
            r == self@.as_bool(),
    {
        match self {
            JsonValue::Bool(b) => Some(*b),
            _ => None,
        }
    }

    /// An integer value that fits in an `i64`.
    pub fn as_i64(&self) -> (r: Option<i64>)
        ensures
            r == self@.as_i64(),
    {
        match self {
            JsonValue::Number(JsonNumber::PosInt(u)) => if *u <= 9223372036854775807u64 {
                Some(*u as i64)
            } else {
                None
            },
            JsonValue::Number(JsonNumber::NegInt(i)) => Some(*i),
            _ => None,
        }
    }

    /// The elements of an array value.
    pub fn as_array(&self) -> (r: Option<&Vec<JsonValue>>)
        ensures
            r matches Some(v) ==> self is Array && self->Array_0 == *v,
            r is None ==> !(self is Array),
    {
        match self {
            JsonValue::Array(v) => Some(v),
            _ => None,
        }
    }

    /// The members of an object value.
    pub fn as_object(&self) -> (r: Option<&Vec<(String, JsonValue)>>)
        ensures
            r matches Some(v) ==> self is Object && self->Object_0 == *v,
            r is None ==> !(self is Object),
    {
        match self {
            JsonValue::Object(v) => Some(v),
            _ => None,
        }
    }

    /// The string member `key`, if present and a string.
    pub fn get_str(&self, key: &str) -> (r: Option<&str>)
        ensures
            r matches Some(t) ==> self@.get_str(key@) == Some(t@),
            r is None ==> self@.get_str(key@) is None,
    {
        match self.get(key) {
            Some(v) => v.as_str(),
            None => None,
        }
    }

    /// The integer member `key`, if present and an `i64`.
    pub fn get_i64(&self, key: &str) -> (r: Option<i64>)
        ensures
            r == self@.get_i64(key@),
    {
        match self.get(key) {
            Some(v) => v.as_i64(),
            None => None,
        }
    }

    /// The boolean member `key`, if present and a boolean.
    pub fn get_bool(&self, key: &str) -> (r: Option<bool>)
        ensures
            r == self@.get_bool(key@),
    {
        match self.get(key) {
            Some(v) => v.as_bool(),
            None => None,
        }
    }

    /// A string value holding `s`.
    pub fn from_str(s: &str) -> (r: JsonValue)
        ensures
            r@ == JsonView::Str(s@),
    {
        JsonValue::String(s.to_owned())
    }

    /// An independent copy of the value.
    #[verifier::loop_isolation(false)]
    pub fn deep_clone(&self) -> (r: JsonValue)
        ensures
            r@ == self@,
        decreases self,
    {
        match self {
            JsonValue::Null => JsonValue::Null,
            JsonValue::Bool(b) => JsonValue::Bool(*b),
            JsonValue::Number(JsonNumber::PosInt(u)) => JsonValue::Number(JsonNumber::PosInt(*u)),
            JsonValue::Number(JsonNumber::NegInt(i)) => JsonValue::Number(JsonNumber::NegInt(*i)),
            JsonValue::Number(JsonNumber::Float(t)) => JsonValue::Number(
                JsonNumber::Float(t.clone()),
            ),
            JsonValue::String(t) => JsonValue::String(t.clone()),
            JsonValue::Array(items) => {
                let mut out: Vec<JsonValue> = Vec::new();
                for i in 0..items.len()
                    invariant
                        out@.len() == i,
                        forall|j: int| 0 <= j < i ==> #[trigger] out@[j]@ == items@[j]@,
                {
                    proof {
                        assert(decreases_to!(*self => items@[i as int]));
                    }
                    out.push(items[i].deep_clone());
                }
                let r = JsonValue::Array(out);
                assert(out@.len() == items@.len());
                assert(r@->Array_0 =~= self@->Array_0) by {
                    assert forall|j: int| 0 <= j < items@.len() implies #[trigger] (r@->Array_0)[j]
                        == (self@->Array_0)[j] by {
                        assert(out@[j]@ == items@[j]@);
                    }
                }
                r
            },
            JsonValue::Object(entries) => {
                let mut out: Vec<(String, JsonValue)> = Vec::new();
                for i in 0..entries.len()
                    invariant
                        out@.len() == i,
                        forall|j: int| 0 <= j < i ==> (#[trigger] out@[j]).0@ == entries@[j].0@,
                        forall|j: int| 0 <= j < i ==> (#[trigger] out@[j]).1@ == entries@[j].1@,
                {
                    proof {
                        assert(decreases_to!(*self => entries@[i as int].1));
                    }
                    let k = entries[i].0.clone();
                    let v = entries[i].1.deep_clone();
                    out.push((k, v));
                }
                let r = JsonValue::Object(out);
                assert(out@.len() == entries@.len());
                assert(r@->Object_0 =~= self@->Object_0) by {
                    assert forall|j: int| 0 <= j < entries@.len() implies #[trigger] (
                    r@->Object_0)[j] == (self@->Object_0)[j] by {
                        assert(out@[j].0@ == entries@[j].0@);
                        assert(out@[j].1@ == entries@[j].1@);
                    }
                }
                r
            },
        }
    }
}

/// Whether `a` sorts strictly before `b`.
pub fn text_less(a: &str, b: &str) -> (r: bool)
    ensures
        r == text_lt(a@, b@),
{
    let x = chars_of(a);
    let y = chars_of(b);
    let mut i: usize = 0;
    assert(x@.skip(0) == x@);
    assert(y@.skip(0) == y@);
    while i < x.len() && i < y.len() && x[i] == y[i]
        invariant
            x@ == a@,
            y@ == b@,
            i <= x@.len(),
            i <= y@.len(),
            text_lt(a@, b@) == text_lt(x@.skip(i as int), y@.skip(i as int)),
        decreases x.len() - i,
    {
        assert(x@.skip(i as int).drop_first() == x@.skip(i + 1));
        assert(y@.skip(i as int).drop_first() == y@.skip(i + 1));
        i = i + 1;
    }
    if i < x.len() {
        assert(x@.skip(i as int)[0] == x@[i as int]);
    }
    if i < y.len() {
        assert(y@.skip(i as int)[0] == y@[i as int]);
    }
    if i == x.len() {
        i < y.len()
    } else if i == y.len() {
        false
    } else {
        (x[i] as u32) < (y[i] as u32)
    }
}

/// Sets member `key` of an object's members to `val` (see [`object_set`]).
pub fn object_insert(entries: &mut Vec<(String, JsonValue)>, key: &str, val: JsonValue)
    ensures
        JsonValue::Object(*final(entries))@ == JsonView::Object(
            object_set(JsonValue::Object(*old(entries))@->Object_0, key@, val@),
        ),
{
    let ghost ev = JsonValue::Object(*entries)@->Object_0;
    let n = entries.len();
    let mut i: usize = 0;
    while i < n
        invariant
            n == entries@.len(),
            ev == JsonValue::Object(*entries)@->Object_0,
            ev == JsonValue::Object(*old(entries))@->Object_0,
            i <= n,
            forall|j: int| 0 <= j < i ==> ev[j].0 != key@,
        decreases n - i,
    {
        assert(ev[i as int] == (entries@[i as int].0@, entries@[i as int].1@));
        if str_eq(entries[i].0.as_str(), key) {
            proof {
                lemma_find_key(ev, key@);
                assert(find_key(ev, key@) == Some(i as int));
            }
            let ghost before = *entries;
            entries.set(i, (key.to_owned(), val));
            assert(JsonValue::Object(*entries)@->Object_0 =~= ev.update(i as int, (key@, val@))) by {
                assert forall|j: int| 0 <= j < n implies (JsonValue::Object(*entries)@->Object_0)[j]
                    == ev.update(i as int, (key@, val@))[j] by {
                    if j != i {
                        assert(entries@[j] == before@[j]);
                        assert(ev[j] == (before@[j].0@, before@[j].1@));
                    }
                }
            }
            assert(JsonValue::Object(*entries)@ == JsonView::Object(
                JsonValue::Object(*entries)@->Object_0,
            ));
            assert(object_set(ev, key@, val@) == ev.update(i as int, (key@, val@)));
            assert(ev == JsonValue::Object(*old(entries))@->Object_0);
            return ;
        }
        i = i + 1;
    }
    proof {
        lemma_find_key(ev, key@);
    }
    let mut p: usize = 0;
    assert(ev.skip(0) == ev);
    while p < n && text_less(entries[p].0.as_str(), key)
        invariant
            n == entries@.len(),
            ev == JsonValue::Object(*entries)@->Object_0,
            ev == JsonValue::Object(*old(entries))@->Object_0,
            p <= n,
            insert_position(ev, key@) == p + insert_position(ev.skip(p as int), key@),
        decreases n - p,
    {
        assert(ev[p as int] == (entries@[p as int].0@, entries@[p as int].1@));
        assert(ev.skip(p as int).drop_first() == ev.skip(p + 1));
        p = p + 1;
    }
    proof {
        if p < n {
            assert(ev[p as int] == (entries@[p as int].0@, entries@[p as int].1@));
        }
        assert(insert_position(ev.skip(p as int), key@) == 0);
    }
    let ghost before = *entries;
    entries.insert(p, (key.to_owned(), val));
    assert(JsonValue::Object(*entries)@->Object_0 =~= ev.insert(p as int, (key@, val@))) by {
        assert forall|j: int| 0 <= j <= n implies (JsonValue::Object(*entries)@->Object_0)[j]
            == ev.insert(p as int, (key@, val@))[j] by {
            if j < p {
                assert(entries@[j] == before@[j]);
                assert(ev[j] == (before@[j].0@, before@[j].1@));
            } else if j > p {
                assert(entries@[j] == before@[j - 1]);
                assert(ev[j - 1] == (before@[j - 1].0@, before@[j - 1].1@));
            }
        }
    }
}

/// A character inside a JSON string literal: `"` and `\\` backslash-escaped,
/// control characters as `\b \f \n \r \t` or `\u00XX`, others as they are.
pub open spec fn escaped_char(c: char) -> Seq<char> {
    if c == '"' {
        seq!['\\', '"']
    } else if c == '\\' {
        seq!['\\', '\\']
    } else if c == '\x08' {
        seq!['\\', 'b']
    } else if c == '\x0c' {
        seq!['\\', 'f']
    } else if c == '\n' {
        seq!['\\', 'n']
    } else if c == '\r' {
        seq!['\\', 'r']
    } else if c == '\t' {
        seq!['\\', 't']
    } else if (c as u32) < 0x20 {
        seq!['\\', 'u', '0', '0', digit_char((c as u32 / 16) as nat), digit_char((c as u32 % 16) as nat)]
    } else {
        seq![c]
    }
}

/// The characters of `s` escaped for a JSON string literal.
pub open spec fn escaped(s: Seq<char>) -> Seq<char>
    decreases s.len(),
{
    if s.len() == 0 {
        Seq::empty()
    } else {
        escaped(s.drop_last()) + escaped_char(s.last())
    }
}

/// A JSON string literal holding `s`.
pub open spec fn quoted(s: Seq<char>) -> Seq<char> {
    seq!['"'] + escaped(s) + seq!['"']
}

/// The compact JSON text of a number.
pub open spec fn number_text(n: NumberView) -> Seq<char> {
    match n {
        NumberView::PosInt(u) => decimal_text(u as nat),
        NumberView::NegInt(i) => signed_decimal_text(i as int),
        NumberView::Float(t) => t,
    }
}

/// The compact JSON text of a value (no spaces; members in order).
pub open spec fn json_text(v: JsonView) -> Seq<char>
    decreases v,
{
    match v {
        JsonView::Null => "null"@,
        JsonView::Bool(b) => if b {
            "true"@
        } else {
            "false"@
        },
        JsonView::Number(n) => number_text(n),
        JsonView::Str(s) => quoted(s),
        JsonView::Array(items) => seq!['['] + joined(item_texts(items), seq![',']) + seq![']'],
        JsonView::Object(entries) => seq!['{'] + joined(member_texts(entries), seq![','])
            + seq!['}'],
    }
}

fn hex_digit(d: u32) -> (c: char)
    requires
        d < 16,
    ensures
        c == digit_char(d as nat),
{
    if d < 10 {
        let b: u8 = 48u8 + (d as u8);
        b as char
    } else {
        let b: u8 = 87u8 + (d as u8);
        b as char
    }
}

/// Appends `s` escaped for a JSON string literal.
fn push_escaped(out: &mut Vec<char>, s: &str)
    ensures
        final(out)@ == old(out)@ + escaped(s@),
{
    let cs = chars_of(s);
    let ghost start = out@;
    for i in 0..cs.len()
        invariant
            cs@ == s@,
            out@ == start + escaped(cs@.take(i as int)),
    {
        let c = cs[i];
        let ghost before = out@;
        if c == '"' {
            out.push('\\');
            out.push('"');
        } else if c == '\\' {
            out.push('\\');
            out.push('\\');
        } else if c == '\x08' {
            out.push('\\');
            out.push('b');
        } else if c == '\x0c' {
            out.push('\\');
            out.push('f');
        } else if c == '\n' {
            out.push('\\');
            out.push('n');
        } else if c == '\r' {
            out.push('\\');
            out.push('r');
        } else if c == '\t' {
            out.push('\\');
            out.push('t');
        } else if (c as u32) < 0x20 {
            out.push('\\');
            out.push('u');
            out.push('0');
            out.push('0');
            out.push(hex_digit((c as u32) / 16));
            out.push(hex_digit((c as u32) % 16));
        } else {
            out.push(c);
        }
        proof {
            assert(cs@.take(i + 1).drop_last() == cs@.take(i as int));
            assert(cs@.take(i + 1).last() == c);
            assert(out@ == before + escaped_char(c));
        }
    }
    assert(cs@.take(cs.len() as int) == cs@);
}

/// Appends `s` as a JSON string literal.
fn push_quoted(out: &mut Vec<char>, s: &str)
    ensures
        final(out)@ == old(out)@ + quoted(s@),
{
    out.push('"');
    push_escaped(out, s);
    out.push('"');
}

/// The texts of the elements of an array.
pub open spec fn item_texts(items: Seq<JsonView>) -> Seq<Seq<char>>
    decreases items,
{
    Seq::new(
        items.len(),
        |i: int|
            if 0 <= i < items.len() {
                json_text(items[i])
            } else {
                Seq::empty()
            },
    )
}

/// The texts (`"key":value`) of the members of an object.
pub open spec fn member_texts(entries: Seq<(Seq<char>, JsonView)>) -> Seq<Seq<char>>
    decreases entries,
{
    Seq::new(
        entries.len(),
        |i: int|
            if 0 <= i < entries.len() {
                quoted(entries[i].0) + seq![':'] + json_text(entries[i].1)
            } else {
                Seq::empty()
            },
    )
}

proof fn lemma_joined_step(parts: Seq<Seq<char>>, i: int, sep: Seq<char>)
    requires
        0 <= i < parts.len(),
    ensures
        joined(parts.take(i + 1), sep) == if i == 0 {
            parts[0]
        } else {
            joined(parts.take(i), sep) + sep + parts[i]
        },
{
    let next = parts.take(i + 1);
    assert(next.drop_last() == parts.take(i));
    assert(next.last() == parts[i]);
}

/// Appends the texts of `items` separated by commas.
#[verifier::loop_isolation(false)]
fn push_items_text(out: &mut Vec<char>, items: &Vec<JsonValue>)
    ensures
        final(out)@ == old(out)@ + joined(item_texts(JsonValue::Array(*items)@->Array_0), seq![',']),
    decreases items,
{
    let ghost start = out@;
    let ghost iv = JsonValue::Array(*items)@->Array_0;
    let ghost parts = item_texts(iv);
    for i in 0..items.len()
        invariant
            out@ == start + joined(parts.take(i as int), seq![',']),
    {
        if i > 0 {
            out.push(',');
        }
        proof {
            assert(decreases_to!(*items => items@[i as int]));
        }
        push_json_text(out, &items[i]);
        proof {
            assert(iv[i as int] == items@[i as int]@);
            lemma_joined_step(parts, i as int, seq![',']);
        }
    }
    assert(parts.take(items@.len() as int) == parts);
}

/// Appends the `"key":value` texts of `entries` separated by commas.
#[verifier::loop_isolation(false)]
fn push_members_text(out: &mut Vec<char>, entries: &Vec<(String, JsonValue)>)
    ensures
        final(out)@ == old(out)@ + joined(member_texts(JsonValue::Object(*entries)@->Object_0), seq![',']),
    decreases entries,
{
    let ghost start = out@;
    let ghost ev = JsonValue::Object(*entries)@->Object_0;
    let ghost parts = member_texts(ev);
    for i in 0..entries.len()
        invariant
            out@ == start + joined(parts.take(i as int), seq![',']),
    {
        let ghost before = out@;
        if i > 0 {
            out.push(',');
        }
        let ghost mid = out@;
        push_quoted(out, entries[i].0.as_str());
        out.push(':');
        proof {
            assert(decreases_to!(*entries => entries@[i as int].1));
        }
        push_json_text(out, &entries[i].1);
        proof {
            assert(ev[i as int] == (entries@[i as int].0@, entries@[i as int].1@));
            assert(out@ == mid + parts[i as int]);
            lemma_joined_step(parts, i as int, seq![',']);
        }
    }
    assert(parts.take(entries@.len() as int) == parts);
}

/// Appends the compact JSON text of `v` to `out`.
pub fn push_json_text(out: &mut Vec<char>, v: &JsonValue)
    ensures
        final(out)@ == old(out)@ + json_text(v@),
    decreases v,
{
    match v {
        JsonValue::Null => push_str(out, "null"),
        JsonValue::Bool(b) => if *b {
            push_str(out, "true")
        } else {
            push_str(out, "false")
        },
        JsonValue::Number(JsonNumber::PosInt(u)) => push_decimal(out, *u),
        JsonValue::Number(JsonNumber::NegInt(i)) => push_signed_decimal(out, *i),
        JsonValue::Number(JsonNumber::Float(t)) => push_str(out, t.as_str()),
        JsonValue::String(t) => push_quoted(out, t.as_str()),
        JsonValue::Array(items) => {
            out.push('[');
            push_items_text(out, items);
            out.push(']');
        },
        JsonValue::Object(entries) => {
            out.push('{');
            push_members_text(out, entries);
            out.push('}');
        },
    }
}

/// The first member holding `key` is what `find_key` finds.
pub proof fn lemma_find_key_at(entries: Seq<(Seq<char>, JsonView)>, key: Seq<char>, i: int)
    requires
        0 <= i < entries.len(),
        entries[i].0 == key,
        forall|j: int| 0 <= j < i ==> entries[j].0 != key,
    ensures
        find_key(entries, key) == Some(i),
{
    lemma_find_key(entries, key);
}

/// A new member's sorted place lies within the members.
proof fn lemma_insert_position_bound(entries: Seq<(Seq<char>, JsonView)>, key: Seq<char>)
    ensures
        insert_position(entries, key) <= entries.len(),
    decreases entries.len(),
{
    if entries.len() > 0 {
        lemma_insert_position_bound(entries.drop_first(), key);
    }
}

/// Reading a member just set gives the value written, and every other
/// member reads as before.
pub proof fn lemma_object_set_get(entries: Seq<(Seq<char>, JsonView)>, key: Seq<char>, val: JsonView, other: Seq<char>)
    requires
        other != key,
    ensures
        JsonView::Object(object_set(entries, key, val)).get(key) == Some(val),
        JsonView::Object(object_set(entries, key, val)).get(other) == JsonView::Object(entries).get(other),
{
    let r = object_set(entries, key, val);
    lemma_find_key(entries, key);
    lemma_find_key(entries, other);
    lemma_find_key(r, other);
    match find_key(entries, key) {
        Some(i) => {
            assert(r == entries.update(i, (key, val)));
            lemma_find_key_at(r, key, i);
            match find_key(entries, other) {
                Some(k) => lemma_find_key_at(r, other, k),
                None => {
                    if find_key(r, other) is Some {
                        let k = find_key(r, other)->Some_0;
                        assert(r[k] == entries[k]);
                    }
                },
            }
        },
        None => {
            let p = insert_position(entries, key) as int;
            lemma_insert_position_bound(entries, key);
            assert(r == entries.insert(p, (key, val)));
            assert forall|j: int| 0 <= j < p implies r[j].0 != key by {
                assert(r[j] == entries[j]);
            }
            lemma_find_key_at(r, key, p);
            match find_key(entries, other) {
                Some(k) => {
                    let k2 = if k < p { k } else { k + 1 };
                    assert(r[k2] == entries[k]);
                    assert forall|j: int| 0 <= j < k2 implies r[j].0 != other by {
                        if j < p {
                            assert(r[j] == entries[j]);
                        } else if j > p {
                            assert(r[j] == entries[j - 1]);
                        }
                    }
                    lemma_find_key_at(r, other, k2);
                },
                None => {
                    if find_key(r, other) is Some {
                        let k = find_key(r, other)->Some_0;
                        if k < p {
                            assert(r[k] == entries[k]);
                        } else if k > p {
                            assert(r[k] == entries[k - 1]);
                        }
                    }
                },
            }
        },
    }
}

/// Distinct texts are ordered one way or the other.
pub proof fn lemma_text_lt_total(a: Seq<char>, b: Seq<char>)
    requires
        a != b,
    ensures
        text_lt(a, b) || text_lt(b, a),
    decreases a.len(),
{
    if a.len() > 0 && b.len() > 0 && a[0] == b[0] {
        if a.drop_first() == b.drop_first() {
            assert(a =~= seq![a[0]] + a.drop_first());
            assert(b =~= seq![b[0]] + b.drop_first());
        }
        lemma_text_lt_total(a.drop_first(), b.drop_first());
    } else if a.len() == 0 && b.len() == 0 {
        assert(a =~= b);
    } else if a.len() > 0 && b.len() > 0 {
        vstd::utf8::char_u32_cast(a[0], a[0] as u32);
        vstd::utf8::char_u32_cast(b[0], b[0] as u32);
    }
}

/// The text order is transitive.
pub proof fn lemma_text_lt_transitive(a: Seq<char>, b: Seq<char>, c: Seq<char>)
    requires
        text_lt(a, b),
        text_lt(b, c),
    ensures
        text_lt(a, c),
    decreases a.len(),
{
    if a.len() > 0 && b.len() > 0 && c.len() > 0 && a[0] == b[0] && b[0] == c[0] {
        lemma_text_lt_transitive(a.drop_first(), b.drop_first(), c.drop_first());
    }
}

/// No text sorts before itself.
pub proof fn lemma_text_lt_irreflexive(a: Seq<char>)
    ensures
        !text_lt(a, a),
    decreases a.len(),
{
    if a.len() > 0 {
        lemma_text_lt_irreflexive(a.drop_first());
    }
}

/// Whether the members' keys strictly increase.
pub open spec fn keys_sorted(entries: Seq<(Seq<char>, JsonView)>) -> bool {
    forall|i: int, j: int| 0 <= i < j < entries.len() ==> text_lt(#[trigger] entries[i].0, #[trigger] entries[j].0)
}

/// The members before a new key's sorted place all sort before it, and the
/// first member from there on does not.
proof fn lemma_insert_position(entries: Seq<(Seq<char>, JsonView)>, key: Seq<char>)
    ensures
        insert_position(entries, key) <= entries.len(),
        forall|j: int| 0 <= j < insert_position(entries, key) ==> text_lt(#[trigger] entries[j].0, key),
        insert_position(entries, key) < entries.len() ==> !text_lt(
            entries[insert_position(entries, key) as int].0,
            key,
        ),
    decreases entries.len(),
{
    if entries.len() > 0 && text_lt(entries[0].0, key) {
        let rest = entries.drop_first();
        lemma_insert_position(rest, key);
        assert forall|j: int| 0 <= j < insert_position(entries, key) implies text_lt(#[trigger] entries[j].0, key) by {
            if j > 0 {
                assert(entries[j] == rest[j - 1]);
            }
        }
        if insert_position(entries, key) < entries.len() {
            assert(entries[insert_position(entries, key) as int] == rest[insert_position(rest, key) as int]);
        }
    }
}

/// Setting a member keeps the keys of a sorted object sorted, as in a map
/// ordered by key.
pub proof fn lemma_object_set_sorted(entries: Seq<(Seq<char>, JsonView)>, key: Seq<char>, val: JsonView)
    requires
        keys_sorted(entries),
    ensures
        keys_sorted(object_set(entries, key, val)),
{
    let r = object_set(entries, key, val);
    lemma_find_key(entries, key);
    match find_key(entries, key) {
        Some(i) => {
            assert forall|a: int, b: int| 0 <= a < b < r.len() implies text_lt(#[trigger] r[a].0, #[trigger] r[b].0) by {
                assert(r[a].0 == entries[a].0);
                assert(r[b].0 == entries[b].0);
            }
        },
        None => {
            let p = insert_position(entries, key) as int;
            lemma_insert_position(entries, key);
            assert(r == entries.insert(p, (key, val)));
            if p < entries.len() {
                lemma_text_lt_total(entries[p].0, key);
            }
            assert forall|j: int| p <= j < entries.len() implies text_lt(key, #[trigger] entries[j].0) by {
                if j > p {
                    lemma_text_lt_transitive(key, entries[p].0, entries[j].0);
                }
            }
            assert forall|a: int, b: int| 0 <= a < b < r.len() implies text_lt(#[trigger] r[a].0, #[trigger] r[b].0) by {
                if b < p {
                    assert(r[a] == entries[a] && r[b] == entries[b]);
                } else if b == p {
                    assert(r[a] == entries[a]);
                } else if a < p {
                    assert(r[a] == entries[a] && r[b] == entries[b - 1]);
                    lemma_text_lt_transitive(entries[a].0, key, entries[b - 1].0);
                } else if a == p {
                    assert(r[b] == entries[b - 1]);
                } else {
                    assert(r[a] == entries[a - 1] && r[b] == entries[b - 1]);
                }
            }
        },
    }
}

} // verus!
