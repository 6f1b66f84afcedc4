//! Large compound results: caching them for pagination and rendering pages.

use vstd::prelude::*;

use crate::config::Config;
use crate::context::pagination::{CacheEntry, EntryView, PaginationCache, inserted, token_fresh, looked_up, entry_opt_view, token_text, now_unix_nanos};
use crate::context::truncation::{depth_limited, slice_entries, slice_items, truncate_nested};
use crate::error::AppError;
use crate::json::{JsonValue, JsonView};
use crate::services::event_loop::or_else;
use crate::state::AppState;
use crate::tools::inspect::{MetaView, PaginationMeta, compact_text, format_compact};

verus! {

/// The elements of a compound value: array items, or object members.
pub open spec fn item_count(value: JsonView, is_array: bool) -> nat {
    if is_array {
        or_else(value.as_array(), Seq::empty()).len()
    } else {
        or_else(value.as_object(), Seq::empty()).len()
    }
}

/// The first `n` elements of a compound value (the same kind of value).
pub open spec fn first_items(value: JsonView, is_array: bool, n: nat) -> JsonView {
    if is_array {
        JsonView::Array(or_else(value.as_array(), Seq::empty()).take(n as int))
    } else {
        JsonView::Object(or_else(value.as_object(), Seq::empty()).take(n as int))
    }
}

/// Elements `from..to` of a compound value.
pub open spec fn items_between(value: JsonView, is_array: bool, from: nat, to: nat) -> JsonView {
    if is_array {
        JsonView::Array(or_else(value.as_array(), Seq::empty()).subrange(from as int, to as int))
    } else {
        JsonView::Object(or_else(value.as_object(), Seq::empty()).subrange(from as int, to as int))
    }
}

/// The page size limit that the configuration sets for arrays or objects.
pub open spec fn page_limit(config: &Config, is_array: bool) -> nat {
    if is_array {
        config.max_array_items as nat
    } else {
        config.max_object_keys as nat
    }
}

/// Elements `from..to` of a compound value (see [`items_between`]).
pub fn slice_value(value: &JsonValue, is_array: bool, from: usize, to: usize) -> (r: JsonValue)
    requires
        from <= to <= item_count(value@, is_array),
    ensures
        r@ == items_between(value@, is_array, from as nat, to as nat),
{
    let empty_items: Vec<JsonValue> = Vec::new();
    let empty_entries: Vec<(String, JsonValue)> = Vec::new();
    if is_array {
        let items = match value.as_array() {
            Some(a) => a,
            None => &empty_items,
        };
        assert(JsonValue::Array(*items)@->Array_0 =~= or_else(value@.as_array(), Seq::empty()));
        JsonValue::Array(slice_items(items, from, to))
    } else {
        let entries = match value.as_object() {
            Some(o) => o,
            None => &empty_entries,
        };
        assert(JsonValue::Object(*entries)@->Object_0 =~= or_else(value@.as_object(), Seq::empty()));
        JsonValue::Object(slice_entries(entries, from, to))
    }
}

/// Number of elements of a compound value (see [`item_count`]).
pub fn count_items(value: &JsonValue, is_array: bool) -> (n: usize)
    ensures
        n == item_count(value@, is_array),
{
    if is_array {
        match value.as_array() {
            Some(a) => {
                assert(JsonValue::Array(*a)@->Array_0 =~= value@->Array_0);
                a.len()
            },
            None => 0,
        }
    } else {
        match value.as_object() {
            Some(o) => {
                assert(JsonValue::Object(*o)@->Object_0 =~= value@->Object_0);
                o.len()
            },
            None => 0,
        }
    }
}

/// The cache entry for a compound value read at `created_at`.
pub open spec fn entry_for(value: JsonView, is_array: bool, expression: Seq<char>, value_type: Seq<char>, created_at: nat) -> EntryView {
    EntryView {
        value,
        expression,
        value_type,
        total_count: item_count(value, is_array),
        is_array,
        created_at,
    }
}

/// Number of items of an array, members of an object, 0 for anything else.
pub open spec fn element_count(value: JsonView) -> nat {
    match value {
        JsonView::Array(items) => items.len(),
        JsonView::Object(entries) => entries.len(),
        _ => 0,
    }
}

fn element_count_of(value: &JsonValue) -> (n: usize)
    ensures
        n == element_count(value@),
{
    match value {
        JsonValue::Array(items) => items.len(),
        JsonValue::Object(entries) => entries.len(),
        _ => 0,
    }
}

/// Page metadata shown for the first page of a cached value.
pub open spec fn first_page_meta(token: Seq<char>, total: nat, shown: JsonView) -> MetaView {
    MetaView { token, total, offset: 0, end: element_count(shown) }
}

/// The compact text of an evaluated compound value after summarizing: the
/// shown part is depth limited, and the page metadata follows the token and
/// total that caching handed back.
pub open spec fn compound_text(
    shown: JsonView,
    is_array: bool,
    expression: Seq<char>,
    value_type: Seq<char>,
    page: Option<(Seq<char>, nat)>,
    max_depth: nat,
) -> Seq<char> {
    let sliced = depth_limited(shown, max_depth);
    compact_text(
        sliced,
        is_array,
        expression,
        value_type,
        match page {
            Some(p) => Some(first_page_meta(p.0, p.1, sliced)),
            None => None,
        },
    )
}

/// Render an evaluated compound value (see [`compound_text`]).
pub fn compound_result(
    shown: &JsonValue,
    is_array: bool,
    expression: &str,
    value_type: &str,
    page: Option<(String, usize)>,
    max_depth: usize,
) -> (r: String)
    ensures
        r@ == compound_text(
            shown@,
            is_array,
            expression@,
            value_type@,
            match page {
                Some(p) => Some((p.0@, p.1 as nat)),
                None => None,
            },
            max_depth as nat,
        ),
{
    let sliced = truncate_nested(shown, max_depth);
    let meta = match page {
        Some((token, total)) => Some(PaginationMeta { token, total, offset: 0, end: element_count_of(&sliced) }),
        None => None,
    };
    format_compact(&sliced, is_array, expression, value_type, meta.as_ref())
}

/// Where a requested page starts and ends: `limit` defaults to the
/// configured page size, `offset` to one page in (the first page was shown
/// with the evaluation), and the end is clipped to the cached element count.
pub open spec fn page_start(e: EntryView, offset: Option<usize>, limit: Option<usize>, config: &Config) -> nat {
    let lim: nat = match limit {
        Some(l) => l as nat,
        None => page_limit(config, e.is_array),
    };
    match offset {
        Some(o) => o as nat,
        None => lim,
    }
}

/// The end of the requested page (see [`page_start`]).
pub open spec fn page_end(e: EntryView, offset: Option<usize>, limit: Option<usize>, config: &Config) -> nat {
    let lim: nat = match limit {
        Some(l) => l as nat,
        None => page_limit(config, e.is_array),
    };
    let n = item_count(e.value, e.is_array);
    let to = page_start(e, offset, limit, config) + lim;
    if to < n {
        to
    } else {
        n
    }
}

/// The text of a page of cached entry `e` reached by `token`: the elements
/// between its start and end, depth limited, with page metadata while more
/// elements follow.
pub open spec fn page_text_view(e: EntryView, token: Seq<char>, offset: Option<usize>, limit: Option<usize>, config: &Config) -> Seq<char> {
    let from = page_start(e, offset, limit, config);
    let end = page_end(e, offset, limit, config);
    compact_text(
        depth_limited(items_between(e.value, e.is_array, from, end), config.max_nesting_depth as nat),
        e.is_array,
        e.expression,
        e.value_type,
        if end < e.total_count {
            Some(MetaView { token, total: e.total_count, offset: from, end })
        } else {
            None
        },
    )
}

/// Render a page of a cached entry (see [`page_text_view`]). The page must
/// start within the cached elements.
pub fn page_text(entry: &CacheEntry, token: &str, offset: Option<usize>, limit: Option<usize>, config: &Config) -> (r: String)
    requires
        page_start(entry@, offset, limit, config) <= item_count(entry@.value, entry.is_array),
    ensures
        r@ == page_text_view(entry@, token@, offset, limit, config),
{
    let is_array = entry.is_array;
    let lim = match limit {
        Some(l) => l,
        None => if is_array {
            config.max_array_items
        } else {
            config.max_object_keys
        },
    };
    let from = match offset {
        Some(o) => o,
        None => lim,
    };
    let n = count_items(&entry.value, is_array);
    let end = if lim < n - from {
        from + lim
    } else {
        n
    };
    let page = slice_value(&entry.value, is_array, from, end);
    let sliced = truncate_nested(&page, config.max_nesting_depth);
    let meta = if end < entry.total_count {
        Some(PaginationMeta { token: token.to_owned(), total: entry.total_count, offset: from, end })
    } else {
        None
    };
    proof {
        if sliced@ is Array {
            assert(page@ is Array);
        }
    }
    format_compact(&sliced, is_array, entry.expression.as_str(), entry.value_type.as_str(), meta.as_ref())
}

/// The message of the error for a page that starts past the cached elements.
pub open spec fn offset_error_text() -> Seq<char> {
    "page offset is past the end of the cached value"@
}

/// What a page request answers for the entry `found` (`None` when the token
/// is unknown or expired): the page text, or the matching error.
pub open spec fn page_answer(
    found: Option<EntryView>,
    token: Seq<char>,
    offset: Option<usize>,
    limit: Option<usize>,
    config: &Config,
    r: Result<String, AppError>,
) -> bool {
    match found {
        None => r matches Err(AppError::PaginationTokenNotFound(t)) && t@ == token,
        Some(e) => if page_start(e, offset, limit, config) <= item_count(e.value, e.is_array) {
            r matches Ok(text) && text@ == page_text_view(e, token, offset, limit, config)
        } else {
            r matches Err(AppError::Other(m)) && m@ == offset_error_text()
        },
    }
}

impl AppState {
    /// Summarize a raw compound value for display: one that exceeds the
    /// configured limit is cached for pagination and only its first page is
    /// returned, with the token and the total element count.
    pub fn summarize_with_pagination(&mut self, raw_value: JsonValue, is_array: bool, expression: &str, value_type: &str) -> (r: (JsonValue, Option<(String, usize)>))
        requires
            old(self).pagination_cache.wf(),
        ensures
            final(self).config == old(self).config,
            final(self).pagination_cache.wf(),
            item_count(raw_value@, is_array) <= page_limit(&old(self).config, is_array) ==> r.0@
                == raw_value@ && r.1 is None && final(self).pagination_cache@ == old(
                self,
            ).pagination_cache@,
            item_count(raw_value@, is_array) > page_limit(&old(self).config, is_array) ==> {
                &&& r.0@ == first_items(raw_value@, is_array, page_limit(&old(self).config, is_array))
                &&& r.1 is Some
                &&& r.1->Some_0.1 == item_count(raw_value@, is_array)
                &&& exists|created: nat, nanos: nat|
                    r.1->Some_0.0@ == token_text(nanos, old(self).pagination_cache@.counter)
                        && final(self).pagination_cache@ == inserted(
                        old(self).pagination_cache@,
                        entry_for(raw_value@, is_array, expression@, value_type@, created),
                        nanos,
                    ) && token_fresh(old(self).pagination_cache@, nanos)
            },
    {
        let total = count_items(&raw_value, is_array);
        let limit = if is_array {
            self.config.max_array_items
        } else {
            self.config.max_object_keys
        };
        if total <= limit {
            return (raw_value, None);
        }
        let sliced = slice_value(&raw_value, is_array, 0, limit);
        let ghost c0 = self.pagination_cache@;
        let ghost raw = raw_value@;
        let created_at = now_unix_nanos();
        let entry = CacheEntry {
            value: raw_value,
            expression: expression.to_owned(),
            value_type: value_type.to_owned(),
            total_count: total,
            is_array,
            created_at,
        };
        let token = self.pagination_cache.insert(entry);
        proof {
            if is_array {
                let v = or_else(raw.as_array(), Seq::empty());
                assert(v.subrange(0, limit as int) =~= v.take(limit as int));
            } else {
                let o = or_else(raw.as_object(), Seq::empty());
                assert(o.subrange(0, limit as int) =~= o.take(limit as int));
            }
            let e = entry_for(raw, is_array, expression@, value_type@, created_at as nat);
            let nanos = choose|nanos: nat|
                token@ == token_text(nanos, c0.counter) && #[trigger] inserted(c0, e, nanos) == self.pagination_cache@
                    && token_fresh(c0, nanos);
            assert(token@ == token_text(nanos, c0.counter) && self.pagination_cache@ == inserted(c0, e, nanos)
                && token_fresh(c0, nanos));
        }
        (sliced, Some((token, total)))
    }

    /// Fetch a page of a previously summarized result by its pagination
    /// token (see [`page_answer`]); an expired entry is dropped on the way.
    pub fn get_page(&mut self, token: &str, offset: Option<usize>, limit: Option<usize>) -> (r: Result<String, AppError>)
        requires
            old(self).pagination_cache.wf(),
        ensures
            final(self).config == old(self).config,
            final(self).pagination_cache.wf(),
            exists|now: nat, found: Option<EntryView>|
                looked_up(old(self).pagination_cache@, token@, now, found, final(self).pagination_cache@)
                    && page_answer(found, token@, offset, limit, &old(self).config, r),
    {
        let ghost c0 = self.pagination_cache@;
        let config = &self.config;
        let found_entry = self.pagination_cache.get(token);
        let ghost found = entry_opt_view(found_entry);
        let res = match found_entry {
            None => Err(AppError::PaginationTokenNotFound(token.to_owned())),
            Some(entry) => {
                let is_array = entry.is_array;
                let lim = match limit {
                    Some(l) => l,
                    None => if is_array {
                        config.max_array_items
                    } else {
                        config.max_object_keys
                    },
                };
                let from = match offset {
                    Some(o) => o,
                    None => lim,
                };
                if from > count_items(&entry.value, is_array) {
                    Err(AppError::Other("page offset is past the end of the cached value".to_owned()))
                } else {
                    Ok(page_text(entry, token, offset, limit, config))
                }
            },
        };
        proof {
            reveal_strlit("page offset is past the end of the cached value");
            let now = choose|now: nat| #[trigger] looked_up(c0, token@, now, found, self.pagination_cache@);
            assert(looked_up(c0, token@, now, found, self.pagination_cache@));
            assert(page_answer(found, token@, offset, limit, &self.config, res));
        }
        res
    }
}

/// A page holds at most the limit, which defaults to the configured page
/// size whether or not an offset is given; it is full unless it reaches the
/// end of the cached elements, and never runs past them. Without an offset
/// the page starts one page in.
pub proof fn lemma_page_size(e: EntryView, offset: Option<usize>, limit: Option<usize>, config: &Config)
    ensures
        ({
            let lim: nat = match limit {
                Some(l) => l as nat,
                None => page_limit(config, e.is_array),
            };
            let from = page_start(e, offset, limit, config);
            let end = page_end(e, offset, limit, config);
            let n = item_count(e.value, e.is_array);
            &&& end <= from + lim
            &&& end <= n
            &&& from <= n ==> from <= end && (end == from + lim || end == n)
            &&& from == match offset {
                Some(o) => o as nat,
                None => lim,
            }
        }),
{
}

} // verus!
