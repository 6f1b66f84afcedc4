use mcp_dap::config::Config;
use mcp_dap::context::pagination::CacheEntry;
use mcp_dap::error::AppError;
use mcp_dap::json::{JsonNumber, JsonValue};
use mcp_dap::state::AppState;
use mcp_dap::tools::paging::{compound_result, count_items, page_text, slice_value};

fn num(i: u64) -> JsonValue {
    JsonValue::Number(JsonNumber::PosInt(i))
}

fn s(t: &str) -> JsonValue {
    JsonValue::String(t.to_string())
}

fn obj(members: Vec<(&str, JsonValue)>) -> JsonValue {
    JsonValue::Object(members.into_iter().map(|(k, v)| (k.to_string(), v)).collect())
}

fn numbers(n: u64) -> JsonValue {
    JsonValue::Array((0..n).map(num).collect())
}

fn small_config() -> Config {
    let mut c = Config::default();
    c.max_array_items = 3;
    c.max_object_keys = 2;
    c
}

#[test]
fn small_value_is_not_cached() {
    let mut state = AppState::new(small_config());
    let (shown, page) = state.summarize_with_pagination(numbers(3), true, "xs", "list");
    assert_eq!(shown, numbers(3));
    assert!(page.is_none());
    assert_eq!(state.pagination_cache.len(), 0);
}

#[test]
fn large_array_is_cached_and_paged() {
    let mut state = AppState::new(small_config());
    let (shown, page) = state.summarize_with_pagination(numbers(8), true, "xs", "list");
    assert_eq!(shown, numbers(3));
    let (token, total) = page.unwrap();
    assert_eq!(total, 8);
    assert!(token.starts_with("pg_"));
    assert_eq!(state.pagination_cache.len(), 1);

    let second = state.get_page(&token, None, None).unwrap();
    assert_eq!(second, format!("xs (list, 8 items, showing 3..6) [page: {token}]\n[3] 3\n[4] 4\n[5] 5\n"));
    let last = state.get_page(&token, Some(6), Some(10)).unwrap();
    // The last page carries no page metadata, so its header counts and numbers only what it shows.
    assert_eq!(last, "xs (list, 2 items)\n[0] 6\n[1] 7\n");
    let empty_end = state.get_page(&token, Some(8), None).unwrap();
    assert_eq!(empty_end, "xs (list, 0 items)\n");
}

#[test]
fn page_past_end_is_an_error() {
    let mut state = AppState::new(small_config());
    let (_, page) = state.summarize_with_pagination(numbers(5), true, "xs", "list");
    let (token, _) = page.unwrap();
    match state.get_page(&token, Some(9), None) {
        Err(AppError::Other(m)) => assert_eq!(m, "page offset is past the end of the cached value"),
        other => panic!("unexpected {other:?}"),
    }
}

#[test]
fn unknown_token_is_reported() {
    let mut state = AppState::new(small_config());
    match state.get_page("pg_nope", None, None) {
        Err(AppError::PaginationTokenNotFound(t)) => assert_eq!(t, "pg_nope"),
        other => panic!("unexpected {other:?}"),
    }
}

#[test]
fn large_object_first_keys() {
    let mut state = AppState::new(small_config());
    let value = obj(vec![("a", num(1)), ("b", num(2)), ("c", num(3))]);
    let (shown, page) = state.summarize_with_pagination(value, false, "o", "dict");
    assert_eq!(shown, obj(vec![("a", num(1)), ("b", num(2))]));
    let (token, total) = page.unwrap();
    assert_eq!(total, 3);
    assert_eq!(state.get_page(&token, None, None).unwrap(), "o (dict, 1 keys)\nc: 3\n");
}

#[test]
fn page_text_depth_limits_items() {
    let entry = CacheEntry {
        value: JsonValue::Array(vec![numbers(2), s("x"), numbers(1)]),
        expression: "m".into(),
        value_type: "t".into(),
        total_count: 3,
        is_array: true,
        created_at: 0,
    };
    let mut c = Config::default();
    c.max_nesting_depth = 1;
    assert_eq!(
        page_text(&entry, "pg_t", Some(0), Some(2), &c),
        "m (t, 3 items, showing 0..2) [page: pg_t]\n[0] [Array with 2 items — depth limit reached]\n[1] x\n"
    );
}

#[test]
fn compound_result_first_page() {
    assert_eq!(
        compound_result(&numbers(2), true, "v", "Vec", Some(("pg_a".to_string(), 9)), 3),
        "v (Vec, 9 items, showing 0..2) [page: pg_a]\n[0] 0\n[1] 1\n"
    );
    assert_eq!(compound_result(&numbers(1), true, "v", "Vec", None, 3), "v (Vec, 1 items)\n[0] 0\n");
}

#[test]
fn slices_and_counts() {
    assert_eq!(slice_value(&numbers(5), true, 1, 3), JsonValue::Array(vec![num(1), num(2)]));
    assert_eq!(count_items(&numbers(5), true), 5);
    assert_eq!(count_items(&numbers(5), false), 0);
    let o = obj(vec![("a", num(1)), ("b", num(2))]);
    assert_eq!(slice_value(&o, false, 1, 2), obj(vec![("b", num(2))]));
}
