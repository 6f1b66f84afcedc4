use mcp_dap::context::source::source_context_of;

#[test]
fn middle_of_file() {
    let result = source_context_of("line1\nline2\nline3\nline4\nline5\n", 3, 1);
    assert!(result.contains("line2"));
    assert!(result.contains("line3"));
    assert!(result.contains("line4"));
    assert!(result.contains("→"));
    assert!(!result.contains("line1"));
    assert!(!result.contains("line5"));
}

#[test]
fn first_line() {
    let result = source_context_of("first\nsecond\nthird\n", 1, 1);
    assert!(result.contains("first"));
    assert!(result.contains("→"));
}

#[test]
fn last_line() {
    let result = source_context_of("aaa\nbbb\nccc\n", 3, 1);
    assert!(result.contains("ccc"));
    assert!(result.contains("→"));
}

#[test]
fn line_zero_out_of_range() {
    let result = source_context_of("hello\n", 0, 1);
    assert!(result.contains("out of range"));
}

#[test]
fn line_beyond_end_out_of_range() {
    let result = source_context_of("hello\n", 999, 1);
    assert!(result.contains("out of range"));
    assert_eq!(result, "[line 999 out of range, file has 1 lines]");
}

#[test]
fn single_line_file() {
    let result = source_context_of("only line", 1, 2);
    assert!(result.contains("only line"));
    assert!(result.contains("→"));
}

#[test]
fn exact_layout() {
    let result = source_context_of("a\r\nb\nc", 2, 1);
    assert_eq!(result, "     1 │ a\n→    2 │ b\n     3 │ c\n");
}

#[test]
fn huge_context_reaching_usize_max() {
    let out = source_context_of("a\nb\nc", 2, usize::MAX - 2);
    assert_eq!(out, "     1 │ a\n→    2 │ b\n     3 │ c\n");
}
