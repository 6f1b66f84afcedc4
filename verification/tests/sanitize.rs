use mcp_dap::context::sanitize::sanitize_debuggee_output;

#[test]
fn strips_ansi_codes() {
    assert_eq!(sanitize_debuggee_output("\x1b[31mred\x1b[0m"), "red");
}

#[test]
fn strips_control_chars() {
    assert_eq!(sanitize_debuggee_output("hello\x00world"), "helloworld");
}

#[test]
fn preserves_normal_text() {
    assert_eq!(
        sanitize_debuggee_output("normal text\n"),
        "normal text\n"
    );
}

#[test]
fn preserves_unicode() {
    assert_eq!(sanitize_debuggee_output("hello 🌍"), "hello 🌍");
}

#[test]
fn keeps_tabs_and_carriage_returns() {
    assert_eq!(sanitize_debuggee_output("a\tb\r\nc"), "a\tb\r\nc");
}

#[test]
fn strips_c1_controls_and_lone_escape() {
    assert_eq!(sanitize_debuggee_output("a\u{85}b\x1bc\x7f"), "abc");
}

#[test]
fn unterminated_escape_swallows_rest() {
    assert_eq!(sanitize_debuggee_output("ok\x1b[12;34"), "ok");
}

#[test]
fn escape_parameters_are_dropped_through_final_byte() {
    assert_eq!(sanitize_debuggee_output("\x1b[1;31;40mX\x1b[K!"), "X!");
}
