use mcp_dap::config::Config;
use mcp_dap::error::AppError;
use mcp_dap::state::AppState;

fn state_with_whitelist(adapters: Vec<&str>) -> AppState {
    let config = Config {
        allowed_adapters: adapters.into_iter().map(String::from).collect(),
        ..Config::default()
    };
    AppState::new(config)
}

#[test]
fn validate_adapter_allows_whitelisted_basename() {
    let state = state_with_whitelist(vec!["codelldb", "dlv"]);
    assert!(state.validate_adapter_path("codelldb").is_ok());
    assert!(state.validate_adapter_path("/usr/bin/codelldb").is_ok());
    assert!(
        state
            .validate_adapter_path("/home/user/.local/bin/dlv")
            .is_ok()
    );
}

#[test]
fn validate_adapter_rejects_unknown() {
    let state = state_with_whitelist(vec!["codelldb", "dlv"]);
    assert!(state.validate_adapter_path("/usr/bin/evil").is_err());
    assert!(state.validate_adapter_path("bash").is_err());
}

#[test]
fn validate_adapter_rejects_traversal() {
    let state = state_with_whitelist(vec!["codelldb"]);
    assert!(state.validate_adapter_path("../../../bin/sh").is_err());
    assert!(state.validate_adapter_path("/tmp/../bin/codelldb").is_err());
}

#[test]
fn validate_adapter_empty_whitelist_allows_all() {
    let state = state_with_whitelist(vec![]);
    assert!(state.validate_adapter_path("/anything/goes").is_ok());
    assert!(state.validate_adapter_path("../evil").is_ok());
}

#[test]
fn validate_adapter_trailing_slash_and_dot() {
    let state = state_with_whitelist(vec!["codelldb", "dlv"]);
    assert!(state.validate_adapter_path("/usr/bin/codelldb/").is_ok());
    assert!(state.validate_adapter_path("/usr/bin/dlv/.").is_ok());
    assert!(state.validate_adapter_path("/").is_err());
    assert!(state.validate_adapter_path(".").is_err());
}

#[test]
fn validate_adapter_error_lists_allowed() {
    let state = state_with_whitelist(vec!["codelldb", "dlv"]);
    match state.validate_adapter_path("bash") {
        Err(AppError::UnauthorizedAdapter(path, allowed)) => {
            assert_eq!(path, "bash");
            assert_eq!(allowed, "codelldb, dlv");
        }
        other => panic!("unexpected: {other:?}"),
    }
}

#[test]
fn default_config_values() {
    let c = Config::default();
    assert_eq!(c.max_variable_length, 1000);
    assert_eq!(c.pagination_cache_max_entries, 50);
    assert_eq!(c.allowed_adapters.len(), 7);
    assert_eq!(c.github_repo, "angalato08/mcp-dap");
}
