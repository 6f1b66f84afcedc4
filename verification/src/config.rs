//! Application configuration with sensible defaults.

use vstd::prelude::*;

verus! {

/// Application configuration.
#[derive(Debug)]
pub struct Config {
    /// Maximum length (bytes) of a variable value before truncation.
    pub max_variable_length: usize,
    /// Number of source lines to show above/below a breakpoint.
    pub source_context_lines: usize,
    /// Timeout in seconds for DAP requests.
    pub dap_timeout_secs: u64,
    /// Maximum array items to show when expanding compound values.
    pub max_array_items: usize,
    /// Maximum object keys to show when expanding compound values.
    pub max_object_keys: usize,
    /// Maximum nesting depth for variable/object expansion before truncation.
    pub max_nesting_depth: usize,
    /// Maximum number of cached pagination entries.
    pub pagination_cache_max_entries: usize,
    /// Time-to-live in seconds of a pagination cache entry.
    pub pagination_cache_ttl_secs: u64,
    /// Maximum scopes expanded for auto-context locals (0 disables).
    pub auto_context_max_scopes: usize,
    /// Maximum top-level variables shown per scope in auto-context.
    pub auto_context_max_vars_per_scope: usize,
    /// Allowed debug adapter basenames (e.g. "codelldb", "debugpy").
    /// An empty list disables the allow-list (allows all adapters).
    pub allowed_adapters: Vec<String>,
    /// GitHub repository (`owner/repo`) for issue creation; empty disables it.
    pub github_repo: String,
    /// Allowed issue labels; an empty list allows any label.
    pub github_allowed_labels: Vec<String>,
}

/// The texts of a list of strings.
pub open spec fn texts(v: Seq<String>) -> Seq<Seq<char>> {
    v.map_values(|s: String| s@)
}

fn strings(items: &[&str]) -> (v: Vec<String>)
    ensures
        texts(v@) == items@.map_values(|s: &str| s@),
{
    let mut v: Vec<String> = Vec::new();
    for i in 0..items.len()
        invariant
            v@.len() == i,
            forall|j: int| 0 <= j < i ==> #[trigger] v@[j]@ == items@[j]@,
    {
        v.push(items[i].to_owned());
    }
    assert(texts(v@) =~= items@.map_values(|s: &str| s@));
    v
}

impl Config {
    /// The default allow-list of debug adapters.
    pub open spec fn default_adapters() -> Seq<Seq<char>> {
        seq![
            "codelldb"@,
            "debugpy"@,
            "dlv"@,
            "python"@,
            "python3"@,
            "node"@,
            "lldb-dap"@,
        ]
    }

    /// The default allow-list of issue labels.
    pub open spec fn default_labels() -> Seq<Seq<char>> {
        seq!["bug"@, "enhancement"@, "question"@]
    }
}

impl Default for Config {
    fn default() -> (c: Self)
        ensures
            c.max_variable_length == 1000,
            c.source_context_lines == 5,
            c.dap_timeout_secs == 30,
            c.max_array_items == 10,
            c.max_object_keys == 10,
            c.max_nesting_depth == 3,
            c.pagination_cache_max_entries == 50,
            c.pagination_cache_ttl_secs == 300,
            c.auto_context_max_scopes == 3,
            c.auto_context_max_vars_per_scope == 20,
            texts(c.allowed_adapters@) == Config::default_adapters(),
            c.github_repo@ == "angalato08/mcp-dap"@,
            texts(c.github_allowed_labels@) == Config::default_labels(),
    {
        let adapters = strings(
            &["codelldb", "debugpy", "dlv", "python", "python3", "node", "lldb-dap"],
        );
        let labels = strings(&["bug", "enhancement", "question"]);
        let c = Config {
            max_variable_length: 1000,
            source_context_lines: 5,
            dap_timeout_secs: 30,
            max_array_items: 10,
            max_object_keys: 10,
            max_nesting_depth: 3,
            pagination_cache_max_entries: 50,
            pagination_cache_ttl_secs: 300,
            auto_context_max_scopes: 3,
            auto_context_max_vars_per_scope: 20,
            allowed_adapters: adapters,
            github_repo: "angalato08/mcp-dap".to_owned(),
            github_allowed_labels: labels,
        };
        assert(texts(c.allowed_adapters@) =~= Config::default_adapters());
        assert(texts(c.github_allowed_labels@) =~= Config::default_labels());
        c
    }
}

} // verus!
