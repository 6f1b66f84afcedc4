# mcp_dap

An MCP server that bridges AI agents to debug adapters speaking the Debug
Adapter Protocol (DAP).

- `src/` is the verified library (Verus): DAP framing and the session state
  machine, the JSON model, sanitizing and truncating debuggee output, the
  pagination cache, the adapter allow-list, and the logic of every tool
  (request arguments, reply texts, breakpoint tables, paging).
- `app/` is the server around it: the MCP transport and tool routing, the
  tokio event loop, adapter processes and sockets, file reading, and the
  GitHub API calls.
- `tests/` exercises the library.
