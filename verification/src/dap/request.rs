//! DAP requests and responses as the client frames and checks them.

use vstd::prelude::*;

use crate::error::AppError;
use crate::json::{JsonValue, JsonView, lemma_find_key_at};
use crate::services::event_loop::{int_number, or_else};
use crate::text::{decimal_text, push_decimal, push_str, string_of};
use crate::services::event_loop::int_json;

verus! {

/// The request message with sequence number `seq`: members `arguments`
/// (when given), `command`, `seq` and `type: "request"`, in key order.
pub open spec fn request_view(seq: i64, command: Seq<char>, arguments: Option<JsonView>) -> JsonView {
    let base = seq![
        ("command"@, JsonView::Str(command)),
        ("seq"@, JsonView::Number(int_number(seq))),
        ("type"@, JsonView::Str("request"@)),
    ];
    match arguments {
        Some(a) => JsonView::Object(seq![("arguments"@, a)] + base),
        None => JsonView::Object(base),
    }
}

/// The view of optional request arguments.
pub open spec fn arguments_view(arguments: &Option<JsonValue>) -> Option<JsonView> {
    match arguments {
        Some(a) => Some(a@),
        None => None,
    }
}

/// Build a DAP request message (see [`request_view`]).
pub fn request_message(seq: i64, command: &str, arguments: Option<JsonValue>) -> (r: JsonValue)
    ensures
        r@ == request_view(seq, command@, arguments_view(&arguments)),
{
    let ghost args = arguments_view(&arguments);
    let mut members: Vec<(String, JsonValue)> = Vec::new();
    match arguments {
        Some(a) => members.push(("arguments".to_owned(), a)),
        None => {},
    }
    members.push(("command".to_owned(), JsonValue::String(command.to_owned())));
    members.push(("seq".to_owned(), int_json(seq)));
    members.push(("type".to_owned(), JsonValue::String("request".to_owned())));
    let r = JsonValue::Object(members);
    proof {
        let mv = r@->Object_0;
        assert forall|k: int| 0 <= k < members@.len() implies mv[k] == (
        members@[k].0@, members@[k].1@) by {}
        assert(mv =~= request_view(seq, command@, args)->Object_0);
    }
    r
}

/// The outcome of a DAP response: its `body` (null when missing) when
/// `success` is true, else a DAP error carrying its `message` (`unknown DAP
/// error` when missing). A missing `success` counts as failure.
pub open spec fn response_outcome(response: JsonView) -> Result<JsonView, Seq<char>> {
    if or_else(response.get_bool("success"@), false) {
        Ok(or_else(response.get("body"@), JsonView::Null))
    } else {
        Err(or_else(response.get_str("message"@), "unknown DAP error"@))
    }
}

/// Check a DAP response and return its body (see [`response_outcome`]).
pub fn response_body(response: &JsonValue) -> (r: Result<JsonValue, AppError>)
    ensures
        match response_outcome(response@) {
            Ok(b) => r matches Ok(v) && v@ == b,
            Err(m) => r matches Err(AppError::DapError(t)) && t@ == m,
        },
{
    let success = match response.get_bool("success") {
        Some(b) => b,
        None => false,
    };
    if !success {
        let message = match response.get_str("message") {
            Some(m) => m,
            None => "unknown DAP error",
        };
        return Err(AppError::DapError(message.to_owned()));
    }
    match response.get("body") {
        Some(b) => Ok(b.deep_clone()),
        None => Ok(JsonValue::Null),
    }
}

/// The arguments of the `initialize` request: this client's identity, lines
/// and columns counted from 1, and paths as file paths.
pub open spec fn initialize_arguments_view() -> JsonView {
    JsonView::Object(
        seq![
            ("adapterID"@, JsonView::Str("mcp-dap-rs"@)),
            ("clientID"@, JsonView::Str("mcp-dap-rs"@)),
            ("clientName"@, JsonView::Str("mcp-dap-rs"@)),
            ("columnsStartAt1"@, JsonView::Bool(true)),
            ("linesStartAt1"@, JsonView::Bool(true)),
            ("pathFormat"@, JsonView::Str("path"@)),
        ],
    )
}

/// The arguments of the `initialize` request (see [`initialize_arguments_view`]).
pub fn initialize_arguments() -> (r: JsonValue)
    ensures
        r@ == initialize_arguments_view(),
{
    let mut members: Vec<(String, JsonValue)> = Vec::new();
    members.push(("adapterID".to_owned(), JsonValue::String("mcp-dap-rs".to_owned())));
    members.push(("clientID".to_owned(), JsonValue::String("mcp-dap-rs".to_owned())));
    members.push(("clientName".to_owned(), JsonValue::String("mcp-dap-rs".to_owned())));
    members.push(("columnsStartAt1".to_owned(), JsonValue::Bool(true)));
    members.push(("linesStartAt1".to_owned(), JsonValue::Bool(true)));
    members.push(("pathFormat".to_owned(), JsonValue::String("path".to_owned())));
    let r = JsonValue::Object(members);
    proof {
        let mv = r@->Object_0;
        assert forall|k: int| 0 <= k < members@.len() implies mv[k] == (
        members@[k].0@, members@[k].1@) by {}
        assert(mv =~= initialize_arguments_view()->Object_0);
    }
    r
}

/// The local address a TCP adapter is told to listen on: `127.0.0.1:port`.
pub open spec fn tcp_address_text(port: u16) -> Seq<char> {
    "127.0.0.1:"@ + decimal_text(port as nat)
}

/// The local address a TCP adapter listens on (see [`tcp_address_text`]).
pub fn tcp_address(port: u16) -> (r: String)
    ensures
        r@ == tcp_address_text(port),
{
    let mut out: Vec<char> = Vec::new();
    push_str(&mut out, "127.0.0.1:");
    push_decimal(&mut out, port as u64);
    string_of(&out)
}

/// The adapter's command line for TCP transport: its own arguments, then
/// `-l` and the listening address.
pub fn tcp_adapter_args(args: &Vec<String>, port: u16) -> (r: Vec<String>)
    ensures
        r@.len() == args@.len() + 2,
        forall|i: int| 0 <= i < args@.len() ==> #[trigger] r@[i]@ == args@[i]@,
        r@[args@.len() as int]@ == "-l"@,
        r@[args@.len() as int + 1]@ == tcp_address_text(port),
{
    let mut out: Vec<String> = Vec::new();
    for i in 0..args.len()
        invariant
            out@.len() == i,
            forall|j: int| 0 <= j < i ==> #[trigger] out@[j]@ == args@[j]@,
    {
        out.push(args[i].clone());
    }
    out.push("-l".to_owned());
    out.push(tcp_address(port));
    out
}

/// The error after `attempts` failed connections to `addr`.
pub open spec fn connect_failure_text(addr: Seq<char>, attempts: u32) -> Seq<char> {
    "failed to connect to adapter at "@ + addr + " after "@ + decimal_text(attempts as nat) + " attempts"@
}

/// The error reported when a TCP adapter never accepted a connection.
pub fn connect_failed(addr: &str, attempts: u32) -> (e: AppError)
    ensures
        e matches AppError::DapError(m) && m@ == connect_failure_text(addr@, attempts),
{
    let mut out: Vec<char> = Vec::new();
    push_str(&mut out, "failed to connect to adapter at ");
    push_str(&mut out, addr);
    push_str(&mut out, " after ");
    push_decimal(&mut out, attempts as u64);
    push_str(&mut out, " attempts");
    AppError::DapError(string_of(&out))
}

/// A request message carries its sequence number, its command, the type
/// `request`, and its arguments exactly when some are given.
pub proof fn lemma_request_fields(seq: i64, command: Seq<char>, arguments: Option<JsonView>)
    ensures
        ({
            let m = request_view(seq, command, arguments);
            &&& m.get("seq"@) == Some(JsonView::Number(int_number(seq)))
            &&& m.get("command"@) == Some(JsonView::Str(command))
            &&& m.get("type"@) == Some(JsonView::Str("request"@))
            &&& m.get("arguments"@) == arguments
        }),
{
    reveal_strlit("arguments");
    reveal_strlit("command");
    reveal_strlit("seq");
    reveal_strlit("type");
    assert("arguments"@[0] != "command"@[0] && "arguments"@[0] != "seq"@[0] && "arguments"@[0] != "type"@[0]);
    assert("command"@[0] != "seq"@[0] && "command"@[0] != "type"@[0] && "seq"@[0] != "type"@[0]);
    let base = seq![
        ("command"@, JsonView::Str(command)),
        ("seq"@, JsonView::Number(int_number(seq))),
        ("type"@, JsonView::Str("request"@)),
    ];
    match arguments {
        Some(a) => {
            let ms = seq![("arguments"@, a)] + base;
            lemma_find_key_at(ms, "arguments"@, 0);
            lemma_find_key_at(ms, "command"@, 1);
            lemma_find_key_at(ms, "seq"@, 2);
            lemma_find_key_at(ms, "type"@, 3);
        },
        None => {
            lemma_find_key_at(base, "command"@, 0);
            lemma_find_key_at(base, "seq"@, 1);
            lemma_find_key_at(base, "type"@, 2);
            crate::json::lemma_find_key(base, "arguments"@);
        },
    }
}

/// A response succeeds exactly when its `success` member is `true`; it then
/// gives its `body` (null when missing), and otherwise its `message`
/// (`unknown DAP error` when missing).
pub proof fn lemma_response_outcome(response: JsonView)
    ensures
        response_outcome(response) is Ok <==> response.get_bool("success"@) == Some(true),
        response.get_bool("success"@) == Some(true) ==> response_outcome(response) == Ok::<JsonView, Seq<char>>(
            match response.get("body"@) {
                Some(b) => b,
                None => JsonView::Null,
            },
        ),
        response.get_bool("success"@) != Some(true) ==> response_outcome(response) == Err::<JsonView, Seq<char>>(
            match response.get_str("message"@) {
                Some(m) => m,
                None => "unknown DAP error"@,
            },
        ),
{
}

} // verus!
