//! Starting and ending debug sessions: launch, attach and disconnect.

use vstd::prelude::*;

use crate::config::texts;
use crate::json::{JsonValue, JsonView, object_insert, object_set, find_key, lemma_find_key, lemma_find_key_at, lemma_object_set_get};
use crate::context::pagination::distinct_keys;
use crate::services::event_loop::int_number;
use crate::text::{push_str, push_signed_decimal, signed_decimal_text, string_of};
use crate::services::event_loop::int_json;

verus! {

/// How the server talks to the debug adapter.
#[derive(Debug, Clone, Copy, PartialEq, Eq, Structural)]
pub enum AdapterTransport {
    /// Communicate over adapter's stdin/stdout (default).
    Stdio,
    /// Communicate over TCP; adapter listens on this port.
    Tcp(u16),
}

impl Default for AdapterTransport {
    fn default() -> (t: Self)
        ensures
            t == AdapterTransport::Stdio,
    {
        AdapterTransport::Stdio
    }
}

/// Parameters of the launch tool.
#[derive(Debug)]
pub struct LaunchParams {
    /// Path to the debug adapter executable (e.g. "codelldb", "debugpy").
    pub adapter_path: String,
    /// Arguments to pass to the debug adapter.
    pub adapter_args: Vec<String>,
    /// Program to debug.
    pub program: String,
    /// Arguments to pass to the debugged program.
    pub program_args: Vec<String>,
    /// Working directory for the debugged program.
    pub cwd: Option<String>,
    /// Stop at entry point.
    pub stop_on_entry: bool,
    /// Transport mode: stdio (default) or TCP on a port.
    pub transport: AdapterTransport,
    /// Extra adapter-specific launch arguments (merged into the launch request).
    pub extra_launch_args: Option<JsonValue>,
}

/// Parameters of the attach tool.
#[derive(Debug)]
pub struct AttachParams {
    /// Path to the debug adapter executable.
    pub adapter_path: String,
    /// Arguments to pass to the debug adapter.
    pub adapter_args: Vec<String>,
    /// Process ID to attach to.
    pub pid: i64,
}

/// A JSON array of strings.
pub open spec fn string_array(items: Seq<Seq<char>>) -> JsonView {
    JsonView::Array(items.map_values(|t: Seq<char>| JsonView::Str(t)))
}

/// A JSON array holding `items` (see [`string_array`]).
pub fn string_array_value(items: &Vec<String>) -> (r: JsonValue)
    ensures
        r@ == string_array(texts(items@)),
{
    let mut out: Vec<JsonValue> = Vec::new();
    for i in 0..items.len()
        invariant
            out@.len() == i,
            forall|j: int| 0 <= j < i ==> #[trigger] out@[j]@ == JsonView::Str(items@[j]@),
    {
        out.push(JsonValue::String(items[i].clone()));
    }
    let r = JsonValue::Array(out);
    assert(r@->Array_0 =~= string_array(texts(items@))->Array_0) by {
        assert forall|j: int| 0 <= j < items@.len() implies #[trigger] (r@->Array_0)[j]
            == string_array(texts(items@))->Array_0[j] by {
            assert(out@[j]@ == JsonView::Str(items@[j]@));
        }
    }
    r
}

/// `entries` with each member of `extra` set in turn, later ones winning.
pub open spec fn merged(entries: Seq<(Seq<char>, JsonView)>, extra: Seq<(Seq<char>, JsonView)>) -> Seq<
    (Seq<char>, JsonView),
>
    decreases extra.len(),
{
    if extra.len() == 0 {
        entries
    } else {
        let before = merged(entries, extra.drop_last());
        object_set(before, extra.last().0, extra.last().1)
    }
}

/// The members of a launch request before any extra arguments: the program
/// and its arguments, whether to stop on entry, the internal console, and
/// the working directory when given.
pub open spec fn base_launch_members(program: Seq<char>, args: Seq<Seq<char>>, cwd: Option<Seq<char>>, stop_on_entry: bool) -> Seq<(Seq<char>, JsonView)> {
    let base = seq![
        ("args"@, string_array(args)),
        ("console"@, JsonView::Str("internalConsole"@)),
        ("program"@, JsonView::Str(program)),
        ("stopOnEntry"@, JsonView::Bool(stop_on_entry)),
    ];
    match cwd {
        Some(d) => object_set(base, "cwd"@, JsonView::Str(d)),
        None => base,
    }
}

/// The arguments of the launch request: the base members, with the members
/// of an object of extra arguments merged over them (extra arguments of any
/// other kind are ignored).
pub open spec fn launch_arguments_view(program: Seq<char>, args: Seq<Seq<char>>, cwd: Option<Seq<char>>, stop_on_entry: bool, extra: Option<JsonView>) -> JsonView {
    let base = base_launch_members(program, args, cwd, stop_on_entry);
    JsonView::Object(
        match extra {
            Some(JsonView::Object(ex)) => merged(base, ex),
            _ => base,
        },
    )
}

/// The view of an optional string.
pub open spec fn opt_view(o: &Option<String>) -> Option<Seq<char>> {
    match o {
        Some(s) => Some(s@),
        None => None,
    }
}

/// The view of an optional JSON value.
pub open spec fn opt_json_view(o: &Option<JsonValue>) -> Option<JsonView> {
    match o {
        Some(v) => Some(v@),
        None => None,
    }
}

/// The arguments of the launch request (see [`launch_arguments_view`]).
pub fn launch_arguments(params: &LaunchParams) -> (r: JsonValue)
    ensures
        r@ == launch_arguments_view(
            params.program@,
            texts(params.program_args@),
            opt_view(&params.cwd),
            params.stop_on_entry,
            opt_json_view(&params.extra_launch_args),
        ),
{
    let mut members: Vec<(String, JsonValue)> = Vec::new();
    members.push(("args".to_owned(), string_array_value(&params.program_args)));
    members.push(("console".to_owned(), JsonValue::String("internalConsole".to_owned())));
    members.push(("program".to_owned(), JsonValue::String(params.program.clone())));
    members.push(("stopOnEntry".to_owned(), JsonValue::Bool(params.stop_on_entry)));
    proof {
        let mv = JsonValue::Object(members)@->Object_0;
        assert forall|k: int| 0 <= k < members@.len() implies mv[k] == (
        members@[k].0@, members@[k].1@) by {}
        let b = seq![
            ("args"@, string_array(texts(params.program_args@))),
            ("console"@, JsonView::Str("internalConsole"@)),
            ("program"@, JsonView::Str(params.program@)),
            ("stopOnEntry"@, JsonView::Bool(params.stop_on_entry)),
        ];
        assert(mv =~= b);
    }
    match &params.cwd {
        Some(d) => object_insert(&mut members, "cwd", JsonValue::String(d.clone())),
        None => {},
    }
    let ghost base = JsonValue::Object(members)@->Object_0;
    assert(base == base_launch_members(
        params.program@,
        texts(params.program_args@),
        opt_view(&params.cwd),
        params.stop_on_entry,
    ));
    match &params.extra_launch_args {
        Some(JsonValue::Object(extra)) => {
            let ghost ex = JsonValue::Object(*extra)@->Object_0;
            for i in 0..extra.len()
                invariant
                    ex == JsonValue::Object(*extra)@->Object_0,
                    JsonValue::Object(members)@->Object_0 == merged(base, ex.take(i as int)),
            {
                let v = extra[i].1.deep_clone();
                object_insert(&mut members, extra[i].0.as_str(), v);
                proof {
                    assert(ex.take(i + 1).drop_last() =~= ex.take(i as int));
                    assert(ex.take(i + 1).last() == ex[i as int]);
                    assert(ex[i as int] == (extra@[i as int].0@, extra@[i as int].1@));
                }
            }
            assert(ex.take(extra@.len() as int) =~= ex);
        },
        _ => {},
    }
    JsonValue::Object(members)
}

/// The reply after a launch: whether the program waits at its entry point.
pub open spec fn launch_result_text(program: Seq<char>, stop_on_entry: bool) -> Seq<char> {
    "Debug session started ("@ + (if stop_on_entry {
        "stopped at entry"@
    } else {
        "running"@
    }) + "). Program: "@ + program
}

/// The reply after a launch (see [`launch_result_text`]).
pub fn launch_result(program: &str, stop_on_entry: bool) -> (r: String)
    ensures
        r@ == launch_result_text(program@, stop_on_entry),
{
    let mut out: Vec<char> = Vec::new();
    push_str(&mut out, "Debug session started (");
    if stop_on_entry {
        push_str(&mut out, "stopped at entry");
    } else {
        push_str(&mut out, "running");
    }
    push_str(&mut out, "). Program: ");
    push_str(&mut out, program);
    string_of(&out)
}

/// The arguments of the attach request.
pub open spec fn attach_arguments_view(pid: i64) -> JsonView {
    JsonView::Object(seq![("pid"@, JsonView::Number(int_number(pid)))])
}

/// The arguments of the attach request (see [`attach_arguments_view`]).
pub fn attach_arguments(pid: i64) -> (r: JsonValue)
    ensures
        r@ == attach_arguments_view(pid),
{
    let mut members: Vec<(String, JsonValue)> = Vec::new();
    members.push(("pid".to_owned(), int_json(pid)));
    let r = JsonValue::Object(members);
    assert(r@->Object_0 =~= attach_arguments_view(pid)->Object_0);
    r
}

/// The reply after attaching to process `pid`.
pub open spec fn attach_result_text(pid: i64) -> Seq<char> {
    "Attached to process (PID: "@ + signed_decimal_text(pid as int) + ")"@
}

/// The reply after attaching (see [`attach_result_text`]).
pub fn attach_result(pid: i64) -> (r: String)
    ensures
        r@ == attach_result_text(pid),
{
    let mut out: Vec<char> = Vec::new();
    push_str(&mut out, "Attached to process (PID: ");
    push_signed_decimal(&mut out, pid);
    push_str(&mut out, ")");
    string_of(&out)
}

/// The arguments of the disconnect request: the debuggee is terminated too.
pub open spec fn disconnect_arguments_view() -> JsonView {
    JsonView::Object(seq![("terminateDebuggee"@, JsonView::Bool(true))])
}

/// The arguments of the disconnect request (see [`disconnect_arguments_view`]).
pub fn disconnect_arguments() -> (r: JsonValue)
    ensures
        r@ == disconnect_arguments_view(),
{
    let mut members: Vec<(String, JsonValue)> = Vec::new();
    members.push(("terminateDebuggee".to_owned(), JsonValue::Bool(true)));
    let r = JsonValue::Object(members);
    proof {
        let mv = r@->Object_0;
        assert(mv[0] == (members@[0].0@, members@[0].1@));
        assert(mv =~= disconnect_arguments_view()->Object_0);
    }
    r
}

/// Where a launch or attach handshake stands.
#[derive(Debug, Clone, Copy, PartialEq, Eq, Structural)]
pub enum HandshakeStage {
    /// Nothing sent yet.
    Start,
    /// `initialize` sent; waiting for its response.
    Initializing,
    /// `launch` or `attach` sent without waiting for its response.
    Starting,
    /// Waiting for the adapter's `initialized` event.
    AwaitingInitialized,
    /// `configurationDone` sent; waiting for its response.
    Configuring,
    /// Waiting for the deferred `launch` or `attach` response.
    AwaitingStartResponse,
    /// Waiting for the stop at the program's entry point.
    AwaitingEntryStop,
    /// The handshake is over.
    Done,
}

/// What the server does next in a handshake.
#[derive(Debug, Clone, Copy, PartialEq, Eq, Structural)]
pub enum HandshakeAction {
    /// Send `initialize` and wait for its response.
    SendInitialize,
    /// Send `launch` or `attach` without waiting for its response.
    SendStart,
    /// Wait for the `initialized` event.
    WaitForInitialized,
    /// Send `configurationDone` and wait for its response.
    SendConfigurationDone,
    /// Collect and check the deferred `launch` or `attach` response.
    CollectStartResponse,
    /// Wait for a `stopped` event.
    WaitForStopped,
    /// Reply that the session has started.
    Reply,
    /// Give up: the last step failed.
    Fail,
    /// Nothing more to do.
    Nothing,
}

/// The next stage and action of a handshake whose last step (the one
/// `stage` names) ended well (`ok`) or not. The order is: initialize, send
/// the launch or attach request, wait for `initialized`, configurationDone,
/// collect the launch or attach response, then wait for the entry stop when
/// the program stops on entry, and reply. Any failure ends it.
pub open spec fn handshake_next(stage: HandshakeStage, ok: bool, stop_on_entry: bool) -> (HandshakeStage, HandshakeAction) {
    match stage {
        HandshakeStage::Start => (HandshakeStage::Initializing, HandshakeAction::SendInitialize),
        HandshakeStage::Done => (HandshakeStage::Done, HandshakeAction::Nothing),
        _ => if !ok {
            (HandshakeStage::Done, HandshakeAction::Fail)
        } else {
            match stage {
                HandshakeStage::Initializing => (HandshakeStage::Starting, HandshakeAction::SendStart),
                HandshakeStage::Starting => (HandshakeStage::AwaitingInitialized, HandshakeAction::WaitForInitialized),
                HandshakeStage::AwaitingInitialized => (HandshakeStage::Configuring, HandshakeAction::SendConfigurationDone),
                HandshakeStage::Configuring => (HandshakeStage::AwaitingStartResponse, HandshakeAction::CollectStartResponse),
                HandshakeStage::AwaitingStartResponse => if stop_on_entry {
                    (HandshakeStage::AwaitingEntryStop, HandshakeAction::WaitForStopped)
                } else {
                    (HandshakeStage::Done, HandshakeAction::Reply)
                },
                _ => (HandshakeStage::Done, HandshakeAction::Reply),
            }
        },
    }
}

/// One step of a launch or attach handshake (see [`handshake_next`]).
pub fn handshake_step(stage: HandshakeStage, ok: bool, stop_on_entry: bool) -> (r: (HandshakeStage, HandshakeAction))
    ensures
        r == handshake_next(stage, ok, stop_on_entry),
{
    match stage {
        HandshakeStage::Start => (HandshakeStage::Initializing, HandshakeAction::SendInitialize),
        HandshakeStage::Done => (HandshakeStage::Done, HandshakeAction::Nothing),
        _ => if !ok {
            (HandshakeStage::Done, HandshakeAction::Fail)
        } else {
            match stage {
                HandshakeStage::Initializing => (HandshakeStage::Starting, HandshakeAction::SendStart),
                HandshakeStage::Starting => (HandshakeStage::AwaitingInitialized, HandshakeAction::WaitForInitialized),
                HandshakeStage::AwaitingInitialized => (HandshakeStage::Configuring, HandshakeAction::SendConfigurationDone),
                HandshakeStage::Configuring => (HandshakeStage::AwaitingStartResponse, HandshakeAction::CollectStartResponse),
                HandshakeStage::AwaitingStartResponse => if stop_on_entry {
                    (HandshakeStage::AwaitingEntryStop, HandshakeAction::WaitForStopped)
                } else {
                    (HandshakeStage::Done, HandshakeAction::Reply)
                },
                _ => (HandshakeStage::Done, HandshakeAction::Reply),
            }
        },
    }
}

/// The actions of `n` steps from `stage` when every step ends well.
pub open spec fn successful_actions(stage: HandshakeStage, n: nat, stop_on_entry: bool) -> Seq<HandshakeAction>
    decreases n,
{
    if n == 0 {
        Seq::empty()
    } else {
        let (next, action) = handshake_next(stage, true, stop_on_entry);
        seq![action] + successful_actions(next, (n - 1) as nat, stop_on_entry)
    }
}

/// A handshake in which every step succeeds runs initialize, the launch or
/// attach request, the wait for `initialized`, configurationDone, the
/// collection of the deferred response, the entry stop when asked for, and
/// then replies; it does nothing after that.
pub proof fn lemma_handshake_order()
    ensures
        successful_actions(HandshakeStage::Start, 8, true) == seq![
            HandshakeAction::SendInitialize,
            HandshakeAction::SendStart,
            HandshakeAction::WaitForInitialized,
            HandshakeAction::SendConfigurationDone,
            HandshakeAction::CollectStartResponse,
            HandshakeAction::WaitForStopped,
            HandshakeAction::Reply,
            HandshakeAction::Nothing,
        ],
        successful_actions(HandshakeStage::Start, 7, false) == seq![
            HandshakeAction::SendInitialize,
            HandshakeAction::SendStart,
            HandshakeAction::WaitForInitialized,
            HandshakeAction::SendConfigurationDone,
            HandshakeAction::CollectStartResponse,
            HandshakeAction::Reply,
            HandshakeAction::Nothing,
        ],
{
    reveal_with_fuel(successful_actions, 9);
    assert(successful_actions(HandshakeStage::Start, 8, true) =~= seq![
        HandshakeAction::SendInitialize,
        HandshakeAction::SendStart,
        HandshakeAction::WaitForInitialized,
        HandshakeAction::SendConfigurationDone,
        HandshakeAction::CollectStartResponse,
        HandshakeAction::WaitForStopped,
        HandshakeAction::Reply,
        HandshakeAction::Nothing,
    ]);
    assert(successful_actions(HandshakeStage::Start, 7, false) =~= seq![
        HandshakeAction::SendInitialize,
        HandshakeAction::SendStart,
        HandshakeAction::WaitForInitialized,
        HandshakeAction::SendConfigurationDone,
        HandshakeAction::CollectStartResponse,
        HandshakeAction::Reply,
        HandshakeAction::Nothing,
    ]);
}

/// A failed step ends the handshake with a failure, whatever the stage
/// (once started and not yet over).
pub proof fn lemma_handshake_failure(stage: HandshakeStage, stop_on_entry: bool)
    requires
        stage != HandshakeStage::Start,
        stage != HandshakeStage::Done,
    ensures
        handshake_next(stage, false, stop_on_entry) == (HandshakeStage::Done, HandshakeAction::Fail),
{
}

/// The members of the base launch request read back as the launch
/// parameters: the program, its arguments, the internal console, whether to
/// stop on entry, and the working directory exactly when one is given.
pub proof fn lemma_base_launch_fields(program: Seq<char>, args: Seq<Seq<char>>, cwd: Option<Seq<char>>, stop_on_entry: bool)
    ensures
        ({
            let v = JsonView::Object(base_launch_members(program, args, cwd, stop_on_entry));
            &&& v.get("program"@) == Some(JsonView::Str(program))
            &&& v.get("args"@) == Some(string_array(args))
            &&& v.get("console"@) == Some(JsonView::Str("internalConsole"@))
            &&& v.get("stopOnEntry"@) == Some(JsonView::Bool(stop_on_entry))
            &&& v.get("cwd"@) == match cwd {
                Some(d) => Some(JsonView::Str(d)),
                None => None,
            }
        }),
{
    reveal_strlit("args");
    reveal_strlit("console");
    reveal_strlit("program");
    reveal_strlit("stopOnEntry");
    reveal_strlit("cwd");
    let base = seq![
        ("args"@, string_array(args)),
        ("console"@, JsonView::Str("internalConsole"@)),
        ("program"@, JsonView::Str(program)),
        ("stopOnEntry"@, JsonView::Bool(stop_on_entry)),
    ];
    assert("args"@ != "console"@ && "args"@ != "program"@ && "args"@ != "stopOnEntry"@ && "args"@ != "cwd"@) by {
        assert("args"@[0] != "console"@[0] && "args"@[0] != "program"@[0] && "args"@[0] != "stopOnEntry"@[0]
            && "args"@[0] != "cwd"@[0]);
    }
    assert("console"@ != "program"@ && "console"@ != "stopOnEntry"@ && "console"@ != "cwd"@) by {
        assert("console"@[0] != "program"@[0] && "console"@[0] != "stopOnEntry"@[0] && "console"@[1] != "cwd"@[1]);
    }
    assert("program"@ != "stopOnEntry"@ && "program"@ != "cwd"@) by {
        assert("program"@[0] != "stopOnEntry"@[0] && "program"@[0] != "cwd"@[0]);
    }
    assert("stopOnEntry"@ != "cwd"@) by {
        assert("stopOnEntry"@[0] != "cwd"@[0]);
    }
    lemma_find_key_at(base, "args"@, 0);
    lemma_find_key_at(base, "console"@, 1);
    lemma_find_key_at(base, "program"@, 2);
    lemma_find_key_at(base, "stopOnEntry"@, 3);
    lemma_find_key(base, "cwd"@);
    match cwd {
        Some(d) => {
            lemma_object_set_get(base, "cwd"@, JsonView::Str(d), "args"@);
            lemma_object_set_get(base, "cwd"@, JsonView::Str(d), "console"@);
            lemma_object_set_get(base, "cwd"@, JsonView::Str(d), "program"@);
            lemma_object_set_get(base, "cwd"@, JsonView::Str(d), "stopOnEntry"@);
        },
        None => {},
    }
}

/// Reading a member after merging: a key among the extra members (each key
/// once) reads as the extra value; any other key reads as before.
pub proof fn lemma_merged_get(entries: Seq<(Seq<char>, JsonView)>, extra: Seq<(Seq<char>, JsonView)>, key: Seq<char>)
    requires
        distinct_keys(extra),
    ensures
        JsonView::Object(merged(entries, extra)).get(key) == match find_key(extra, key) {
            Some(i) => Some(extra[i].1),
            None => JsonView::Object(entries).get(key),
        },
    decreases extra.len(),
{
    if extra.len() > 0 {
        let front = extra.drop_last();
        assert(distinct_keys(front)) by {
            assert forall|i: int, j: int| 0 <= i < front.len() && 0 <= j < front.len() && i != j implies front[i].0
                != front[j].0 by {
                assert(front[i] == extra[i] && front[j] == extra[j]);
            }
        }
        lemma_merged_get(entries, front, key);
        let last = extra.last();
        lemma_find_key(extra, key);
        lemma_find_key(front, key);
        if last.0 == key {
            assert(key.push('x').len() != key.len());
            lemma_object_set_get(merged(entries, front), key, last.1, key.push('x'));
            lemma_find_key_at(extra, key, extra.len() - 1);
        } else {
            lemma_object_set_get(merged(entries, front), last.0, last.1, key);
            match find_key(front, key) {
                Some(i) => {
                    assert(extra[i] == front[i]);
                    assert forall|j: int| 0 <= j < i implies extra[j].0 != key by {
                        assert(extra[j] == front[j]);
                    }
                    lemma_find_key_at(extra, key, i);
                },
                None => {
                    if find_key(extra, key) is Some {
                        let i = find_key(extra, key)->Some_0;
                        if i < front.len() {
                            assert(extra[i] == front[i]);
                        }
                    }
                },
            }
        }
    }
}

/// The launch request carries the launch parameters, with each member of an
/// object of extra arguments (each key once) overriding the member of the
/// same name; without extra arguments, `stopOnEntry` is the parameter.
pub proof fn lemma_launch_arguments_fields(
    program: Seq<char>,
    args: Seq<Seq<char>>,
    cwd: Option<Seq<char>>,
    stop_on_entry: bool,
    extra: Option<JsonView>,
    key: Seq<char>,
)
    requires
        extra matches Some(JsonView::Object(ex)) ==> distinct_keys(ex),
    ensures
        ({
            let v = launch_arguments_view(program, args, cwd, stop_on_entry, extra);
            let base = JsonView::Object(base_launch_members(program, args, cwd, stop_on_entry));
            &&& !(extra matches Some(JsonView::Object(_))) ==> v.get("stopOnEntry"@) == Some(
                JsonView::Bool(stop_on_entry),
            ) && v.get("program"@) == Some(JsonView::Str(program))
            &&& v.get(key) == match extra {
                Some(JsonView::Object(ex)) => match find_key(ex, key) {
                    Some(i) => Some(ex[i].1),
                    None => base.get(key),
                },
                _ => base.get(key),
            }
        }),
{
    lemma_base_launch_fields(program, args, cwd, stop_on_entry);
    match extra {
        Some(JsonView::Object(ex)) => {
            lemma_merged_get(base_launch_members(program, args, cwd, stop_on_entry), ex, key);
        },
        _ => {},
    }
}

} // verus!
