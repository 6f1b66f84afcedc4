//! Execution control: continue, step, pause and thread listing.

use vstd::prelude::*;

use crate::context::sanitize::{sanitize_debuggee_output, sanitized};
use crate::dap::types::{DapEvent, EventView};
use crate::error::AppError;
use crate::json::{JsonValue, JsonView, JsonNumber, lemma_find_key_at, lemma_find_key};
use crate::services::event_loop::{int_json, int_number, or_else};
use crate::text::{decimal_text, signed_decimal_text, push_decimal, push_signed_decimal, push_str, string_of, joined};

verus! {

/// Parameters of the continue tool.
#[derive(Debug)]
pub struct ContinueParams {
    /// Thread ID to continue. Uses first available thread if omitted.
    pub thread_id: Option<i64>,
    /// If true, only resume this thread; other threads stay paused.
    pub single_thread: bool,
    /// Timeout in seconds to wait for the next stop event. Defaults to config value.
    pub timeout: Option<u64>,
}

/// Parameters of the step tool.
#[derive(Debug)]
pub struct StepParams {
    /// Step granularity: "in", "out", or "over".
    pub granularity: StepGranularity,
    /// Thread ID to step. Uses first available thread if omitted.
    pub thread_id: Option<i64>,
    /// If true, only step this thread; other threads stay paused.
    pub single_thread: bool,
    /// Timeout in seconds to wait for the next stop event. Defaults to config value.
    pub timeout: Option<u64>,
}

/// How far a step goes.
#[derive(Debug, Clone, Copy, PartialEq, Eq, Structural)]
pub enum StepGranularity {
    In,
    Out,
    Over,
}

/// Parameters of the pause tool.
#[derive(Debug)]
pub struct PauseParams {
    /// Thread ID to pause. If omitted, pauses all threads.
    pub thread_id: Option<i64>,
    /// Timeout in seconds to wait for the stop event confirming pause. Defaults to config value.
    pub timeout: Option<u64>,
}

/// Parameters of the threads tool (none).
#[derive(Debug)]
pub struct ThreadsParams {}

/// The DAP command for a step.
pub open spec fn step_command_text(g: StepGranularity) -> Seq<char> {
    match g {
        StepGranularity::Over => "next"@,
        StepGranularity::In => "stepIn"@,
        StepGranularity::Out => "stepOut"@,
    }
}

/// The DAP command for a step: `next`, `stepIn` or `stepOut`.
pub fn step_command(g: StepGranularity) -> (c: &'static str)
    ensures
        c@ == step_command_text(g),
{
    match g {
        StepGranularity::Over => "next",
        StepGranularity::In => "stepIn",
        StepGranularity::Out => "stepOut",
    }
}

/// The arguments of a `continue` or step request: the thread, and
/// `singleThread: true` when only that thread should run.
pub open spec fn resume_arguments_view(thread_id: i64, single_thread: bool) -> JsonView {
    if single_thread {
        JsonView::Object(
            seq![
                ("singleThread"@, JsonView::Bool(true)),
                ("threadId"@, JsonView::Number(int_number(thread_id))),
            ],
        )
    } else {
        JsonView::Object(seq![("threadId"@, JsonView::Number(int_number(thread_id)))])
    }
}

/// The arguments of a `continue` or step request.
pub fn resume_arguments(thread_id: i64, single_thread: bool) -> (r: JsonValue)
    ensures
        r@ == resume_arguments_view(thread_id, single_thread),
{
    let mut members: Vec<(String, JsonValue)> = Vec::new();
    if single_thread {
        members.push(("singleThread".to_owned(), JsonValue::Bool(true)));
    }
    members.push(("threadId".to_owned(), int_json(thread_id)));
    let r = JsonValue::Object(members);
    proof {
        let mv = r@->Object_0;
        assert forall|k: int| 0 <= k < members@.len() implies mv[k] == (
        members@[k].0@, members@[k].1@) by {}
        assert(mv =~= resume_arguments_view(thread_id, single_thread)->Object_0);
    }
    r
}

/// The first thread's id in a `threads` response body.
pub open spec fn first_thread(body: JsonView) -> Option<i64> {
    match body.get_array("threads"@) {
        Some(ts) => if ts.len() > 0 {
            ts[0].get_i64("id"@)
        } else {
            None
        },
        None => None,
    }
}

/// The thread to act on: the given one, or else the first thread the
/// adapter reports (an error when it reports none).
pub fn first_thread_id(body: &JsonValue) -> (r: Result<i64, AppError>)
    ensures
        r matches Ok(id) ==> first_thread(body@) == Some(id),
        r is Err ==> first_thread(body@) is None,
        r matches Err(e) ==> (e matches AppError::DapError(m) && m@ == "no threads available"@),
{
    match body.get("threads") {
        Some(ts) => match ts.as_array() {
            Some(items) => {
                if items.len() > 0 {
                    assert((ts@->Array_0)[0] == items@[0]@);
                    match items[0].get_i64("id") {
                        Some(id) => {
                            return Ok(id);
                        },
                        None => {},
                    }
                }
            },
            None => {},
        },
        None => {},
    }
    Err(AppError::DapError("no threads available".to_owned()))
}

/// The first line of the reply to a stop: `label: reason (thread N)`, with
/// `, all threads stopped` inside the parentheses when so.
pub open spec fn stop_header_text(label: Seq<char>, thread_id: i64, reason: Seq<char>, all: bool) -> Seq<char> {
    label + ": "@ + reason + " (thread "@ + signed_decimal_text(thread_id as int) + (if all {
        ", all threads stopped"@
    } else {
        Seq::empty()
    }) + ")"@
}

/// The reply to an event that ended a run: the stop header for a stop
/// (auto-context is appended to it), else the exit or termination notice.
pub open spec fn stop_reply_text(e: EventView, label: Seq<char>) -> Seq<char> {
    match e {
        EventView::Stopped { thread_id, reason, all_threads_stopped } => stop_header_text(
            label,
            thread_id,
            reason,
            all_threads_stopped,
        ),
        EventView::Exited { exit_code } => "Process exited with code "@ + signed_decimal_text(
            exit_code as int,
        ),
        _ => "Debug session terminated"@,
    }
}

/// The reply to an event that ended a run (see [`stop_reply_text`]).
pub fn stop_reply(e: &DapEvent, label: &str) -> (r: String)
    requires
        e is Stopped || e is Exited || e is Terminated,
    ensures
        r@ == stop_reply_text(e@, label@),
{
    let mut out: Vec<char> = Vec::new();
    match e {
        DapEvent::Stopped { thread_id, reason, all_threads_stopped } => {
            push_str(&mut out, label);
            push_str(&mut out, ": ");
            push_str(&mut out, reason.as_str());
            push_str(&mut out, " (thread ");
            push_signed_decimal(&mut out, *thread_id);
            if *all_threads_stopped {
                push_str(&mut out, ", all threads stopped");
            }
            push_str(&mut out, ")");
        },
        DapEvent::Exited { exit_code } => {
            push_str(&mut out, "Process exited with code ");
            push_signed_decimal(&mut out, *exit_code);
        },
        _ => {
            push_str(&mut out, "Debug session terminated");
        },
    }
    string_of(&out)
}

/// One line of the thread list.
pub open spec fn thread_line(t: JsonView) -> Seq<char> {
    "Thread "@ + signed_decimal_text(or_else(t.get_i64("id"@), -1i64) as int) + ": "@ + sanitized(
        or_else(t.get_str("name"@), "unnamed"@),
    ) + "\n"@
}

/// The thread lines of `ts`, in order.
pub open spec fn thread_lines(ts: Seq<JsonView>) -> Seq<char>
    decreases ts.len(),
{
    if ts.len() == 0 {
        Seq::empty()
    } else {
        thread_lines(ts.drop_last()) + thread_line(ts.last())
    }
}

/// The thread listing for a `threads` response body.
pub open spec fn threads_text(body: JsonView) -> Seq<char> {
    let ts = or_else(body.get_array("threads"@), Seq::empty());
    if ts.len() == 0 {
        "No threads available"@
    } else {
        thread_lines(ts) + "\n"@ + decimal_text(ts.len()) + " thread(s) total"@
    }
}

/// The thread listing (see [`threads_text`]).
pub fn threads_listing(body: &JsonValue) -> (r: String)
    ensures
        r@ == threads_text(body@),
{
    let empty: Vec<JsonValue> = Vec::new();
    let items: &Vec<JsonValue> = match body.get("threads") {
        Some(v) => match v.as_array() {
            Some(a) => a,
            None => &empty,
        },
        None => &empty,
    };
    let ghost iv = JsonValue::Array(*items)@->Array_0;
    assert(iv =~= or_else(body@.get_array("threads"@), Seq::empty()));
    let mut out: Vec<char> = Vec::new();
    if items.len() == 0 {
        push_str(&mut out, "No threads available");
        return string_of(&out);
    }
    for i in 0..items.len()
        invariant
            iv == JsonValue::Array(*items)@->Array_0,
            out@ == thread_lines(iv.take(i as int)),
    {
        let t = &items[i];
        let id = match t.get_i64("id") {
            Some(id) => id,
            None => -1,
        };
        let name = match t.get_str("name") {
            Some(n) => sanitize_debuggee_output(n),
            None => sanitize_debuggee_output("unnamed"),
        };
        push_str(&mut out, "Thread ");
        push_signed_decimal(&mut out, id);
        push_str(&mut out, ": ");
        push_str(&mut out, name.as_str());
        push_str(&mut out, "\n");
        proof {
            assert(iv[i as int] == items@[i as int]@);
            assert(iv.take(i + 1).drop_last() == iv.take(i as int));
            assert(iv.take(i + 1).last() == iv[i as int]);
        }
    }
    assert(iv.take(items.len() as int) == iv);
    push_str(&mut out, "\n");
    push_decimal(&mut out, items.len() as u64);
    push_str(&mut out, " thread(s) total");
    string_of(&out)
}

/// The thread acted on by default is the first one the adapter lists: an
/// id taken from a `threads` body is the `id` of `threads[0]`, and there is
/// one exactly when that thread has an integer id.
pub proof fn lemma_first_thread_is_first(body: JsonView)
    ensures
        first_thread(body) matches Some(id) ==> (body.get_array("threads"@) matches Some(ts) && ts.len() > 0
            && ts[0].get_i64("id"@) == Some(id)),
        (body.get_array("threads"@) matches Some(ts) && ts.len() > 0 && ts[0].get_i64("id"@) is Some)
            ==> first_thread(body) is Some,
{
}

/// A resume request names its thread, and asks for `singleThread: true`
/// exactly when only that thread should run.
pub proof fn lemma_resume_fields(thread_id: i64, single_thread: bool)
    ensures
        resume_arguments_view(thread_id, single_thread).get("threadId"@) == Some(
            JsonView::Number(int_number(thread_id)),
        ),
        resume_arguments_view(thread_id, single_thread).get("singleThread"@) == if single_thread {
            Some(JsonView::Bool(true))
        } else {
            None
        },
{
    reveal_strlit("threadId");
    reveal_strlit("singleThread");
    assert("threadId"@[1] != "singleThread"@[1]);
    let one = seq![("threadId"@, JsonView::Number(int_number(thread_id)))];
    let two = seq![("singleThread"@, JsonView::Bool(true)), ("threadId"@, JsonView::Number(int_number(thread_id)))];
    if single_thread {
        lemma_find_key_at(two, "singleThread"@, 0);
        lemma_find_key_at(two, "threadId"@, 1);
    } else {
        lemma_find_key_at(one, "threadId"@, 0);
        lemma_find_key(one, "singleThread"@);
    }
}

/// The reply to a stop starts with the label and the reason; the reply to
/// an exit reports the exit code.
pub proof fn lemma_stop_reply_parts(e: EventView, label: Seq<char>)
    ensures
        e matches EventView::Stopped { reason, .. } ==> stop_reply_text(e, label).take(
            (label + ": "@ + reason).len() as int,
        ) == label + ": "@ + reason,
        e matches EventView::Exited { exit_code } ==> stop_reply_text(e, label)
            == "Process exited with code "@ + signed_decimal_text(exit_code as int),
        e is Terminated ==> stop_reply_text(e, label) == "Debug session terminated"@,
{
    match e {
        EventView::Stopped { thread_id, reason, all_threads_stopped } => {
            let h = label + ": "@ + reason;
            let t = stop_reply_text(e, label);
            assert(t =~= h + (" (thread "@ + signed_decimal_text(thread_id as int) + (if all_threads_stopped {
                ", all threads stopped"@
            } else {
                Seq::empty()
            }) + ")"@));
            assert(t.take(h.len() as int) =~= h);
        },
        _ => {},
    }
}

/// The thread listing has one line per thread and ends with the number of
/// threads; with none it says so.
pub proof fn lemma_threads_count(body: JsonView)
    ensures
        ({
            let ts = or_else(body.get_array("threads"@), Seq::empty());
            let t = threads_text(body);
            let tail = "\n"@ + decimal_text(ts.len()) + " thread(s) total"@;
            &&& ts.len() == 0 ==> t == "No threads available"@
            &&& ts.len() > 0 ==> t.len() >= tail.len() && t.skip(t.len() - tail.len()) == tail
        }),
{
    let ts = or_else(body.get_array("threads"@), Seq::empty());
    if ts.len() > 0 {
        let tail = "\n"@ + decimal_text(ts.len()) + " thread(s) total"@;
        let t = threads_text(body);
        assert(t =~= thread_lines(ts) + tail);
        assert(t.skip(t.len() - tail.len()) =~= tail);
    }
}

} // verus!
