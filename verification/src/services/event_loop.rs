//! What the event loop does with each message read from the adapter.
//!
//! The loop itself (reading the stream, completing pending requests,
//! broadcasting, writing) runs outside the library; it asks
//! [`action_for_message`] what to do with each message.

use vstd::prelude::*;

use crate::context::sanitize::{sanitize_debuggee_output, sanitized};
use crate::dap::state_machine::SessionPhase;
use crate::dap::types::{DapEvent, EventView, phase_after};
use crate::json::{JsonValue, JsonView, JsonNumber, NumberView, str_eq};
use crate::text::{push_str, string_of};

verus! {

/// What to do with a message from the adapter.
#[derive(Debug)]
pub enum LoopAction {
    /// A response: hand it to the request `request_seq` waiting for it.
    DeliverResponse { request_seq: i64 },
    /// An event: move the session to `phase` (if any), then broadcast `event`.
    Broadcast { event: DapEvent, phase: Option<SessionPhase> },
    /// A reverse request from the adapter: answer it with `response`, an error.
    RejectRequest { response: JsonValue },
    /// Nothing to do (unknown message type or unhandled event).
    Ignore,
}

/// Mathematical view of a loop action.
pub enum ActionView {
    DeliverResponse { request_seq: i64 },
    Broadcast { event: EventView, phase: Option<SessionPhase> },
    RejectRequest { response: JsonView },
    Ignore,
}

impl LoopAction {
    pub open spec fn view(&self) -> ActionView {
        match self {
            LoopAction::DeliverResponse { request_seq } => ActionView::DeliverResponse {
                request_seq: *request_seq,
            },
            LoopAction::Broadcast { event, phase } => ActionView::Broadcast {
                event: event@,
                phase: *phase,
            },
            LoopAction::RejectRequest { response } => ActionView::RejectRequest {
                response: response@,
            },
            LoopAction::Ignore => ActionView::Ignore,
        }
    }
}

/// `o`'s value, or `d` when absent.
pub open spec fn or_else<T>(o: Option<T>, d: T) -> T {
    match o {
        Some(v) => v,
        None => d,
    }
}

/// An integer as a JSON number.
pub open spec fn int_number(i: i64) -> NumberView {
    if i >= 0 {
        NumberView::PosInt(i as u64)
    } else {
        NumberView::NegInt(i)
    }
}

/// The event a DAP event message named `name` with body `body` stands for;
/// missing fields take defaults (thread 0, reason `unknown`, exit code -1,
/// empty output); debuggee output is sanitized.
pub open spec fn event_for(name: Seq<char>, body: JsonView) -> Option<EventView> {
    if name == "stopped"@ {
        Some(
            EventView::Stopped {
                thread_id: or_else(body.get_i64("threadId"@), 0i64),
                reason: or_else(body.get_str("reason"@), "unknown"@),
                all_threads_stopped: or_else(body.get_bool("allThreadsStopped"@), false),
            },
        )
    } else if name == "continued"@ {
        Some(EventView::Continued { thread_id: or_else(body.get_i64("threadId"@), 0i64) })
    } else if name == "exited"@ {
        Some(EventView::Exited { exit_code: or_else(body.get_i64("exitCode"@), -1i64) })
    } else if name == "initialized"@ {
        Some(EventView::Initialized)
    } else if name == "terminated"@ {
        Some(EventView::Terminated)
    } else if name == "output"@ {
        Some(
            EventView::Output {
                category: body.get_str("category"@),
                output: sanitized(or_else(body.get_str("output"@), ""@)),
            },
        )
    } else if name == "capabilities"@ {
        Some(EventView::Capabilities(body))
    } else {
        None
    }
}

/// The error response to a reverse request `command` with sequence number `seq`.
pub open spec fn reject_response(seq: i64, command: Seq<char>) -> JsonView {
    JsonView::Object(
        seq![
            ("command"@, JsonView::Str(command)),
            (
                "message"@,
                JsonView::Str(
                    "mcp-dap-rs does not support reverse request '"@ + command + "'"@,
                ),
            ),
            ("request_seq"@, JsonView::Number(int_number(seq))),
            ("seq"@, JsonView::Number(NumberView::PosInt(0))),
            ("success"@, JsonView::Bool(false)),
            ("type"@, JsonView::Str("response"@)),
        ],
    )
}

/// What to do with message `msg`, by its `type`: a response goes to
/// `request_seq` (-1 if missing); an event is broadcast (see [`event_for`]);
/// a request is rejected; anything else is ignored.
pub open spec fn action_for(msg: JsonView) -> ActionView {
    let t = or_else(msg.get_str("type"@), ""@);
    if t == "response"@ {
        ActionView::DeliverResponse { request_seq: or_else(msg.get_i64("request_seq"@), -1i64) }
    } else if t == "event"@ {
        let body = or_else(msg.get("body"@), JsonView::Null);
        match event_for(or_else(msg.get_str("event"@), ""@), body) {
            Some(e) => ActionView::Broadcast { event: e, phase: phase_after(e) },
            None => ActionView::Ignore,
        }
    } else if t == "request"@ {
        ActionView::RejectRequest {
            response: reject_response(
                or_else(msg.get_i64("seq"@), 0i64),
                or_else(msg.get_str("command"@), "unknown"@),
            ),
        }
    } else {
        ActionView::Ignore
    }
}

pub(crate) fn int_json(i: i64) -> (v: JsonValue)
    ensures
        v@ == JsonView::Number(int_number(i)),
{
    if i >= 0 {
        JsonValue::Number(JsonNumber::PosInt(i as u64))
    } else {
        JsonValue::Number(JsonNumber::NegInt(i))
    }
}

fn event_from(name: &str, body: JsonValue) -> (r: Option<DapEvent>)
    ensures
        r matches Some(e) ==> event_for(name@, body@) == Some(e@),
        r is None ==> event_for(name@, body@) is None,
{
    if str_eq(name, "stopped") {
        let thread_id = match body.get_i64("threadId") {
            Some(t) => t,
            None => 0,
        };
        let reason = match body.get_str("reason") {
            Some(r) => r.to_owned(),
            None => "unknown".to_owned(),
        };
        let all = match body.get_bool("allThreadsStopped") {
            Some(b) => b,
            None => false,
        };
        Some(DapEvent::Stopped { thread_id, reason, all_threads_stopped: all })
    } else if str_eq(name, "continued") {
        let thread_id = match body.get_i64("threadId") {
            Some(t) => t,
            None => 0,
        };
        Some(DapEvent::Continued { thread_id })
    } else if str_eq(name, "exited") {
        let exit_code = match body.get_i64("exitCode") {
            Some(c) => c,
            None => -1,
        };
        Some(DapEvent::Exited { exit_code })
    } else if str_eq(name, "initialized") {
        Some(DapEvent::Initialized)
    } else if str_eq(name, "terminated") {
        Some(DapEvent::Terminated)
    } else if str_eq(name, "output") {
        let category = match body.get_str("category") {
            Some(c) => Some(c.to_owned()),
            None => None,
        };
        let output = match body.get_str("output") {
            Some(o) => sanitize_debuggee_output(o),
            None => sanitize_debuggee_output(""),
        };
        Some(DapEvent::Output { category, output })
    } else if str_eq(name, "capabilities") {
        Some(DapEvent::Capabilities(body))
    } else {
        None
    }
}

/// Decide what to do with a message read from the adapter.
pub fn action_for_message(msg: &JsonValue) -> (a: LoopAction)
    ensures
        a@ == action_for(msg@),
{
    let t = match msg.get_str("type") {
        Some(t) => t,
        None => "",
    };
    if str_eq(t, "response") {
        let request_seq = match msg.get_i64("request_seq") {
            Some(s) => s,
            None => -1,
        };
        LoopAction::DeliverResponse { request_seq }
    } else if str_eq(t, "event") {
        let body = match msg.get("body") {
            Some(b) => b.deep_clone(),
            None => JsonValue::Null,
        };
        let name = match msg.get_str("event") {
            Some(n) => n,
            None => "",
        };
        match event_from(name, body) {
            Some(event) => {
                let phase = event.phase_after();
                LoopAction::Broadcast { event, phase }
            },
            None => LoopAction::Ignore,
        }
    } else if str_eq(t, "request") {
        let seq = match msg.get_i64("seq") {
            Some(s) => s,
            None => 0,
        };
        let command = match msg.get_str("command") {
            Some(c) => c,
            None => "unknown",
        };
        let mut message: Vec<char> = Vec::new();
        push_str(&mut message, "mcp-dap-rs does not support reverse request '");
        push_str(&mut message, command);
        push_str(&mut message, "'");
        let mut entries: Vec<(String, JsonValue)> = Vec::new();
        entries.push(("command".to_owned(), JsonValue::String(command.to_owned())));
        entries.push(("message".to_owned(), JsonValue::String(string_of(&message))));
        entries.push(("request_seq".to_owned(), int_json(seq)));
        entries.push(("seq".to_owned(), JsonValue::Number(JsonNumber::PosInt(0))));
        entries.push(("success".to_owned(), JsonValue::Bool(false)));
        entries.push(("type".to_owned(), JsonValue::String("response".to_owned())));
        let response = JsonValue::Object(entries);
        proof {
            let ev = response@->Object_0;
            let want = reject_response(seq, command@)->Object_0;
            assert forall|k: int| 0 <= k < 6 implies ev[k] == want[k] by {
                assert(ev[k] == (entries@[k].0@, entries@[k].1@));
            }
            assert(ev =~= want);
        }
        LoopAction::RejectRequest { response }
    } else {
        LoopAction::Ignore
    }
}

/// The fields of lifecycle events come from the event's body: an exit
/// carries the body's `exitCode` (-1 when missing), a stop its `threadId`,
/// `reason` and `allThreadsStopped`, a continuation its `threadId`.
pub proof fn lemma_event_fields(body: JsonView)
    ensures
        event_for("exited"@, body) == Some(
            EventView::Exited {
                exit_code: match body.get_i64("exitCode"@) {
                    Some(c) => c,
                    None => -1i64,
                },
            },
        ),
        event_for("stopped"@, body) matches Some(EventView::Stopped { thread_id, reason, all_threads_stopped })
            && (body.get_i64("threadId"@) matches Some(t) ==> thread_id == t) && (body.get_str(
            "reason"@,
        ) matches Some(r) ==> reason == r) && (body.get_bool("allThreadsStopped"@) matches Some(a)
            ==> all_threads_stopped == a),
        event_for("continued"@, body) matches Some(EventView::Continued { thread_id }) && (body.get_i64(
            "threadId"@,
        ) matches Some(t) ==> thread_id == t),
{
    reveal_strlit("exited");
    reveal_strlit("stopped");
    reveal_strlit("continued");
    assert("exited"@[0] != "stopped"@[0]);
    assert("exited"@[0] != "continued"@[0]);
    assert("continued"@[0] != "stopped"@[0]);
}

/// An event message is broadcast as the event its name and body give, and
/// an exit moves the session to `Terminated` with the body's exit code.
pub proof fn lemma_exit_message(msg: JsonView)
    requires
        msg.get_str("type"@) == Some("event"@),
        msg.get_str("event"@) == Some("exited"@),
    ensures
        action_for(msg) == (ActionView::Broadcast {
            event: EventView::Exited {
                exit_code: match msg.get("body"@) {
                    Some(b) => match b.get_i64("exitCode"@) {
                        Some(c) => c,
                        None => -1i64,
                    },
                    None => -1i64,
                },
            },
            phase: Some(SessionPhase::Terminated),
        }),
{
    reveal_strlit("event");
    reveal_strlit("response");
    reveal_strlit("exited");
    assert("event"@[0] != "response"@[0]);
    lemma_event_fields(or_else(msg.get("body"@), JsonView::Null));
}

/// A response goes to the request whose sequence number it names (-1 when
/// missing); a reverse request is refused with an unsuccessful response that
/// names its command and sequence number.
pub proof fn lemma_response_and_request(msg: JsonView)
    ensures
        msg.get_str("type"@) == Some("response"@) ==> action_for(msg) == (ActionView::DeliverResponse {
            request_seq: match msg.get_i64("request_seq"@) {
                Some(q) => q,
                None => -1i64,
            },
        }),
        msg.get_str("type"@) == Some("request"@) ==> (action_for(msg) matches ActionView::RejectRequest {
            response,
        } && response.get("success"@) == Some(JsonView::Bool(false)) && response.get("command"@) == Some(
            JsonView::Str(or_else(msg.get_str("command"@), "unknown"@)),
        ) && response.get("request_seq"@) == Some(
            JsonView::Number(int_number(or_else(msg.get_i64("seq"@), 0i64))),
        ) && response.get("type"@) == Some(JsonView::Str("response"@))),
{
    reveal_strlit("response");
    reveal_strlit("event");
    reveal_strlit("request");
    reveal_strlit("command");
    reveal_strlit("message");
    reveal_strlit("request_seq");
    reveal_strlit("seq");
    reveal_strlit("success");
    reveal_strlit("type");
    assert("request"@[2] != "response"@[2]);
    assert("request"@[0] != "event"@[0]);
    let r = reject_response(or_else(msg.get_i64("seq"@), 0i64), or_else(msg.get_str("command"@), "unknown"@))->Object_0;
    assert("command"@[0] != "message"@[0] && "command"@[0] != "request_seq"@[0] && "command"@[0] != "seq"@[0]
        && "command"@[0] != "success"@[0] && "command"@[0] != "type"@[0]);
    assert("message"@[0] != "request_seq"@[0] && "message"@[0] != "seq"@[0] && "message"@[0] != "success"@[0]
        && "message"@[0] != "type"@[0]);
    assert("request_seq"@[0] != "seq"@[0] && "request_seq"@[0] != "success"@[0] && "request_seq"@[0]
        != "type"@[0]);
    assert("seq"@[1] != "success"@[1] && "seq"@[0] != "type"@[0] && "success"@[0] != "type"@[0]);
    crate::json::lemma_find_key_at(r, "command"@, 0);
    crate::json::lemma_find_key_at(r, "request_seq"@, 2);
    crate::json::lemma_find_key_at(r, "success"@, 4);
    crate::json::lemma_find_key_at(r, "type"@, 5);
}

} // verus!
