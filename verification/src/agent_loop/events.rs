//! The life of a turn, as a state machine that records what happens.

use vstd::prelude::*;
use vstd::utf8::encode_utf8;

use crate::deep::{deep, group_deep};
use crate::hash::{hash_text, stable_hash_hex};
use crate::json::{group_json, num, optional, Json, JsonModel, Members};
use crate::text::{noted, take_noted};

verus! {

broadcast use {group_deep, group_json};

pub const MAX_LIFECYCLE_TEXT_CHARS: usize = 16000;

pub const EVENT_NOTE: &'static str = "\n[event text truncated]";

pub const CLOSED: &'static str = "Agent lifecycle is already closed";

/// Why a turn ended.
#[derive(Debug, Clone, Copy, PartialEq, Eq, Structural)]
pub enum TurnEndReason {
    Completed,
    Cancelled,
    Failed,
    MaxSteps,
    Interrupted,
}

/// Where a turn is in its life.
#[derive(Debug, Clone, Copy, PartialEq, Eq, Structural)]
pub enum LifecycleState {
    Idle,
    Maintenance,
    Running,
    Closed,
}

/// Something that happened in a turn.
#[derive(Debug, PartialEq, Eq)]
pub struct LifecycleEvent {
    pub kind: String,
    pub step: u32,
    pub payload: Json,
}

/// What an event is.
pub struct EventModel {
    pub kind: Seq<char>,
    pub step: u32,
    pub payload: JsonModel,
}

impl DeepView for LifecycleEvent {
    type V = EventModel;

    open spec fn deep_view(&self) -> EventModel {
        EventModel { kind: self.kind@, step: self.step, payload: self.payload.deep_view() }
    }
}

/// The name of a state in an event.
pub open spec fn state_text(state: LifecycleState) -> Seq<char> {
    match state {
        LifecycleState::Idle => "idle"@,
        LifecycleState::Maintenance => "maintenance"@,
        LifecycleState::Running => "running"@,
        LifecycleState::Closed => "closed"@,
    }
}

/// The name of a state in an error.
pub open spec fn state_label(state: LifecycleState) -> Seq<char> {
    match state {
        LifecycleState::Idle => "Idle"@,
        LifecycleState::Maintenance => "Maintenance"@,
        LifecycleState::Running => "Running"@,
        LifecycleState::Closed => "Closed"@,
    }
}

/// The name of a reason in an event.
pub open spec fn reason_text(reason: TurnEndReason) -> Seq<char> {
    match reason {
        TurnEndReason::Completed => "completed"@,
        TurnEndReason::Cancelled => "cancelled"@,
        TurnEndReason::Failed => "failed"@,
        TurnEndReason::MaxSteps => "max_steps"@,
        TurnEndReason::Interrupted => "interrupted"@,
    }
}

fn state_name(state: LifecycleState) -> (r: &'static str)
    ensures
        r@ == state_text(state),
{
    match state {
        LifecycleState::Idle => "idle",
        LifecycleState::Maintenance => "maintenance",
        LifecycleState::Running => "running",
        LifecycleState::Closed => "closed",
    }
}

fn state_label_name(state: LifecycleState) -> (r: &'static str)
    ensures
        r@ == state_label(state),
{
    match state {
        LifecycleState::Idle => "Idle",
        LifecycleState::Maintenance => "Maintenance",
        LifecycleState::Running => "Running",
        LifecycleState::Closed => "Closed",
    }
}

fn reason_name(reason: TurnEndReason) -> (r: &'static str)
    ensures
        r@ == reason_text(reason),
{
    match reason {
        TurnEndReason::Completed => "completed",
        TurnEndReason::Cancelled => "cancelled",
        TurnEndReason::Failed => "failed",
        TurnEndReason::MaxSteps => "max_steps",
        TurnEndReason::Interrupted => "interrupted",
    }
}

/// A text as an event holds it.
pub open spec fn bounded(text: Seq<char>) -> Seq<char> {
    noted(text, MAX_LIFECYCLE_TEXT_CHARS as nat, EVENT_NOTE@)
}

/// An optional text as an event holds it.
pub open spec fn bounded_option(text: Option<Seq<char>>) -> Option<Seq<char>> {
    match text {
        Some(text) => Some(bounded(text)),
        None => None,
    }
}

/// A text as an event holds it.
pub fn bounded_text(value: &str) -> (r: String)
    ensures
        r@ == bounded(value@),
{
    take_noted(value, MAX_LIFECYCLE_TEXT_CHARS, EVENT_NOTE)
}

fn bounded_json(value: &str) -> (r: Json)
    ensures
        r.deep_view() == JsonModel::Str(bounded(value@)),
{
    Json::Str(bounded_text(value))
}

fn bounded_or_null(value: &Option<String>) -> (r: Json)
    ensures
        r.deep_view() == optional(bounded_option(value.deep_view())),
{
    match value {
        Some(text) => bounded_json(text),
        None => Json::Null,
    }
}

/// Whether a turn may go from one state to another.
pub open spec fn allowed(from: LifecycleState, to: LifecycleState) -> bool {
    match (from, to) {
        (LifecycleState::Idle, LifecycleState::Running) => true,
        (LifecycleState::Running, LifecycleState::Maintenance) => true,
        (LifecycleState::Maintenance, LifecycleState::Running) => true,
        (LifecycleState::Running, LifecycleState::Idle) => true,
        (LifecycleState::Maintenance, LifecycleState::Idle) => true,
        _ => false,
    }
}

/// The event of a change of state.
pub open spec fn state_event(step: u32, state: LifecycleState, reason: Seq<char>) -> EventModel {
    EventModel {
        kind: "lifecycle_state"@,
        step,
        payload: JsonModel::Object(
            seq![
                ("state"@, JsonModel::Str(state_text(state))),
                ("reason"@, JsonModel::Str(bounded(reason))),
            ],
        ),
    }
}

/// The error of an operation that needs a running turn.
pub open spec fn not_running(state: LifecycleState) -> Seq<char> {
    "Agent lifecycle is not running ("@ + state_label(state) + ")"@
}

/// The event of a tool call.
pub open spec fn tool_call_event(
    step: u32,
    call_id: Seq<char>,
    name: Seq<char>,
    arguments: Seq<char>,
    dispatch_state: Seq<char>,
    reason: Option<Seq<char>>,
) -> EventModel {
    EventModel {
        kind: "tool_call"@,
        step,
        payload: JsonModel::Object(
            seq![
                ("call_id"@, JsonModel::Str(bounded(call_id))),
                ("name"@, JsonModel::Str(bounded(name))),
                ("arguments"@, JsonModel::Str(bounded(arguments))),
                ("arguments_hash"@, JsonModel::Str(hash_text(encode_utf8(arguments)))),
                ("dispatch_state"@, JsonModel::Str(dispatch_state)),
                ("reason"@, optional(reason)),
            ],
        ),
    }
}

/// The turn of an agent.
#[derive(Debug, PartialEq, Eq)]
pub struct AgentLifecycle {
    pub task_id: String,
    pub turn_id: String,
    pub step: u32,
    pub open_step: Option<u32>,
    pub lifecycle_state: LifecycleState,
}

/// What is needed of a request to tell it from others.
#[derive(Debug, PartialEq, Eq)]
pub struct RequestHeader {
    pub model: String,
    pub base_url: String,
    pub reasoning_effort: Option<String>,
    pub context_window: usize,
    pub input_tokens: usize,
    pub message_count: usize,
    pub tool_schema_hash: String,
    pub system_hash: String,
}

impl Clone for AgentLifecycle {
    fn clone(&self) -> (r: Self)
        ensures
            r == *self,
    {
        AgentLifecycle {
            task_id: self.task_id.clone(),
            turn_id: self.turn_id.clone(),
            step: self.step,
            open_step: self.open_step,
            lifecycle_state: self.lifecycle_state,
        }
    }
}

fn event(kind: &str, step: u32, payload: Json) -> (r: LifecycleEvent)
    ensures
        r.deep_view() == (EventModel { kind: kind@, step, payload: payload.deep_view() }),
{
    LifecycleEvent { kind: kind.to_owned(), step, payload }
}

impl AgentLifecycle {
    /// A step is open only while the turn runs or is maintained.
    pub open spec fn wf(&self) -> bool {
        self.open_step is Some ==> self.lifecycle_state != LifecycleState::Closed
            && self.open_step == Some(self.step)
    }

    /// Starts a turn.
    pub fn start(task_id: &str, turn_uuid: &str) -> (r: (Self, Vec<LifecycleEvent>))
        ensures
            r.0.wf(),
            r.0.task_id@ == task_id@,
            r.0.turn_id@ == "turn-"@ + turn_uuid@,
            r.0.step == 0,
            r.0.open_step is None,
            r.0.lifecycle_state == LifecycleState::Running,
            deep(r.1@) == seq![
                EventModel {
                    kind: "turn_start"@,
                    step: 0,
                    payload: JsonModel::Object(Seq::empty()),
                },
                state_event(0, LifecycleState::Running, "turn_start"@),
            ],
    {
        let mut turn_id = "turn-".to_owned();
        turn_id.append(turn_uuid);
        let mut lifecycle = AgentLifecycle {
            task_id: task_id.to_owned(),
            turn_id,
            step: 0,
            open_step: None,
            lifecycle_state: LifecycleState::Idle,
        };
        let mut events: Vec<LifecycleEvent> = Vec::new();
        events.push(event("turn_start", 0, Members::new().object()));
        let ghost first = deep(events@);
        if let Ok(Some(change)) = lifecycle.transition(LifecycleState::Running, "turn_start") {
            events.push(change);
        }
        proof {
            assert(deep(events@) =~= seq![first[0], state_event(
                0,
                LifecycleState::Running,
                "turn_start"@,
            )]);
        }
        (lifecycle, events)
    }

    /// Opens a step. There may be only one at a time.
    pub fn step_start(&mut self, step: u32) -> (r: Result<LifecycleEvent, String>)
        requires
            old(self).wf(),
        ensures
            final(self).wf(),
            old(self).lifecycle_state != LifecycleState::Running ==> r is Err && r->Err_0@
                == not_running(old(self).lifecycle_state) && *final(self) == *old(self),
            old(self).lifecycle_state == LifecycleState::Running && old(self).open_step is Some
                ==> r is Err && r->Err_0@ == "Agent lifecycle already has an open step"@
                && *final(self) == *old(self),
            old(self).lifecycle_state == LifecycleState::Running && old(self).open_step is None
                ==> r is Ok && r->Ok_0.deep_view() == (EventModel {
                kind: "step_start"@,
                step,
                payload: JsonModel::Object(seq![("step"@, num(step as nat))]),
            }) && *final(self) == (AgentLifecycle { step, open_step: Some(step), ..*old(self) }),
    {
        match self.ensure_running() {
            Ok(_) => {},
            Err(error) => {
                return Err(error);
            },
        }
        if self.open_step.is_some() {
            return Err("Agent lifecycle already has an open step".to_owned());
        }
        self.step = step;
        self.open_step = Some(step);
        let payload = Members::new().with("step", Json::number(step as u64));
        proof {
            assert(payload.model() =~= seq![("step"@, num(step as nat))]);
        }
        Ok(event("step_start", step, payload.object()))
    }

    /// Closes the open step, if there is one.
    pub fn step_end(&mut self, reason: &str) -> (r: Result<Option<LifecycleEvent>, String>)
        requires
            old(self).wf(),
        ensures
            final(self).wf(),
            old(self).lifecycle_state == LifecycleState::Closed ==> r is Err && r->Err_0@ == CLOSED@
                && *final(self) == *old(self),
            old(self).lifecycle_state != LifecycleState::Closed ==> r is Ok && *final(self) == (
            AgentLifecycle { open_step: None, ..*old(self) }),
            old(self).lifecycle_state != LifecycleState::Closed ==> match old(self).open_step {
                Some(step) => r->Ok_0 is Some && r->Ok_0->0.deep_view() == (EventModel {
                    kind: "step_end"@,
                    step: old(self).step,
                    payload: JsonModel::Object(
                        seq![
                            ("step"@, num(step as nat)),
                            ("reason"@, JsonModel::Str(reason@)),
                        ],
                    ),
                }),
                None => r->Ok_0 is None,
            },
    {
        match self.ensure_open() {
            Ok(_) => {},
            Err(error) => {
                return Err(error);
            },
        }
        match self.open_step {
            Some(step) => {
                self.open_step = None;
                let payload = Members::new().with("step", Json::number(step as u64)).with(
                    "reason",
                    Json::string(reason),
                );
                proof {
                    assert(payload.model() =~= seq![
                        ("step"@, num(step as nat)),
                        ("reason"@, JsonModel::Str(reason@)),
                    ]);
                }
                Ok(Some(event("step_end", self.step, payload.object())))
            },
            None => Ok(None),
        }
    }

    /// The event of a request, while the turn runs.
    pub fn request_header(&self, header: &RequestHeader) -> (r: Result<LifecycleEvent, String>)
        ensures
            self.lifecycle_state != LifecycleState::Running ==> r is Err && r->Err_0@
                == not_running(self.lifecycle_state),
            self.lifecycle_state == LifecycleState::Running ==> r is Ok && r->Ok_0.deep_view() == (
            EventModel {
                kind: "request_header"@,
                step: self.step,
                payload: JsonModel::Object(
                    seq![
                        ("model"@, JsonModel::Str(header.model@)),
                        ("base_url"@, JsonModel::Str(header.base_url@)),
                        ("reasoning_effort"@, optional(header.reasoning_effort.deep_view())),
                        ("context_window"@, num(header.context_window as nat)),
                        ("input_tokens"@, num(header.input_tokens as nat)),
                        ("message_count"@, num(header.message_count as nat)),
                        ("tool_schema_hash"@, JsonModel::Str(header.tool_schema_hash@)),
                        ("system_hash"@, JsonModel::Str(header.system_hash@)),
                    ],
                ),
            }),
    {
        match self.ensure_running() {
            Ok(_) => {},
            Err(error) => {
                return Err(error);
            },
        }
        let payload = Members::new().with("model", Json::string(&header.model)).with(
            "base_url",
            Json::string(&header.base_url),
        ).with("reasoning_effort", Json::string_or_null(&header.reasoning_effort)).with(
            "context_window",
            Json::number(header.context_window as u64),
        ).with("input_tokens", Json::number(header.input_tokens as u64)).with(
            "message_count",
            Json::number(header.message_count as u64),
        ).with("tool_schema_hash", Json::string(&header.tool_schema_hash)).with(
            "system_hash",
            Json::string(&header.system_hash),
        );
        proof {
            assert(payload.model() =~= seq![
                ("model"@, JsonModel::Str(header.model@)),
                ("base_url"@, JsonModel::Str(header.base_url@)),
                ("reasoning_effort"@, optional(header.reasoning_effort.deep_view())),
                ("context_window"@, num(header.context_window as nat)),
                ("input_tokens"@, num(header.input_tokens as nat)),
                ("message_count"@, num(header.message_count as nat)),
                ("tool_schema_hash"@, JsonModel::Str(header.tool_schema_hash@)),
                ("system_hash"@, JsonModel::Str(header.system_hash@)),
            ]);
        }
        Ok(event("request_header", self.step, payload.object()))
    }

    /// The event of an answer of the assistant, while the turn runs.
    pub fn assistant_message(
        &self,
        message_id: &str,
        content_len: usize,
        reasoning_len: usize,
        tool_call_count: usize,
    ) -> (r: Result<LifecycleEvent, String>)
        ensures
            self.lifecycle_state != LifecycleState::Running ==> r is Err && r->Err_0@
                == not_running(self.lifecycle_state),
            self.lifecycle_state == LifecycleState::Running ==> r is Ok && r->Ok_0.deep_view() == (
            EventModel {
                kind: "assistant_message"@,
                step: self.step,
                payload: JsonModel::Object(
                    seq![
                        ("message_id"@, JsonModel::Str(message_id@)),
                        ("content_len"@, num(content_len as nat)),
                        ("reasoning_len"@, num(reasoning_len as nat)),
                        ("tool_call_count"@, num(tool_call_count as nat)),
                    ],
                ),
            }),
    {
        match self.ensure_running() {
            Ok(_) => {},
            Err(error) => {
                return Err(error);
            },
        }
        let payload = Members::new().with("message_id", Json::string(message_id)).with(
            "content_len",
            Json::number(content_len as u64),
        ).with("reasoning_len", Json::number(reasoning_len as u64)).with(
            "tool_call_count",
            Json::number(tool_call_count as u64),
        );
        proof {
            assert(payload.model() =~= seq![
                ("message_id"@, JsonModel::Str(message_id@)),
                ("content_len"@, num(content_len as nat)),
                ("reasoning_len"@, num(reasoning_len as nat)),
                ("tool_call_count"@, num(tool_call_count as nat)),
            ]);
        }
        Ok(event("assistant_message", self.step, payload.object()))
    }

    /// The event of a tool call that was started, while the turn runs.
    pub fn tool_call_started(
        &self,
        call_id: &str,
        name: &str,
        arguments: &str,
    ) -> (r: Result<LifecycleEvent, String>)
        ensures
            self.lifecycle_state != LifecycleState::Running ==> r is Err && r->Err_0@
                == not_running(self.lifecycle_state),
            self.lifecycle_state == LifecycleState::Running ==> r is Ok && r->Ok_0.deep_view()
                == tool_call_event(self.step, call_id@, name@, arguments@, "started"@, None),
    {
        match self.ensure_running() {
            Ok(_) => {},
            Err(error) => {
                return Err(error);
            },
        }
        Ok(self.append_tool_call(call_id, name, arguments, "started", &None))
    }

    /// The event of a tool call that was not started, because the turn was cancelled.
    pub fn tool_call_not_started(
        &self,
        call_id: &str,
        name: &str,
        arguments: &str,
    ) -> (r: Result<LifecycleEvent, String>)
        ensures
            self.lifecycle_state != LifecycleState::Running ==> r is Err && r->Err_0@
                == not_running(self.lifecycle_state),
            self.lifecycle_state == LifecycleState::Running ==> r is Ok && r->Ok_0.deep_view()
                == tool_call_event(
                self.step,
                call_id@,
                name@,
                arguments@,
                "not_started"@,
                Some("skipped_due_to_cancel"@),
            ),
    {
        match self.ensure_running() {
            Ok(_) => {},
            Err(error) => {
                return Err(error);
            },
        }
        let reason = Some("skipped_due_to_cancel".to_owned());
        Ok(self.append_tool_call(call_id, name, arguments, "not_started", &reason))
    }

    /// The event of a tool's result, while the turn runs.
    pub fn tool_result(
        &self,
        call_id: &str,
        name: &str,
        status: &str,
        output: &Option<String>,
        error: &Option<String>,
    ) -> (r: Result<LifecycleEvent, String>)
        ensures
            self.lifecycle_state != LifecycleState::Running ==> r is Err && r->Err_0@
                == not_running(self.lifecycle_state),
            self.lifecycle_state == LifecycleState::Running ==> r is Ok && r->Ok_0.deep_view() == (
            EventModel {
                kind: "tool_result"@,
                step: self.step,
                payload: JsonModel::Object(
                    seq![
                        ("call_id"@, JsonModel::Str(bounded(call_id@))),
                        ("name"@, JsonModel::Str(bounded(name@))),
                        ("status"@, JsonModel::Str(bounded(status@))),
                        ("output"@, optional(bounded_option(output.deep_view()))),
                        ("error"@, optional(bounded_option(error.deep_view()))),
                    ],
                ),
            }),
    {
        match self.ensure_running() {
            Ok(_) => {},
            Err(error) => {
                return Err(error);
            },
        }
        let payload = Members::new().with("call_id", bounded_json(call_id)).with(
            "name",
            bounded_json(name),
        ).with("status", bounded_json(status)).with("output", bounded_or_null(output)).with(
            "error",
            bounded_or_null(error),
        );
        proof {
            assert(payload.model() =~= seq![
                ("call_id"@, JsonModel::Str(bounded(call_id@))),
                ("name"@, JsonModel::Str(bounded(name@))),
                ("status"@, JsonModel::Str(bounded(status@))),
                ("output"@, optional(bounded_option(output.deep_view()))),
                ("error"@, optional(bounded_option(error.deep_view()))),
            ]);
        }
        Ok(event("tool_result", self.step, payload.object()))
    }

    /// The events of a compaction of the context. The turn runs again afterwards.
    pub fn context_compaction(
        &mut self,
        before_tokens: usize,
        after_tokens: usize,
        dropped_messages: usize,
    ) -> (r: Result<Vec<LifecycleEvent>, String>)
        requires
            old(self).wf(),
        ensures
            *final(self) == *old(self),
            old(self).lifecycle_state != LifecycleState::Running ==> r is Err && r->Err_0@
                == not_running(old(self).lifecycle_state),
            old(self).lifecycle_state == LifecycleState::Running ==> r is Ok && deep(r->Ok_0@)
                == seq![
                state_event(
                    old(self).step,
                    LifecycleState::Maintenance,
                    "context_compaction"@,
                ),
                EventModel {
                    kind: "context_compaction"@,
                    step: old(self).step,
                    payload: JsonModel::Object(
                        seq![
                            ("before_tokens"@, num(before_tokens as nat)),
                            ("after_tokens"@, num(after_tokens as nat)),
                            ("dropped_messages"@, num(dropped_messages as nat)),
                        ],
                    ),
                },
                state_event(
                    old(self).step,
                    LifecycleState::Running,
                    "context_compaction_complete"@,
                ),
            ],
    {
        match self.ensure_running() {
            Ok(_) => {},
            Err(error) => {
                return Err(error);
            },
        }
        let mut events: Vec<LifecycleEvent> = Vec::new();
        if let Ok(Some(change)) = self.transition(
            LifecycleState::Maintenance,
            "context_compaction",
        ) {
            events.push(change);
        }
        let payload = Members::new().with("before_tokens", Json::number(before_tokens as u64)).with(
            "after_tokens",
            Json::number(after_tokens as u64),
        ).with("dropped_messages", Json::number(dropped_messages as u64));
        proof {
            assert(payload.model() =~= seq![
                ("before_tokens"@, num(before_tokens as nat)),
                ("after_tokens"@, num(after_tokens as nat)),
                ("dropped_messages"@, num(dropped_messages as nat)),
            ]);
        }
        events.push(event("context_compaction", self.step, payload.object()));
        if let Ok(Some(change)) = self.transition(
            LifecycleState::Running,
            "context_compaction_complete",
        ) {
            events.push(change);
        }
        proof {
            let step = old(self).step;
            assert(deep(events@) =~= seq![
                state_event(step, LifecycleState::Maintenance, "context_compaction"@),
                deep(events@)[1],
                state_event(step, LifecycleState::Running, "context_compaction_complete"@),
            ]);
        }
        Ok(events)
    }

    /// The event of a request that is to be tried again, while the turn runs.
    pub fn retry_scheduled_sync(
        &self,
        attempt: usize,
        delay_ms: u64,
        error: &str,
    ) -> (r: Result<LifecycleEvent, String>)
        ensures
            self.lifecycle_state != LifecycleState::Running ==> r is Err && r->Err_0@
                == not_running(self.lifecycle_state),
            self.lifecycle_state == LifecycleState::Running ==> r is Ok && r->Ok_0.deep_view() == (
            EventModel {
                kind: "retry_scheduled"@,
                step: self.step,
                payload: JsonModel::Object(
                    seq![
                        ("attempt"@, num(attempt as nat)),
                        ("delay_ms"@, num(delay_ms as nat)),
                        ("error"@, JsonModel::Str(bounded(error@))),
                    ],
                ),
            }),
    {
        match self.ensure_running() {
            Ok(_) => {},
            Err(error) => {
                return Err(error);
            },
        }
        let payload = Members::new().with("attempt", Json::number(attempt as u64)).with(
            "delay_ms",
            Json::number(delay_ms),
        ).with("error", bounded_json(error));
        proof {
            assert(payload.model() =~= seq![
                ("attempt"@, num(attempt as nat)),
                ("delay_ms"@, num(delay_ms as nat)),
                ("error"@, JsonModel::Str(bounded(error@))),
            ]);
        }
        Ok(event("retry_scheduled", self.step, payload.object()))
    }

    /// The events with which a turn ends.
    pub open spec fn end_events(self, reason: TurnEndReason) -> Seq<EventModel> {
        let recovery = if self.lifecycle_state == LifecycleState::Maintenance {
            seq![state_event(self.step, LifecycleState::Running, "turn_end_recovery"@)]
        } else {
            Seq::empty()
        };
        let step = match self.open_step {
            Some(step) => seq![
                EventModel {
                    kind: "step_end"@,
                    step: self.step,
                    payload: JsonModel::Object(
                        seq![
                            ("step"@, num(step as nat)),
                            ("reason"@, JsonModel::Str("turn_end"@)),
                        ],
                    ),
                },
            ],
            None => Seq::empty(),
        };
        let idle = if self.lifecycle_state == LifecycleState::Idle {
            Seq::empty()
        } else {
            seq![state_event(self.step, LifecycleState::Idle, "turn_end"@)]
        };
        let last = seq![
            EventModel {
                kind: "turn_end"@,
                step: self.step,
                payload: JsonModel::Object(seq![("reason"@, JsonModel::Str(reason_text(reason)))]),
            },
        ];
        recovery + step + idle + last
    }

    /// Ends the turn. A turn that has ended does not end again.
    pub fn end(&mut self, reason: TurnEndReason) -> (r: Vec<LifecycleEvent>)
        requires
            old(self).wf(),
        ensures
            final(self).wf(),
            old(self).lifecycle_state == LifecycleState::Closed ==> r@.len() == 0 && *final(self)
                == *old(self),
            old(self).lifecycle_state != LifecycleState::Closed ==> *final(self) == (
            AgentLifecycle {
                open_step: None,
                lifecycle_state: LifecycleState::Closed,
                ..*old(self)
            }) && deep(r@) == old(self).end_events(reason),
    {
        let mut events: Vec<LifecycleEvent> = Vec::new();
        if self.lifecycle_state == LifecycleState::Closed {
            return events;
        }
        if self.lifecycle_state == LifecycleState::Maintenance {
            if let Ok(Some(change)) = self.transition(
                LifecycleState::Running,
                "turn_end_recovery",
            ) {
                events.push(change);
            }
        }
        let ghost recovery = deep(events@);
        if let Ok(Some(ended)) = self.step_end("turn_end") {
            events.push(ended);
        }
        if let Ok(Some(change)) = self.transition(LifecycleState::Idle, "turn_end") {
            events.push(change);
        }
        let payload = Members::new().with("reason", Json::string(reason_name(reason)));
        proof {
            assert(payload.model() =~= seq![("reason"@, JsonModel::Str(reason_text(reason)))]);
        }
        events.push(event("turn_end", self.step, payload.object()));
        self.lifecycle_state = LifecycleState::Closed;
        proof {
            assert(deep(events@) =~= old(self).end_events(reason));
        }
        events
    }

    fn append_tool_call(
        &self,
        call_id: &str,
        name: &str,
        arguments: &str,
        dispatch_state: &str,
        reason: &Option<String>,
    ) -> (r: LifecycleEvent)
        ensures
            r.deep_view() == tool_call_event(
                self.step,
                call_id@,
                name@,
                arguments@,
                dispatch_state@,
                reason.deep_view(),
            ),
    {
        let hash = stable_hash_hex(arguments.as_bytes());
        let payload = Members::new().with("call_id", bounded_json(call_id)).with(
            "name",
            bounded_json(name),
        ).with("arguments", bounded_json(arguments)).with("arguments_hash", Json::Str(hash)).with(
            "dispatch_state",
            Json::string(dispatch_state),
        ).with("reason", Json::string_or_null(reason));
        proof {
            assert(payload.model() =~= seq![
                ("call_id"@, JsonModel::Str(bounded(call_id@))),
                ("name"@, JsonModel::Str(bounded(name@))),
                ("arguments"@, JsonModel::Str(bounded(arguments@))),
                ("arguments_hash"@, JsonModel::Str(hash_text(encode_utf8(arguments@)))),
                ("dispatch_state"@, JsonModel::Str(dispatch_state@)),
                ("reason"@, optional(reason.deep_view())),
            ]);
        }
        event("tool_call", self.step, payload.object())
    }

    /// Goes to another state. There is no event where the state stays.
    pub fn transition(&mut self, next: LifecycleState, reason: &str) -> (r: Result<
        Option<LifecycleEvent>,
        String,
    >)
        ensures
            old(self).lifecycle_state == LifecycleState::Closed ==> r is Err && r->Err_0@ == CLOSED@
                && *final(self) == *old(self),
            old(self).lifecycle_state != LifecycleState::Closed && old(self).lifecycle_state == next
                ==> r == Ok::<Option<LifecycleEvent>, String>(None) && *final(self) == *old(self),
            old(self).lifecycle_state != LifecycleState::Closed && old(self).lifecycle_state != next
                && !allowed(old(self).lifecycle_state, next) ==> r is Err && r->Err_0@
                == "Invalid agent lifecycle transition "@ + state_label(
                old(self).lifecycle_state,
            ) + " -> "@ + state_label(next) && *final(self) == *old(self),
            allowed(old(self).lifecycle_state, next) ==> r is Ok && r->Ok_0 is Some
                && r->Ok_0->0.deep_view() == state_event(old(self).step, next, reason@)
                && *final(self) == (AgentLifecycle { lifecycle_state: next, ..*old(self) }),
    {
        let from = self.lifecycle_state;
        if from == LifecycleState::Closed {
            return Err(CLOSED.to_owned());
        }
        if from == next {
            return Ok(None);
        }
        let valid = match (from, next) {
            (LifecycleState::Idle, LifecycleState::Running) => true,
            (LifecycleState::Running, LifecycleState::Maintenance) => true,
            (LifecycleState::Maintenance, LifecycleState::Running) => true,
            (LifecycleState::Running, LifecycleState::Idle) => true,
            (LifecycleState::Maintenance, LifecycleState::Idle) => true,
            _ => false,
        };
        if !valid {
            let mut error = "Invalid agent lifecycle transition ".to_owned();
            error.append(state_label_name(from));
            error.append(" -> ");
            error.append(state_label_name(next));
            return Err(error);
        }
        let payload = Members::new().with("state", Json::string(state_name(next))).with(
            "reason",
            bounded_json(reason),
        );
        proof {
            assert(payload.model() =~= seq![
                ("state"@, JsonModel::Str(state_text(next))),
                ("reason"@, JsonModel::Str(bounded(reason@))),
            ]);
        }
        self.lifecycle_state = next;
        Ok(Some(event("lifecycle_state", self.step, payload.object())))
    }

    fn ensure_open(&self) -> (r: Result<(), String>)
        ensures
            r is Ok == (self.lifecycle_state != LifecycleState::Closed),
            r is Err ==> r->Err_0@ == CLOSED@,
    {
        if self.lifecycle_state == LifecycleState::Closed {
            Err(CLOSED.to_owned())
        } else {
            Ok(())
        }
    }

    fn ensure_running(&self) -> (r: Result<(), String>)
        ensures
            r is Ok == (self.lifecycle_state == LifecycleState::Running),
            r is Err ==> r->Err_0@ == not_running(self.lifecycle_state),
    {
        if self.lifecycle_state != LifecycleState::Running {
            let mut error = "Agent lifecycle is not running (".to_owned();
            error.append(state_label_name(self.lifecycle_state));
            error.append(")");
            Err(error)
        } else {
            Ok(())
        }
    }
}

/// A turn that has ended stays ended: there is no state that it may go to.
pub proof fn law_closed_is_final(next: LifecycleState)
    ensures
        !allowed(LifecycleState::Closed, next),
{
}

/// Maintenance can always be left again, and only from maintenance or a running turn can a turn
/// become idle.
pub proof fn law_maintenance_is_never_a_dead_end(from: LifecycleState)
    ensures
        allowed(LifecycleState::Maintenance, LifecycleState::Running),
        allowed(from, LifecycleState::Idle) ==> from == LifecycleState::Running || from
            == LifecycleState::Maintenance,
{
}

} // verus!
