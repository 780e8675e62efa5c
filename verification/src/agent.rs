//! Agent primitives: roles, chat messages, bounded memory, the state of a run and the prompts of
//! the specialised agents.

use vstd::prelude::*;

use std::collections::VecDeque;

use crate::deep::{copy_all, deep, group_deep, one};
use crate::json::{group_json, Json, JsonModel};
use crate::number::{decimal, number_text};
use crate::text::{
    contains_text, copy_option, first_chars, is_some_text, same, take_chars, Text,
};

verus! {

broadcast use {group_deep, group_json};

pub const DEFAULT_MAX_AGENT_STEPS: u32 = 100;

/// How many messages a memory keeps when nothing else is said.
pub const DEFAULT_MEMORY_LIMIT: usize = 100;

/// How many earlier identical answers mean that an agent is stuck.
pub const DEFAULT_DUPLICATE_THRESHOLD: usize = 2;

/// The advice that a stuck agent gets in front of its next prompt.
pub const STUCK_ADVICE: &'static str =
    "Observed duplicate responses. Change strategy and avoid repeating ineffective paths.";

/// Who speaks in a message.
#[derive(Debug, Clone, Copy, PartialEq, Eq, Structural)]
pub enum Role {
    System,
    User,
    Assistant,
    Tool,
}

/// Whether the model may, must or must not call a tool.
#[derive(Debug, Clone, Copy, PartialEq, Eq, Structural)]
pub enum ToolChoice {
    Never,
    Auto,
    Required,
}

impl Default for ToolChoice {
    fn default() -> (r: Self)
        ensures
            r == ToolChoice::Auto,
    {
        ToolChoice::Auto
    }
}

/// The state of an agent's run.
#[derive(Debug, Clone, Copy, PartialEq, Eq, Structural)]
pub enum AgentState {
    Idle,
    Running,
    Finished,
    Error,
}

impl Default for AgentState {
    fn default() -> (r: Self)
        ensures
            r == AgentState::Idle,
    {
        AgentState::Idle
    }
}

/// The function that a tool call names, with its arguments as JSON text.
#[derive(Debug, PartialEq, Eq)]
pub struct FunctionCall {
    pub name: String,
    pub arguments: String,
}

/// A tool call in a message of the assistant.
#[derive(Debug, PartialEq, Eq)]
pub struct MessageToolCall {
    pub id: String,
    pub call_type: String,
    pub function: FunctionCall,
}

/// A chat message.
#[derive(Debug, PartialEq, Eq)]
pub struct Message {
    pub role: Role,
    pub content: Option<String>,
    pub tool_calls: Option<Vec<MessageToolCall>>,
    pub name: Option<String>,
    pub tool_call_id: Option<String>,
    pub base64_image: Option<String>,
}

/// What a tool call is.
pub struct ToolCallModel {
    pub id: Seq<char>,
    pub call_type: Seq<char>,
    pub name: Seq<char>,
    pub arguments: Seq<char>,
}

/// What a message is.
pub struct MessageModel {
    pub role: Role,
    pub content: Option<Seq<char>>,
    pub tool_calls: Option<Seq<ToolCallModel>>,
    pub name: Option<Seq<char>>,
    pub tool_call_id: Option<Seq<char>>,
    pub base64_image: Option<Seq<char>>,
}

impl DeepView for MessageToolCall {
    type V = ToolCallModel;

    open spec fn deep_view(&self) -> ToolCallModel {
        ToolCallModel {
            id: self.id@,
            call_type: self.call_type@,
            name: self.function.name@,
            arguments: self.function.arguments@,
        }
    }
}

impl DeepView for Message {
    type V = MessageModel;

    open spec fn deep_view(&self) -> MessageModel {
        MessageModel {
            role: self.role,
            content: self.content.deep_view(),
            tool_calls: match self.tool_calls {
                Some(calls) => Some(deep(calls@)),
                None => None,
            },
            name: self.name.deep_view(),
            tool_call_id: self.tool_call_id.deep_view(),
            base64_image: self.base64_image.deep_view(),
        }
    }
}

impl Clone for MessageToolCall {
    fn clone(&self) -> (r: Self)
        ensures
            r == *self,
            r.deep_view() == self.deep_view(),
    {
        MessageToolCall {
            id: self.id.clone(),
            call_type: self.call_type.clone(),
            function: FunctionCall {
                name: self.function.name.clone(),
                arguments: self.function.arguments.clone(),
            },
        }
    }
}

impl Clone for Message {
    fn clone(&self) -> (r: Self)
        ensures
            r.deep_view() == self.deep_view(),
    {
        Message {
            role: self.role,
            content: copy_option(&self.content),
            tool_calls: match &self.tool_calls {
                Some(calls) => Some(copy_all(calls)),
                None => None,
            },
            name: copy_option(&self.name),
            tool_call_id: copy_option(&self.tool_call_id),
            base64_image: copy_option(&self.base64_image),
        }
    }
}

/// Whether two tool calls are the same.
pub fn same_call(a: &MessageToolCall, b: &MessageToolCall) -> (r: bool)
    ensures
        r == (a.deep_view() == b.deep_view()),
{
    same(&a.id, &b.id) && same(&a.call_type, &b.call_type) && same(
        &a.function.name,
        &b.function.name,
    ) && same(&a.function.arguments, &b.function.arguments)
}

/// Whether two lists of tool calls are the same.
pub fn same_calls(a: &Vec<MessageToolCall>, b: &Vec<MessageToolCall>) -> (r: bool)
    ensures
        r == (deep(a@) == deep(b@)),
{
    if a.len() != b.len() {
        proof {
            assert(deep(a@).len() != deep(b@).len());
        }
        return false;
    }
    let mut i: usize = 0;
    while i < a.len()
        invariant
            i <= a@.len(),
            a@.len() == b@.len(),
            forall|j: int| 0 <= j < i ==> deep(a@)[j] == deep(b@)[j],
        decreases a@.len() - i,
    {
        if !same_call(&a[i], &b[i]) {
            proof {
                assert(deep(a@)[i as int] != deep(b@)[i as int]);
            }
            return false;
        }
        i += 1;
    }
    proof {
        assert(deep(a@) =~= deep(b@));
    }
    true
}

/// The name under which a role is sent.
pub open spec fn role_text(role: Role) -> Seq<char> {
    match role {
        Role::System => "system"@,
        Role::User => "user"@,
        Role::Assistant => "assistant"@,
        Role::Tool => "tool"@,
    }
}

impl Role {
    /// The name under which the role is sent.
    pub fn as_str(self) -> (r: &'static str)
        ensures
            r@ == role_text(self),
    {
        match self {
            Role::System => "system",
            Role::User => "user",
            Role::Assistant => "assistant",
            Role::Tool => "tool",
        }
    }
}

/// The message of a role with a text and nothing else.
pub open spec fn plain_message(role: Role, content: Option<Seq<char>>) -> MessageModel {
    MessageModel {
        role,
        content,
        tool_calls: None,
        name: None,
        tool_call_id: None,
        base64_image: None,
    }
}

/// The message with which a tool answers the call `tool_call_id`.
pub open spec fn tool_reply(
    content: Seq<char>,
    name: Seq<char>,
    tool_call_id: Seq<char>,
) -> MessageModel {
    MessageModel {
        name: Some(name),
        tool_call_id: Some(tool_call_id),
        ..plain_message(Role::Tool, Some(content))
    }
}

/// A tool call as the chat protocol writes it.
pub open spec fn call_json(call: ToolCallModel) -> JsonModel {
    JsonModel::Object(
        seq![
            ("id"@, JsonModel::Str(call.id)),
            ("type"@, JsonModel::Str(call.call_type)),
            (
                "function"@,
                JsonModel::Object(
                    seq![
                        ("name"@, JsonModel::Str(call.name)),
                        ("arguments"@, JsonModel::Str(call.arguments)),
                    ],
                ),
            ),
        ],
    )
}

/// The tool calls as the chat protocol writes them.
pub open spec fn calls_json(calls: Seq<ToolCallModel>) -> JsonModel {
    JsonModel::Array(Seq::new(calls.len(), |i: int| call_json(calls[i])))
}

/// `json` with the member `key`, where there is a text for it.
pub open spec fn with_text(json: JsonModel, key: Seq<char>, text: Option<Seq<char>>) -> JsonModel {
    match text {
        Some(text) => json.with(key, JsonModel::Str(text)),
        None => json,
    }
}

/// A message as the chat protocol writes it: the role, and whatever else is there.
pub open spec fn message_json(message: MessageModel) -> JsonModel {
    let role = JsonModel::Object(seq![("role"@, JsonModel::Str(role_text(message.role)))]);
    let content = with_text(role, "content"@, message.content);
    let calls = match message.tool_calls {
        Some(calls) => content.with("tool_calls"@, calls_json(calls)),
        None => content,
    };
    let name = with_text(calls, "name"@, message.name);
    let id = with_text(name, "tool_call_id"@, message.tool_call_id);
    with_text(id, "base64_image"@, message.base64_image)
}

/// Sets the member `key` of `json`, where there is a text for it.
pub fn set_text(json: &mut Json, key: &str, text: &Option<String>)
    ensures
        final(json).deep_view() == with_text(old(json).deep_view(), key@, text.deep_view()),
{
    match text {
        Some(text) => json.set(key, Json::string(text)),
        None => {},
    }
}

/// A tool call as the chat protocol writes it.
pub fn call_to_json(call: &MessageToolCall) -> (r: Json)
    ensures
        r.deep_view() == call_json(call.deep_view()),
{
    let mut function: Vec<(String, Json)> = Vec::new();
    function.push(("name".to_owned(), Json::string(&call.function.name)));
    function.push(("arguments".to_owned(), Json::string(&call.function.arguments)));
    let mut members: Vec<(String, Json)> = Vec::new();
    members.push(("id".to_owned(), Json::string(&call.id)));
    members.push(("type".to_owned(), Json::string(&call.call_type)));
    members.push(("function".to_owned(), Json::Object(function)));
    let r = Json::Object(members);
    proof {
        assert(deep(function@) =~= call_json(call.deep_view())->Object_0[2].1->Object_0);
        assert(deep(members@) =~= call_json(call.deep_view())->Object_0);
    }
    r
}

/// The tool calls as the chat protocol writes them.
pub fn calls_to_json(calls: &Vec<MessageToolCall>) -> (r: Json)
    ensures
        r.deep_view() == calls_json(deep(calls@)),
{
    let mut items: Vec<Json> = Vec::new();
    let mut i: usize = 0;
    while i < calls.len()
        invariant
            i <= calls@.len(),
            deep(items@).len() == i,
            forall|j: int| 0 <= j < i ==> #[trigger] deep(items@)[j] == call_json(deep(calls@)[j]),
        decreases calls@.len() - i,
    {
        let item = call_to_json(&calls[i]);
        let ghost before = deep(items@);
        items.push(item);
        proof {
            assert(deep(items@) == before.push(item.deep_view()));
        }
        i += 1;
    }
    proof {
        assert(deep(items@) =~= calls_json(deep(calls@))->Array_0);
    }
    Json::Array(items)
}

impl Message {
    pub fn user<T: Text>(content: T) -> (r: Self)
        ensures
            r.deep_view() == plain_message(Role::User, Some(content.chars())),
    {
        Message {
            role: Role::User,
            content: Some(content.into_text()),
            tool_calls: None,
            name: None,
            tool_call_id: None,
            base64_image: None,
        }
    }

    pub fn system<T: Text>(content: T) -> (r: Self)
        ensures
            r.deep_view() == plain_message(Role::System, Some(content.chars())),
    {
        Message {
            role: Role::System,
            content: Some(content.into_text()),
            tool_calls: None,
            name: None,
            tool_call_id: None,
            base64_image: None,
        }
    }

    pub fn assistant(content: Option<String>) -> (r: Self)
        ensures
            r.deep_view() == plain_message(Role::Assistant, content.deep_view()),
    {
        Message {
            role: Role::Assistant,
            content,
            tool_calls: None,
            name: None,
            tool_call_id: None,
            base64_image: None,
        }
    }

    pub fn assistant_with_tools(
        content: Option<String>,
        tool_calls: Vec<MessageToolCall>,
    ) -> (r: Self)
        ensures
            r.deep_view() == (MessageModel {
                tool_calls: Some(deep(tool_calls@)),
                ..plain_message(Role::Assistant, content.deep_view())
            }),
    {
        Message {
            role: Role::Assistant,
            content,
            tool_calls: Some(tool_calls),
            name: None,
            tool_call_id: None,
            base64_image: None,
        }
    }

    pub fn tool<T: Text, U: Text, V: Text>(content: T, name: U, tool_call_id: V) -> (r: Self)
        ensures
            r.deep_view() == tool_reply(content.chars(), name.chars(), tool_call_id.chars()),
    {
        Message {
            role: Role::Tool,
            content: Some(content.into_text()),
            tool_calls: None,
            name: Some(name.into_text()),
            tool_call_id: Some(tool_call_id.into_text()),
            base64_image: None,
        }
    }

    pub fn user_message<T: Text>(content: T) -> (r: Self)
        ensures
            r.deep_view() == plain_message(Role::User, Some(content.chars())),
    {
        Self::user(content)
    }

    pub fn system_message<T: Text>(content: T) -> (r: Self)
        ensures
            r.deep_view() == plain_message(Role::System, Some(content.chars())),
    {
        Self::system(content)
    }

    pub fn assistant_message(content: Option<String>) -> (r: Self)
        ensures
            r.deep_view() == plain_message(Role::Assistant, content.deep_view()),
    {
        Self::assistant(content)
    }

    pub fn tool_message<T: Text, U: Text, V: Text>(
        content: T,
        name: U,
        tool_call_id: V,
    ) -> (r: Self)
        ensures
            r.deep_view() == tool_reply(content.chars(), name.chars(), tool_call_id.chars()),
    {
        Self::tool(content, name, tool_call_id)
    }

    pub fn from_tool_calls(content: Option<String>, tool_calls: Vec<MessageToolCall>) -> (r: Self)
        ensures
            r.deep_view() == (MessageModel {
                tool_calls: Some(deep(tool_calls@)),
                ..plain_message(Role::Assistant, content.deep_view())
            }),
    {
        Self::assistant_with_tools(content, tool_calls)
    }

    /// The message as the chat protocol writes it.
    pub fn to_openai_value(&self) -> (r: Json)
        ensures
            r.deep_view() == message_json(self.deep_view()),
    {
        let mut value = Json::object1("role", Json::string(self.role.as_str()));
        set_text(&mut value, "content", &self.content);
        match &self.tool_calls {
            Some(calls) => value.set("tool_calls", calls_to_json(calls)),
            None => {},
        }
        set_text(&mut value, "name", &self.name);
        set_text(&mut value, "tool_call_id", &self.tool_call_id);
        set_text(&mut value, "base64_image", &self.base64_image);
        value
    }

    /// The message as the chat protocol writes it.
    pub fn to_dict(&self) -> (r: Json)
        ensures
            r.deep_view() == message_json(self.deep_view()),
    {
        self.to_openai_value()
    }
}

/// The last `n` items of `s`, or all of them where there are not so many.
pub open spec fn newest<T>(s: Seq<T>, n: nat) -> Seq<T> {
    if s.len() <= n {
        s
    } else {
        s.skip(s.len() - n)
    }
}

/// A conversation that keeps its newest messages.
#[derive(Debug, PartialEq, Eq)]
pub struct Memory {
    pub messages: VecDeque<Message>,
    pub max_messages: usize,
}

impl Default for Memory {
    fn default() -> (r: Self)
        ensures
            r.messages@ == Seq::<Message>::empty(),
            r.max_messages == DEFAULT_MEMORY_LIMIT,
    {
        Memory { messages: VecDeque::new(), max_messages: DEFAULT_MEMORY_LIMIT }
    }
}

impl Memory {
    /// The memory holds no more messages than it may.
    pub open spec fn bounded(&self) -> bool {
        self.messages@.len() <= self.max_messages
    }

    pub fn add_message(&mut self, message: Message)
        ensures
            final(self).max_messages == old(self).max_messages,
            final(self).messages@ == newest(
                old(self).messages@.push(message),
                old(self).max_messages as nat,
            ),
            final(self).bounded(),
    {
        self.messages.push_back(message);
        self.trim();
    }

    pub fn add_messages(&mut self, messages: Vec<Message>)
        ensures
            final(self).max_messages == old(self).max_messages,
            final(self).messages@ == newest(
                old(self).messages@ + messages@,
                old(self).max_messages as nat,
            ),
            final(self).bounded(),
    {
        let mut rest = messages;
        let ghost all = messages@;
        let ghost before = self.messages@;
        let mut queue: VecDeque<Message> = VecDeque::new();
        while rest.len() > 0
            invariant
                self.messages@ == before,
                self.max_messages == old(self).max_messages,
                rest@ + queue@ == all,
            decreases rest@.len(),
        {
            let ghost r0 = rest@;
            let ghost q0 = queue@;
            match rest.pop() {
                Some(message) => {
                    queue.push_front(message);
                    proof {
                        assert(rest@ + queue@ =~= r0 + q0);
                    }
                },
                None => {},
            }
        }
        proof {
            assert(queue@ =~= all);
        }
        self.messages.append(&mut queue);
        self.trim();
    }

    pub fn clear(&mut self)
        ensures
            final(self).messages@ == Seq::<Message>::empty(),
            final(self).max_messages == old(self).max_messages,
    {
        self.messages.clear();
    }

    /// The last `count` messages, oldest first.
    pub fn recent(&self, count: usize) -> (r: Vec<&Message>)
        ensures
            r@.len() == newest(self.messages@, count as nat).len(),
            forall|i: int| 0 <= i < r@.len() ==> *r@[i] == newest(self.messages@, count as nat)[i],
    {
        let n = self.messages.len();
        let start: usize = if n > count {
            n - count
        } else {
            0
        };
        let mut r: Vec<&Message> = Vec::new();
        let mut i: usize = start;
        while i < n
            invariant
                n == self.messages@.len(),
                start <= i <= n,
                start == if n > count { n - count } else { 0 },
                r@.len() == i - start,
                forall|j: int| 0 <= j < r@.len() ==> *r@[j] == self.messages@[start + j],
            decreases n - i,
        {
            r.push(&self.messages[i]);
            i += 1;
        }
        r
    }

    /// Copies of the last `count` messages, oldest first.
    pub fn get_recent_messages(&self, count: usize) -> (r: Vec<Message>)
        ensures
            deep(r@) == newest(deep(self.messages@), count as nat),
    {
        let recent = self.recent(count);
        let mut r: Vec<Message> = Vec::new();
        let mut i: usize = 0;
        while i < recent.len()
            invariant
                i <= recent@.len(),
                recent@.len() == newest(self.messages@, count as nat).len(),
                forall|j: int| 0 <= j < recent@.len() ==> *recent@[j] == newest(
                    self.messages@,
                    count as nat,
                )[j],
                r@.len() == i,
                forall|j: int| 0 <= j < i ==> #[trigger] deep(r@)[j] == recent@[j].deep_view(),
            decreases recent@.len() - i,
        {
            let copy = recent[i].clone();
            let ghost before = deep(r@);
            r.push(copy);
            proof {
                assert(deep(r@) == before.push(copy.deep_view()));
            }
            i += 1;
        }
        proof {
            assert(deep(r@) =~= newest(deep(self.messages@), count as nat));
        }
        r
    }

    /// The messages as the chat protocol writes them.
    pub fn to_dict_list(&self) -> (r: Vec<Json>)
        ensures
            deep(r@) == deep(self.messages@).map_values(|m: MessageModel| message_json(m)),
    {
        self.to_openai_messages()
    }

    /// The messages as the chat protocol writes them.
    pub fn to_openai_messages(&self) -> (r: Vec<Json>)
        ensures
            deep(r@) == deep(self.messages@).map_values(|m: MessageModel| message_json(m)),
    {
        let mut r: Vec<Json> = Vec::new();
        let mut i: usize = 0;
        while i < self.messages.len()
            invariant
                i <= self.messages@.len(),
                r@.len() == i,
                forall|j: int|
                    0 <= j < i ==> #[trigger] deep(r@)[j] == message_json(deep(self.messages@)[j]),
            decreases self.messages@.len() - i,
        {
            let value = self.messages[i].to_openai_value();
            let ghost before = deep(r@);
            r.push(value);
            proof {
                assert(deep(r@) == before.push(value.deep_view()));
            }
            i += 1;
        }
        proof {
            assert(deep(r@) =~= deep(self.messages@).map_values(|m: MessageModel| message_json(m)));
        }
        r
    }

    fn trim(&mut self)
        ensures
            final(self).max_messages == old(self).max_messages,
            final(self).messages@ == newest(old(self).messages@, old(self).max_messages as nat),
    {
        let ghost all = self.messages@;
        let ghost mut dropped: int = 0;
        proof {
            assert(all.skip(0) =~= all);
        }
        while self.messages.len() > self.max_messages
            invariant
                self.max_messages == old(self).max_messages,
                0 <= dropped <= all.len(),
                self.messages@ == all.skip(dropped),
                dropped > 0 ==> all.len() - dropped >= self.max_messages,
            decreases self.messages@.len(),
        {
            let _ = self.messages.pop_front();
            proof {
                dropped = dropped + 1;
                assert(self.messages@ =~= all.skip(dropped));
            }
        }
    }
}

/// The runtime that all agents share: what they are told, how far they are, what they remember.
#[derive(Debug, PartialEq, Eq)]
pub struct BaseAgentRuntime {
    pub name: String,
    pub description: String,
    pub system_prompt: String,
    pub next_step_prompt: String,
    pub state: AgentState,
    pub max_steps: u32,
    pub current_step: u32,
    pub memory: Memory,
    pub duplicate_threshold: usize,
}

/// How a state is called in messages to the user.
pub open spec fn state_text(state: AgentState) -> Seq<char> {
    match state {
        AgentState::Idle => "Idle"@,
        AgentState::Running => "Running"@,
        AgentState::Finished => "Finished"@,
        AgentState::Error => "Error"@,
    }
}

/// How a state is called in messages to the user.
fn state_name(state: AgentState) -> (r: &'static str)
    ensures
        r@ == state_text(state),
{
    match state {
        AgentState::Idle => "Idle",
        AgentState::Running => "Running",
        AgentState::Finished => "Finished",
        AgentState::Error => "Error",
    }
}

/// Whether `message` is an answer of the assistant with the text `content`.
pub open spec fn is_answer(message: MessageModel, content: Seq<char>) -> bool {
    message.role == Role::Assistant && message.content == Some(content)
}

/// How many of the messages are answers of the assistant with the text `content`.
pub open spec fn answers(messages: Seq<MessageModel>, content: Seq<char>) -> nat {
    messages.filter(|m: MessageModel| is_answer(m, content)).len()
}

/// An agent is stuck when its last message has a text, and the assistant gave that text at
/// least `threshold` times before.
pub open spec fn stuck(messages: Seq<MessageModel>, threshold: nat) -> bool {
    messages.len() > 0 && match messages.last().content {
        Some(content) => content.len() > 0 && answers(messages.drop_last(), content) >= threshold,
        None => false,
    }
}

/// The next prompt of an agent that was found stuck.
pub open spec fn unstuck_prompt(prompt: Seq<char>) -> Seq<char> {
    if prompt.len() == 0 {
        STUCK_ADVICE@
    } else {
        STUCK_ADVICE@ + "\n"@ + prompt
    }
}

impl BaseAgentRuntime {
    pub fn new<T: Text, U: Text>(name: T, system_prompt: U) -> (r: Self)
        ensures
            r.name@ == name.chars(),
            r.description@ == Seq::<char>::empty(),
            r.system_prompt@ == system_prompt.chars(),
            r.next_step_prompt@ == Seq::<char>::empty(),
            r.state == AgentState::Idle,
            r.max_steps == DEFAULT_MAX_AGENT_STEPS,
            r.current_step == 0,
            r.memory.messages@ == Seq::<Message>::empty(),
            r.memory.max_messages == DEFAULT_MEMORY_LIMIT,
            r.duplicate_threshold == DEFAULT_DUPLICATE_THRESHOLD,
    {
        BaseAgentRuntime {
            name: name.into_text(),
            description: String::new(),
            system_prompt: system_prompt.into_text(),
            next_step_prompt: String::new(),
            state: AgentState::Idle,
            max_steps: DEFAULT_MAX_AGENT_STEPS,
            current_step: 0,
            memory: Memory::default(),
            duplicate_threshold: DEFAULT_DUPLICATE_THRESHOLD,
        }
    }

    /// The runtime with a limit of 0 replaced by the usual one.
    pub open spec fn initialized(self) -> Self {
        BaseAgentRuntime {
            memory: Memory {
                max_messages: if self.memory.max_messages == 0 {
                    DEFAULT_MEMORY_LIMIT
                } else {
                    self.memory.max_messages
                },
                ..self.memory
            },
            max_steps: if self.max_steps == 0 {
                DEFAULT_MAX_AGENT_STEPS
            } else {
                self.max_steps
            },
            ..self
        }
    }

    pub fn initialize_agent(&mut self) -> (r: &mut Self)
        ensures
            *r == old(self).initialized(),
            *final(self) == *final(r),
    {
        if self.memory.max_messages == 0 {
            self.memory.max_messages = DEFAULT_MEMORY_LIMIT;
        }
        if self.max_steps == 0 {
            self.max_steps = DEFAULT_MAX_AGENT_STEPS;
        }
        self
    }

    /// Enters `new_state` for the time of an operation, and gives the state to return to.
    pub fn enter_state(&mut self, new_state: AgentState) -> (previous: AgentState)
        ensures
            previous == old(self).state,
            *final(self) == (BaseAgentRuntime { state: new_state, ..*old(self) }),
    {
        let previous = self.state;
        self.state = new_state;
        previous
    }

    /// Returns to the state from before an operation. What the operation did to the state does
    /// not last, whether it failed or not.
    pub fn leave_state(&mut self, previous: AgentState)
        ensures
            *final(self) == (BaseAgentRuntime { state: previous, ..*old(self) }),
    {
        self.state = previous;
    }

    /// Starts a run. Only an idle agent can be started.
    pub fn begin(&mut self) -> (r: Result<(), String>)
        ensures
            old(self).state == AgentState::Idle ==> r is Ok && *final(self) == (BaseAgentRuntime {
                state: AgentState::Running,
                ..*old(self)
            }),
            old(self).state != AgentState::Idle ==> *final(self) == *old(self) && r is Err
                && r->Err_0@ == "Cannot run agent from state: "@ + state_text(old(self).state),
    {
        if self.state != AgentState::Idle {
            let mut error = "Cannot run agent from state: ".to_owned();
            error.append(state_name(self.state));
            return Err(error);
        }
        self.state = AgentState::Running;
        Ok(())
    }

    /// The message that `update_memory` adds.
    pub open spec fn update_model(
        role: Role,
        content: Seq<char>,
        base64_image: Option<Seq<char>>,
        name: Option<Seq<char>>,
        tool_call_id: Option<Seq<char>>,
    ) -> MessageModel {
        let message = if role == Role::Tool {
            tool_reply(
                content,
                match name {
                    Some(name) => name,
                    None => Seq::empty(),
                },
                match tool_call_id {
                    Some(id) => id,
                    None => Seq::empty(),
                },
            )
        } else {
            plain_message(role, Some(content))
        };
        MessageModel { base64_image, ..message }
    }

    /// Adds a message. Only a tool's message has a name and an id.
    pub fn update_memory<T: Text>(
        &mut self,
        role: Role,
        content: T,
        base64_image: Option<String>,
        name: Option<String>,
        tool_call_id: Option<String>,
    )
        ensures
            exists|message: Message|
                {
                    &&& message.deep_view() == Self::update_model(
                        role,
                        content.chars(),
                        base64_image.deep_view(),
                        name.deep_view(),
                        tool_call_id.deep_view(),
                    )
                    &&& final(self).memory.messages@ == #[trigger] newest(
                        old(self).memory.messages@.push(message),
                        old(self).memory.max_messages as nat,
                    )
                },
            *final(self) == (BaseAgentRuntime { memory: final(self).memory, ..*old(self) }),
            final(self).memory.max_messages == old(self).memory.max_messages,
    {
        let mut message = match role {
            Role::System => Message::system(content),
            Role::User => Message::user(content),
            Role::Assistant => Message::assistant(Some(content.into_text())),
            Role::Tool => Message::tool(
                content,
                match name {
                    Some(name) => name,
                    None => String::new(),
                },
                match tool_call_id {
                    Some(id) => id,
                    None => String::new(),
                },
            ),
        };
        message.base64_image = base64_image;
        self.memory.add_message(message);
    }

    /// Copies of all messages, oldest first.
    pub fn messages(&self) -> (r: Vec<Message>)
        ensures
            deep(r@) == deep(self.memory.messages@),
    {
        self.memory.get_recent_messages(self.memory.messages.len())
    }

    /// Puts `messages` in the place of the conversation, as far as the limit lets them.
    pub fn replace_messages(&mut self, messages: Vec<Message>)
        ensures
            final(self).memory.messages@ == newest(
                messages@,
                old(self).memory.max_messages as nat,
            ),
            *final(self) == (BaseAgentRuntime { memory: final(self).memory, ..*old(self) }),
            final(self).memory.max_messages == old(self).memory.max_messages,
    {
        self.memory.clear();
        self.memory.add_messages(messages);
        proof {
            assert(Seq::<Message>::empty() + messages@ =~= messages@);
        }
    }

    /// Counts one more step, up to the limit. At the limit the run is finished.
    pub fn next_step(&mut self) -> (r: Result<u32, String>)
        ensures
            old(self).state != AgentState::Running ==> *final(self) == *old(self) && r is Err
                && r->Err_0@ == "Agent is not running."@,
            old(self).state == AgentState::Running && old(self).current_step >= old(self).max_steps
                ==> *final(self) == (BaseAgentRuntime { state: AgentState::Finished, ..*old(self) })
                && r is Err && r->Err_0@ == "Reached max steps ("@ + decimal(
                old(self).max_steps as nat,
            ) + ")"@,
            old(self).state == AgentState::Running && old(self).current_step < old(self).max_steps
                ==> *final(self) == (BaseAgentRuntime {
                current_step: (old(self).current_step + 1) as u32,
                ..*old(self)
            }) && r == Ok::<u32, String>((old(self).current_step + 1) as u32),
    {
        if self.state != AgentState::Running {
            return Err("Agent is not running.".to_owned());
        }
        if self.current_step >= self.max_steps {
            self.state = AgentState::Finished;
            let mut error = "Reached max steps (".to_owned();
            error.append(&number_text(self.max_steps as u64));
            error.append(")");
            return Err(error);
        }
        self.current_step = self.current_step + 1;
        Ok(self.current_step)
    }

    pub fn finish(&mut self)
        ensures
            *final(self) == (BaseAgentRuntime { state: AgentState::Finished, ..*old(self) }),
    {
        self.state = AgentState::Finished;
    }

    pub fn fail(&mut self)
        ensures
            *final(self) == (BaseAgentRuntime { state: AgentState::Error, ..*old(self) }),
    {
        self.state = AgentState::Error;
    }

    /// Whether the last message repeats what the assistant said before.
    pub fn is_stuck(&self) -> (r: bool)
        ensures
            r == stuck(deep(self.memory.messages@), self.duplicate_threshold as nat),
    {
        let n = self.memory.messages.len();
        if n == 0 {
            return false;
        }
        let ghost models = deep(self.memory.messages@);
        let content = match &self.memory.messages[n - 1].content {
            Some(content) => content,
            None => {
                return false;
            },
        };
        if content.as_str().is_empty() {
            return false;
        }
        let ghost same_answer = |m: MessageModel| is_answer(m, content@);
        let mut duplicates: usize = 0;
        let mut i: usize = 0;
        while i < n - 1
            invariant
                n == self.memory.messages@.len(),
                n > 0,
                i <= n - 1,
                models == deep(self.memory.messages@),
                same_answer == (|m: MessageModel| is_answer(m, content@)),
                duplicates <= i,
                duplicates == models.take(i as int).filter(same_answer).len(),
            decreases n - i,
        {
            let message = &self.memory.messages[i];
            proof {
                assert(models.take(i + 1) =~= models.take(i as int).push(models[i as int]));
                models.take(i as int).lemma_filter_push(models[i as int], same_answer);
            }
            if message.role == Role::Assistant && is_some_text(&message.content, content) {
                duplicates += 1;
            }
            i += 1;
        }
        proof {
            assert(models.take(n - 1) =~= models.drop_last());
        }
        duplicates >= self.duplicate_threshold
    }

    /// Puts the advice for a stuck agent in front of its next prompt.
    pub fn handle_stuck_state(&mut self)
        ensures
            final(self).next_step_prompt@ == unstuck_prompt(old(self).next_step_prompt@),
            *final(self) == (BaseAgentRuntime {
                next_step_prompt: final(self).next_step_prompt,
                ..*old(self)
            }),
    {
        let mut prompt = STUCK_ADVICE.to_owned();
        if !self.next_step_prompt.as_str().is_empty() {
            prompt.append("\n");
            prompt.append(&self.next_step_prompt);
        }
        self.next_step_prompt = prompt;
    }
}

/// The runtime of an agent that calls tools.
#[derive(Debug, PartialEq, Eq)]
pub struct ToolCallAgentRuntime {
    pub base: BaseAgentRuntime,
    pub tool_choice: ToolChoice,
    pub special_tool_names: Vec<String>,
    pub tool_calls: Vec<MessageToolCall>,
    pub max_observe: Option<usize>,
}

/// Whether a response of the model gives an agent something to go on with.
pub open spec fn continues(
    choice: ToolChoice,
    content: Option<Seq<char>>,
    calls: Seq<ToolCallModel>,
) -> bool {
    let says_something = content is Some && content->0.len() > 0;
    match choice {
        ToolChoice::Never => says_something,
        ToolChoice::Required => calls.len() > 0 || content is Some,
        ToolChoice::Auto => calls.len() > 0 || says_something,
    }
}

impl ToolCallAgentRuntime {
    pub fn new<T: Text, U: Text>(name: T, system_prompt: U) -> (r: Self)
        ensures
            r.base.name@ == name.chars(),
            r.base.description@ == Seq::<char>::empty(),
            r.base.system_prompt@ == system_prompt.chars(),
            r.base.next_step_prompt@ == Seq::<char>::empty(),
            r.base.state == AgentState::Idle,
            r.base.max_steps == DEFAULT_MAX_AGENT_STEPS,
            r.base.current_step == 0,
            r.base.memory.messages@ == Seq::<Message>::empty(),
            r.base.memory.max_messages == DEFAULT_MEMORY_LIMIT,
            r.base.duplicate_threshold == DEFAULT_DUPLICATE_THRESHOLD,
            r.tool_choice == ToolChoice::Auto,
            deep(r.special_tool_names@) == seq!["terminate"@],
            r.tool_calls@ == Seq::<MessageToolCall>::empty(),
            r.max_observe is None,
    {
        ToolCallAgentRuntime {
            base: BaseAgentRuntime::new(name, system_prompt),
            tool_choice: ToolChoice::Auto,
            special_tool_names: one("terminate".to_owned()),
            tool_calls: Vec::new(),
            max_observe: None,
        }
    }

    /// Records a response of the model, and says whether there is something to go on with.
    pub fn set_response(
        &mut self,
        content: Option<String>,
        tool_calls: Vec<MessageToolCall>,
    ) -> (r: bool)
        ensures
            r == continues(old(self).tool_choice, content.deep_view(), deep(tool_calls@)),
            deep(final(self).tool_calls@) == deep(tool_calls@),
            final(self).tool_choice == old(self).tool_choice,
            final(self).special_tool_names == old(self).special_tool_names,
            final(self).max_observe == old(self).max_observe,
            final(self).base == (BaseAgentRuntime {
                memory: final(self).base.memory,
                ..old(self).base
            }),
            final(self).base.memory.max_messages == old(self).base.memory.max_messages,
            deep(final(self).base.memory.messages@) == newest(
                deep(old(self).base.memory.messages@).push(
                    MessageModel {
                        tool_calls: Some(deep(tool_calls@)),
                        ..plain_message(Role::Assistant, content.deep_view())
                    },
                ),
                old(self).base.memory.max_messages as nat,
            ),
    {
        self.tool_calls = copy_all(&tool_calls);
        let says_something = match &content {
            Some(text) => !text.as_str().is_empty(),
            None => false,
        };
        let should_continue = match self.tool_choice {
            ToolChoice::Never => says_something,
            ToolChoice::Required => !tool_calls.is_empty() || content.is_some(),
            ToolChoice::Auto => !tool_calls.is_empty() || says_something,
        };
        let message = Message::assistant_with_tools(content, tool_calls);
        proof {
            lemma_newest_deep(
                self.base.memory.messages@.push(message),
                self.base.memory.max_messages as nat,
            );
        }
        self.base.memory.add_message(message);
        should_continue
    }

    pub fn is_special_tool(&self, name: &str) -> (r: bool)
        ensures
            r == deep(self.special_tool_names@).contains(name@),
    {
        contains_text(&self.special_tool_names, name)
    }

    /// Whether the agent is done once the tool `name` has run.
    pub fn should_finish_execution(&self, name: &str) -> (r: bool)
        ensures
            r == deep(self.special_tool_names@).contains(name@),
    {
        self.is_special_tool(name)
    }

    /// As much of a tool's output as the agent observes.
    pub fn observed(&self, output: &str) -> (r: String)
        ensures
            r@ == match self.max_observe {
                Some(limit) => first_chars(output@, limit as nat),
                None => output@,
            },
    {
        match self.max_observe {
            Some(limit) => take_chars(output, limit),
            None => output.to_owned(),
        }
    }
}

/// Keeping the newest items and taking their models can be done in either order.
pub proof fn lemma_newest_deep<T: DeepView>(s: Seq<T>, n: nat)
    ensures
        deep(newest(s, n)) == newest(deep(s), n),
{
}

/// The specialisations of an agent.
#[derive(Debug, Clone, Copy, PartialEq, Eq, Structural)]
pub enum AgentKind {
    Manus,
    Browser,
    DataAnalysis,
    Swe,
    Mcp,
    SandboxManus,
}

/// The name of an agent's kind.
pub open spec fn kind_text(kind: AgentKind) -> Seq<char> {
    match kind {
        AgentKind::Manus => "manus"@,
        AgentKind::Browser => "browser"@,
        AgentKind::DataAnalysis => "data_analysis"@,
        AgentKind::Swe => "swe"@,
        AgentKind::Mcp => "mcp"@,
        AgentKind::SandboxManus => "sandbox_manus"@,
    }
}

impl AgentKind {
    pub fn as_str(self) -> (r: &'static str)
        ensures
            r@ == kind_text(self),
    {
        match self {
            AgentKind::Manus => "manus",
            AgentKind::Browser => "browser",
            AgentKind::DataAnalysis => "data_analysis",
            AgentKind::Swe => "swe",
            AgentKind::Mcp => "mcp",
            AgentKind::SandboxManus => "sandbox_manus",
        }
    }
}

/// No two kinds have the same name.
pub proof fn law_kinds_have_names_of_their_own(a: AgentKind, b: AgentKind)
    requires
        kind_text(a) == kind_text(b),
    ensures
        a == b,
{
    reveal_strlit("manus");
    reveal_strlit("browser");
    reveal_strlit("data_analysis");
    reveal_strlit("swe");
    reveal_strlit("mcp");
    reveal_strlit("sandbox_manus");
    assert(kind_text(a).len() == kind_text(b).len() && kind_text(a)[0] == kind_text(b)[0]);
    assert(kind_text(AgentKind::Manus).len() == 5);
    assert(kind_text(AgentKind::Browser).len() == 7);
    assert(kind_text(AgentKind::DataAnalysis).len() == 13);
    assert(kind_text(AgentKind::DataAnalysis)[0] == 'd');
    assert(kind_text(AgentKind::SandboxManus).len() == 13);
    assert(kind_text(AgentKind::SandboxManus)[0] == 's');
    assert(kind_text(AgentKind::Swe).len() == 3 && kind_text(AgentKind::Swe)[0] == 's');
    assert(kind_text(AgentKind::Mcp).len() == 3 && kind_text(AgentKind::Mcp)[0] == 'm');
}

/// The kind with the name `value`.
pub fn parse_agent_kind(value: &str) -> (r: Option<AgentKind>)
    ensures
        match r {
            Some(kind) => kind_text(kind) == value@,
            None => forall|kind: AgentKind| kind_text(kind) != value@,
        },
{
    if same(value, "manus") {
        Some(AgentKind::Manus)
    } else if same(value, "browser") {
        Some(AgentKind::Browser)
    } else if same(value, "data_analysis") {
        Some(AgentKind::DataAnalysis)
    } else if same(value, "swe") {
        Some(AgentKind::Swe)
    } else if same(value, "mcp") {
        Some(AgentKind::Mcp)
    } else if same(value, "sandbox_manus") {
        Some(AgentKind::SandboxManus)
    } else {
        None
    }
}

/// Beginning of the system prompt of a browser agent.
pub const BROWSER_PROMPT: &'static str =
    "You are a browser automation agent. Inspect the current URL, tabs, interactive elements, and page content before acting. Use indexed browser actions, verify after state-changing actions, and never invent an element index. Workspace: ";

/// Beginning of the system prompt of a data analysis agent.
pub const DATA_ANALYSIS_PROMPT: &'static str =
    "You are a data analysis agent. Inspect the dataset, compute evidence-backed summaries, create a real chart artifact when requested, and state limitations. Workspace: ";

/// Beginning of the system prompt of a programming agent.
pub const SWE_PROMPT: &'static str =
    "You are an autonomous programmer working directly in a repository. Use rust_code read/list/glob/grep/status/diff to inspect only the relevant files, use rust_code apply_patch or replace for precise edits, and use rust_bash for tests or build checks. Reproduce the issue, make the smallest verified edit, inspect the diff, and run the narrowest relevant checks before answering. Workspace: ";

/// The system prompt of an MCP agent.
pub const MCP_PROMPT: &'static str =
    "You are an MCP agent. Inspect available server tools first, validate arguments against their live schemas, recover from tool errors, and stop when the request is verified.";

/// Beginning of the system prompt of an agent in a sandbox.
pub const SANDBOX_PROMPT: &'static str =
    "You are a general-purpose agent operating inside a task-scoped sandbox. Keep paths inside the sandbox, use browser, shell, file, and vision tools deliberately, and verify results. Sandbox: ";

/// Beginning of the system prompt of the general agent.
pub const MANUS_PROMPT: &'static str =
    "You are RustPilot Manus, an all-capable desktop assistant. Select the smallest useful tool or sequence for programming, retrieval, file processing, browser work, and human approval. Verify every result and never claim an action that has no tool evidence. Workspace: ";

/// What every agent is told before its next step.
pub const NEXT_STEP_PROMPT: &'static str =
    "Based on the current state, select the most appropriate rust_ tool or provide a verified answer. For complex work, keep a concise plan and execute one meaningful action at a time. Use rust_terminate when complete or irrecoverably blocked.";

/// The system prompt of a kind of agent that works in `workspace`.
pub open spec fn system_prompt(kind: AgentKind, workspace: Seq<char>) -> Seq<char> {
    match kind {
        AgentKind::Browser => BROWSER_PROMPT@ + workspace + "."@,
        AgentKind::DataAnalysis => DATA_ANALYSIS_PROMPT@ + workspace + "."@,
        AgentKind::Swe => SWE_PROMPT@ + workspace + "."@,
        AgentKind::Mcp => MCP_PROMPT@,
        AgentKind::SandboxManus => SANDBOX_PROMPT@ + workspace + "."@,
        AgentKind::Manus => MANUS_PROMPT@ + workspace + "."@,
    }
}

/// The system prompt and the prompt for the next step of a kind of agent.
pub fn prompt_profile(kind: AgentKind, workspace: &str) -> (r: (String, String))
    ensures
        r.0@ == system_prompt(kind, workspace@),
        r.1@ == NEXT_STEP_PROMPT@,
{
    let mut system = match kind {
        AgentKind::Browser => BROWSER_PROMPT.to_owned(),
        AgentKind::DataAnalysis => DATA_ANALYSIS_PROMPT.to_owned(),
        AgentKind::Swe => SWE_PROMPT.to_owned(),
        AgentKind::Mcp => MCP_PROMPT.to_owned(),
        AgentKind::SandboxManus => SANDBOX_PROMPT.to_owned(),
        AgentKind::Manus => MANUS_PROMPT.to_owned(),
    };
    if kind != AgentKind::Mcp {
        system.append(workspace);
        system.append(".");
    }
    (system, NEXT_STEP_PROMPT.to_owned())
}

/// Which agents carry out the steps of a plan. Each marker stands in the list at most once.
#[derive(Debug, PartialEq, Eq)]
pub struct PlanningFlowRuntime {
    pub plan_id: String,
    pub current_step_index: Option<usize>,
    pub executors: Vec<(String, AgentKind)>,
}

/// The kind that is entered for `marker`.
pub open spec fn executor_of(
    executors: Seq<(String, AgentKind)>,
    marker: Seq<char>,
) -> Option<AgentKind>
    decreases executors.len(),
{
    if executors.len() == 0 {
        None
    } else if executors.first().0@ == marker {
        Some(executors.first().1)
    } else {
        executor_of(executors.drop_first(), marker)
    }
}

impl PlanningFlowRuntime {
    pub fn new<T: Text>(plan_id: T) -> (r: Self)
        ensures
            r.plan_id@ == plan_id.chars(),
            r.current_step_index is None,
            r.executors@ == Seq::<(String, AgentKind)>::empty(),
    {
        PlanningFlowRuntime {
            plan_id: plan_id.into_text(),
            current_step_index: None,
            executors: Vec::new(),
        }
    }

    /// The agent for a step: the one entered for its marker, else the first one entered, else
    /// `fallback`.
    pub fn executor_for(&self, marker: Option<&str>, fallback: AgentKind) -> (r: AgentKind)
        ensures
            r == match marker {
                Some(marker) if executor_of(self.executors@, marker@) is Some => executor_of(
                    self.executors@,
                    marker@,
                )->0,
                _ => if self.executors@.len() > 0 {
                    self.executors@[0].1
                } else {
                    fallback
                },
            },
    {
        if let Some(wanted) = marker {
            let mut i: usize = 0;
            proof {
                assert(self.executors@.skip(0) =~= self.executors@);
            }
            while i < self.executors.len()
                invariant
                    marker == Some(wanted),
                    i <= self.executors@.len(),
                    executor_of(self.executors@, wanted@) == executor_of(
                        self.executors@.skip(i as int),
                        wanted@,
                    ),
                decreases self.executors@.len() - i,
            {
                proof {
                    assert(self.executors@.skip(i as int).first() == self.executors@[i as int]);
                    assert(self.executors@.skip(i as int).drop_first() =~= self.executors@.skip(
                        i + 1,
                    ));
                }
                if same(&self.executors[i].0, wanted) {
                    return self.executors[i].1;
                }
                i += 1;
            }
        }
        if self.executors.len() > 0 {
            self.executors[0].1
        } else {
            fallback
        }
    }

    /// Finds the first step that is active, and makes it the current one.
    pub fn next_active_step<T, F: Fn(&T) -> bool>(
        &mut self,
        steps: &[T],
        active: F,
    ) -> (r: Option<usize>)
        requires
            forall|step: &T| #[trigger] call_requires(active, (step,)),
        ensures
            match r {
                Some(i) => i < steps@.len() && call_ensures(active, (&steps@[i as int],), true)
                    && forall|j: int|
                    0 <= j < i ==> call_ensures(active, (&#[trigger] steps@[j],), false),
                None => forall|j: int|
                    0 <= j < steps@.len() ==> call_ensures(
                        active,
                        (&#[trigger] steps@[j],),
                        false,
                    ),
            },
            *final(self) == (PlanningFlowRuntime { current_step_index: r, ..*old(self) }),
    {
        let mut i: usize = 0;
        while i < steps.len()
            invariant
                i <= steps@.len(),
                *self == *old(self),
                forall|step: &T| #[trigger] call_requires(active, (step,)),
                forall|j: int|
                    0 <= j < i ==> call_ensures(active, (&#[trigger] steps@[j],), false),
            decreases steps@.len() - i,
        {
            if active(&steps[i]) {
                self.current_step_index = Some(i);
                return Some(i);
            }
            i += 1;
        }
        self.current_step_index = None;
        None
    }
}

// ---- laws ----

/// A memory never holds more messages than its limit once a message was added, and it then holds
/// the newest ones: whatever is dropped is older than whatever is kept.
pub proof fn law_memory_keeps_the_newest(messages: Seq<MessageModel>, limit: nat)
    ensures
        newest(messages, limit).len() <= limit,
        newest(messages, limit).len() == messages.len() || newest(messages, limit).len() == limit,
        forall|i: int|
            0 <= i < newest(messages, limit).len() ==> #[trigger] newest(messages, limit)[i]
                == messages[messages.len() - newest(messages, limit).len() + i],
{
}

/// Adding messages one after the other leaves the same memory as adding them at once.
pub proof fn law_memory_is_replayable(
    kept: Seq<MessageModel>,
    first: Seq<MessageModel>,
    second: Seq<MessageModel>,
    limit: nat,
)
    ensures
        newest(newest(kept + first, limit) + second, limit) == newest(
            kept + (first + second),
            limit,
        ),
{
    let all = kept + (first + second);
    let some = newest(kept + first, limit) + second;
    assert(newest(some, limit) =~= newest(all, limit));
}

} // verus!
