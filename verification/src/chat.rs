//! The messages that are sent to a model, and the rule that a conversation has to keep.

use vstd::prelude::*;

use crate::agent::{MessageToolCall, ToolCallModel};
use crate::deep::{copy_all, deep, group_deep};
use crate::memory::{is_assistant, is_tool, is_user};
use crate::models::{AgentMemoryEntry, AttachmentModel, AttachmentRef, EntryModel};
use crate::pairs::{heard, heard_all, lemma_heard_next, Fault, FaultModel, OpenCalls, Utterance};
use crate::text::{copy_option, same};

verus! {

broadcast use group_deep;

/// A message of the chat protocol. Its attachments are not sent as such.
#[derive(Debug, PartialEq, Eq)]
pub struct ChatMessage {
    pub role: String,
    pub content: Option<String>,
    pub reasoning_content: Option<String>,
    pub reasoning_opaque: Option<String>,
    pub tool_calls: Option<Vec<MessageToolCall>>,
    pub tool_call_id: Option<String>,
    pub name: Option<String>,
    pub attachments: Vec<AttachmentRef>,
}

/// What a message of the chat protocol is.
pub struct ChatModel {
    pub role: Seq<char>,
    pub content: Option<Seq<char>>,
    pub reasoning_content: Option<Seq<char>>,
    pub reasoning_opaque: Option<Seq<char>>,
    pub tool_calls: Option<Seq<ToolCallModel>>,
    pub tool_call_id: Option<Seq<char>>,
    pub name: Option<Seq<char>>,
    pub attachments: Seq<AttachmentModel>,
}

impl DeepView for ChatMessage {
    type V = ChatModel;

    open spec fn deep_view(&self) -> ChatModel {
        ChatModel {
            role: self.role@,
            content: self.content.deep_view(),
            reasoning_content: self.reasoning_content.deep_view(),
            reasoning_opaque: self.reasoning_opaque.deep_view(),
            tool_calls: match self.tool_calls {
                Some(calls) => Some(deep(calls@)),
                None => None,
            },
            tool_call_id: self.tool_call_id.deep_view(),
            name: self.name.deep_view(),
            attachments: deep(self.attachments@),
        }
    }
}

// ---- from memory to messages ----

/// Whether an entry is part of the conversation with the model.
pub open spec fn speaks(entry: EntryModel) -> bool {
    is_user(entry) || is_assistant(entry) || is_tool(entry)
}

/// A text that is sent only where it is not empty.
pub open spec fn unless_empty(text: Seq<char>) -> Option<Seq<char>> {
    if text.len() > 0 {
        Some(text)
    } else {
        None
    }
}

/// The message for an entry.
pub open spec fn chat_of(entry: EntryModel) -> ChatModel {
    ChatModel {
        role: entry.role,
        content: if is_tool(entry) {
            Some(entry.content)
        } else {
            unless_empty(entry.content)
        },
        reasoning_content: unless_empty(entry.reasoning),
        reasoning_opaque: entry.reasoning_opaque,
        tool_calls: if entry.tool_calls.len() > 0 {
            Some(entry.tool_calls)
        } else {
            None
        },
        tool_call_id: entry.tool_call_id,
        name: entry.name,
        attachments: entry.attachments,
    }
}

/// The messages for a memory.
pub open spec fn chat(entries: Seq<EntryModel>) -> Seq<ChatModel>
    decreases entries.len(),
{
    if entries.len() == 0 {
        Seq::empty()
    } else {
        let head = chat(entries.drop_last());
        if speaks(entries.last()) {
            head.push(chat_of(entries.last()))
        } else {
            head
        }
    }
}

/// A copy of a text that is sent only where it is not empty.
fn some_text(text: &String) -> (r: Option<String>)
    ensures
        r.deep_view() == unless_empty(text@),
{
    if text.as_str().is_empty() {
        None
    } else {
        Some(text.clone())
    }
}

/// The messages for a memory.
pub fn memory_to_chat_messages(memory: &[AgentMemoryEntry]) -> (r: Vec<ChatMessage>)
    ensures
        deep(r@) == chat(deep(memory@)),
{
    let mut r: Vec<ChatMessage> = Vec::new();
    let mut i: usize = 0;
    while i < memory.len()
        invariant
            i <= memory@.len(),
            deep(r@) == chat(deep(memory@).take(i as int)),
        decreases memory@.len() - i,
    {
        let entry = &memory[i];
        let from_tool = same(&entry.role, "tool");
        if same(&entry.role, "user") || same(&entry.role, "assistant") || from_tool {
            r.push(
                ChatMessage {
                    role: entry.role.clone(),
                    content: if from_tool {
                        Some(entry.content.clone())
                    } else {
                        some_text(&entry.content)
                    },
                    reasoning_content: some_text(&entry.reasoning),
                    reasoning_opaque: copy_option(&entry.reasoning_opaque),
                    tool_calls: if entry.tool_calls.is_empty() {
                        None
                    } else {
                        Some(copy_all(&entry.tool_calls))
                    },
                    tool_call_id: copy_option(&entry.tool_call_id),
                    name: copy_option(&entry.name),
                    attachments: copy_all(&entry.attachments),
                },
            );
        }
        i += 1;
        proof {
            assert(deep(memory@).take(i as int).drop_last() =~= deep(memory@).take(i - 1));
            assert(deep(memory@).take(i as int).last() == entry.deep_view());
        }
    }
    proof {
        assert(deep(memory@).take(memory@.len() as int) =~= deep(memory@));
    }
    r
}

// ---- the rule of a conversation ----

pub const MISSING_RESULT: &'static str =
    "Conversation context is invalid: a tool response is missing before the next message.";

pub const BAD_CALL_ID: &'static str =
    "Conversation context is invalid: assistant tool-call ids are empty or duplicated.";

pub const NO_CALL_ID: &'static str =
    "Conversation context is invalid: a tool response has no tool_call_id.";

pub const UNKNOWN_CALL_PREFIX: &'static str =
    "Conversation context is invalid: tool response `";

pub const UNKNOWN_CALL_SUFFIX: &'static str = "` has no matching assistant tool call.";

pub const UNSUPPORTED_ROLE: &'static str =
    "Conversation context contains an unsupported message role.";

pub const LAST_CALL_OPEN: &'static str =
    "Conversation context is invalid: the last assistant tool call has no result.";

/// What a message says, as far as the rule is concerned.
pub open spec fn utterance(message: ChatModel) -> Utterance {
    Utterance {
        role: message.role,
        calls: match message.tool_calls {
            Some(calls) => calls,
            None => Seq::empty(),
        },
        tool_call_id: message.tool_call_id,
    }
}

/// What the messages say, as far as the rule is concerned.
pub open spec fn utterances(messages: Seq<ChatModel>) -> Seq<Utterance> {
    messages.map_values(|m: ChatModel| utterance(m))
}

/// How a fault is reported.
pub open spec fn fault_text(fault: FaultModel) -> Seq<char> {
    match fault {
        FaultModel::MissingResult => MISSING_RESULT@,
        FaultModel::BadCallId => BAD_CALL_ID@,
        FaultModel::NoCallId => NO_CALL_ID@,
        FaultModel::UnknownCall(id) => UNKNOWN_CALL_PREFIX@ + id + UNKNOWN_CALL_SUFFIX@,
        FaultModel::UnsupportedRole => UNSUPPORTED_ROLE@,
    }
}

/// What is wrong with a conversation.
pub open spec fn context_error(messages: Seq<ChatModel>) -> Option<Seq<char>> {
    match heard_all(Ok(Set::empty()), utterances(messages), true) {
        Ok(pending) => if pending == Set::<Seq<char>>::empty() {
            None
        } else {
            Some(LAST_CALL_OPEN@)
        },
        Err(fault) => Some(fault_text(fault)),
    }
}

/// How a fault is reported.
fn fault_message(fault: Fault) -> (r: String)
    ensures
        r@ == fault_text(fault.deep_view()),
{
    match fault {
        Fault::MissingResult => MISSING_RESULT.to_owned(),
        Fault::BadCallId => BAD_CALL_ID.to_owned(),
        Fault::NoCallId => NO_CALL_ID.to_owned(),
        Fault::UnknownCall(id) => {
            let mut error = UNKNOWN_CALL_PREFIX.to_owned();
            error.append(&id);
            error.append(UNKNOWN_CALL_SUFFIX);
            error
        },
        Fault::UnsupportedRole => UNSUPPORTED_ROLE.to_owned(),
    }
}

/// Checks the rule of a conversation.
pub fn validate_chat_message_context(messages: &[ChatMessage]) -> (r: Result<(), String>)
    ensures
        match r {
            Ok(_) => context_error(deep(messages@)) is None,
            Err(error) => context_error(deep(messages@)) == Some(error@),
        },
{
    let ghost said = utterances(deep(messages@));
    let mut open = OpenCalls::new();
    let ghost mut set: Set<Seq<char>> = Set::empty();
    let no_calls: Vec<MessageToolCall> = Vec::new();
    let mut i: usize = 0;
    proof {
        assert(said.take(0) =~= Seq::<Utterance>::empty());
    }
    while i < messages.len()
        invariant
            i <= messages@.len(),
            said == utterances(deep(messages@)),
            no_calls@.len() == 0,
            open.are(set),
            heard_all(Ok(Set::empty()), said.take(i as int), true) == Ok::<
                Set<Seq<char>>,
                FaultModel,
            >(set),
        decreases messages@.len() - i,
    {
        let message = &messages[i];
        let calls = match &message.tool_calls {
            Some(calls) => calls,
            None => &no_calls,
        };
        proof {
            assert(deep(no_calls@) =~= Seq::<ToolCallModel>::empty());
            assert(said[i as int] == utterance(message.deep_view()));
            assert(said[i as int].calls == deep(calls@));
            lemma_heard_next(Ok(Set::empty()), said, true, i as int);
        }
        match open.hear(&message.role, calls, &message.tool_call_id, true, Ghost(set)) {
            Some(fault) => {
                return Err(fault_message(fault));
            },
            None => {},
        }
        proof {
            set = heard(set, said[i as int], true)->Ok_0;
        }
        i += 1;
    }
    proof {
        assert(said.take(messages@.len() as int) =~= said);
    }
    if open.none(Ghost(set)) {
        Ok(())
    } else {
        Err(LAST_CALL_OPEN.to_owned())
    }
}

} // verus!
