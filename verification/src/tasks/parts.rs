//! The parts of an answer, and how they grow while the answer is streamed.

use vstd::prelude::*;
use vstd::utf8::encode_utf8;

use crate::agent::{MessageToolCall, ToolCallModel};
use crate::deep::{copy_all, deep, group_deep};
use crate::ids::{is_id, new_id};
use crate::number::{decimal, number_text};
use crate::tasks::records::{AssistantPart, PartModel, TaskMessage, TaskMessageModel};
use crate::text::{
    begins_with, byte_len, chars_of, concat2, concat3, ends_with, finishes_with, same, starts_with,
};

verus! {

broadcast use group_deep;

// ---- lengths ----

/// How many units of UTF-16 a character takes.
pub open spec fn units(c: char) -> nat {
    if (c as u32) <= 0xffff {
        1
    } else {
        2
    }
}

/// How many units of UTF-16 a text takes.
pub open spec fn utf16(s: Seq<char>) -> nat
    decreases s.len(),
{
    if s.len() == 0 {
        0
    } else {
        units(s.first()) + utf16(s.drop_first())
    }
}

/// A text takes no more units of UTF-16 than bytes of UTF-8.
proof fn lemma_utf16_bounded(s: Seq<char>)
    ensures
        utf16(s) <= encode_utf8(s).len(),
    decreases s.len(),
{
    if s.len() > 0 {
        lemma_utf16_bounded(s.drop_first());
    }
}

/// How many units of UTF-16 a text takes.
pub fn utf16_len(value: &str) -> (r: usize)
    ensures
        r == utf16(value@),
{
    let v = chars_of(value);
    let bytes = byte_len(value);
    proof {
        lemma_utf16_bounded(value@);
        assert(value@.skip(0) =~= value@);
    }
    let mut count: usize = 0;
    let mut i: usize = 0;
    while i < v.len()
        invariant
            v@ == value@,
            i <= v@.len(),
            utf16(value@) <= bytes,
            count + utf16(value@.skip(i as int)) == utf16(value@),
        decreases v@.len() - i,
    {
        let c = v[i];
        proof {
            assert(value@.skip(i as int).first() == c);
            assert(value@.skip(i as int).drop_first() =~= value@.skip(i + 1));
        }
        if (c as u32) <= 0xffff {
            count += 1;
        } else {
            count += 2;
        }
        i += 1;
    }
    proof {
        assert(value@.skip(value@.len() as int) =~= Seq::<char>::empty());
    }
    count
}

/// A place moved forward; no further than a place can be.
pub open spec fn moved(place: usize, by: nat) -> usize {
    if place + by > usize::MAX {
        usize::MAX
    } else {
        (place + by) as usize
    }
}

fn move_place(place: usize, by: usize) -> (r: usize)
    ensures
        r == moved(place, by as nat),
{
    if by > usize::MAX - place {
        usize::MAX
    } else {
        place + by
    }
}

// ---- parts of a finished answer ----

/// The part of a call.
pub open spec fn call_part(message_id: Seq<char>, index: int, call: ToolCallModel) -> PartModel {
    PartModel::Tool {
        id: message_id + ":tool:"@ + decimal(index as nat),
        index: index as usize,
        call_id: call.id,
        name: call.name,
    }
}

/// The part of a text, where there is any.
pub open spec fn whole_part(part: PartModel, text: Seq<char>) -> Seq<PartModel> {
    if text.len() == 0 {
        Seq::empty()
    } else {
        seq![part]
    }
}

/// The parts of an answer: its thoughts, its text, and its calls.
pub open spec fn parts_of(message: TaskMessageModel) -> Seq<PartModel> {
    whole_part(
        PartModel::Reasoning {
            id: message.id + ":reasoning"@,
            start: 0,
            end: utf16(message.reasoning) as usize,
        },
        message.reasoning,
    ) + whole_part(
        PartModel::Text {
            id: message.id + ":text"@,
            start: 0,
            end: utf16(message.content) as usize,
        },
        message.content,
    ) + Seq::new(
        message.tool_calls.len(),
        |i: int| call_part(message.id, i, message.tool_calls[i]),
    )
}

/// The message with its parts made anew, where it is an answer.
pub open spec fn rebuilt(message: TaskMessageModel) -> TaskMessageModel {
    if message.role == "assistant"@ {
        TaskMessageModel { parts: parts_of(message), ..message }
    } else {
        message
    }
}

/// The message with its parts made, where it has none.
pub open spec fn with_parts(message: TaskMessageModel) -> TaskMessageModel {
    if message.parts.len() == 0 {
        rebuilt(message)
    } else {
        message
    }
}

fn make_call_part(message_id: &str, index: usize, call: &MessageToolCall) -> (r: AssistantPart)
    ensures
        r.deep_view() == call_part(message_id@, index as int, call.deep_view()),
{
    AssistantPart::Tool {
        id: concat3(message_id, ":tool:", &number_text(index as u64)),
        index,
        call_id: call.id.clone(),
        name: call.function.name.clone(),
    }
}

/// Makes the parts of an answer anew.
pub fn rebuild_assistant_parts(message: &mut TaskMessage)
    ensures
        final(message).deep_view() == rebuilt(old(message).deep_view()),
{
    if !same(&message.role, "assistant") {
        return;
    }
    let ghost model = message.deep_view();
    let mut parts: Vec<AssistantPart> = Vec::new();
    let ghost thoughts = whole_part(
        PartModel::Reasoning {
            id: model.id + ":reasoning"@,
            start: 0,
            end: utf16(model.reasoning) as usize,
        },
        model.reasoning,
    );
    let ghost text = whole_part(
        PartModel::Text {
            id: model.id + ":text"@,
            start: 0,
            end: utf16(model.content) as usize,
        },
        model.content,
    );
    if !message.reasoning.as_str().is_empty() {
        let part = AssistantPart::Reasoning {
            id: concat2(&message.id, ":reasoning"),
            start: 0,
            end: utf16_len(&message.reasoning),
        };
        parts.push(part);
    }
    proof {
        assert(deep(parts@) =~= thoughts);
    }
    if !message.content.as_str().is_empty() {
        let part = AssistantPart::Text {
            id: concat2(&message.id, ":text"),
            start: 0,
            end: utf16_len(&message.content),
        };
        parts.push(part);
    }
    proof {
        assert(deep(parts@) =~= thoughts + text);
    }
    let ghost head = thoughts + text;
    let ghost calls = Seq::new(
        model.tool_calls.len(),
        |i: int| call_part(model.id, i, model.tool_calls[i]),
    );
    let mut i: usize = 0;
    proof {
        assert(head + calls.take(0) =~= head);
    }
    while i < message.tool_calls.len()
        invariant
            message.deep_view() == model,
            calls == Seq::new(
                model.tool_calls.len(),
                |i: int| call_part(model.id, i, model.tool_calls[i]),
            ),
            i <= message.tool_calls@.len(),
            deep(parts@) == head + calls.take(i as int),
        decreases message.tool_calls@.len() - i,
    {
        let part = make_call_part(&message.id, i, &message.tool_calls[i]);
        let ghost before = deep(parts@);
        parts.push(part);
        proof {
            assert(model.tool_calls[i as int] == message.tool_calls@[i as int].deep_view());
            assert(part.deep_view() == calls[i as int]);
            assert(deep(parts@) == before.push(part.deep_view()));
            assert(head + calls.take(i + 1) =~= (head + calls.take(i as int)).push(
                calls[i as int],
            ));
        }
        i += 1;
    }
    proof {
        assert(calls.take(calls.len() as int) =~= calls);
    }
    message.parts = parts;
}

/// Makes the parts of an answer where it has none.
pub fn ensure_assistant_parts(message: &mut TaskMessage)
    ensures
        final(message).deep_view() == with_parts(old(message).deep_view()),
{
    proof {
        assert(message.deep_view().parts.len() == message.parts@.len());
    }
    if message.parts.len() == 0 {
        rebuild_assistant_parts(message);
    }
}

// ---- streaming ----

/// What comes while an answer is streamed.
#[derive(Debug, PartialEq, Eq)]
pub enum StreamEvent {
    TextDelta(String),
    ReasoningDelta(String),
    ReasoningOpaque(String),
    ToolCallDelta {
        index: usize,
        id: Option<String>,
        name: Option<String>,
        arguments: Option<String>,
    },
}

/// The text of an optional text; empty where there is none.
pub open spec fn text_of(text: Option<Seq<char>>) -> Seq<char> {
    match text {
        Some(text) => text,
        None => Seq::empty(),
    }
}

/// The place of the first part of the call with the number; the count of the parts where there is
/// none.
pub open spec fn tool_part(parts: Seq<PartModel>, index: usize) -> int
    decreases parts.len(),
{
    if parts.len() == 0 || is_part_of(parts.first(), index) {
        0
    } else {
        1 + tool_part(parts.drop_first(), index)
    }
}

pub open spec fn is_part_of(part: PartModel, index: usize) -> bool {
    match part {
        PartModel::Tool { index: i, .. } => i == index,
        _ => false,
    }
}

/// The identifier of a call after another piece of it has come.
pub open spec fn merged_call_id(current: Seq<char>, piece: Seq<char>) -> Seq<char> {
    if piece.len() == 0 {
        current
    } else if begins_with(current, "stream:"@) {
        piece
    } else if current == piece || finishes_with(current, piece) {
        current
    } else {
        current + piece
    }
}

/// The part of a call after another piece of it has come.
pub open spec fn merged_part(part: PartModel, id: Seq<char>, name: Seq<char>) -> PartModel {
    match part {
        PartModel::Tool { id: part_id, index, call_id, name: known } => PartModel::Tool {
            id: part_id,
            index,
            call_id: merged_call_id(call_id, id),
            name: known + name,
        },
        _ => part,
    }
}

/// The parts after another piece of text has come. `from` is how long the text was.
pub open spec fn with_text_piece(
    parts: Seq<PartModel>,
    from: nat,
    len: nat,
    part_id: Seq<char>,
) -> Seq<PartModel> {
    if parts.len() > 0 && parts.last() is Text {
        match parts.last() {
            PartModel::Text { id, start, end } => parts.update(
                parts.len() - 1,
                PartModel::Text { id, start, end: moved(end, len) },
            ),
            _ => parts,
        }
    } else {
        parts.push(
            PartModel::Text {
                id: part_id,
                start: from as usize,
                end: moved(from as usize, len),
            },
        )
    }
}

/// The parts after another piece of thought has come. `from` is how long the thoughts were.
pub open spec fn with_thought_piece(
    parts: Seq<PartModel>,
    from: nat,
    len: nat,
    part_id: Seq<char>,
) -> Seq<PartModel> {
    if parts.len() > 0 && parts.last() is Reasoning {
        match parts.last() {
            PartModel::Reasoning { id, start, end } => parts.update(
                parts.len() - 1,
                PartModel::Reasoning { id, start, end: moved(end, len) },
            ),
            _ => parts,
        }
    } else {
        parts.push(
            PartModel::Reasoning {
                id: part_id,
                start: from as usize,
                end: moved(from as usize, len),
            },
        )
    }
}

/// The parts after another piece of a call has come.
pub open spec fn with_call_piece(
    parts: Seq<PartModel>,
    index: usize,
    id: Seq<char>,
    name: Seq<char>,
    part_id: Seq<char>,
) -> Seq<PartModel> {
    let i = tool_part(parts, index);
    if i < parts.len() {
        parts.update(i, merged_part(parts[i], id, name))
    } else {
        parts.push(
            PartModel::Tool {
                id: part_id,
                index,
                call_id: if id.len() == 0 {
                    "stream:"@ + decimal(index as nat)
                } else {
                    id
                },
                name,
            },
        )
    }
}

/// The message after an event. A part that begins gets the identifier.
pub open spec fn streamed(
    message: TaskMessageModel,
    event: StreamEvent,
    part_id: Seq<char>,
) -> TaskMessageModel {
    match event {
        StreamEvent::TextDelta(delta) => if delta@.len() == 0 {
            message
        } else {
            let m = with_parts(message);
            TaskMessageModel {
                content: m.content + delta@,
                parts: with_text_piece(m.parts, utf16(m.content), utf16(delta@), part_id),
                ..m
            }
        },
        StreamEvent::ReasoningDelta(delta) => if delta@.len() == 0 {
            message
        } else {
            let m = with_parts(message);
            TaskMessageModel {
                reasoning: m.reasoning + delta@,
                parts: with_thought_piece(m.parts, utf16(m.reasoning), utf16(delta@), part_id),
                ..m
            }
        },
        StreamEvent::ReasoningOpaque(value) => TaskMessageModel {
            reasoning_opaque: Some(value@),
            ..message
        },
        StreamEvent::ToolCallDelta { index, id, name, arguments } => {
            let m = with_parts(message);
            TaskMessageModel {
                parts: with_call_piece(
                    m.parts,
                    index,
                    text_of(id.deep_view()),
                    text_of(name.deep_view()),
                    part_id,
                ),
                ..m
            }
        },
    }
}

fn text_or_empty(text: &Option<String>) -> (r: String)
    ensures
        r@ == text_of(text.deep_view()),
{
    match text {
        Some(text) => text.clone(),
        None => String::new(),
    }
}

fn find_tool_part(parts: &Vec<AssistantPart>, index: usize) -> (r: usize)
    ensures
        r == tool_part(deep(parts@), index),
        r <= parts@.len(),
{
    let ghost models = deep(parts@);
    let mut i: usize = 0;
    proof {
        assert(models.skip(0) =~= models);
    }
    while i < parts.len()
        invariant
            models == deep(parts@),
            i <= parts@.len(),
            tool_part(models, index) == i + tool_part(models.skip(i as int), index),
        decreases parts@.len() - i,
    {
        proof {
            assert(models.skip(i as int).first() == parts@[i as int].deep_view());
            assert(models.skip(i as int).drop_first() =~= models.skip(i + 1));
        }
        if let AssistantPart::Tool { index: found, .. } = &parts[i] {
            if *found == index {
                return i;
            }
        }
        i += 1;
    }
    i
}

fn merge_call_id(current: &str, piece: &str) -> (r: String)
    ensures
        r@ == merged_call_id(current@, piece@),
{
    if piece.is_empty() {
        current.to_owned()
    } else if starts_with(current, "stream:") {
        piece.to_owned()
    } else if same(current, piece) || ends_with(current, piece) {
        current.to_owned()
    } else {
        concat2(current, piece)
    }
}

fn merge_part(part: &AssistantPart, id: &str, name: &str) -> (r: AssistantPart)
    ensures
        r.deep_view() == merged_part(part.deep_view(), id@, name@),
{
    match part {
        AssistantPart::Tool { id: part_id, index, call_id, name: known } => AssistantPart::Tool {
            id: part_id.clone(),
            index: *index,
            call_id: merge_call_id(call_id, id),
            name: concat2(known, name),
        },
        _ => part.clone(),
    }
}

fn push_text_piece(parts: &mut Vec<AssistantPart>, from: usize, len: usize, part_id: &str)
    ensures
        deep(final(parts)@) == with_text_piece(
            deep(old(parts)@),
            from as nat,
            len as nat,
            part_id@,
        ),
{
    let n = parts.len();
    let ghost before = deep(parts@);
    if n > 0 {
        proof {
            assert(before.last() == parts@[n - 1].deep_view());
        }
        if let AssistantPart::Text { id, start, end } = &parts[n - 1] {
            let part = AssistantPart::Text {
                id: id.clone(),
                start: *start,
                end: move_place(*end, len),
            };
            parts.set(n - 1, part);
            return;
        }
    }
    parts.push(
        AssistantPart::Text {
            id: part_id.to_owned(),
            start: from,
            end: move_place(from, len),
        },
    );
}

fn push_thought_piece(parts: &mut Vec<AssistantPart>, from: usize, len: usize, part_id: &str)
    ensures
        deep(final(parts)@) == with_thought_piece(
            deep(old(parts)@),
            from as nat,
            len as nat,
            part_id@,
        ),
{
    let n = parts.len();
    let ghost before = deep(parts@);
    if n > 0 {
        proof {
            assert(before.last() == parts@[n - 1].deep_view());
        }
        if let AssistantPart::Reasoning { id, start, end } = &parts[n - 1] {
            let part = AssistantPart::Reasoning {
                id: id.clone(),
                start: *start,
                end: move_place(*end, len),
            };
            parts.set(n - 1, part);
            return;
        }
    }
    parts.push(
        AssistantPart::Reasoning {
            id: part_id.to_owned(),
            start: from,
            end: move_place(from, len),
        },
    );
}

fn push_call_piece(
    parts: &mut Vec<AssistantPart>,
    index: usize,
    id: &str,
    name: &str,
    part_id: &str,
)
    ensures
        deep(final(parts)@) == with_call_piece(
            deep(old(parts)@),
            index,
            id@,
            name@,
            part_id@,
        ),
{
    let i = find_tool_part(parts, index);
    if i < parts.len() {
        proof {
            assert(deep(parts@)[i as int] == parts@[i as int].deep_view());
        }
        let part = merge_part(&parts[i], id, name);
        parts.set(i, part);
    } else {
        let call_id = if id.is_empty() {
            concat2("stream:", &number_text(index as u64))
        } else {
            id.to_owned()
        };
        parts.push(
            AssistantPart::Tool {
                id: part_id.to_owned(),
                index,
                call_id,
                name: name.to_owned(),
            },
        );
    }
}

/// Lets a message grow by an event. A part that begins gets the identifier.
pub fn stream_event(message: &mut TaskMessage, event: &StreamEvent, part_id: &str)
    ensures
        final(message).deep_view() == streamed(old(message).deep_view(), *event, part_id@),
{
    match event {
        StreamEvent::TextDelta(delta) => {
            if delta.as_str().is_empty() {
                return;
            }
            ensure_assistant_parts(message);
            let from = utf16_len(&message.content);
            push_text_piece(&mut message.parts, from, utf16_len(delta), part_id);
            message.content.append(delta);
        },
        StreamEvent::ReasoningDelta(delta) => {
            if delta.as_str().is_empty() {
                return;
            }
            ensure_assistant_parts(message);
            let from = utf16_len(&message.reasoning);
            push_thought_piece(&mut message.parts, from, utf16_len(delta), part_id);
            message.reasoning.append(delta);
        },
        StreamEvent::ReasoningOpaque(value) => {
            message.reasoning_opaque = Some(value.clone());
        },
        StreamEvent::ToolCallDelta { index, id, name, arguments: _ } => {
            ensure_assistant_parts(message);
            push_call_piece(
                &mut message.parts,
                *index,
                &text_or_empty(id),
                &text_or_empty(name),
                part_id,
            );
        },
    }
}

/// Lets a message grow by an event.
pub fn apply_stream_event(message: &mut TaskMessage, event: &StreamEvent)
    ensures
        exists|part_id: Seq<char>|
            is_id(part_id, "part"@) && final(message).deep_view() == #[trigger] streamed(
                old(message).deep_view(),
                *event,
                part_id,
            ),
{
    let part_id = new_id("part");
    stream_event(message, event, &part_id);
}

// ---- calls of a finished answer ----

/// The parts with those of the calls: a call that has a part already is completed there.
pub open spec fn parts_with_calls(
    parts: Seq<PartModel>,
    message_id: Seq<char>,
    calls: Seq<ToolCallModel>,
) -> Seq<PartModel>
    decreases calls.len(),
{
    if calls.len() == 0 {
        parts
    } else {
        let head = parts_with_calls(parts, message_id, calls.drop_last());
        let n = calls.len() - 1;
        let call = calls.last();
        let i = tool_part(head, n as usize);
        if i < head.len() {
            head.update(i, completed_part(head[i], call))
        } else {
            head.push(call_part(message_id, n, call))
        }
    }
}

/// The part of a call with what the call turned out to be.
pub open spec fn completed_part(part: PartModel, call: ToolCallModel) -> PartModel {
    match part {
        PartModel::Tool { id, index, call_id, name } => PartModel::Tool {
            id,
            index,
            call_id: call.id,
            name: call.name,
        },
        _ => part,
    }
}

/// The message with its calls.
pub open spec fn with_calls(
    message: TaskMessageModel,
    calls: Seq<ToolCallModel>,
) -> TaskMessageModel {
    let m = TaskMessageModel { tool_calls: calls, ..message };
    if message.parts.len() == 0 {
        rebuilt(m)
    } else {
        TaskMessageModel { parts: parts_with_calls(m.parts, m.id, calls), ..m }
    }
}

/// Sets the calls of a message, and completes its parts.
pub fn attach_tool_calls(message: &mut TaskMessage, calls: &Vec<MessageToolCall>)
    ensures
        final(message).deep_view() == with_calls(old(message).deep_view(), deep(calls@)),
{
    proof {
        assert(message.deep_view().parts.len() == message.parts@.len());
    }
    let ghost first = message.deep_view();
    message.tool_calls = copy_all(calls);
    if message.parts.len() == 0 {
        rebuild_assistant_parts(message);
        return;
    }
    let ghost models = deep(calls@);
    let ghost parts = first.parts;
    let ghost id = first.id;
    let mut k: usize = 0;
    proof {
        assert(models.take(0) =~= Seq::<ToolCallModel>::empty());
    }
    while k < calls.len()
        invariant
            models == deep(calls@),
            k <= calls@.len(),
            first.parts == parts,
            first.id == id,
            message.deep_view() == (TaskMessageModel {
                tool_calls: models,
                parts: parts_with_calls(parts, id, models.take(k as int)),
                ..first
            }),
        decreases calls@.len() - k,
    {
        proof {
            assert(models.take(k + 1).drop_last() =~= models.take(k as int));
            assert(models.take(k + 1).last() == calls@[k as int].deep_view());
            assert(models.take(k + 1).len() == k + 1);
        }
        let i = find_tool_part(&message.parts, k);
        if i < message.parts.len() {
            proof {
                assert(deep(message.parts@)[i as int] == message.parts@[i as int].deep_view());
            }
            let part = match &message.parts[i] {
                AssistantPart::Tool { id, index, call_id: _, name: _ } => AssistantPart::Tool {
                    id: id.clone(),
                    index: *index,
                    call_id: calls[k].id.clone(),
                    name: calls[k].function.name.clone(),
                },
                other => other.clone(),
            };
            message.parts.set(i, part);
        } else {
            let part = make_call_part(&message.id, k, &calls[k]);
            message.parts.push(part);
        }
        k += 1;
    }
    proof {
        assert(models.take(models.len() as int) =~= models);
    }
}

// ---- laws ----

pub proof fn lemma_utf16_concat(a: Seq<char>, b: Seq<char>)
    ensures
        utf16(a + b) == utf16(a) + utf16(b),
    decreases a.len(),
{
    if a.len() == 0 {
        assert(a + b =~= b);
    } else {
        lemma_utf16_concat(a.drop_first(), b);
        assert((a + b).drop_first() =~= a.drop_first() + b);
        assert((a + b).first() == a.first());
    }
}

/// The text of a message that is streamed is what was there with each piece behind it, and a new
/// part of it begins where the text ended and ends where it ends now.
pub proof fn law_streamed_text_is_covered_by_its_part(
    message: TaskMessageModel,
    delta: String,
    part_id: Seq<char>,
)
    requires
        delta@.len() > 0,
        message.parts.len() > 0,
        !(message.parts.last() is Text),
        utf16(message.content + delta@) <= usize::MAX,
    ensures
        ({
            let after = streamed(message, StreamEvent::TextDelta(delta), part_id);
            &&& after.content == message.content + delta@
            &&& after.parts.len() == message.parts.len() + 1
            &&& after.parts.drop_last() == message.parts
            &&& after.parts.last() == (PartModel::Text {
                id: part_id,
                start: utf16(message.content) as usize,
                end: utf16(after.content) as usize,
            })
        }),
{
    lemma_utf16_concat(message.content, delta@);
    let after = streamed(message, StreamEvent::TextDelta(delta), part_id);
    assert(after.parts.drop_last() =~= message.parts);
}

/// What was streamed before never changes its order: an event changes one part, or adds one at
/// the end.
pub proof fn law_parts_keep_their_order(
    message: TaskMessageModel,
    event: StreamEvent,
    part_id: Seq<char>,
    i: int,
    j: int,
)
    requires
        message.parts.len() > 0,
        0 <= i < j < message.parts.len(),
    ensures
        ({
            let after = streamed(message, event, part_id);
            &&& message.parts.len() <= after.parts.len() <= message.parts.len() + 1
            &&& after.parts[i] == message.parts[i] || after.parts[j] == message.parts[j]
        }),
{
    lemma_tool_part(message.parts, match event {
        StreamEvent::ToolCallDelta { index, .. } => index,
        _ => 0,
    });
}

proof fn lemma_tool_part(parts: Seq<PartModel>, index: usize)
    ensures
        0 <= tool_part(parts, index) <= parts.len(),
    decreases parts.len(),
{
    if parts.len() > 0 && !is_part_of(parts.first(), index) {
        lemma_tool_part(parts.drop_first(), index);
    }
}

} // verus!
