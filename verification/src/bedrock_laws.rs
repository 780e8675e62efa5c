//! What sending a conversation to the interface and reading its reply guarantees.

use vstd::prelude::*;

use crate::bedrock::{
    bedrock_messages, bedrock_tools, body_json, call_arguments, openai_reply, BedrockSettings,
    call_input, marked_system, marked_turns, message_part, reply_call, reply_calls, reply_items,
    reply_text, result_turn, text_block, tool_spec, tool_use, turn, turn_of,
};
use crate::json::{num, JsonModel};
use crate::json_model::lemma_member_index_is;
use crate::json_text::{compact_json, parsed_json};
use crate::text::{has_part, occurs_at};

verus! {

/// The member at a place, where no other one before it has its name.
proof fn lemma_get_at(members: Seq<(Seq<char>, JsonModel)>, i: int, key: Seq<char>)
    requires
        0 <= i < members.len(),
        members[i].0 == key,
        forall|j: int| 0 <= j < i ==> (#[trigger] members[j]).0 != key,
    ensures
        JsonModel::Object(members).get(key) == Some(members[i].1),
{
    lemma_member_index_is(members, key, i);
}

proof fn lemma_text_block(text: Seq<char>)
    ensures
        text_block(text).text("text"@) == Some(text),
{
    lemma_get_at(seq![("text"@, JsonModel::Str(text))], 0, "text"@);
}

proof fn lemma_turn(role: Seq<char>, content: Seq<JsonModel>)
    ensures
        turn(role, content).text("role"@) == Some(role),
        turn(role, content).items("content"@) == Some(content),
{
    reveal_strlit("role");
    reveal_strlit("content");
    assert("role"@.len() == 4 && "content"@.len() == 7);
    let members = seq![
        ("role"@, JsonModel::Str(role)),
        ("content"@, JsonModel::Array(content)),
    ];
    lemma_get_at(members, 0, "role"@);
    lemma_get_at(members, 1, "content"@);
}

/// Every message of a conversation is sent: what the system says in one list, each other message as
/// a turn in the other, both in the order of the conversation.
pub proof fn law_every_message_is_sent(messages: Seq<JsonModel>)
    requires
        bedrock_messages(messages) is Ok,
    ensures
        bedrock_messages(messages)->Ok_0.0 == messages.filter(
            |m: JsonModel| m.text("role"@) == Some("system"@),
        ).map_values(|m: JsonModel| text_block(m.text_or("content"@, ""@))),
        bedrock_messages(messages)->Ok_0.1 == messages.filter(
            |m: JsonModel| m.text("role"@) != Some("system"@),
        ).map_values(|m: JsonModel| turn_of(m)),
    decreases messages.len(),
{
    reveal(Seq::filter);
    reveal_strlit("");
    reveal_strlit("system");
    assert(""@.len() == 0 && "system"@.len() == 6);
    let system = |m: JsonModel| m.text("role"@) == Some("system"@);
    let other = |m: JsonModel| m.text("role"@) != Some("system"@);
    let said = |m: JsonModel| text_block(m.text_or("content"@, ""@));
    let turned = |m: JsonModel| turn_of(m);
    if messages.len() > 0 {
        law_every_message_is_sent(messages.drop_last());
    }
    let (a, b) = bedrock_messages(messages)->Ok_0;
    assert(a =~= messages.filter(system).map_values(said));
    assert(b =~= messages.filter(other).map_values(turned));
}

/// A conversation is refused if and only if a message has a role that there is not.
pub proof fn law_only_unknown_roles_are_refused(messages: Seq<JsonModel>)
    ensures
        bedrock_messages(messages) is Ok <==> forall|i: int|
            0 <= i < messages.len() ==> {
                let role = (#[trigger] messages[i]).text_or("role"@, ""@);
                role == "system"@ || role == "user"@ || role == "assistant"@ || role == "tool"@
            },
    decreases messages.len(),
{
    if messages.len() > 0 {
        let head = messages.drop_last();
        law_only_unknown_roles_are_refused(head);
        assert(forall|i: int| 0 <= i < head.len() ==> head[i] == #[trigger] messages[i]);
        assert(messages[messages.len() - 1] == messages.last());
        if bedrock_messages(head) is Err {
            let i = choose|i: int|
                0 <= i < head.len() && {
                    let role = (#[trigger] head[i]).text_or("role"@, ""@);
                    !(role == "system"@ || role == "user"@ || role == "assistant"@ || role
                        == "tool"@)
                };
            assert(messages[i] == head[i]);
        }
    }
}

/// A turn says what its message says: the text of the user, the text and every call of the
/// assistant, the result of a tool with the call that it answers.
pub proof fn law_turns_say_what_their_messages_say(message: JsonModel, i: int)
    ensures
        message.text("role"@) == Some("user"@) ==> {
            let sent = turn_of(message);
            &&& sent.text("role"@) == Some("user"@)
            &&& sent.items("content"@) is Some
            &&& sent.items("content"@)->0.len() == 1
            &&& message.text("content"@) is Some ==> sent.items("content"@)->0[0].text("text"@)
                == message.text("content"@)
        },
        message.text("role"@) == Some("assistant"@) ==> {
            let sent = turn_of(message);
            let blocks = sent.items("content"@)->0;
            let calls = if message.items("tool_calls"@) is Some {
                message.items("tool_calls"@)->0
            } else {
                Seq::empty()
            };
            let said = if message.text("content"@) is Some {
                message.text("content"@)->0
            } else {
                Seq::empty()
            };
            let first: int = if said.len() > 0 {
                1
            } else {
                0
            };
            &&& sent.text("role"@) == Some("assistant"@)
            &&& sent.items("content"@) is Some
            &&& blocks.len() == first + calls.len()
            &&& said.len() > 0 ==> blocks[0].text("text"@) == Some(said)
            &&& 0 <= i < calls.len() ==> {
                let used = blocks[first + i].get("toolUse"@);
                &&& used is Some
                &&& calls[i].text("id"@) is Some ==> used->0.text("toolUseId"@) == calls[i].text(
                    "id"@,
                )
                &&& calls[i].get("function"@) is Some && calls[i].get("function"@)->0.text(
                    "name"@,
                ) is Some ==> used->0.text("name"@) == calls[i].get("function"@)->0.text("name"@)
                &&& (parsed_json(call_arguments(calls[i])) matches Ok(value) ==> used->0.get(
                    "input"@,
                ) == Some(value))
            }
        },
        message.text("role"@) == Some("tool"@) ==> {
            let sent = turn_of(message);
            let result = sent.items("content"@)->0[0].get("toolResult"@);
            &&& sent.text("role"@) == Some("user"@)
            &&& sent.items("content"@) is Some
            &&& sent.items("content"@)->0.len() == 1
            &&& result is Some
            &&& message.text("tool_call_id"@) is Some ==> result->0.text("toolUseId"@)
                == message.text("tool_call_id"@)
            &&& result->0.items("content"@) is Some
            &&& message.text("content"@) is Some ==> result->0.items("content"@)->0[0].text(
                "text"@,
            ) == message.text("content"@)
        },
{
    reveal_strlit("user");
    reveal_strlit("assistant");
    reveal_strlit("tool");
    reveal_strlit("toolUse");
    reveal_strlit("toolUseId");
    reveal_strlit("name");
    reveal_strlit("input");
    reveal_strlit("toolResult");
    reveal_strlit("content");
    assert("user"@[0] == 'u' && "assistant"@[0] == 'a' && "tool"@[0] == 't');
    assert("toolUseId"@.len() == 9 && "name"@.len() == 4 && "input"@.len() == 5 && "content"@.len()
        == 7);
    let text = message.text_or("content"@, ""@);
    lemma_text_block(text);
    lemma_turn("user"@, seq![text_block(text)]);
    if message.text("role"@) == Some("assistant"@) {
        let content = crate::bedrock::answer_content(message);
        lemma_turn("assistant"@, content);
        let calls = if message.items("tool_calls"@) is Some {
            message.items("tool_calls"@)->0
        } else {
            Seq::empty()
        };
        if 0 <= i < calls.len() {
            let call = calls[i];
            let input = call_input(parsed_json(call_arguments(call)), call_arguments(call));
            let wrapped = tool_use(call, input);
            lemma_get_at(wrapped->Object_0, 0, "toolUse"@);
            let used = wrapped.get("toolUse"@)->0;
            lemma_get_at(used->Object_0, 0, "toolUseId"@);
            lemma_get_at(used->Object_0, 1, "name"@);
            lemma_get_at(used->Object_0, 2, "input"@);
        }
    }
    if message.text("role"@) == Some("tool"@) {
        let sent = result_turn(message);
        let blocks = sent->Object_0[1].1->Array_0;
        lemma_turn("user"@, blocks);
        lemma_get_at(blocks[0]->Object_0, 0, "toolResult"@);
        let result = blocks[0].get("toolResult"@)->0;
        lemma_get_at(result->Object_0, 0, "toolUseId"@);
        lemma_get_at(result->Object_0, 1, "content"@);
    }
}

/// Cache points are added to turns, and nothing of them is lost: a turn that gets one has its
/// content and the point behind it.
pub proof fn law_cache_points_come_on_top(turns: Seq<JsonModel>, start: int, i: int)
    requires
        0 <= i < turns.len(),
    ensures
        marked_turns(turns, start).len() == turns.len(),
        i < start ==> marked_turns(turns, start)[i] == turns[i],
        i >= start && turns[i].items("content"@) is Some ==> {
            let content = marked_turns(turns, start)[i].items("content"@);
            &&& content is Some
            &&& content->0.len() == turns[i].items("content"@)->0.len() + 1
            &&& content->0.drop_last() == turns[i].items("content"@)->0
            &&& marked_turns(turns, start)[i].text("role"@) == turns[i].text("role"@)
        },
{
    reveal_strlit("role");
    reveal_strlit("content");
    assert("role"@.len() == 4 && "content"@.len() == 7);
    if i >= start && turns[i].items("content"@) is Some {
        let items = turns[i].items("content"@)->0;
        let more = items.push(crate::bedrock::cache_point());
        crate::json_model::lemma_with_get(turns[i], "content"@, JsonModel::Array(more));
        crate::json_model::lemma_with_get_other(
            turns[i],
            "content"@,
            JsonModel::Array(more),
            "role"@,
        );
        assert(more.drop_last() =~= items);
    }
}

/// The parts of what the system says all stay, in order, when cache points are set between them.
pub proof fn law_the_system_stays_between_cache_points(system: Seq<JsonModel>, n: nat)
    requires
        forall|i: int|
            0 <= i < system.len() ==> #[trigger] system[i] != crate::bedrock::cache_point(),
    ensures
        marked_system(system, n).filter(|m: JsonModel| m != crate::bedrock::cache_point())
            == system,
    decreases system.len(),
{
    reveal(Seq::filter);
    let part = |m: JsonModel| m != crate::bedrock::cache_point();
    if system.len() > 0 {
        let head = system.drop_last();
        assert forall|i: int| 0 <= i < head.len() implies #[trigger] head[i]
            != crate::bedrock::cache_point() by {
            assert(head[i] == system[i]);
        }
        law_the_system_stays_between_cache_points(head, n);
        assert(system[system.len() - 1] != crate::bedrock::cache_point());
        let before = marked_system(head, n);
        let with_last = before.push(system.last());
        assert(with_last.drop_last() =~= before);
        assert(with_last.filter(part) =~= head.push(system.last()));
        assert(head.push(system.last()) =~= system);
        let marked = with_last.push(crate::bedrock::cache_point());
        assert(marked.drop_last() =~= with_last);
        assert(marked.filter(part) =~= with_last.filter(part));
    } else {
        assert(marked_system(system, n).filter(part) =~= system);
    }
}

/// Every tool that is a function is offered under its name, in order.
pub proof fn law_every_tool_is_offered(tools: Seq<JsonModel>)
    ensures
        bedrock_tools(tools) is Some <==> forall|i: int|
            0 <= i < tools.len() && (#[trigger] tools[i]).get("function"@) is Some
                ==> tools[i].get("function"@)->0.text("name"@) is Some,
        bedrock_tools(tools) matches Some(offered) ==> offered == tools.filter(
            |t: JsonModel| t.get("function"@) is Some,
        ).map_values(
            |t: JsonModel|
                tool_spec(t.get("function"@)->0, t.get("function"@)->0.text("name"@)->0),
        ),
    decreases tools.len(),
{
    reveal(Seq::filter);
    let callable = |t: JsonModel| t.get("function"@) is Some;
    let spec = |t: JsonModel|
        tool_spec(t.get("function"@)->0, t.get("function"@)->0.text("name"@)->0);
    if tools.len() > 0 {
        let head = tools.drop_last();
        law_every_tool_is_offered(head);
        assert(forall|i: int| 0 <= i < head.len() ==> head[i] == #[trigger] tools[i]);
        assert(tools[tools.len() - 1] == tools.last());
        if bedrock_tools(head) is None {
            let i = choose|i: int|
                0 <= i < head.len() && (#[trigger] head[i]).get("function"@) is Some
                    && head[i].get("function"@)->0.text("name"@) is None;
            assert(tools[i] == head[i]);
        }
    }
    if let Some(offered) = bedrock_tools(tools) {
        assert(offered =~= tools.filter(callable).map_values(spec));
    }
}

/// A reply is read whole: all its texts one after the other, and all its calls in order, each with
/// its identifier, its name and its arguments.
pub proof fn law_replies_are_read_whole(
    a: Seq<JsonModel>,
    item: JsonModel,
    b: Seq<JsonModel>,
)
    ensures
        reply_text(a + b) == reply_text(a) + reply_text(b),
        reply_calls(a + b) == reply_calls(a) + reply_calls(b),
        item.text("text"@) matches Some(text) ==> reply_text(seq![item]) == text,
        item.text("text"@) is None ==> reply_text(seq![item]).len() == 0,
        item.get("toolUse"@) is None ==> reply_calls(seq![item]).len() == 0,
        item.get("toolUse"@) matches Some(used) ==> {
            let calls = reply_calls(seq![item]);
            let function = calls[0].get("function"@);
            &&& calls.len() == 1
            &&& used.text("toolUseId"@) is Some ==> calls[0].text("id"@) == used.text(
                "toolUseId"@,
            )
            &&& function is Some
            &&& used.text("name"@) is Some ==> function->0.text("name"@) == used.text("name"@)
            &&& (used.get("input"@) matches Some(input) ==> function->0.text("arguments"@) == Some(
                compact_json(input),
            ))
        },
    decreases b.len(),
{
    reveal_strlit("id");
    reveal_strlit("type");
    reveal_strlit("function");
    reveal_strlit("name");
    reveal_strlit("arguments");
    assert("id"@.len() == 2 && "type"@.len() == 4 && "function"@.len() == 8 && "name"@.len() == 4
        && "arguments"@.len() == 9);
    assert(seq![item].drop_last() =~= Seq::<JsonModel>::empty());
    assert(reply_text(seq![item].drop_last()) =~= Seq::<char>::empty());
    assert(reply_calls(seq![item].drop_last()) =~= Seq::<JsonModel>::empty());
    assert(reply_text(seq![item]) =~= item.text_or("text"@, Seq::empty()));
    if let Some(used) = item.get("toolUse"@) {
        let call = reply_call(used);
        assert(reply_calls(seq![item]) =~= seq![call]);
        lemma_get_at(call->Object_0, 0, "id"@);
        lemma_get_at(call->Object_0, 2, "function"@);
        let function = call.get("function"@)->0;
        lemma_get_at(function->Object_0, 0, "name"@);
        lemma_get_at(function->Object_0, 1, "arguments"@);
    }
    if b.len() == 0 {
        assert(a + b =~= a);
        assert(reply_text(a) + reply_text(b) =~= reply_text(a));
        assert(reply_calls(a) + reply_calls(b) =~= reply_calls(a));
    } else {
        assert((a + b).drop_last() =~= a + b.drop_last());
        assert((a + b).last() == b.last());
        law_replies_are_read_whole(a, item, b.drop_last());
        assert(reply_text(a + b) =~= reply_text(a) + reply_text(b));
        assert(reply_calls(a + b) =~= reply_calls(a) + reply_calls(b));
    }
}

/// The message of a reply holds its text and its calls, where there are any.
pub proof fn law_messages_hold_text_and_calls(response: JsonModel)
    ensures
        reply_text(reply_items(response)).len() > 0 ==> message_part(response).text("content"@)
            == Some(reply_text(reply_items(response))),
        reply_calls(reply_items(response)).len() > 0 ==> message_part(response).items(
            "tool_calls"@,
        ) == Some(reply_calls(reply_items(response))),
        reply_calls(reply_items(response)).len() == 0 ==> message_part(response).items(
            "tool_calls"@,
        ) is None,
{
    reveal_strlit("role");
    reveal_strlit("content");
    reveal_strlit("tool_calls");
    assert("role"@.len() == 4 && "content"@.len() == 7 && "tool_calls"@.len() == 10);
    let members = message_part(response)->Object_0;
    lemma_get_at(members, 1, "content"@);
    lemma_get_at(members, 2, "tool_calls"@);
}

/// What is sent holds the system, every turn and, where there are some, the tools; the model is
/// reached under its own name where nothing else is set.
pub proof fn law_requests_hold_the_conversation(
    settings: BedrockSettings,
    system: Seq<JsonModel>,
    turns: Seq<JsonModel>,
    max_tokens: u32,
    temperature: JsonModel,
    tools: Seq<JsonModel>,
)
    ensures
        ({
            let body = body_json(system, turns, max_tokens, temperature, tools);
            &&& body.items("system"@) == Some(system)
            &&& body.items("messages"@) == Some(turns)
            &&& tools.len() == 0 ==> body.get("toolConfig"@) == Some(JsonModel::Null)
            &&& tools.len() > 0 ==> body.get2("toolConfig"@, "tools"@) == Some(
                JsonModel::Array(bedrock_tools(tools)->0),
            )
        }),
        settings.endpoint is None ==> has_part(settings.address(), settings.model@) && has_part(
            settings.address(),
            settings.region@,
        ),
        (settings.endpoint matches Some(endpoint) ==> settings.address() == endpoint@),
{
    reveal_strlit("system");
    reveal_strlit("messages");
    reveal_strlit("inferenceConfig");
    reveal_strlit("toolConfig");
    assert("system"@.len() == 6 && "messages"@.len() == 8 && "inferenceConfig"@.len() == 15
        && "toolConfig"@.len() == 10);
    let body = body_json(system, turns, max_tokens, temperature, tools);
    lemma_get_at(body->Object_0, 0, "system"@);
    lemma_get_at(body->Object_0, 1, "messages"@);
    lemma_get_at(body->Object_0, 3, "toolConfig"@);
    if tools.len() > 0 {
        let config = body.get("toolConfig"@)->0;
        lemma_get_at(config->Object_0, 0, "tools"@);
    }
    if settings.endpoint is None {
        let lead = "https://bedrock-runtime."@;
        let head = lead + settings.region@ + ".amazonaws.com/model/"@;
        let address = settings.address();
        let region = settings.region@;
        let model = settings.model@;
        let at = lead.len() as int;
        assert(address.subrange(at, at + region.len()) =~= region);
        assert(occurs_at(address, region, at));
        let at = head.len() as int;
        assert(address.subrange(at, at + model.len()) =~= model);
        assert(occurs_at(address, model, at));
    }
}

/// A reply that is handed on holds one message, the one that came, with the reason why it ended and
/// the number of tokens that were counted.
pub proof fn law_replies_are_handed_on(response: JsonModel, id: Seq<char>, created: u64, n: u64)
    ensures
        ({
            let reply = openai_reply(response, id, created);
            let choices = reply.items("choices"@)->0;
            &&& reply.text("id"@) == Some(id)
            &&& reply.items("choices"@) is Some
            &&& choices.len() == 1
            &&& choices[0].get("message"@) == Some(message_part(response))
            &&& (response.text("stopReason"@) matches Some(reason) ==> choices[0].text(
                "finish_reason"@,
            ) == Some(reason))
            &&& response.get2("usage"@, "inputTokens"@) is Some && response.get2(
                "usage"@,
                "inputTokens"@,
            )->0.as_u64() == Some(n) ==> reply.get2("usage"@, "prompt_tokens"@) == Some(
                num(n as nat),
            )
            &&& response.get2("usage"@, "outputTokens"@) is Some && response.get2(
                "usage"@,
                "outputTokens"@,
            )->0.as_u64() == Some(n) ==> reply.get2("usage"@, "completion_tokens"@) == Some(
                num(n as nat),
            )
            &&& response.get2("usage"@, "totalTokens"@) is Some && response.get2(
                "usage"@,
                "totalTokens"@,
            )->0.as_u64() == Some(n) ==> reply.get2("usage"@, "total_tokens"@) == Some(
                num(n as nat),
            )
        }),
{
    reveal_strlit("id");
    reveal_strlit("object");
    reveal_strlit("created");
    reveal_strlit("choices");
    reveal_strlit("usage");
    reveal_strlit("index");
    reveal_strlit("finish_reason");
    reveal_strlit("message");
    reveal_strlit("prompt_tokens");
    reveal_strlit("completion_tokens");
    reveal_strlit("total_tokens");
    assert("id"@.len() == 2 && "object"@.len() == 6 && "created"@.len() == 7 && "choices"@.len()
        == 7 && "usage"@.len() == 5 && "index"@.len() == 5 && "finish_reason"@.len() == 13
        && "message"@.len() == 7 && "prompt_tokens"@.len() == 13 && "completion_tokens"@.len() == 17
        && "total_tokens"@.len() == 12);
    assert("created"@[1] == 'r' && "choices"@[1] == 'h');
    let reply = openai_reply(response, id, created);
    lemma_get_at(reply->Object_0, 0, "id"@);
    lemma_get_at(reply->Object_0, 3, "choices"@);
    lemma_get_at(reply->Object_0, 4, "usage"@);
    let choice = reply.items("choices"@)->0[0];
    lemma_get_at(choice->Object_0, 1, "finish_reason"@);
    lemma_get_at(choice->Object_0, 2, "message"@);
    let usage = reply.get("usage"@)->0;
    lemma_get_at(usage->Object_0, 0, "prompt_tokens"@);
    lemma_get_at(usage->Object_0, 1, "completion_tokens"@);
    lemma_get_at(usage->Object_0, 2, "total_tokens"@);
}

} // verus!
