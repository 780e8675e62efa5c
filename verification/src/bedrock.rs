//! Requests to models of Amazon Bedrock, and their replies.
//!
//! The library speaks of messages in the form of chat completions. This module turns them into
//! the form of the Converse interface, and the replies back.

use vstd::prelude::*;

use crate::deep::{deep, group_deep, one};
use crate::ids::{is_uuid, new_uuid, now};
use crate::json::{group_json, num, Json, JsonModel, Members, NumberModel};
use crate::json_text::{compact_json, parsed_json};
use crate::text::{begins_with, concat2, concat4, concat5, same};
use crate::tools::websearch::is_success;

verus! {

broadcast use {group_deep, group_json};

/// Which model is asked, and how. The temperature is kept as the number that is written in the
/// request.
#[derive(Debug, PartialEq, Eq)]
pub struct BedrockSettings {
    pub model: String,
    pub region: String,
    pub endpoint: Option<String>,
    pub bearer_token: Option<String>,
    pub max_tokens: u32,
    pub temperature: Json,
    pub prompt_cache: bool,
}

pub const DEFAULT_REGION: &'static str = "us-east-1";

pub const DEFAULT_MAX_TOKENS: u32 = 4096;

impl BedrockSettings {
    /// The settings for a model where nothing else is said.
    pub fn for_model(model: &str) -> (r: Self)
        ensures
            r.model@ == model@,
            r.region@ == DEFAULT_REGION@,
            r.endpoint is None,
            r.bearer_token is None,
            r.max_tokens == DEFAULT_MAX_TOKENS,
            r.temperature.deep_view() == JsonModel::Number(NumberModel::Decimal("1.0"@)),
            r.prompt_cache,
    {
        BedrockSettings {
            model: model.to_owned(),
            region: DEFAULT_REGION.to_owned(),
            endpoint: None,
            bearer_token: None,
            max_tokens: DEFAULT_MAX_TOKENS,
            temperature: Json::Number(crate::json::Number::Decimal("1.0".to_owned())),
            prompt_cache: true,
        }
    }
}

/// The status of a reply: its number, and how it is shown, which is the number with its reason.
#[derive(Debug, PartialEq, Eq)]
pub struct HttpStatus {
    pub code: u16,
    pub shown: String,
}

/// Why a request failed.
#[derive(Debug, PartialEq, Eq)]
pub enum BedrockError {
    Http(String),
    Status(HttpStatus, String),
    Decode(String),
    Cancelled,
    Timeout,
    InvalidInput(String),
}

impl BedrockError {
    /// The error as it is shown.
    pub fn message(&self) -> (r: String)
        ensures
            r@ == match self {
                BedrockError::Http(error) => "Bedrock request failed: "@ + error@,
                BedrockError::Status(status, body) => "Bedrock returned HTTP "@ + status.shown@
                    + ": "@ + body@,
                BedrockError::Decode(error) => "Invalid Bedrock response: "@ + error@,
                BedrockError::Cancelled => "Bedrock request cancelled."@,
                BedrockError::Timeout => "Bedrock request timed out."@,
                BedrockError::InvalidInput(error) => error@,
            },
    {
        match self {
            BedrockError::Http(error) => concat2("Bedrock request failed: ", error),
            BedrockError::Status(status, body) => concat4(
                "Bedrock returned HTTP ",
                &status.shown,
                ": ",
                body,
            ),
            BedrockError::Decode(error) => concat2("Invalid Bedrock response: ", error),
            BedrockError::Cancelled => "Bedrock request cancelled.".to_owned(),
            BedrockError::Timeout => "Bedrock request timed out.".to_owned(),
            BedrockError::InvalidInput(error) => error.clone(),
        }
    }
}

impl BedrockSettings {
    /// Where the model is reached.
    pub open spec fn address(&self) -> Seq<char> {
        match self.endpoint {
            Some(endpoint) => endpoint@,
            None => "https://bedrock-runtime."@ + self.region@ + ".amazonaws.com/model/"@
                + self.model@ + "/converse"@,
        }
    }

    /// Where the model is reached.
    pub fn endpoint(&self) -> (r: String)
        ensures
            r@ == self.address(),
    {
        match &self.endpoint {
            Some(endpoint) => endpoint.clone(),
            None => concat5(
                "https://bedrock-runtime.",
                &self.region,
                ".amazonaws.com/model/",
                &self.model,
                "/converse",
            ),
        }
    }

    /// The token that is sent with a request, where there is one.
    pub fn token(&self) -> (r: Option<String>)
        ensures
            r.deep_view() == match self.bearer_token.deep_view() {
                Some(token) if token.len() > 0 => Some(token),
                _ => None,
            },
    {
        match &self.bearer_token {
            Some(token) => if token.as_str().is_empty() {
                None
            } else {
                Some(token.clone())
            },
            None => None,
        }
    }
}

// ---- small objects ----

/// `{"text": ..}`
pub open spec fn text_block(text: Seq<char>) -> JsonModel {
    JsonModel::Object(seq![("text"@, JsonModel::Str(text))])
}

/// `{"role": .., "content": ..}`
pub open spec fn turn(role: Seq<char>, content: Seq<JsonModel>) -> JsonModel {
    JsonModel::Object(
        seq![("role"@, JsonModel::Str(role)), ("content"@, JsonModel::Array(content))],
    )
}

/// `{"cachePoint": {"type": "default"}}`
pub open spec fn cache_point() -> JsonModel {
    JsonModel::Object(
        seq![
            (
                "cachePoint"@,
                JsonModel::Object(seq![("type"@, JsonModel::Str("default"@))]),
            ),
        ],
    )
}

fn make_text_block(text: &str) -> (r: Json)
    ensures
        r.deep_view() == text_block(text@),
{
    Json::object1("text", Json::string(text))
}

fn make_turn(role: &str, content: Vec<Json>) -> (r: Json)
    ensures
        r.deep_view() == turn(role@, deep(content@)),
{
    let ghost wanted = turn(role@, deep(content@));
    let members = Members::new().with("role", Json::string(role)).with(
        "content",
        Json::Array(content),
    );
    proof {
        assert(members.model() =~= wanted->Object_0);
    }
    members.object()
}

fn make_cache_point() -> (r: Json)
    ensures
        r.deep_view() == cache_point(),
{
    Json::object1("cachePoint", Json::object1("type", Json::string("default")))
}

// ---- tools ----

/// The parameters of a function; any object where it does not say.
pub open spec fn parameters_of(function: JsonModel) -> JsonModel {
    match function.get("parameters"@) {
        Some(parameters) => parameters,
        None => JsonModel::Object(seq![("type"@, JsonModel::Str("object"@))]),
    }
}

/// A tool in the form of the interface.
pub open spec fn tool_spec(function: JsonModel, name: Seq<char>) -> JsonModel {
    JsonModel::Object(
        seq![
            (
                "toolSpec"@,
                JsonModel::Object(
                    seq![
                        ("name"@, JsonModel::Str(name)),
                        ("description"@, JsonModel::Str(function.text_or("description"@, ""@))),
                        (
                            "inputSchema"@,
                            JsonModel::Object(seq![("json"@, parameters_of(function))]),
                        ),
                    ],
                ),
            ),
        ],
    )
}

/// The tools in the form of the interface; nothing where one has no name. What is not a function
/// is left out.
pub open spec fn bedrock_tools(tools: Seq<JsonModel>) -> Option<Seq<JsonModel>>
    decreases tools.len(),
{
    if tools.len() == 0 {
        Some(Seq::empty())
    } else {
        match bedrock_tools(tools.drop_last()) {
            None => None,
            Some(head) => match tools.last().get("function"@) {
                None => Some(head),
                Some(function) => match function.text("name"@) {
                    None => None,
                    Some(name) => Some(head.push(tool_spec(function, name))),
                },
            },
        }
    }
}

proof fn lemma_tools_fault(tools: Seq<JsonModel>, n: int)
    requires
        0 <= n <= tools.len(),
        bedrock_tools(tools.take(n)) is None,
    ensures
        bedrock_tools(tools) is None,
    decreases tools.len(),
{
    if n < tools.len() {
        assert(tools.drop_last().take(n) =~= tools.take(n));
        lemma_tools_fault(tools.drop_last(), n);
    } else {
        assert(tools.take(n) =~= tools);
    }
}

fn make_tool_spec(function: &Json, name: &str) -> (r: Json)
    ensures
        r.deep_view() == tool_spec(function.deep_view(), name@),
{
    let parameters = match function.get("parameters") {
        Some(parameters) => parameters.clone(),
        None => Json::object1("type", Json::string("object")),
    };
    let members = Members::new().with("name", Json::string(name)).with(
        "description",
        Json::string(&function.text_or("description", "")),
    ).with("inputSchema", Json::object1("json", parameters));
    proof {
        assert(members.model()
            =~= tool_spec(function.deep_view(), name@)->Object_0[0].1->Object_0);
    }
    Json::object1("toolSpec", members.object())
}

/// The tools in the form of the interface.
pub fn openai_tools_to_bedrock(tools: &Vec<Json>) -> (r: Result<Vec<Json>, BedrockError>)
    ensures
        match bedrock_tools(deep(tools@)) {
            Some(specs) => r is Ok && deep(r->Ok_0@) == specs,
            None => r is Err && r->Err_0 is InvalidInput && r->Err_0->InvalidInput_0@
                == "Tool name is required."@,
        },
{
    let ghost models = deep(tools@);
    let mut r: Vec<Json> = Vec::new();
    let mut i: usize = 0;
    proof {
        assert(models.take(0) =~= Seq::<JsonModel>::empty());
        assert(deep(r@) =~= Seq::<JsonModel>::empty());
    }
    while i < tools.len()
        invariant
            models == deep(tools@),
            i <= tools@.len(),
            bedrock_tools(models.take(i as int)) == Some(deep(r@)),
        decreases tools@.len() - i,
    {
        proof {
            assert(models.take(i + 1).drop_last() =~= models.take(i as int));
            assert(models.take(i + 1).last() == tools@[i as int].deep_view());
        }
        if let Some(function) = tools[i].get("function") {
            match function.text("name") {
                Some(name) => {
                    r.push(make_tool_spec(function, name));
                },
                None => {
                    proof {
                        lemma_tools_fault(models, i + 1);
                    }
                    return Err(BedrockError::InvalidInput("Tool name is required.".to_owned()));
                },
            }
        }
        i += 1;
    }
    proof {
        assert(models.take(models.len() as int) =~= models);
    }
    Ok(r)
}

// ---- messages ----

/// The text of the member of a member, or `default`.
pub open spec fn text2_or(
    json: JsonModel,
    key1: Seq<char>,
    key2: Seq<char>,
    default: Seq<char>,
) -> Seq<char> {
    match json.get(key1) {
        Some(inner) => inner.text_or(key2, default),
        None => default,
    }
}

fn text2(json: &Json, key1: &str, key2: &str, default: &str) -> (r: String)
    ensures
        r@ == text2_or(json.deep_view(), key1@, key2@, default@),
{
    match json.get(key1) {
        Some(inner) => inner.text_or(key2, default),
        None => default.to_owned(),
    }
}

/// What a tool is called with: the value that its arguments are, or the text where it is none.
pub open spec fn call_input(
    parsed: Result<JsonModel, Seq<char>>,
    arguments: Seq<char>,
) -> JsonModel {
    match parsed {
        Ok(value) => value,
        Err(_) => JsonModel::Object(seq![("raw"@, JsonModel::Str(arguments))]),
    }
}

/// What a tool is called with. `parsed` is what was read from its arguments.
pub fn input_of(parsed: Result<Json, String>, arguments: &str) -> (r: Json)
    ensures
        r.deep_view() == call_input(
            match parsed {
                Ok(value) => Ok(value.deep_view()),
                Err(error) => Err(error@),
            },
            arguments@,
        ),
{
    match parsed {
        Ok(value) => value,
        Err(_) => Json::object1("raw", Json::string(arguments)),
    }
}

/// A call of a tool in the form of the interface.
pub open spec fn tool_use(call: JsonModel, input: JsonModel) -> JsonModel {
    JsonModel::Object(
        seq![
            (
                "toolUse"@,
                JsonModel::Object(
                    seq![
                        ("toolUseId"@, JsonModel::Str(call.text_or("id"@, "tool-call"@))),
                        (
                            "name"@,
                            JsonModel::Str(text2_or(call, "function"@, "name"@, ""@)),
                        ),
                        ("input"@, input),
                    ],
                ),
            ),
        ],
    )
}

/// The arguments of a call.
pub open spec fn call_arguments(call: JsonModel) -> Seq<char> {
    text2_or(call, "function"@, "arguments"@, "{}"@)
}

/// The calls of a message in the form of the interface.
pub open spec fn tool_uses(calls: Seq<JsonModel>) -> Seq<JsonModel> {
    calls.map_values(
        |call: JsonModel|
            tool_use(
                call,
                call_input(parsed_json(call_arguments(call)), call_arguments(call)),
            ),
    )
}

/// A call of a tool in the form of the interface.
pub fn make_tool_use(call: &Json, input: Json) -> (r: Json)
    ensures
        r.deep_view() == tool_use(call.deep_view(), input.deep_view()),
{
    let ghost wanted = tool_use(call.deep_view(), input.deep_view());
    let members = Members::new().with(
        "toolUseId",
        Json::string(&call.text_or("id", "tool-call")),
    ).with("name", Json::string(&text2(call, "function", "name", ""))).with("input", input);
    proof {
        assert(members.model() =~= wanted->Object_0[0].1->Object_0);
    }
    Json::object1("toolUse", members.object())
}

/// The content of an answer: its text, where there is any, and its calls.
pub open spec fn answer_content(message: JsonModel) -> Seq<JsonModel> {
    let text = match message.text("content"@) {
        Some(text) if text.len() > 0 => seq![text_block(text)],
        _ => Seq::empty(),
    };
    match message.items("tool_calls"@) {
        Some(calls) => text + tool_uses(calls),
        None => text,
    }
}

/// The result of a tool in the form of the interface.
pub open spec fn result_turn(message: JsonModel) -> JsonModel {
    turn(
        "user"@,
        seq![
            JsonModel::Object(
                seq![
                    (
                        "toolResult"@,
                        JsonModel::Object(
                            seq![
                                (
                                    "toolUseId"@,
                                    JsonModel::Str(
                                        message.text_or("tool_call_id"@, "tool-call"@),
                                    ),
                                ),
                                (
                                    "content"@,
                                    JsonModel::Array(
                                        seq![text_block(message.text_or("content"@, ""@))],
                                    ),
                                ),
                            ],
                        ),
                    ),
                ],
            ),
        ],
    )
}

/// The role of a message.
pub open spec fn role_of(message: JsonModel) -> Seq<char> {
    message.text_or("role"@, ""@)
}

/// The message as a turn of the conversation, unless it is one of the system.
pub open spec fn turn_of(message: JsonModel) -> JsonModel {
    if role_of(message) == "user"@ {
        turn("user"@, seq![text_block(message.text_or("content"@, ""@))])
    } else if role_of(message) == "assistant"@ {
        turn("assistant"@, answer_content(message))
    } else {
        result_turn(message)
    }
}

pub open spec fn is_known_role(role: Seq<char>) -> bool {
    role == "system"@ || role == "user"@ || role == "assistant"@ || role == "tool"@
}

/// What the system says, and the turns of the conversation; or the first role that is none.
pub open spec fn bedrock_messages(messages: Seq<JsonModel>) -> Result<
    (Seq<JsonModel>, Seq<JsonModel>),
    Seq<char>,
>
    decreases messages.len(),
{
    if messages.len() == 0 {
        Ok((Seq::empty(), Seq::empty()))
    } else {
        match bedrock_messages(messages.drop_last()) {
            Err(role) => Err(role),
            Ok((system, turns)) => {
                let message = messages.last();
                if !is_known_role(role_of(message)) {
                    Err(role_of(message))
                } else if role_of(message) == "system"@ {
                    Ok((system.push(text_block(message.text_or("content"@, ""@))), turns))
                } else {
                    Ok((system, turns.push(turn_of(message))))
                }
            },
        }
    }
}

proof fn lemma_messages_fault(messages: Seq<JsonModel>, n: int)
    requires
        0 <= n <= messages.len(),
        bedrock_messages(messages.take(n)) is Err,
    ensures
        bedrock_messages(messages) == bedrock_messages(messages.take(n)),
    decreases messages.len(),
{
    if n < messages.len() {
        assert(messages.drop_last().take(n) =~= messages.take(n));
        lemma_messages_fault(messages.drop_last(), n);
    } else {
        assert(messages.take(n) =~= messages);
    }
}

fn make_answer(message: &Json) -> (r: Vec<Json>)
    ensures
        deep(r@) == answer_content(message.deep_view()),
{
    let mut content: Vec<Json> = Vec::new();
    proof {
        assert(deep(content@) =~= Seq::<JsonModel>::empty());
    }
    if let Some(text) = message.text("content") {
        if !text.as_str().is_empty() {
            let block = make_text_block(text);
            content.push(block);
            proof {
                assert(deep(content@) =~= seq![block.deep_view()]);
            }
        }
    }
    let ghost head = deep(content@);
    if let Some(calls) = message.items("tool_calls") {
        let ghost wanted = tool_uses(deep(calls@));
        let mut i: usize = 0;
        proof {
            assert(head + wanted.take(0) =~= head);
        }
        while i < calls.len()
            invariant
                wanted == tool_uses(deep(calls@)),
                i <= calls@.len(),
                deep(content@) == head + wanted.take(i as int),
            decreases calls@.len() - i,
        {
            let arguments = text2(&calls[i], "function", "arguments", "{}");
            let input = input_of(Json::parse(&arguments), &arguments);
            let used = make_tool_use(&calls[i], input);
            content.push(used);
            proof {
                assert(deep(calls@)[i as int] == calls@[i as int].deep_view());
                assert(wanted[i as int] == used.deep_view());
                assert(wanted.take(i + 1) =~= wanted.take(i as int).push(used.deep_view()));
                assert(head + wanted.take(i + 1) =~= (head + wanted.take(i as int)).push(
                    used.deep_view(),
                ));
            }
            i += 1;
        }
        proof {
            assert(wanted.take(wanted.len() as int) =~= wanted);
        }
    }
    content
}

fn make_result_turn(message: &Json) -> (r: Json)
    ensures
        r.deep_view() == result_turn(message.deep_view()),
{
    let members = Members::new().with(
        "toolUseId",
        Json::string(&message.text_or("tool_call_id", "tool-call")),
    ).with(
        "content",
        Json::Array(one(make_text_block(&message.text_or("content", "")))),
    );
    let ghost inner = result_turn(
        message.deep_view(),
    )->Object_0[1].1->Array_0[0]->Object_0[0].1->Object_0;
    proof {
        assert(members.model() =~= inner);
    }
    make_turn("user", one(Json::object1("toolResult", members.object())))
}

/// What the system says, and the turns of the conversation, in the form of the interface.
pub fn openai_messages_to_bedrock(messages: &Vec<Json>) -> (r: Result<
    (Vec<Json>, Vec<Json>),
    BedrockError,
>)
    ensures
        match bedrock_messages(deep(messages@)) {
            Ok((system, turns)) => r is Ok && deep(r->Ok_0.0@) == system && deep(r->Ok_0.1@)
                == turns,
            Err(role) => r is Err && r->Err_0 is InvalidInput && r->Err_0->InvalidInput_0@
                == "Invalid message role: "@ + role,
        },
{
    let ghost models = deep(messages@);
    let mut system: Vec<Json> = Vec::new();
    let mut turns: Vec<Json> = Vec::new();
    let mut i: usize = 0;
    proof {
        assert(models.take(0) =~= Seq::<JsonModel>::empty());
        assert(deep(system@) =~= Seq::<JsonModel>::empty());
        assert(deep(turns@) =~= Seq::<JsonModel>::empty());
    }
    while i < messages.len()
        invariant
            models == deep(messages@),
            i <= messages@.len(),
            bedrock_messages(models.take(i as int)) == Ok::<
                (Seq<JsonModel>, Seq<JsonModel>),
                Seq<char>,
            >((deep(system@), deep(turns@))),
        decreases messages@.len() - i,
    {
        let message = &messages[i];
        proof {
            assert(models.take(i + 1).drop_last() =~= models.take(i as int));
            assert(models.take(i + 1).last() == message.deep_view());
            reveal_strlit("system");
            reveal_strlit("user");
            reveal_strlit("assistant");
            reveal_strlit("tool");
            assert("system"@.len() == 6 && "user"@.len() == 4 && "assistant"@.len() == 9
                && "tool"@.len() == 4);
            assert("user"@[0] == 'u' && "tool"@[0] == 't');
        }
        let role = message.text_or("role", "");
        if same(&role, "system") {
            system.push(make_text_block(&message.text_or("content", "")));
        } else if same(&role, "user") {
            turns.push(
                make_turn("user", one(make_text_block(&message.text_or("content", "")))),
            );
        } else if same(&role, "assistant") {
            turns.push(make_turn("assistant", make_answer(message)));
        } else if same(&role, "tool") {
            turns.push(make_result_turn(message));
        } else {
            proof {
                lemma_messages_fault(models, i + 1);
            }
            return Err(BedrockError::InvalidInput(concat2("Invalid message role: ", &role)));
        }
        i += 1;
    }
    proof {
        assert(models.take(models.len() as int) =~= models);
    }
    Ok((system, turns))
}

// ---- cache points ----

/// How many of the messages are of the system.
pub open spec fn system_count(messages: Seq<JsonModel>) -> nat
    decreases messages.len(),
{
    if messages.len() == 0 {
        0
    } else {
        system_count(messages.drop_last()) + (if messages.last().text("role"@) == Some(
            "system"@,
        ) {
            1nat
        } else {
            0nat
        })
    }
}

/// What the system says, with a cache point behind each of the first `n` parts.
pub open spec fn marked_system(system: Seq<JsonModel>, n: nat) -> Seq<JsonModel>
    decreases system.len(),
{
    if system.len() == 0 {
        Seq::empty()
    } else {
        let head = marked_system(system.drop_last(), n).push(system.last());
        if system.len() - 1 < n {
            head.push(cache_point())
        } else {
            head
        }
    }
}

/// A turn with a cache point at the end of its content.
pub open spec fn marked_turn(message: JsonModel) -> JsonModel {
    match message.items("content"@) {
        Some(items) => message.with("content"@, JsonModel::Array(items.push(cache_point()))),
        None => message,
    }
}

/// The turns with a cache point in each from the place `start` on.
pub open spec fn marked_turns(turns: Seq<JsonModel>, start: int) -> Seq<JsonModel> {
    Seq::new(
        turns.len(),
        |i: int|
            if i >= start {
                marked_turn(turns[i])
            } else {
                turns[i]
            },
    )
}

/// At most two.
pub open spec fn up_to_two(n: nat) -> nat {
    if n < 2 {
        n
    } else {
        2
    }
}

fn count_system(messages: &Vec<Json>) -> (r: usize)
    ensures
        r == system_count(deep(messages@)),
        r <= messages@.len(),
{
    let ghost models = deep(messages@);
    let n = messages.len();
    let mut count: usize = 0;
    let mut i: usize = 0;
    proof {
        assert(models.take(0) =~= Seq::<JsonModel>::empty());
    }
    while i < n
        invariant
            models == deep(messages@),
            n == messages@.len(),
            i <= n,
            count <= i,
            count == system_count(models.take(i as int)),
        decreases n - i,
    {
        proof {
            assert(models.take(i + 1).drop_last() =~= models.take(i as int));
            assert(models.take(i + 1).last() == messages@[i as int].deep_view());
        }
        if let Some(role) = messages[i].text("role") {
            if same(role, "system") {
                count += 1;
            }
        }
        i += 1;
    }
    proof {
        assert(models.take(models.len() as int) =~= models);
    }
    count
}

fn mark_turn(message: &Json) -> (r: Json)
    ensures
        r.deep_view() == marked_turn(message.deep_view()),
{
    let mut r = message.clone();
    if let Some(items) = message.items("content") {
        let mut content: Vec<Json> = crate::deep::copy_all(items);
        content.push(make_cache_point());
        r.set("content", Json::Array(content));
    }
    r
}

/// Sets the points up to which the model may keep what it has read: behind the first two parts of
/// what the system says, and at the end of the last two turns.
pub fn append_bedrock_cache_points(
    original: &Vec<Json>,
    system: &mut Vec<Json>,
    converted: &mut Vec<Json>,
)
    ensures
        deep(final(system)@) == marked_system(
            deep(old(system)@),
            up_to_two(system_count(deep(original@))),
        ),
        deep(final(converted)@) == marked_turns(
            deep(old(converted)@),
            original@.len() - system_count(deep(original@)) - 2,
        ),
{
    let total = original.len();
    let of_system = count_system(original);
    let points: usize = if of_system < 2 {
        of_system
    } else {
        2
    };
    let ghost first = deep(system@);
    let mut marked: Vec<Json> = Vec::new();
    let mut i: usize = 0;
    proof {
        assert(first.take(0) =~= Seq::<JsonModel>::empty());
        assert(deep(marked@) =~= Seq::<JsonModel>::empty());
    }
    while i < system.len()
        invariant
            first == deep(system@),
            i <= system@.len(),
            deep(marked@) == marked_system(first.take(i as int), points as nat),
        decreases system@.len() - i,
    {
        proof {
            assert(first.take(i + 1).drop_last() =~= first.take(i as int));
            assert(first.take(i + 1).last() == system@[i as int].deep_view());
        }
        marked.push(system[i].clone());
        if i < points {
            marked.push(make_cache_point());
        }
        i += 1;
    }
    proof {
        assert(first.take(first.len() as int) =~= first);
    }
    *system = marked;
    let others = total - of_system;
    let start: usize = if others < 2 {
        0
    } else {
        others - 2
    };
    let ghost second = deep(converted@);
    let mut turns: Vec<Json> = Vec::new();
    let mut k: usize = 0;
    while k < converted.len()
        invariant
            second == deep(converted@),
            k <= converted@.len(),
            turns@.len() == k,
            start == (if others < 2 {
                0
            } else {
                others - 2
            }),
            forall|j: int|
                0 <= j < k ==> #[trigger] deep(turns@)[j] == marked_turns(second, others - 2)[j],
        decreases converted@.len() - k,
    {
        let turn = if k >= start {
            mark_turn(&converted[k])
        } else {
            converted[k].clone()
        };
        let ghost before = deep(turns@);
        turns.push(turn);
        proof {
            assert(deep(turns@) == before.push(turn.deep_view()));
            assert(second[k as int] == converted@[k as int].deep_view());
        }
        k += 1;
    }
    proof {
        assert(deep(turns@) =~= marked_turns(second, others - 2));
    }
    *converted = turns;
}

// ---- requests ----

pub open spec fn config_json(max_tokens: u32, temperature: JsonModel) -> JsonModel {
    JsonModel::Object(
        seq![("temperature"@, temperature), ("maxTokens"@, num(max_tokens as nat))],
    )
}

/// The body of a request.
pub open spec fn body_json(
    system: Seq<JsonModel>,
    turns: Seq<JsonModel>,
    max_tokens: u32,
    temperature: JsonModel,
    tools: Seq<JsonModel>,
) -> JsonModel {
    JsonModel::Object(
        seq![
            ("system"@, JsonModel::Array(system)),
            ("messages"@, JsonModel::Array(turns)),
            ("inferenceConfig"@, config_json(max_tokens, temperature)),
            (
                "toolConfig"@,
                if tools.len() == 0 {
                    JsonModel::Null
                } else {
                    JsonModel::Object(
                        seq![("tools"@, JsonModel::Array(bedrock_tools(tools)->0))],
                    )
                },
            ),
        ],
    )
}

/// What the system says and the turns of a request, with their cache points.
pub open spec fn prepared(
    messages: Seq<JsonModel>,
    cache: bool,
) -> (Seq<JsonModel>, Seq<JsonModel>) {
    let (system, turns) = bedrock_messages(messages)->Ok_0;
    if cache {
        (
            marked_system(system, up_to_two(system_count(messages))),
            marked_turns(turns, messages.len() - system_count(messages) - 2),
        )
    } else {
        (system, turns)
    }
}

/// The body of a request, or why there is none.
pub fn request_body(settings: &BedrockSettings, messages: &Vec<Json>, tools: &Vec<Json>) -> (r:
    Result<Json, BedrockError>)
    ensures
        match bedrock_messages(deep(messages@)) {
            Err(role) => r is Err && r->Err_0 is InvalidInput && r->Err_0->InvalidInput_0@
                == "Invalid message role: "@ + role,
            Ok(_) => if tools@.len() > 0 && bedrock_tools(deep(tools@)) is None {
                r is Err && r->Err_0 is InvalidInput && r->Err_0->InvalidInput_0@
                    == "Tool name is required."@
            } else {
                let (system, turns) = prepared(deep(messages@), settings.prompt_cache);
                r is Ok && r->Ok_0.deep_view() == body_json(
                    system,
                    turns,
                    settings.max_tokens,
                    settings.temperature.deep_view(),
                    deep(tools@),
                )
            },
        },
{
    let (mut system, mut turns) = match openai_messages_to_bedrock(messages) {
        Ok(parts) => parts,
        Err(error) => {
            return Err(error);
        },
    };
    if settings.prompt_cache {
        append_bedrock_cache_points(messages, &mut system, &mut turns);
    }
    let ghost parts = (deep(system@), deep(turns@));
    proof {
        assert(deep(messages@).len() == messages@.len());
        assert(parts == prepared(deep(messages@), settings.prompt_cache));
        assert(deep(tools@).len() == tools@.len());
    }
    let tool_config = if tools.len() == 0 {
        Json::Null
    } else {
        match openai_tools_to_bedrock(tools) {
            Ok(specs) => Json::object1("tools", Json::Array(specs)),
            Err(error) => {
                return Err(error);
            },
        }
    };
    let config = Members::new().with("temperature", settings.temperature.clone()).with(
        "maxTokens",
        Json::number(settings.max_tokens as u64),
    );
    let ghost wanted = body_json(
        parts.0,
        parts.1,
        settings.max_tokens,
        settings.temperature.deep_view(),
        deep(tools@),
    );
    proof {
        assert(config.model() =~= config_json(
            settings.max_tokens,
            settings.temperature.deep_view(),
        )->Object_0);
    }
    let members = Members::new().with("system", Json::Array(system)).with(
        "messages",
        Json::Array(turns),
    ).with("inferenceConfig", config.object()).with("toolConfig", tool_config);
    proof {
        assert(members.model() =~= wanted->Object_0);
    }
    Ok(members.object())
}

// ---- replies ----

/// The text in the content of a reply.
pub open spec fn reply_text(items: Seq<JsonModel>) -> Seq<char>
    decreases items.len(),
{
    if items.len() == 0 {
        Seq::empty()
    } else {
        reply_text(items.drop_last()) + items.last().text_or("text"@, Seq::empty())
    }
}

/// A call of a tool in the form of chat completions.
pub open spec fn reply_call(used: JsonModel) -> JsonModel {
    JsonModel::Object(
        seq![
            ("id"@, JsonModel::Str(used.text_or("toolUseId"@, "tool-call"@))),
            ("type"@, JsonModel::Str("function"@)),
            (
                "function"@,
                JsonModel::Object(
                    seq![
                        ("name"@, JsonModel::Str(used.text_or("name"@, ""@))),
                        (
                            "arguments"@,
                            JsonModel::Str(
                                compact_json(
                                    match used.get("input"@) {
                                        Some(input) => input,
                                        None => JsonModel::Null,
                                    },
                                ),
                            ),
                        ),
                    ],
                ),
            ),
        ],
    )
}

/// The calls in the content of a reply.
pub open spec fn reply_calls(items: Seq<JsonModel>) -> Seq<JsonModel>
    decreases items.len(),
{
    if items.len() == 0 {
        Seq::empty()
    } else {
        match items.last().get("toolUse"@) {
            Some(used) => reply_calls(items.drop_last()).push(reply_call(used)),
            None => reply_calls(items.drop_last()),
        }
    }
}

/// The message of a reply.
pub open spec fn reply_message(response: JsonModel) -> JsonModel {
    match response.get2("output"@, "message"@) {
        Some(message) => message,
        None => JsonModel::Null,
    }
}

/// The content of a reply.
pub open spec fn reply_items(response: JsonModel) -> Seq<JsonModel> {
    match reply_message(response).items("content"@) {
        Some(items) => items,
        None => Seq::empty(),
    }
}

/// A number of the usage that a reply reports; 0 where it does not.
pub open spec fn usage_number(response: JsonModel, key: Seq<char>) -> u64 {
    match response.get2("usage"@, key) {
        Some(value) => match value.as_u64() {
            Some(n) => n,
            None => 0,
        },
        None => 0,
    }
}

/// A number of the usage that a reply reports; null where it does not.
pub open spec fn usage_or_null(response: JsonModel, key: Seq<char>) -> JsonModel {
    match response.get2("usage"@, key) {
        Some(value) => match value.as_u64() {
            Some(n) => num(n as nat),
            None => JsonModel::Null,
        },
        None => JsonModel::Null,
    }
}

pub open spec fn message_part(response: JsonModel) -> JsonModel {
    let items = reply_items(response);
    JsonModel::Object(
        seq![
            (
                "role"@,
                JsonModel::Str(reply_message(response).text_or("role"@, "assistant"@)),
            ),
            (
                "content"@,
                if reply_text(items).len() == 0 {
                    JsonModel::Null
                } else {
                    JsonModel::Str(reply_text(items))
                },
            ),
            (
                "tool_calls"@,
                if reply_calls(items).len() == 0 {
                    JsonModel::Null
                } else {
                    JsonModel::Array(reply_calls(items))
                },
            ),
        ],
    )
}

pub open spec fn usage_part(response: JsonModel) -> JsonModel {
    JsonModel::Object(
        seq![
            ("prompt_tokens"@, num(usage_number(response, "inputTokens"@) as nat)),
            ("completion_tokens"@, num(usage_number(response, "outputTokens"@) as nat)),
            ("total_tokens"@, num(usage_number(response, "totalTokens"@) as nat)),
            (
                "prompt_tokens_details"@,
                JsonModel::Object(
                    seq![
                        ("cached_tokens"@, usage_or_null(response, "cacheReadInputTokens"@)),
                        (
                            "cache_write_tokens"@,
                            usage_or_null(response, "cacheWriteInputTokens"@),
                        ),
                    ],
                ),
            ),
        ],
    )
}

/// A reply in the form of chat completions.
pub open spec fn openai_reply(response: JsonModel, id: Seq<char>, created: u64) -> JsonModel {
    JsonModel::Object(
        seq![
            ("id"@, JsonModel::Str(id)),
            ("object"@, JsonModel::Str("chat.completion"@)),
            ("created"@, num(created as nat)),
            (
                "choices"@,
                JsonModel::Array(
                    seq![
                        JsonModel::Object(
                            seq![
                                ("index"@, num(0)),
                                (
                                    "finish_reason"@,
                                    JsonModel::Str(response.text_or("stopReason"@, "end_turn"@)),
                                ),
                                ("message"@, message_part(response)),
                            ],
                        ),
                    ],
                ),
            ),
            ("usage"@, usage_part(response)),
        ],
    )
}

fn find_usage<'a>(response: &'a Json, key: &str) -> (r: Option<u64>)
    ensures
        r == (match response.deep_view().get2("usage"@, key@) {
            Some(value) => value.as_u64(),
            None => None,
        }),
{
    match response.get("usage") {
        Some(usage) => match usage.get(key) {
            Some(value) => value.as_u64(),
            None => None,
        },
        None => None,
    }
}

fn usage_count(response: &Json, key: &str) -> (r: Json)
    ensures
        r.deep_view() == num(usage_number(response.deep_view(), key@) as nat),
{
    match find_usage(response, key) {
        Some(n) => Json::number(n),
        None => Json::number(0),
    }
}

fn usage_value(response: &Json, key: &str) -> (r: Json)
    ensures
        r.deep_view() == usage_or_null(response.deep_view(), key@),
{
    match find_usage(response, key) {
        Some(n) => Json::number(n),
        None => Json::Null,
    }
}

fn make_usage(response: &Json) -> (r: Json)
    ensures
        r.deep_view() == usage_part(response.deep_view()),
{
    let details = Members::new().with(
        "cached_tokens",
        usage_value(response, "cacheReadInputTokens"),
    ).with("cache_write_tokens", usage_value(response, "cacheWriteInputTokens"));
    let ghost wanted = usage_part(response.deep_view());
    proof {
        assert(details.model() =~= wanted->Object_0[3].1->Object_0);
    }
    let members = Members::new().with("prompt_tokens", usage_count(response, "inputTokens")).with(
        "completion_tokens",
        usage_count(response, "outputTokens"),
    ).with("total_tokens", usage_count(response, "totalTokens")).with(
        "prompt_tokens_details",
        details.object(),
    );
    proof {
        assert(members.model() =~= wanted->Object_0);
    }
    members.object()
}

fn make_reply_call(used: &Json) -> (r: Json)
    ensures
        r.deep_view() == reply_call(used.deep_view()),
{
    let arguments = match used.get("input") {
        Some(input) => input.to_text(),
        None => {
            let none = Json::Null;
            none.to_text()
        },
    };
    let function = Members::new().with("name", Json::string(&used.text_or("name", ""))).with(
        "arguments",
        Json::string(&arguments),
    );
    let ghost wanted = reply_call(used.deep_view());
    proof {
        assert(function.model() =~= wanted->Object_0[2].1->Object_0);
    }
    let members = Members::new().with(
        "id",
        Json::string(&used.text_or("toolUseId", "tool-call")),
    ).with("type", Json::string("function")).with("function", function.object());
    proof {
        assert(members.model() =~= wanted->Object_0);
    }
    members.object()
}

fn make_message(response: &Json) -> (r: Json)
    ensures
        r.deep_view() == message_part(response.deep_view()),
{
    let null = Json::Null;
    let none: Vec<Json> = Vec::new();
    let message: &Json = match response.get("output") {
        Some(output) => match output.get("message") {
            Some(message) => message,
            None => &null,
        },
        None => &null,
    };
    let items: &Vec<Json> = match message.items("content") {
        Some(items) => items,
        None => &none,
    };
    let ghost models = reply_items(response.deep_view());
    proof {
        assert(deep(none@) =~= Seq::<JsonModel>::empty());
        assert(deep(items@) == models);
    }
    let mut text = String::new();
    let mut calls: Vec<Json> = Vec::new();
    let mut i: usize = 0;
    proof {
        assert(models.take(0) =~= Seq::<JsonModel>::empty());
        assert(deep(calls@) =~= Seq::<JsonModel>::empty());
        assert(text@ =~= Seq::<char>::empty());
    }
    while i < items.len()
        invariant
            models == deep(items@),
            i <= items@.len(),
            text@ == reply_text(models.take(i as int)),
            deep(calls@) == reply_calls(models.take(i as int)),
        decreases items@.len() - i,
    {
        proof {
            assert(models.take(i + 1).drop_last() =~= models.take(i as int));
            assert(models.take(i + 1).last() == items@[i as int].deep_view());
        }
        let ghost before = text@;
        match items[i].text("text") {
            Some(value) => {
                text.append(value);
            },
            None => {
                proof {
                    assert(before + Seq::<char>::empty() =~= before);
                }
            },
        }
        if let Some(used) = items[i].get("toolUse") {
            calls.push(make_reply_call(used));
        }
        i += 1;
    }
    proof {
        assert(models.take(models.len() as int) =~= models);
        assert(deep(calls@).len() == calls@.len());
    }
    let content = if text.as_str().is_empty() {
        Json::Null
    } else {
        Json::string(&text)
    };
    let tool_calls = if calls.len() == 0 {
        Json::Null
    } else {
        Json::Array(calls)
    };
    let members = Members::new().with(
        "role",
        Json::string(&message.text_or("role", "assistant")),
    ).with("content", content).with("tool_calls", tool_calls);
    proof {
        assert(members.model() =~= message_part(response.deep_view())->Object_0);
    }
    members.object()
}

/// A reply in the form of chat completions, under the identifier and the time that are given.
pub fn reply_to_openai(response: &Json, id: &str, created: u64) -> (r: Json)
    ensures
        r.deep_view() == openai_reply(response.deep_view(), id@, created),
{
    let choice = Members::new().with("index", Json::number(0)).with(
        "finish_reason",
        Json::string(&response.text_or("stopReason", "end_turn")),
    ).with("message", make_message(response));
    let ghost wanted = openai_reply(response.deep_view(), id@, created);
    proof {
        assert(choice.model() =~= wanted->Object_0[3].1->Array_0[0]->Object_0);
    }
    let members = Members::new().with("id", Json::string(id)).with(
        "object",
        Json::string("chat.completion"),
    ).with("created", Json::number(created)).with(
        "choices",
        Json::Array(one(choice.object())),
    ).with("usage", make_usage(response));
    proof {
        assert(members.model() =~= wanted->Object_0);
    }
    members.object()
}

/// Whether an identifier is one that was made for a reply.
pub open spec fn is_reply_id(id: Seq<char>) -> bool {
    begins_with(id, "bedrock-"@) && is_uuid(id.skip(8))
}

/// A reply in the form of chat completions, under a new identifier and the present time.
pub fn bedrock_response_to_openai(response: &Json) -> (r: Json)
    ensures
        exists|id: Seq<char>, created: u64|
            is_reply_id(id) && r.deep_view() == #[trigger] openai_reply(
                response.deep_view(),
                id,
                created,
            ),
{
    let uuid = new_uuid();
    let id = concat2("bedrock-", &uuid);
    proof {
        reveal_strlit("bedrock-");
        assert(id@.take(8) =~= "bedrock-"@);
        assert(id@.skip(8) =~= uuid@);
    }
    let millis = now();
    let created: u64 = if millis > 0 {
        millis as u64 / 1000
    } else {
        0
    };
    reply_to_openai(response, &id, created)
}

/// What a reply comes to: its value where the status says that the request succeeded, and the
/// error otherwise.
pub fn reply_of(status: HttpStatus, body: &str) -> (r: Result<Json, BedrockError>)
    ensures
        if !is_success(status.code) {
            r is Err && r->Err_0 is Status && r->Err_0->Status_0 == status && r->Err_0->Status_1@
                == body@
        } else {
            match parsed_json(body@) {
                Ok(response) => r is Ok && exists|id: Seq<char>, created: u64|
                    is_reply_id(id) && r->Ok_0.deep_view() == #[trigger] openai_reply(
                        response,
                        id,
                        created,
                    ),
                Err(_) => r is Err && r->Err_0 is Http && r->Err_0->Http_0@
                    == "error decoding response body"@,
            }
        },
{
    if status.code < 200 || status.code >= 300 {
        return Err(BedrockError::Status(status, body.to_owned()));
    }
    match Json::parse(body) {
        Ok(response) => Ok(bedrock_response_to_openai(&response)),
        Err(_) => Err(BedrockError::Http("error decoding response body".to_owned())),
    }
}

// ---- laws ----

/// The identifier of a call survives the way to the interface and back.
pub proof fn law_identifiers_of_calls_survive(call: JsonModel, input: JsonModel, id: Seq<char>)
    requires
        call.text("id"@) == Some(id),
    ensures
        tool_use(call, input).get("toolUse"@) is Some,
        reply_call(tool_use(call, input).get("toolUse"@)->0).text("id"@) == Some(id),
{
    reveal_strlit("toolUse");
    let wrapped = tool_use(call, input);
    assert(wrapped.get("toolUse"@) == Some(wrapped->Object_0[0].1));
    let used = wrapped.get("toolUse"@)->0;
    assert(used.get("toolUseId"@) == Some(used->Object_0[0].1));
    let back = reply_call(used);
    assert(back.get("id"@) == Some(back->Object_0[0].1));
}

/// Every message of a request becomes either a part of what the system says or a turn, in order,
/// and none is lost.
pub proof fn law_no_message_is_lost(messages: Seq<JsonModel>)
    requires
        bedrock_messages(messages) is Ok,
    ensures
        bedrock_messages(messages)->Ok_0.0.len() == system_count(messages),
        bedrock_messages(messages)->Ok_0.0.len() + bedrock_messages(messages)->Ok_0.1.len()
            == messages.len(),
    decreases messages.len(),
{
    if messages.len() > 0 {
        law_no_message_is_lost(messages.drop_last());
        reveal_strlit("");
        reveal_strlit("system");
        let message = messages.last();
        if message.text("role"@) is None {
            assert("system"@.len() != ""@.len());
        }
    }
}

/// What the system says grows by one cache point for each of its first `n` parts.
pub proof fn law_system_grows_by_its_cache_points(system: Seq<JsonModel>, n: nat)
    ensures
        marked_system(system, n).len() == system.len() + (if system.len() < n {
            system.len()
        } else {
            n
        }),
    decreases system.len(),
{
    if system.len() > 0 {
        law_system_grows_by_its_cache_points(system.drop_last(), n);
    }
}

} // verus!
