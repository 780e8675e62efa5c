//! Attachments, settings, other providers, and the texts and numbers that they are made of.

use rustpilot::attachments::{
    attachment_ref, check_absolute, check_stored, detect_mime, display_path_name, extension,
    mime_from_extension, sanitize_name, sniff_mime, storage_path, store_inputs, store_paths,
    validate_count, AttachmentInput, AttachmentPathInput, FileBatch, FileBytes,
};
use rustpilot::base64::{base64_encode, decode_base64, decode_base64_byte};
use rustpilot::bedrock::{
    append_bedrock_cache_points, bedrock_response_to_openai, openai_messages_to_bedrock,
    openai_tools_to_bedrock, reply_of, request_body, BedrockError, BedrockSettings, HttpStatus,
};
use rustpilot::config::{
    env_value, parse_toml_config, AppConfig, BrowserSettings, Config, DaytonaSettings, Environment,
    LlmSettings, McpSettings, PromptCacheMode, SandboxSettings, Sections,
};
use rustpilot::hash::stable_hash;
use rustpilot::ids::{new_id, new_simple_id, new_uuid, now};
use rustpilot::json::{Json, Number};
use rustpilot::name_map::NameMap;
use rustpilot::number::{number_text, parse_digits, signed_text};
use rustpilot::order::sort;
use rustpilot::table::{find_name, set_value};
use rustpilot::text::{lines, squeeze, trim};

fn text(value: &str) -> String {
    value.to_string()
}

fn json(value: &str) -> Json {
    Json::parse(value).expect("the text should be JSON")
}

fn upload(name: &str, mime: &str, data: &str) -> AttachmentInput {
    AttachmentInput { name: text(name), mime: text(mime), data: text(data) }
}

fn llm() -> LlmSettings {
    LlmSettings {
        model: text("m"),
        base_url: text("https://m.test/v1"),
        api_key: String::new(),
        max_tokens: 4096,
        max_input_tokens: None,
        temperature: json("0.5"),
        api_type: text("openai"),
        api_version: String::new(),
        prompt_cache: PromptCacheMode::Auto,
    }
}

fn at<'a>(value: &'a Json, path: &[&str]) -> Option<&'a Json> {
    let mut found = value;
    for key in path {
        found = match found {
            Json::Array(items) => items.get(key.parse::<usize>().ok()?)?,
            _ => found.get(key)?,
        };
    }
    Some(found)
}

#[test]
fn stores_only_metadata_in_the_reference() {
    let (references, batch) = store_inputs(
        "task-1",
        &vec![upload("../hello.txt", "text/plain", "aGVsbG8=")],
    )
    .expect("attachment should store");
    assert_eq!(references[0].name, "hello.txt");
    assert_eq!(batch.files[0].bytes, b"hello");
    assert!(references[0].storage_key.starts_with("attachments/task-1/"));
    assert!(check_stored(&references[0], 5).is_ok());
}

#[test]
fn rejects_mismatched_image_bytes() {
    let result = store_inputs("task-1", &vec![upload("image.png", "image/png", "aGVsbG8=")]);
    assert!(result.is_err());
}

#[test]
fn stores_native_path_inputs_without_persisting_the_source_path() {
    let input = AttachmentPathInput {
        path: text("/tmp/somewhere/source.txt"),
        name: String::new(),
        mime: text("text/plain"),
    };
    assert!(check_absolute(&input, true).is_ok());
    assert!(check_absolute(&input, false).is_err());
    let name = display_path_name(&input, &Some(text("source.txt")));
    let file = FileBytes { name, mime: input.mime, bytes: b"native file".to_vec() };
    let (references, batch) = store_paths("task-1", vec![file]).expect("native path should store");
    assert_eq!(references[0].name, "source.txt");
    assert_eq!(batch.files[0].bytes, b"native file");
    assert!(!references[0].storage_key.contains("/tmp/somewhere/source.txt"));
}

#[test]
fn paths_are_looked_at_before_they_are_read() {
    let input = AttachmentPathInput { path: text("/a"), name: text("a"), mime: String::new() };
    let batch = FileBatch::new();
    assert!(batch.check_path(&input, &None, true, 5).is_ok());
    assert!(batch.check_path(&input, &None, false, 5).is_err());
    assert!(batch.check_path(&input, &None, true, 26_214_401).is_err());
}

#[test]
fn attachments_have_safe_names_and_known_types() {
    assert_eq!(sanitize_name("a/b\\c:d?.txt"), "c_d_.txt");
    assert_eq!(sanitize_name(" .. "), "attachment");
    assert_eq!(extension("a.TXT"), "txt");
    assert_eq!(mime_from_extension("md"), Some(text("text/markdown")));
    assert_eq!(sniff_mime(b"\x89PNG\r\n\x1a\n"), Some(text("image/png")));
    assert_eq!(sniff_mime(b"hello"), None);
    assert!(detect_mime("image/svg+xml", "x.svg", b"<svg>").is_err());
    assert_eq!(detect_mime("", "x.pdf", b"%PDF-1.7"), Ok(text("application/pdf")));
    assert_eq!(
        detect_mime("application/pdf", "x.pdf", b"PK\x03\x04"),
        Err(text("x.pdf does not match its declared PDF type."))
    );
    assert_eq!(
        detect_mime("text/plain", "x.txt", b"%PDF-1.7"),
        Err(text("x.txt does not match its detected PDF type."))
    );
    assert_eq!(
        detect_mime("text/plain", "x.txt", b"GIF89a"),
        Err(text("x.txt does not match its detected image type."))
    );
}

#[test]
fn scopes_and_counts_are_checked() {
    assert_eq!(validate_count("a/b", 1), Err(text("Invalid task attachment scope.")));
    assert_eq!(
        validate_count("t", 9),
        Err(text("You can attach at most 8 files to one message."))
    );
    assert!(validate_count("t", 8).is_ok());
    assert_eq!(storage_path("attachments/t/id"), Ok(vec![text("attachments"), text("t"), text("id")]));
    assert!(storage_path("other/t/id").is_err());
    assert!(storage_path("attachments/../x").is_err());
    let file = FileBytes { name: text("a.txt"), mime: text("text/plain"), bytes: b"x".to_vec() };
    assert_eq!(
        attachment_ref("t", &file, "id").map(|r| (r.size, r.storage_key.starts_with("attachments/t/"))),
        Ok((1, true))
    );
}

#[test]
fn bytes_are_written_as_text() {
    assert_eq!(base64_encode(b"Man"), "TWFu");
    assert_eq!(base64_encode(b"M"), "TQ==");
    assert_eq!(base64_encode(b""), "");
    assert_eq!(decode_base64("TWFu"), Ok(b"Man".to_vec()));
    assert_eq!(decode_base64("data:text/plain;base64,TQ=="), Ok(b"M".to_vec()));
    assert_eq!(decode_base64_byte(b'/'), Ok(63));
    assert_eq!(decode_base64_byte(b'='), Err(text("invalid Base64 character")));
    assert!(decode_base64("TWF").is_err());
    assert!(decode_base64("T=Fu").is_err());
    let all: Vec<u8> = (0..=255).collect();
    for n in 1..all.len() {
        assert_eq!(decode_base64(&base64_encode(&all[..n])), Ok(all[..n].to_vec()));
    }
}

#[test]
fn bedrock_conversion_preserves_tool_use_ids() {
    let messages = vec![
        json("{\"role\":\"assistant\",\"content\":\"\",\"tool_calls\":[{\"id\":\"call-1\",\"function\":{\"name\":\"rust_clock\",\"arguments\":\"{}\"}}]}"),
        json("{\"role\":\"tool\",\"tool_call_id\":\"call-1\",\"content\":\"now\"}"),
    ];
    let (_, converted) = openai_messages_to_bedrock(&messages).unwrap();
    assert_eq!(
        at(&converted[1], &["content", "0", "toolResult", "toolUseId"]),
        Some(&Json::string("call-1"))
    );
    let response = bedrock_response_to_openai(&json(
        "{\"output\":{\"message\":{\"role\":\"assistant\",\"content\":[{\"toolUse\":{\"toolUseId\":\"call-1\",\"name\":\"rust_clock\",\"input\":{}}}]}}}",
    ));
    assert_eq!(
        at(&response, &["choices", "0", "message", "tool_calls", "0", "id"]),
        Some(&Json::string("call-1"))
    );
}

#[test]
fn bedrock_cache_points_match_message_selection() {
    let messages: Vec<Json> = [
        ("system", "one"),
        ("system", "two"),
        ("system", "three"),
        ("user", "first"),
        ("user", "second"),
        ("user", "third"),
    ]
    .iter()
    .map(|(role, content)| json(&format!("{{\"role\":\"{role}\",\"content\":\"{content}\"}}")))
    .collect();
    let (mut system, mut converted) = openai_messages_to_bedrock(&messages).unwrap();
    append_bedrock_cache_points(&messages, &mut system, &mut converted);

    assert_eq!(
        system
            .iter()
            .filter(|item| item.get("cachePoint").is_some())
            .count(),
        2
    );
    assert!(at(&converted[0], &["content", "0", "cachePoint"]).is_none());
    assert!(at(&converted[1], &["content", "1", "cachePoint"]).is_some());
    assert!(at(&converted[2], &["content", "1", "cachePoint"]).is_some());
}

#[test]
fn other_providers_answer_or_fail() {
    let settings = BedrockSettings::for_model("m");
    let body = request_body(&settings, &vec![json("{\"role\":\"user\",\"content\":\"hi\"}")], &Vec::new())
        .expect("the messages are known");
    assert!(body.get("messages").is_some());
    let status = |code: u16, shown: &str| HttpStatus { code, shown: text(shown) };
    assert!(reply_of(status(200, "200 OK"), "{\"output\":{}}").is_ok());
    let failed = reply_of(status(500, "500 Internal Server Error"), "down");
    assert_eq!(
        failed.map_err(|error| error.message()),
        Err(text("Bedrock returned HTTP 500 Internal Server Error: down"))
    );
    assert_eq!(
        reply_of(status(200, "200 OK"), "{"),
        Err(BedrockError::Http(text("error decoding response body")))
    );
    assert_eq!(openai_tools_to_bedrock(&vec![Json::Null]), Ok(Vec::new()));
    assert_eq!(
        openai_tools_to_bedrock(&vec![json("{\"function\":{}}")]),
        Err(BedrockError::InvalidInput(text("Tool name is required.")))
    );
    assert!(settings.endpoint().starts_with("https://"));
    assert_eq!(settings.token(), None);
    assert_eq!(BedrockError::Timeout.message(), "Bedrock request timed out.");
    assert_eq!(BedrockError::Cancelled.message(), "Bedrock request cancelled.");
    assert_eq!(BedrockError::Http(text("x")).message(), "Bedrock request failed: x");
    assert_eq!(BedrockError::Decode(text("x")).message(), "Invalid Bedrock response: x");
    assert_eq!(BedrockError::InvalidInput(text("x")).message(), "x");
}

#[test]
fn defaults_match_config_shape() {
    let env = Environment {
        model: None,
        api_base_url: None,
        api_key: None,
        openai_api_key: None,
        prompt_cache: None,
        daytona_api_key: None,
    };
    let app = AppConfig::with_default_model(&llm());
    let config = Config::load(app, NameMap::new(), &env, &llm(), ".", "workspace");
    assert!(config.llm("default", &llm()).max_tokens > 0);
    assert_eq!(config.app.sandbox.work_dir, "/workspace");
    assert_eq!(config.app.search_config, None);
}

#[test]
fn environment_overrides_are_applied_without_persisting_secrets() {
    let app = AppConfig::with_default_model(&llm());
    let env = Environment {
        model: Some(text("test-model")),
        api_base_url: None,
        api_key: None,
        openai_api_key: Some(text(" ")),
        prompt_cache: None,
        daytona_api_key: None,
    };
    let config = Config::load(app, NameMap::new(), &env, &llm(), ".", "w");
    assert_eq!(config.llm("default", &llm()).model, "test-model");
    assert_eq!(config.llm("default", &llm()).api_key, "");
    assert_eq!(config.llm("another", &llm()).model, "test-model");
    assert_eq!(env_value(&Some(text("  "))), None);
}

fn sections() -> Sections {
    Sections {
        browser: Ok(BrowserSettings { headless: true, ..BrowserSettings::default() }),
        search: Err(text("no engine")),
        sandbox: Ok(SandboxSettings { timeout: 7, ..SandboxSettings::default() }),
        runflow: Err(text("no flow")),
        daytona: Ok(DaytonaSettings::default()),
        mcp: Err(text("no server")),
    }
}

#[test]
fn profiles_are_read_from_a_file() {
    let contents = "[llm]\nmodel = \"base\"\nmax_tokens = 10\n[llm.vision]\nmodel = \"eyes\"\n";
    let app = parse_toml_config(contents, sections(), &llm(), &Vec::new())
        .expect("the file is TOML");
    let profile = |name: &str| app.llm.get(name).map(|l| (l.model.clone(), l.max_tokens));
    assert_eq!(profile("default"), Some((text("base"), 10)));
    assert_eq!(profile("vision"), Some((text("eyes"), 10)));
    assert_eq!(app.browser_config, None);
    assert_eq!(app.sandbox, SandboxSettings::default());
    assert!(parse_toml_config("= broken", sections(), &llm(), &Vec::new()).is_err());
}

#[test]
fn sections_are_those_of_the_file() {
    let app = parse_toml_config("[browser]\n[sandbox]\n", sections(), &llm(), &Vec::new())
        .expect("the sections can be read");
    assert_eq!(app.browser_config.map(|b| b.headless), Some(true));
    assert_eq!(app.sandbox.timeout, 7);
    for (contents, error) in [
        ("[search]\n[mcp]\n", "Invalid search config: no engine"),
        ("[runflow]\n", "Invalid runflow config: no flow"),
        ("[mcp]\n", "Invalid MCP config: no server"),
    ] {
        assert_eq!(
            parse_toml_config(contents, sections(), &llm(), &Vec::new()),
            Err(text(error))
        );
    }
}

#[test]
fn servers_are_read_from_a_file() {
    let contents = "{\"mcpServers\":{\"w\":{\"type\":\"sse\",\"url\":\"http://w\"}}}";
    let servers = McpSettings::load_server_config("mcp.json", &Some(text(contents)))
        .expect("the file is JSON");
    assert_eq!(servers.get("w").map(|s| s.server_type.clone()), Some(text("sse")));
    let error = McpSettings::load_server_config("mcp.json", &Some(text("{")));
    assert!(matches!(error, Err(message) if message.starts_with("Unable to parse MCP config mcp.json")));
    assert!(McpSettings::load_server_config("mcp.json", &None).map(|s| s.is_empty()).unwrap_or(false));
}

#[test]
fn json_is_read_and_written() {
    let value = json("{\"a\": [1, -2, 1.5, true, null, \"x\"]}");
    let items = value.items("a").expect("there is a list");
    assert_eq!(items[0], Json::number(1));
    assert_eq!(items[1], Json::signed(-2));
    assert_eq!(items[2], Json::Number(Number::Decimal(text("1.5"))));
    assert_eq!(value.to_text(), "{\"a\":[1,-2,1.5,true,null,\"x\"]}");
    assert_eq!(json("{\"b\":1}").to_pretty_text(), "{\n  \"b\": 1\n}");
    assert!(Json::parse("{").is_err());
    let mut changed = value.clone();
    changed.set("b", Json::Bool(true));
    changed.remove("a");
    assert_eq!(changed.to_text(), "{\"b\":true}");
}

#[test]
fn names_and_times_are_drawn() {
    let (a, b) = (new_id("task"), new_id("task"));
    assert!(a.starts_with("task_"));
    assert_ne!(a, b);
    assert_eq!(new_uuid().len(), 36);
    assert_eq!(new_simple_id().len(), 32);
    assert!(now() > 1_600_000_000_000);
}

#[test]
fn numbers_and_texts_are_written() {
    assert_eq!(number_text(0), "0");
    assert_eq!(number_text(u64::MAX), "18446744073709551615");
    assert_eq!(signed_text(i64::MIN), "-9223372036854775808");
    assert_eq!(parse_digits(&['4', '2']), Some(42));
    assert_eq!(parse_digits(&['9'; 30]), None);
    assert_eq!(sort(&[text("b"), text("a")]), vec![text("a"), text("b")]);
    assert_eq!(trim(" \u{a0}x\t"), "x");
    assert_eq!(squeeze("a  b\n c"), "a b c");
    assert_eq!(lines("a\r\nb\n"), vec![text("a"), text("b")]);
    assert_ne!(stable_hash("a"), stable_hash("b"));
    let mut table = vec![(text("a"), text("1"))];
    set_value(&mut table, "b", text("2"));
    set_value(&mut table, "a", text("3"));
    assert_eq!(table, vec![(text("a"), text("3")), (text("b"), text("2"))]);
    assert_eq!(find_name(&table, "b"), 1);
}
