//! The configuration of the application.
//!
//! Files and the environment are read outside the library, which takes their contents. Numbers
//! with a fraction are kept as JSON numbers, in their written form.

use vstd::prelude::*;

use crate::deep::{deep, group_deep};
use crate::json::{group_json, Json, JsonModel, Number, NumberModel};
use crate::json_text::parsed_json;
use crate::name_map::{with_entry, NameMap};
use crate::table::{find_name, value_of};
use crate::text::{concat2, concat4, trim, trim_tail, trimmed, without_tail};
use crate::tools::websearch::{texts, texts_of};

verus! {

broadcast use {group_deep, group_json};

pub const PROJECT_CONFIG_DIR: &'static str = "config";

pub const MCP_CONFIG_FILE: &'static str = "mcp.json";

// ---- sections with defaults ----

#[derive(Debug, PartialEq, Eq)]
pub struct ProxySettings {
    pub server: String,
    pub username: Option<String>,
    pub password: Option<String>,
}

#[derive(Debug, PartialEq, Eq)]
pub struct SearchSettings {
    pub engine: String,
    pub fallback_engines: Vec<String>,
    pub retry_delay: u64,
    pub max_retries: u32,
    pub lang: String,
    pub country: String,
}

impl SearchSettings {
    /// Whether these are the settings that hold where nothing is said.
    pub open spec fn is_default(&self) -> bool {
        &&& self.engine@ == "Google"@
        &&& deep(self.fallback_engines@) == seq!["DuckDuckGo"@, "Baidu"@, "Bing"@]
        &&& self.retry_delay == 60
        &&& self.max_retries == 3
        &&& self.lang@ == "en"@
        &&& self.country@ == "us"@
    }
}

impl Default for SearchSettings {
    fn default() -> (r: Self)
        ensures
            r.is_default(),
    {
        let mut fallback_engines: Vec<String> = Vec::new();
        fallback_engines.push("DuckDuckGo".to_owned());
        fallback_engines.push("Baidu".to_owned());
        fallback_engines.push("Bing".to_owned());
        proof {
            assert(deep(fallback_engines@) =~= seq!["DuckDuckGo"@, "Baidu"@, "Bing"@]);
        }
        SearchSettings {
            engine: "Google".to_owned(),
            fallback_engines,
            retry_delay: 60,
            max_retries: 3,
            lang: "en".to_owned(),
            country: "us".to_owned(),
        }
    }
}

#[derive(Debug, PartialEq, Eq)]
pub struct RunflowSettings {
    pub use_data_analysis_agent: bool,
}

impl RunflowSettings {
    /// Whether these are the settings that hold where nothing is said.
    pub open spec fn is_default(&self) -> bool {
        &&& !self.use_data_analysis_agent
    }
}

impl Default for RunflowSettings {
    fn default() -> (r: Self)
        ensures
            r.is_default(),
    {
        RunflowSettings { use_data_analysis_agent: false }
    }
}

#[derive(Debug, PartialEq, Eq)]
pub struct BrowserSettings {
    pub headless: bool,
    pub disable_security: bool,
    pub extra_chromium_args: Vec<String>,
    pub chrome_instance_path: Option<String>,
    pub wss_url: Option<String>,
    pub cdp_url: Option<String>,
    pub proxy: Option<ProxySettings>,
    pub max_content_length: usize,
}

impl BrowserSettings {
    /// Whether these are the settings that hold where nothing is said.
    pub open spec fn is_default(&self) -> bool {
        &&& !self.headless
        &&& self.disable_security
        &&& self.extra_chromium_args@.len() == 0
        &&& self.chrome_instance_path is None
        &&& self.wss_url is None
        &&& self.cdp_url is None
        &&& self.proxy is None
        &&& self.max_content_length == 2000
    }
}

impl Default for BrowserSettings {
    fn default() -> (r: Self)
        ensures
            r.is_default(),
    {
        BrowserSettings {
            headless: false,
            disable_security: true,
            extra_chromium_args: Vec::new(),
            chrome_instance_path: None,
            wss_url: None,
            cdp_url: None,
            proxy: None,
            max_content_length: 2000,
        }
    }
}

#[derive(Debug, PartialEq, Eq)]
pub struct SandboxSettings {
    pub use_sandbox: bool,
    pub image: String,
    pub work_dir: String,
    pub memory_limit: String,
    pub cpu_limit: Json,
    pub timeout: u64,
    pub network_enabled: bool,
}

impl SandboxSettings {
    /// Whether these are the settings that hold where nothing is said.
    pub open spec fn is_default(&self) -> bool {
        &&& !self.use_sandbox
        &&& self.image@ == "python:3.12-slim"@
        &&& self.work_dir@ == "/workspace"@
        &&& self.memory_limit@ == "512m"@
        &&& self.cpu_limit.deep_view() == JsonModel::Number(NumberModel::Decimal("1.0"@))
        &&& self.timeout == 300
        &&& !self.network_enabled
    }
}

impl Default for SandboxSettings {
    fn default() -> (r: Self)
        ensures
            r.is_default(),
    {
        SandboxSettings {
            use_sandbox: false,
            image: "python:3.12-slim".to_owned(),
            work_dir: "/workspace".to_owned(),
            memory_limit: "512m".to_owned(),
            cpu_limit: Json::Number(Number::Decimal("1.0".to_owned())),
            timeout: 300,
            network_enabled: false,
        }
    }
}

#[derive(Debug, PartialEq, Eq)]
pub struct DaytonaSettings {
    pub daytona_api_key: String,
    pub daytona_server_url: Option<String>,
    pub daytona_target: Option<String>,
    pub sandbox_image_name: Option<String>,
    pub sandbox_entrypoint: Option<String>,
    pub vnc_password: Option<String>,
}

impl DaytonaSettings {
    /// Whether these are the settings that hold where nothing is said.
    pub open spec fn is_default(&self) -> bool {
        &&& self.daytona_api_key@.len() == 0
        &&& self.daytona_server_url.deep_view() == Some("https://app.daytona.io/api"@)
        &&& self.daytona_target.deep_view() == Some("us"@)
        &&& self.sandbox_image_name.deep_view() == Some("whitezxj/sandbox:0.1.0"@)
        &&& self.sandbox_entrypoint.deep_view() == Some(
                "/usr/bin/supervisord -n -c /etc/supervisor/conf.d/supervisord.conf"@,
            )
        &&& self.vnc_password.deep_view() == Some("123456"@)
    }
}

impl Default for DaytonaSettings {
    fn default() -> (r: Self)
        ensures
            r.is_default(),
    {
        DaytonaSettings {
            daytona_api_key: String::new(),
            daytona_server_url: Some("https://app.daytona.io/api".to_owned()),
            daytona_target: Some("us".to_owned()),
            sandbox_image_name: Some("whitezxj/sandbox:0.1.0".to_owned()),
            sandbox_entrypoint: Some(
                "/usr/bin/supervisord -n -c /etc/supervisor/conf.d/supervisord.conf".to_owned(),
            ),
            vnc_password: Some("123456".to_owned()),
        }
    }
}

// ---- servers ----

/// How a server is started or reached.
#[derive(Debug, PartialEq, Eq)]
pub struct McpServerConfig {
    pub server_type: String,
    pub url: Option<String>,
    pub command: Option<String>,
    pub args: Vec<String>,
}

pub struct ServerModel {
    pub server_type: Seq<char>,
    pub url: Option<Seq<char>>,
    pub command: Option<Seq<char>>,
    pub args: Seq<Seq<char>>,
}

impl DeepView for McpServerConfig {
    type V = ServerModel;

    open spec fn deep_view(&self) -> ServerModel {
        ServerModel {
            server_type: self.server_type@,
            url: self.url.deep_view(),
            command: self.command.deep_view(),
            args: deep(self.args@),
        }
    }
}

/// The server that a JSON value describes.
pub open spec fn server_of(server: JsonModel) -> ServerModel {
    ServerModel {
        server_type: server.text_or("type"@, "stdio"@),
        url: server.text("url"@),
        command: server.text("command"@),
        args: match server.items("args"@) {
            Some(items) => texts_of(items),
            None => Seq::empty(),
        },
    }
}

/// The servers that the members describe, one after the other.
pub open spec fn servers_of(members: Seq<(Seq<char>, JsonModel)>) -> Seq<(Seq<char>, ServerModel)>
    decreases members.len(),
{
    if members.len() == 0 {
        Seq::empty()
    } else {
        with_entry(
            servers_of(members.drop_last()),
            members.last().0,
            server_of(members.last().1),
        )
    }
}

/// The servers that a file of servers describes.
pub open spec fn listed_servers(value: JsonModel) -> Seq<(Seq<char>, ServerModel)> {
    match value.get("mcpServers"@) {
        Some(JsonModel::Object(members)) => servers_of(members),
        _ => Seq::empty(),
    }
}

fn optional_text(json: &Json, key: &str) -> (r: Option<String>)
    ensures
        r.deep_view() == json.deep_view().text(key@),
{
    match json.text(key) {
        Some(text) => Some(text.clone()),
        None => None,
    }
}

fn read_server(server: &Json) -> (r: McpServerConfig)
    ensures
        r.deep_view() == server_of(server.deep_view()),
{
    let args = match server.items("args") {
        Some(items) => texts(items),
        None => {
            let none: Vec<String> = Vec::new();
            proof {
                assert(deep(none@) =~= Seq::<Seq<char>>::empty());
            }
            none
        },
    };
    McpServerConfig {
        server_type: server.text_or("type", "stdio"),
        url: optional_text(server, "url"),
        command: optional_text(server, "command"),
        args,
    }
}

#[derive(Debug, PartialEq, Eq)]
pub struct McpSettings {
    pub server_reference: String,
    pub servers: NameMap<McpServerConfig>,
}

impl McpSettings {
    /// Whether these are the settings that hold where nothing is said.
    pub open spec fn is_default(&self) -> bool {
        &&& self.server_reference@ == "app.mcp.server"@
        &&& self.servers.deep_view() == Seq::<(Seq<char>, ServerModel)>::empty()
    }
}

impl Default for McpSettings {
    fn default() -> (r: Self)
        ensures
            r.is_default(),
    {
        McpSettings { server_reference: "app.mcp.server".to_owned(), servers: NameMap::new() }
    }
}

impl McpSettings {
    /// The servers that a file of servers describes. `value` is what was read from it.
    pub fn servers_in(value: &Json) -> (r: NameMap<McpServerConfig>)
        ensures
            r.deep_view() == listed_servers(value.deep_view()),
            r.wf(),
    {
        let mut parsed: NameMap<McpServerConfig> = NameMap::new();
        if let Some(Json::Object(members)) = value.get("mcpServers") {
            let ghost models = deep(members@);
            let mut i: usize = 0;
            proof {
                assert(models.take(0) =~= Seq::<(Seq<char>, JsonModel)>::empty());
            }
            while i < members.len()
                invariant
                    models == deep(members@),
                    i <= members@.len(),
                    parsed.wf(),
                    parsed.deep_view() == servers_of(models.take(i as int)),
                decreases members@.len() - i,
            {
                proof {
                    assert(models.take(i + 1).drop_last() =~= models.take(i as int));
                    assert(models.take(i + 1).last() == members@[i as int].deep_view());
                }
                parsed.insert(&members[i].0, read_server(&members[i].1));
                i += 1;
            }
            proof {
                assert(models.take(models.len() as int) =~= models);
            }
        }
        parsed
    }

    /// The servers that the contents of the file at `path` describe; none where there is no such
    /// file.
    pub fn load_server_config(path: &str, contents: &Option<String>) -> (r: Result<
        NameMap<McpServerConfig>,
        String,
    >)
        ensures
            match contents {
                None => r is Ok && r->Ok_0.deep_view() == Seq::<
                    (Seq<char>, ServerModel),
                >::empty(),
                Some(contents) => match parsed_json(contents@) {
                    Ok(value) => r is Ok && r->Ok_0.deep_view() == listed_servers(value),
                    Err(error) => r is Err && r->Err_0@ == "Unable to parse MCP config "@ + path@
                        + ": "@ + error,
                },
            },
    {
        match contents {
            None => Ok(NameMap::new()),
            Some(contents) => match Json::parse(contents) {
                Ok(value) => Ok(McpSettings::servers_in(&value)),
                Err(error) => Err(
                    concat4("Unable to parse MCP config ", path, ": ", &error),
                ),
            },
        }
    }
}

// ---- models ----

/// Whether the model may keep what it has read of a prompt.
#[derive(Debug, Clone, Copy, PartialEq, Eq, Structural)]
pub enum PromptCacheMode {
    Auto,
    Disabled,
}

impl DeepView for PromptCacheMode {
    type V = PromptCacheMode;

    open spec fn deep_view(&self) -> PromptCacheMode {
        *self
    }
}

/// Which model is asked, and how.
#[derive(Debug, PartialEq, Eq)]
pub struct LlmSettings {
    pub model: String,
    pub base_url: String,
    pub api_key: String,
    pub max_tokens: u32,
    pub max_input_tokens: Option<usize>,
    pub temperature: Json,
    pub api_type: String,
    pub api_version: String,
    pub prompt_cache: PromptCacheMode,
}

pub struct LlmModel {
    pub model: Seq<char>,
    pub base_url: Seq<char>,
    pub api_key: Seq<char>,
    pub max_tokens: u32,
    pub max_input_tokens: Option<usize>,
    pub temperature: JsonModel,
    pub api_type: Seq<char>,
    pub api_version: Seq<char>,
    pub prompt_cache: PromptCacheMode,
}

impl DeepView for LlmSettings {
    type V = LlmModel;

    open spec fn deep_view(&self) -> LlmModel {
        LlmModel {
            model: self.model@,
            base_url: self.base_url@,
            api_key: self.api_key@,
            max_tokens: self.max_tokens,
            max_input_tokens: self.max_input_tokens,
            temperature: self.temperature.deep_view(),
            api_type: self.api_type@,
            api_version: self.api_version@,
            prompt_cache: self.prompt_cache,
        }
    }
}

impl Clone for LlmSettings {
    fn clone(&self) -> (r: Self)
        ensures
            r.deep_view() == self.deep_view(),
    {
        LlmSettings {
            model: self.model.clone(),
            base_url: self.base_url.clone(),
            api_key: self.api_key.clone(),
            max_tokens: self.max_tokens,
            max_input_tokens: self.max_input_tokens,
            temperature: self.temperature.clone(),
            api_type: self.api_type.clone(),
            api_version: self.api_version.clone(),
            prompt_cache: self.prompt_cache,
        }
    }
}

/// The integer of a member.
pub open spec fn integer_of(table: JsonModel, key: Seq<char>) -> Option<i64> {
    match table.get(key) {
        Some(value) => value.as_i64(),
        None => None,
    }
}

/// How many tokens a number of the configuration stands for: at least one, and what fits in 32
/// bits of it.
pub open spec fn token_limit(n: i64) -> u32 {
    ((if n < 1 {
        1int
    } else {
        n as int
    }) % 4294967296) as u32
}

/// The mode that a table says.
pub open spec fn mode_in(
    table: JsonModel,
    modes: Seq<(Seq<char>, PromptCacheMode)>,
    fallback: PromptCacheMode,
) -> PromptCacheMode {
    match table.text("prompt_cache"@) {
        Some(text) => match value_of(modes, text) {
            Some(mode) => mode,
            None => fallback,
        },
        None => fallback,
    }
}

/// The settings that a table describes. What it does not say is as in `fallback`.
pub open spec fn llm_in(
    table: JsonModel,
    fallback: LlmModel,
    modes: Seq<(Seq<char>, PromptCacheMode)>,
) -> LlmModel {
    LlmModel {
        model: table.text_or("model"@, fallback.model),
        base_url: table.text_or("base_url"@, fallback.base_url),
        api_key: table.text_or("api_key"@, fallback.api_key),
        max_tokens: match integer_of(table, "max_tokens"@) {
            Some(n) => token_limit(n),
            None => fallback.max_tokens,
        },
        max_input_tokens: match integer_of(table, "max_input_tokens"@) {
            Some(n) => if n > 0 {
                Some(n as usize)
            } else {
                None
            },
            None => fallback.max_input_tokens,
        },
        temperature: match table.get("temperature"@) {
            Some(JsonModel::Number(NumberModel::Decimal(text))) => JsonModel::Number(
                NumberModel::Decimal(text),
            ),
            _ => fallback.temperature,
        },
        api_type: table.text_or("api_type"@, fallback.api_type),
        api_version: table.text_or("api_version"@, fallback.api_version),
        prompt_cache: mode_in(table, modes, fallback.prompt_cache),
    }
}

fn integer_member(table: &Json, key: &str) -> (r: Option<i64>)
    ensures
        r == integer_of(table.deep_view(), key@),
{
    match table.get(key) {
        Some(value) => value.as_i64(),
        None => None,
    }
}

fn limit_of(n: i64) -> (r: u32)
    ensures
        r == token_limit(n),
{
    let tokens: i64 = if n < 1 {
        1
    } else {
        n
    };
    (tokens % 4294967296) as u32
}

/// The settings that a table describes. `modes` are the names of the modes of the prompt cache.
pub fn llm_settings_from_toml(
    table: &Json,
    fallback: &LlmSettings,
    modes: &Vec<(String, PromptCacheMode)>,
) -> (r: LlmSettings)
    ensures
        r.deep_view() == llm_in(table.deep_view(), fallback.deep_view(), deep(modes@)),
{
    let max_tokens = match integer_member(table, "max_tokens") {
        Some(n) => limit_of(n),
        None => fallback.max_tokens,
    };
    let max_input_tokens = match integer_member(table, "max_input_tokens") {
        Some(n) => if n > 0 {
            Some(n as usize)
        } else {
            None
        },
        None => fallback.max_input_tokens,
    };
    let temperature = match table.get("temperature") {
        Some(Json::Number(Number::Decimal(text))) => Json::Number(Number::Decimal(text.clone())),
        _ => fallback.temperature.clone(),
    };
    let prompt_cache = match table.text("prompt_cache") {
        Some(text) => {
            let i = find_name(modes, text);
            if i < modes.len() {
                proof {
                    assert(deep(modes@)[i as int] == modes@[i as int].deep_view());
                }
                modes[i].1
            } else {
                fallback.prompt_cache
            }
        },
        None => fallback.prompt_cache,
    };
    LlmSettings {
        model: table.text_or("model", &fallback.model),
        base_url: table.text_or("base_url", &fallback.base_url),
        api_key: table.text_or("api_key", &fallback.api_key),
        max_tokens,
        max_input_tokens,
        temperature,
        api_type: table.text_or("api_type", &fallback.api_type),
        api_version: table.text_or("api_version", &fallback.api_version),
        prompt_cache,
    }
}

/// The profiles in the table of models: the table itself, and each table in it.
pub open spec fn profiles_of(
    members: Seq<(Seq<char>, JsonModel)>,
    base: LlmModel,
    modes: Seq<(Seq<char>, PromptCacheMode)>,
) -> Seq<(Seq<char>, LlmModel)>
    decreases members.len(),
{
    if members.len() == 0 {
        seq![("default"@, base)]
    } else {
        let head = profiles_of(members.drop_last(), base, modes);
        match members.last().1 {
            JsonModel::Object(_) => with_entry(
                head,
                members.last().0,
                llm_in(members.last().1, base, modes),
            ),
            _ => head,
        }
    }
}

/// The profiles that a configuration describes.
pub open spec fn configured_profiles(
    raw: JsonModel,
    default: LlmModel,
    modes: Seq<(Seq<char>, PromptCacheMode)>,
) -> Seq<(Seq<char>, LlmModel)> {
    match raw.get("llm"@) {
        Some(JsonModel::Object(members)) => profiles_of(
            members,
            llm_in(JsonModel::Object(members), default, modes),
            modes,
        ),
        _ => seq![("default"@, default)],
    }
}

/// The profiles that a configuration describes. `default` is what holds where it says nothing.
pub fn llm_profiles(
    raw: &Json,
    default: &LlmSettings,
    modes: &Vec<(String, PromptCacheMode)>,
) -> (r: NameMap<LlmSettings>)
    ensures
        r.deep_view() == configured_profiles(
            raw.deep_view(),
            default.deep_view(),
            deep(modes@),
        ),
{
    let mut profiles: NameMap<LlmSettings> = NameMap::new();
    let found = raw.get("llm");
    if let Some(table) = found {
        if let Json::Object(members) = table {
            let base = llm_settings_from_toml(table, default, modes);
            profiles.insert("default", base.clone());
            let ghost models = deep(members@);
            let ghost all = deep(modes@);
            let mut i: usize = 0;
            proof {
                assert(table.deep_view() == JsonModel::Object(models));
                assert(models.take(0) =~= Seq::<(Seq<char>, JsonModel)>::empty());
                assert(profiles.deep_view() =~= seq![("default"@, base.deep_view())]);
            }
            while i < members.len()
                invariant
                    models == deep(members@),
                    all == deep(modes@),
                    i <= members@.len(),
                    profiles.deep_view() == profiles_of(
                        models.take(i as int),
                        base.deep_view(),
                        all,
                    ),
                decreases members@.len() - i,
            {
                proof {
                    assert(models.take(i + 1).drop_last() =~= models.take(i as int));
                    assert(models.take(i + 1).last() == members@[i as int].deep_view());
                }
                if let Json::Object(_) = &members[i].1 {
                    profiles.insert(
                        &members[i].0,
                        llm_settings_from_toml(&members[i].1, &base, modes),
                    );
                }
                i += 1;
            }
            proof {
                assert(models.take(models.len() as int) =~= models);
            }
            return profiles;
        }
    }
    profiles.insert("default", default.clone());
    proof {
        assert(profiles.deep_view() =~= seq![("default"@, default.deep_view())]);
    }
    profiles
}

// ---- the whole ----

/// The configuration of the application.
#[derive(Debug, PartialEq, Eq)]
pub struct AppConfig {
    pub llm: NameMap<LlmSettings>,
    pub sandbox: SandboxSettings,
    pub browser_config: Option<BrowserSettings>,
    pub search_config: Option<SearchSettings>,
    pub mcp_config: McpSettings,
    pub run_flow_config: RunflowSettings,
    pub daytona_config: DaytonaSettings,
}

impl AppConfig {
    /// Whether only the models are other than where nothing is said.
    pub open spec fn is_default_but_models(&self) -> bool {
        &&& self.sandbox.is_default()
        &&& self.browser_config is None
        &&& self.search_config is None
        &&& self.mcp_config.is_default()
        &&& self.run_flow_config.is_default()
        &&& self.daytona_config.is_default()
    }

    /// The configuration where no file says anything.
    pub fn with_default_model(default: &LlmSettings) -> (r: Self)
        ensures
            r.llm.deep_view() == seq![("default"@, default.deep_view())],
            r.is_default_but_models(),
    {
        let mut llm: NameMap<LlmSettings> = NameMap::new();
        llm.insert("default", default.clone());
        proof {
            assert(llm.deep_view() =~= seq![("default"@, default.deep_view())]);
        }
        AppConfig {
            llm,
            sandbox: SandboxSettings::default(),
            browser_config: None,
            search_config: None,
            mcp_config: McpSettings::default(),
            run_flow_config: RunflowSettings::default(),
            daytona_config: DaytonaSettings::default(),
        }
    }
}

/// The value of a variable, without white space around it; nothing where nothing is left.
pub open spec fn cleaned(value: Option<Seq<char>>) -> Option<Seq<char>> {
    match value {
        Some(text) if trimmed(text).len() > 0 => Some(trimmed(text)),
        _ => None,
    }
}

/// The value of a variable, without white space around it; nothing where nothing is left.
pub fn env_value(value: &Option<String>) -> (r: Option<String>)
    ensures
        r.deep_view() == cleaned(value.deep_view()),
{
    match value {
        Some(text) => {
            let clean = trim(text);
            if clean.as_str().is_empty() {
                None
            } else {
                Some(clean)
            }
        },
        None => None,
    }
}

/// What the environment says.
#[derive(Debug, PartialEq, Eq)]
pub struct Environment {
    pub model: Option<String>,
    pub api_base_url: Option<String>,
    pub api_key: Option<String>,
    pub openai_api_key: Option<String>,
    pub prompt_cache: Option<PromptCacheMode>,
    pub daytona_api_key: Option<String>,
}

/// The value, or what was there.
pub open spec fn or_else(value: Option<Seq<char>>, fallback: Seq<char>) -> Seq<char> {
    match value {
        Some(value) => value,
        None => fallback,
    }
}

/// The settings with what the environment says.
pub open spec fn overridden(settings: LlmModel, env: Environment) -> LlmModel {
    LlmModel {
        model: or_else(cleaned(env.model.deep_view()), settings.model),
        base_url: match cleaned(env.api_base_url.deep_view()) {
            Some(url) => without_tail(url, '/'),
            None => settings.base_url,
        },
        api_key: match cleaned(env.api_key.deep_view()) {
            Some(key) => key,
            None => or_else(cleaned(env.openai_api_key.deep_view()), settings.api_key),
        },
        prompt_cache: match env.prompt_cache {
            Some(mode) => mode,
            None => settings.prompt_cache,
        },
        ..settings
    }
}

/// The settings of the default profile; those given where there is no such profile.
pub open spec fn default_profile(
    profiles: Seq<(Seq<char>, LlmModel)>,
    fallback: LlmModel,
) -> LlmModel {
    match value_of(profiles, "default"@) {
        Some(settings) => settings,
        None => fallback,
    }
}

/// Lets the environment have the last word.
pub fn apply_environment(app: &mut AppConfig, env: &Environment, fallback: &LlmSettings)
    ensures
        final(app).llm.deep_view() == with_entry(
            old(app).llm.deep_view(),
            "default"@,
            overridden(
                default_profile(old(app).llm.deep_view(), fallback.deep_view()),
                *env,
            ),
        ),
        final(app).daytona_config.daytona_api_key@ == or_else(
            cleaned(env.daytona_api_key.deep_view()),
            old(app).daytona_config.daytona_api_key@,
        ),
        final(app).daytona_config == (DaytonaSettings {
            daytona_api_key: final(app).daytona_config.daytona_api_key,
            ..old(app).daytona_config
        }),
        final(app).sandbox == old(app).sandbox,
        final(app).browser_config == old(app).browser_config,
        final(app).search_config == old(app).search_config,
        final(app).mcp_config == old(app).mcp_config,
        final(app).run_flow_config == old(app).run_flow_config,
{
    let mut settings = match app.llm.get("default") {
        Some(settings) => settings.clone(),
        None => fallback.clone(),
    };
    if let Some(model) = env_value(&env.model) {
        settings.model = model;
    }
    if let Some(url) = env_value(&env.api_base_url) {
        settings.base_url = trim_tail(&url, '/');
    }
    match env_value(&env.api_key) {
        Some(key) => {
            settings.api_key = key;
        },
        None => {
            if let Some(key) = env_value(&env.openai_api_key) {
                settings.api_key = key;
            }
        },
    }
    if let Some(mode) = env.prompt_cache {
        settings.prompt_cache = mode;
    }
    app.llm.insert("default", settings);
    if let Some(key) = env_value(&env.daytona_api_key) {
        app.daytona_config.daytona_api_key = key;
    }
}

/// The settings of a profile: its own, or else those of the default profile.
pub open spec fn profile(
    profiles: Seq<(Seq<char>, LlmModel)>,
    name: Seq<char>,
    fallback: LlmModel,
) -> LlmModel {
    match value_of(profiles, name) {
        Some(settings) => settings,
        None => default_profile(profiles, fallback),
    }
}

/// The configuration, and where the project and its work are.
#[derive(Debug, PartialEq, Eq)]
pub struct Config {
    pub app: AppConfig,
    pub project_root: String,
    pub workspace_root: String,
}

impl Config {
    /// The configuration of a project: what its files say, the servers that it lists, and the
    /// environment, which has the last word.
    pub fn load(
        app: AppConfig,
        servers: NameMap<McpServerConfig>,
        env: &Environment,
        fallback: &LlmSettings,
        project_root: &str,
        workspace_root: &str,
    ) -> (r: Self)
        ensures
            r.project_root@ == project_root@,
            r.workspace_root@ == workspace_root@,
            r.app.llm.deep_view() == with_entry(
                app.llm.deep_view(),
                "default"@,
                overridden(default_profile(app.llm.deep_view(), fallback.deep_view()), *env),
            ),
            r.app.mcp_config.servers == servers,
            r.app.mcp_config.server_reference == app.mcp_config.server_reference,
            r.app.daytona_config.daytona_api_key@ == or_else(
                cleaned(env.daytona_api_key.deep_view()),
                app.daytona_config.daytona_api_key@,
            ),
            r.app.daytona_config == (DaytonaSettings {
                daytona_api_key: r.app.daytona_config.daytona_api_key,
                ..app.daytona_config
            }),
            r.app.sandbox == app.sandbox,
            r.app.browser_config == app.browser_config,
            r.app.search_config == app.search_config,
            r.app.run_flow_config == app.run_flow_config,
    {
        let mut app = app;
        app.mcp_config.servers = servers;
        apply_environment(&mut app, env, fallback);
        Config {
            app,
            project_root: project_root.to_owned(),
            workspace_root: workspace_root.to_owned(),
        }
    }

    /// The settings of a profile.
    pub fn llm(&self, name: &str, fallback: &LlmSettings) -> (r: LlmSettings)
        ensures
            r.deep_view() == profile(self.app.llm.deep_view(), name@, fallback.deep_view()),
    {
        match self.app.llm.get(name) {
            Some(settings) => settings.clone(),
            None => match self.app.llm.get("default") {
                Some(settings) => settings.clone(),
                None => fallback.clone(),
            },
        }
    }
}

// ---- TOML ----

/// A value in the form in which `toml` holds it.
#[verifier::external_type_specification]
#[verifier::external_body]
pub struct ExTomlValue(toml::Value);

/// What `toml::from_str` reads from a text: the value, or the message of its error. A time stamp
/// counts as null.
pub uninterp spec fn parsed_toml(text: Seq<char>) -> Result<JsonModel, Seq<char>>;

/// Turns a `toml::Value` into the value that it stands for. Nothing is claimed of it: it is called
/// only where `toml` has read a text.
#[verifier::external_body]
fn from_toml(value: toml::Value) -> Json {
    match value {
        toml::Value::String(text) => Json::Str(text),
        toml::Value::Integer(n) => {
            Json::Number(u64::try_from(n).map_or(Number::Negative(n), Number::Unsigned))
        },
        toml::Value::Float(n) => Json::Number(Number::Decimal(n.to_string())),
        toml::Value::Boolean(b) => Json::Bool(b),
        toml::Value::Datetime(_) => Json::Null,
        toml::Value::Array(items) => Json::Array(items.into_iter().map(from_toml).collect()),
        toml::Value::Table(table) => {
            Json::Object(table.into_iter().map(|(k, v)| (k, from_toml(v))).collect())
        },
    }
}

/// `toml::from_str`: the result depends on the text alone.
#[verifier::external_body]
fn read_toml(text: &str) -> (r: Result<Json, String>)
    ensures
        match r {
            Ok(json) => parsed_toml(text@) == Ok::<JsonModel, Seq<char>>(json.deep_view()),
            Err(error) => parsed_toml(text@) == Err::<JsonModel, Seq<char>>(error@),
        },
{
    match toml::from_str::<toml::Value>(text) {
        Ok(value) => Ok(from_toml(value)),
        Err(error) => Err(error.to_string()),
    }
}

/// What the sections of a configuration come to when each is read into its type, or why it cannot
/// be. They are read outside the library; that of a section which the text does not have is not
/// looked at.
#[derive(Debug, PartialEq, Eq)]
pub struct Sections {
    pub browser: Result<BrowserSettings, String>,
    pub search: Result<SearchSettings, String>,
    pub sandbox: Result<SandboxSettings, String>,
    pub runflow: Result<RunflowSettings, String>,
    pub daytona: Result<DaytonaSettings, String>,
    pub mcp: Result<McpSettings, String>,
}

/// Why a section cannot be taken, if the text has it and it could not be read.
pub open spec fn section_fault<T>(
    raw: JsonModel,
    key: Seq<char>,
    section: Result<T, String>,
    name: Seq<char>,
) -> Option<Seq<char>> {
    match section {
        Err(error) if raw.get(key) is Some => Some("Invalid "@ + name + " config: "@ + error@),
        _ => None,
    }
}

/// Why the sections cannot be taken, if they cannot: what is wrong with the first.
pub open spec fn sections_fault(raw: JsonModel, sections: Sections) -> Option<Seq<char>> {
    if section_fault(raw, "browser"@, sections.browser, "browser"@) is Some {
        section_fault(raw, "browser"@, sections.browser, "browser"@)
    } else if section_fault(raw, "search"@, sections.search, "search"@) is Some {
        section_fault(raw, "search"@, sections.search, "search"@)
    } else if section_fault(raw, "sandbox"@, sections.sandbox, "sandbox"@) is Some {
        section_fault(raw, "sandbox"@, sections.sandbox, "sandbox"@)
    } else if section_fault(raw, "runflow"@, sections.runflow, "runflow"@) is Some {
        section_fault(raw, "runflow"@, sections.runflow, "runflow"@)
    } else if section_fault(raw, "daytona"@, sections.daytona, "daytona"@) is Some {
        section_fault(raw, "daytona"@, sections.daytona, "daytona"@)
    } else {
        section_fault(raw, "mcp"@, sections.mcp, "MCP"@)
    }
}

/// Whether the sections of the configuration are those that the text has, and the others as where
/// nothing is said.
pub open spec fn has_sections(app: AppConfig, raw: JsonModel, sections: Sections) -> bool {
    &&& app.browser_config == if raw.get("browser"@) is Some {
        Some(sections.browser->Ok_0)
    } else {
        None
    }
    &&& app.search_config == if raw.get("search"@) is Some {
        Some(sections.search->Ok_0)
    } else {
        None
    }
    &&& if raw.get("sandbox"@) is Some {
        app.sandbox == sections.sandbox->Ok_0
    } else {
        app.sandbox.is_default()
    }
    &&& if raw.get("runflow"@) is Some {
        app.run_flow_config == sections.runflow->Ok_0
    } else {
        app.run_flow_config.is_default()
    }
    &&& if raw.get("daytona"@) is Some {
        app.daytona_config == sections.daytona->Ok_0
    } else {
        app.daytona_config.is_default()
    }
    &&& if raw.get("mcp"@) is Some {
        app.mcp_config == sections.mcp->Ok_0
    } else {
        app.mcp_config.is_default()
    }
}

fn invalid_section(name: &str, error: &str) -> (r: String)
    ensures
        r@ == "Invalid "@ + name@ + " config: "@ + error@,
{
    concat4("Invalid ", name, " config: ", error)
}

fn take_section<T>(raw: &Json, key: &str, section: Result<T, String>, name: &str) -> (r: Result<
    Option<T>,
    String,
>)
    ensures
        match section_fault(raw.deep_view(), key@, section, name@) {
            Some(error) => r is Err && r->Err_0@ == error,
            None => r == Ok::<Option<T>, String>(
                if raw.deep_view().get(key@) is Some {
                    Some(section->Ok_0)
                } else {
                    None
                },
            ),
        },
{
    if raw.get(key).is_none() {
        return Ok(None);
    }
    match section {
        Ok(section) => Ok(Some(section)),
        Err(error) => Err(invalid_section(name, &error)),
    }
}

fn take_sections(app: AppConfig, raw: &Json, sections: Sections) -> (r: Result<AppConfig, String>)
    requires
        app.is_default_but_models(),
    ensures
        match sections_fault(raw.deep_view(), sections) {
            Some(error) => r is Err && r->Err_0@ == error,
            None => r is Ok && r->Ok_0.llm == app.llm && has_sections(
                r->Ok_0,
                raw.deep_view(),
                sections,
            ),
        },
{
    let mut app = app;
    match take_section(raw, "browser", sections.browser, "browser") {
        Ok(section) => {
            app.browser_config = section;
        },
        Err(error) => {
            return Err(error);
        },
    }
    match take_section(raw, "search", sections.search, "search") {
        Ok(section) => {
            app.search_config = section;
        },
        Err(error) => {
            return Err(error);
        },
    }
    match take_section(raw, "sandbox", sections.sandbox, "sandbox") {
        Ok(Some(section)) => {
            app.sandbox = section;
        },
        Ok(None) => {},
        Err(error) => {
            return Err(error);
        },
    }
    match take_section(raw, "runflow", sections.runflow, "runflow") {
        Ok(Some(section)) => {
            app.run_flow_config = section;
        },
        Ok(None) => {},
        Err(error) => {
            return Err(error);
        },
    }
    match take_section(raw, "daytona", sections.daytona, "daytona") {
        Ok(Some(section)) => {
            app.daytona_config = section;
        },
        Ok(None) => {},
        Err(error) => {
            return Err(error);
        },
    }
    match take_section(raw, "mcp", sections.mcp, "MCP") {
        Ok(Some(section)) => {
            app.mcp_config = section;
        },
        Ok(None) => {},
        Err(error) => {
            return Err(error);
        },
    }
    Ok(app)
}

/// The configuration that a value describes.
pub fn config_from_toml(
    raw: &Json,
    sections: Sections,
    default: &LlmSettings,
    modes: &Vec<(String, PromptCacheMode)>,
) -> (r: Result<AppConfig, String>)
    ensures
        match sections_fault(raw.deep_view(), sections) {
            Some(error) => r is Err && r->Err_0@ == error,
            None => {
                &&& r is Ok
                &&& r->Ok_0.llm.deep_view() == configured_profiles(
                    raw.deep_view(),
                    default.deep_view(),
                    deep(modes@),
                )
                &&& has_sections(r->Ok_0, raw.deep_view(), sections)
            },
        },
{
    let mut app = AppConfig::with_default_model(default);
    app.llm = llm_profiles(raw, default, modes);
    take_sections(app, raw, sections)
}

/// The configuration that a text describes. `sections` are its sections as they are read into
/// their types.
pub fn parse_toml_config(
    contents: &str,
    sections: Sections,
    default: &LlmSettings,
    modes: &Vec<(String, PromptCacheMode)>,
) -> (r: Result<AppConfig, String>)
    ensures
        match parsed_toml(contents@) {
            Err(error) => r is Err && r->Err_0@ == "Invalid TOML config: "@ + error,
            Ok(raw) => match sections_fault(raw, sections) {
                Some(error) => r is Err && r->Err_0@ == error,
                None => {
                    &&& r is Ok
                    &&& r->Ok_0.llm.deep_view() == configured_profiles(
                        raw,
                        default.deep_view(),
                        deep(modes@),
                    )
                    &&& has_sections(r->Ok_0, raw, sections)
                },
            },
        },
{
    match read_toml(contents) {
        Ok(raw) => config_from_toml(&raw, sections, default, modes),
        Err(error) => Err(concat2("Invalid TOML config: ", &error)),
    }
}

// ---- laws ----

/// What the environment says of a setting holds, whatever the file says; where it says nothing
/// the file holds.
pub proof fn law_environment_has_the_last_word(
    profiles: Seq<(Seq<char>, LlmModel)>,
    fallback: LlmModel,
    env: Environment,
    model: Seq<char>,
)
    requires
        crate::name_map::ordered(profiles),
    ensures
        ({
            let settings = overridden(default_profile(profiles, fallback), env);
            let after = with_entry(profiles, "default"@, settings);
            &&& profile(after, "default"@, fallback) == settings
            &&& cleaned(env.model.deep_view()) == Some(model) ==> settings.model == model
            &&& cleaned(env.model.deep_view()) is None ==> settings.model == default_profile(
                profiles,
                fallback,
            ).model
        }),
{
    let settings = overridden(default_profile(profiles, fallback), env);
    let other = "default"@.push('x');
    assert(other.len() != "default"@.len());
    crate::name_map::law_set_entry_is_read_back(profiles, "default"@, settings, other);
}

} // verus!
