//! The kinds of agents: what each is told, which tools it has, and the state that it keeps.

use vstd::prelude::*;

use crate::agent::{
    kind_text, law_kinds_have_names_of_their_own, parse_agent_kind, prompt_profile, system_prompt, AgentKind,
    AgentState, Message, MessageToolCall, ToolCallAgentRuntime, ToolChoice,
    DEFAULT_DUPLICATE_THRESHOLD, DEFAULT_MAX_AGENT_STEPS, DEFAULT_MEMORY_LIMIT, NEXT_STEP_PROMPT,
};
use crate::deep::{copy_strings, deep, group_deep, one};
use crate::json::{group_json, Json, JsonModel};
use crate::name_map::{names_of, with_entry, without_entry, NameMap};
use crate::number::{decimal, number_text};
use crate::table::value_of;
use crate::text::{
    begins_with, blank, concat2, concat3, contains_text, is_blank, same, starts_with,
};

verus! {

broadcast use {group_deep, group_json};

/// The beginning of the names of tools that a server offers.
pub const MCP_DYNAMIC_TOOL_PREFIX: &'static str = "rust_mcp_";

/// The tool that ends a run.
pub const TERMINATE_TOOL_NAME: &'static str = "rust_terminate";

/// What a kind of agent is.
#[derive(Debug, PartialEq, Eq)]
pub struct AgentSpec {
    pub key: String,
    pub name: String,
    pub description: String,
    pub kind: AgentKind,
    pub system_prompt: String,
    pub next_step_prompt: String,
    pub max_steps: u32,
    pub max_observe: Option<usize>,
    pub tool_names: Vec<String>,
    pub special_tool_names: Vec<String>,
    pub uses_browser_context: bool,
    pub uses_mcp: bool,
    pub uses_sandbox: bool,
}

pub struct SpecModel {
    pub key: Seq<char>,
    pub name: Seq<char>,
    pub description: Seq<char>,
    pub kind: AgentKind,
    pub system_prompt: Seq<char>,
    pub next_step_prompt: Seq<char>,
    pub max_steps: u32,
    pub max_observe: Option<usize>,
    pub tool_names: Seq<Seq<char>>,
    pub special_tool_names: Seq<Seq<char>>,
    pub uses_browser_context: bool,
    pub uses_mcp: bool,
    pub uses_sandbox: bool,
}

impl DeepView for AgentSpec {
    type V = SpecModel;

    open spec fn deep_view(&self) -> SpecModel {
        SpecModel {
            key: self.key@,
            name: self.name@,
            description: self.description@,
            kind: self.kind,
            system_prompt: self.system_prompt@,
            next_step_prompt: self.next_step_prompt@,
            max_steps: self.max_steps,
            max_observe: self.max_observe,
            tool_names: deep(self.tool_names@),
            special_tool_names: deep(self.special_tool_names@),
            uses_browser_context: self.uses_browser_context,
            uses_mcp: self.uses_mcp,
            uses_sandbox: self.uses_sandbox,
        }
    }
}

impl Clone for AgentSpec {
    fn clone(&self) -> (r: Self)
        ensures
            r.deep_view() == self.deep_view(),
    {
        AgentSpec {
            key: self.key.clone(),
            name: self.name.clone(),
            description: self.description.clone(),
            kind: self.kind,
            system_prompt: self.system_prompt.clone(),
            next_step_prompt: self.next_step_prompt.clone(),
            max_steps: self.max_steps,
            max_observe: self.max_observe,
            tool_names: copy_strings(&self.tool_names),
            special_tool_names: copy_strings(&self.special_tool_names),
            uses_browser_context: self.uses_browser_context,
            uses_mcp: self.uses_mcp,
            uses_sandbox: self.uses_sandbox,
        }
    }
}

// ---- the kinds ----

pub open spec fn key_text(kind: AgentKind) -> Seq<char> {
    match kind {
        AgentKind::Manus => "manus"@,
        AgentKind::Browser => "browser"@,
        AgentKind::DataAnalysis => "data_analysis"@,
        AgentKind::Swe => "swe"@,
        AgentKind::Mcp => "mcp_agent"@,
        AgentKind::SandboxManus => "sandbox_manus"@,
    }
}

pub open spec fn name_text(kind: AgentKind) -> Seq<char> {
    match kind {
        AgentKind::Manus => "Manus"@,
        AgentKind::Browser => "browser"@,
        AgentKind::DataAnalysis => "Data_Analysis"@,
        AgentKind::Swe => "swe"@,
        AgentKind::Mcp => "mcp_agent"@,
        AgentKind::SandboxManus => "SandboxManus"@,
    }
}

pub open spec fn description_text(kind: AgentKind) -> Seq<char> {
    match kind {
        AgentKind::Manus =>
            "A versatile agent that can solve tasks with local, browser, data, and MCP tools."@,
        AgentKind::Browser => "A browser agent that can inspect and control web pages."@,
        AgentKind::DataAnalysis =>
            "An analytical agent for Python execution, data preparation, and charts."@,
        AgentKind::Swe => "An autonomous programmer that edits and verifies a repository."@,
        AgentKind::Mcp => "An agent that connects to an MCP server and uses its live tools."@,
        AgentKind::SandboxManus =>
            "A general-purpose agent using task-scoped sandbox tools and MCP."@,
    }
}

/// How much of a tool's output a kind of agent observes.
pub open spec fn observe_limit(kind: AgentKind) -> Option<usize> {
    match kind {
        AgentKind::Manus | AgentKind::Browser | AgentKind::SandboxManus => Some(10000usize),
        AgentKind::DataAnalysis => Some(15000usize),
        AgentKind::Swe | AgentKind::Mcp => None,
    }
}

/// The tools of a kind of agent.
pub open spec fn tools_of(kind: AgentKind) -> Seq<Seq<char>> {
    match kind {
        AgentKind::Manus => seq![
            "rust_python_execute"@,
            "rust_browser_use"@,
            "rust_str_replace_editor"@,
            "rust_ask_human"@,
            "rust_mcp"@,
            "rust_terminate"@,
        ],
        AgentKind::Browser => seq!["rust_browser_use"@, "rust_terminate"@],
        AgentKind::DataAnalysis => seq![
            "rust_python_execute"@,
            "rust_visualization_preparation"@,
            "rust_data_visualization"@,
            "rust_data_analysis"@,
            "rust_terminate"@,
        ],
        AgentKind::Swe => seq!["rust_code"@, "rust_bash"@, "rust_terminate"@],
        AgentKind::Mcp => seq!["rust_mcp"@, "rust_terminate"@],
        AgentKind::SandboxManus => seq![
            "rust_ask_human"@,
            "rust_sandbox_files"@,
            "rust_sandbox_shell"@,
            "rust_sandbox_browser"@,
            "rust_sandbox_vision"@,
            "rust_mcp"@,
            "rust_terminate"@,
        ],
    }
}

/// What a kind of agent is when it works in `workspace`.
pub open spec fn spec_of(kind: AgentKind, workspace: Seq<char>) -> SpecModel {
    SpecModel {
        key: key_text(kind),
        name: name_text(kind),
        description: description_text(kind),
        kind,
        system_prompt: system_prompt(kind, workspace),
        next_step_prompt: if kind == AgentKind::Swe {
            Seq::empty()
        } else {
            NEXT_STEP_PROMPT@
        },
        max_steps: DEFAULT_MAX_AGENT_STEPS,
        max_observe: observe_limit(kind),
        tool_names: tools_of(kind),
        special_tool_names: seq!["rust_terminate"@],
        uses_browser_context: kind == AgentKind::Manus || kind == AgentKind::Browser || kind
            == AgentKind::SandboxManus,
        uses_mcp: kind == AgentKind::Manus || kind == AgentKind::Mcp || kind
            == AgentKind::SandboxManus,
        uses_sandbox: kind == AgentKind::SandboxManus,
    }
}

fn add_name(names: Vec<String>, name: &str) -> (r: Vec<String>)
    ensures
        deep(r@) == deep(names@).push(name@),
{
    let mut r = names;
    r.push(name.to_owned());
    r
}

fn tool_list(kind: AgentKind) -> (r: Vec<String>)
    ensures
        deep(r@) == tools_of(kind),
{
    let none: Vec<String> = Vec::new();
    let r = match kind {
        AgentKind::Manus => {
            let r = add_name(none, "rust_python_execute");
            let r = add_name(r, "rust_browser_use");
            let r = add_name(r, "rust_str_replace_editor");
            let r = add_name(r, "rust_ask_human");
            add_name(r, "rust_mcp")
        },
        AgentKind::Browser => add_name(none, "rust_browser_use"),
        AgentKind::DataAnalysis => {
            let r = add_name(none, "rust_python_execute");
            let r = add_name(r, "rust_visualization_preparation");
            let r = add_name(r, "rust_data_visualization");
            add_name(r, "rust_data_analysis")
        },
        AgentKind::Swe => {
            let r = add_name(none, "rust_code");
            add_name(r, "rust_bash")
        },
        AgentKind::Mcp => add_name(none, "rust_mcp"),
        AgentKind::SandboxManus => {
            let r = add_name(none, "rust_ask_human");
            let r = add_name(r, "rust_sandbox_files");
            let r = add_name(r, "rust_sandbox_shell");
            let r = add_name(r, "rust_sandbox_browser");
            let r = add_name(r, "rust_sandbox_vision");
            add_name(r, "rust_mcp")
        },
    };
    let all = add_name(r, "rust_terminate");
    proof {
        assert(deep(all@) =~= tools_of(kind));
    }
    all
}

/// Whether a name is one of a tool of the library.
pub open spec fn is_own_tool(name: Seq<char>) -> bool {
    begins_with(name, "rust_"@)
}

/// What is wrong with a kind of agent, if anything is.
pub open spec fn spec_fault(spec: SpecModel) -> Option<Seq<char>> {
    if is_blank(spec.key) || is_blank(spec.name) {
        Some("Agent key and name must not be empty."@)
    } else if spec.max_steps == 0 {
        Some("Agent max_steps must be greater than zero."@)
    } else if exists|i: int|
        0 <= i < spec.tool_names.len() && !is_own_tool(#[trigger] spec.tool_names[i]) {
        Some("All agent tools must use the rust_ prefix."@)
    } else if exists|i: int|
        0 <= i < spec.special_tool_names.len() && !is_own_tool(
            #[trigger] spec.special_tool_names[i],
        ) {
        Some("All agent tools must use the rust_ prefix."@)
    } else {
        None
    }
}

/// Whether an agent may use the tool.
pub open spec fn allowed(spec: SpecModel, name: Seq<char>) -> bool {
    if name == TERMINATE_TOOL_NAME@ {
        true
    } else if begins_with(name, MCP_DYNAMIC_TOOL_PREFIX@) {
        spec.uses_mcp
    } else if begins_with(name, "rust_sandbox_"@) && !spec.uses_sandbox {
        false
    } else if name == "rust_mcp"@ && !spec.uses_mcp {
        false
    } else {
        spec.tool_names.contains(name) || spec.special_tool_names.contains(name)
    }
}

fn all_own_tools(names: &Vec<String>) -> (r: bool)
    ensures
        r == !(exists|i: int| 0 <= i < names@.len() && !is_own_tool(#[trigger] deep(names@)[i])),
{
    let mut i: usize = 0;
    while i < names.len()
        invariant
            i <= names@.len(),
            forall|k: int| 0 <= k < i ==> is_own_tool(#[trigger] deep(names@)[k]),
        decreases names@.len() - i,
    {
        proof {
            assert(deep(names@)[i as int] == names@[i as int]@);
        }
        if !starts_with(&names[i], "rust_") {
            return false;
        }
        i += 1;
    }
    true
}

/// The kinds of agents.
pub open spec fn all_kinds() -> Seq<AgentKind> {
    seq![
        AgentKind::Manus,
        AgentKind::Browser,
        AgentKind::DataAnalysis,
        AgentKind::Swe,
        AgentKind::Mcp,
        AgentKind::SandboxManus,
    ]
}

impl AgentSpec {
    /// What a kind of agent is when it works in `workspace`.
    pub fn for_kind(kind: AgentKind, workspace: &str) -> (r: Self)
        ensures
            r.deep_view() == spec_of(kind, workspace@),
    {
        let (system_prompt, next_step_prompt) = prompt_profile(kind, workspace);
        let (key, name, description) = match kind {
            AgentKind::Manus => (
                "manus",
                "Manus",
                "A versatile agent that can solve tasks with local, browser, data, and MCP tools.",
            ),
            AgentKind::Browser => (
                "browser",
                "browser",
                "A browser agent that can inspect and control web pages.",
            ),
            AgentKind::DataAnalysis => (
                "data_analysis",
                "Data_Analysis",
                "An analytical agent for Python execution, data preparation, and charts.",
            ),
            AgentKind::Swe => (
                "swe",
                "swe",
                "An autonomous programmer that edits and verifies a repository.",
            ),
            AgentKind::Mcp => (
                "mcp_agent",
                "mcp_agent",
                "An agent that connects to an MCP server and uses its live tools.",
            ),
            AgentKind::SandboxManus => (
                "sandbox_manus",
                "SandboxManus",
                "A general-purpose agent using task-scoped sandbox tools and MCP.",
            ),
        };
        let max_observe: Option<usize> = match kind {
            AgentKind::Manus | AgentKind::Browser | AgentKind::SandboxManus => Some(10000),
            AgentKind::DataAnalysis => Some(15000),
            AgentKind::Swe | AgentKind::Mcp => None,
        };
        AgentSpec {
            key: key.to_owned(),
            name: name.to_owned(),
            description: description.to_owned(),
            kind,
            system_prompt,
            next_step_prompt: if kind == AgentKind::Swe {
                String::new()
            } else {
                next_step_prompt
            },
            max_steps: DEFAULT_MAX_AGENT_STEPS,
            max_observe,
            tool_names: tool_list(kind),
            special_tool_names: one("rust_terminate".to_owned()),
            uses_browser_context: kind == AgentKind::Manus || kind == AgentKind::Browser || kind
                == AgentKind::SandboxManus,
            uses_mcp: kind == AgentKind::Manus || kind == AgentKind::Mcp || kind
                == AgentKind::SandboxManus,
            uses_sandbox: kind == AgentKind::SandboxManus,
        }
    }

    /// All kinds of agents.
    pub fn all(workspace: &str) -> (r: Vec<Self>)
        ensures
            deep(r@) == all_kinds().map_values(|kind: AgentKind| spec_of(kind, workspace@)),
    {
        let mut r: Vec<AgentSpec> = Vec::new();
        r.push(AgentSpec::for_kind(AgentKind::Manus, workspace));
        r.push(AgentSpec::for_kind(AgentKind::Browser, workspace));
        r.push(AgentSpec::for_kind(AgentKind::DataAnalysis, workspace));
        r.push(AgentSpec::for_kind(AgentKind::Swe, workspace));
        r.push(AgentSpec::for_kind(AgentKind::Mcp, workspace));
        r.push(AgentSpec::for_kind(AgentKind::SandboxManus, workspace));
        proof {
            assert(deep(r@) =~= all_kinds().map_values(
                |kind: AgentKind| spec_of(kind, workspace@),
            ));
        }
        r
    }

    /// Whether the agent can be used.
    pub fn validate(&self) -> (r: Result<(), String>)
        ensures
            match spec_fault(self.deep_view()) {
                Some(error) => r is Err && r->Err_0@ == error,
                None => r is Ok,
            },
    {
        proof {
            let model = self.deep_view();
            assert(model.tool_names.len() == self.tool_names@.len());
            assert(model.special_tool_names.len() == self.special_tool_names@.len());
        }
        if blank(&self.key) || blank(&self.name) {
            return Err("Agent key and name must not be empty.".to_owned());
        }
        if self.max_steps == 0 {
            return Err("Agent max_steps must be greater than zero.".to_owned());
        }
        if !all_own_tools(&self.tool_names) || !all_own_tools(&self.special_tool_names) {
            return Err("All agent tools must use the rust_ prefix.".to_owned());
        }
        Ok(())
    }

    /// Whether the agent may use the tool.
    pub fn allows_tool(&self, name: &str) -> (r: bool)
        ensures
            r == allowed(self.deep_view(), name@),
    {
        if same(name, TERMINATE_TOOL_NAME) {
            return true;
        }
        if starts_with(name, MCP_DYNAMIC_TOOL_PREFIX) {
            return self.uses_mcp;
        }
        if starts_with(name, "rust_sandbox_") && !self.uses_sandbox {
            return false;
        }
        if same(name, "rust_mcp") && !self.uses_mcp {
            return false;
        }
        contains_text(&self.tool_names, name) || contains_text(&self.special_tool_names, name)
    }
}

proof fn lemma_own(name: Seq<char>)
    requires
        name.len() > 5,
        name[0] == 'r',
        name[1] == 'u',
        name[2] == 's',
        name[3] == 't',
        name[4] == '_',
    ensures
        is_own_tool(name),
{
    reveal_strlit("rust_");
    assert(name.take(5) =~= "rust_"@);
}

/// Every kind of agent can be used as it is.
pub proof fn law_kinds_are_usable(kind: AgentKind, workspace: Seq<char>)
    ensures
        spec_fault(spec_of(kind, workspace)) is None,
{
    reveal_strlit("manus");
    reveal_strlit("browser");
    reveal_strlit("data_analysis");
    reveal_strlit("swe");
    reveal_strlit("mcp_agent");
    reveal_strlit("sandbox_manus");
    reveal_strlit("Manus");
    reveal_strlit("Data_Analysis");
    reveal_strlit("SandboxManus");
    reveal_strlit("rust_python_execute");
    reveal_strlit("rust_browser_use");
    reveal_strlit("rust_str_replace_editor");
    reveal_strlit("rust_ask_human");
    reveal_strlit("rust_mcp");
    reveal_strlit("rust_terminate");
    reveal_strlit("rust_visualization_preparation");
    reveal_strlit("rust_data_visualization");
    reveal_strlit("rust_data_analysis");
    reveal_strlit("rust_code");
    reveal_strlit("rust_bash");
    reveal_strlit("rust_sandbox_files");
    reveal_strlit("rust_sandbox_shell");
    reveal_strlit("rust_sandbox_browser");
    reveal_strlit("rust_sandbox_vision");
    let spec = spec_of(kind, workspace);
    assert(!crate::text::is_space(spec.key[0]));
    assert(!crate::text::is_space(spec.name[0]));
    assert forall|i: int| 0 <= i < spec.tool_names.len() implies is_own_tool(
        #[trigger] spec.tool_names[i],
    ) by {
        lemma_own(spec.tool_names[i]);
    }
    assert forall|i: int| 0 <= i < spec.special_tool_names.len() implies is_own_tool(
        #[trigger] spec.special_tool_names[i],
    ) by {
        lemma_own(spec.special_tool_names[i]);
    }
}

/// Every agent may end its run; the tools of a server are for agents that are connected to one,
/// and those of a sandbox for agents that run in one.
pub proof fn law_tools_are_for_those_who_have_them(spec: SpecModel, name: Seq<char>)
    ensures
        allowed(spec, TERMINATE_TOOL_NAME@),
        allowed(spec, name) && begins_with(name, MCP_DYNAMIC_TOOL_PREFIX@) ==> spec.uses_mcp,
        allowed(spec, name) && begins_with(name, "rust_sandbox_"@) ==> spec.uses_sandbox,
{
    reveal_strlit("rust_terminate");
    reveal_strlit("rust_mcp_");
    reveal_strlit("rust_sandbox_");
    if begins_with(name, MCP_DYNAMIC_TOOL_PREFIX@) {
        assert(name.take(9)[5] == name[5]);
    }
    if begins_with(name, "rust_sandbox_"@) {
        assert(name.take(13)[5] == name[5]);
        if begins_with(name, MCP_DYNAMIC_TOOL_PREFIX@) {
            assert(name.take(9)[5] == name[5]);
        }
        assert(TERMINATE_TOOL_NAME@[5] == 't');
    }
    if begins_with(name, MCP_DYNAMIC_TOOL_PREFIX@) && name == TERMINATE_TOOL_NAME@ {
        assert(TERMINATE_TOOL_NAME@[5] == 't');
    }
}

// ---- runtimes ----

/// The runtime of an agent that reasons and acts in turn.
#[derive(Debug, PartialEq, Eq)]
pub struct ReActAgentRuntime {
    pub tool_agent: ToolCallAgentRuntime,
}

/// Whether a runtime is a new one for the kind of agent.
pub open spec fn is_fresh_runtime(runtime: ReActAgentRuntime, spec: SpecModel) -> bool {
    let agent = runtime.tool_agent;
    &&& agent.base.name@ == spec.name
    &&& agent.base.description@ == spec.description
    &&& agent.base.system_prompt@ == spec.system_prompt
    &&& agent.base.next_step_prompt@ == spec.next_step_prompt
    &&& agent.base.state == AgentState::Idle
    &&& agent.base.max_steps == spec.max_steps
    &&& agent.base.current_step == 0
    &&& agent.base.memory.messages@ == Seq::<Message>::empty()
    &&& agent.base.memory.max_messages == DEFAULT_MEMORY_LIMIT
    &&& agent.base.duplicate_threshold == DEFAULT_DUPLICATE_THRESHOLD
    &&& agent.tool_choice == ToolChoice::Auto
    &&& agent.max_observe == spec.max_observe
    &&& deep(agent.special_tool_names@) == spec.special_tool_names
    &&& agent.tool_calls@ == Seq::<MessageToolCall>::empty()
}

fn runtime_for(spec: &AgentSpec) -> (r: ReActAgentRuntime)
    ensures
        is_fresh_runtime(r, spec.deep_view()),
{
    let mut agent = ToolCallAgentRuntime::new(spec.name.clone(), spec.system_prompt.clone());
    agent.base.description = spec.description.clone();
    agent.base.next_step_prompt = spec.next_step_prompt.clone();
    agent.base.max_steps = spec.max_steps;
    agent.max_observe = spec.max_observe;
    agent.special_tool_names = copy_strings(&spec.special_tool_names);
    ReActAgentRuntime { tool_agent: agent }
}

/// What every agent has: what it is, and its runtime.
pub trait AgentProfile: Sized {
    /// What the agent is.
    spec fn profile(&self) -> SpecModel;

    /// The runtime of the agent.
    spec fn running(&self) -> ReActAgentRuntime;

    /// The agent with another runtime, and all else as it is.
    spec fn with_runtime(&self, runtime: ReActAgentRuntime) -> Self;

    fn spec(&self) -> (r: &AgentSpec)
        ensures
            r.deep_view() == self.profile(),
    ;

    fn runtime(&self) -> (r: &ReActAgentRuntime)
        ensures
            *r == self.running(),
    ;

    fn runtime_mut(&mut self) -> (r: &mut ReActAgentRuntime)
        ensures
            *r == old(self).running(),
            final(self).running() == *final(r),
            final(self).profile() == old(self).profile(),
            *final(self) == old(self).with_runtime(*final(r)),
    ;

    fn kind(&self) -> (r: AgentKind)
        ensures
            r == self.profile().kind,
    {
        self.spec().kind
    }

    fn name(&self) -> (r: &str)
        ensures
            r@ == self.profile().name,
    {
        self.spec().name.as_str()
    }

    fn description(&self) -> (r: &str)
        ensures
            r@ == self.profile().description,
    {
        self.spec().description.as_str()
    }
}

/// The general agent. It can be connected to servers.
#[derive(Debug, PartialEq, Eq)]
pub struct ManusAgent {
    pub spec: AgentSpec,
    pub runtime: ReActAgentRuntime,
    pub connected_servers: NameMap<String>,
    pub initialized: bool,
}

impl ManusAgent {
    pub fn new(workspace: &str) -> (r: Self)
        ensures
            r.spec.deep_view() == spec_of(AgentKind::Manus, workspace@),
            is_fresh_runtime(r.runtime, r.spec.deep_view()),
            r.connected_servers.deep_view() == Seq::<(Seq<char>, Seq<char>)>::empty(),
            !r.initialized,
    {
        let spec = AgentSpec::for_kind(AgentKind::Manus, workspace);
        ManusAgent {
            runtime: runtime_for(&spec),
            spec,
            connected_servers: NameMap::new(),
            initialized: false,
        }
    }

    pub fn connect_mcp_server(&mut self, server_id: &str, endpoint: &str)
        ensures
            final(self).connected_servers.deep_view() == with_entry(
                old(self).connected_servers.deep_view(),
                server_id@,
                endpoint@,
            ),
            final(self).initialized,
            final(self).spec == old(self).spec,
            final(self).runtime == old(self).runtime,
            old(self).connected_servers.wf() ==> final(self).connected_servers.wf(),
    {
        self.connected_servers.insert(server_id, endpoint.to_owned());
        self.initialized = true;
    }

    /// Ends the connection to a server, or to all where none is named.
    pub fn disconnect_mcp_server(&mut self, server_id: Option<&str>)
        ensures
            final(self).connected_servers.deep_view() == match server_id {
                Some(id) => without_entry(old(self).connected_servers.deep_view(), id@),
                None => Seq::empty(),
            },
            final(self).initialized == (final(self).connected_servers.deep_view().len() > 0),
            final(self).spec == old(self).spec,
            final(self).runtime == old(self).runtime,
            old(self).connected_servers.wf() ==> final(self).connected_servers.wf(),
    {
        match server_id {
            Some(id) => {
                self.connected_servers.remove(id);
            },
            None => {
                self.connected_servers.clear();
            },
        }
        self.initialized = !self.connected_servers.is_empty();
    }
}

impl AgentProfile for ManusAgent {
    open spec fn profile(&self) -> SpecModel {
        self.spec.deep_view()
    }

    open spec fn running(&self) -> ReActAgentRuntime {
        self.runtime
    }

    open spec fn with_runtime(&self, runtime: ReActAgentRuntime) -> Self {
        ManusAgent { runtime, ..*self }
    }

    fn spec(&self) -> (r: &AgentSpec) {
        &self.spec
    }

    fn runtime(&self) -> (r: &ReActAgentRuntime) {
        &self.runtime
    }

    fn runtime_mut(&mut self) -> (r: &mut ReActAgentRuntime)
        ensures
            *final(self) == (ManusAgent { runtime: *final(r), ..*old(self) }),
    {
        &mut self.runtime
    }
}

/// What a browser agent is told of the page, and a picture of it.
#[derive(Debug, PartialEq, Eq)]
pub struct BrowserContextHelper {
    pub current_base64_image: Option<String>,
}

/// A line of a prompt; nothing where the text is not there.
pub open spec fn text_line(lead: Seq<char>, text: Option<Seq<char>>) -> Seq<char> {
    match text {
        Some(text) => lead + text,
        None => Seq::empty(),
    }
}

/// A line of a prompt that says how many items there are; nothing where there is no list.
pub open spec fn count_line(items: Option<Seq<JsonModel>>, tail: Seq<char>) -> Seq<char> {
    match items {
        Some(items) => "\n"@ + decimal(items.len()) + tail,
        None => Seq::empty(),
    }
}

/// What a browser agent is told before its next step.
pub open spec fn browser_prompt(state: Option<JsonModel>) -> Seq<char> {
    let lead = "Inspect the current browser state before acting."@;
    match state {
        None => lead,
        Some(state) => lead + text_line("\nURL: "@, state.text("url"@)) + text_line(
            "\nTitle: "@,
            state.text("title"@),
        ) + count_line(state.items("tabs"@), " tab(s) available."@) + count_line(
            state.items("interactive_elements"@),
            " indexed element(s) available."@,
        ),
    }
}

fn write_text_line(lead: &str, text: Option<&String>) -> (r: String)
    ensures
        r@ == text_line(
            lead@,
            match text {
                Some(text) => Some(text@),
                None => None,
            },
        ),
{
    match text {
        Some(text) => concat2(lead, text),
        None => String::new(),
    }
}

fn write_count_line(items: Option<&Vec<Json>>, tail: &str) -> (r: String)
    ensures
        r@ == count_line(
            match items {
                Some(items) => Some(deep(items@)),
                None => None,
            },
            tail@,
        ),
{
    match items {
        Some(items) => {
            proof {
                assert(deep(items@).len() == items@.len());
            }
            concat3("\n", &number_text(items.len() as u64), tail)
        },
        None => String::new(),
    }
}

impl BrowserContextHelper {
    pub fn new() -> (r: Self)
        ensures
            r.current_base64_image is None,
    {
        BrowserContextHelper { current_base64_image: None }
    }

    /// What a browser agent is told before its next step.
    pub fn format_next_step_prompt(&self, state: Option<&Json>) -> (r: String)
        ensures
            r@ == browser_prompt(
                match state {
                    Some(state) => Some(state.deep_view()),
                    None => None,
                },
            ),
    {
        let mut prompt = "Inspect the current browser state before acting.".to_owned();
        if let Some(state) = state {
            prompt.append(&write_text_line("\nURL: ", state.text("url")));
            prompt.append(&write_text_line("\nTitle: ", state.text("title")));
            prompt.append(&write_count_line(state.items("tabs"), " tab(s) available."));
            prompt.append(
                &write_count_line(
                    state.items("interactive_elements"),
                    " indexed element(s) available.",
                ),
            );
        }
        prompt
    }

    pub fn set_image(&mut self, image: Option<String>)
        ensures
            final(self).current_base64_image == image,
    {
        self.current_base64_image = image;
    }

    /// Hands the picture out; it is then gone.
    pub fn take_image(&mut self) -> (r: Option<String>)
        ensures
            r == old(self).current_base64_image,
            final(self).current_base64_image is None,
    {
        self.current_base64_image.take()
    }
}

impl Default for BrowserContextHelper {
    fn default() -> (r: Self)
        ensures
            r.current_base64_image is None,
    {
        BrowserContextHelper::new()
    }
}

/// The agent that works with a browser.
#[derive(Debug, PartialEq, Eq)]
pub struct BrowserAgent {
    pub spec: AgentSpec,
    pub runtime: ReActAgentRuntime,
    pub browser_context_helper: BrowserContextHelper,
}

impl BrowserAgent {
    pub fn new(workspace: &str) -> (r: Self)
        ensures
            r.spec.deep_view() == spec_of(AgentKind::Browser, workspace@),
            is_fresh_runtime(r.runtime, r.spec.deep_view()),
            r.browser_context_helper.current_base64_image is None,
    {
        let spec = AgentSpec::for_kind(AgentKind::Browser, workspace);
        BrowserAgent {
            runtime: runtime_for(&spec),
            spec,
            browser_context_helper: BrowserContextHelper::new(),
        }
    }

    /// Tells the agent of the page before its next step.
    pub fn update_browser_prompt(&mut self, state: Option<&Json>)
        ensures
            final(self).runtime.tool_agent.base.next_step_prompt@ == browser_prompt(
                match state {
                    Some(state) => Some(state.deep_view()),
                    None => None,
                },
            ),
            final(self).runtime.tool_agent == (ToolCallAgentRuntime {
                base: crate::agent::BaseAgentRuntime {
                    next_step_prompt: final(self).runtime.tool_agent.base.next_step_prompt,
                    ..old(self).runtime.tool_agent.base
                },
                ..old(self).runtime.tool_agent
            }),
            final(self).spec == old(self).spec,
            final(self).browser_context_helper == old(self).browser_context_helper,
    {
        self.runtime.tool_agent.base.next_step_prompt =
        self.browser_context_helper.format_next_step_prompt(state);
    }
}

impl AgentProfile for BrowserAgent {
    open spec fn profile(&self) -> SpecModel {
        self.spec.deep_view()
    }

    open spec fn running(&self) -> ReActAgentRuntime {
        self.runtime
    }

    open spec fn with_runtime(&self, runtime: ReActAgentRuntime) -> Self {
        BrowserAgent { runtime, ..*self }
    }

    fn spec(&self) -> (r: &AgentSpec) {
        &self.spec
    }

    fn runtime(&self) -> (r: &ReActAgentRuntime) {
        &self.runtime
    }

    fn runtime_mut(&mut self) -> (r: &mut ReActAgentRuntime)
        ensures
            *final(self) == (BrowserAgent { runtime: *final(r), ..*old(self) }),
    {
        &mut self.runtime
    }
}

/// The agent that analyses data.
#[derive(Debug, PartialEq, Eq)]
pub struct DataAnalysisAgent {
    pub spec: AgentSpec,
    pub runtime: ReActAgentRuntime,
}

impl DataAnalysisAgent {
    pub fn new(workspace: &str) -> (r: Self)
        ensures
            r.spec.deep_view() == spec_of(AgentKind::DataAnalysis, workspace@),
            is_fresh_runtime(r.runtime, r.spec.deep_view()),
    {
        let spec = AgentSpec::for_kind(AgentKind::DataAnalysis, workspace);
        DataAnalysisAgent { runtime: runtime_for(&spec), spec }
    }
}

impl AgentProfile for DataAnalysisAgent {
    open spec fn profile(&self) -> SpecModel {
        self.spec.deep_view()
    }

    open spec fn running(&self) -> ReActAgentRuntime {
        self.runtime
    }

    open spec fn with_runtime(&self, runtime: ReActAgentRuntime) -> Self {
        DataAnalysisAgent { runtime, ..*self }
    }

    fn spec(&self) -> (r: &AgentSpec) {
        &self.spec
    }

    fn runtime(&self) -> (r: &ReActAgentRuntime) {
        &self.runtime
    }

    fn runtime_mut(&mut self) -> (r: &mut ReActAgentRuntime)
        ensures
            *final(self) == (DataAnalysisAgent { runtime: *final(r), ..*old(self) }),
    {
        &mut self.runtime
    }
}

/// The agent that writes programs.
#[derive(Debug, PartialEq, Eq)]
pub struct SweAgent {
    pub spec: AgentSpec,
    pub runtime: ReActAgentRuntime,
}

impl SweAgent {
    pub fn new(workspace: &str) -> (r: Self)
        ensures
            r.spec.deep_view() == spec_of(AgentKind::Swe, workspace@),
            is_fresh_runtime(r.runtime, r.spec.deep_view()),
    {
        let spec = AgentSpec::for_kind(AgentKind::Swe, workspace);
        SweAgent { runtime: runtime_for(&spec), spec }
    }
}

impl AgentProfile for SweAgent {
    open spec fn profile(&self) -> SpecModel {
        self.spec.deep_view()
    }

    open spec fn running(&self) -> ReActAgentRuntime {
        self.runtime
    }

    open spec fn with_runtime(&self, runtime: ReActAgentRuntime) -> Self {
        SweAgent { runtime, ..*self }
    }

    fn spec(&self) -> (r: &AgentSpec) {
        &self.spec
    }

    fn runtime(&self) -> (r: &ReActAgentRuntime) {
        &self.runtime
    }

    fn runtime_mut(&mut self) -> (r: &mut ReActAgentRuntime)
        ensures
            *final(self) == (SweAgent { runtime: *final(r), ..*old(self) }),
    {
        &mut self.runtime
    }
}

/// The agent that uses the tools of a server.
#[derive(Debug, PartialEq, Eq)]
pub struct McpAgent {
    pub spec: AgentSpec,
    pub runtime: ReActAgentRuntime,
    pub connection_type: String,
    pub tool_schemas: NameMap<Json>,
    pub refresh_tools_interval: u32,
}

/// The names of the first list that are not in the second.
pub open spec fn names_missing<V>(
    names: Seq<Seq<char>>,
    list: Seq<(Seq<char>, V)>,
) -> Seq<Seq<char>>
    decreases names.len(),
{
    if names.len() == 0 {
        Seq::empty()
    } else if value_of(list, names.last()) is Some {
        names_missing(names.drop_last(), list)
    } else {
        names_missing(names.drop_last(), list).push(names.last())
    }
}

fn missing_names(names: &Vec<String>, map: &NameMap<Json>) -> (r: Vec<String>)
    ensures
        deep(r@) == names_missing(deep(names@), map.deep_view()),
{
    let ghost models = deep(names@);
    let mut r: Vec<String> = Vec::new();
    let mut i: usize = 0;
    proof {
        assert(models.take(0) =~= Seq::<Seq<char>>::empty());
        assert(deep(r@) =~= Seq::<Seq<char>>::empty());
    }
    while i < names.len()
        invariant
            models == deep(names@),
            i <= names@.len(),
            deep(r@) == names_missing(models.take(i as int), map.deep_view()),
        decreases names@.len() - i,
    {
        proof {
            assert(models.take(i + 1).drop_last() =~= models.take(i as int));
            assert(models.take(i + 1).last() == names@[i as int]@);
        }
        if !map.contains_key(&names[i]) {
            r.push(names[i].clone());
        }
        i += 1;
    }
    proof {
        assert(models.take(models.len() as int) =~= models);
    }
    r
}

impl McpAgent {
    pub fn new(workspace: &str) -> (r: Self)
        ensures
            r.spec.deep_view() == spec_of(AgentKind::Mcp, workspace@),
            is_fresh_runtime(r.runtime, r.spec.deep_view()),
            r.connection_type@ == "stdio"@,
            r.tool_schemas.deep_view() == Seq::<(Seq<char>, JsonModel)>::empty(),
            r.refresh_tools_interval == 5,
    {
        let spec = AgentSpec::for_kind(AgentKind::Mcp, workspace);
        McpAgent {
            runtime: runtime_for(&spec),
            spec,
            connection_type: "stdio".to_owned(),
            tool_schemas: NameMap::new(),
            refresh_tools_interval: 5,
        }
    }

    /// Sets how the server is reached.
    pub fn initialize(&mut self, connection_type: &str) -> (r: Result<(), String>)
        ensures
            if connection_type@ == "stdio"@ || connection_type@ == "sse"@ || connection_type@
                == "http"@ {
                &&& r is Ok
                &&& final(self).connection_type@ == connection_type@
                &&& *final(self) == (McpAgent {
                    connection_type: final(self).connection_type,
                    ..*old(self)
                })
            } else {
                &&& r is Err
                &&& r->Err_0@ == "Unsupported MCP connection type: "@ + connection_type@
                &&& *final(self) == *old(self)
            },
    {
        if !same(connection_type, "stdio") && !same(connection_type, "sse") && !same(
            connection_type,
            "http",
        ) {
            return Err(concat2("Unsupported MCP connection type: ", connection_type));
        }
        self.connection_type = connection_type.to_owned();
        Ok(())
    }

    /// Takes the tools that the server offers now, and says which are new and which are gone.
    pub fn refresh_tools(&mut self, schemas: NameMap<Json>) -> (r: (Vec<String>, Vec<String>))
        ensures
            deep(r.0@) == names_missing(
                names_of(schemas.deep_view()),
                old(self).tool_schemas.deep_view(),
            ),
            deep(r.1@) == names_missing(
                names_of(old(self).tool_schemas.deep_view()),
                schemas.deep_view(),
            ),
            *final(self) == (McpAgent { tool_schemas: schemas, ..*old(self) }),
    {
        let added = missing_names(&schemas.keys(), &self.tool_schemas);
        let removed = missing_names(&self.tool_schemas.keys(), &schemas);
        self.tool_schemas = schemas;
        (added, removed)
    }
}

proof fn lemma_names_missing<V>(
    names: Seq<Seq<char>>,
    list: Seq<(Seq<char>, V)>,
    name: Seq<char>,
)
    ensures
        names_missing(names, list).contains(name) <==> names.contains(name) && value_of(list, name)
            is None,
    decreases names.len(),
{
    if names.len() > 0 {
        let head = names.drop_last();
        lemma_names_missing(head, list, name);
        let rest = names_missing(head, list);
        assert(names =~= head.push(names.last()));
        if value_of(list, names.last()) is None {
            let all = rest.push(names.last());
            if rest.contains(name) {
                let k = choose|k: int| 0 <= k < rest.len() && rest[k] == name;
                assert(all[k] == name);
            }
            assert(all[rest.len() as int] == names.last());
        }
        if head.contains(name) {
            let k = choose|k: int| 0 <= k < head.len() && head[k] == name;
            assert(names[k] == name);
        }
        assert(names[names.len() - 1] == names.last());
    }
}

/// A tool is reported as new if and only if the server offers it and did not before, and as gone
/// if and only if it is the other way round.
pub proof fn law_refresh_reports_every_change<V>(
    previous: Seq<(Seq<char>, V)>,
    current: Seq<(Seq<char>, V)>,
    name: Seq<char>,
)
    ensures
        names_missing(names_of(current), previous).contains(name) <==> value_of(current, name)
            is Some && value_of(previous, name) is None,
        names_missing(names_of(previous), current).contains(name) <==> value_of(previous, name)
            is Some && value_of(current, name) is None,
{
    lemma_names_missing(names_of(current), previous, name);
    lemma_names_missing(names_of(previous), current, name);
    lemma_named(current, name);
    lemma_named(previous, name);
}

/// A name is among the names if and only if it has a value.
proof fn lemma_named<V>(list: Seq<(Seq<char>, V)>, name: Seq<char>)
    ensures
        names_of(list).contains(name) <==> value_of(list, name) is Some,
{
    crate::table::lemma_name_index(list, name);
    let i = crate::table::name_index(list, name);
    if i < list.len() {
        assert(names_of(list)[i] == name);
    }
    if names_of(list).contains(name) {
        let k = choose|k: int| 0 <= k < names_of(list).len() && names_of(list)[k] == name;
        assert(list[k].0 == name);
    }
}

impl AgentProfile for McpAgent {
    open spec fn profile(&self) -> SpecModel {
        self.spec.deep_view()
    }

    open spec fn running(&self) -> ReActAgentRuntime {
        self.runtime
    }

    open spec fn with_runtime(&self, runtime: ReActAgentRuntime) -> Self {
        McpAgent { runtime, ..*self }
    }

    fn spec(&self) -> (r: &AgentSpec) {
        &self.spec
    }

    fn runtime(&self) -> (r: &ReActAgentRuntime) {
        &self.runtime
    }

    fn runtime_mut(&mut self) -> (r: &mut ReActAgentRuntime)
        ensures
            *final(self) == (McpAgent { runtime: *final(r), ..*old(self) }),
    {
        &mut self.runtime
    }
}

/// The general agent that works in a sandbox.
#[derive(Debug, PartialEq, Eq)]
pub struct SandboxManusAgent {
    pub spec: AgentSpec,
    pub runtime: ReActAgentRuntime,
    pub sandbox_links: NameMap<NameMap<String>>,
    pub connected_servers: NameMap<String>,
    pub initialized: bool,
}

/// The links of a sandbox.
pub open spec fn links_of(
    links: Seq<(Seq<char>, Seq<(Seq<char>, Seq<char>)>)>,
    sandbox_id: Seq<char>,
) -> Seq<(Seq<char>, Seq<char>)> {
    match value_of(links, sandbox_id) {
        Some(list) => list,
        None => Seq::empty(),
    }
}

fn copy_links(map: &NameMap<String>) -> (r: NameMap<String>)
    ensures
        r.deep_view() == map.deep_view(),
{
    let mut entries: Vec<(String, String)> = Vec::new();
    let mut i: usize = 0;
    while i < map.entries.len()
        invariant
            i <= map.entries@.len(),
            entries@.len() == i,
            forall|k: int| 0 <= k < i ==> #[trigger] deep(entries@)[k] == deep(map.entries@)[k],
        decreases map.entries@.len() - i,
    {
        let entry = (map.entries[i].0.clone(), map.entries[i].1.clone());
        let ghost before = deep(entries@);
        entries.push(entry);
        proof {
            assert(deep(entries@) == before.push(entry.deep_view()));
            assert(deep(map.entries@)[i as int] == map.entries@[i as int].deep_view());
        }
        i += 1;
    }
    proof {
        assert(deep(entries@) =~= deep(map.entries@));
    }
    NameMap { entries }
}

impl SandboxManusAgent {
    pub fn new(workspace: &str) -> (r: Self)
        ensures
            r.spec.deep_view() == spec_of(AgentKind::SandboxManus, workspace@),
            is_fresh_runtime(r.runtime, r.spec.deep_view()),
            r.sandbox_links.deep_view() == Seq::<
                (Seq<char>, Seq<(Seq<char>, Seq<char>)>),
            >::empty(),
            r.connected_servers.deep_view() == Seq::<(Seq<char>, Seq<char>)>::empty(),
            !r.initialized,
    {
        let spec = AgentSpec::for_kind(AgentKind::SandboxManus, workspace);
        SandboxManusAgent {
            runtime: runtime_for(&spec),
            spec,
            sandbox_links: NameMap::new(),
            connected_servers: NameMap::new(),
            initialized: false,
        }
    }

    pub fn add_sandbox_link(&mut self, sandbox_id: &str, kind: &str, url: &str)
        ensures
            final(self).sandbox_links.deep_view() == with_entry(
                old(self).sandbox_links.deep_view(),
                sandbox_id@,
                with_entry(
                    links_of(old(self).sandbox_links.deep_view(), sandbox_id@),
                    kind@,
                    url@,
                ),
            ),
            final(self).initialized,
            final(self).spec == old(self).spec,
            final(self).runtime == old(self).runtime,
            final(self).connected_servers == old(self).connected_servers,
            old(self).sandbox_links.wf() ==> final(self).sandbox_links.wf(),
    {
        let mut links = match self.sandbox_links.get(sandbox_id) {
            Some(links) => copy_links(links),
            None => NameMap::new(),
        };
        links.insert(kind, url.to_owned());
        self.sandbox_links.insert(sandbox_id, links);
        self.initialized = true;
    }

    /// Forgets a sandbox, and says whether it was there.
    pub fn delete_sandbox(&mut self, sandbox_id: &str) -> (r: bool)
        ensures
            r == (value_of(old(self).sandbox_links.deep_view(), sandbox_id@) is Some),
            final(self).sandbox_links.deep_view() == without_entry(
                old(self).sandbox_links.deep_view(),
                sandbox_id@,
            ),
            *final(self) == (SandboxManusAgent {
                sandbox_links: final(self).sandbox_links,
                ..*old(self)
            }),
            old(self).sandbox_links.wf() ==> final(self).sandbox_links.wf(),
    {
        self.sandbox_links.remove(sandbox_id)
    }
}

impl AgentProfile for SandboxManusAgent {
    open spec fn profile(&self) -> SpecModel {
        self.spec.deep_view()
    }

    open spec fn running(&self) -> ReActAgentRuntime {
        self.runtime
    }

    open spec fn with_runtime(&self, runtime: ReActAgentRuntime) -> Self {
        SandboxManusAgent { runtime, ..*self }
    }

    fn spec(&self) -> (r: &AgentSpec) {
        &self.spec
    }

    fn runtime(&self) -> (r: &ReActAgentRuntime) {
        &self.runtime
    }

    fn runtime_mut(&mut self) -> (r: &mut ReActAgentRuntime)
        ensures
            *final(self) == (SandboxManusAgent { runtime: *final(r), ..*old(self) }),
    {
        &mut self.runtime
    }
}

/// An agent of any kind.
#[derive(Debug, PartialEq, Eq)]
pub enum AgentInstance {
    Manus(ManusAgent),
    Browser(BrowserAgent),
    DataAnalysis(DataAnalysisAgent),
    Swe(SweAgent),
    Mcp(McpAgent),
    SandboxManus(SandboxManusAgent),
}

impl AgentInstance {
    /// What the agent is.
    pub open spec fn profile(&self) -> SpecModel {
        match self {
            AgentInstance::Manus(agent) => agent.spec.deep_view(),
            AgentInstance::Browser(agent) => agent.spec.deep_view(),
            AgentInstance::DataAnalysis(agent) => agent.spec.deep_view(),
            AgentInstance::Swe(agent) => agent.spec.deep_view(),
            AgentInstance::Mcp(agent) => agent.spec.deep_view(),
            AgentInstance::SandboxManus(agent) => agent.spec.deep_view(),
        }
    }

    /// The runtime of the agent.
    pub open spec fn running(&self) -> ReActAgentRuntime {
        match self {
            AgentInstance::Manus(agent) => agent.runtime,
            AgentInstance::Browser(agent) => agent.runtime,
            AgentInstance::DataAnalysis(agent) => agent.runtime,
            AgentInstance::Swe(agent) => agent.runtime,
            AgentInstance::Mcp(agent) => agent.runtime,
            AgentInstance::SandboxManus(agent) => agent.runtime,
        }
    }

    /// The agent with another runtime, and all else as it is.
    pub open spec fn with_runtime(&self, runtime: ReActAgentRuntime) -> Self {
        match self {
            AgentInstance::Manus(agent) => AgentInstance::Manus(agent.with_runtime(runtime)),
            AgentInstance::Browser(agent) => AgentInstance::Browser(agent.with_runtime(runtime)),
            AgentInstance::DataAnalysis(agent) => AgentInstance::DataAnalysis(
                agent.with_runtime(runtime),
            ),
            AgentInstance::Swe(agent) => AgentInstance::Swe(agent.with_runtime(runtime)),
            AgentInstance::Mcp(agent) => AgentInstance::Mcp(agent.with_runtime(runtime)),
            AgentInstance::SandboxManus(agent) => AgentInstance::SandboxManus(
                agent.with_runtime(runtime),
            ),
        }
    }

    /// What an agent has besides its runtime is as in a new one: it is connected to nothing, and
    /// knows of no page, tool or sandbox.
    pub open spec fn unconnected(&self) -> bool {
        match self {
            AgentInstance::Manus(agent) => {
                &&& agent.connected_servers.deep_view() == Seq::<(Seq<char>, Seq<char>)>::empty()
                &&& !agent.initialized
            },
            AgentInstance::Browser(agent) => agent.browser_context_helper.current_base64_image
                is None,
            AgentInstance::DataAnalysis(_) => true,
            AgentInstance::Swe(_) => true,
            AgentInstance::Mcp(agent) => {
                &&& agent.connection_type@ == "stdio"@
                &&& agent.tool_schemas.deep_view() == Seq::<(Seq<char>, JsonModel)>::empty()
                &&& agent.refresh_tools_interval == 5
            },
            AgentInstance::SandboxManus(agent) => {
                &&& agent.sandbox_links.deep_view() == Seq::<
                    (Seq<char>, Seq<(Seq<char>, Seq<char>)>),
                >::empty()
                &&& agent.connected_servers.deep_view() == Seq::<(Seq<char>, Seq<char>)>::empty()
                &&& !agent.initialized
            },
        }
    }

    /// Which kind of value it is.
    pub open spec fn variant(&self) -> AgentKind {
        match self {
            AgentInstance::Manus(_) => AgentKind::Manus,
            AgentInstance::Browser(_) => AgentKind::Browser,
            AgentInstance::DataAnalysis(_) => AgentKind::DataAnalysis,
            AgentInstance::Swe(_) => AgentKind::Swe,
            AgentInstance::Mcp(_) => AgentKind::Mcp,
            AgentInstance::SandboxManus(_) => AgentKind::SandboxManus,
        }
    }

    pub fn create(kind: AgentKind, workspace: &str) -> (r: Self)
        ensures
            r.variant() == kind,
            r.profile() == spec_of(kind, workspace@),
            is_fresh_runtime(r.running(), r.profile()),
            r.unconnected(),
    {
        match kind {
            AgentKind::Manus => AgentInstance::Manus(ManusAgent::new(workspace)),
            AgentKind::Browser => AgentInstance::Browser(BrowserAgent::new(workspace)),
            AgentKind::DataAnalysis => AgentInstance::DataAnalysis(
                DataAnalysisAgent::new(workspace),
            ),
            AgentKind::Swe => AgentInstance::Swe(SweAgent::new(workspace)),
            AgentKind::Mcp => AgentInstance::Mcp(McpAgent::new(workspace)),
            AgentKind::SandboxManus => AgentInstance::SandboxManus(
                SandboxManusAgent::new(workspace),
            ),
        }
    }

    pub fn spec(&self) -> (r: &AgentSpec)
        ensures
            r.deep_view() == self.profile(),
    {
        match self {
            AgentInstance::Manus(agent) => agent.spec(),
            AgentInstance::Browser(agent) => agent.spec(),
            AgentInstance::DataAnalysis(agent) => agent.spec(),
            AgentInstance::Swe(agent) => agent.spec(),
            AgentInstance::Mcp(agent) => agent.spec(),
            AgentInstance::SandboxManus(agent) => agent.spec(),
        }
    }

    pub fn runtime(&self) -> (r: &ReActAgentRuntime)
        ensures
            *r == self.running(),
    {
        match self {
            AgentInstance::Manus(agent) => agent.runtime(),
            AgentInstance::Browser(agent) => agent.runtime(),
            AgentInstance::DataAnalysis(agent) => agent.runtime(),
            AgentInstance::Swe(agent) => agent.runtime(),
            AgentInstance::Mcp(agent) => agent.runtime(),
            AgentInstance::SandboxManus(agent) => agent.runtime(),
        }
    }

    pub fn runtime_mut(&mut self) -> (r: &mut ReActAgentRuntime)
        ensures
            *r == old(self).running(),
            final(self).running() == *final(r),
            final(self).profile() == old(self).profile(),
            final(self).variant() == old(self).variant(),
            *final(self) == old(self).with_runtime(*final(r)),
    {
        match self {
            AgentInstance::Manus(agent) => agent.runtime_mut(),
            AgentInstance::Browser(agent) => agent.runtime_mut(),
            AgentInstance::DataAnalysis(agent) => agent.runtime_mut(),
            AgentInstance::Swe(agent) => agent.runtime_mut(),
            AgentInstance::Mcp(agent) => agent.runtime_mut(),
            AgentInstance::SandboxManus(agent) => agent.runtime_mut(),
        }
    }
}

pub type Manus = ManusAgent;

pub type DataAnalysis = DataAnalysisAgent;

pub type SWEAgent = SweAgent;

pub type MCPAgent = McpAgent;

pub type SandboxManus = SandboxManusAgent;

/// Makes agents.
pub struct AgentFactory;

impl AgentFactory {
    pub fn create(kind: AgentKind, workspace: &str) -> (r: AgentInstance)
        ensures
            r.variant() == kind,
            r.profile() == spec_of(kind, workspace@),
            is_fresh_runtime(r.running(), r.profile()),
            r.unconnected(),
    {
        AgentInstance::create(kind, workspace)
    }

    /// An agent of the kind with the name; the general agent where there is no such kind.
    pub fn create_from_name(name: &str, workspace: &str) -> (r: AgentInstance)
        ensures
            forall|kind: AgentKind| #[trigger] kind_text(kind) == name@ ==> r.variant() == kind,
            (forall|kind: AgentKind| #[trigger] kind_text(kind) != name@) ==> r.variant()
                == AgentKind::Manus,
            r.profile() == spec_of(r.variant(), workspace@),
            is_fresh_runtime(r.running(), r.profile()),
            r.unconnected(),
    {
        let kind = match parse_agent_kind(name) {
            Some(kind) => kind,
            None => AgentKind::Manus,
        };
        proof {
            assert forall|other: AgentKind| #[trigger] kind_text(other) == name@ implies kind
                == other by {
                law_kinds_have_names_of_their_own(kind, other);
            }
        }
        AgentFactory::create(kind, workspace)
    }

    pub fn specs(workspace: &str) -> (r: Vec<AgentSpec>)
        ensures
            deep(r@) == all_kinds().map_values(|kind: AgentKind| spec_of(kind, workspace@)),
    {
        AgentSpec::all(workspace)
    }
}

} // verus!
