//! Agents: their messages, their kinds and the flows that they work in.

use rustpilot::agent::{
    prompt_profile, AgentKind, AgentState, BaseAgentRuntime, FunctionCall, Memory, Message,
    MessageToolCall, PlanningFlowRuntime, Role, ToolCallAgentRuntime, ToolChoice,
    DEFAULT_MAX_AGENT_STEPS,
};
use rustpilot::agents::{
    AgentFactory, AgentInstance, AgentProfile, AgentSpec, BrowserAgent, ManusAgent, McpAgent,
    SandboxManusAgent,
};
use rustpilot::flow::{
    active_plan_statuses, all_plan_statuses, plan_status_marks, BaseFlow, Flow, FlowError,
    FlowFactory, PlanningFlow,
};
use rustpilot::json::Json;
use rustpilot::name_map::NameMap;
use rustpilot::plan::{AgentPlan, PlanStepStatus};

fn text(value: &str) -> String {
    value.to_string()
}

#[test]
fn memory_is_bounded_and_replayable() {
    let mut memory = Memory {
        max_messages: 2,
        ..Memory::default()
    };
    memory.add_message(Message::user("one"));
    memory.add_message(Message::assistant_with_tools(
        Some("thinking".to_string()),
        vec![MessageToolCall {
            id: "call-1".to_string(),
            call_type: "function".to_string(),
            function: FunctionCall {
                name: "rust_clock".to_string(),
                arguments: "{}".to_string(),
            },
        }],
    ));
    memory.add_message(Message::tool("now", "rust_clock", "call-1"));
    assert_eq!(memory.messages.len(), 2);
    assert_eq!(memory.messages[0].role, Role::Assistant);
    assert!(memory.to_openai_messages()[0].items("tool_calls").is_some());
}

#[test]
fn base_agent_detects_duplicate_assistant_responses() {
    let mut agent = BaseAgentRuntime::new("test", "system");
    agent
        .memory
        .add_message(Message::assistant(Some("same".to_string())));
    agent
        .memory
        .add_message(Message::assistant(Some("same".to_string())));
    agent
        .memory
        .add_message(Message::assistant(Some("same".to_string())));
    assert!(agent.is_stuck());
    agent.handle_stuck_state();
    assert!(agent.next_step_prompt.contains("Change strategy"));
}

#[test]
fn states_last_for_an_operation() {
    let mut agent = BaseAgentRuntime::new("test", "system");
    agent.memory.max_messages = 0;
    agent.max_steps = 0;
    agent.initialize_agent();
    assert_eq!(agent.memory.max_messages, 100);
    assert_eq!(agent.max_steps, DEFAULT_MAX_AGENT_STEPS);
    let previous = agent.enter_state(AgentState::Running);
    assert_eq!(agent.state, AgentState::Running);
    agent.leave_state(previous);
    assert_eq!(agent.state, AgentState::Idle);
}

#[test]
fn specialized_prompt_profiles_cover_all_agents() {
    for kind in [
        AgentKind::Manus,
        AgentKind::Browser,
        AgentKind::DataAnalysis,
        AgentKind::Swe,
        AgentKind::Mcp,
        AgentKind::SandboxManus,
    ] {
        let (system, next) = prompt_profile(kind, ".");
        assert!(!system.is_empty());
        assert!(next.contains("rust_"));
    }
}

#[test]
fn agents_count_their_steps() {
    let mut agent = BaseAgentRuntime::new("test", "system");
    assert_eq!(agent.next_step(), Err(text("Agent is not running.")));
    agent.max_steps = 1;
    agent.begin().expect("an idle agent can begin");
    assert_eq!(agent.begin(), Err(text("Cannot run agent from state: Running")));
    assert_eq!(agent.next_step(), Ok(1));
    assert_eq!(agent.next_step(), Err(text("Reached max steps (1)")));
    assert_eq!(agent.state, AgentState::Finished);
    agent.fail();
    assert_eq!(agent.state, AgentState::Error);
}

#[test]
fn responses_are_something_to_go_on_with() {
    let mut agent = ToolCallAgentRuntime::new("test", "system");
    assert!(!agent.set_response(None, Vec::new()));
    assert!(agent.set_response(Some(text("hi")), Vec::new()));
    agent.tool_choice = ToolChoice::Required;
    assert!(agent.set_response(Some(String::new()), Vec::new()));
    agent.tool_choice = ToolChoice::Never;
    assert!(!agent.set_response(Some(String::new()), Vec::new()));
    agent.max_observe = Some(2);
    assert_eq!(agent.observed("abc"), "ab");
    assert!(agent.is_special_tool("terminate"));
}

#[test]
fn markers_choose_executors() {
    let flow = PlanningFlowRuntime::new("p1");
    assert_eq!(flow.executor_for(Some("x"), AgentKind::Swe), AgentKind::Swe);
}

#[test]
fn specialized_defaults_match_agent_profiles() {
    let specs = AgentSpec::all(".");
    assert_eq!(specs.len(), 6);
    assert_eq!(
        specs
            .iter()
            .find(|spec| spec.kind == AgentKind::Manus)
            .unwrap()
            .max_steps,
        DEFAULT_MAX_AGENT_STEPS
    );
    assert_eq!(
        specs
            .iter()
            .find(|spec| spec.kind == AgentKind::DataAnalysis)
            .unwrap()
            .max_observe,
        Some(15_000)
    );
    assert_eq!(
        specs
            .iter()
            .find(|spec| spec.kind == AgentKind::Swe)
            .unwrap()
            .next_step_prompt,
        ""
    );
    for spec in specs {
        spec.validate().unwrap();
    }
}

#[test]
fn unusable_agents_are_refused() {
    let mut spec = AgentSpec::for_kind(AgentKind::Swe, ".");
    spec.tool_names.push(text("bash"));
    assert_eq!(spec.validate(), Err(text("All agent tools must use the rust_ prefix.")));
    spec.max_steps = 0;
    assert_eq!(spec.validate(), Err(text("Agent max_steps must be greater than zero.")));
    spec.name = text(" ");
    assert_eq!(spec.validate(), Err(text("Agent key and name must not be empty.")));
}

#[test]
fn agents_use_only_their_tools() {
    let swe = AgentSpec::for_kind(AgentKind::Swe, ".");
    assert!(swe.allows_tool("rust_code"));
    assert!(swe.allows_tool("rust_terminate"));
    assert!(!swe.allows_tool("rust_mcp_weather"));
    assert!(!swe.allows_tool("rust_sandbox_shell"));
    let mcp = AgentSpec::for_kind(AgentKind::Mcp, ".");
    assert!(mcp.allows_tool("rust_mcp_weather"));
    assert!(!mcp.allows_tool("rust_bash"));
}

#[test]
fn mcp_refresh_reports_added_and_removed_tools() {
    let mut agent = McpAgent::new(".");
    let mut schemas = NameMap::new();
    schemas.insert("weather", Json::Null);
    let (added, removed) = agent.refresh_tools(schemas);
    assert_eq!(added, vec!["weather"]);
    assert!(removed.is_empty());
    let (added, removed) = agent.refresh_tools(NameMap::new());
    assert!(added.is_empty());
    assert_eq!(removed, vec!["weather"]);
}

#[test]
fn servers_are_reached_in_known_ways() {
    let mut agent = McpAgent::new(".");
    assert_eq!(agent.connection_type, "stdio");
    assert!(agent.initialize("sse").is_ok());
    assert_eq!(agent.connection_type, "sse");
    assert_eq!(
        agent.initialize("carrier pigeon"),
        Err(text("Unsupported MCP connection type: carrier pigeon"))
    );
}

#[test]
fn servers_are_connected_and_disconnected() {
    let mut agent = ManusAgent::new(".");
    agent.connect_mcp_server("b", "http://b");
    agent.connect_mcp_server("a", "http://a");
    assert_eq!(agent.connected_servers.keys(), vec![text("a"), text("b")]);
    agent.disconnect_mcp_server(Some("a"));
    assert!(agent.initialized);
    agent.disconnect_mcp_server(None);
    assert!(!agent.initialized);
    assert_eq!(agent.kind(), AgentKind::Manus);
    assert_eq!(agent.name(), "Manus");
}

#[test]
fn names_stay_in_order() {
    let mut map: NameMap<String> = NameMap::new();
    for name in ["pear", "apple", "fig", "apple"] {
        map.insert(name, format!("{name}!"));
    }
    assert_eq!(map.keys(), vec![text("apple"), text("fig"), text("pear")]);
    assert_eq!(map.get("fig"), Some(&text("fig!")));
    assert!(map.remove("fig"));
    assert!(!map.remove("fig"));
    map.clear();
    assert!(map.is_empty());
}

#[test]
fn sandboxes_have_links() {
    let mut agent = SandboxManusAgent::new(".");
    agent.add_sandbox_link("s1", "vnc", "http://x");
    agent.add_sandbox_link("s1", "web", "http://y");
    assert_eq!(agent.sandbox_links.get("s1").map(|l| l.keys().len()), Some(2));
    assert!(agent.delete_sandbox("s1"));
    assert!(!agent.delete_sandbox("s1"));
}

#[test]
fn browser_agents_are_told_of_the_page() {
    let mut agent = BrowserAgent::new(".");
    let mut state = Json::object1("url", Json::string("https://x.test"));
    state.set("title", Json::string("Page"));
    state.set("tabs", Json::Array(vec![Json::Null, Json::Null]));
    agent.update_browser_prompt(Some(&state));
    assert_eq!(
        agent.runtime.tool_agent.base.next_step_prompt,
        "Inspect the current browser state before acting.\nURL: https://x.test\nTitle: Page\n2 tab(s) available."
    );
    agent.browser_context_helper.set_image(Some(text("img")));
    assert_eq!(agent.browser_context_helper.take_image(), Some(text("img")));
    assert_eq!(agent.browser_context_helper.take_image(), None);
}

#[test]
fn agents_are_made_by_name() {
    let mut agent = AgentFactory::create_from_name("swe", "/w");
    assert_eq!(agent.spec().kind, AgentKind::Swe);
    assert!(matches!(agent, AgentInstance::Swe(_)));
    agent.runtime_mut().tool_agent.base.fail();
    assert_eq!(agent.runtime().tool_agent.base.state, AgentState::Error);
    assert_eq!(AgentFactory::create_from_name("x", "/w").spec().kind, AgentKind::Manus);
    assert_eq!(AgentFactory::specs("/w").len(), 6);
}

#[test]
fn new_agents_are_connected_to_nothing() {
    let mut agent = AgentInstance::create(AgentKind::Mcp, ".");
    assert_eq!(agent.runtime().tool_agent.base.duplicate_threshold, 2);
    assert_eq!(agent.runtime().tool_agent.base.memory.max_messages, 100);
    agent.runtime_mut().tool_agent.base.fail();
    match agent {
        AgentInstance::Mcp(agent) => {
            assert_eq!(agent.connection_type, "stdio");
            assert!(agent.tool_schemas.is_empty());
            assert_eq!(agent.refresh_tools_interval, 5);
        }
        _ => panic!("an agent of another kind"),
    }
    match AgentFactory::create(AgentKind::SandboxManus, ".") {
        AgentInstance::SandboxManus(agent) => {
            assert!(agent.sandbox_links.is_empty() && agent.connected_servers.is_empty());
            assert!(!agent.initialized);
        }
        _ => panic!("an agent of another kind"),
    }
    let mut manus = ManusAgent::new(".");
    manus.connect_mcp_server("s", "http://x");
    manus.runtime_mut().tool_agent.base.fail();
    assert!(manus.initialized);
    assert_eq!(manus.connected_servers.get("s"), Some(&text("http://x")));
}

#[test]
fn flow_factory_preserves_primary_agent() {
    let flow = FlowFactory::planning_for_kind(AgentKind::Browser, ".");
    assert_eq!(flow.primary_agent().unwrap().kind, AgentKind::Browser);
    assert_eq!(flow.get_executor(Some("browser")).unwrap().key, "browser");
    assert_eq!(active_plan_statuses(), vec!["not_started", "in_progress"]);
    assert_eq!(all_plan_statuses().len(), 4);
    assert_eq!(plan_status_marks().len(), 4);
}

#[test]
fn flows_work_off_their_plan() {
    let mut flow = PlanningFlow::with_agents(AgentSpec::all("."));
    flow.start("collect evidence").expect("there is a first choice");
    let mut outputs = Vec::new();
    while let Some(step) = flow.next_step(false).expect("the run should go on") {
        assert!(step.executor.tool_names.iter().all(|name| name.starts_with("rust_")));
        assert!(step.prompt.contains("CURRENT PLAN STATUS"));
        let output = format!("{} completed", step.executor.name);
        flow.finish_step(&Ok(output.clone())).expect("the step is there");
        outputs.push(output);
    }
    let report = flow.report(&outputs);
    assert!(report.contains("Plan completed"));
    assert!(report.contains("3/3 completed"));
    assert!(flow.current_step_index.is_some());
}

#[test]
fn flows_end_early() {
    let mut flow = PlanningFlow::with_agents(Vec::new());
    assert_eq!(flow.start("x"), Err(FlowError::NoPrimaryAgent));
    assert_eq!(flow.plan_text(), "No active plan.");
    let mut flow = FlowFactory::planning_for_kind(AgentKind::Swe, ".");
    assert_eq!(
        flow.start("  "),
        Err(FlowError::InvalidPlan(text("Request cannot be empty.")))
    );
    flow.start("x").expect("there is a first choice");
    assert_eq!(flow.next_step(true), Err(FlowError::Cancelled));
    assert!(flow.plan_text().contains("[!] Analyze request\n   Notes: Flow cancelled.\n"));
    assert_eq!(flow.current_step_index, Some(0));
    assert!(flow.next_step(false).expect("another step").is_some());
    assert_eq!(
        flow.finish_step(&Err(text("no tools"))),
        Err(FlowError::Agent(text("no tools")))
    );
    assert_eq!(FlowError::Agent(text("no tools")).message(), "no tools");
    assert_eq!(
        FlowError::NoExecutor(text("s")).message(),
        "No executor available for step: s"
    );
}

#[test]
fn plans_need_an_id_and_a_step() {
    let mut flow = FlowFactory::planning_for_kind(AgentKind::Swe, ".");
    let empty = AgentPlan {
        id: text("p"),
        title: text("t"),
        steps: Vec::new(),
        created_at: 0,
        updated_at: 0,
    };
    assert!(flow.set_plan(empty).is_err());
    assert_eq!(
        flow.mark_step_completed("x"),
        Err(FlowError::InvalidPlan(text("No current plan step.")))
    );
    let plan = flow.create_initial_plan(&"r".repeat(60)).expect("there is a request");
    assert_eq!(plan.title, format!("Plan for: {}...", "r".repeat(50)));
    assert_eq!(plan.steps[0].id, format!("{}_step_0", plan.id));
    flow.current_step_info();
    flow.mark_step_completed("done").expect("a step is worked on");
    let steps = &flow.active_plan.as_ref().expect("there is a plan").steps;
    assert_eq!(steps[0].status, PlanStepStatus::Completed);
    assert_eq!(steps[0].notes, "done");
}

#[test]
fn the_first_choice_is_the_first_in_order() {
    let mut base = BaseFlow::from_specs(AgentSpec::all("."));
    assert_eq!(base.primary_agent_key, "browser");
    assert!(base.set_primary_agent("swe").is_ok());
    assert_eq!(base.primary_agent().map(|s| s.kind), Some(AgentKind::Swe));
    assert_eq!(
        base.set_primary_agent("nobody"),
        Err(FlowError::NoExecutor(text("nobody")))
    );
    let mut empty = BaseFlow::new(Vec::new());
    assert!(empty.primary_agent().is_none());
    empty.add_agent("x", AgentSpec::for_kind(AgentKind::Mcp, "."));
    assert_eq!(empty.primary_agent_key, "x");
    let mut flow = PlanningFlow::with_agents(Vec::new());
    let id = flow.active_plan_id.clone();
    flow.add_agent("y", AgentSpec::for_kind(AgentKind::Swe, "."));
    flow.add_agent("z", AgentSpec::for_kind(AgentKind::Mcp, "."));
    assert_eq!(flow.base.primary_agent_key, "y");
    assert_eq!(flow.active_plan_id, id);
    assert_eq!(flow.next_step(false), Ok(None));
    assert_eq!(flow.current_step_index, None);
}
