//! The settings of the application.

use vstd::prelude::*;

use crate::agent::DEFAULT_MAX_AGENT_STEPS;
use crate::config::{
    cleaned, env_value, LlmModel, LlmSettings, PromptCacheMode,
};
use crate::deep::{copy_all, deep, group_deep};
use crate::tasks::lifecycle::{ApprovalRule, RuleModel};
use crate::tasks::run::{at_least_one, normalize_max_steps};
use crate::tasks::tool_run::{tool_seconds, tool_timeout};
use crate::text::{blank, concat2, copy_option, is_blank, trim, trim_tail, trimmed, without_tail};

verus! {

broadcast use group_deep;

/// When the user is asked before a tool runs.
#[derive(Debug, PartialEq, Eq)]
pub enum ApprovalMode {
    /// Where a call could do harm.
    Guarded,
    /// As another policy says, by its name.
    Named(String),
}

pub enum ModeModel {
    Guarded,
    Named(Seq<char>),
}

impl DeepView for ApprovalMode {
    type V = ModeModel;

    open spec fn deep_view(&self) -> ModeModel {
        match self {
            ApprovalMode::Guarded => ModeModel::Guarded,
            ApprovalMode::Named(name) => ModeModel::Named(name@),
        }
    }
}

impl Clone for ApprovalMode {
    fn clone(&self) -> (r: Self)
        ensures
            r.deep_view() == self.deep_view(),
    {
        match self {
            ApprovalMode::Guarded => ApprovalMode::Guarded,
            ApprovalMode::Named(name) => ApprovalMode::Named(name.clone()),
        }
    }
}

/// The settings of the application.
#[derive(Debug, PartialEq, Eq)]
pub struct AgentSettings {
    pub api_base_url: String,
    pub model: String,
    pub api_key: Option<String>,
    pub max_steps: u32,
    pub timeout_secs: u64,
    pub prompt_cache: PromptCacheMode,
    pub approval_mode: ApprovalMode,
    pub approval_rules: Vec<ApprovalRule>,
}

pub struct SettingsModel {
    pub api_base_url: Seq<char>,
    pub model: Seq<char>,
    pub api_key: Option<Seq<char>>,
    pub max_steps: u32,
    pub timeout_secs: u64,
    pub prompt_cache: PromptCacheMode,
    pub approval_mode: ModeModel,
    pub approval_rules: Seq<RuleModel>,
}

impl DeepView for AgentSettings {
    type V = SettingsModel;

    open spec fn deep_view(&self) -> SettingsModel {
        SettingsModel {
            api_base_url: self.api_base_url@,
            model: self.model@,
            api_key: self.api_key.deep_view(),
            max_steps: self.max_steps,
            timeout_secs: self.timeout_secs,
            prompt_cache: self.prompt_cache,
            approval_mode: self.approval_mode.deep_view(),
            approval_rules: deep(self.approval_rules@),
        }
    }
}

impl Clone for AgentSettings {
    fn clone(&self) -> (r: Self)
        ensures
            r.deep_view() == self.deep_view(),
    {
        AgentSettings {
            api_base_url: self.api_base_url.clone(),
            model: self.model.clone(),
            api_key: copy_option(&self.api_key),
            max_steps: self.max_steps,
            timeout_secs: self.timeout_secs,
            prompt_cache: self.prompt_cache,
            approval_mode: self.approval_mode.clone(),
            approval_rules: copy_all(&self.approval_rules),
        }
    }
}

/// The settings where nothing is said.
pub fn default_settings() -> (r: AgentSettings)
    ensures
        r.deep_view() == (SettingsModel {
            api_base_url: "https://api.openai.com/v1"@,
            model: "gpt-4o-mini"@,
            api_key: None,
            max_steps: DEFAULT_MAX_AGENT_STEPS,
            timeout_secs: 45,
            prompt_cache: PromptCacheMode::Auto,
            approval_mode: ModeModel::Guarded,
            approval_rules: Seq::empty(),
        }),
{
    let approval_rules: Vec<ApprovalRule> = Vec::new();
    proof {
        assert(deep(approval_rules@) =~= Seq::<RuleModel>::empty());
    }
    AgentSettings {
        api_base_url: "https://api.openai.com/v1".to_owned(),
        model: "gpt-4o-mini".to_owned(),
        api_key: None,
        max_steps: DEFAULT_MAX_AGENT_STEPS,
        timeout_secs: 45,
        prompt_cache: PromptCacheMode::Auto,
        approval_mode: ApprovalMode::Guarded,
        approval_rules,
    }
}

/// The settings that are kept on the disk. The key is not among them. The rules are those that
/// still hold.
#[derive(Debug, PartialEq, Eq)]
pub struct PersistedSettings {
    pub api_base_url: Option<String>,
    pub model: Option<String>,
    pub max_steps: Option<u32>,
    pub timeout_secs: Option<u64>,
    pub prompt_cache: Option<PromptCacheMode>,
    pub approval_mode: Option<ApprovalMode>,
    pub approval_rules: Vec<ApprovalRule>,
}

/// A text that was kept, where it says something.
pub open spec fn kept_text(kept: Option<Seq<char>>, before: Seq<char>) -> Seq<char> {
    match kept {
        Some(text) if !is_blank(text) => text,
        _ => before,
    }
}

/// The settings with what was kept of them.
pub open spec fn with_kept(s: SettingsModel, kept: PersistedSettings) -> SettingsModel {
    SettingsModel {
        api_base_url: kept_text(kept.api_base_url.deep_view(), s.api_base_url),
        model: kept_text(kept.model.deep_view(), s.model),
        max_steps: match kept.max_steps {
            Some(n) => at_least_one(n),
            None => s.max_steps,
        },
        timeout_secs: match kept.timeout_secs {
            Some(n) => tool_seconds(n),
            None => s.timeout_secs,
        },
        prompt_cache: match kept.prompt_cache {
            Some(mode) => mode,
            None => s.prompt_cache,
        },
        approval_mode: match kept.approval_mode.deep_view() {
            Some(mode) => mode,
            None => s.approval_mode,
        },
        approval_rules: deep(kept.approval_rules@),
        ..s
    }
}

/// What the environment says of the settings.
#[derive(Debug, PartialEq, Eq)]
pub struct SettingsEnvironment {
    pub api_base_url: Option<String>,
    pub model: Option<String>,
    pub prompt_cache: Option<PromptCacheMode>,
    pub api_key: Option<String>,
    pub openai_api_key: Option<String>,
}

/// The key that the environment holds: the own one, or else that of OpenAI.
pub open spec fn key_in(env: SettingsEnvironment) -> Option<Seq<char>> {
    match cleaned(env.api_key.deep_view()) {
        Some(key) => Some(key),
        None => cleaned(env.openai_api_key.deep_view()),
    }
}

/// The settings with what the environment says. The key comes from nowhere else.
pub open spec fn with_environment(s: SettingsModel, env: SettingsEnvironment) -> SettingsModel {
    SettingsModel {
        api_base_url: match cleaned(env.api_base_url.deep_view()) {
            Some(url) => without_tail(url, '/'),
            None => s.api_base_url,
        },
        model: match cleaned(env.model.deep_view()) {
            Some(model) => model,
            None => s.model,
        },
        prompt_cache: match env.prompt_cache {
            Some(mode) => mode,
            None => s.prompt_cache,
        },
        api_key: key_in(env),
        ..s
    }
}

/// What the user changes.
#[derive(Debug, PartialEq, Eq)]
pub struct SettingsInput {
    pub api_base_url: String,
    pub model: String,
    pub api_key: Option<String>,
    pub max_steps: Option<u32>,
    pub timeout_secs: Option<u64>,
    pub prompt_cache: Option<PromptCacheMode>,
    pub approval_mode: Option<ApprovalMode>,
    pub clear_approval_rules: bool,
}

/// The settings with what the user changes. An empty address or model changes nothing, and an
/// empty key takes the key away.
pub open spec fn with_input(s: SettingsModel, input: SettingsInput) -> SettingsModel {
    SettingsModel {
        api_base_url: if trimmed(input.api_base_url@).len() == 0 {
            s.api_base_url
        } else {
            without_tail(trimmed(input.api_base_url@), '/')
        },
        model: if trimmed(input.model@).len() == 0 {
            s.model
        } else {
            trimmed(input.model@)
        },
        api_key: match input.api_key.deep_view() {
            Some(key) => cleaned(Some(key)),
            None => s.api_key,
        },
        max_steps: match input.max_steps {
            Some(n) => at_least_one(n),
            None => s.max_steps,
        },
        timeout_secs: match input.timeout_secs {
            Some(n) => tool_seconds(n),
            None => s.timeout_secs,
        },
        prompt_cache: match input.prompt_cache {
            Some(mode) => mode,
            None => s.prompt_cache,
        },
        approval_mode: match input.approval_mode.deep_view() {
            Some(mode) => mode,
            None => s.approval_mode,
        },
        approval_rules: if input.clear_approval_rules {
            Seq::empty()
        } else {
            s.approval_rules
        },
    }
}

impl AgentSettings {
    /// Takes what was kept of the settings.
    pub fn apply_persisted(&mut self, kept: &PersistedSettings)
        ensures
            final(self).deep_view() == with_kept(old(self).deep_view(), *kept),
    {
        if let Some(url) = &kept.api_base_url {
            if !blank(url) {
                self.api_base_url = url.clone();
            }
        }
        if let Some(model) = &kept.model {
            if !blank(model) {
                self.model = model.clone();
            }
        }
        if let Some(max_steps) = kept.max_steps {
            self.max_steps = normalize_max_steps(max_steps);
        }
        if let Some(timeout_secs) = kept.timeout_secs {
            self.timeout_secs = tool_timeout(timeout_secs);
        }
        if let Some(mode) = kept.prompt_cache {
            self.prompt_cache = mode;
        }
        if let Some(mode) = &kept.approval_mode {
            self.approval_mode = mode.clone();
        }
        self.approval_rules = copy_all(&kept.approval_rules);
    }

    /// Takes what the environment says.
    pub fn apply_environment(&mut self, env: &SettingsEnvironment)
        ensures
            final(self).deep_view() == with_environment(old(self).deep_view(), *env),
    {
        if let Some(url) = env_value(&env.api_base_url) {
            self.api_base_url = trim_tail(&url, '/');
        }
        if let Some(model) = env_value(&env.model) {
            self.model = model;
        }
        if let Some(mode) = env.prompt_cache {
            self.prompt_cache = mode;
        }
        self.api_key = match env_value(&env.api_key) {
            Some(key) => Some(key),
            None => env_value(&env.openai_api_key),
        };
    }

    /// Takes what the user changes.
    pub fn update(&mut self, input: &SettingsInput)
        ensures
            final(self).deep_view() == with_input(old(self).deep_view(), *input),
    {
        let url = trim(&input.api_base_url);
        if !url.as_str().is_empty() {
            self.api_base_url = trim_tail(&url, '/');
        }
        let model = trim(&input.model);
        if !model.as_str().is_empty() {
            self.model = model;
        }
        if let Some(_) = &input.api_key {
            self.api_key = env_value(&input.api_key);
        }
        if let Some(max_steps) = input.max_steps {
            self.max_steps = normalize_max_steps(max_steps);
        }
        if let Some(timeout_secs) = input.timeout_secs {
            self.timeout_secs = tool_timeout(timeout_secs);
        }
        if let Some(mode) = input.prompt_cache {
            self.prompt_cache = mode;
        }
        if let Some(mode) = &input.approval_mode {
            self.approval_mode = mode.clone();
        }
        if input.clear_approval_rules {
            self.approval_rules = Vec::new();
            proof {
                assert(deep(self.approval_rules@) =~= Seq::<RuleModel>::empty());
            }
        }
    }

    /// What is kept of the settings: all but the key.
    pub fn persisted(&self) -> (r: PersistedSettings)
        ensures
            r.api_base_url.deep_view() == Some(self.api_base_url@),
            r.model.deep_view() == Some(self.model@),
            r.max_steps == Some(self.max_steps),
            r.timeout_secs == Some(self.timeout_secs),
            r.prompt_cache == Some(self.prompt_cache),
            r.approval_mode.deep_view() == Some(self.approval_mode.deep_view()),
            deep(r.approval_rules@) == deep(self.approval_rules@),
    {
        PersistedSettings {
            api_base_url: Some(self.api_base_url.clone()),
            model: Some(self.model.clone()),
            max_steps: Some(self.max_steps),
            timeout_secs: Some(self.timeout_secs),
            prompt_cache: Some(self.prompt_cache),
            approval_mode: Some(self.approval_mode.clone()),
            approval_rules: copy_all(&self.approval_rules),
        }
    }

    /// Remembers a rule behind the others. Those that no longer hold are to be left out by the
    /// caller.
    pub fn remember(&mut self, rule: ApprovalRule)
        ensures
            final(self).deep_view() == (SettingsModel {
                approval_rules: old(self).deep_view().approval_rules.push(rule.deep_view()),
                ..old(self).deep_view()
            }),
    {
        let ghost before = self.approval_rules@;
        self.approval_rules.push(rule);
        proof {
            assert(deep(self.approval_rules@) =~= deep(before).push(rule.deep_view()));
        }
    }

    /// What the user sees of the settings: whether there is a key, but not the key.
    pub fn view_for_user(&self) -> (r: SettingsView)
        ensures
            r.api_base_url@ == self.api_base_url@,
            r.model@ == self.model@,
            r.api_key_configured == self.api_key is Some,
            r.max_steps == self.max_steps,
            r.timeout_secs == self.timeout_secs,
            r.prompt_cache == self.prompt_cache,
            r.approval_mode.deep_view() == self.approval_mode.deep_view(),
            r.remembered_approvals == self.approval_rules@.len(),
            r.demo_mode == self.api_key is None,
    {
        SettingsView {
            api_base_url: self.api_base_url.clone(),
            model: self.model.clone(),
            api_key_configured: self.api_key.is_some(),
            max_steps: self.max_steps,
            timeout_secs: self.timeout_secs,
            prompt_cache: self.prompt_cache,
            approval_mode: self.approval_mode.clone(),
            remembered_approvals: self.approval_rules.len(),
            demo_mode: self.api_key.is_none(),
        }
    }

    /// The settings for the requests of a task. What they do not say is as in `fallback`.
    pub fn llm_settings_for_task(&self, fallback: &LlmSettings) -> (r: LlmSettings)
        ensures
            r.deep_view() == (LlmModel {
                model: self.model@,
                base_url: self.api_base_url@,
                api_key: match self.api_key.deep_view() {
                    Some(key) => key,
                    None => Seq::empty(),
                },
                prompt_cache: self.prompt_cache,
                ..fallback.deep_view()
            }),
    {
        let mut settings = fallback.clone();
        settings.model = self.model.clone();
        settings.base_url = self.api_base_url.clone();
        settings.api_key = match &self.api_key {
            Some(key) => key.clone(),
            None => String::new(),
        };
        settings.prompt_cache = self.prompt_cache;
        settings
    }
}

/// What the user sees of the settings.
#[derive(Debug, PartialEq, Eq)]
pub struct SettingsView {
    pub api_base_url: String,
    pub model: String,
    pub api_key_configured: bool,
    pub max_steps: u32,
    pub timeout_secs: u64,
    pub prompt_cache: PromptCacheMode,
    pub approval_mode: ApprovalMode,
    pub remembered_approvals: usize,
    pub demo_mode: bool,
}

/// The name under which the requests of a task are grouped.
pub fn session_id(task_id: &str) -> (r: String)
    ensures
        r@ == "rustpilot:"@ + task_id@,
{
    concat2("rustpilot:", task_id)
}

// ---- laws ----

/// Whatever is kept, said or changed, a run may take at least one step, and a tool runs for at
/// least 5 and at most 120 seconds.
pub proof fn law_settings_stay_within_their_limits(
    s: SettingsModel,
    kept: PersistedSettings,
    env: SettingsEnvironment,
    input: SettingsInput,
)
    requires
        s.max_steps >= 1,
        5 <= s.timeout_secs <= 120,
    ensures
        with_kept(s, kept).max_steps >= 1,
        5 <= with_kept(s, kept).timeout_secs <= 120,
        with_environment(s, env).max_steps >= 1,
        5 <= with_environment(s, env).timeout_secs <= 120,
        with_input(s, input).max_steps >= 1,
        5 <= with_input(s, input).timeout_secs <= 120,
{
}

/// Settings within their limits are the same after a restart, but for the key.
pub proof fn law_kept_settings_are_taken_back(
    s: SettingsModel,
    fresh: SettingsModel,
    kept: PersistedSettings,
)
    requires
        s.max_steps >= 1,
        5 <= s.timeout_secs <= 120,
        !is_blank(s.api_base_url),
        !is_blank(s.model),
        kept.api_base_url.deep_view() == Some(s.api_base_url),
        kept.model.deep_view() == Some(s.model),
        kept.max_steps == Some(s.max_steps),
        kept.timeout_secs == Some(s.timeout_secs),
        kept.prompt_cache == Some(s.prompt_cache),
        kept.approval_mode.deep_view() == Some(s.approval_mode),
        deep(kept.approval_rules@) == s.approval_rules,
    ensures
        with_kept(fresh, kept) == (SettingsModel { api_key: fresh.api_key, ..s }),
{
}

/// What is kept never holds the key: taking it back leaves the key as it is.
pub proof fn law_kept_settings_do_not_touch_the_key(s: SettingsModel, kept: PersistedSettings)
    ensures
        with_kept(s, kept).api_key == s.api_key,
{
}

} // verus!
