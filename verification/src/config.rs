//! Configuration: model profiles and their credentials, roles, key mapping,
//! timeouts, and what a project may override.
use vstd::prelude::*;

use crate::order::{insert_sorted, sorted_set};
use crate::path::{
    directory_of, is_same_place, join_path, joined_path, parent_directory, same_place,
};
use crate::sandbox::{
    default_sandbox, lookups_match, policy, resolve_sandbox, sandbox_result, ProjectSandbox,
    ProjectSandboxView, Sandbox, SandboxSources, SandboxView,
};
use crate::table::{
    distinct_names, lemma_distinct_lookup, lemma_named_by_an_entry, lookup, map_of, Duplicate, Table,
};
use crate::text::{chars_of, first_of, index_of, same_text, text_of, trim, trimmed};

verus! {

/// Default timeout of a background task: 30 minutes.
pub const DEFAULT_BACKGROUND_TIMEOUT_SECS: u64 = 30 * 60;

/// Default timeout of a foreground command: 30 seconds.
pub const DEFAULT_BASH_TIMEOUT_SECS: u64 = 30;

/// Default wait of a finished subagent for its background tasks: 10 minutes.
pub const DEFAULT_FINALIZE_WAIT_SECS: u64 = 10 * 60;

/// How often the configuration files are looked at for changes, in seconds.
pub const CONFIG_POLL_INTERVAL_SECS: u64 = 2;

/// Every key that [`parse_enter_key`] knows.
pub const SUPPORTED_ENTER_KEYS: &'static str =
    "enter, alt+enter (option+enter), ctrl+enter, shift+enter";

/// Background-task policy.
#[derive(Clone, Copy, Debug, PartialEq, Eq)]
pub struct BackgroundConfig {
    /// Timeout in seconds; 0 for none.
    pub timeout_secs: Option<u64>,
}

/// Foreground command policy.
#[derive(Clone, Copy, Debug, PartialEq, Eq)]
pub struct BashConfig {
    /// Timeout in seconds; 0 for none.
    pub timeout_secs: Option<u64>,
}

/// Subagent policy.
#[derive(Clone, Copy, Debug, PartialEq, Eq)]
pub struct DelegateConfig {
    /// Wait for background tasks in seconds; 0 for as long as it takes.
    pub finalize_wait_secs: Option<u64>,
}

/// Mapping of the keys that submit a prompt and insert a line break.
#[derive(Debug, PartialEq, Eq)]
pub struct TuiConfig {
    pub submit: Option<String>,
    pub newline: Option<String>,
}

/// Model of a [`TuiConfig`].
pub struct TuiView {
    pub submit: Option<Seq<char>>,
    pub newline: Option<Seq<char>>,
}

impl DeepView for TuiConfig {
    type V = TuiView;

    open spec fn deep_view(&self) -> TuiView {
        TuiView { submit: self.submit.deep_view(), newline: self.newline.deep_view() }
    }
}

impl Clone for TuiConfig {
    fn clone(&self) -> (r: Self)
        ensures
            r.deep_view() == self.deep_view(),
    {
        TuiConfig { submit: self.submit.clone(), newline: self.newline.clone() }
    }
}

/// The modifier that is held with Enter.
#[derive(Clone, Copy, Debug, PartialEq, Eq, Structural)]
pub enum EnterKey {
    Plain,
    Alt,
    Control,
    Shift,
}

/// The modifier that a key text names; `option+enter` is another name for
/// `alt+enter`.
pub open spec fn enter_key(key: Seq<char>) -> Option<EnterKey> {
    if key == "enter"@ {
        Some(EnterKey::Plain)
    } else if key == "alt+enter"@ || key == "option+enter"@ {
        Some(EnterKey::Alt)
    } else if key == "ctrl+enter"@ {
        Some(EnterKey::Control)
    } else if key == "shift+enter"@ {
        Some(EnterKey::Shift)
    } else {
        None
    }
}

/// The modifier that a key text names.
pub fn parse_enter_key(key: &str) -> (r: Option<EnterKey>)
    ensures
        r == enter_key(key@),
{
    if same_text(key, "enter") {
        Some(EnterKey::Plain)
    } else if same_text(key, "alt+enter") || same_text(key, "option+enter") {
        Some(EnterKey::Alt)
    } else if same_text(key, "ctrl+enter") {
        Some(EnterKey::Control)
    } else if same_text(key, "shift+enter") {
        Some(EnterKey::Shift)
    } else {
        None
    }
}

/// The label of a key.
pub open spec fn enter_label(key: EnterKey) -> Seq<char> {
    match key {
        EnterKey::Plain => "Enter"@,
        EnterKey::Alt => "Alt+Enter"@,
        EnterKey::Control => "Ctrl+Enter"@,
        EnterKey::Shift => "Shift+Enter"@,
    }
}

/// The label of a key.
pub fn describe_enter_key(key: EnterKey) -> (r: String)
    ensures
        r@ == enter_label(key),
{
    match key {
        EnterKey::Plain => "Enter".to_owned(),
        EnterKey::Alt => "Alt+Enter".to_owned(),
        EnterKey::Control => "Ctrl+Enter".to_owned(),
        EnterKey::Shift => "Shift+Enter".to_owned(),
    }
}

/// The resolved key mapping.
#[derive(Clone, Copy, Debug, PartialEq, Eq, Structural)]
pub struct InputKeys {
    pub submit_modifiers: EnterKey,
    pub newline_modifiers: EnterKey,
}

impl Default for InputKeys {
    fn default() -> (r: Self)
        ensures
            r == (InputKeys { submit_modifiers: EnterKey::Plain, newline_modifiers: EnterKey::Alt }),
    {
        InputKeys { submit_modifiers: EnterKey::Plain, newline_modifiers: EnterKey::Alt }
    }
}

impl InputKeys {
    /// The labels of both keys: submit, then line break.
    pub fn describe(&self) -> (r: (String, String))
        ensures
            r.0@ == enter_label(self.submit_modifiers),
            r.1@ == enter_label(self.newline_modifiers),
    {
        (
            describe_enter_key(self.submit_modifiers),
            describe_enter_key(self.newline_modifiers),
        )
    }
}

/// Where sessions are stored.
#[derive(Debug, PartialEq)]
pub enum SessionBackend {
    /// A local database file; `None` for the one of the workspace.
    Sqlite { path: Option<String> },
    /// One text file a session.
    Jsonl,
    /// A database server, by its connection text.
    Greptime { conn: String },
}

/// Model of a [`SessionBackend`].
pub enum BackendView {
    Sqlite { path: Option<Seq<char>> },
    Jsonl,
    Greptime { conn: Seq<char> },
}

impl DeepView for SessionBackend {
    type V = BackendView;

    open spec fn deep_view(&self) -> BackendView {
        match self {
            SessionBackend::Sqlite { path } => BackendView::Sqlite { path: path.deep_view() },
            SessionBackend::Jsonl => BackendView::Jsonl,
            SessionBackend::Greptime { conn } => BackendView::Greptime { conn: conn@ },
        }
    }
}

impl Clone for SessionBackend {
    fn clone(&self) -> (r: Self)
        ensures
            r.deep_view() == self.deep_view(),
    {
        match self {
            SessionBackend::Sqlite { path } => SessionBackend::Sqlite { path: path.clone() },
            SessionBackend::Jsonl => SessionBackend::Jsonl,
            SessionBackend::Greptime { conn } => SessionBackend::Greptime { conn: conn.clone() },
        }
    }
}

impl Default for SessionBackend {
    fn default() -> (r: Self)
        ensures
            r.deep_view() == (BackendView::Sqlite { path: None }),
    {
        SessionBackend::Sqlite { path: None }
    }
}

/// The session section of a configuration.
#[derive(Debug, PartialEq)]
pub struct SessionConfig {
    pub backend: SessionBackend,
}

impl DeepView for SessionConfig {
    type V = BackendView;

    open spec fn deep_view(&self) -> BackendView {
        self.backend.deep_view()
    }
}

impl Clone for SessionConfig {
    fn clone(&self) -> (r: Self)
        ensures
            r.deep_view() == self.deep_view(),
    {
        SessionConfig { backend: self.backend.clone() }
    }
}

/// Credentials of the web search.
#[derive(Debug, PartialEq)]
pub struct WebSearch {
    pub api_key_file: Option<String>,
    pub api_key_env: Option<String>,
}

/// Model of a [`WebSearch`].
pub struct WebSearchView {
    pub api_key_file: Option<Seq<char>>,
    pub api_key_env: Option<Seq<char>>,
}

impl DeepView for WebSearch {
    type V = WebSearchView;

    open spec fn deep_view(&self) -> WebSearchView {
        WebSearchView {
            api_key_file: self.api_key_file.deep_view(),
            api_key_env: self.api_key_env.deep_view(),
        }
    }
}

impl Clone for WebSearch {
    fn clone(&self) -> (r: Self)
        ensures
            r.deep_view() == self.deep_view(),
    {
        WebSearch {
            api_key_file: self.api_key_file.clone(),
            api_key_env: self.api_key_env.clone(),
        }
    }
}

/// A model provider.
#[derive(Debug, PartialEq)]
pub struct Provider {
    pub auth: Option<String>,
    pub base_url: Option<String>,
    pub api_key_file: Option<String>,
    pub api_key_env: Option<String>,
}

/// Model of a [`Provider`].
pub struct ProviderView {
    pub auth: Option<Seq<char>>,
    pub base_url: Option<Seq<char>>,
    pub api_key_file: Option<Seq<char>>,
    pub api_key_env: Option<Seq<char>>,
}

impl DeepView for Provider {
    type V = ProviderView;

    open spec fn deep_view(&self) -> ProviderView {
        ProviderView {
            auth: self.auth.deep_view(),
            base_url: self.base_url.deep_view(),
            api_key_file: self.api_key_file.deep_view(),
            api_key_env: self.api_key_env.deep_view(),
        }
    }
}

impl Duplicate for Provider {
    fn duplicate(&self) -> (r: Self) {
        Provider {
            auth: self.auth.clone(),
            base_url: self.base_url.clone(),
            api_key_file: self.api_key_file.clone(),
            api_key_env: self.api_key_env.clone(),
        }
    }
}

/// A model profile.
#[derive(Debug, PartialEq)]
pub struct ModelProfile {
    pub model: Option<String>,
    pub reasoning_effort: Option<String>,
    /// Switch on the provider's thinking mode.
    pub thinking: Option<bool>,
    /// Context window in tokens.
    pub context_window: Option<u64>,
    /// The model takes images.
    pub vision: Option<bool>,
    /// Echo the reasoning of tool-call turns back to the provider.
    pub deepseek_compat: Option<bool>,
}

/// Model of a [`ModelProfile`].
pub struct ProfileView {
    pub model: Option<Seq<char>>,
    pub reasoning_effort: Option<Seq<char>>,
    pub thinking: Option<bool>,
    pub context_window: Option<u64>,
    pub vision: Option<bool>,
    pub deepseek_compat: Option<bool>,
}

impl DeepView for ModelProfile {
    type V = ProfileView;

    open spec fn deep_view(&self) -> ProfileView {
        ProfileView {
            model: self.model.deep_view(),
            reasoning_effort: self.reasoning_effort.deep_view(),
            thinking: self.thinking,
            context_window: self.context_window,
            vision: self.vision,
            deepseek_compat: self.deepseek_compat,
        }
    }
}

impl Duplicate for ModelProfile {
    fn duplicate(&self) -> (r: Self) {
        ModelProfile {
            model: self.model.clone(),
            reasoning_effort: self.reasoning_effort.clone(),
            thinking: self.thinking,
            context_window: self.context_window,
            vision: self.vision,
            deepseek_compat: self.deepseek_compat,
        }
    }
}

/// A tool server that the session starts.
#[derive(Debug, PartialEq)]
pub struct McpServerConfig {
    pub command: Vec<String>,
    pub env: Vec<(String, String)>,
    pub enabled: bool,
}

/// Model of a [`McpServerConfig`].
#[verifier::ext_equal]
pub struct ServerView {
    pub command: Seq<Seq<char>>,
    pub env: Seq<(Seq<char>, Seq<char>)>,
    pub enabled: bool,
}

impl DeepView for McpServerConfig {
    type V = ServerView;

    open spec fn deep_view(&self) -> ServerView {
        ServerView {
            command: self.command.deep_view(),
            env: self.env.deep_view(),
            enabled: self.enabled,
        }
    }
}

impl Duplicate for McpServerConfig {
    fn duplicate(&self) -> (r: Self) {
        let command = self.command.clone();
        assert(command.deep_view() =~= self.command.deep_view());
        let mut env: Vec<(String, String)> = Vec::new();
        let mut i: usize = 0;
        while i < self.env.len()
            invariant
                i <= self.env.len(),
                env@.len() == i,
                forall|j: int|
                    0 <= j < i ==> (#[trigger] env@[j]).deep_view() == self.env@[j].deep_view(),
            decreases self.env.len() - i,
        {
            env.push((self.env[i].0.clone(), self.env[i].1.clone()));
            i += 1;
        }
        assert(env.deep_view() =~= self.env.deep_view());
        McpServerConfig { command, env, enabled: self.enabled }
    }
}

/// The configuration of a user.
#[derive(Debug, PartialEq)]
pub struct Config {
    /// The profile used when none is named.
    pub default: Option<String>,
    pub providers: Table<Provider>,
    pub models: Table<ModelProfile>,
    pub mcp: Table<McpServerConfig>,
    /// Profiles by role.
    pub roles: Table<String>,
    pub web_search: Option<WebSearch>,
    pub sandbox: Option<Sandbox>,
    pub session: Option<SessionConfig>,
    pub background: Option<BackgroundConfig>,
    pub bash: Option<BashConfig>,
    pub delegate: Option<DelegateConfig>,
    pub tui: Option<TuiConfig>,
    /// The file that the configuration was read from.
    pub path: String,
}

/// Model of a [`Config`].
#[verifier::ext_equal]
pub struct ConfigView {
    pub default: Option<Seq<char>>,
    pub providers: Map<Seq<char>, ProviderView>,
    pub models: Map<Seq<char>, ProfileView>,
    pub mcp: Map<Seq<char>, ServerView>,
    pub roles: Map<Seq<char>, Seq<char>>,
    pub web_search: Option<WebSearchView>,
    pub sandbox: Option<SandboxView>,
    pub session: Option<BackendView>,
    pub background: Option<BackgroundConfig>,
    pub bash: Option<BashConfig>,
    pub delegate: Option<DelegateConfig>,
    pub tui: Option<TuiView>,
    pub path: Seq<char>,
}

impl DeepView for Config {
    type V = ConfigView;

    open spec fn deep_view(&self) -> ConfigView {
        ConfigView {
            default: self.default.deep_view(),
            providers: self.providers.deep_view(),
            models: self.models.deep_view(),
            mcp: self.mcp.deep_view(),
            roles: self.roles.deep_view(),
            web_search: self.web_search.deep_view(),
            sandbox: self.sandbox.deep_view(),
            session: self.session.deep_view(),
            background: self.background,
            bash: self.bash,
            delegate: self.delegate,
            tui: self.tui.deep_view(),
            path: self.path@,
        }
    }
}

impl Clone for Config {
    fn clone(&self) -> (r: Self)
        ensures
            r.deep_view() == self.deep_view(),
            self.names_are_distinct() ==> r.names_are_distinct(),
    {
        Config {
            default: self.default.clone(),
            providers: self.providers.copy(),
            models: self.models.copy(),
            mcp: self.mcp.copy(),
            roles: self.roles.copy(),
            web_search: self.web_search.clone(),
            sandbox: self.sandbox.clone(),
            session: self.session.clone(),
            background: self.background,
            bash: self.bash,
            delegate: self.delegate,
            tui: self.tui.clone(),
            path: self.path.clone(),
        }
    }
}

/// What a project may override.
#[derive(Debug, PartialEq)]
pub struct ProjectConfig {
    pub default: Option<String>,
    pub models: Option<Table<ModelProfile>>,
    pub mcp: Option<Table<McpServerConfig>>,
    pub roles: Option<Table<String>>,
    pub sandbox: Option<ProjectSandbox>,
    pub bash: Option<BashConfig>,
    pub background: Option<BackgroundConfig>,
    pub delegate: Option<DelegateConfig>,
    pub tui: Option<TuiConfig>,
}

/// Model of a [`ProjectConfig`].
#[verifier::ext_equal]
pub struct ProjectView {
    pub default: Option<Seq<char>>,
    pub models: Option<Map<Seq<char>, ProfileView>>,
    pub mcp: Option<Map<Seq<char>, ServerView>>,
    pub roles: Option<Map<Seq<char>, Seq<char>>>,
    pub sandbox: Option<ProjectSandboxView>,
    pub bash: Option<BashConfig>,
    pub background: Option<BackgroundConfig>,
    pub delegate: Option<DelegateConfig>,
    pub tui: Option<TuiView>,
}

impl DeepView for ProjectConfig {
    type V = ProjectView;

    open spec fn deep_view(&self) -> ProjectView {
        ProjectView {
            default: self.default.deep_view(),
            models: self.models.deep_view(),
            mcp: self.mcp.deep_view(),
            roles: self.roles.deep_view(),
            sandbox: self.sandbox.deep_view(),
            bash: self.bash,
            background: self.background,
            delegate: self.delegate,
            tui: self.tui.deep_view(),
        }
    }
}

/// Two maps as one; where both name something, the second counts.
pub open spec fn overlaid<V>(
    base: Map<Seq<char>, V>,
    over: Option<Map<Seq<char>, V>>,
) -> Map<Seq<char>, V> {
    match over {
        Some(over) => base.union_prefer_right(over),
        None => base,
    }
}

/// The servers of a project over the global ones. A global server that is
/// switched off stays as it is, whatever the project says of its name.
pub open spec fn overlaid_servers(
    base: Map<Seq<char>, ServerView>,
    over: Map<Seq<char>, ServerView>,
) -> Map<Seq<char>, ServerView> {
    base.union_prefer_right(
        over.remove_keys(
            Set::new(|name: Seq<char>| base.contains_key(name) && !base[name].enabled),
        ),
    )
}

/// A configuration with a project's overrides in place.
pub open spec fn merged(config: ConfigView, project: Option<ProjectView>) -> ConfigView {
    match project {
        None => config,
        Some(project) => ConfigView {
            default: match project.default {
                Some(profile) => Some(profile),
                None => config.default,
            },
            models: overlaid(config.models, project.models),
            mcp: match project.mcp {
                Some(servers) => overlaid_servers(config.mcp, servers),
                None => config.mcp,
            },
            roles: overlaid(config.roles, project.roles),
            tui: match project.tui {
                Some(tui) => Some(tui),
                None => config.tui,
            },
            ..config
        },
    }
}

impl Config {
    /// Whether no table of the configuration gives a name twice.
    pub open spec fn names_are_distinct(&self) -> bool {
        self.providers.distinct() && self.models.distinct() && self.mcp.distinct()
            && self.roles.distinct()
    }

    /// The configuration with a project's overrides in place: its default
    /// profile, its models, servers and roles by name, and its key mapping as a
    /// whole. A global server that is switched off stays off.
    pub fn merged_with_project(&self, project: Option<&ProjectConfig>) -> (r: Config)
        ensures
            r.deep_view() == merged(self.deep_view(), project.deep_view()),
            self.names_are_distinct() ==> r.names_are_distinct(),
    {
        let mut config = self.clone();
        let project = match project {
            Some(project) => project,
            None => return config,
        };
        if let Some(profile) = &project.default {
            config.default = Some(profile.clone());
        }
        if let Some(models) = &project.models {
            config.models.extend(models);
        }
        if let Some(servers) = &project.mcp {
            self.merge_servers(&mut config.mcp, servers);
        }
        if let Some(roles) = &project.roles {
            config.roles.extend(roles);
        }
        if let Some(tui) = &project.tui {
            config.tui = Some(tui.clone());
        }
        config
    }

    /// Put the servers of a project over the global ones.
    fn merge_servers(&self, servers: &mut Table<McpServerConfig>, over: &Table<McpServerConfig>)
        requires
            old(servers).deep_view() == self.mcp.deep_view(),
        ensures
            final(servers).deep_view() == overlaid_servers(self.mcp.deep_view(), over.deep_view()),
            old(servers).distinct() ==> final(servers).distinct(),
    {
        let ghost distinct = servers.distinct();
        let ghost base = self.mcp.deep_view();
        let ghost views = over.entries.deep_view();
        let mut i: usize = 0;
        assert(overlaid_servers(base, map_of(views.take(0))) =~= base);
        while i < over.entries.len()
            invariant
                i <= over.entries.len(),
                base == self.mcp.deep_view(),
                views == over.entries.deep_view(),
                servers.deep_view() == overlaid_servers(base, map_of(views.take(i as int))),
                distinct ==> servers.distinct(),
            decreases over.entries.len() - i,
        {
            let disabled = match self.mcp.get(over.entries[i].0.as_str()) {
                Some(server) => !server.enabled,
                None => false,
            };
            proof {
                let head = views.take(i + 1);
                assert(head.drop_last() =~= views.take(i as int));
                assert(head.last() == over.entries@[i as int].deep_view());
            }
            if !disabled {
                servers.insert(over.entries[i].0.clone(), over.entries[i].1.duplicate());
            }
            assert(servers.deep_view() =~= overlaid_servers(base, map_of(views.take(i + 1))));
            i += 1;
        }
        assert(views.take(views.len() as int) =~= views);
    }
}

/// A global server that is switched off survives every project: the project can
/// neither replace it nor switch it on.
pub proof fn disabled_servers_stay_disabled(
    config: ConfigView,
    project: Option<ProjectView>,
    name: Seq<char>,
)
    requires
        config.mcp.contains_key(name),
        !config.mcp[name].enabled,
    ensures
        merged(config, project).mcp.contains_key(name),
        merged(config, project).mcp[name] == config.mcp[name],
{
}

/// A project changes no provider, credential, session or sandbox setting, and
/// what it does not name keeps its global value.
pub proof fn projects_override_only_what_they_name(
    config: ConfigView,
    project: ProjectView,
    name: Seq<char>,
)
    ensures
        ({
            let after = merged(config, Some(project));
            &&& after.providers == config.providers
            &&& after.web_search == config.web_search
            &&& after.session == config.session
            &&& after.sandbox == config.sandbox
            &&& after.path == config.path
            &&& !(project.models matches Some(models) && models.contains_key(name))
                ==> lookup(after.models, name) == lookup(config.models, name)
            &&& !(project.roles matches Some(roles) && roles.contains_key(name))
                ==> lookup(after.roles, name) == lookup(config.roles, name)
            &&& !(project.mcp matches Some(servers) && servers.contains_key(name))
                ==> lookup(after.mcp, name) == lookup(config.mcp, name)
        }),
{
}

/// How a model's provider is paid and reached.
#[derive(Clone, Copy, Debug, PartialEq, Eq, Structural)]
pub enum AuthMode {
    ApiKey,
    ChatGpt,
}

/// A model profile with everything that a request needs.
#[derive(Debug, PartialEq)]
pub struct ResolvedModel {
    pub base_url: String,
    pub api_key: String,
    pub model: String,
    pub reasoning_effort: Option<String>,
    pub thinking: bool,
    pub deepseek_compat: bool,
    pub auth: AuthMode,
    pub display: String,
    pub context_window: Option<u64>,
    pub vision: bool,
}

/// Model of a [`ResolvedModel`].
#[verifier::ext_equal]
pub struct ResolvedView {
    pub base_url: Seq<char>,
    pub api_key: Seq<char>,
    pub model: Seq<char>,
    pub reasoning_effort: Option<Seq<char>>,
    pub thinking: bool,
    pub deepseek_compat: bool,
    pub auth: AuthMode,
    pub display: Seq<char>,
    pub context_window: Option<u64>,
    pub vision: bool,
}

impl DeepView for ResolvedModel {
    type V = ResolvedView;

    open spec fn deep_view(&self) -> ResolvedView {
        ResolvedView {
            base_url: self.base_url@,
            api_key: self.api_key@,
            model: self.model@,
            reasoning_effort: self.reasoning_effort.deep_view(),
            thinking: self.thinking,
            deepseek_compat: self.deepseek_compat,
            auth: self.auth,
            display: self.display@,
            context_window: self.context_window,
            vision: self.vision,
        }
    }
}

/// Where a credential is to be read from.
#[derive(Debug, PartialEq)]
pub enum CredentialSource {
    File { path: String },
    Env { variable: String },
}

/// Model of a [`CredentialSource`].
pub enum CredentialView {
    File { path: Seq<char> },
    Env { variable: Seq<char> },
}

impl DeepView for CredentialSource {
    type V = CredentialView;

    open spec fn deep_view(&self) -> CredentialView {
        match self {
            CredentialSource::File { path } => CredentialView::File { path: path@ },
            CredentialSource::Env { variable } => CredentialView::Env { variable: variable@ },
        }
    }
}

/// A profile as far as it can be resolved without its credential.
#[verifier::ext_equal]
pub struct PlanView {
    pub model: ResolvedView,
    pub provider: Seq<char>,
    /// Where the credential is to be read from; nothing where none is needed.
    pub source: Option<CredentialView>,
}

/// A text between two backticks, framed by two others.
pub open spec fn ticked(before: Seq<char>, name: Seq<char>, after: Seq<char>) -> Seq<char> {
    before + "`"@ + name + "`"@ + after
}

/// The value of a switch that is off unless it is set.
pub open spec fn is_on(switch: Option<bool>) -> bool {
    switch == Some(true)
}

/// The provider that a profile `provider/model` names.
pub open spec fn provider_of(profile: Seq<char>) -> Option<Seq<char>> {
    let slash = first_of(profile, '/');
    if 0 < slash < profile.len() {
        Some(profile.take(slash))
    } else {
        None
    }
}

/// A text that is set and not empty.
pub open spec fn filled(text: Option<Seq<char>>) -> Option<Seq<char>> {
    match text {
        Some(text) if text.len() > 0 => Some(text),
        _ => None,
    }
}

/// Where a key file stands: relative to the configuration file.
pub open spec fn key_path(config: ConfigView, file: Seq<char>) -> Seq<char> {
    joined_path(directory_of(config.path), file)
}

/// The refusal of a provider with both kinds of credential, or with none.
pub open spec fn credential_error(provider: Seq<char>, verb: Seq<char>) -> Seq<char> {
    ticked(
        "provider "@,
        provider,
        verb + " exactly one of `api_key_file` or `api_key_env`"@,
    )
}

/// The profile with the settings of its model, without the provider's part.
pub open spec fn bare_model(profile: Seq<char>, model: ProfileView) -> ResolvedView {
    ResolvedView {
        base_url: Seq::empty(),
        api_key: Seq::empty(),
        model: filled(model.model)->0,
        reasoning_effort: model.reasoning_effort,
        thinking: is_on(model.thinking),
        deepseek_compat: is_on(model.deepseek_compat),
        auth: AuthMode::ChatGpt,
        display: profile,
        context_window: model.context_window,
        vision: is_on(model.vision),
    }
}

/// The provider's part of a profile: who authorises the requests, where they go,
/// and where the credential is read from.
pub open spec fn provider_plan(
    config: ConfigView,
    name: Seq<char>,
    provider: ProviderView,
    model: ResolvedView,
) -> Result<PlanView, Seq<char>> {
    match provider.auth {
        Some(auth) => if auth != "chatgpt"@ {
            Err(ticked("provider "@, name, ticked(" has unsupported auth "@, auth, Seq::empty())))
        } else if provider.base_url is Some || provider.api_key_file is Some
            || provider.api_key_env is Some {
            Err(
                ticked(
                    "provider "@,
                    name,
                    " with auth = `chatgpt` cannot set `base_url`, `api_key_file`, or `api_key_env`"@,
                ),
            )
        } else {
            Ok(PlanView { model, provider: name, source: None })
        },
        None => match filled(provider.base_url) {
            None => Err(ticked("provider "@, name, " requires `base_url`"@)),
            Some(url) => {
                let model = ResolvedView { base_url: url, auth: AuthMode::ApiKey, ..model };
                match (provider.api_key_file, provider.api_key_env) {
                    (Some(_), Some(_)) => Err(credential_error(name, " must set"@)),
                    (None, None) => Err(credential_error(name, " requires"@)),
                    (Some(file), None) => Ok(
                        PlanView {
                            model,
                            provider: name,
                            source: Some(CredentialView::File { path: key_path(config, file) }),
                        },
                    ),
                    (None, Some(variable)) => Ok(
                        PlanView {
                            model,
                            provider: name,
                            source: Some(CredentialView::Env { variable }),
                        },
                    ),
                }
            },
        },
    }
}

/// A profile as far as it can be resolved without its credential, or the first
/// thing that is wrong with it.
pub open spec fn planned(config: ConfigView, profile: Seq<char>) -> Result<PlanView, Seq<char>> {
    match provider_of(profile) {
        None => Err(ticked("profile "@, profile, " must be named provider/model"@)),
        Some(name) => match lookup(config.models, profile) {
            None => Err(ticked("model profile "@, profile, " is not defined"@)),
            Some(model) => match filled(model.model) {
                None => Err(ticked("model profile "@, profile, " requires `model`"@)),
                Some(_) => match lookup(config.providers, name) {
                    None => Err(
                        ticked(
                            "provider "@,
                            name,
                            ticked(" for profile "@, profile, " is not defined"@),
                        ),
                    ),
                    Some(provider) => provider_plan(
                        config,
                        name,
                        provider,
                        bare_model(profile, model),
                    ),
                },
            },
        },
    }
}

/// A planned profile with what its credential source held; `None` says that it
/// could not be read.
pub open spec fn with_credential(plan: PlanView, credential: Option<Seq<char>>) -> Result<
    ResolvedView,
    Seq<char>,
> {
    match plan.source {
        None => Ok(plan.model),
        Some(source) => match credential {
            None => Err(
                match source {
                    CredentialView::File { path } => ticked(
                        "cannot read api_key_file for provider "@,
                        plan.provider,
                        " at "@ + path,
                    ),
                    CredentialView::Env { variable } => ticked(
                        "api_key_env "@,
                        variable,
                        ticked(" for provider "@, plan.provider, " is not set"@),
                    ),
                },
            ),
            Some(text) => if trimmed(text).len() == 0 {
                Err(ticked("credential for provider "@, plan.provider, " is empty"@))
            } else {
                Ok(ResolvedView { api_key: trimmed(text), ..plan.model })
            },
        },
    }
}

/// A resolved profile, given what its credential source held.
pub open spec fn resolved(
    config: ConfigView,
    profile: Seq<char>,
    credential: Option<Seq<char>>,
) -> Result<ResolvedView, Seq<char>> {
    match planned(config, profile) {
        Err(error) => Err(error),
        Ok(plan) => with_credential(plan, credential),
    }
}

/// A profile as far as it can be resolved without its credential.
#[derive(Debug, PartialEq)]
pub struct ProfilePlan {
    pub model: ResolvedModel,
    pub provider: String,
    /// Where the credential is to be read from; nothing where none is needed.
    pub source: Option<CredentialSource>,
}

impl DeepView for ProfilePlan {
    type V = PlanView;

    open spec fn deep_view(&self) -> PlanView {
        PlanView {
            model: self.model.deep_view(),
            provider: self.provider@,
            source: self.source.deep_view(),
        }
    }
}

/// A text between two backticks, framed by two others.
fn tick(before: &str, name: &str, after: &str) -> (r: String)
    ensures
        r@ == ticked(before@, name@, after@),
{
    let mut out = before.to_owned();
    out.push_str("`");
    out.push_str(name);
    out.push_str("`");
    out.push_str(after);
    out
}

/// The value of a switch that is off unless it is set.
fn switch_is_on(switch: Option<bool>) -> (r: bool)
    ensures
        r == is_on(switch),
{
    match switch {
        Some(value) => value,
        None => false,
    }
}

/// A text that is set and not empty.
fn filled_text(text: &Option<String>) -> (r: Option<String>)
    ensures
        r.deep_view() == filled(text.deep_view()),
{
    match text {
        Some(text) => if text.as_str().is_empty() {
            None
        } else {
            Some(text.clone())
        },
        None => None,
    }
}

/// The provider that a profile `provider/model` names.
fn provider_name(profile: &str) -> (r: Option<String>)
    ensures
        r.deep_view() == provider_of(profile@),
{
    let chars = chars_of(profile);
    let slash: usize = index_of(&chars, '/');
    if slash == 0 || slash == chars.len() {
        return None;
    }
    let r = text_of(&chars, 0, slash);
    assert(r@ =~= profile@.take(first_of(profile@, '/')));
    Some(r)
}

/// A result over a plan, seen through its model.
pub open spec fn plan_result(r: Result<ProfilePlan, String>) -> Result<PlanView, Seq<char>> {
    match r {
        Ok(plan) => Ok(plan.deep_view()),
        Err(error) => Err(error@),
    }
}

/// A result over a resolved model, seen through its model.
pub open spec fn model_result(r: Result<ResolvedModel, String>) -> Result<
    ResolvedView,
    Seq<char>,
> {
    match r {
        Ok(model) => Ok(model.deep_view()),
        Err(error) => Err(error@),
    }
}

impl Config {
    /// Where a key file stands.
    fn key_file(&self, file: &str) -> (r: String)
        ensures
            r@ == key_path(self.deep_view(), file@),
    {
        join_path(parent_directory(self.path.as_str()).as_str(), file)
    }

    /// The provider's part of a profile.
    fn plan_provider(&self, name: String, provider: &Provider, model: ResolvedModel) -> (r: Result<
        ProfilePlan,
        String,
    >)
        ensures
            plan_result(r) == provider_plan(
                self.deep_view(),
                name@,
                provider.deep_view(),
                model.deep_view(),
            ),
    {
        if let Some(auth) = &provider.auth {
            if !same_text(auth.as_str(), "chatgpt") {
                let tail = tick(" has unsupported auth ", auth.as_str(), "");
                proof {
                    reveal_strlit("");
                    assert(""@ =~= Seq::<char>::empty());
                }
                return Err(tick("provider ", name.as_str(), tail.as_str()));
            }
            if provider.base_url.is_some() || provider.api_key_file.is_some()
                || provider.api_key_env.is_some() {
                return Err(
                    tick(
                        "provider ",
                        name.as_str(),
                        " with auth = `chatgpt` cannot set `base_url`, `api_key_file`, or `api_key_env`",
                    ),
                );
            }
            return Ok(ProfilePlan { model, provider: name, source: None });
        }
        let base_url = match filled_text(&provider.base_url) {
            Some(url) => url,
            None => return Err(tick("provider ", name.as_str(), " requires `base_url`")),
        };
        let mut model = model;
        model.base_url = base_url;
        model.auth = AuthMode::ApiKey;
        let source = match (&provider.api_key_file, &provider.api_key_env) {
            (Some(_), Some(_)) => {
                let mut tail = " must set".to_owned();
                tail.push_str(" exactly one of `api_key_file` or `api_key_env`");
                return Err(tick("provider ", name.as_str(), tail.as_str()));
            },
            (None, None) => {
                let mut tail = " requires".to_owned();
                tail.push_str(" exactly one of `api_key_file` or `api_key_env`");
                return Err(tick("provider ", name.as_str(), tail.as_str()));
            },
            (Some(file), None) => CredentialSource::File { path: self.key_file(file.as_str()) },
            (None, Some(variable)) => CredentialSource::Env { variable: variable.clone() },
        };
        Ok(ProfilePlan { model, provider: name, source: Some(source) })
    }

    /// Resolve a profile `provider/model` as far as it goes without reading its
    /// credential.
    pub fn plan_profile(&self, profile: &str) -> (r: Result<ProfilePlan, String>)
        ensures
            plan_result(r) == planned(self.deep_view(), profile@),
    {
        let name = match provider_name(profile) {
            Some(name) => name,
            None => return Err(tick("profile ", profile, " must be named provider/model")),
        };
        let settings = match self.models.get(profile) {
            Some(settings) => settings,
            None => return Err(tick("model profile ", profile, " is not defined")),
        };
        let model = match filled_text(&settings.model) {
            Some(model) => model,
            None => return Err(tick("model profile ", profile, " requires `model`")),
        };
        let provider = match self.providers.get(name.as_str()) {
            Some(provider) => provider,
            None => {
                let tail = tick(" for profile ", profile, " is not defined");
                return Err(tick("provider ", name.as_str(), tail.as_str()));
            },
        };
        let bare = ResolvedModel {
            base_url: String::new(),
            api_key: String::new(),
            model,
            reasoning_effort: settings.reasoning_effort.clone(),
            thinking: switch_is_on(settings.thinking),
            deepseek_compat: switch_is_on(settings.deepseek_compat),
            auth: AuthMode::ChatGpt,
            display: profile.to_owned(),
            context_window: settings.context_window,
            vision: switch_is_on(settings.vision),
        };
        self.plan_provider(name, provider, bare)
    }

    /// Resolve a profile, given what its credential source held; `None` says
    /// that the source could not be read.
    pub fn resolve_profile(&self, profile: &str, credential: Option<&str>) -> (r: Result<
        ResolvedModel,
        String,
    >)
        ensures
            model_result(r) == resolved(self.deep_view(), profile@, credential.deep_view()),
    {
        let plan = match self.plan_profile(profile) {
            Ok(plan) => plan,
            Err(error) => return Err(error),
        };
        let source = match plan.source {
            Some(source) => source,
            None => return Ok(plan.model),
        };
        let text = match credential {
            Some(text) => text,
            None => match source {
                CredentialSource::File { path } => {
                    let mut tail = " at ".to_owned();
                    tail.push_str(path.as_str());
                    return Err(
                        tick(
                            "cannot read api_key_file for provider ",
                            plan.provider.as_str(),
                            tail.as_str(),
                        ),
                    );
                },
                CredentialSource::Env { variable } => {
                    let tail = tick(" for provider ", plan.provider.as_str(), " is not set");
                    return Err(tick("api_key_env ", variable.as_str(), tail.as_str()));
                },
            },
        };
        let key = trim(text);
        if key.as_str().is_empty() {
            return Err(tick("credential for provider ", plan.provider.as_str(), " is empty"));
        }
        let mut model = plan.model;
        model.api_key = key;
        Ok(model)
    }

    /// The profile that a request uses: the named one, else the default, else
    /// that of the main role.
    pub fn chosen_profile(&self, requested: Option<&str>) -> (r: Option<String>)
        ensures
            r.deep_view() == chosen(self.deep_view(), requested.deep_view()),
    {
        if let Some(profile) = requested {
            return Some(profile.to_owned());
        }
        if let Some(profile) = &self.default {
            return Some(profile.clone());
        }
        match self.roles.get("main") {
            Some(profile) => Some(profile.clone()),
            None => None,
        }
    }

    /// Resolve the profile that a request uses, given what its credential
    /// source held.
    pub fn resolve(&self, requested: Option<&str>, credential: Option<&str>) -> (r: Result<
        ResolvedModel,
        String,
    >)
        ensures
            model_result(r) == match chosen(self.deep_view(), requested.deep_view()) {
                Some(profile) => resolved(self.deep_view(), profile, credential.deep_view()),
                None => Err(
                    "config requires `default`, `[roles] main`, or --profile PROFILE"@,
                ),
            },
    {
        match self.chosen_profile(requested) {
            Some(profile) => self.resolve_profile(profile.as_str(), credential),
            None => Err(
                "config requires `default`, `[roles] main`, or --profile PROFILE".to_owned(),
            ),
        }
    }

    /// Resolve the profile of a role; nothing for a role without one.
    pub fn resolve_role(&self, role: &str, credential: Option<&str>) -> (r: Result<
        Option<ResolvedModel>,
        String,
    >)
        ensures
            match r {
                Ok(None) => role_resolved(self.deep_view(), role@, credential.deep_view()) == Ok::<
                    Option<ResolvedView>,
                    Seq<char>,
                >(None),
                Ok(Some(model)) => role_resolved(
                    self.deep_view(),
                    role@,
                    credential.deep_view(),
                ) == Ok::<Option<ResolvedView>, Seq<char>>(Some(model.deep_view())),
                Err(error) => role_resolved(
                    self.deep_view(),
                    role@,
                    credential.deep_view(),
                ) == Err::<Option<ResolvedView>, Seq<char>>(error@),
            },
    {
        match self.roles.get(role) {
            Some(profile) => match self.resolve_profile(profile.as_str(), credential) {
                Ok(model) => Ok(Some(model)),
                Err(error) => Err(error),
            },
            None => Ok(None),
        }
    }

    /// Resolve the profile of every role, in the order of the table;
    /// `credentials` holds what the credential source of each held. The first
    /// refusal is the result.
    pub fn resolve_roles(&self, credentials: &Vec<Option<String>>) -> (r: Result<
        Vec<(String, ResolvedModel)>,
        String,
    >)
        requires
            credentials@.len() == self.roles.entries@.len(),
        ensures
            match r {
                Ok(models) => resolved_entries(
                    self.deep_view(),
                    self.roles.entries.deep_view(),
                    credentials.deep_view(),
                    credentials@.len(),
                ) == Ok::<Seq<(Seq<char>, ResolvedView)>, Seq<char>>(models.deep_view()),
                Err(error) => resolved_entries(
                    self.deep_view(),
                    self.roles.entries.deep_view(),
                    credentials.deep_view(),
                    credentials@.len(),
                ) == Err::<Seq<(Seq<char>, ResolvedView)>, Seq<char>>(error@),
            },
    {
        let ghost config = self.deep_view();
        let ghost entries = self.roles.entries.deep_view();
        let ghost keys = credentials.deep_view();
        let mut out: Vec<(String, ResolvedModel)> = Vec::new();
        assert(out.deep_view() =~= Seq::empty());
        let mut i: usize = 0;
        while i < self.roles.entries.len()
            invariant
                i <= self.roles.entries.len() == credentials.len(),
                config == self.deep_view(),
                entries == self.roles.entries.deep_view(),
                keys == credentials.deep_view(),
                resolved_entries(config, entries, keys, i as nat) == Ok::<
                    Seq<(Seq<char>, ResolvedView)>,
                    Seq<char>,
                >(out.deep_view()),
            decreases self.roles.entries.len() - i,
        {
            proof {
                assert(entries[i as int] == (
                    self.roles.entries@[i as int].0@,
                    self.roles.entries@[i as int].1@,
                ));
                assert(keys[i as int] == credentials@[i as int].deep_view());
            }
            let credential = match &credentials[i] {
                Some(text) => Some(text.as_str()),
                None => None,
            };
            match self.resolve_profile(self.roles.entries[i].1.as_str(), credential) {
                Ok(model) => {
                    let ghost before = out.deep_view();
                    out.push((self.roles.entries[i].0.clone(), model));
                    assert(out.deep_view() =~= before.push(
                        (entries[i as int].0, model.deep_view()),
                    ));
                },
                Err(error) => {
                    proof {
                        lemma_entries_stop(config, entries, keys, i as nat + 1, keys.len());
                    }
                    return Err(error);
                },
            }
            i += 1;
        }
        Ok(out)
    }

    /// Every profile that can be switched to: those of the models and those
    /// that roles name, sorted and each once.
    pub fn model_profiles(&self) -> (r: Vec<String>)
        ensures
            r.deep_view() == sorted_set::<String>(
                profile_names(self.models.entries.deep_view(), self.roles.entries.deep_view()),
            ),
    {
        let ghost models = self.models.entries.deep_view();
        let ghost roles = self.roles.entries.deep_view();
        let ghost keys = models.map_values(|entry: (Seq<char>, ProfileView)| entry.0);
        let mut out: Vec<String> = Vec::new();
        assert(out.deep_view() =~= Seq::empty());
        assert(keys.take(0) =~= Seq::empty());
        let mut i: usize = 0;
        while i < self.models.entries.len()
            invariant
                i <= self.models.entries.len(),
                models == self.models.entries.deep_view(),
                keys == models.map_values(|entry: (Seq<char>, ProfileView)| entry.0),
                out.deep_view() == sorted_set::<String>(keys.take(i as int)),
            decreases self.models.entries.len() - i,
        {
            insert_sorted(&mut out, self.models.entries[i].0.clone());
            i += 1;
            proof {
                assert(keys.take(i as int).drop_last() =~= keys.take(i - 1));
                assert(keys.take(i as int).last() == self.models.entries@[i - 1].0@);
            }
        }
        assert(keys.take(keys.len() as int) =~= keys);
        let ghost all = profile_names(models, roles);
        let mut k: usize = 0;
        assert(all.take(keys.len() as int) =~= keys);
        while k < self.roles.entries.len()
            invariant
                k <= self.roles.entries.len(),
                roles == self.roles.entries.deep_view(),
                keys == models.map_values(|entry: (Seq<char>, ProfileView)| entry.0),
                all == profile_names(models, roles),
                out.deep_view() == sorted_set::<String>(all.take(keys.len() + k)),
            decreases self.roles.entries.len() - k,
        {
            insert_sorted(&mut out, self.roles.entries[k].1.clone());
            k += 1;
            proof {
                assert(all.take(keys.len() + k).drop_last() =~= all.take(keys.len() + k - 1));
                assert(all.take(keys.len() + k).last() == self.roles.entries@[k - 1].1@);
            }
        }
        assert(all.take(all.len() as int) =~= all);
        out
    }

    /// Where the credential of the web search is to be read from; nothing
    /// without the section. The section names exactly one place.
    pub fn web_search_source(&self) -> (r: Result<Option<CredentialSource>, String>)
        ensures
            match r {
                Ok(source) => search_source(self.deep_view()) == Ok::<
                    Option<CredentialView>,
                    Seq<char>,
                >(source.deep_view()),
                Err(error) => search_source(self.deep_view()) == Err::<
                    Option<CredentialView>,
                    Seq<char>,
                >(error@),
            },
    {
        let section = match &self.web_search {
            Some(section) => section,
            None => return Ok(None),
        };
        match (&section.api_key_file, &section.api_key_env) {
            (Some(_), Some(_)) => Err(
                "[web_search] must set exactly one of `api_key_file` or `api_key_env`".to_owned(),
            ),
            (None, None) => Err(
                "[web_search] requires exactly one of `api_key_file` or `api_key_env`".to_owned(),
            ),
            (Some(file), None) => Ok(
                Some(CredentialSource::File { path: self.key_file(file.as_str()) }),
            ),
            (None, Some(variable)) => Ok(
                Some(CredentialSource::Env { variable: variable.clone() }),
            ),
        }
    }

    /// The key of the web search, given what its source held. A key file that
    /// cannot be read switches the search off; an unset variable is refused.
    pub fn web_search_key(&self, credential: Option<&str>) -> (r: Result<Option<String>, String>)
        ensures
            match r {
                Ok(key) => search_key(self.deep_view(), credential.deep_view()) == Ok::<
                    Option<Seq<char>>,
                    Seq<char>,
                >(key.deep_view()),
                Err(error) => search_key(self.deep_view(), credential.deep_view()) == Err::<
                    Option<Seq<char>>,
                    Seq<char>,
                >(error@),
            },
    {
        let source = match self.web_search_source() {
            Ok(Some(source)) => source,
            Ok(None) => return Ok(None),
            Err(error) => return Err(error),
        };
        let text = match credential {
            Some(text) => text,
            None => match source {
                CredentialSource::File { .. } => return Ok(None),
                CredentialSource::Env { variable } => return Err(
                    tick("api_key_env ", variable.as_str(), " for [web_search] is not set"),
                ),
            },
        };
        let key = trim(text);
        if key.as_str().is_empty() {
            return Err("credential for [web_search] is empty".to_owned());
        }
        Ok(Some(key))
    }

    /// The sandbox policy of a workspace.
    pub fn sandbox(&self, sources: &SandboxSources) -> (r: Result<Sandbox, String>)
        requires
            lookups_match(
                match self.deep_view().sandbox {
                    Some(base) => base,
                    None => default_sandbox(),
                },
                sources.deep_view(),
            ),
        ensures
            sandbox_result(r) == policy(
                match self.deep_view().sandbox {
                    Some(base) => base,
                    None => default_sandbox(),
                },
                sources.deep_view(),
            ),
    {
        resolve_sandbox(self.sandbox.as_ref(), sources)
    }

    /// Where sessions are stored; a local database without the section.
    pub fn session_backend(&self) -> (r: SessionBackend)
        ensures
            r.deep_view() == match self.deep_view().session {
                Some(backend) => backend,
                None => BackendView::Sqlite { path: None },
            },
    {
        match &self.session {
            Some(session) => session.backend.clone(),
            None => SessionBackend::default(),
        }
    }

    /// The key mapping. Unknown keys, and one key for both uses, are refused.
    pub fn tui_keys(&self) -> (r: Result<InputKeys, String>)
        ensures
            match r {
                Ok(keys) => mapped_keys(self.deep_view().tui) == Ok::<InputKeys, Seq<char>>(keys),
                Err(error) => mapped_keys(self.deep_view().tui) == Err::<InputKeys, Seq<char>>(
                    error@,
                ),
            },
    {
        let tui = match &self.tui {
            Some(tui) => tui,
            None => return Ok(InputKeys::default()),
        };
        let submit = match &tui.submit {
            Some(key) => key.clone(),
            None => "enter".to_owned(),
        };
        let newline = match &tui.newline {
            Some(key) => key.clone(),
            None => "alt+enter".to_owned(),
        };
        let submit_modifiers = match parse_enter_key(submit.as_str()) {
            Some(key) => key,
            None => return Err(unsupported_key("submit", submit.as_str())),
        };
        let newline_modifiers = match parse_enter_key(newline.as_str()) {
            Some(key) => key,
            None => return Err(unsupported_key("newline", newline.as_str())),
        };
        if submit_modifiers == newline_modifiers {
            let mut error =
                "[tui] submit and newline must be different keys; both are configured as \"".to_owned();
            error.push_str(submit.as_str());
            error.push_str("\"");
            return Err(error);
        }
        Ok(InputKeys { submit_modifiers, newline_modifiers })
    }
}

/// The refusal of an unknown key.
pub open spec fn key_error(field: Seq<char>, key: Seq<char>) -> Seq<char> {
    "[tui] "@ + field + " = \""@ + key + "\" is not a supported key; expected one of: "@
        + SUPPORTED_ENTER_KEYS@
}

/// The refusal of an unknown key.
fn unsupported_key(field: &str, key: &str) -> (r: String)
    ensures
        r@ == key_error(field@, key@),
{
    let mut error = "[tui] ".to_owned();
    error.push_str(field);
    error.push_str(" = \"");
    error.push_str(key);
    error.push_str("\" is not a supported key; expected one of: ");
    error.push_str(SUPPORTED_ENTER_KEYS);
    error
}

/// The key mapping of a section; what it leaves out has the default.
pub open spec fn mapped_keys(tui: Option<TuiView>) -> Result<InputKeys, Seq<char>> {
    match tui {
        None => Ok(
            InputKeys { submit_modifiers: EnterKey::Plain, newline_modifiers: EnterKey::Alt },
        ),
        Some(tui) => {
            let submit = match tui.submit {
                Some(key) => key,
                None => "enter"@,
            };
            let newline = match tui.newline {
                Some(key) => key,
                None => "alt+enter"@,
            };
            match (enter_key(submit), enter_key(newline)) {
                (None, _) => Err(key_error("submit"@, submit)),
                (Some(_), None) => Err(key_error("newline"@, newline)),
                (Some(a), Some(b)) => if a == b {
                    Err(
                        "[tui] submit and newline must be different keys; both are configured as \""@
                            + submit + "\""@,
                    )
                } else {
                    Ok(InputKeys { submit_modifiers: a, newline_modifiers: b })
                },
            }
        },
    }
}

/// The profile that a request uses.
pub open spec fn chosen(config: ConfigView, requested: Option<Seq<char>>) -> Option<Seq<char>> {
    match requested {
        Some(profile) => Some(profile),
        None => match config.default {
            Some(profile) => Some(profile),
            None => lookup(config.roles, "main"@),
        },
    }
}

/// The resolved profile of a role, nothing for a role without one, or the
/// refusal.
pub open spec fn role_resolved(
    config: ConfigView,
    role: Seq<char>,
    credential: Option<Seq<char>>,
) -> Result<Option<ResolvedView>, Seq<char>> {
    match lookup(config.roles, role) {
        None => Ok(None),
        Some(profile) => match resolved(config, profile, credential) {
            Ok(model) => Ok(Some(model)),
            Err(error) => Err(error),
        },
    }
}

/// The first `n` roles with their resolved profiles, or the first refusal.
pub open spec fn resolved_entries(
    config: ConfigView,
    roles: Seq<(Seq<char>, Seq<char>)>,
    credentials: Seq<Option<Seq<char>>>,
    n: nat,
) -> Result<Seq<(Seq<char>, ResolvedView)>, Seq<char>>
    decreases n,
{
    if n == 0 {
        Ok(Seq::empty())
    } else {
        match resolved_entries(config, roles, credentials, (n - 1) as nat) {
            Err(error) => Err(error),
            Ok(models) => match resolved(config, roles[n - 1].1, credentials[n - 1]) {
                Err(error) => Err(error),
                Ok(model) => Ok(models.push((roles[n - 1].0, model))),
            },
        }
    }
}

proof fn lemma_entries_stop(
    config: ConfigView,
    roles: Seq<(Seq<char>, Seq<char>)>,
    credentials: Seq<Option<Seq<char>>>,
    n: nat,
    m: nat,
)
    requires
        n <= m,
        resolved_entries(config, roles, credentials, n) is Err,
    ensures
        resolved_entries(config, roles, credentials, m) == resolved_entries(
            config,
            roles,
            credentials,
            n,
        ),
    decreases m - n,
{
    if n < m {
        lemma_entries_stop(config, roles, credentials, n, (m - 1) as nat);
    }
}

proof fn lemma_entries_resolve(
    config: ConfigView,
    roles: Seq<(Seq<char>, Seq<char>)>,
    credentials: Seq<Option<Seq<char>>>,
    n: nat,
)
    requires
        n <= roles.len(),
    ensures
        match resolved_entries(config, roles, credentials, n) {
            Ok(models) => models.len() == n && forall|i: int|
                0 <= i < n ==> (#[trigger] models[i]).0 == roles[i].0 && resolved(
                    config,
                    roles[i].1,
                    credentials[i],
                ) == Ok::<ResolvedView, Seq<char>>(models[i].1),
            Err(error) => exists|i: int|
                0 <= i < n && resolved(config, (#[trigger] roles[i]).1, credentials[i]) == Err::<
                    ResolvedView,
                    Seq<char>,
                >(error),
        },
    decreases n,
{
    if n > 0 {
        lemma_entries_resolve(config, roles, credentials, (n - 1) as nat);
        let last = roles[n - 1];
    }
}

/// All roles resolve exactly where each role resolves by itself, and then to the
/// same models: every role of the configuration comes once, with the model that it
/// has alone. One role that fails makes the whole fail.
pub proof fn roles_resolve_together_as_alone(
    config: ConfigView,
    roles: Seq<(Seq<char>, Seq<char>)>,
    credentials: Seq<Option<Seq<char>>>,
)
    requires
        distinct_names(roles),
        config.roles == map_of(roles),
        credentials.len() == roles.len(),
    ensures
        resolved_entries(config, roles, credentials, roles.len()) is Ok <==> forall|i: int|
            0 <= i < roles.len() ==> role_resolved(
                config,
                (#[trigger] roles[i]).0,
                credentials[i],
            ) is Ok,
        resolved_entries(config, roles, credentials, roles.len()) matches Ok(models) ==> {
            &&& models.len() == roles.len()
            &&& distinct_names(models)
            &&& map_of(models).dom() =~= config.roles.dom()
            &&& forall|i: int|
                0 <= i < roles.len() ==> (#[trigger] models[i]).0 == roles[i].0 && role_resolved(
                    config,
                    models[i].0,
                    credentials[i],
                ) == Ok::<Option<ResolvedView>, Seq<char>>(Some(models[i].1))
        },
{
    lemma_entries_resolve(config, roles, credentials, roles.len());
    assert forall|i: int| 0 <= i < roles.len() implies lookup(
        config.roles,
        (#[trigger] roles[i]).0,
    ) == Some(roles[i].1) by {
        lemma_distinct_lookup(roles, i);
    }
    match resolved_entries(config, roles, credentials, roles.len()) {
        Ok(models) => {
            assert forall|i: int| 0 <= i < roles.len() implies role_resolved(
                config,
                (#[trigger] roles[i]).0,
                credentials[i],
            ) is Ok by {
                assert(models[i].0 == roles[i].0);
            }
            assert forall|i: int, j: int| 0 <= i < j < models.len() implies (
            #[trigger] models[i]).0 != (#[trigger] models[j]).0 by {
                assert(roles[i].0 != roles[j].0);
            }
            assert forall|key: Seq<char>|
                map_of(models).dom().contains(key) == config.roles.dom().contains(key) by {
                lemma_named_by_an_entry(models, key);
                lemma_named_by_an_entry(roles, key);
                if map_of(models).contains_key(key) {
                    let i = choose|i: int|
                        0 <= i < models.len() && (#[trigger] models[i]).0 == key;
                    assert(roles[i].0 == key);
                }
                if config.roles.contains_key(key) {
                    let i = choose|i: int| 0 <= i < roles.len() && (#[trigger] roles[i]).0 == key;
                    assert(models[i].0 == key);
                }
            }
        },
        Err(error) => {
            let i = choose|i: int|
                0 <= i < roles.len() && resolved(config, (#[trigger] roles[i]).1, credentials[i])
                    == Err::<ResolvedView, Seq<char>>(error);
            assert(role_resolved(config, roles[i].0, credentials[i]) is Err);
        },
    }
}

/// The names of all models, then the profiles of all roles.
pub open spec fn profile_names(
    models: Seq<(Seq<char>, ProfileView)>,
    roles: Seq<(Seq<char>, Seq<char>)>,
) -> Seq<Seq<char>> {
    models.map_values(|entry: (Seq<char>, ProfileView)| entry.0) + roles.map_values(
        |entry: (Seq<char>, Seq<char>)| entry.1,
    )
}

/// Where the credential of the web search is to be read from.
pub open spec fn search_source(config: ConfigView) -> Result<Option<CredentialView>, Seq<char>> {
    match config.web_search {
        None => Ok(None),
        Some(section) => match (section.api_key_file, section.api_key_env) {
            (Some(_), Some(_)) => Err(
                "[web_search] must set exactly one of `api_key_file` or `api_key_env`"@,
            ),
            (None, None) => Err(
                "[web_search] requires exactly one of `api_key_file` or `api_key_env`"@,
            ),
            (Some(file), None) => Ok(
                Some(CredentialView::File { path: key_path(config, file) }),
            ),
            (None, Some(variable)) => Ok(Some(CredentialView::Env { variable })),
        },
    }
}

/// The key of the web search, given what its source held.
pub open spec fn search_key(config: ConfigView, credential: Option<Seq<char>>) -> Result<
    Option<Seq<char>>,
    Seq<char>,
> {
    match search_source(config) {
        Err(error) => Err(error),
        Ok(None) => Ok(None),
        Ok(Some(source)) => match credential {
            Some(text) => if trimmed(text).len() == 0 {
                Err("credential for [web_search] is empty"@)
            } else {
                Ok(Some(trimmed(text)))
            },
            None => match source {
                CredentialView::File { .. } => Ok(None),
                CredentialView::Env { variable } => Err(
                    ticked("api_key_env "@, variable, " for [web_search] is not set"@),
                ),
            },
        },
    }
}

/// A number of seconds from two levels of settings: the project's counts before
/// the user's, 0 means no limit, and without either the default counts.
pub open spec fn limit_secs(local: Option<u64>, global: Option<u64>, default: u64) -> Option<u64> {
    let secs = match local {
        Some(secs) => secs,
        None => match global {
            Some(secs) => secs,
            None => default,
        },
    };
    if secs == 0 {
        None
    } else {
        Some(secs)
    }
}

/// A number of seconds from two levels of settings.
fn resolve_secs(local: Option<u64>, global: Option<u64>, default: u64) -> (r: Option<u64>)
    ensures
        r == limit_secs(local, global, default),
{
    let secs: u64 = match local {
        Some(secs) => secs,
        None => match global {
            Some(secs) => secs,
            None => default,
        },
    };
    if secs == 0 {
        None
    } else {
        Some(secs)
    }
}

/// The background timeout of an optional configuration.
pub open spec fn background_secs(section: Option<BackgroundConfig>) -> Option<u64> {
    match section {
        Some(section) => section.timeout_secs,
        None => None,
    }
}

/// The foreground timeout of an optional configuration.
pub open spec fn bash_secs(section: Option<BashConfig>) -> Option<u64> {
    match section {
        Some(section) => section.timeout_secs,
        None => None,
    }
}

/// The final wait of an optional configuration.
pub open spec fn finalize_secs(section: Option<DelegateConfig>) -> Option<u64> {
    match section {
        Some(section) => section.finalize_wait_secs,
        None => None,
    }
}

/// Timeout of background tasks in seconds; none where it is switched off.
pub fn resolve_background_timeout(
    config: Option<&Config>,
    project: Option<&ProjectConfig>,
) -> (r: Option<u64>)
    ensures
        r == limit_secs(
            match project {
                Some(project) => background_secs(project.background),
                None => None,
            },
            match config {
                Some(config) => background_secs(config.background),
                None => None,
            },
            DEFAULT_BACKGROUND_TIMEOUT_SECS,
        ),
{
    let local = match project {
        Some(project) => match &project.background {
            Some(section) => section.timeout_secs,
            None => None,
        },
        None => None,
    };
    let global = match config {
        Some(config) => match &config.background {
            Some(section) => section.timeout_secs,
            None => None,
        },
        None => None,
    };
    resolve_secs(local, global, DEFAULT_BACKGROUND_TIMEOUT_SECS)
}

/// Timeout of foreground commands in seconds; none where it is switched off.
pub fn resolve_bash_timeout(config: Option<&Config>, project: Option<&ProjectConfig>) -> (r: Option<
    u64,
>)
    ensures
        r == limit_secs(
            match project {
                Some(project) => bash_secs(project.bash),
                None => None,
            },
            match config {
                Some(config) => bash_secs(config.bash),
                None => None,
            },
            DEFAULT_BASH_TIMEOUT_SECS,
        ),
{
    let local = match project {
        Some(project) => match &project.bash {
            Some(section) => section.timeout_secs,
            None => None,
        },
        None => None,
    };
    let global = match config {
        Some(config) => match &config.bash {
            Some(section) => section.timeout_secs,
            None => None,
        },
        None => None,
    };
    resolve_secs(local, global, DEFAULT_BASH_TIMEOUT_SECS)
}

/// How long a finished subagent waits for its background tasks, in seconds;
/// none where it waits as long as it takes.
pub fn resolve_finalize_wait(config: Option<&Config>, project: Option<&ProjectConfig>) -> (r:
    Option<u64>)
    ensures
        r == limit_secs(
            match project {
                Some(project) => finalize_secs(project.delegate),
                None => None,
            },
            match config {
                Some(config) => finalize_secs(config.delegate),
                None => None,
            },
            DEFAULT_FINALIZE_WAIT_SECS,
        ),
{
    let local = match project {
        Some(project) => match &project.delegate {
            Some(section) => section.finalize_wait_secs,
            None => None,
        },
        None => None,
    };
    let global = match config {
        Some(config) => match &config.delegate {
            Some(section) => section.finalize_wait_secs,
            None => None,
        },
        None => None,
    };
    resolve_secs(local, global, DEFAULT_FINALIZE_WAIT_SECS)
}

/// A list of paths with one more, unless it is there already.
pub open spec fn with_path(paths: Seq<Seq<char>>, path: Seq<char>) -> Seq<Seq<char>> {
    if exists|i: int| 0 <= i < paths.len() && same_place(#[trigger] paths[i], path) {
        paths
    } else {
        paths.push(path)
    }
}

/// Where the user's configuration may stand, the first place first.
pub open spec fn user_paths(config_home: Option<Seq<char>>, home: Option<Seq<char>>) -> Seq<
    Seq<char>,
> {
    let first = match config_home {
        Some(dir) => seq![joined_path(dir, "e-agent/config.toml"@)],
        None => Seq::empty(),
    };
    match home {
        Some(dir) => with_path(first, joined_path(dir, ".config/e-agent/config.toml"@)),
        None => first,
    }
}

/// Append a path, unless it is there already.
fn push_path(paths: &mut Vec<String>, path: String)
    ensures
        final(paths).deep_view() == with_path(old(paths).deep_view(), path@),
{
    let ghost before = paths.deep_view();
    let mut i: usize = 0;
    while i < paths.len()
        invariant
            i <= paths.len(),
            before == paths.deep_view(),
            forall|j: int| 0 <= j < i ==> !same_place(#[trigger] before[j], path@),
        decreases paths.len() - i,
    {
        if is_same_place(paths[i].as_str(), path.as_str()) {
            assert(same_place(before[i as int], path@));
            return;
        }
        i += 1;
    }
    paths.push(path);
    assert(paths.deep_view() =~= before.push(path@));
}

/// Where the user's configuration may stand, the first place first.
pub fn config_paths(config_home: Option<&str>, home: Option<&str>) -> (r: Vec<String>)
    ensures
        r.deep_view() == user_paths(config_home.deep_view(), home.deep_view()),
{
    let mut paths: Vec<String> = Vec::new();
    if let Some(dir) = config_home {
        paths.push(join_path(dir, "e-agent/config.toml"));
        assert(paths.deep_view() =~= seq![joined_path(dir@, "e-agent/config.toml"@)]);
    } else {
        assert(paths.deep_view() =~= Seq::empty());
    }
    if let Some(dir) = home {
        push_path(&mut paths, join_path(dir, ".config/e-agent/config.toml"));
    }
    paths
}

/// Every file that feeds the configuration of a workspace: the user's, then the
/// project's own.
pub fn config_watch_paths(workspace: &str, config_home: Option<&str>, home: Option<&str>) -> (r:
    Vec<String>)
    ensures
        r.deep_view() == with_path(
            user_paths(config_home.deep_view(), home.deep_view()),
            joined_path(workspace@, ".e-agent/config.toml"@),
        ),
{
    let mut paths = config_paths(config_home, home);
    push_path(&mut paths, join_path(workspace, ".e-agent/config.toml"));
    paths
}

/// The user's configuration directory.
pub fn config_dir(config_home: Option<&str>, home: Option<&str>) -> (r: Option<String>)
    ensures
        r.deep_view() == match config_home {
            Some(dir) => Some(joined_path(dir@, "e-agent"@)),
            None => match home {
                Some(dir) => Some(joined_path(dir@, ".config/e-agent"@)),
                None => None,
            },
        },
{
    match config_home {
        Some(dir) => Some(join_path(dir, "e-agent")),
        None => match home {
            Some(dir) => Some(join_path(dir, ".config/e-agent")),
            None => None,
        },
    }
}

/// Resolving never hands out an empty key: a model that is reached by key has
/// one, trimmed, and a place to send requests to; any other has neither.
pub proof fn resolved_models_are_usable(
    config: ConfigView,
    profile: Seq<char>,
    credential: Option<Seq<char>>,
)
    ensures
        resolved(config, profile, credential) matches Ok(model) ==> {
            &&& model.display == profile
            &&& model.model.len() > 0
            &&& model.auth == AuthMode::ApiKey ==> model.api_key.len() > 0 && model.base_url.len()
                > 0 && trimmed(model.api_key) == model.api_key
            &&& model.auth == AuthMode::ChatGpt ==> model.api_key.len() == 0
                && model.base_url.len() == 0
        },
{
    if let Some(text) = credential {
        crate::text::trimming_is_idempotent(text);
    }
}

/// The file list that is watched names no file twice.
pub proof fn watched_paths_are_distinct(
    workspace: Seq<char>,
    config_home: Option<Seq<char>>,
    home: Option<Seq<char>>,
)
    ensures
        ({
            let paths = with_path(
                user_paths(config_home, home),
                joined_path(workspace, ".e-agent/config.toml"@),
            );
            forall|i: int, j: int|
                0 <= i < j < paths.len() ==> !same_place(#[trigger] paths[i], #[trigger] paths[j])
        }),
{
}

/// A resolved profile has the settings that the entry of its name gives: the
/// model, the reasoning effort, the context window, and each switch, which is off
/// where the entry leaves it out.
pub proof fn profiles_have_the_settings_of_their_entry(
    config: ConfigView,
    profile: Seq<char>,
    credential: Option<Seq<char>>,
)
    ensures
        resolved(config, profile, credential) matches Ok(model) ==> {
            &&& config.models.contains_key(profile)
            &&& config.models[profile].model == Some(model.model)
            &&& model.reasoning_effort == config.models[profile].reasoning_effort
            &&& model.context_window == config.models[profile].context_window
            &&& model.vision <==> config.models[profile].vision == Some(true)
            &&& model.thinking <==> config.models[profile].thinking == Some(true)
            &&& model.deepseek_compat <==> config.models[profile].deepseek_compat == Some(true)
            &&& model.display == profile
        },
        planned(config, profile) matches Ok(plan) ==> {
            &&& config.models.contains_key(profile)
            &&& config.models[profile].model == Some(plan.model.model)
            &&& plan.model.reasoning_effort == config.models[profile].reasoning_effort
            &&& plan.model.context_window == config.models[profile].context_window
            &&& plan.model.vision <==> config.models[profile].vision == Some(true)
            &&& plan.model.thinking <==> config.models[profile].thinking == Some(true)
            &&& plan.model.deepseek_compat <==> config.models[profile].deepseek_compat == Some(
                true,
            )
        },
{
}

/// A profile `provider/model` is reached by the provider that it names: at the
/// provider's address with the key that its one source holds, without the white
/// space around it, or by login, without either.
pub proof fn profiles_are_reached_by_their_provider(
    config: ConfigView,
    name: Seq<char>,
    rest: Seq<char>,
    credential: Option<Seq<char>>,
)
    requires
        name.len() > 0,
        forall|i: int| 0 <= i < name.len() ==> name[i] != '/',
    ensures
        resolved(config, name + seq!['/'] + rest, credential) matches Ok(model) ==> {
            let provider = config.providers[name];
            &&& config.providers.contains_key(name)
            &&& match provider.auth {
                Some(auth) => {
                    &&& auth == "chatgpt"@
                    &&& model.auth == AuthMode::ChatGpt
                    &&& model.api_key.len() == 0 && model.base_url.len() == 0
                    &&& provider.base_url is None && provider.api_key_file is None
                    &&& provider.api_key_env is None
                },
                None => {
                    &&& model.auth == AuthMode::ApiKey
                    &&& provider.base_url == Some(model.base_url)
                    &&& credential matches Some(text) && model.api_key == trimmed(text)
                    &&& provider.api_key_file is Some != provider.api_key_env is Some
                },
            }
        },
        planned(config, name + seq!['/'] + rest) matches Ok(plan) ==> {
            let provider = config.providers[name];
            &&& plan.provider == name
            &&& match plan.source {
                Some(CredentialView::File { path }) => provider.api_key_file matches Some(file)
                    && path == joined_path(directory_of(config.path), file),
                Some(CredentialView::Env { variable }) => provider.api_key_env == Some(variable),
                None => provider.auth is Some,
            }
        },
{
    let profile = name + seq!['/'] + rest;
    assert(profile[name.len() as int] == '/');
    assert forall|j: int| 0 <= j < name.len() implies profile[j] != '/' by {
        assert(profile[j] == name[j]);
    }
    crate::text::lemma_first_of(profile, '/', name.len() as int);
    assert(profile.take(name.len() as int) =~= name);
}

/// A profile whose entry names a model, and whose provider has an address and one
/// source for a key that is not blank, does resolve; so does one whose provider
/// goes by login and sets nothing else.
pub proof fn complete_profiles_resolve(
    config: ConfigView,
    name: Seq<char>,
    rest: Seq<char>,
    credential: Option<Seq<char>>,
)
    requires
        name.len() > 0,
        forall|i: int| 0 <= i < name.len() ==> name[i] != '/',
        config.models.contains_key(name + seq!['/'] + rest),
        config.models[name + seq!['/'] + rest].model matches Some(model) && model.len() > 0,
        config.providers.contains_key(name),
        ({
            let provider = config.providers[name];
            ||| {
                &&& provider.auth is None
                &&& provider.base_url matches Some(url) && url.len() > 0
                &&& provider.api_key_file is Some != provider.api_key_env is Some
                &&& credential matches Some(text) && trimmed(text).len() > 0
            }
            ||| {
                &&& provider.auth == Some("chatgpt"@)
                &&& provider.base_url is None && provider.api_key_file is None
                    && provider.api_key_env is None
            }
        }),
    ensures
        resolved(config, name + seq!['/'] + rest, credential) is Ok,
{
    let profile = name + seq!['/'] + rest;
    assert(profile[name.len() as int] == '/');
    assert forall|j: int| 0 <= j < name.len() implies profile[j] != '/' by {
        assert(profile[j] == name[j]);
    }
    crate::text::lemma_first_of(profile, '/', name.len() as int);
    assert(profile.take(name.len() as int) =~= name);
}

/// The profile that is asked for comes first, then the default, then that of the
/// role `main`.
pub proof fn requests_choose_their_profile(
    config: ConfigView,
    requested: Option<Seq<char>>,
    profile: Seq<char>,
)
    ensures
        chosen(config, Some(profile)) == Some(profile),
        config.default == Some(profile) ==> chosen(config, None) == Some(profile),
        config.default is None && config.roles.contains_key("main"@) ==> chosen(config, None)
            == Some(config.roles["main"@]),
        config.default is None && !config.roles.contains_key("main"@) ==> chosen(config, None) is None,
        config.roles.contains_key(profile) ==> match role_resolved(config, profile, requested) {
            Ok(model) => model is Some && resolved(config, config.roles[profile], requested) == Ok::<
                ResolvedView,
                Seq<char>,
            >(model->0),
            Err(error) => resolved(config, config.roles[profile], requested) == Err::<
                ResolvedView,
                Seq<char>,
            >(error),
        },
        !config.roles.contains_key(profile) ==> role_resolved(config, profile, requested) == Ok::<
            Option<ResolvedView>,
            Seq<char>,
        >(None),
{
}

/// What a project names counts before the global setting of the same name, each
/// kind of setting by itself; only a global server that is switched off stays.
/// Limits are left to their own rule.
pub proof fn project_settings_win(config: ConfigView, project: ProjectView, name: Seq<char>)
    ensures
        ({
            let after = merged(config, Some(project));
            &&& project.default is Some ==> after.default == project.default
            &&& project.default is None ==> after.default == config.default
            &&& project.models matches Some(models) ==> models.contains_key(name)
                ==> after.models.contains_key(name) && after.models[name] == models[name]
            &&& project.roles matches Some(roles) ==> roles.contains_key(name)
                ==> after.roles.contains_key(name) && after.roles[name] == roles[name]
            &&& project.mcp matches Some(servers) ==> servers.contains_key(name) && !(
            config.mcp.contains_key(name) && !config.mcp[name].enabled) ==> after.mcp.contains_key(
                name,
            ) && after.mcp[name] == servers[name]
            &&& project.tui is Some ==> after.tui == project.tui
            &&& project.tui is None ==> after.tui == config.tui
            &&& after.background == config.background && after.bash == config.bash
            &&& after.delegate == config.delegate
        }),
        merged(config, None) == config,
{
}

/// A limit is the project's where it sets one, else the user's, else the default;
/// 0 means that there is none.
pub proof fn limits_go_by_the_nearest_setting(local: u64, global: u64, default: u64)
    requires
        default > 0,
    ensures
        forall|other: Option<u64>| #[trigger]
            limit_secs(Some(local), other, default) == if local == 0 {
                None::<u64>
            } else {
                Some(local)
            },
        limit_secs(None, Some(global), default) == if global == 0 {
            None::<u64>
        } else {
            Some(global)
        },
        limit_secs(None, None, default) == Some(default),
        DEFAULT_BACKGROUND_TIMEOUT_SECS == 1800,
        DEFAULT_BASH_TIMEOUT_SECS == 30,
        DEFAULT_FINALIZE_WAIT_SECS == 600,
        background_secs(None) is None && bash_secs(None) is None && finalize_secs(None) is None,
        forall|secs: Option<u64>| #[trigger]
            background_secs(Some(BackgroundConfig { timeout_secs: secs })) == secs,
        forall|secs: Option<u64>| #[trigger]
            bash_secs(Some(BashConfig { timeout_secs: secs })) == secs,
        forall|secs: Option<u64>| #[trigger]
            finalize_secs(Some(DelegateConfig { finalize_wait_secs: secs })) == secs,
{
}

proof fn lemma_keys_differ()
    ensures
        "enter"@ != "alt+enter"@ && "enter"@ != "option+enter"@ && "enter"@ != "ctrl+enter"@
            && "enter"@ != "shift+enter"@,
        "alt+enter"@ != "ctrl+enter"@ && "alt+enter"@ != "shift+enter"@,
        "option+enter"@ != "ctrl+enter"@ && "option+enter"@ != "shift+enter"@,
        "ctrl+enter"@ != "shift+enter"@,
{
    reveal_strlit("enter");
    reveal_strlit("alt+enter");
    reveal_strlit("option+enter");
    reveal_strlit("ctrl+enter");
    reveal_strlit("shift+enter");
    assert("enter"@.len() == 5 && "alt+enter"@.len() == 9 && "option+enter"@.len() == 12
        && "ctrl+enter"@.len() == 10 && "shift+enter"@.len() == 11);
}

/// Each key text names its own modifier, and no other text names one.
pub proof fn keys_name_their_modifier(text: Seq<char>)
    ensures
        enter_key("enter"@) == Some(EnterKey::Plain),
        enter_key("alt+enter"@) == Some(EnterKey::Alt),
        enter_key("option+enter"@) == Some(EnterKey::Alt),
        enter_key("ctrl+enter"@) == Some(EnterKey::Control),
        enter_key("shift+enter"@) == Some(EnterKey::Shift),
        enter_key(text) is Some ==> text == "enter"@ || text == "alt+enter"@ || text
            == "option+enter"@ || text == "ctrl+enter"@ || text == "shift+enter"@,
{
    lemma_keys_differ();
}

/// A key mapping does what it says: the key for submitting submits and the other
/// breaks lines, plain Enter and Alt+Enter where the section is silent. Unknown
/// keys are refused, and so is one key for both.
pub proof fn keys_are_mapped_as_configured(submit: Option<Seq<char>>, newline: Option<Seq<char>>)
    ensures
        ({
            let keys = mapped_keys(Some(TuiView { submit, newline }));
            let first = match submit {
                Some(text) => enter_key(text),
                None => Some(EnterKey::Plain),
            };
            let second = match newline {
                Some(text) => enter_key(text),
                None => Some(EnterKey::Alt),
            };
            &&& keys is Ok <==> first is Some && second is Some && first != second
            &&& keys matches Ok(keys) ==> Some(keys.submit_modifiers) == first && Some(
                keys.newline_modifiers,
            ) == second
        }),
        mapped_keys(None) == mapped_keys(Some(TuiView { submit: None, newline: None })),
{
    lemma_keys_differ();
}

/// The web search has the key that its one source holds, without the white space
/// around it; without the section there is none, a missing file switches it off,
/// and a missing variable, a blank key and any other number of sources are refused.
pub proof fn searches_have_the_key_of_their_source(
    config: ConfigView,
    credential: Option<Seq<char>>,
)
    ensures
        match config.web_search {
            None => search_key(config, credential) == Ok::<Option<Seq<char>>, Seq<char>>(None)
                && search_source(config) == Ok::<Option<CredentialView>, Seq<char>>(None),
            Some(section) => {
                &&& section.api_key_file is Some && section.api_key_env is Some ==> search_key(
                    config,
                    credential,
                ) is Err
                &&& section.api_key_file is None && section.api_key_env is None ==> search_key(
                    config,
                    credential,
                ) is Err
                &&& section.api_key_file is Some != section.api_key_env is Some ==> {
                    &&& search_source(config) == Ok::<Option<CredentialView>, Seq<char>>(
                        Some(
                            match section.api_key_file {
                                Some(file) => CredentialView::File {
                                    path: joined_path(directory_of(config.path), file),
                                },
                                None => CredentialView::Env { variable: section.api_key_env->0 },
                            },
                        ),
                    )
                    &&& match credential {
                        Some(text) => if trimmed(text).len() == 0 {
                            search_key(config, credential) is Err
                        } else {
                            search_key(config, credential) == Ok::<Option<Seq<char>>, Seq<char>>(
                                Some(trimmed(text)),
                            )
                        },
                        None => if section.api_key_file is Some {
                            search_key(config, credential) == Ok::<Option<Seq<char>>, Seq<char>>(
                                None,
                            )
                        } else {
                            search_key(config, credential) is Err
                        },
                    }
                }
            },
        },
{
}

/// The user's configuration is looked for in the configuration directory, then in
/// the home directory.
pub proof fn configurations_are_looked_for(config_home: Seq<char>, home: Seq<char>)
    ensures
        user_paths(None, None).len() == 0,
        user_paths(Some(config_home), None) == seq![joined_path(config_home, "e-agent/config.toml"@)],
        user_paths(None, Some(home)) == seq![joined_path(home, ".config/e-agent/config.toml"@)],
        ({
            let first = joined_path(config_home, "e-agent/config.toml"@);
            let second = joined_path(home, ".config/e-agent/config.toml"@);
            user_paths(Some(config_home), Some(home)) == if same_place(first, second) {
                seq![first]
            } else {
                seq![first, second]
            }
        }),
{
    let first = joined_path(config_home, "e-agent/config.toml"@);
    let second = joined_path(home, ".config/e-agent/config.toml"@);
    let one = seq![first];
    assert(one[0] == first);
    let none: Seq<Seq<char>> = Seq::empty();
    assert(none.push(second) =~= seq![second]);
    assert(one.push(second) =~= seq![first, second]);
}

/// The profiles that can be switched to are those of the models and those that
/// roles name, and no others.
pub proof fn profiles_to_choose_from(
    models: Seq<(Seq<char>, ProfileView)>,
    roles: Seq<(Seq<char>, Seq<char>)>,
    profile: Seq<char>,
)
    ensures
        sorted_set::<String>(profile_names(models, roles)).contains(profile) <==> (exists|i: int|
            0 <= i < models.len() && (#[trigger] models[i]).0 == profile) || exists|i: int|
            0 <= i < roles.len() && (#[trigger] roles[i]).1 == profile,
{
    let names = profile_names(models, roles);
    crate::order::sorted_set_holds_the_items::<String>(names);
    if names.contains(profile) {
        let k = choose|k: int| 0 <= k < names.len() && names[k] == profile;
        if k < models.len() {
            assert(models[k].0 == profile);
        } else {
            assert(roles[k - models.len()].1 == profile);
        }
    }
    if exists|i: int| 0 <= i < models.len() && (#[trigger] models[i]).0 == profile {
        let i = choose|i: int| 0 <= i < models.len() && (#[trigger] models[i]).0 == profile;
        assert(names[i] == profile);
    }
    if exists|i: int| 0 <= i < roles.len() && (#[trigger] roles[i]).1 == profile {
        let i = choose|i: int| 0 <= i < roles.len() && (#[trigger] roles[i]).1 == profile;
        assert(names[models.len() + i] == profile);
    }
}

/// A profile that cannot be resolved is refused for what is wrong with it, by name:
/// its own name, its entry, the model of the entry, its provider, and then what the
/// provider says of how it is reached.
pub proof fn broken_profiles_are_refused_by_name(
    config: ConfigView,
    profile: Seq<char>,
    name: Seq<char>,
    rest: Seq<char>,
)
    requires
        name.len() > 0,
        forall|i: int| 0 <= i < name.len() ==> name[i] != '/',
        profile == name + seq!['/'] + rest,
    ensures
        forall|bad: Seq<char>|
            (forall|i: int| 0 <= i < bad.len() ==> bad[i] != '/') ==> (#[trigger] planned(
                config,
                bad,
            )) == Err::<PlanView, Seq<char>>(
                "profile "@ + "`"@ + bad + "`"@ + " must be named provider/model"@,
            ),
        !config.models.contains_key(profile) ==> planned(config, profile) == Err::<
            PlanView,
            Seq<char>,
        >("model profile "@ + "`"@ + profile + "`"@ + " is not defined"@),
        config.models.contains_key(profile) && (config.models[profile].model is None
            || config.models[profile].model == Some(Seq::<char>::empty())) ==> planned(
            config,
            profile,
        ) == Err::<PlanView, Seq<char>>(
            "model profile "@ + "`"@ + profile + "`"@ + " requires `model`"@,
        ),
        config.models.contains_key(profile) && (config.models[profile].model matches Some(model)
            && model.len() > 0) ==> {
            let provider = config.providers[name];
            &&& !config.providers.contains_key(name) ==> planned(config, profile) == Err::<
                PlanView,
                Seq<char>,
            >(
                "provider "@ + "`"@ + name + "`"@ + (" for profile "@ + "`"@ + profile + "`"@
                    + " is not defined"@),
            )
            &&& config.providers.contains_key(name) && provider.auth is None
                && provider.base_url is None ==> planned(config, profile) == Err::<
                PlanView,
                Seq<char>,
            >("provider "@ + "`"@ + name + "`"@ + " requires `base_url`"@)
            &&& config.providers.contains_key(name) && provider.auth is Some && provider.auth
                != Some("chatgpt"@) ==> planned(config, profile) is Err
            &&& config.providers.contains_key(name) && provider.api_key_file is Some
                && provider.api_key_env is Some ==> planned(config, profile) is Err
        },
{
    assert(profile[name.len() as int] == '/');
    assert forall|j: int| 0 <= j < name.len() implies profile[j] != '/' by {
        assert(profile[j] == name[j]);
    }
    crate::text::lemma_first_of(profile, '/', name.len() as int);
    assert(profile.take(name.len() as int) =~= name);
    assert forall|bad: Seq<char>|
        (forall|i: int| 0 <= i < bad.len() ==> bad[i] != '/') implies (#[trigger] planned(
        config,
        bad,
    )) == Err::<PlanView, Seq<char>>(
        "profile "@ + "`"@ + bad + "`"@ + " must be named provider/model"@,
    ) by {
        crate::text::lemma_first_of(bad, '/', bad.len() as int);
    }
    if let Some(model) = config.models[profile].model {
        if model.len() == 0 {
            assert(model =~= Seq::<char>::empty());
        }
    }
}

/// A key that cannot be read or is blank is refused by the provider's name and its
/// source.
pub proof fn missing_keys_are_refused(plan: PlanView, text: Seq<char>)
    ensures
        plan.source is None ==> with_credential(plan, Some(text)) == Ok::<
            ResolvedView,
            Seq<char>,
        >(plan.model),
        plan.source matches Some(CredentialView::File { path }) ==> with_credential(plan, None)
            == Err::<ResolvedView, Seq<char>>(
            "cannot read api_key_file for provider "@ + "`"@ + plan.provider + "`"@ + (" at "@
                + path),
        ),
        plan.source matches Some(CredentialView::Env { variable }) ==> with_credential(plan, None)
            == Err::<ResolvedView, Seq<char>>(
            "api_key_env "@ + "`"@ + variable + "`"@ + (" for provider "@ + "`"@ + plan.provider
                + "`"@ + " is not set"@),
        ),
        plan.source is Some && trimmed(text).len() == 0 ==> with_credential(plan, Some(text))
            == Err::<ResolvedView, Seq<char>>(
            "credential for provider "@ + "`"@ + plan.provider + "`"@ + " is empty"@,
        ),
{
}

/// Keys are shown by their own labels.
pub proof fn keys_are_shown_by_name()
    ensures
        enter_label(EnterKey::Plain) == "Enter"@,
        enter_label(EnterKey::Alt) == "Alt+Enter"@,
        enter_label(EnterKey::Control) == "Ctrl+Enter"@,
        enter_label(EnterKey::Shift) == "Shift+Enter"@,
{
}

/// The models of settings show all that the settings hold.
pub proof fn settings_are_seen_whole(
    profile: ModelProfile,
    provider: Provider,
    model: ResolvedModel,
    config: Config,
)
    ensures
        ({
            let seen = profile.deep_view();
            &&& seen.model == profile.model.deep_view()
            &&& seen.reasoning_effort == profile.reasoning_effort.deep_view()
            &&& seen.thinking == profile.thinking && seen.vision == profile.vision
            &&& seen.context_window == profile.context_window
            &&& seen.deepseek_compat == profile.deepseek_compat
        }),
        ({
            let seen = provider.deep_view();
            &&& seen.auth == provider.auth.deep_view()
            &&& seen.base_url == provider.base_url.deep_view()
            &&& seen.api_key_file == provider.api_key_file.deep_view()
            &&& seen.api_key_env == provider.api_key_env.deep_view()
        }),
        ({
            let seen = model.deep_view();
            &&& seen.base_url == model.base_url@ && seen.api_key == model.api_key@
            &&& seen.model == model.model@ && seen.display == model.display@
            &&& seen.reasoning_effort == model.reasoning_effort.deep_view()
            &&& seen.thinking == model.thinking && seen.vision == model.vision
            &&& seen.deepseek_compat == model.deepseek_compat && seen.auth == model.auth
            &&& seen.context_window == model.context_window
        }),
        ({
            let seen = config.deep_view();
            &&& seen.default == config.default.deep_view() && seen.path == config.path@
            &&& seen.providers == config.providers.deep_view()
            &&& seen.models == config.models.deep_view() && seen.mcp == config.mcp.deep_view()
            &&& seen.roles == config.roles.deep_view()
            &&& seen.sandbox == config.sandbox.deep_view()
            &&& seen.background == config.background && seen.bash == config.bash
            &&& seen.delegate == config.delegate && seen.tui == config.tui.deep_view()
        }),
{
}

} // verus!
