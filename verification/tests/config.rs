use e_agent::config::{
    config_dir, config_paths, config_watch_paths, describe_enter_key, parse_enter_key,
    resolve_background_timeout, resolve_bash_timeout, resolve_finalize_wait, AuthMode,
    BackgroundConfig, BashConfig, Config, CredentialSource, DelegateConfig, EnterKey, InputKeys,
    McpServerConfig, ModelProfile, ProjectConfig, Provider, SessionBackend, SessionConfig,
    TuiConfig, WebSearch,
};
use e_agent::sandbox::SandboxSources;
use e_agent::table::Table;

fn empty() -> Config {
    Config {
        default: None,
        providers: Table::new(),
        models: Table::new(),
        mcp: Table::new(),
        roles: Table::new(),
        web_search: None,
        sandbox: None,
        session: None,
        background: None,
        bash: None,
        delegate: None,
        tui: None,
        path: "/etc/e-agent/config.toml".into(),
    }
}

fn provider() -> Provider {
    Provider {
        auth: None,
        base_url: Some("https://example.test/v1".into()),
        api_key_file: Some("key".into()),
        api_key_env: None,
    }
}

fn profile(model: &str) -> ModelProfile {
    ModelProfile {
        model: Some(model.into()),
        reasoning_effort: None,
        thinking: None,
        context_window: None,
        vision: None,
        deepseek_compat: None,
    }
}

fn kimi() -> Config {
    let mut config = empty();
    config.default = Some("kimi/k3".into());
    config.providers.insert("kimi".into(), provider());
    config.models.insert("kimi/k3".into(), profile("k3"));
    config
}

fn no_project() -> ProjectConfig {
    ProjectConfig {
        default: None,
        models: None,
        mcp: None,
        roles: None,
        sandbox: None,
        bash: None,
        background: None,
        delegate: None,
        tui: None,
    }
}

fn server(command: &str, enabled: bool) -> McpServerConfig {
    McpServerConfig {
        command: vec![command.into(), "mcp".into()],
        env: vec![],
        enabled,
    }
}

#[test]
fn sandbox_absent_is_empty_policy() {
    let sources = SandboxSources {
        workspace: "/ws".into(),
        home: None,
        project: Ok(None),
        global_writable: vec![],
        global_readable: vec![],
        local_writable: vec![],
        local_readable: vec![],
        main_repo: Ok(None),
    };
    let sandbox = empty().sandbox(&sources).unwrap();
    assert!(!sandbox.enabled);
    assert!(sandbox.writable_paths.is_empty());
}

#[test]
fn reports_missing_model_provider_and_credentials() {
    let mut missing_model = empty();
    missing_model.default = Some("kimi/k3".into());
    assert!(missing_model
        .resolve(None, None)
        .unwrap_err()
        .contains("model profile `kimi/k3` is not defined"));

    let mut missing_provider = empty();
    missing_provider
        .models
        .insert("kimi/k3".into(), profile("k3"));
    assert!(missing_provider
        .resolve(Some("kimi/k3"), None)
        .unwrap_err()
        .contains("provider `kimi` for profile `kimi/k3` is not defined"));

    let mut missing_credentials = kimi();
    let mut bare = provider();
    bare.api_key_file = None;
    missing_credentials.providers.insert("kimi".into(), bare);
    assert!(missing_credentials
        .resolve(Some("kimi/k3"), None)
        .unwrap_err()
        .contains("requires exactly one of `api_key_file` or `api_key_env`"));
}

#[test]
fn resolves_chatgpt_and_rejects_mixed_credentials() {
    let chatgpt = || Provider {
        auth: Some("chatgpt".into()),
        base_url: None,
        api_key_file: None,
        api_key_env: None,
    };
    let with = |provider: Provider, model: &str| {
        let mut config = empty();
        config.providers.insert("chatgpt".into(), provider);
        config.models.insert("chatgpt/codex".into(), profile(model));
        config
    };
    let resolved = with(chatgpt(), "gpt-5.6-sol")
        .resolve(Some("chatgpt/codex"), None)
        .unwrap();
    assert_eq!(resolved.auth, AuthMode::ChatGpt);
    assert_eq!(resolved.display, "chatgpt/codex");
    let mut with_url = chatgpt();
    with_url.base_url = Some("https://example.test".into());
    let mut with_file = chatgpt();
    with_file.api_key_file = Some("key".into());
    let mut with_env = chatgpt();
    with_env.api_key_env = Some("KEY".into());
    for provider in [with_url, with_file, with_env] {
        assert!(with(provider, "codex")
            .resolve(Some("chatgpt/codex"), None)
            .unwrap_err()
            .contains("cannot set"));
    }
}

#[test]
fn resolve_background_timeout_defaults_and_global() {
    assert_eq!(resolve_background_timeout(None, None), Some(1800));
    let mut config = kimi();
    config.background = Some(BackgroundConfig {
        timeout_secs: Some(120),
    });
    assert_eq!(resolve_background_timeout(Some(&config), None), Some(120));
}

#[test]
fn resolve_bash_timeout_defaults_and_global() {
    assert_eq!(resolve_bash_timeout(None, None), Some(30));
    let mut config = kimi();
    config.bash = Some(BashConfig {
        timeout_secs: Some(120),
    });
    assert_eq!(resolve_bash_timeout(Some(&config), None), Some(120));
}

#[test]
fn resolve_finalize_wait_defaults_and_global() {
    assert_eq!(resolve_finalize_wait(None, None), Some(600));
    let mut config = kimi();
    config.delegate = Some(DelegateConfig {
        finalize_wait_secs: Some(120),
    });
    assert_eq!(resolve_finalize_wait(Some(&config), None), Some(120));
}

#[test]
fn a_project_overrides_timeouts_and_zero_switches_them_off() {
    let mut config = kimi();
    config.background = Some(BackgroundConfig {
        timeout_secs: Some(120),
    });
    config.bash = Some(BashConfig {
        timeout_secs: Some(120),
    });
    config.delegate = Some(DelegateConfig {
        finalize_wait_secs: Some(120),
    });
    let mut project = no_project();
    project.background = Some(BackgroundConfig {
        timeout_secs: Some(60),
    });
    project.bash = Some(BashConfig {
        timeout_secs: Some(0),
    });
    project.delegate = Some(DelegateConfig {
        finalize_wait_secs: None,
    });
    assert_eq!(
        resolve_background_timeout(Some(&config), Some(&project)),
        Some(60)
    );
    assert_eq!(resolve_bash_timeout(Some(&config), Some(&project)), None);
    assert_eq!(
        resolve_finalize_wait(Some(&config), Some(&project)),
        Some(120)
    );
}

#[test]
fn config_watch_paths_covers_global_candidates_and_project_override() {
    let paths = config_watch_paths("/tmp/ws", Some("/xdg"), Some("/home/u"));
    let project = "/tmp/ws/.e-agent/config.toml".to_string();
    assert!(paths.contains(&project));
    assert_eq!(
        paths.iter().filter(|p| **p == project).count(),
        1,
        "project path appears exactly once"
    );
    assert!(paths.iter().any(|p| p.ends_with("e-agent/config.toml")));
    assert!(paths.windows(2).all(|w| w[0] != w[1]), "no duplicates");
}

#[test]
fn configuration_places_follow_the_environment() {
    assert_eq!(
        config_paths(Some("/xdg"), Some("/home/u")),
        vec![
            "/xdg/e-agent/config.toml".to_string(),
            "/home/u/.config/e-agent/config.toml".to_string()
        ]
    );
    assert!(config_paths(None, None).is_empty());
    assert_eq!(
        config_dir(None, Some("/home/u")),
        Some("/home/u/.config/e-agent".to_string())
    );
    assert_eq!(config_dir(None, None), None);
    // The same place twice is watched once.
    let paths = config_watch_paths("/ws", Some("/home/u/.config"), Some("/home/u"));
    assert_eq!(paths.len(), 2);
}

#[test]
fn key_files_stand_beside_the_configuration() {
    for (path, key) in [
        ("a/./c", "a/key"),
        ("a/b/", "a/key"),
        ("config.toml", "key"),
        ("./config.toml", "./key"),
        ("", "./key"),
        ("/config.toml", "/key"),
    ] {
        let mut config = kimi();
        config.path = path.into();
        assert_eq!(
            config.plan_profile("kimi/k3").unwrap().source,
            Some(CredentialSource::File { path: key.into() }),
            "{path}"
        );
    }
}

#[test]
fn keys_are_read_from_their_source_and_trimmed() {
    let config = kimi();
    let plan = config.plan_profile("kimi/k3").unwrap();
    assert_eq!(
        plan.source,
        Some(CredentialSource::File {
            path: "/etc/e-agent/key".into()
        })
    );
    let model = config
        .resolve(Some("kimi/k3"), Some(" \n secret-key \t\n"))
        .unwrap();
    assert_eq!(model.api_key, "secret-key");
    assert_eq!(model.base_url, "https://example.test/v1");
    assert_eq!(model.auth, AuthMode::ApiKey);
    assert!(!model.vision && !model.thinking && !model.deepseek_compat);
    assert!(config
        .resolve(Some("kimi/k3"), Some(" \n"))
        .unwrap_err()
        .contains("credential for provider `kimi` is empty"));
    assert!(config
        .resolve(Some("kimi/k3"), None)
        .unwrap_err()
        .contains("cannot read api_key_file for provider `kimi`"));
    let mut by_env = kimi();
    let mut from_env = provider();
    from_env.api_key_file = None;
    from_env.api_key_env = Some("KIMI_KEY".into());
    by_env.providers.insert("kimi".into(), from_env);
    assert_eq!(
        by_env.plan_profile("kimi/k3").unwrap().source,
        Some(CredentialSource::Env {
            variable: "KIMI_KEY".into()
        })
    );
    assert!(by_env
        .resolve(None, None)
        .unwrap_err()
        .contains("api_key_env `KIMI_KEY` for provider `kimi` is not set"));
}

#[test]
fn profiles_need_a_name_a_model_and_a_default() {
    assert!(empty()
        .resolve(None, None)
        .unwrap_err()
        .contains("config requires `default`"));
    assert!(kimi()
        .resolve(Some("k3"), None)
        .unwrap_err()
        .contains("must be named provider/model"));
    let mut config = kimi();
    let mut nameless = profile("");
    nameless.model = None;
    config.models.insert("kimi/k2".into(), nameless);
    assert!(config
        .resolve(Some("kimi/k2"), None)
        .unwrap_err()
        .contains("model profile `kimi/k2` requires `model`"));
}

#[test]
fn roles_route_to_profiles() {
    let mut config = kimi();
    config.models.insert("kimi/k2".into(), profile("k2"));
    config.roles.insert("subagent".into(), "kimi/k2".into());
    let subagent = config
        .resolve_role("subagent", Some("key"))
        .unwrap()
        .unwrap();
    assert_eq!(subagent.model, "k2");
    assert_eq!(subagent.display, "kimi/k2");
    assert!(config.resolve_role("oracle", None).unwrap().is_none());
    config.roles.insert("broken".into(), "kimi/nope".into());
    assert!(config
        .resolve_role("broken", Some("key"))
        .unwrap_err()
        .contains("model profile `kimi/nope` is not defined"));
    let mut by_role = kimi();
    by_role.default = None;
    by_role.roles.insert("main".into(), "kimi/k3".into());
    assert_eq!(by_role.chosen_profile(None), Some("kimi/k3".to_string()));
    let all = config.resolve_roles(&vec![Some("a".into()), Some("b".into())]);
    assert!(all.unwrap_err().contains("kimi/nope"));
    let all = by_role.resolve_roles(&vec![Some("a".into())]).unwrap();
    assert_eq!(all.len(), 1);
    assert_eq!(all[0].0, "main");
    assert_eq!(all[0].1.api_key, "a");
    let alone = by_role.resolve_role("main", Some("a")).unwrap();
    assert_eq!(alone.as_ref(), Some(&all[0].1));
    assert_eq!(
        config.model_profiles(),
        vec![
            "kimi/k2".to_string(),
            "kimi/k3".to_string(),
            "kimi/nope".to_string()
        ]
    );
}

#[test]
fn web_search_has_one_source() {
    assert_eq!(kimi().web_search_key(None).unwrap(), None);
    let mut config = kimi();
    config.web_search = Some(WebSearch {
        api_key_file: Some("exa-key".into()),
        api_key_env: None,
    });
    assert_eq!(
        config.web_search_source().unwrap(),
        Some(CredentialSource::File {
            path: "/etc/e-agent/exa-key".into()
        })
    );
    assert_eq!(
        config.web_search_key(Some("  exa-secret\n")).unwrap(),
        Some("exa-secret".to_string())
    );
    config.web_search = Some(WebSearch {
        api_key_file: Some("exa-key".into()),
        api_key_env: Some("SOME_VAR".into()),
    });
    assert!(config
        .web_search_key(Some("x"))
        .unwrap_err()
        .contains("exactly one"));
}

#[test]
fn a_project_overrides_by_name_and_cannot_revive_servers() {
    let mut global = kimi();
    global
        .mcp
        .insert("engram".into(), server("/global/engram", false));
    global
        .mcp
        .insert("global-only".into(), server("/global/other", true));
    let mut servers = Table::new();
    servers.insert("engram".to_string(), server("/project/engram", true));
    servers.insert("project-only".to_string(), server("/project/other", true));
    let mut models = Table::new();
    models.insert("kimi/k2".to_string(), profile("k2"));
    let mut project = no_project();
    project.default = Some("kimi/k2".into());
    project.mcp = Some(servers);
    project.models = Some(models);
    let merged = global.merged_with_project(Some(&project));
    assert_eq!(merged.default.as_deref(), Some("kimi/k2"));
    let engram = merged.mcp.get("engram").unwrap();
    assert_eq!(engram.command[0], "/global/engram");
    assert!(!engram.enabled);
    assert_eq!(
        merged.mcp.get("global-only").unwrap().command[0],
        "/global/other"
    );
    assert_eq!(
        merged.mcp.get("project-only").unwrap().command[0],
        "/project/other"
    );
    assert!(merged.models.get("kimi/k3").is_some());
    assert!(merged.models.get("kimi/k2").is_some());
    assert_eq!(global.merged_with_project(None), global);
}

#[test]
fn an_enabled_server_is_replaced_by_the_project() {
    let mut global = kimi();
    global
        .mcp
        .insert("engram".into(), server("/global/engram", true));
    let mut servers = Table::new();
    servers.insert("engram".to_string(), server("/project/engram", true));
    let mut project = no_project();
    project.mcp = Some(servers);
    let merged = global.merged_with_project(Some(&project));
    assert_eq!(
        merged.mcp.get("engram").unwrap().command[0],
        "/project/engram"
    );
}

#[test]
fn key_mappings_are_replaced_as_a_whole() {
    let mut config = kimi();
    assert_eq!(
        config.tui_keys().unwrap(),
        InputKeys {
            submit_modifiers: EnterKey::Plain,
            newline_modifiers: EnterKey::Alt
        }
    );
    config.tui = Some(TuiConfig {
        submit: Some("option+enter".into()),
        newline: Some("shift+enter".into()),
    });
    let keys = config.tui_keys().unwrap();
    assert_eq!(keys.submit_modifiers, EnterKey::Alt);
    assert_eq!(keys.newline_modifiers, EnterKey::Shift);
    let mut project = no_project();
    project.tui = Some(TuiConfig {
        submit: Some("ctrl+enter".into()),
        newline: None,
    });
    let keys = config
        .merged_with_project(Some(&project))
        .tui_keys()
        .unwrap();
    assert_eq!(keys.submit_modifiers, EnterKey::Control);
    assert_eq!(keys.newline_modifiers, EnterKey::Alt);
}

#[test]
fn wrong_key_mappings_are_refused() {
    let mut config = kimi();
    config.tui = Some(TuiConfig {
        submit: Some("foo".into()),
        newline: Some("enter".into()),
    });
    let error = config.tui_keys().unwrap_err();
    assert!(error.contains("[tui] submit = \"foo\" is not a supported key"));
    assert!(error
        .contains("expected one of: enter, alt+enter (option+enter), ctrl+enter, shift+enter"));
    config.tui = Some(TuiConfig {
        submit: Some("enter".into()),
        newline: Some("enter".into()),
    });
    let error = config.tui_keys().unwrap_err();
    assert!(error.contains("[tui] submit and newline must be different keys"));
    assert!(error.contains("\"enter\""));
    assert_eq!(parse_enter_key("nope"), None);
    for key in [
        EnterKey::Plain,
        EnterKey::Alt,
        EnterKey::Control,
        EnterKey::Shift,
    ] {
        assert!(!describe_enter_key(key).is_empty());
    }
}

#[test]
fn sessions_are_stored_locally_unless_said_otherwise() {
    assert_eq!(
        kimi().session_backend(),
        SessionBackend::Sqlite { path: None }
    );
    let mut config = kimi();
    config.session = Some(SessionConfig {
        backend: SessionBackend::Greptime {
            conn: "host=x".into(),
        },
    });
    assert_eq!(
        config.session_backend(),
        SessionBackend::Greptime {
            conn: "host=x".into()
        }
    );
}
