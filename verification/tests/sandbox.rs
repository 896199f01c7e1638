use e_agent::sandbox::{
    display_path, expand_sandbox_path, merge_roots, normalize_roots, resolve_sandbox, worktree_pointer,
    PathLookup, ProjectSandbox, Sandbox, SandboxSources,
};

fn texts(items: &[&str]) -> Vec<String> {
    items.iter().map(|item| item.to_string()).collect()
}

fn global(writable: &[&str], readable: &[&str]) -> Sandbox {
    Sandbox {
        enabled: true,
        network: true,
        workspace_writable: true,
        writable_paths: texts(writable),
        readable_paths: texts(readable),
        readable_mounts: vec![],
        writable_mounts: vec![],
    }
}

fn project(writable: Option<&[&str]>, readable: Option<&[&str]>) -> ProjectSandbox {
    ProjectSandbox {
        enabled: None,
        network: None,
        workspace_writable: None,
        writable_paths: writable.map(texts),
        readable_paths: readable.map(texts),
    }
}

/// A file system in which every path exists and `/alias` leads to another one.
fn found(paths: &[String], alias: &str) -> Vec<PathLookup> {
    paths
        .iter()
        .map(|path| PathLookup::Found {
            canonical: if path == "/alias" {
                alias.to_string()
            } else {
                path.clone()
            },
        })
        .collect()
}

fn sources(base: &Sandbox, local: Option<ProjectSandbox>, alias: &str) -> SandboxSources {
    let (writable, readable) = match &local {
        Some(local) => (
            local.writable_paths.clone().unwrap_or_default(),
            local.readable_paths.clone().unwrap_or_default(),
        ),
        None => (vec![], vec![]),
    };
    SandboxSources {
        workspace: "/ws".into(),
        home: Some("/home/u".into()),
        global_writable: found(&base.writable_paths, alias),
        global_readable: found(&base.readable_paths, alias),
        local_writable: found(&writable, alias),
        local_readable: found(&readable, alias),
        project: Ok(local),
        main_repo: Ok(None),
    }
}

fn resolved(base: &Sandbox, local: Option<ProjectSandbox>) -> Result<Sandbox, String> {
    resolve_sandbox(Some(base), &sources(base, local, "/target"))
}

#[test]
fn a_project_narrows_and_keeps_unrelated_roots() {
    let base = global(&["/keep", "/external"], &["/readable"]);
    let policy = resolved(
        &base,
        Some(project(Some(&["/external/child"]), Some(&["/readable/rc"]))),
    )
    .unwrap();
    assert_eq!(policy.writable_paths, texts(&["/keep", "/external/child"]));
    assert_eq!(policy.readable_paths, texts(&["/readable/rc"]));
    assert_eq!(
        policy.writable_mounts,
        vec![
            ("/external/child".to_string(), "/external/child".to_string()),
            ("/keep".to_string(), "/keep".to_string()),
        ]
    );
}

#[test]
fn several_narrower_paths_survive() {
    let base = global(&["/external"], &[]);
    let policy = resolved(
        &base,
        Some(project(Some(&["/external/a", "/external/b"]), None)),
    )
    .unwrap();
    assert_eq!(
        policy.writable_paths,
        texts(&["/external/a", "/external/b"])
    );
}

#[test]
fn a_read_only_child_of_a_writable_root_is_refused() {
    let base = global(&["/external"], &[]);
    let error = resolved(&base, Some(project(None, Some(&["/external/child"])))).unwrap_err();
    assert!(
        error.contains("read-only child") && error.contains("unsupported"),
        "{error}"
    );
}

#[test]
fn a_read_only_parent_may_hold_a_writable_child() {
    let base = global(&["/parent/child"], &["/parent"]);
    let policy = resolved(&base, None).unwrap();
    assert_eq!(policy.readable_paths, texts(&["/parent"]));
    assert_eq!(policy.writable_paths, texts(&["/parent/child"]));
}

#[test]
fn a_project_never_reaches_outside_the_global_roots() {
    let base = global(&["/writable"], &["/readable"]);
    assert!(resolved(&base, Some(project(Some(&["/readable"]), None)))
        .unwrap_err()
        .contains("globally authorized writable root"));
    assert!(resolved(&base, Some(project(None, Some(&["/"]))))
        .unwrap_err()
        .contains("globally authorized readable or writable root"));
    let empty = resolved(&base, Some(project(Some(&[]), Some(&[])))).unwrap();
    assert_eq!(empty.writable_paths, texts(&["/writable"]));
    assert_eq!(empty.readable_paths, texts(&["/readable"]));
}

#[test]
fn without_global_roots_the_user_is_guided() {
    let sources = SandboxSources {
        local_writable: vec![PathLookup::Found {
            canonical: "/outside".into(),
        }],
        ..sources(
            &global(&[], &[]),
            Some(project(Some(&["/outside"]), None)),
            "",
        )
    };
    let error = resolve_sandbox(None, &sources).unwrap_err();
    assert!(error.contains("project writable path /outside"), "{error}");
    assert!(
        error.contains("add this path or an ancestor to [sandbox].writable_paths"),
        "{error}"
    );
}

#[test]
fn switches_are_overridden_one_by_one() {
    let base = global(&["/external"], &[]);
    let mut local = project(None, None);
    local.enabled = Some(false);
    local.network = Some(false);
    let policy = resolved(&base, Some(local)).unwrap();
    assert!(!policy.enabled);
    assert!(!policy.network);
    assert!(policy.workspace_writable);
    assert_eq!(policy.writable_paths, texts(&["/external"]));
    let mut local = project(None, None);
    local.enabled = Some(true);
    let policy = resolve_sandbox(None, &sources(&global(&[], &[]), Some(local), "")).unwrap();
    assert!(policy.enabled && policy.network && policy.workspace_writable);
    assert!(policy.writable_paths.is_empty());
}

#[test]
fn an_alias_is_mounted_where_it_was_configured() {
    // The alias leads to a root that is writable under its own name.
    let base = global(&["/target"], &["/alias"]);
    let policy = resolved(&base, None).unwrap();
    assert_eq!(policy.writable_paths, texts(&["/target"]));
    assert!(policy.readable_paths.is_empty());
    assert_eq!(
        policy.readable_mounts,
        vec![("/target".to_string(), "/alias".to_string())]
    );
    assert_eq!(
        policy.writable_mounts,
        vec![("/target".to_string(), "/target".to_string())]
    );
}

#[test]
fn narrowing_drops_stale_mounts_and_keeps_aliases_inside() {
    let base = global(&["/external"], &["/alias"]);
    let local = project(Some(&["/external/child"]), None);
    let policy = resolve_sandbox(
        Some(&base),
        &sources(&base, Some(local), "/external/child"),
    )
    .unwrap();
    assert_eq!(
        policy.writable_mounts,
        vec![("/external/child".to_string(), "/external/child".to_string())]
    );
    assert_eq!(
        policy.readable_mounts,
        vec![("/external/child".to_string(), "/alias".to_string())]
    );
}

#[test]
fn two_aliases_of_one_source_are_both_mounted() {
    let base = global(&["/alias", "/target"], &[]);
    let policy = resolved(&base, None).unwrap();
    assert_eq!(policy.writable_paths, texts(&["/target"]));
    assert_eq!(
        policy.writable_mounts,
        vec![
            ("/target".to_string(), "/alias".to_string()),
            ("/target".to_string(), "/target".to_string()),
        ]
    );
}

#[test]
fn missing_global_roots_are_skipped_and_missing_project_paths_refused() {
    let base = global(&["/gone"], &[]);
    let mut given = sources(&base, None, "");
    given.global_writable = vec![PathLookup::Missing];
    let policy = resolve_sandbox(Some(&base), &given).unwrap();
    assert!(policy.writable_paths.is_empty());
    let mut given = sources(&base, Some(project(Some(&["/gone"]), None)), "");
    given.local_writable = vec![PathLookup::Missing];
    assert_eq!(
        resolve_sandbox(Some(&base), &given).unwrap_err(),
        "cannot canonicalize external path /gone"
    );
    let mut given = sources(&base, None, "");
    given.global_writable = vec![PathLookup::Unresolvable];
    assert_eq!(
        resolve_sandbox(Some(&base), &given).unwrap_err(),
        "cannot canonicalize external path /gone"
    );
    given.global_writable = vec![PathLookup::Found {
        canonical: "/g\0ff\0ne".into(),
    }];
    assert_eq!(
        resolve_sandbox(Some(&base), &given).unwrap_err(),
        "canonical external path /g\u{fffd}ne is not valid UTF-8"
    );
    given.global_writable = vec![PathLookup::Uninspectable {
        canonical: "/gone".into(),
    }];
    assert_eq!(
        resolve_sandbox(Some(&base), &given).unwrap_err(),
        "cannot inspect external path /gone"
    );
    given.global_writable = vec![PathLookup::Special {
        canonical: "/gone".into(),
    }];
    assert!(resolve_sandbox(Some(&base), &given).is_err());
    given.project = Err("cannot parse project config".into());
    given.global_writable = vec![PathLookup::Missing];
    assert_eq!(
        resolve_sandbox(Some(&base), &given).unwrap_err(),
        "cannot parse project config"
    );
}

#[test]
fn the_main_repository_of_a_worktree_is_readable() {
    let base = global(&[], &[]);
    let mut given = sources(&base, None, "");
    given.main_repo = Ok(Some("/main-repo".into()));
    let policy = resolve_sandbox(None, &given).unwrap();
    assert_eq!(policy.readable_paths, texts(&["/main-repo"]));
    assert!(policy.writable_paths.is_empty());
    assert_eq!(
        policy.readable_mounts,
        vec![("/main-repo".to_string(), "/main-repo".to_string())]
    );
    given.main_repo = Err("no such repository".into());
    assert_eq!(
        resolve_sandbox(None, &given).unwrap_err(),
        "no such repository"
    );
}

#[test]
fn worktree_pointers_need_their_shape() {
    let pointer = worktree_pointer("gitdir: /main-repo/.git/worktrees/feature\n").unwrap();
    assert_eq!(pointer.git_dir, "/main-repo/.git");
    assert_eq!(pointer.main_repo, "/main-repo");
    for text in [
        "gitdir: /home/victim/.ssh\n",
        "gitdir: ../.git/worktrees/x\n",
        "gitdir: /home/victim/.git/worktrees/../../.ssh\n",
        "gitdir: /.git/worktrees/x\n",
        "/main-repo/.git/worktrees/feature\n",
        "",
    ] {
        assert_eq!(worktree_pointer(text), None, "{text}");
    }
}

#[test]
fn configured_paths_are_expanded() {
    assert_eq!(
        expand_sandbox_path("~/cache", "/ws", Some("/home/u")).unwrap(),
        "/home/u/cache"
    );
    assert_eq!(
        expand_sandbox_path("~", "/ws", None).unwrap_err(),
        "cannot expand `~`: HOME is not set"
    );
    assert_eq!(
        expand_sandbox_path("sub", "/ws", None).unwrap(),
        "/ws/sub"
    );
    assert_eq!(expand_sandbox_path("/abs", "/ws", None).unwrap(), "/abs");
}

#[test]
fn roots_are_merged_and_normalised() {
    assert_eq!(
        merge_roots(&texts(&["/a", "/b"]), &texts(&["/a/c"])),
        texts(&["/b", "/a/c"])
    );
    let (writable, readable) =
        normalize_roots(&texts(&["/a/b", "/a"]), &texts(&["/a", "/r"])).unwrap();
    assert_eq!(writable, texts(&["/a"]));
    assert_eq!(readable, texts(&["/r"]));
    // Component by component: a longer name is no child.
    let (writable, _) = normalize_roots(&texts(&["/a", "/ab"]), &vec![]).unwrap();
    assert_eq!(writable, texts(&["/a", "/ab"]));
}

#[test]
fn only_the_final_paths_have_to_be_text() {
    let base = global(&["/b"], &[]);
    let bytes = PathLookup::Found {
        canonical: "/b\0ff\0".into(),
    };
    // What a project selects below such a root is refused at the end.
    let mut given = sources(&base, Some(project(Some(&["/b/c"]), None)), "");
    given.global_writable = vec![PathLookup::Found {
        canonical: "/\0c3\0".into(),
    }];
    given.local_writable = vec![PathLookup::Found {
        canonical: "/\0c3\0/c".into(),
    }];
    assert_eq!(
        resolve_sandbox(Some(&base), &given).unwrap_err(),
        "canonical external path /\u{fffd}/c is not valid UTF-8"
    );
    given.global_writable = vec![PathLookup::Found {
        canonical: "/b".into(),
    }];
    given.local_writable = vec![PathLookup::Found {
        canonical: "/b/c".into(),
    }];
    assert_eq!(
        resolve_sandbox(Some(&base), &given).unwrap().writable_paths,
        texts(&["/b/c"])
    );
    // One that another root covers is no root at the end, but still a mount.
    let both = global(&["/b", "/alias"], &[]);
    let mut given = sources(&both, None, "");
    given.global_writable = vec![
        PathLookup::Found {
            canonical: "/".into(),
        },
        PathLookup::Found {
            canonical: "/x\0fe\0".into(),
        },
    ];
    assert_eq!(
        resolve_sandbox(Some(&both), &given).unwrap_err(),
        "canonical external path /x\u{fffd} is not valid UTF-8"
    );
    // Refusals on the way come first.
    let mut given = sources(&base, Some(project(Some(&["/b/c"]), None)), "");
    given.global_writable = vec![bytes];
    given.local_writable = vec![PathLookup::Found {
        canonical: "/b\0fe\0/c".into(),
    }];
    assert!(resolve_sandbox(Some(&base), &given)
        .unwrap_err()
        .starts_with("project writable path /b\u{fffd}/c is not within any"));
    given.global_writable = vec![PathLookup::Special {
        canonical: "/b\0ff\0".into(),
    }];
    assert_eq!(
        resolve_sandbox(Some(&base), &given).unwrap_err(),
        "external path /b\u{fffd} is not a regular file or directory"
    );
    // A place below a workspace that is not text is refused by its own name.
    let inside = global(&["here"], &[]);
    let mut given = sources(&inside, None, "");
    given.workspace = "/w\0ff\0".into();
    given.global_writable = vec![PathLookup::Found {
        canonical: "/here".into(),
    }];
    assert_eq!(
        resolve_sandbox(Some(&inside), &given).unwrap_err(),
        "configured external path /w\u{fffd}/here is not valid UTF-8"
    );
    given.global_writable = vec![PathLookup::Unresolvable];
    assert_eq!(
        resolve_sandbox(Some(&inside), &given).unwrap_err(),
        "cannot canonicalize external path /w\u{fffd}/here"
    );
    assert_eq!(display_path("/a/\0c328\0b\0ff\0"), "/a/\u{fffd}b\u{fffd}");
    assert_eq!(display_path("/a/b"), "/a/b");
}
