use e_agent::build_info::{build_lines, version_text};

#[test]
fn builds_name_their_commit() {
    assert_eq!(version_text(Some("1a2b3c\n"), false), "1a2b3c");
    assert_eq!(version_text(Some("1a2b3c\n"), true), "1a2b3c-dirty");
    assert_eq!(version_text(Some(" \n"), true), "unknown");
    assert_eq!(version_text(None, true), "unknown");
}

#[test]
fn build_scripts_flag_the_web_pages() {
    assert_eq!(
        build_lines("1a2b3c", true),
        [
            "cargo:rustc-env=E_AGENT_COMMIT=1a2b3c",
            "cargo:rustc-check-cfg=cfg(web_ui)",
            "cargo:rustc-cfg=web_ui",
            "cargo:rerun-if-changed=src/ui/index.html",
            "cargo:rerun-if-changed=.git/HEAD",
            "cargo:rerun-if-changed=.git/refs/",
        ]
    );
    assert_eq!(build_lines("unknown", false).len(), 5);
}
