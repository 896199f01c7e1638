//! What a build says of itself: the commit that it was made from, and the lines
//! that a build script prints.
use vstd::prelude::*;

use crate::text::{trim, trimmed};

verus! {

/// The version of a build: the commit, marked where the sources were changed
/// since, or `unknown` where no commit is known.
pub open spec fn version_of(commit: Option<Seq<char>>, dirty: bool) -> Seq<char> {
    match commit {
        Some(commit) if trimmed(commit).len() > 0 => if dirty {
            trimmed(commit) + "-dirty"@
        } else {
            trimmed(commit)
        },
        _ => "unknown"@,
    }
}

/// The version of a build, from what names the commit.
pub fn version_text(commit: Option<&str>, dirty: bool) -> (r: String)
    ensures
        r@ == version_of(commit.deep_view(), dirty),
{
    if let Some(commit) = commit {
        let mut version = trim(commit);
        if !version.as_str().is_empty() {
            if dirty {
                version.push_str("-dirty");
            }
            return version;
        }
    }
    "unknown".to_owned()
}

/// The lines of a build script: the version, the flag of the web pages where
/// they are there, and what the script depends on.
pub open spec fn script_lines(version: Seq<char>, web_ui: bool) -> Seq<Seq<char>> {
    let head = seq![
        "cargo:rustc-env=E_AGENT_COMMIT="@ + version,
        "cargo:rustc-check-cfg=cfg(web_ui)"@,
    ];
    let flagged = if web_ui {
        head.push("cargo:rustc-cfg=web_ui"@)
    } else {
        head
    };
    flagged + seq![
        "cargo:rerun-if-changed=src/ui/index.html"@,
        "cargo:rerun-if-changed=.git/HEAD"@,
        "cargo:rerun-if-changed=.git/refs/"@,
    ]
}

/// Append a line.
fn add_line(lines: &mut Vec<String>, line: &str)
    ensures
        final(lines).deep_view() == old(lines).deep_view().push(line@),
{
    let ghost before = lines.deep_view();
    lines.push(line.to_owned());
    assert(lines.deep_view() =~= before.push(line@));
}

/// The lines of a build script. `web_ui` says that the web pages are there.
pub fn build_lines(version: &str, web_ui: bool) -> (r: Vec<String>)
    ensures
        r.deep_view() == script_lines(version@, web_ui),
{
    let mut lines: Vec<String> = Vec::new();
    let mut first = "cargo:rustc-env=E_AGENT_COMMIT=".to_owned();
    first.push_str(version);
    add_line(&mut lines, first.as_str());
    add_line(&mut lines, "cargo:rustc-check-cfg=cfg(web_ui)");
    if web_ui {
        add_line(&mut lines, "cargo:rustc-cfg=web_ui");
    }
    add_line(&mut lines, "cargo:rerun-if-changed=src/ui/index.html");
    add_line(&mut lines, "cargo:rerun-if-changed=.git/HEAD");
    add_line(&mut lines, "cargo:rerun-if-changed=.git/refs/");
    assert(lines.deep_view() =~= script_lines(version@, web_ui));
    lines
}

/// A build is named by its commit, marked where the sources were changed since, and
/// is unknown where no commit is.
pub proof fn builds_are_named_by_their_commit(commit: Seq<char>)
    ensures
        trimmed(commit).len() > 0 ==> version_of(Some(commit), false) == trimmed(commit),
        trimmed(commit).len() > 0 ==> version_of(Some(commit), true) == trimmed(commit)
            + "-dirty"@,
        trimmed(commit).len() == 0 ==> version_of(Some(commit), true) == "unknown"@ && version_of(
            Some(commit),
            false,
        ) == "unknown"@,
        version_of(None, true) == "unknown"@ && version_of(None, false) == "unknown"@,
{
}

/// A build script says the version first, and switches the web pages on exactly
/// where they are there.
pub proof fn scripts_say_the_version(version: Seq<char>)
    ensures
        script_lines(version, true)[0] == "cargo:rustc-env=E_AGENT_COMMIT="@ + version,
        script_lines(version, false)[0] == "cargo:rustc-env=E_AGENT_COMMIT="@ + version,
        script_lines(version, true)[2] == "cargo:rustc-cfg=web_ui"@,
        script_lines(version, true).len() == 6,
        script_lines(version, false).len() == 5,
        script_lines(version, true).remove(2) == script_lines(version, false),
{
    assert(script_lines(version, true).remove(2) =~= script_lines(version, false));
}

} // verus!
