//! The sandbox policy: which places outside the workspace may be read and
//! written, and where they are mounted.
use vstd::prelude::*;

use crate::order::{insert_sorted, sorted_set};
use crate::path::{
    components, is_below, is_in, is_same_place, join_path, joined_path, lies_below, lies_in,
    places_are_ordered, same_place, split_path,
};
use crate::same::Same;
use crate::text::{chars_of, has_prefix, same_text, starts_with, strip_prefix, trim, trimmed};

verus! {

/// A path and the place that it stands for.
pub type PlaceView = (Seq<char>, Seq<char>);

/// Runtime sandbox configuration.
#[derive(Debug, PartialEq)]
pub struct Sandbox {
    /// Master switch.
    pub enabled: bool,
    /// Allow network access inside the sandbox.
    pub network: bool,
    /// Mount the workspace for writing.
    pub workspace_writable: bool,
    /// Writable roots outside the workspace.
    pub writable_paths: Vec<String>,
    /// Readable roots outside the workspace.
    pub readable_paths: Vec<String>,
    /// Mounts for reading: canonical source, configured place.
    pub readable_mounts: Vec<(String, String)>,
    /// Mounts for writing: canonical source, configured place.
    pub writable_mounts: Vec<(String, String)>,
}

/// Model of a [`Sandbox`].
#[verifier::ext_equal]
pub struct SandboxView {
    pub enabled: bool,
    pub network: bool,
    pub workspace_writable: bool,
    pub writable_paths: Seq<Seq<char>>,
    pub readable_paths: Seq<Seq<char>>,
    pub readable_mounts: Seq<PlaceView>,
    pub writable_mounts: Seq<PlaceView>,
}

impl DeepView for Sandbox {
    type V = SandboxView;

    open spec fn deep_view(&self) -> SandboxView {
        SandboxView {
            enabled: self.enabled,
            network: self.network,
            workspace_writable: self.workspace_writable,
            writable_paths: self.writable_paths.deep_view(),
            readable_paths: self.readable_paths.deep_view(),
            readable_mounts: self.readable_mounts.deep_view(),
            writable_mounts: self.writable_mounts.deep_view(),
        }
    }
}

/// The switches of a configuration that default to on.
pub fn default_true() -> (r: bool)
    ensures
        r,
{
    true
}

/// The policy without any configuration: switched off, with network and a
/// writable workspace, and without roots.
pub open spec fn default_sandbox() -> SandboxView {
    SandboxView {
        enabled: false,
        network: true,
        workspace_writable: true,
        writable_paths: Seq::empty(),
        readable_paths: Seq::empty(),
        readable_mounts: Seq::empty(),
        writable_mounts: Seq::empty(),
    }
}

impl Default for Sandbox {
    fn default() -> (r: Self)
        ensures
            r.deep_view() == default_sandbox(),
    {
        let r = Sandbox {
            enabled: false,
            network: default_true(),
            workspace_writable: default_true(),
            writable_paths: Vec::new(),
            readable_paths: Vec::new(),
            readable_mounts: Vec::new(),
            writable_mounts: Vec::new(),
        };
        assert(r.deep_view() =~= default_sandbox());
        r
    }
}

/// Copies of path pairs.
fn copy_pairs(pairs: &Vec<(String, String)>) -> (r: Vec<(String, String)>)
    ensures
        r.deep_view() == pairs.deep_view(),
{
    let mut out: Vec<(String, String)> = Vec::new();
    let mut i: usize = 0;
    while i < pairs.len()
        invariant
            i <= pairs.len(),
            out@.len() == i,
            forall|j: int|
                0 <= j < i ==> (#[trigger] out@[j]).deep_view() == pairs@[j].deep_view(),
        decreases pairs.len() - i,
    {
        out.push((pairs[i].0.clone(), pairs[i].1.clone()));
        i += 1;
    }
    assert(out.deep_view() =~= pairs.deep_view());
    out
}

impl Clone for Sandbox {
    fn clone(&self) -> (r: Self)
        ensures
            r.deep_view() == self.deep_view(),
    {
        let writable_paths = self.writable_paths.clone();
        assert(writable_paths.deep_view() =~= self.writable_paths.deep_view());
        let readable_paths = self.readable_paths.clone();
        assert(readable_paths.deep_view() =~= self.readable_paths.deep_view());
        Sandbox {
            enabled: self.enabled,
            network: self.network,
            workspace_writable: self.workspace_writable,
            writable_paths,
            readable_paths,
            readable_mounts: copy_pairs(&self.readable_mounts),
            writable_mounts: copy_pairs(&self.writable_mounts),
        }
    }
}

/// A project's own sandbox settings; what is absent keeps the global value.
#[derive(Debug, PartialEq)]
pub struct ProjectSandbox {
    pub enabled: Option<bool>,
    pub network: Option<bool>,
    pub workspace_writable: Option<bool>,
    pub writable_paths: Option<Vec<String>>,
    pub readable_paths: Option<Vec<String>>,
}

/// Model of a [`ProjectSandbox`].
#[verifier::ext_equal]
pub struct ProjectSandboxView {
    pub enabled: Option<bool>,
    pub network: Option<bool>,
    pub workspace_writable: Option<bool>,
    pub writable_paths: Option<Seq<Seq<char>>>,
    pub readable_paths: Option<Seq<Seq<char>>>,
}

impl DeepView for ProjectSandbox {
    type V = ProjectSandboxView;

    open spec fn deep_view(&self) -> ProjectSandboxView {
        ProjectSandboxView {
            enabled: self.enabled,
            network: self.network,
            workspace_writable: self.workspace_writable,
            writable_paths: self.writable_paths.deep_view(),
            readable_paths: self.readable_paths.deep_view(),
        }
    }
}

/// What the file system says of a configured path. Where a resolved path holds
/// bytes that are no text, a stand-in holds their place (see [`BYTES_MARK`]).
#[derive(Debug, PartialEq)]
pub enum PathLookup {
    /// There is nothing at the path.
    Missing,
    /// The path cannot be resolved for another reason.
    Unresolvable,
    /// The resolved path cannot be inspected.
    Uninspectable { canonical: String },
    /// The resolved path is neither a regular file nor a directory.
    Special { canonical: String },
    /// The resolved path is a regular file or a directory.
    Found { canonical: String },
}

/// Model of a [`PathLookup`].
pub enum LookupView {
    Missing,
    Unresolvable,
    Uninspectable { canonical: Seq<char> },
    Special { canonical: Seq<char> },
    Found { canonical: Seq<char> },
}

impl DeepView for PathLookup {
    type V = LookupView;

    open spec fn deep_view(&self) -> LookupView {
        match self {
            PathLookup::Missing => LookupView::Missing,
            PathLookup::Unresolvable => LookupView::Unresolvable,
            PathLookup::Uninspectable { canonical } => LookupView::Uninspectable {
                canonical: canonical@,
            },
            PathLookup::Special { canonical } => LookupView::Special { canonical: canonical@ },
            PathLookup::Found { canonical } => LookupView::Found { canonical: canonical@ },
        }
    }
}

/// Stands before and behind what holds the place of bytes that are no text:
/// their hexadecimal digits. A path of a file system never holds this character,
/// so the stand-ins of different paths differ.
pub const BYTES_MARK: char = '\0';

/// What is displayed for bytes that are no text.
pub const BYTES_SHOWN: char = '\u{fffd}';

/// The path is text throughout.
pub open spec fn all_text(path: Seq<char>) -> bool {
    forall|i: int| 0 <= i < path.len() ==> #[trigger] path[i] != BYTES_MARK
}

/// What follows the path stands inside a stand-in.
pub open spec fn in_bytes(path: Seq<char>) -> bool
    decreases path.len(),
{
    path.len() > 0 && (path.last() == BYTES_MARK) != in_bytes(path.drop_last())
}

/// A path as it is displayed: one character in place of each stand-in.
pub open spec fn shown(path: Seq<char>) -> Seq<char>
    decreases path.len(),
{
    if path.len() == 0 {
        Seq::empty()
    } else if in_bytes(path.drop_last()) {
        shown(path.drop_last())
    } else if path.last() == BYTES_MARK {
        shown(path.drop_last()).push(BYTES_SHOWN)
    } else {
        shown(path.drop_last()).push(path.last())
    }
}

/// Whether the path is text throughout.
fn is_all_text(path: &str) -> (r: bool)
    ensures
        r == all_text(path@),
{
    let chars = chars_of(path);
    let mut i: usize = 0;
    while i < chars.len()
        invariant
            i <= chars.len(),
            chars@ == path@,
            forall|j: int| 0 <= j < i ==> #[trigger] chars@[j] != BYTES_MARK,
        decreases chars.len() - i,
    {
        if chars[i] == BYTES_MARK {
            assert(path@[i as int] == BYTES_MARK);
            return false;
        }
        i += 1;
    }
    true
}

/// A path as it is displayed.
pub fn display_path(path: &str) -> (r: String)
    ensures
        r@ == shown(path@),
{
    let chars = chars_of(path);
    let mut out = String::new();
    let mut inside = false;
    let mut i: usize = 0;
    while i < chars.len()
        invariant
            i <= chars.len(),
            chars@ == path@,
            inside == in_bytes(path@.take(i as int)),
            out@ == shown(path@.take(i as int)),
        decreases chars.len() - i,
    {
        proof {
            assert(path@.take(i + 1).drop_last() =~= path@.take(i as int));
            assert(path@.take(i + 1).last() == chars@[i as int]);
        }
        if chars[i] == BYTES_MARK {
            if !inside {
                out.push(BYTES_SHOWN);
            }
            inside = !inside;
        } else if !inside {
            out.push(chars[i]);
        }
        i += 1;
    }
    assert(path@.take(path@.len() as int) =~= path@);
    out
}

proof fn lemma_text_is_outside(path: Seq<char>)
    requires
        all_text(path),
    ensures
        !in_bytes(path),
    decreases path.len(),
{
    if path.len() > 0 {
        assert(path.last() == path[path.len() - 1]);
        assert forall|i: int| 0 <= i < path.len() - 1 implies #[trigger] path.drop_last()[i]
            != BYTES_MARK by {
            assert(path.drop_last()[i] == path[i]);
        }
        lemma_text_is_outside(path.drop_last());
    }
}

/// A path that is text throughout is displayed as it is.
pub proof fn text_is_displayed_as_it_is(path: Seq<char>)
    requires
        all_text(path),
    ensures
        shown(path) == path,
    decreases path.len(),
{
    if path.len() > 0 {
        let head = path.drop_last();
        assert(path.last() == path[path.len() - 1]);
        assert forall|i: int| 0 <= i < head.len() implies #[trigger] head[i] != BYTES_MARK by {
            assert(head[i] == path[i]);
        }
        lemma_text_is_outside(head);
        text_is_displayed_as_it_is(head);
        assert(head.push(path.last()) =~= path);
    } else {
        assert(shown(path) =~= path);
    }
}

/// A configured path with the home directory put in for `~`, taken from the
/// workspace where it is relative.
pub open spec fn expanded(path: Seq<char>, workspace: Seq<char>, home: Option<Seq<char>>) -> Result<
    Seq<char>,
    Seq<char>,
> {
    if path == "~"@ || has_prefix(path, "~/"@) {
        match home {
            None => Err("cannot expand `"@ + path + "`: HOME is not set"@),
            Some(home) => Ok(
                joined_path(
                    home,
                    if has_prefix(path, "~/"@) {
                        path.skip(2)
                    } else {
                        Seq::empty()
                    },
                ),
            ),
        }
    } else {
        Ok(joined_path(workspace, path))
    }
}

/// A result over a text, seen through its model.
pub open spec fn text_result(r: Result<String, String>) -> Result<Seq<char>, Seq<char>> {
    match r {
        Ok(text) => Ok(text@),
        Err(error) => Err(error@),
    }
}

/// A configured path with the home directory put in for `~`, taken from the
/// workspace where it is relative.
pub fn expand_sandbox_path(path: &str, workspace: &str, home: Option<&str>) -> (r: Result<
    String,
    String,
>)
    ensures
        text_result(r) == expanded(path@, workspace@, home.deep_view()),
{
    proof {
        reveal_strlit("~/");
    }
    if same_text(path, "~") || starts_with(path, "~/") {
        match home {
            None => {
                let mut error = "cannot expand `".to_owned();
                error.push_str(path);
                error.push_str("`: HOME is not set");
                return Err(error);
            },
            Some(home) => {
                let rest = match strip_prefix(path, "~/") {
                    Some(rest) => rest,
                    None => String::new(),
                };
                return Ok(join_path(home, rest.as_str()));
            },
        }
    }
    let r = join_path(workspace, path);
    Ok(r)
}

/// A configured path as it is displayed once it is expanded.
pub open spec fn named(path: Seq<char>, workspace: Seq<char>, home: Option<Seq<char>>) -> Seq<
    char,
> {
    match expanded(
        path,
        shown(workspace),
        match home {
            Some(home) => Some(shown(home)),
            None => None,
        },
    ) {
        Ok(path) => path,
        Err(error) => error,
    }
}

/// A configured path as it is displayed once it is expanded.
fn name_path(path: &str, workspace: &str, home: Option<&str>) -> (r: String)
    ensures
        r@ == named(path@, workspace@, home.deep_view()),
{
    let at = display_path(workspace);
    let shown_home = match home {
        Some(home) => Some(display_path(home)),
        None => None,
    };
    let home_text = match &shown_home {
        Some(home) => Some(home.as_str()),
        None => None,
    };
    match expand_sandbox_path(path, at.as_str(), home_text) {
        Ok(path) => path,
        Err(error) => error,
    }
}

/// The refusal of a path that cannot be resolved.
pub open spec fn canonicalize_error(path: Seq<char>) -> Seq<char> {
    "cannot canonicalize external path "@ + path
}

/// A list of roots with one more pair of canonical and configured path, unless
/// the same pair is there already.
pub open spec fn with_root(roots: Seq<PlaceView>, root: PlaceView) -> Seq<PlaceView> {
    if exists|i: int|
        0 <= i < roots.len() && same_place((#[trigger] roots[i]).0, root.0) && same_place(
            roots[i].1,
            root.1,
        ) {
        roots
    } else {
        roots.push(root)
    }
}

/// The roots with the next configured path resolved; `named` is how the path is
/// displayed.
pub open spec fn root_added(
    roots: Seq<PlaceView>,
    expanded: Seq<char>,
    named: Seq<char>,
    lookup: LookupView,
    skip_missing: bool,
) -> Result<Seq<PlaceView>, Seq<char>> {
    match lookup {
        LookupView::Missing => if skip_missing {
            Ok(roots)
        } else {
            Err(canonicalize_error(named))
        },
        LookupView::Unresolvable => Err(canonicalize_error(named)),
        LookupView::Uninspectable { canonical } => Err(
            "cannot inspect external path "@ + shown(canonical),
        ),
        LookupView::Special { canonical } => Err(
            "external path "@ + shown(canonical) + " is not a regular file or directory"@,
        ),
        LookupView::Found { canonical } => Ok(with_root(roots, (canonical, expanded))),
    }
}

/// The first `n` configured paths as pairs of canonical and configured path, or
/// the first refusal.
pub open spec fn roots_of(
    paths: Seq<Seq<char>>,
    workspace: Seq<char>,
    home: Option<Seq<char>>,
    lookups: Seq<LookupView>,
    skip_missing: bool,
    n: nat,
) -> Result<Seq<PlaceView>, Seq<char>>
    decreases n,
{
    if n == 0 {
        Ok(Seq::empty())
    } else {
        match roots_of(paths, workspace, home, lookups, skip_missing, (n - 1) as nat) {
            Err(error) => Err(error),
            Ok(roots) => match expanded(paths[n - 1], workspace, home) {
                Err(error) => Err(error),
                Ok(path) => root_added(
                    roots,
                    path,
                    named(paths[n - 1], workspace, home),
                    lookups[n - 1],
                    skip_missing,
                ),
            },
        }
    }
}

/// A result over path pairs, seen through its model.
pub open spec fn roots_result(r: Result<Vec<(String, String)>, String>) -> Result<
    Seq<PlaceView>,
    Seq<char>,
> {
    match r {
        Ok(roots) => Ok(roots.deep_view()),
        Err(error) => Err(error@),
    }
}

/// Append a pair of canonical and configured path, unless it is there already.
fn push_root(roots: &mut Vec<(String, String)>, canonical: &str, expanded: &str)
    ensures
        final(roots).deep_view() == with_root(old(roots).deep_view(), (canonical@, expanded@)),
{
    let ghost before = roots.deep_view();
    let mut i: usize = 0;
    while i < roots.len()
        invariant
            i <= roots.len(),
            before == roots.deep_view(),
            forall|j: int|
                0 <= j < i ==> !(same_place((#[trigger] before[j]).0, canonical@) && same_place(
                    before[j].1,
                    expanded@,
                )),
        decreases roots.len() - i,
    {
        assert(before[i as int] == (roots@[i as int].0@, roots@[i as int].1@));
        if is_same_place(roots[i].0.as_str(), canonical) && is_same_place(
            roots[i].1.as_str(),
            expanded,
        ) {
            return;
        }
        i += 1;
    }
    roots.push((canonical.to_owned(), expanded.to_owned()));
    assert(roots.deep_view() =~= before.push((canonical@, expanded@)));
}

/// A text between two others.
fn framed(before: &str, text: &str, after: &str) -> (r: String)
    ensures
        r@ == before@ + text@ + after@,
{
    let mut out = before.to_owned();
    out.push_str(text);
    out.push_str(after);
    out
}

/// Resolve configured paths into pairs of canonical and configured path.
/// `lookups` says what the file system has at each expanded path.
pub fn canonical_roots(
    paths: &Vec<String>,
    workspace: &str,
    home: Option<&str>,
    lookups: &Vec<PathLookup>,
    skip_missing: bool,
) -> (r: Result<Vec<(String, String)>, String>)
    requires
        lookups@.len() == paths@.len(),
    ensures
        roots_result(r) == roots_of(
            paths.deep_view(),
            workspace@,
            home.deep_view(),
            lookups.deep_view(),
            skip_missing,
            paths@.len(),
        ),
{
    let mut roots: Vec<(String, String)> = Vec::new();
    assert(roots.deep_view() =~= Seq::empty());
    let ghost all = paths.deep_view();
    let ghost found = lookups.deep_view();
    let ghost at_home = home.deep_view();
    let mut i: usize = 0;
    while i < paths.len()
        invariant
            i <= paths.len() == lookups.len(),
            all == paths.deep_view(),
            found == lookups.deep_view(),
            at_home == home.deep_view(),
            roots_of(all, workspace@, at_home, found, skip_missing, i as nat) == Ok::<
                Seq<PlaceView>,
                Seq<char>,
            >(roots.deep_view()),
        decreases paths.len() - i,
    {
        proof {
            assert(all[i as int] == paths@[i as int]@);
            assert(found[i as int] == lookups@[i as int].deep_view());
        }
        let path = match expand_sandbox_path(paths[i].as_str(), workspace, home) {
            Ok(path) => path,
            Err(error) => {
                proof {
                    lemma_roots_stop(
                        all,
                        workspace@,
                        at_home,
                        found,
                        skip_missing,
                        i as nat + 1,
                        paths@.len(),
                    );
                }
                return Err(error);
            },
        };
        let refused: Option<String> = match &lookups[i] {
            PathLookup::Missing => if skip_missing {
                None
            } else {
                let name = name_path(paths[i].as_str(), workspace, home);
                Some(framed("cannot canonicalize external path ", name.as_str(), ""))
            },
            PathLookup::Unresolvable => {
                let name = name_path(paths[i].as_str(), workspace, home);
                Some(framed("cannot canonicalize external path ", name.as_str(), ""))
            },
            PathLookup::Uninspectable { canonical } => Some(
                framed("cannot inspect external path ", display_path(canonical).as_str(), ""),
            ),
            PathLookup::Special { canonical } => Some(
                framed(
                    "external path ",
                    display_path(canonical).as_str(),
                    " is not a regular file or directory",
                ),
            ),
            PathLookup::Found { canonical } => {
                push_root(&mut roots, canonical.as_str(), path.as_str());
                None
            },
        };
        if let Some(error) = refused {
            proof {
                reveal_strlit("");
                assert(forall|t: Seq<char>| #[trigger] (t + ""@) =~= t);
                lemma_roots_stop(
                    all,
                    workspace@,
                    at_home,
                    found,
                    skip_missing,
                    i as nat + 1,
                    paths@.len(),
                );
            }
            return Err(error);
        }
        i += 1;
    }
    Ok(roots)
}

proof fn lemma_roots_stop(
    paths: Seq<Seq<char>>,
    workspace: Seq<char>,
    home: Option<Seq<char>>,
    lookups: Seq<LookupView>,
    skip_missing: bool,
    n: nat,
    m: nat,
)
    requires
        n <= m,
        roots_of(paths, workspace, home, lookups, skip_missing, n) is Err,
    ensures
        roots_of(paths, workspace, home, lookups, skip_missing, m) == roots_of(
            paths,
            workspace,
            home,
            lookups,
            skip_missing,
            n,
        ),
    decreases m - n,
{
    if n < m {
        lemma_roots_stop(paths, workspace, home, lookups, skip_missing, n, (m - 1) as nat);
    }
}

/// The canonical paths of a list of pairs.
pub open spec fn canonical_of(pairs: Seq<PlaceView>) -> Seq<Seq<char>> {
    pairs.map_values(|pair: PlaceView| pair.0)
}

/// The canonical paths of a list of pairs.
pub fn canonical_only(pairs: &Vec<(String, String)>) -> (r: Vec<String>)
    ensures
        r.deep_view() == canonical_of(pairs.deep_view()),
{
    let mut out: Vec<String> = Vec::new();
    let mut i: usize = 0;
    while i < pairs.len()
        invariant
            i <= pairs.len(),
            out@.len() == i,
            forall|j: int| 0 <= j < i ==> (#[trigger] out@[j])@ == pairs@[j].0@,
        decreases pairs.len() - i,
    {
        out.push(pairs[i].0.clone());
        i += 1;
    }
    assert(out.deep_view() =~= canonical_of(pairs.deep_view()));
    out
}

/// `path` lies in one of the roots.
pub open spec fn covered(path: Seq<char>, roots: Seq<Seq<char>>) -> bool {
    exists|i: int| 0 <= i < roots.len() && lies_in(path, #[trigger] roots[i])
}

/// One of the paths lies below `root`.
pub open spec fn narrowed(root: Seq<char>, paths: Seq<Seq<char>>) -> bool {
    exists|i: int| 0 <= i < paths.len() && lies_below(#[trigger] paths[i], root)
}

/// `path` names the same place as one of the roots.
pub open spec fn listed(path: Seq<char>, roots: Seq<Seq<char>>) -> bool {
    exists|i: int| 0 <= i < roots.len() && same_place(#[trigger] roots[i], path)
}

/// Whether `path` lies in one of the roots.
fn is_covered(path: &str, roots: &Vec<String>) -> (r: bool)
    ensures
        r == covered(path@, roots.deep_view()),
{
    let mut i: usize = 0;
    while i < roots.len()
        invariant
            i <= roots.len(),
            forall|j: int| 0 <= j < i ==> !lies_in(path@, #[trigger] roots.deep_view()[j]),
        decreases roots.len() - i,
    {
        if is_in(path, roots[i].as_str()) {
            assert(lies_in(path@, roots.deep_view()[i as int]));
            return true;
        }
        i += 1;
    }
    false
}

/// Whether one of the paths lies below `root`.
fn is_narrowed(root: &str, paths: &Vec<String>) -> (r: bool)
    ensures
        r == narrowed(root@, paths.deep_view()),
{
    let mut i: usize = 0;
    while i < paths.len()
        invariant
            i <= paths.len(),
            forall|j: int| 0 <= j < i ==> !lies_below(#[trigger] paths.deep_view()[j], root@),
        decreases paths.len() - i,
    {
        if is_below(paths[i].as_str(), root) {
            assert(lies_below(paths.deep_view()[i as int], root@));
            return true;
        }
        i += 1;
    }
    false
}

/// Whether `path` names the same place as one of the roots.
fn is_listed(path: &str, roots: &Vec<String>) -> (r: bool)
    ensures
        r == listed(path@, roots.deep_view()),
{
    let mut i: usize = 0;
    while i < roots.len()
        invariant
            i <= roots.len(),
            forall|j: int| 0 <= j < i ==> !same_place(#[trigger] roots.deep_view()[j], path@),
        decreases roots.len() - i,
    {
        if is_same_place(roots[i].as_str(), path) {
            assert(same_place(roots.deep_view()[i as int], path@));
            return true;
        }
        i += 1;
    }
    false
}

/// The global roots that no project root narrows.
pub open spec fn unnarrowed(global: Seq<Seq<char>>, local: Seq<Seq<char>>) -> Seq<Seq<char>>
    decreases global.len(),
{
    if global.len() == 0 {
        Seq::empty()
    } else {
        let head = unnarrowed(global.drop_last(), local);
        if narrowed(global.last(), local) {
            head
        } else {
            head.push(global.last())
        }
    }
}

/// The roots that a project selects from the global ones: a project root below
/// a global root takes its place, and every project root is added.
pub open spec fn merged_roots(global: Seq<Seq<char>>, local: Seq<Seq<char>>) -> Seq<Seq<char>> {
    unnarrowed(global, local) + local
}

/// Merge project roots into global roots. A project root below a global one
/// replaces it; the others are added.
pub fn merge_roots(global: &Vec<String>, local: &Vec<String>) -> (r: Vec<String>)
    ensures
        r.deep_view() == merged_roots(global.deep_view(), local.deep_view()),
{
    let mut out: Vec<String> = Vec::new();
    assert(out.deep_view() =~= Seq::empty());
    let mut i: usize = 0;
    while i < global.len()
        invariant
            i <= global.len(),
            out.deep_view() == unnarrowed(
                global.deep_view().take(i as int),
                local.deep_view(),
            ),
        decreases global.len() - i,
    {
        proof {
            let head = global.deep_view().take(i + 1);
            assert(head.drop_last() =~= global.deep_view().take(i as int));
            assert(head.last() == global@[i as int]@);
        }
        let ghost before = out.deep_view();
        if !is_narrowed(global[i].as_str(), local) {
            out.push(global[i].clone());
            assert(out.deep_view() =~= before.push(global@[i as int]@));
        }
        i += 1;
    }
    assert(global.deep_view().take(global@.len() as int) =~= global.deep_view());
    let ghost kept = out.deep_view();
    let mut k: usize = 0;
    assert(kept + local.deep_view().take(0) =~= kept);
    while k < local.len()
        invariant
            k <= local.len(),
            out.deep_view() == kept + local.deep_view().take(k as int),
        decreases local.len() - k,
    {
        let ghost before = out.deep_view();
        out.push(local[k].clone());
        k += 1;
        assert(out.deep_view() =~= before.push(local.deep_view()[k - 1]));
        assert(kept + local.deep_view().take(k as int) =~= (kept + local.deep_view().take(
            k - 1,
        )).push(local.deep_view()[k - 1]));
    }
    assert(local.deep_view().take(local@.len() as int) =~= local.deep_view());
    out
}

/// Number of components of a path.
pub open spec fn depth(path: Seq<char>) -> nat {
    components(path).len()
}

/// A list in order of depth with `path` behind all that are no deeper.
pub open spec fn with_depth(list: Seq<Seq<char>>, path: Seq<char>) -> Seq<Seq<char>>
    decreases list.len(),
{
    if list.len() == 0 || depth(list.last()) <= depth(path) {
        list.push(path)
    } else {
        with_depth(list.drop_last(), path).push(list.last())
    }
}

/// The paths in order of depth; equally deep ones keep their order.
pub open spec fn by_depth(paths: Seq<Seq<char>>) -> Seq<Seq<char>>
    decreases paths.len(),
{
    if paths.len() == 0 {
        Seq::empty()
    } else {
        with_depth(by_depth(paths.drop_last()), paths.last())
    }
}

/// The paths, in their order, that lie neither in an earlier one that was kept
/// nor in one of the roots `above`.
pub open spec fn outermost(paths: Seq<Seq<char>>, above: Seq<Seq<char>>) -> Seq<Seq<char>>
    decreases paths.len(),
{
    if paths.len() == 0 {
        Seq::empty()
    } else {
        let head = outermost(paths.drop_last(), above);
        if covered(paths.last(), head) || covered(paths.last(), above) {
            head
        } else {
            head.push(paths.last())
        }
    }
}

proof fn lemma_with_depth_at(list: Seq<Seq<char>>, path: Seq<char>, at: int)
    requires
        0 <= at <= list.len(),
        forall|i: int| at <= i < list.len() ==> depth(#[trigger] list[i]) > depth(path),
        at > 0 ==> depth(list[at - 1]) <= depth(path),
    ensures
        with_depth(list, path) == list.insert(at, path),
    decreases list.len(),
{
    if at < list.len() {
        assert(depth(list[list.len() - 1]) > depth(path));
        lemma_with_depth_at(list.drop_last(), path, at);
        assert(list.drop_last().insert(at, path).push(list.last()) =~= list.insert(at, path));
    } else {
        assert(list.insert(at, path) =~= list.push(path));
    }
}

/// The paths in order of depth.
fn sort_by_depth(paths: &Vec<String>) -> (r: Vec<String>)
    ensures
        r.deep_view() == by_depth(paths.deep_view()),
{
    let mut out: Vec<String> = Vec::new();
    assert(out.deep_view() =~= Seq::empty());
    let mut i: usize = 0;
    while i < paths.len()
        invariant
            i <= paths.len(),
            out.deep_view() == by_depth(paths.deep_view().take(i as int)),
        decreases paths.len() - i,
    {
        proof {
            let head = paths.deep_view().take(i + 1);
            assert(head.drop_last() =~= paths.deep_view().take(i as int));
            assert(head.last() == paths@[i as int]@);
        }
        let ghost views = out.deep_view();
        let parts = split_path(paths[i].as_str());
        let deep: usize = parts.len();
        assert(parts.deep_view().len() == parts@.len());
        let mut at: usize = out.len();
        while at > 0 && split_path(out[at - 1].as_str()).len() > deep
            invariant
                i < paths.len(),
                at <= out.len(),
                views == out.deep_view(),
                deep == depth(paths@[i as int]@),
                forall|j: int|
                    at <= j < views.len() ==> depth(#[trigger] views[j]) > depth(
                        paths@[i as int]@,
                    ),
            ensures
                at <= out.len(),
                views == out.deep_view(),
                forall|j: int|
                    at <= j < views.len() ==> depth(#[trigger] views[j]) > depth(
                        paths@[i as int]@,
                    ),
                at > 0 ==> depth(views[at - 1]) <= depth(paths@[i as int]@),
            decreases at,
        {
            assert(views[at - 1] == out@[at - 1]@);
            at -= 1;
        }
        proof {
            lemma_with_depth_at(views, paths@[i as int]@, at as int);
        }
        out.insert(at, paths[i].clone());
        assert(out.deep_view() =~= views.insert(at as int, paths@[i as int]@));
        i += 1;
    }
    assert(paths.deep_view().take(paths@.len() as int) =~= paths.deep_view());
    out
}

/// The paths that lie neither in an earlier one that was kept nor in one of the
/// roots `above`.
fn keep_outermost(paths: &Vec<String>, above: &Vec<String>) -> (r: Vec<String>)
    ensures
        r.deep_view() == outermost(paths.deep_view(), above.deep_view()),
{
    let mut out: Vec<String> = Vec::new();
    assert(out.deep_view() =~= Seq::empty());
    let mut i: usize = 0;
    while i < paths.len()
        invariant
            i <= paths.len(),
            out.deep_view() == outermost(paths.deep_view().take(i as int), above.deep_view()),
        decreases paths.len() - i,
    {
        proof {
            let head = paths.deep_view().take(i + 1);
            assert(head.drop_last() =~= paths.deep_view().take(i as int));
            assert(head.last() == paths@[i as int]@);
        }
        let ghost before = out.deep_view();
        if !is_covered(paths[i].as_str(), &out) && !is_covered(paths[i].as_str(), above) {
            out.push(paths[i].clone());
            assert(out.deep_view() =~= before.push(paths@[i as int]@));
        }
        i += 1;
    }
    assert(paths.deep_view().take(paths@.len() as int) =~= paths.deep_view());
    out
}

/// Position of the first root that `path` lies below, or their number.
pub open spec fn first_above(path: Seq<char>, roots: Seq<Seq<char>>) -> nat
    decreases roots.len(),
{
    if roots.len() == 0 || lies_below(path, roots[0]) {
        0
    } else {
        1 + first_above(path, roots.drop_first())
    }
}

/// The first readable path that lies below a writable root, with that root.
pub open spec fn conflict(readable: Seq<Seq<char>>, writable: Seq<Seq<char>>) -> Option<PlaceView>
    decreases readable.len(),
{
    if readable.len() == 0 {
        None
    } else if first_above(readable[0], writable) < writable.len() {
        Some((readable[0], writable[first_above(readable[0], writable) as int]))
    } else {
        conflict(readable.drop_first(), writable)
    }
}

/// The refusal of a readable path below a writable root.
pub open spec fn conflict_error(read: Seq<char>, write: Seq<char>) -> Seq<char> {
    "read-only child "@ + shown(read) + " under writable root "@ + shown(write)
        + " is unsupported; select a narrower writable root or downgrade the whole selected root"@
}

/// Writable and readable roots without those that another one covers, or the
/// refusal of a readable path below a writable root.
pub open spec fn normalized(writable: Seq<Seq<char>>, readable: Seq<Seq<char>>) -> Result<
    (Seq<Seq<char>>, Seq<Seq<char>>),
    Seq<char>,
> {
    match conflict(readable, writable) {
        Some(found) => Err(conflict_error(found.0, found.1)),
        None => {
            let outer = outermost(by_depth(writable), Seq::empty());
            Ok((outer, outermost(by_depth(readable), outer)))
        },
    }
}

proof fn lemma_first_above(path: Seq<char>, roots: Seq<Seq<char>>, n: nat)
    requires
        n <= roots.len(),
        forall|i: int| 0 <= i < n ==> !lies_below(path, #[trigger] roots[i]),
        n < roots.len() ==> lies_below(path, roots[n as int]),
    ensures
        first_above(path, roots) == n,
    decreases n,
{
    if n > 0 {
        let rest = roots.drop_first();
        assert(!lies_below(path, roots[0]));
        assert forall|i: int| 0 <= i < n - 1 implies !lies_below(path, #[trigger] rest[i]) by {
            assert(rest[i] == roots[i + 1]);
        }
        lemma_first_above(path, rest, (n - 1) as nat);
    }
}

/// Position of the first root that `path` lies below, or their number.
fn find_above(path: &str, roots: &Vec<String>) -> (r: usize)
    ensures
        r == first_above(path@, roots.deep_view()),
        r <= roots@.len(),
{
    let ghost views = roots.deep_view();
    let mut i: usize = 0;
    while i < roots.len() && !is_below(path, roots[i].as_str())
        invariant
            i <= roots.len(),
            views == roots.deep_view(),
            forall|j: int| 0 <= j < i ==> !lies_below(path@, #[trigger] views[j]),
        decreases roots.len() - i,
    {
        i += 1;
    }
    proof {
        lemma_first_above(path@, views, i as nat);
    }
    i
}

/// A result over two lists of roots, seen through its model.
pub open spec fn normalized_result(r: Result<(Vec<String>, Vec<String>), String>) -> Result<
    (Seq<Seq<char>>, Seq<Seq<char>>),
    Seq<char>,
> {
    match r {
        Ok(roots) => Ok((roots.0.deep_view(), roots.1.deep_view())),
        Err(error) => Err(error@),
    }
}

/// Drop the roots that another one covers. A readable path below a writable
/// root is refused.
pub fn normalize_roots(writable: &Vec<String>, readable: &Vec<String>) -> (r: Result<
    (Vec<String>, Vec<String>),
    String,
>)
    ensures
        normalized_result(r) == normalized(writable.deep_view(), readable.deep_view()),
{
    let ghost reads = readable.deep_view();
    let ghost writes = writable.deep_view();
    let mut i: usize = 0;
    assert(reads.skip(0) =~= reads);
    while i < readable.len()
        invariant
            i <= readable.len(),
            reads == readable.deep_view(),
            writes == writable.deep_view(),
            conflict(reads, writes) == conflict(reads.skip(i as int), writes),
        decreases readable.len() - i,
    {
        proof {
            assert(reads.skip(i as int)[0] == readable@[i as int]@);
            assert(reads.skip(i as int).drop_first() =~= reads.skip(i + 1));
        }
        let at: usize = find_above(readable[i].as_str(), writable);
        if at < writable.len() {
            assert(writes[at as int] == writable@[at as int]@);
            let mut error = "read-only child ".to_owned();
            error.push_str(display_path(readable[i].as_str()).as_str());
            error.push_str(" under writable root ");
            error.push_str(display_path(writable[at].as_str()).as_str());
            error.push_str(
                " is unsupported; select a narrower writable root or downgrade the whole selected root",
            );
            assert(error@ =~= conflict_error(readable@[i as int]@, writable@[at as int]@));
            return Err(error);
        }
        i += 1;
    }
    let nothing: Vec<String> = Vec::new();
    assert(nothing.deep_view() =~= Seq::empty());
    let outer = keep_outermost(&sort_by_depth(writable), &nothing);
    let inner = keep_outermost(&sort_by_depth(readable), &outer);
    Ok((outer, inner))
}

/// The two directories that a worktree pointer names: the git directory of the
/// main repository, and the main repository itself.
#[derive(Debug, PartialEq)]
pub struct WorktreePointer {
    pub git_dir: String,
    pub main_repo: String,
}

/// An absolute path made of the given names.
pub open spec fn rooted(names: Seq<Seq<char>>) -> Seq<char>
    decreases names.len(),
{
    if names.len() == 0 {
        Seq::empty()
    } else {
        rooted(names.drop_last()).push('/') + names.last()
    }
}

/// The names of `<main>/.git/worktrees/<name>`, for a main repository that is
/// not the root of the file system.
pub open spec fn names_a_worktree(parts: Seq<Seq<char>>) -> bool {
    &&& parts.len() >= 5
    &&& parts[0] == "/"@
    &&& parts[parts.len() - 2] == "worktrees"@
    &&& parts[parts.len() - 3] == ".git"@
    &&& forall|i: int| 0 <= i < parts.len() ==> (#[trigger] parts[i]) != ".."@
}

/// What the `.git` file of a linked worktree points to: the git directory and
/// the root of the main repository. Nothing unless it holds `gitdir:` and an
/// absolute path of the shape `<main>/.git/worktrees/<name>` that climbs
/// nowhere.
pub open spec fn worktree_target(pointer: Seq<char>) -> Option<PlaceView> {
    let text = trimmed(pointer);
    let target = trimmed(text.skip("gitdir:"@.len() as int));
    let parts = components(target);
    if has_prefix(text, "gitdir:"@) && names_a_worktree(parts) {
        let names = parts.skip(1);
        Some((rooted(names.take(names.len() - 2)), rooted(names.take(names.len() - 3))))
    } else {
        None
    }
}

/// An absolute path made of `parts[1..to]`.
fn rooted_text(parts: &Vec<String>, to: usize) -> (r: String)
    requires
        1 <= to <= parts@.len(),
    ensures
        r@ == rooted(parts.deep_view().skip(1).take(to - 1)),
{
    let mut out = String::new();
    let ghost names = parts.deep_view().skip(1);
    let mut i: usize = 1;
    while i < to
        invariant
            1 <= i <= to <= parts.len(),
            names == parts.deep_view().skip(1),
            out@ == rooted(names.take(i - 1)),
        decreases to - i,
    {
        proof {
            let head = names.take(i as int);
            assert(head.drop_last() =~= names.take(i - 1));
            assert(head.last() == parts@[i as int]@);
        }
        out.push('/');
        out.push_str(parts[i].as_str());
        i += 1;
    }
    out
}

/// What the `.git` file of a linked worktree points to.
pub fn worktree_pointer(pointer: &str) -> (r: Option<WorktreePointer>)
    ensures
        match r {
            Some(found) => worktree_target(pointer@) == Some((found.git_dir@, found.main_repo@)),
            None => worktree_target(pointer@) is None,
        },
{
    let text = trim(pointer);
    let rest = match strip_prefix(text.as_str(), "gitdir:") {
        Some(rest) => rest,
        None => return None,
    };
    let target = trim(rest.as_str());
    let parts = split_path(target.as_str());
    let ghost views = parts.deep_view();
    assert(views.len() == parts@.len());
    let n: usize = parts.len();
    if n < 5 {
        return None;
    }
    let mut i: usize = 0;
    while i < n
        invariant
            i <= n == parts.len(),
            views == parts.deep_view(),
            views == components(target@),
            forall|j: int| 0 <= j < i ==> (#[trigger] views[j]) != ".."@,
            text@ == trimmed(pointer@),
            has_prefix(text@, "gitdir:"@),
            target@ == trimmed(text@.skip("gitdir:"@.len() as int)),
        decreases n - i,
    {
        if same_text(parts[i].as_str(), "..") {
            assert(views[i as int] == ".."@);
            return None;
        }
        i += 1;
    }
    assert(views[0] == parts@[0]@);
    assert(views[n - 2] == parts@[n - 2]@);
    assert(views[n - 3] == parts@[n - 3]@);
    if !same_text(parts[0].as_str(), "/") || !same_text(parts[n - 2].as_str(), "worktrees")
        || !same_text(parts[n - 3].as_str(), ".git") {
        return None;
    }
    Some(
        WorktreePointer {
            git_dir: rooted_text(&parts, n - 2),
            main_repo: rooted_text(&parts, n - 3),
        },
    )
}

/// What the policy of a workspace is made from, besides the global settings. A
/// stand-in holds the place of bytes that are no text in each of these paths.
#[derive(Debug, PartialEq)]
pub struct SandboxSources {
    pub workspace: String,
    pub home: Option<String>,
    /// The project's own settings, or why they cannot be read.
    pub project: Result<Option<ProjectSandbox>, String>,
    /// What the file system has at each global writable path.
    pub global_writable: Vec<PathLookup>,
    /// What the file system has at each global readable path.
    pub global_readable: Vec<PathLookup>,
    /// What the file system has at each writable path of the project.
    pub local_writable: Vec<PathLookup>,
    /// What the file system has at each readable path of the project.
    pub local_readable: Vec<PathLookup>,
    /// The main repository of a linked worktree, or why it cannot be found out.
    pub main_repo: Result<Option<String>, String>,
}

/// Model of [`SandboxSources`].
#[verifier::ext_equal]
pub struct SourcesView {
    pub workspace: Seq<char>,
    pub home: Option<Seq<char>>,
    pub project: Result<Option<ProjectSandboxView>, Seq<char>>,
    pub global_writable: Seq<LookupView>,
    pub global_readable: Seq<LookupView>,
    pub local_writable: Seq<LookupView>,
    pub local_readable: Seq<LookupView>,
    pub main_repo: Result<Option<Seq<char>>, Seq<char>>,
}

impl DeepView for SandboxSources {
    type V = SourcesView;

    open spec fn deep_view(&self) -> SourcesView {
        SourcesView {
            workspace: self.workspace@,
            home: self.home.deep_view(),
            project: match self.project {
                Ok(project) => Ok(project.deep_view()),
                Err(error) => Err(error@),
            },
            global_writable: self.global_writable.deep_view(),
            global_readable: self.global_readable.deep_view(),
            local_writable: self.local_writable.deep_view(),
            local_readable: self.local_readable.deep_view(),
            main_repo: match self.main_repo {
                Ok(repo) => Ok(repo.deep_view()),
                Err(error) => Err(error@),
            },
        }
    }
}

/// The paths of an optional list; none when it is absent.
pub open spec fn paths_or_none(paths: Option<Seq<Seq<char>>>) -> Seq<Seq<char>> {
    match paths {
        Some(paths) => paths,
        None => Seq::empty(),
    }
}

/// There is one lookup for each configured path.
pub open spec fn lookups_match(base: SandboxView, sources: SourcesView) -> bool {
    &&& sources.global_writable.len() == base.writable_paths.len()
    &&& sources.global_readable.len() == base.readable_paths.len()
    &&& sources.project matches Ok(Some(project)) ==> {
        &&& sources.local_writable.len() == paths_or_none(project.writable_paths).len()
        &&& sources.local_readable.len() == paths_or_none(project.readable_paths).len()
    }
}

/// The global settings with the project's switches in place of their own.
pub open spec fn switched(base: SandboxView, project: Option<ProjectSandboxView>) -> SandboxView {
    match project {
        None => base,
        Some(project) => SandboxView {
            enabled: match project.enabled {
                Some(value) => value,
                None => base.enabled,
            },
            network: match project.network {
                Some(value) => value,
                None => base.network,
            },
            workspace_writable: match project.workspace_writable {
                Some(value) => value,
                None => base.workspace_writable,
            },
            ..base
        },
    }
}

/// The roots and mounts that a policy starts from.
#[verifier::ext_equal]
pub struct SelectionView {
    pub writable: Seq<Seq<char>>,
    pub readable: Seq<Seq<char>>,
    pub writable_mounts: Seq<PlaceView>,
    pub readable_mounts: Seq<PlaceView>,
}

/// The first path that lies in none of the roots.
pub open spec fn first_outside(paths: Seq<Seq<char>>, roots: Seq<Seq<char>>) -> Option<Seq<char>>
    decreases paths.len(),
{
    if paths.len() == 0 {
        None
    } else if !covered(paths[0], roots) {
        Some(paths[0])
    } else {
        first_outside(paths.drop_first(), roots)
    }
}

/// The refusal of a project path outside the global writable roots.
pub open spec fn writable_error(path: Seq<char>) -> Seq<char> {
    "project writable path "@ + shown(path)
        + " is not within any globally authorized writable root; add this path or an ancestor to [sandbox].writable_paths in the user-level config, or remove/narrow the project-local writable_paths entry"@
}

/// The refusal of a project path outside all global roots.
pub open spec fn readable_error(path: Seq<char>) -> Seq<char> {
    "project readable path "@ + shown(path)
        + " is not within any globally authorized readable or writable root; add this path or an ancestor to [sandbox].readable_paths in the user-level config (or to writable_paths if writes are intended), or remove/narrow the project-local readable_paths entry"@
}

/// The roots and mounts that a project selects from the global ones, or the
/// refusal of a project path that no global root covers.
pub open spec fn selected(
    global_writable: Seq<PlaceView>,
    global_readable: Seq<PlaceView>,
    local_writable: Seq<PlaceView>,
    local_readable: Seq<PlaceView>,
) -> Result<SelectionView, Seq<char>> {
    let writable = canonical_of(global_writable);
    let readable = canonical_of(global_readable);
    match first_outside(canonical_of(local_writable), writable) {
        Some(path) => Err(writable_error(path)),
        None => match first_outside(canonical_of(local_readable), readable + writable) {
            Some(path) => Err(readable_error(path)),
            None => Ok(
                SelectionView {
                    writable: merged_roots(writable, canonical_of(local_writable)),
                    readable: merged_roots(readable, canonical_of(local_readable)),
                    writable_mounts: global_writable + local_writable,
                    readable_mounts: global_readable + local_readable,
                },
            ),
        },
    }
}

/// The roots and mounts that the policy of a workspace starts from: the global
/// ones, narrowed by those of the project where it names any.
pub open spec fn selection(
    sources: SourcesView,
    project: Option<ProjectSandboxView>,
    global_writable: Seq<PlaceView>,
    global_readable: Seq<PlaceView>,
) -> Result<SelectionView, Seq<char>> {
    match project {
        Some(project) if project.writable_paths is Some || project.readable_paths is Some => {
            let writable = paths_or_none(project.writable_paths);
            let readable = paths_or_none(project.readable_paths);
            match roots_of(
                writable,
                sources.workspace,
                sources.home,
                sources.local_writable,
                false,
                writable.len(),
            ) {
                Err(error) => Err(error),
                Ok(local_writable) => match roots_of(
                    readable,
                    sources.workspace,
                    sources.home,
                    sources.local_readable,
                    false,
                    readable.len(),
                ) {
                    Err(error) => Err(error),
                    Ok(local_readable) => selected(
                        global_writable,
                        global_readable,
                        local_writable,
                        local_readable,
                    ),
                },
            }
        },
        _ => Ok(
            SelectionView {
                writable: canonical_of(global_writable),
                readable: canonical_of(global_readable),
                writable_mounts: global_writable,
                readable_mounts: global_readable,
            },
        ),
    }
}

/// The mounts whose source lies in one of the roots.
pub open spec fn mounted(mounts: Seq<PlaceView>, roots: Seq<Seq<char>>) -> Seq<PlaceView>
    decreases mounts.len(),
{
    if mounts.len() == 0 {
        Seq::empty()
    } else {
        let head = mounted(mounts.drop_last(), roots);
        if covered(mounts.last().0, roots) {
            head.push(mounts.last())
        } else {
            head
        }
    }
}

/// One of the mounts stands at the place `dest`.
pub open spec fn mounted_at(mounts: Seq<PlaceView>, dest: Seq<char>) -> bool {
    exists|i: int| 0 <= i < mounts.len() && (#[trigger] mounts[i]).1 == dest
}

/// The mounts at places where none of `others` stands.
pub open spec fn unshadowed(mounts: Seq<PlaceView>, others: Seq<PlaceView>) -> Seq<PlaceView>
    decreases mounts.len(),
{
    if mounts.len() == 0 {
        Seq::empty()
    } else {
        let head = unshadowed(mounts.drop_last(), others);
        if mounted_at(others, mounts.last().1) {
            head
        } else {
            head.push(mounts.last())
        }
    }
}

/// The refusal of a path that is not text.
pub open spec fn bytes_error(kind: Seq<char>, path: Seq<char>) -> Seq<char> {
    kind + shown(path) + " is not valid UTF-8"@
}

/// The refusal of the first root that is not text.
pub open spec fn roots_error(roots: Seq<Seq<char>>) -> Option<Seq<char>>
    decreases roots.len(),
{
    if roots.len() == 0 {
        None
    } else if !all_text(roots[0]) {
        Some(bytes_error("canonical external path "@, roots[0]))
    } else {
        roots_error(roots.drop_first())
    }
}

/// The refusal of the first mount whose source or place is not text.
pub open spec fn mounts_error(mounts: Seq<PlaceView>) -> Option<Seq<char>>
    decreases mounts.len(),
{
    if mounts.len() == 0 {
        None
    } else if !all_text(mounts[0].0) {
        Some(bytes_error("canonical external path "@, mounts[0].0))
    } else if !all_text(mounts[0].1) {
        Some(bytes_error("configured external path "@, mounts[0].1))
    } else {
        mounts_error(mounts.drop_first())
    }
}

/// A policy with its final roots and mounts, or the refusal of the first of
/// them that is not text: only what is left at the end has to be.
pub open spec fn in_text(base: SandboxView, chosen: SelectionView) -> Result<
    SandboxView,
    Seq<char>,
> {
    match roots_error(chosen.writable) {
        Some(error) => Err(error),
        None => match roots_error(chosen.readable) {
            Some(error) => Err(error),
            None => match mounts_error(chosen.writable_mounts) {
                Some(error) => Err(error),
                None => match mounts_error(chosen.readable_mounts) {
                    Some(error) => Err(error),
                    None => {
                        let writable_mounts = sorted_set::<(String, String)>(
                            chosen.writable_mounts,
                        );
                        Ok(
                            SandboxView {
                                writable_paths: chosen.writable,
                                readable_paths: chosen.readable,
                                writable_mounts,
                                readable_mounts: unshadowed(
                                    sorted_set::<(String, String)>(chosen.readable_mounts),
                                    writable_mounts,
                                ),
                                ..base
                            },
                        )
                    },
                },
            },
        },
    }
}

/// The complete policy: the normalised roots, the main repository of a linked
/// worktree for reading, and the mounts that the final roots still cover. A path
/// among them that is not text is refused.
pub open spec fn completed(
    base: SandboxView,
    chosen: SelectionView,
    main_repo: Result<Option<Seq<char>>, Seq<char>>,
) -> Result<SandboxView, Seq<char>> {
    match normalized(chosen.writable, chosen.readable) {
        Err(error) => Err(error),
        Ok(roots) => match main_repo {
            Err(error) => Err(error),
            Ok(repo) => {
                let (writable, readable) = roots;
                let linked = repo matches Some(path) && !listed(path, writable) && !listed(
                    path,
                    readable,
                );
                let readable = if linked {
                    readable.push(repo->0)
                } else {
                    readable
                };
                let reads = if linked {
                    chosen.readable_mounts.push((repo->0, repo->0))
                } else {
                    chosen.readable_mounts
                };
                in_text(
                    base,
                    SelectionView {
                        writable,
                        readable,
                        writable_mounts: mounted(chosen.writable_mounts, writable),
                        readable_mounts: mounted(reads, readable + writable),
                    },
                )
            },
        },
    }
}

/// The policy of a workspace, or the first refusal.
pub open spec fn policy(base: SandboxView, sources: SourcesView) -> Result<
    SandboxView,
    Seq<char>,
> {
    match roots_of(
        base.writable_paths,
        sources.workspace,
        sources.home,
        sources.global_writable,
        true,
        base.writable_paths.len(),
    ) {
        Err(error) => Err(error),
        Ok(global_writable) => match roots_of(
            base.readable_paths,
            sources.workspace,
            sources.home,
            sources.global_readable,
            true,
            base.readable_paths.len(),
        ) {
            Err(error) => Err(error),
            Ok(global_readable) => match sources.project {
                Err(error) => Err(error),
                Ok(project) => match selection(
                    sources,
                    project,
                    global_writable,
                    global_readable,
                ) {
                    Err(error) => Err(error),
                    Ok(chosen) => completed(switched(base, project), chosen, sources.main_repo),
                },
            },
        },
    }
}

/// The first path that lies in none of the roots.
fn find_outside(paths: &Vec<String>, roots: &Vec<String>) -> (r: Option<String>)
    ensures
        r.deep_view() == first_outside(paths.deep_view(), roots.deep_view()),
{
    let ghost views = paths.deep_view();
    let mut i: usize = 0;
    assert(views.skip(0) =~= views);
    while i < paths.len()
        invariant
            i <= paths.len(),
            views == paths.deep_view(),
            first_outside(views, roots.deep_view()) == first_outside(
                views.skip(i as int),
                roots.deep_view(),
            ),
        decreases paths.len() - i,
    {
        proof {
            assert(views.skip(i as int)[0] == paths@[i as int]@);
            assert(views.skip(i as int).drop_first() =~= views.skip(i + 1));
        }
        if !is_covered(paths[i].as_str(), roots) {
            return Some(paths[i].clone());
        }
        i += 1;
    }
    None
}

/// One list behind the other.
fn chain_texts(a: &Vec<String>, b: &Vec<String>) -> (r: Vec<String>)
    ensures
        r.deep_view() == a.deep_view() + b.deep_view(),
{
    let mut out = a.clone();
    let mut tail = b.clone();
    assert(out.deep_view() =~= a.deep_view());
    assert(tail.deep_view() =~= b.deep_view());
    let ghost x = out@;
    let ghost y = tail@;
    out.append(&mut tail);
    assert(out@ =~= x + y);
    assert(out.deep_view() =~= a.deep_view() + b.deep_view());
    out
}

/// One list behind the other.
fn chain_pairs(a: Vec<(String, String)>, b: Vec<(String, String)>) -> (r: Vec<(String, String)>)
    ensures
        r.deep_view() == a.deep_view() + b.deep_view(),
{
    let mut out = a;
    let mut tail = b;
    let ghost x = out@;
    let ghost y = tail@;
    out.append(&mut tail);
    assert(out@ =~= x + y);
    assert(out.deep_view() =~= a.deep_view() + b.deep_view());
    out
}

/// The roots and mounts that a policy starts from.
struct Selection {
    writable: Vec<String>,
    readable: Vec<String>,
    writable_mounts: Vec<(String, String)>,
    readable_mounts: Vec<(String, String)>,
}

impl DeepView for Selection {
    type V = SelectionView;

    closed spec fn deep_view(&self) -> SelectionView {
        SelectionView {
            writable: self.writable.deep_view(),
            readable: self.readable.deep_view(),
            writable_mounts: self.writable_mounts.deep_view(),
            readable_mounts: self.readable_mounts.deep_view(),
        }
    }
}

/// A result over a selection, seen through its model.
spec fn selection_result(r: Result<Selection, String>) -> Result<SelectionView, Seq<char>> {
    match r {
        Ok(chosen) => Ok(chosen.deep_view()),
        Err(error) => Err(error@),
    }
}

/// The roots and mounts that a project selects from the global ones.
fn select(
    global_writable: Vec<(String, String)>,
    global_readable: Vec<(String, String)>,
    local_writable: Vec<(String, String)>,
    local_readable: Vec<(String, String)>,
) -> (r: Result<Selection, String>)
    ensures
        selection_result(r) == selected(
            global_writable.deep_view(),
            global_readable.deep_view(),
            local_writable.deep_view(),
            local_readable.deep_view(),
        ),
{
    let writable = canonical_only(&global_writable);
    let readable = canonical_only(&global_readable);
    let writes = canonical_only(&local_writable);
    let reads = canonical_only(&local_readable);
    if let Some(path) = find_outside(&writes, &writable) {
        return Err(
            framed(
                "project writable path ",
                display_path(path.as_str()).as_str(),
                " is not within any globally authorized writable root; add this path or an ancestor to [sandbox].writable_paths in the user-level config, or remove/narrow the project-local writable_paths entry",
            ),
        );
    }
    if let Some(path) = find_outside(&reads, &chain_texts(&readable, &writable)) {
        return Err(
            framed(
                "project readable path ",
                display_path(path.as_str()).as_str(),
                " is not within any globally authorized readable or writable root; add this path or an ancestor to [sandbox].readable_paths in the user-level config (or to writable_paths if writes are intended), or remove/narrow the project-local readable_paths entry",
            ),
        );
    }
    Ok(
        Selection {
            writable: merge_roots(&writable, &writes),
            readable: merge_roots(&readable, &reads),
            writable_mounts: chain_pairs(global_writable, local_writable),
            readable_mounts: chain_pairs(global_readable, local_readable),
        },
    )
}

/// The mounts whose source lies in one of the roots.
fn keep_mounted(mounts: &Vec<(String, String)>, roots: &Vec<String>) -> (r: Vec<(String, String)>)
    ensures
        r.deep_view() == mounted(mounts.deep_view(), roots.deep_view()),
{
    let mut out: Vec<(String, String)> = Vec::new();
    assert(out.deep_view() =~= Seq::empty());
    let mut i: usize = 0;
    while i < mounts.len()
        invariant
            i <= mounts.len(),
            out.deep_view() == mounted(mounts.deep_view().take(i as int), roots.deep_view()),
        decreases mounts.len() - i,
    {
        let ghost kept = out.deep_view();
        proof {
            let head = mounts.deep_view().take(i + 1);
            assert(head.drop_last() =~= mounts.deep_view().take(i as int));
            assert(head.last() == mounts@[i as int].deep_view());
        }
        if is_covered(mounts[i].0.as_str(), roots) {
            out.push((mounts[i].0.clone(), mounts[i].1.clone()));
            assert(out.deep_view() =~= kept.push(mounts@[i as int].deep_view()));
        }
        i += 1;
    }
    assert(mounts.deep_view().take(mounts@.len() as int) =~= mounts.deep_view());
    out
}

/// The mounts sorted, each once.
fn sort_mounts(mounts: &Vec<(String, String)>) -> (r: Vec<(String, String)>)
    ensures
        r.deep_view() == sorted_set::<(String, String)>(mounts.deep_view()),
{
    let mut out: Vec<(String, String)> = Vec::new();
    assert(out.deep_view() =~= Seq::empty());
    let mut i: usize = 0;
    while i < mounts.len()
        invariant
            i <= mounts.len(),
            out.deep_view() == sorted_set::<(String, String)>(
                mounts.deep_view().take(i as int),
            ),
        decreases mounts.len() - i,
    {
        proof {
            let head = mounts.deep_view().take(i + 1);
            assert(head.drop_last() =~= mounts.deep_view().take(i as int));
            assert(head.last() == mounts@[i as int].deep_view());
        }
        insert_sorted(&mut out, (mounts[i].0.clone(), mounts[i].1.clone()));
        i += 1;
    }
    assert(mounts.deep_view().take(mounts@.len() as int) =~= mounts.deep_view());
    out
}

/// The refusal of the first root that is not text.
fn find_roots_error(roots: &Vec<String>) -> (r: Option<String>)
    ensures
        r.deep_view() == roots_error(roots.deep_view()),
{
    let ghost views = roots.deep_view();
    let mut i: usize = 0;
    assert(views.skip(0) =~= views);
    while i < roots.len()
        invariant
            i <= roots.len(),
            views == roots.deep_view(),
            roots_error(views) == roots_error(views.skip(i as int)),
        decreases roots.len() - i,
    {
        proof {
            assert(views.skip(i as int)[0] == roots@[i as int]@);
            assert(views.skip(i as int).drop_first() =~= views.skip(i + 1));
        }
        if !is_all_text(roots[i].as_str()) {
            return Some(
                framed(
                    "canonical external path ",
                    display_path(roots[i].as_str()).as_str(),
                    " is not valid UTF-8",
                ),
            );
        }
        i += 1;
    }
    None
}

/// The refusal of the first mount whose source or place is not text.
fn find_mounts_error(mounts: &Vec<(String, String)>) -> (r: Option<String>)
    ensures
        r.deep_view() == mounts_error(mounts.deep_view()),
{
    let ghost views = mounts.deep_view();
    let mut i: usize = 0;
    assert(views.skip(0) =~= views);
    while i < mounts.len()
        invariant
            i <= mounts.len(),
            views == mounts.deep_view(),
            mounts_error(views) == mounts_error(views.skip(i as int)),
        decreases mounts.len() - i,
    {
        proof {
            assert(views.skip(i as int)[0] == mounts@[i as int].deep_view());
            assert(views.skip(i as int).drop_first() =~= views.skip(i + 1));
        }
        if !is_all_text(mounts[i].0.as_str()) {
            return Some(
                framed(
                    "canonical external path ",
                    display_path(mounts[i].0.as_str()).as_str(),
                    " is not valid UTF-8",
                ),
            );
        }
        if !is_all_text(mounts[i].1.as_str()) {
            return Some(
                framed(
                    "configured external path ",
                    display_path(mounts[i].1.as_str()).as_str(),
                    " is not valid UTF-8",
                ),
            );
        }
        i += 1;
    }
    None
}

/// Whether one of the mounts stands at the place `dest`.
fn is_mounted_at(mounts: &Vec<(String, String)>, dest: &str) -> (r: bool)
    ensures
        r == mounted_at(mounts.deep_view(), dest@),
{
    let mut i: usize = 0;
    while i < mounts.len()
        invariant
            i <= mounts.len(),
            forall|j: int| 0 <= j < i ==> (#[trigger] mounts.deep_view()[j]).1 != dest@,
        decreases mounts.len() - i,
    {
        if same_text(mounts[i].1.as_str(), dest) {
            assert(mounts.deep_view()[i as int].1 == dest@);
            return true;
        }
        i += 1;
    }
    false
}

/// The mounts at places where none of `others` stands.
fn drop_shadowed(mounts: &Vec<(String, String)>, others: &Vec<(String, String)>) -> (r: Vec<
    (String, String),
>)
    ensures
        r.deep_view() == unshadowed(mounts.deep_view(), others.deep_view()),
{
    let mut out: Vec<(String, String)> = Vec::new();
    assert(out.deep_view() =~= Seq::empty());
    let mut i: usize = 0;
    while i < mounts.len()
        invariant
            i <= mounts.len(),
            out.deep_view() == unshadowed(
                mounts.deep_view().take(i as int),
                others.deep_view(),
            ),
        decreases mounts.len() - i,
    {
        proof {
            let head = mounts.deep_view().take(i + 1);
            assert(head.drop_last() =~= mounts.deep_view().take(i as int));
            assert(head.last() == mounts@[i as int].deep_view());
        }
        let ghost before = out.deep_view();
        if !is_mounted_at(others, mounts[i].1.as_str()) {
            out.push((mounts[i].0.clone(), mounts[i].1.clone()));
            assert(out.deep_view() =~= before.push(mounts@[i as int].deep_view()));
        }
        i += 1;
    }
    assert(mounts.deep_view().take(mounts@.len() as int) =~= mounts.deep_view());
    out
}

/// A result over a policy, seen through its model.
pub open spec fn sandbox_result(r: Result<Sandbox, String>) -> Result<SandboxView, Seq<char>> {
    match r {
        Ok(sandbox) => Ok(sandbox.deep_view()),
        Err(error) => Err(error@),
    }
}

/// Make the policy complete.
fn complete(base: Sandbox, chosen: Selection, main_repo: &Result<Option<String>, String>) -> (r:
    Result<Sandbox, String>)
    ensures
        sandbox_result(r) == completed(
            base.deep_view(),
            chosen.deep_view(),
            match *main_repo {
                Ok(repo) => Ok(repo.deep_view()),
                Err(error) => Err(error@),
            },
        ),
{
    let (writable, readable) = match normalize_roots(&chosen.writable, &chosen.readable) {
        Ok(roots) => roots,
        Err(error) => return Err(error),
    };
    let repo = match main_repo {
        Ok(repo) => repo,
        Err(error) => return Err(error.clone()),
    };
    let mut readable = readable;
    let mut reads = chosen.readable_mounts;
    if let Some(path) = repo {
        if !is_listed(path.as_str(), &writable) && !is_listed(path.as_str(), &readable) {
            let ghost roots = readable.deep_view();
            let ghost mounts = reads.deep_view();
            readable.push(path.clone());
            reads.push((path.clone(), path.clone()));
            assert(readable.deep_view() =~= roots.push(path@));
            assert(reads.deep_view() =~= mounts.push((path@, path@)));
        }
    }
    let write_mounts = keep_mounted(&chosen.writable_mounts, &writable);
    let read_mounts = keep_mounted(&reads, &chain_texts(&readable, &writable));
    if let Some(error) = find_roots_error(&writable) {
        return Err(error);
    }
    if let Some(error) = find_roots_error(&readable) {
        return Err(error);
    }
    if let Some(error) = find_mounts_error(&write_mounts) {
        return Err(error);
    }
    if let Some(error) = find_mounts_error(&read_mounts) {
        return Err(error);
    }
    let writable_mounts = sort_mounts(&write_mounts);
    let readable_mounts = drop_shadowed(&sort_mounts(&read_mounts), &writable_mounts);
    Ok(
        Sandbox {
            enabled: base.enabled,
            network: base.network,
            workspace_writable: base.workspace_writable,
            writable_paths: writable,
            readable_paths: readable,
            readable_mounts,
            writable_mounts,
        },
    )
}

/// The policy of a workspace: the global roots, narrowed by those that the
/// project selects, and the mounts that the final roots still cover.
pub fn resolve_sandbox(base: Option<&Sandbox>, sources: &SandboxSources) -> (r: Result<
    Sandbox,
    String,
>)
    requires
        lookups_match(
            match base {
                Some(base) => base.deep_view(),
                None => default_sandbox(),
            },
            sources.deep_view(),
        ),
    ensures
        sandbox_result(r) == policy(
            match base {
                Some(base) => base.deep_view(),
                None => default_sandbox(),
            },
            sources.deep_view(),
        ),
{
    let mut result = match base {
        Some(base) => base.clone(),
        None => Sandbox::default(),
    };
    let ghost settings = result.deep_view();
    let workspace = sources.workspace.as_str();
    let home = match &sources.home {
        Some(home) => Some(home.as_str()),
        None => None,
    };
    assert(home.deep_view() == sources.deep_view().home);
    assert(result.writable_paths.deep_view().len() == result.writable_paths@.len());
    assert(result.readable_paths.deep_view().len() == result.readable_paths@.len());
    assert(sources.global_writable.deep_view().len() == sources.global_writable@.len());
    assert(sources.global_readable.deep_view().len() == sources.global_readable@.len());
    assert(sources.local_writable.deep_view().len() == sources.local_writable@.len());
    assert(sources.local_readable.deep_view().len() == sources.local_readable@.len());
    let global_writable = match canonical_roots(
        &result.writable_paths,
        workspace,
        home,
        &sources.global_writable,
        true,
    ) {
        Ok(roots) => roots,
        Err(error) => return Err(error),
    };
    let global_readable = match canonical_roots(
        &result.readable_paths,
        workspace,
        home,
        &sources.global_readable,
        true,
    ) {
        Ok(roots) => roots,
        Err(error) => return Err(error),
    };
    let project = match &sources.project {
        Ok(project) => project,
        Err(error) => return Err(error.clone()),
    };
    if let Some(project) = project {
        if let Some(value) = project.enabled {
            result.enabled = value;
        }
        if let Some(value) = project.network {
            result.network = value;
        }
        if let Some(value) = project.workspace_writable {
            result.workspace_writable = value;
        }
    }
    assert(result.deep_view() =~= switched(settings, project.deep_view()));
    if let Some(project) = project {
        if project.writable_paths.is_some() || project.readable_paths.is_some() {
            let none: Vec<String> = Vec::new();
            assert(none.deep_view() =~= Seq::empty());
            let writes = match &project.writable_paths {
                Some(paths) => paths,
                None => &none,
            };
            let reads = match &project.readable_paths {
                Some(paths) => paths,
                None => &none,
            };
            assert(writes.deep_view() == paths_or_none(project.deep_view().writable_paths));
            assert(reads.deep_view() == paths_or_none(project.deep_view().readable_paths));
            assert(writes.deep_view().len() == writes@.len());
            assert(reads.deep_view().len() == reads@.len());
            let local_writable = match canonical_roots(
                writes,
                workspace,
                home,
                &sources.local_writable,
                false,
            ) {
                Ok(roots) => roots,
                Err(error) => return Err(error),
            };
            let local_readable = match canonical_roots(
                reads,
                workspace,
                home,
                &sources.local_readable,
                false,
            ) {
                Ok(roots) => roots,
                Err(error) => return Err(error),
            };
            let chosen = match select(
                global_writable,
                global_readable,
                local_writable,
                local_readable,
            ) {
                Ok(chosen) => chosen,
                Err(error) => return Err(error),
            };
            return complete(result, chosen, &sources.main_repo);
        }
    }
    let chosen = Selection {
        writable: canonical_only(&global_writable),
        readable: canonical_only(&global_readable),
        writable_mounts: global_writable,
        readable_mounts: global_readable,
    };
    complete(result, chosen, &sources.main_repo)
}

/// No path of the list lies in another one.
pub open spec fn separate(paths: Seq<Seq<char>>) -> bool {
    forall|i: int, j: int|
        0 <= i < paths.len() && 0 <= j < paths.len() && i != j ==> !lies_in(
            #[trigger] paths[i],
            #[trigger] paths[j],
        )
}

/// Every path of the list lies in one of the roots.
pub open spec fn all_covered(paths: Seq<Seq<char>>, roots: Seq<Seq<char>>) -> bool {
    forall|i: int| 0 <= i < paths.len() ==> covered(#[trigger] paths[i], roots)
}

/// The list is in order of depth.
pub open spec fn depth_sorted(paths: Seq<Seq<char>>) -> bool {
    forall|i: int, j: int|
        0 <= i < j < paths.len() ==> depth(#[trigger] paths[i]) <= depth(#[trigger] paths[j])
}

proof fn lemma_covered_self(paths: Seq<Seq<char>>, i: int)
    requires
        0 <= i < paths.len(),
    ensures
        covered(paths[i], paths),
{
    places_are_ordered(paths[i], paths[i], paths[i]);
    assert(lies_in(paths[i], paths[i]));
}

proof fn lemma_covered_more(path: Seq<char>, roots: Seq<Seq<char>>, more: Seq<Seq<char>>)
    requires
        covered(path, roots),
        forall|i: int| 0 <= i < roots.len() ==> more.contains(#[trigger] roots[i]),
    ensures
        covered(path, more),
{
    let i = choose|i: int| 0 <= i < roots.len() && lies_in(path, #[trigger] roots[i]);
    assert(more.contains(roots[i]));
    let k = choose|k: int| 0 <= k < more.len() && more[k] == roots[i];
    assert(lies_in(path, more[k]));
}

proof fn lemma_with_depth(list: Seq<Seq<char>>, path: Seq<char>)
    requires
        depth_sorted(list),
    ensures
        depth_sorted(with_depth(list, path)),
        forall|x: Seq<char>|
            #[trigger] with_depth(list, path).contains(x) <==> list.contains(x) || x == path,
    decreases list.len(),
{
    let result = with_depth(list, path);
    if list.len() == 0 || depth(list.last()) <= depth(path) {
        assert forall|i: int, j: int| 0 <= i < j < result.len() implies depth(#[trigger] result[i])
            <= depth(#[trigger] result[j]) by {
            if j == list.len() {
                if i < list.len() - 1 {
                    assert(depth(list[i]) <= depth(list[list.len() - 1]));
                }
            } else {
                assert(depth(list[i]) <= depth(list[j]));
            }
        }
        assert forall|x: Seq<char>| #[trigger] result.contains(x) <==> list.contains(x) || x
            == path by {
            if list.contains(x) {
                let k = choose|k: int| 0 <= k < list.len() && list[k] == x;
                assert(result[k] == x);
            }
            assert(result[list.len() as int] == path);
            if result.contains(x) && x != path {
                let k = choose|k: int| 0 <= k < result.len() && result[k] == x;
                assert(list[k] == x);
            }
        }
    } else {
        let head = list.drop_last();
        let last = list.last();
        assert forall|i: int, j: int| 0 <= i < j < head.len() implies depth(#[trigger] head[i])
            <= depth(#[trigger] head[j]) by {
            assert(depth(list[i]) <= depth(list[j]));
        }
        lemma_with_depth(head, path);
        let inner = with_depth(head, path);
        assert forall|i: int, j: int| 0 <= i < j < result.len() implies depth(#[trigger] result[i])
            <= depth(#[trigger] result[j]) by {
            if j == inner.len() {
                assert(inner.contains(inner[i]));
                if inner[i] != path {
                    assert(head.contains(inner[i]));
                    let k = choose|k: int| 0 <= k < head.len() && head[k] == inner[i];
                    assert(depth(list[k]) <= depth(list[list.len() - 1]));
                }
            } else {
                assert(depth(inner[i]) <= depth(inner[j]));
            }
        }
        assert forall|x: Seq<char>| #[trigger] result.contains(x) <==> list.contains(x) || x
            == path by {
            if result.contains(x) {
                let k = choose|k: int| 0 <= k < result.len() && result[k] == x;
                if k < inner.len() {
                    assert(inner.contains(x));
                    if head.contains(x) {
                        let m = choose|m: int| 0 <= m < head.len() && head[m] == x;
                        assert(list[m] == x);
                    }
                } else {
                    assert(list[list.len() - 1] == x);
                }
            }
            if list.contains(x) || x == path {
                if x == path || head.contains(x) {
                    assert(inner.contains(x));
                    let m = choose|m: int| 0 <= m < inner.len() && inner[m] == x;
                    assert(result[m] == x);
                } else {
                    let k = choose|k: int| 0 <= k < list.len() && list[k] == x;
                    if k < head.len() {
                        assert(head[k] == x);
                    }
                    assert(result[inner.len() as int] == last);
                }
            }
        }
    }
}

proof fn lemma_by_depth(paths: Seq<Seq<char>>)
    ensures
        depth_sorted(by_depth(paths)),
        forall|x: Seq<char>| #[trigger] by_depth(paths).contains(x) <==> paths.contains(x),
    decreases paths.len(),
{
    if paths.len() > 0 {
        let head = paths.drop_last();
        lemma_by_depth(head);
        lemma_with_depth(by_depth(head), paths.last());
        assert forall|x: Seq<char>| #[trigger] by_depth(paths).contains(x) <==> paths.contains(
            x,
        ) by {
            if paths.contains(x) {
                let k = choose|k: int| 0 <= k < paths.len() && paths[k] == x;
                if k < head.len() {
                    assert(head[k] == x);
                    assert(by_depth(head).contains(x));
                }
            }
            if head.contains(x) {
                let k = choose|k: int| 0 <= k < head.len() && head[k] == x;
                assert(paths[k] == x);
            }
            assert(paths[paths.len() - 1] == paths.last());
            if by_depth(head).contains(x) {
                assert(head.contains(x));
            }
        }
    }
}

proof fn lemma_outermost(paths: Seq<Seq<char>>, above: Seq<Seq<char>>)
    requires
        depth_sorted(paths),
    ensures
        separate(outermost(paths, above)),
        forall|i: int|
            0 <= i < outermost(paths, above).len() ==> paths.contains(
                #[trigger] outermost(paths, above)[i],
            ) && !covered(outermost(paths, above)[i], above),
        forall|i: int|
            0 <= i < paths.len() ==> covered(#[trigger] paths[i], outermost(paths, above))
                || covered(paths[i], above),
    decreases paths.len(),
{
    if paths.len() > 0 {
        let shorter = paths.drop_last();
        let last = paths.last();
        assert forall|i: int, j: int| 0 <= i < j < shorter.len() implies depth(
            #[trigger] shorter[i],
        ) <= depth(#[trigger] shorter[j]) by {
            assert(depth(paths[i]) <= depth(paths[j]));
        }
        lemma_outermost(shorter, above);
        let head = outermost(shorter, above);
        let kept = outermost(paths, above);
        assert forall|i: int| 0 <= i < kept.len() implies paths.contains(#[trigger] kept[i])
            && !covered(kept[i], above) by {
            if i < head.len() {
                assert(kept[i] == head[i]);
                assert(shorter.contains(head[i]));
                let k = choose|k: int| 0 <= k < shorter.len() && shorter[k] == head[i];
                assert(paths[k] == kept[i]);
            } else {
                assert(paths[paths.len() - 1] == kept[i]);
            }
        }
        assert forall|i: int, j: int|
            0 <= i < kept.len() && 0 <= j < kept.len() && i != j implies !lies_in(
            #[trigger] kept[i],
            #[trigger] kept[j],
        ) by {
            if i < head.len() && j < head.len() {
                assert(!lies_in(head[i], head[j]));
            } else if i < head.len() {
                assert(shorter.contains(head[i]));
                let k = choose|k: int| 0 <= k < shorter.len() && shorter[k] == head[i];
                assert(depth(paths[k]) <= depth(paths[paths.len() - 1]));
                if lies_in(kept[i], last) {
                    places_are_ordered(kept[i], last, kept[i]);
                    assert(same_place(kept[i], last));
                    places_are_ordered(last, last, last);
                    assert(lies_in(last, head[i]));
                    assert(covered(last, head));
                }
            } else {
                if lies_in(last, head[j]) {
                    assert(covered(last, head));
                }
            }
        }
        assert forall|i: int| 0 <= i < paths.len() implies covered(#[trigger] paths[i], kept)
            || covered(paths[i], above) by {
            if i < shorter.len() {
                assert(paths[i] == shorter[i]);
                if covered(shorter[i], head) {
                    assert forall|k: int| 0 <= k < head.len() implies kept.contains(
                        #[trigger] head[k],
                    ) by {
                        assert(kept[k] == head[k]);
                    }
                    lemma_covered_more(shorter[i], head, kept);
                }
            } else if kept.len() > head.len() {
                assert(kept[head.len() as int] == last);
                lemma_covered_self(kept, head.len() as int);
            }
        }
    }
}

/// Normalising keeps no root that another one covers, invents no root, and
/// loses no place: every given root is still covered.
pub proof fn normalising_keeps_the_outermost_roots(
    writable: Seq<Seq<char>>,
    readable: Seq<Seq<char>>,
)
    ensures
        normalized(writable, readable) matches Ok(roots) ==> {
            &&& separate(roots.0)
            &&& separate(roots.1)
            &&& forall|i: int| 0 <= i < roots.0.len() ==> writable.contains(#[trigger] roots.0[i])
            &&& forall|i: int|
                0 <= i < roots.1.len() ==> readable.contains(#[trigger] roots.1[i]) && !covered(
                    roots.1[i],
                    roots.0,
                )
            &&& all_covered(writable, roots.0)
            &&& forall|i: int|
                0 <= i < readable.len() ==> covered(#[trigger] readable[i], roots.1) || covered(
                    readable[i],
                    roots.0,
                )
        },
{
    if let Ok(roots) = normalized(writable, readable) {
        lemma_by_depth(writable);
        lemma_by_depth(readable);
        lemma_outermost(by_depth(writable), Seq::empty());
        lemma_outermost(by_depth(readable), roots.0);
        assert forall|i: int| 0 <= i < roots.0.len() implies writable.contains(
            #[trigger] roots.0[i],
        ) by {
            assert(by_depth(writable).contains(roots.0[i]));
        }
        assert forall|i: int| 0 <= i < roots.1.len() implies readable.contains(
            #[trigger] roots.1[i],
        ) && !covered(roots.1[i], roots.0) by {
            assert(by_depth(readable).contains(roots.1[i]));
        }
        assert forall|i: int| 0 <= i < writable.len() implies covered(
            #[trigger] writable[i],
            roots.0,
        ) by {
            let sorted = by_depth(writable);
            assert(writable.contains(writable[i]));
            assert(sorted.contains(writable[i]));
            let k = choose|k: int| 0 <= k < sorted.len() && sorted[k] == writable[i];
            assert(covered(sorted[k], roots.0) || covered(sorted[k], Seq::empty()));
        }
        assert forall|i: int| 0 <= i < readable.len() implies covered(
            #[trigger] readable[i],
            roots.1,
        ) || covered(readable[i], roots.0) by {
            let sorted = by_depth(readable);
            assert(readable.contains(readable[i]));
            assert(sorted.contains(readable[i]));
            let k = choose|k: int| 0 <= k < sorted.len() && sorted[k] == readable[i];
            assert(covered(sorted[k], roots.1) || covered(sorted[k], roots.0));
        }
    }
}

proof fn lemma_first_outside(paths: Seq<Seq<char>>, roots: Seq<Seq<char>>)
    requires
        first_outside(paths, roots) is None,
    ensures
        all_covered(paths, roots),
    decreases paths.len(),
{
    if paths.len() > 0 {
        lemma_first_outside(paths.drop_first(), roots);
        assert forall|i: int| 0 <= i < paths.len() implies covered(#[trigger] paths[i], roots) by {
            if i > 0 {
                assert(paths.drop_first()[i - 1] == paths[i]);
            }
        }
    }
}

proof fn lemma_unnarrowed(global: Seq<Seq<char>>, local: Seq<Seq<char>>)
    ensures
        forall|i: int|
            0 <= i < unnarrowed(global, local).len() ==> global.contains(
                #[trigger] unnarrowed(global, local)[i],
            ) && !narrowed(unnarrowed(global, local)[i], local),
    decreases global.len(),
{
    if global.len() > 0 {
        let shorter = global.drop_last();
        lemma_unnarrowed(shorter, local);
        let head = unnarrowed(shorter, local);
        let kept = unnarrowed(global, local);
        assert forall|i: int| 0 <= i < kept.len() implies global.contains(#[trigger] kept[i])
            && !narrowed(kept[i], local) by {
            if i < head.len() {
                assert(kept[i] == head[i]);
                assert(shorter.contains(head[i]));
                let k = choose|k: int| 0 <= k < shorter.len() && shorter[k] == head[i];
                assert(global[k] == kept[i]);
            } else {
                assert(global[global.len() - 1] == kept[i]);
            }
        }
    }
}

proof fn lemma_merged_is_covered(
    global: Seq<Seq<char>>,
    local: Seq<Seq<char>>,
    roots: Seq<Seq<char>>,
)
    requires
        all_covered(global, roots),
        all_covered(local, roots),
    ensures
        all_covered(merged_roots(global, local), roots),
{
    lemma_unnarrowed(global, local);
    let merged = merged_roots(global, local);
    let kept = unnarrowed(global, local);
    assert forall|i: int| 0 <= i < merged.len() implies covered(#[trigger] merged[i], roots) by {
        if i < kept.len() {
            assert(merged[i] == kept[i]);
            assert(global.contains(kept[i]));
            let k = choose|k: int| 0 <= k < global.len() && global[k] == kept[i];
            assert(covered(global[k], roots));
        } else {
            assert(merged[i] == local[i - kept.len()]);
        }
    }
}

proof fn lemma_all_self(paths: Seq<Seq<char>>)
    ensures
        all_covered(paths, paths),
{
    assert forall|i: int| 0 <= i < paths.len() implies covered(#[trigger] paths[i], paths) by {
        lemma_covered_self(paths, i);
    }
}

proof fn lemma_all_more(
    paths: Seq<Seq<char>>,
    roots: Seq<Seq<char>>,
    before: Seq<Seq<char>>,
    after: Seq<Seq<char>>,
)
    requires
        all_covered(paths, roots),
    ensures
        all_covered(paths, before + roots + after),
{
    let more = before + roots + after;
    assert forall|i: int| 0 <= i < paths.len() implies covered(#[trigger] paths[i], more) by {
        assert forall|k: int| 0 <= k < roots.len() implies more.contains(#[trigger] roots[k]) by {
            assert(more[before.len() + k] == roots[k]);
        }
        lemma_covered_more(paths[i], roots, more);
    }
}

/// The global roots of a policy, as the file system resolves them.
pub open spec fn global_roots(base: SandboxView, sources: SourcesView) -> (
    Seq<Seq<char>>,
    Seq<Seq<char>>,
) {
    (
        match roots_of(
            base.writable_paths,
            sources.workspace,
            sources.home,
            sources.global_writable,
            true,
            base.writable_paths.len(),
        ) {
            Ok(roots) => canonical_of(roots),
            Err(_) => Seq::empty(),
        },
        match roots_of(
            base.readable_paths,
            sources.workspace,
            sources.home,
            sources.global_readable,
            true,
            base.readable_paths.len(),
        ) {
            Ok(roots) => canonical_of(roots),
            Err(_) => Seq::empty(),
        },
    )
}

proof fn lemma_selection_is_covered(
    sources: SourcesView,
    project: Option<ProjectSandboxView>,
    global_writable: Seq<PlaceView>,
    global_readable: Seq<PlaceView>,
)
    ensures
        selection(sources, project, global_writable, global_readable) matches Ok(chosen) ==> {
            &&& all_covered(chosen.writable, canonical_of(global_writable))
            &&& all_covered(
                chosen.readable,
                canonical_of(global_readable) + canonical_of(global_writable),
            )
        },
{
    let writable = canonical_of(global_writable);
    let readable = canonical_of(global_readable);
    lemma_all_self(writable);
    lemma_all_self(readable);
    lemma_all_more(readable, readable, Seq::empty(), writable);
    assert(Seq::<Seq<char>>::empty() + readable + writable =~= readable + writable);
    if let Ok(chosen) = selection(sources, project, global_writable, global_readable) {
        if project matches Some(project) && (project.writable_paths is Some
            || project.readable_paths is Some) {
            let settings = project->0;
            let writes = paths_or_none(settings.writable_paths);
            let reads = paths_or_none(settings.readable_paths);
            let local_writable = roots_of(
                writes,
                sources.workspace,
                sources.home,
                sources.local_writable,
                false,
                writes.len(),
            )->Ok_0;
            let local_readable = roots_of(
                reads,
                sources.workspace,
                sources.home,
                sources.local_readable,
                false,
                reads.len(),
            )->Ok_0;
            lemma_first_outside(canonical_of(local_writable), writable);
            lemma_first_outside(canonical_of(local_readable), readable + writable);
            lemma_merged_is_covered(writable, canonical_of(local_writable), writable);
            lemma_merged_is_covered(readable, canonical_of(local_readable), readable + writable);
        }
    }
}

/// No project widens the global policy: every writable root of a workspace lies
/// in a global writable root, and every readable root lies in a global root or
/// is the main repository of a linked worktree.
pub proof fn projects_never_widen_the_policy(base: SandboxView, sources: SourcesView)
    ensures
        policy(base, sources) matches Ok(result) ==> {
            let (writable, readable) = global_roots(base, sources);
            &&& all_covered(result.writable_paths, writable)
            &&& forall|i: int|
                0 <= i < result.readable_paths.len() ==> covered(
                    #[trigger] result.readable_paths[i],
                    readable + writable,
                ) || sources.main_repo == Ok::<Option<Seq<char>>, Seq<char>>(
                    Some(result.readable_paths[i]),
                )
        },
{
    if let Ok(result) = policy(base, sources) {
        let global_writable = roots_of(
            base.writable_paths,
            sources.workspace,
            sources.home,
            sources.global_writable,
            true,
            base.writable_paths.len(),
        )->Ok_0;
        let global_readable = roots_of(
            base.readable_paths,
            sources.workspace,
            sources.home,
            sources.global_readable,
            true,
            base.readable_paths.len(),
        )->Ok_0;
        let project = sources.project->Ok_0;
        lemma_selection_is_covered(sources, project, global_writable, global_readable);
        let chosen = selection(sources, project, global_writable, global_readable)->Ok_0;
        let roots = normalized(chosen.writable, chosen.readable)->Ok_0;
        normalising_keeps_the_outermost_roots(chosen.writable, chosen.readable);
        let (writable, readable) = global_roots(base, sources);
        assert forall|i: int| 0 <= i < result.writable_paths.len() implies covered(
            #[trigger] result.writable_paths[i],
            writable,
        ) by {
            assert(chosen.writable.contains(roots.0[i]));
            let k = choose|k: int|
                0 <= k < chosen.writable.len() && chosen.writable[k] == roots.0[i];
            assert(covered(chosen.writable[k], writable));
        }
        assert forall|i: int| 0 <= i < result.readable_paths.len() implies covered(
            #[trigger] result.readable_paths[i],
            readable + writable,
        ) || sources.main_repo == Ok::<Option<Seq<char>>, Seq<char>>(
            Some(result.readable_paths[i]),
        ) by {
            if i < roots.1.len() {
                assert(result.readable_paths[i] == roots.1[i]);
                assert(chosen.readable.contains(roots.1[i]));
                let k = choose|k: int|
                    0 <= k < chosen.readable.len() && chosen.readable[k] == roots.1[i];
                assert(covered(chosen.readable[k], readable + writable));
            }
        }
    }
}

proof fn lemma_mounted(mounts: Seq<PlaceView>, roots: Seq<Seq<char>>)
    ensures
        forall|x: PlaceView| #[trigger]
            mounted(mounts, roots).contains(x) ==> mounts.contains(x) && covered(x.0, roots),
    decreases mounts.len(),
{
    if mounts.len() > 0 {
        let shorter = mounts.drop_last();
        lemma_mounted(shorter, roots);
        let head = mounted(shorter, roots);
        let kept = mounted(mounts, roots);
        assert forall|x: PlaceView| #[trigger] kept.contains(x) implies mounts.contains(x)
            && covered(x.0, roots) by {
            let k = choose|k: int| 0 <= k < kept.len() && kept[k] == x;
            if k < head.len() {
                assert(head[k] == x);
                assert(head.contains(x));
                assert(shorter.contains(x));
                let m = choose|m: int| 0 <= m < shorter.len() && shorter[m] == x;
                assert(mounts[m] == x);
            } else {
                assert(mounts[mounts.len() - 1] == x);
            }
        }
    }
}

proof fn lemma_unshadowed(mounts: Seq<PlaceView>, others: Seq<PlaceView>)
    ensures
        forall|i: int|
            0 <= i < unshadowed(mounts, others).len() ==> mounts.contains(
                #[trigger] unshadowed(mounts, others)[i],
            ) && !mounted_at(others, unshadowed(mounts, others)[i].1),
    decreases mounts.len(),
{
    if mounts.len() > 0 {
        let shorter = mounts.drop_last();
        lemma_unshadowed(shorter, others);
        let head = unshadowed(shorter, others);
        let kept = unshadowed(mounts, others);
        assert forall|i: int| 0 <= i < kept.len() implies mounts.contains(#[trigger] kept[i])
            && !mounted_at(others, kept[i].1) by {
            if i < head.len() {
                assert(kept[i] == head[i]);
                assert(shorter.contains(head[i]));
                let k = choose|k: int| 0 <= k < shorter.len() && shorter[k] == head[i];
                assert(mounts[k] == kept[i]);
            } else {
                assert(mounts[mounts.len() - 1] == kept[i]);
            }
        }
    }
}

/// Mounts never give back what narrowing took: the source of every writable
/// mount lies in a final writable root, that of every readable mount in a final
/// root, and no readable mount stands where a writable one does.
pub proof fn mounts_stay_within_the_final_roots(base: SandboxView, sources: SourcesView)
    ensures
        policy(base, sources) matches Ok(result) ==> {
            &&& forall|i: int|
                0 <= i < result.writable_mounts.len() ==> covered(
                    (#[trigger] result.writable_mounts[i]).0,
                    result.writable_paths,
                )
            &&& forall|i: int|
                0 <= i < result.readable_mounts.len() ==> covered(
                    (#[trigger] result.readable_mounts[i]).0,
                    result.readable_paths + result.writable_paths,
                ) && !mounted_at(result.writable_mounts, result.readable_mounts[i].1)
        },
{
    if let Ok(result) = policy(base, sources) {
        let global_writable = roots_of(
            base.writable_paths,
            sources.workspace,
            sources.home,
            sources.global_writable,
            true,
            base.writable_paths.len(),
        )->Ok_0;
        let global_readable = roots_of(
            base.readable_paths,
            sources.workspace,
            sources.home,
            sources.global_readable,
            true,
            base.readable_paths.len(),
        )->Ok_0;
        let project = sources.project->Ok_0;
        let chosen = selection(sources, project, global_writable, global_readable)->Ok_0;
        let roots = normalized(chosen.writable, chosen.readable)->Ok_0;
        let repo = sources.main_repo->Ok_0;
        let linked = repo matches Some(path) && !listed(path, roots.0) && !listed(path, roots.1);
        let reads = if linked {
            chosen.readable_mounts.push((repo->0, repo->0))
        } else {
            chosen.readable_mounts
        };
        let both = result.readable_paths + result.writable_paths;
        let kept = mounted(chosen.writable_mounts, result.writable_paths);
        let all = mounted(reads, both);
        lemma_mounted(chosen.writable_mounts, result.writable_paths);
        lemma_mounted(reads, both);
        crate::order::sorted_set_holds_the_items::<(String, String)>(kept);
        crate::order::sorted_set_holds_the_items::<(String, String)>(all);
        lemma_unshadowed(sorted_set::<(String, String)>(all), result.writable_mounts);
        assert forall|i: int| 0 <= i < result.writable_mounts.len() implies covered(
            (#[trigger] result.writable_mounts[i]).0,
            result.writable_paths,
        ) by {
            let mount = result.writable_mounts[i];
            assert(sorted_set::<(String, String)>(kept).contains(mount));
            assert(kept.contains(mount));
        }
        assert forall|i: int| 0 <= i < result.readable_mounts.len() implies covered(
            (#[trigger] result.readable_mounts[i]).0,
            both,
        ) && !mounted_at(result.writable_mounts, result.readable_mounts[i].1) by {
            let mount = result.readable_mounts[i];
            assert(sorted_set::<(String, String)>(all).contains(mount));
            assert(all.contains(mount));
        }
    }
}

proof fn lemma_roots_are_text(roots: Seq<Seq<char>>)
    requires
        roots_error(roots) is None,
    ensures
        forall|i: int| 0 <= i < roots.len() ==> all_text(#[trigger] roots[i]),
    decreases roots.len(),
{
    if roots.len() > 0 {
        let rest = roots.drop_first();
        lemma_roots_are_text(rest);
        assert forall|i: int| 0 <= i < roots.len() implies all_text(#[trigger] roots[i]) by {
            if i > 0 {
                assert(rest[i - 1] == roots[i]);
            }
        }
    }
}

proof fn lemma_mounts_are_text(mounts: Seq<PlaceView>)
    requires
        mounts_error(mounts) is None,
    ensures
        forall|i: int|
            0 <= i < mounts.len() ==> all_text((#[trigger] mounts[i]).0) && all_text(mounts[i].1),
    decreases mounts.len(),
{
    if mounts.len() > 0 {
        let rest = mounts.drop_first();
        lemma_mounts_are_text(rest);
        assert forall|i: int| 0 <= i < mounts.len() implies all_text((#[trigger] mounts[i]).0)
            && all_text(mounts[i].1) by {
            if i > 0 {
                assert(rest[i - 1] == mounts[i]);
            }
        }
    }
}

/// Every path of a complete policy is text: its roots, and the sources and
/// places of its mounts.
pub proof fn policies_are_text(base: SandboxView, sources: SourcesView)
    ensures
        policy(base, sources) matches Ok(result) ==> {
            &&& forall|i: int|
                0 <= i < result.writable_paths.len() ==> all_text(
                    #[trigger] result.writable_paths[i],
                )
            &&& forall|i: int|
                0 <= i < result.readable_paths.len() ==> all_text(
                    #[trigger] result.readable_paths[i],
                )
            &&& forall|i: int|
                0 <= i < result.writable_mounts.len() ==> all_text(
                    (#[trigger] result.writable_mounts[i]).0,
                ) && all_text(result.writable_mounts[i].1)
            &&& forall|i: int|
                0 <= i < result.readable_mounts.len() ==> all_text(
                    (#[trigger] result.readable_mounts[i]).0,
                ) && all_text(result.readable_mounts[i].1)
        },
{
    if let Ok(result) = policy(base, sources) {
        let global_writable = roots_of(
            base.writable_paths,
            sources.workspace,
            sources.home,
            sources.global_writable,
            true,
            base.writable_paths.len(),
        )->Ok_0;
        let global_readable = roots_of(
            base.readable_paths,
            sources.workspace,
            sources.home,
            sources.global_readable,
            true,
            base.readable_paths.len(),
        )->Ok_0;
        let project = sources.project->Ok_0;
        let chosen = selection(sources, project, global_writable, global_readable)->Ok_0;
        let roots = normalized(chosen.writable, chosen.readable)->Ok_0;
        let repo = sources.main_repo->Ok_0;
        let linked = repo matches Some(path) && !listed(path, roots.0) && !listed(path, roots.1);
        let reads = if linked {
            chosen.readable_mounts.push((repo->0, repo->0))
        } else {
            chosen.readable_mounts
        };
        let kept = mounted(chosen.writable_mounts, result.writable_paths);
        let all = mounted(reads, result.readable_paths + result.writable_paths);
        lemma_roots_are_text(result.writable_paths);
        lemma_roots_are_text(result.readable_paths);
        lemma_mounts_are_text(kept);
        lemma_mounts_are_text(all);
        crate::order::sorted_set_holds_the_items::<(String, String)>(kept);
        crate::order::sorted_set_holds_the_items::<(String, String)>(all);
        lemma_unshadowed(sorted_set::<(String, String)>(all), result.writable_mounts);
        assert forall|i: int| 0 <= i < result.writable_mounts.len() implies all_text(
            (#[trigger] result.writable_mounts[i]).0,
        ) && all_text(result.writable_mounts[i].1) by {
            let mount = result.writable_mounts[i];
            assert(sorted_set::<(String, String)>(kept).contains(mount));
            assert(kept.contains(mount));
        }
        assert forall|i: int| 0 <= i < result.readable_mounts.len() implies all_text(
            (#[trigger] result.readable_mounts[i]).0,
        ) && all_text(result.readable_mounts[i].1) by {
            let mount = result.readable_mounts[i];
            assert(sorted_set::<(String, String)>(all).contains(mount));
            assert(all.contains(mount));
        }
    }
}

/// Narrowing holds: a merged root that lies above a project root is itself a
/// project root, so that no global ancestor survives beside its narrowing.
pub proof fn narrowed_roots_are_gone(global: Seq<Seq<char>>, local: Seq<Seq<char>>, i: int)
    requires
        0 <= i < merged_roots(global, local).len(),
        narrowed(merged_roots(global, local)[i], local),
    ensures
        local.contains(merged_roots(global, local)[i]),
{
    lemma_unnarrowed(global, local);
    let kept = unnarrowed(global, local);
    if i < kept.len() {
        assert(merged_roots(global, local)[i] == kept[i]);
    } else {
        assert(local[i - kept.len()] == merged_roots(global, local)[i]);
    }
}

/// Without project roots the policy is the global one: every global root is
/// still covered, and nothing else is.
pub proof fn without_a_project_the_policy_is_global(base: SandboxView, sources: SourcesView)
    requires
        sources.project matches Ok(project) && (project matches Some(project)
            ==> project.writable_paths is None && project.readable_paths is None),
    ensures
        policy(base, sources) matches Ok(result) ==> {
            let (writable, readable) = global_roots(base, sources);
            &&& all_covered(writable, result.writable_paths)
            &&& all_covered(result.writable_paths, writable)
            &&& all_covered(readable, result.readable_paths + result.writable_paths)
        },
{
    projects_never_widen_the_policy(base, sources);
    if let Ok(result) = policy(base, sources) {
        let (writable, readable) = global_roots(base, sources);
        let roots = normalized(writable, readable)->Ok_0;
        normalising_keeps_the_outermost_roots(writable, readable);
        let both = result.readable_paths + result.writable_paths;
        assert forall|i: int| 0 <= i < readable.len() implies covered(#[trigger] readable[i], both) by {
            if covered(readable[i], roots.1) {
                assert forall|k: int| 0 <= k < roots.1.len() implies both.contains(
                    #[trigger] roots.1[k],
                ) by {
                    assert(both[k] == roots.1[k]);
                }
                lemma_covered_more(readable[i], roots.1, both);
            } else {
                assert forall|k: int| 0 <= k < roots.0.len() implies both.contains(
                    #[trigger] roots.0[k],
                ) by {
                    assert(both[result.readable_paths.len() + k] == roots.0[k]);
                }
                lemma_covered_more(readable[i], roots.0, both);
            }
        }
    }
}

/// A switch that a project sets is the switch of the policy, and one that it
/// leaves out, or that no project is there to set, is the global one.
pub proof fn project_switches_win(base: SandboxView, sources: SourcesView)
    ensures
        policy(base, sources) matches Ok(result) ==> match sources.project->Ok_0 {
            Some(project) => {
                &&& project.enabled matches Some(value) ==> result.enabled == value
                &&& project.enabled is None ==> result.enabled == base.enabled
                &&& project.network matches Some(value) ==> result.network == value
                &&& project.network is None ==> result.network == base.network
                &&& project.workspace_writable matches Some(value) ==> result.workspace_writable
                    == value
                &&& project.workspace_writable is None ==> result.workspace_writable
                    == base.workspace_writable
            },
            None => result.enabled == base.enabled && result.network == base.network
                && result.workspace_writable == base.workspace_writable,
        },
        sources.project matches Err(error) ==> policy(base, sources) is Err,
{
}

proof fn lemma_mounted_holds(mounts: Seq<PlaceView>, roots: Seq<Seq<char>>, mount: PlaceView)
    requires
        mounts.contains(mount),
        covered(mount.0, roots),
    ensures
        mounted(mounts, roots).contains(mount),
    decreases mounts.len(),
{
    let k = choose|k: int| 0 <= k < mounts.len() && mounts[k] == mount;
    let shorter = mounts.drop_last();
    let head = mounted(shorter, roots);
    let kept = mounted(mounts, roots);
    if k < shorter.len() {
        assert(shorter[k] == mount);
        lemma_mounted_holds(shorter, roots, mount);
        let m = choose|m: int| 0 <= m < head.len() && head[m] == mount;
        assert(kept[m] == mount);
    } else {
        assert(kept[kept.len() - 1] == mount);
    }
}

proof fn lemma_unshadowed_holds(mounts: Seq<PlaceView>, others: Seq<PlaceView>, mount: PlaceView)
    requires
        mounts.contains(mount),
        !mounted_at(others, mount.1),
    ensures
        unshadowed(mounts, others).contains(mount),
    decreases mounts.len(),
{
    let k = choose|k: int| 0 <= k < mounts.len() && mounts[k] == mount;
    let shorter = mounts.drop_last();
    let head = unshadowed(shorter, others);
    let kept = unshadowed(mounts, others);
    if k < shorter.len() {
        assert(shorter[k] == mount);
        lemma_unshadowed_holds(shorter, others, mount);
        let m = choose|m: int| 0 <= m < head.len() && head[m] == mount;
        assert(kept[m] == mount);
    } else {
        assert(kept[kept.len() - 1] == mount);
    }
}

/// The policy opens a place for writing, and mounts it where it was configured.
pub open spec fn grants_writing(result: SandboxView, source: Seq<char>, place: Seq<char>) -> bool {
    covered(source, result.writable_paths) && exists|i: int|
        0 <= i < result.writable_mounts.len() && same_place(
            (#[trigger] result.writable_mounts[i]).0,
            source,
        ) && same_place(result.writable_mounts[i].1, place)
}

/// The policy opens a place for reading, and mounts it where it was configured,
/// unless something stands there for writing.
pub open spec fn grants_reading(result: SandboxView, source: Seq<char>, place: Seq<char>) -> bool {
    covered(source, result.readable_paths + result.writable_paths) && ((exists|i: int|
        0 <= i < result.readable_mounts.len() && same_place(
            (#[trigger] result.readable_mounts[i]).0,
            source,
        ) && same_place(result.readable_mounts[i].1, place)) || exists|i: int|
        0 <= i < result.writable_mounts.len() && same_place(
            (#[trigger] result.writable_mounts[i]).1,
            place,
        ))
}

proof fn lemma_completed_grants(
    base: SandboxView,
    chosen: SelectionView,
    main_repo: Result<Option<Seq<char>>, Seq<char>>,
    pair: PlaceView,
    source: Seq<char>,
    place: Seq<char>,
)
    requires
        same_place(pair.0, source),
        same_place(pair.1, place),
    ensures
        completed(base, chosen, main_repo) matches Ok(result) ==> {
            &&& chosen.writable_mounts.contains(pair) && chosen.writable.contains(pair.0)
                ==> grants_writing(result, source, place)
            &&& chosen.readable_mounts.contains(pair) && chosen.readable.contains(pair.0)
                ==> grants_reading(result, source, place)
            &&& main_repo matches Ok(Some(repo)) ==> covered(
                repo,
                result.readable_paths + result.writable_paths,
            ) && (listed(repo, result.writable_paths) || exists|i: int|
                0 <= i < result.readable_paths.len() && same_place(
                    #[trigger] result.readable_paths[i],
                    repo,
                ))
        },
{
    if let Ok(result) = completed(base, chosen, main_repo) {
        let roots = normalized(chosen.writable, chosen.readable)->Ok_0;
        normalising_keeps_the_outermost_roots(chosen.writable, chosen.readable);
        let repo = main_repo->Ok_0;
        let linked = repo matches Some(path) && !listed(path, roots.0) && !listed(path, roots.1);
        let reads = if linked {
            chosen.readable_mounts.push((repo->0, repo->0))
        } else {
            chosen.readable_mounts
        };
        let both = result.readable_paths + result.writable_paths;
        let kept = mounted(chosen.writable_mounts, result.writable_paths);
        let all = mounted(reads, both);
        crate::order::sorted_set_holds_the_items::<(String, String)>(kept);
        crate::order::sorted_set_holds_the_items::<(String, String)>(all);
        assert forall|k: int| 0 <= k < roots.0.len() implies both.contains(#[trigger] roots.0[k]) by {
            assert(both[result.readable_paths.len() + k] == roots.0[k]);
        }
        assert forall|k: int| 0 <= k < roots.1.len() implies both.contains(#[trigger] roots.1[k]) by {
            assert(both[k] == roots.1[k]);
        }
        if chosen.writable_mounts.contains(pair) && chosen.writable.contains(pair.0) {
            let k = choose|k: int|
                0 <= k < chosen.writable.len() && chosen.writable[k] == pair.0;
            assert(covered(chosen.writable[k], roots.0));
            let r = choose|r: int| 0 <= r < roots.0.len() && lies_in(pair.0, #[trigger] roots.0[r]);
            assert(lies_in(source, result.writable_paths[r]));
            lemma_mounted_holds(chosen.writable_mounts, result.writable_paths, pair);
            assert(result.writable_mounts.contains(pair));
            let m = choose|m: int|
                0 <= m < result.writable_mounts.len() && result.writable_mounts[m] == pair;
            assert(same_place(result.writable_mounts[m].0, source));
        }
        if chosen.readable_mounts.contains(pair) && chosen.readable.contains(pair.0) {
            let k = choose|k: int|
                0 <= k < chosen.readable.len() && chosen.readable[k] == pair.0;
            assert(covered(chosen.readable[k], roots.1) || covered(chosen.readable[k], roots.0));
            if covered(pair.0, roots.1) {
                lemma_covered_more(pair.0, roots.1, both);
            } else {
                lemma_covered_more(pair.0, roots.0, both);
            }
            let r = choose|r: int| 0 <= r < both.len() && lies_in(pair.0, #[trigger] both[r]);
            assert(lies_in(source, both[r]));
            let q = choose|q: int|
                0 <= q < chosen.readable_mounts.len() && chosen.readable_mounts[q] == pair;
            assert(reads[q] == pair);
            lemma_mounted_holds(reads, both, pair);
            let sorted = sorted_set::<(String, String)>(all);
            assert(sorted.contains(pair));
            if mounted_at(result.writable_mounts, pair.1) {
                let m = choose|m: int|
                    0 <= m < result.writable_mounts.len() && (
                    #[trigger] result.writable_mounts[m]).1 == pair.1;
                assert(same_place(result.writable_mounts[m].1, place));
            } else {
                lemma_unshadowed_holds(sorted, result.writable_mounts, pair);
                let m = choose|m: int|
                    0 <= m < result.readable_mounts.len() && result.readable_mounts[m] == pair;
                assert(same_place(result.readable_mounts[m].0, source));
            }
        }
        if let Some(path) = repo {
            if linked {
                let last = result.readable_paths.len() - 1;
                assert(result.readable_paths[last] == path);
                assert(both[last] == path);
                lemma_covered_self(both, last);
            } else if listed(path, roots.0) {
                let k = choose|k: int|
                    0 <= k < roots.0.len() && same_place(#[trigger] roots.0[k], path);
                assert(both[result.readable_paths.len() + k] == roots.0[k]);
                lemma_covered_self(both, result.readable_paths.len() + k);
                assert(lies_in(path, both[result.readable_paths.len() + k])) by {
                    places_are_ordered(roots.0[k], roots.0[k], roots.0[k]);
                }
            } else {
                let k = choose|k: int|
                    0 <= k < roots.1.len() && same_place(#[trigger] roots.1[k], path);
                assert(both[k] == roots.1[k]);
                assert(lies_in(path, both[k])) by {
                    places_are_ordered(roots.1[k], roots.1[k], roots.1[k]);
                }
                assert(same_place(result.readable_paths[k], path));
            }
        }
    }
}

proof fn lemma_roots_hold(
    paths: Seq<Seq<char>>,
    workspace: Seq<char>,
    home: Option<Seq<char>>,
    lookups: Seq<LookupView>,
    skip_missing: bool,
    n: nat,
    at: int,
) -> (k: int)
    requires
        0 <= at < n <= paths.len(),
        roots_of(paths, workspace, home, lookups, skip_missing, n) is Ok,
        lookups[at] is Found,
        expanded(paths[at], workspace, home) is Ok,
    ensures
        ({
            let roots = roots_of(paths, workspace, home, lookups, skip_missing, n)->Ok_0;
            &&& 0 <= k < roots.len()
            &&& same_place(roots[k].0, lookups[at]->Found_canonical)
            &&& same_place(roots[k].1, expanded(paths[at], workspace, home)->Ok_0)
        }),
    decreases n,
{
    let before = roots_of(paths, workspace, home, lookups, skip_missing, (n - 1) as nat)->Ok_0;
    let roots = roots_of(paths, workspace, home, lookups, skip_missing, n)->Ok_0;
    if at < n - 1 {
        let k = lemma_roots_hold(
            paths,
            workspace,
            home,
            lookups,
            skip_missing,
            (n - 1) as nat,
            at,
        );
        assert(roots[k] == before[k]);
        k
    } else {
        let root = (
            lookups[at]->Found_canonical,
            expanded(paths[at], workspace, home)->Ok_0,
        );
        if exists|i: int|
            0 <= i < before.len() && same_place((#[trigger] before[i]).0, root.0) && same_place(
                before[i].1,
                root.1,
            ) {
            choose|i: int|
                0 <= i < before.len() && same_place((#[trigger] before[i]).0, root.0)
                    && same_place(before[i].1, root.1)
        } else {
            assert(roots[before.len() as int] == root);
            before.len() as int
        }
    }
}

/// Whether the project selects paths of its own.
pub open spec fn selects_paths(sources: SourcesView) -> bool {
    sources.project matches Ok(Some(project)) && (project.writable_paths is Some
        || project.readable_paths is Some)
}

/// What the user configures is granted: where no project selects paths of its own,
/// every global path that exists is open, for writing or for reading as it is
/// configured, and mounted at the place that the user wrote.
pub proof fn global_paths_are_granted(base: SandboxView, sources: SourcesView, at: int)
    requires
        !selects_paths(sources),
    ensures
        policy(base, sources) matches Ok(result) ==> {
            &&& 0 <= at < base.writable_paths.len() ==> (
            sources.global_writable[at] matches LookupView::Found { canonical } ==> (expanded(
                base.writable_paths[at],
                sources.workspace,
                sources.home,
            ) matches Ok(place) && grants_writing(result, canonical, place)))
            &&& 0 <= at < base.readable_paths.len() ==> (
            sources.global_readable[at] matches LookupView::Found { canonical } ==> (expanded(
                base.readable_paths[at],
                sources.workspace,
                sources.home,
            ) matches Ok(place) && grants_reading(result, canonical, place)))
        },
{
    if let Ok(result) = policy(base, sources) {
        let writes = roots_of(
            base.writable_paths,
            sources.workspace,
            sources.home,
            sources.global_writable,
            true,
            base.writable_paths.len(),
        )->Ok_0;
        let reads = roots_of(
            base.readable_paths,
            sources.workspace,
            sources.home,
            sources.global_readable,
            true,
            base.readable_paths.len(),
        )->Ok_0;
        let project = sources.project->Ok_0;
        let chosen = selection(sources, project, writes, reads)->Ok_0;
        if 0 <= at < base.writable_paths.len() && sources.global_writable[at] is Found {
            lemma_roots_expand(
                base.writable_paths,
                sources.workspace,
                sources.home,
                sources.global_writable,
                true,
                base.writable_paths.len(),
                at,
            );
            let k = lemma_roots_hold(
                base.writable_paths,
                sources.workspace,
                sources.home,
                sources.global_writable,
                true,
                base.writable_paths.len(),
                at,
            );
            assert(chosen.writable[k] == writes[k].0);
            assert(chosen.writable_mounts[k] == writes[k]);
            lemma_completed_grants(
                switched(base, project),
                chosen,
                sources.main_repo,
                writes[k],
                sources.global_writable[at]->Found_canonical,
                expanded(base.writable_paths[at], sources.workspace, sources.home)->Ok_0,
            );
        }
        if 0 <= at < base.readable_paths.len() && sources.global_readable[at] is Found {
            lemma_roots_expand(
                base.readable_paths,
                sources.workspace,
                sources.home,
                sources.global_readable,
                true,
                base.readable_paths.len(),
                at,
            );
            let k = lemma_roots_hold(
                base.readable_paths,
                sources.workspace,
                sources.home,
                sources.global_readable,
                true,
                base.readable_paths.len(),
                at,
            );
            assert(chosen.readable[k] == reads[k].0);
            assert(chosen.readable_mounts[k] == reads[k]);
            lemma_completed_grants(
                switched(base, project),
                chosen,
                sources.main_repo,
                reads[k],
                sources.global_readable[at]->Found_canonical,
                expanded(base.readable_paths[at], sources.workspace, sources.home)->Ok_0,
            );
        }
    }
}

proof fn lemma_roots_expand(
    paths: Seq<Seq<char>>,
    workspace: Seq<char>,
    home: Option<Seq<char>>,
    lookups: Seq<LookupView>,
    skip_missing: bool,
    n: nat,
    at: int,
)
    requires
        0 <= at < n <= paths.len(),
        roots_of(paths, workspace, home, lookups, skip_missing, n) is Ok,
    ensures
        expanded(paths[at], workspace, home) is Ok,
        lookups[at] is Found || (skip_missing && lookups[at] is Missing),
    decreases n,
{
    if at < n - 1 {
        lemma_roots_expand(paths, workspace, home, lookups, skip_missing, (n - 1) as nat, at);
    }
}

/// What a project selects is granted, once the policy is there at all: every path
/// of its own exists, is open as it asks, and is mounted at the place it wrote.
pub proof fn project_paths_are_granted(
    base: SandboxView,
    sources: SourcesView,
    project: ProjectSandboxView,
    at: int,
)
    requires
        sources.project == Ok::<Option<ProjectSandboxView>, Seq<char>>(Some(project)),
    ensures
        policy(base, sources) matches Ok(result) ==> {
            &&& project.writable_paths matches Some(paths) ==> 0 <= at < paths.len() ==> (
            sources.local_writable[at] matches LookupView::Found { canonical } && expanded(
                paths[at],
                sources.workspace,
                sources.home,
            ) matches Ok(place) && grants_writing(result, canonical, place))
            &&& project.readable_paths matches Some(paths) ==> 0 <= at < paths.len() ==> (
            sources.local_readable[at] matches LookupView::Found { canonical } && expanded(
                paths[at],
                sources.workspace,
                sources.home,
            ) matches Ok(place) && grants_reading(result, canonical, place))
        },
{
    if policy(base, sources) is Ok && selects_paths(sources) {
        let writes = roots_of(
            base.writable_paths,
            sources.workspace,
            sources.home,
            sources.global_writable,
            true,
            base.writable_paths.len(),
        )->Ok_0;
        let reads = roots_of(
            base.readable_paths,
            sources.workspace,
            sources.home,
            sources.global_readable,
            true,
            base.readable_paths.len(),
        )->Ok_0;
        let chosen = selection(sources, Some(project), writes, reads)->Ok_0;
        let own_writes = paths_or_none(project.writable_paths);
        let own_reads = paths_or_none(project.readable_paths);
        let local_writes = roots_of(
            own_writes,
            sources.workspace,
            sources.home,
            sources.local_writable,
            false,
            own_writes.len(),
        )->Ok_0;
        let local_reads = roots_of(
            own_reads,
            sources.workspace,
            sources.home,
            sources.local_readable,
            false,
            own_reads.len(),
        )->Ok_0;
        if 0 <= at < own_writes.len() {
            lemma_roots_expand(
                own_writes,
                sources.workspace,
                sources.home,
                sources.local_writable,
                false,
                own_writes.len(),
                at,
            );
            let k = lemma_roots_hold(
                own_writes,
                sources.workspace,
                sources.home,
                sources.local_writable,
                false,
                own_writes.len(),
                at,
            );
            let kept = unnarrowed(canonical_of(writes), canonical_of(local_writes));
            assert(chosen.writable[kept.len() + k] == local_writes[k].0);
            assert(chosen.writable_mounts[writes.len() + k] == local_writes[k]);
            lemma_completed_grants(
                switched(base, Some(project)),
                chosen,
                sources.main_repo,
                local_writes[k],
                sources.local_writable[at]->Found_canonical,
                expanded(own_writes[at], sources.workspace, sources.home)->Ok_0,
            );
        }
        if 0 <= at < own_reads.len() {
            lemma_roots_expand(
                own_reads,
                sources.workspace,
                sources.home,
                sources.local_readable,
                false,
                own_reads.len(),
                at,
            );
            let k = lemma_roots_hold(
                own_reads,
                sources.workspace,
                sources.home,
                sources.local_readable,
                false,
                own_reads.len(),
                at,
            );
            let kept = unnarrowed(canonical_of(reads), canonical_of(local_reads));
            assert(chosen.readable[kept.len() + k] == local_reads[k].0);
            assert(chosen.readable_mounts[reads.len() + k] == local_reads[k]);
            lemma_completed_grants(
                switched(base, Some(project)),
                chosen,
                sources.main_repo,
                local_reads[k],
                sources.local_readable[at]->Found_canonical,
                expanded(own_reads[at], sources.workspace, sources.home)->Ok_0,
            );
        }
    }
}

/// A linked worktree can read the repository that it belongs to.
pub proof fn main_repositories_can_be_read(base: SandboxView, sources: SourcesView)
    ensures
        policy(base, sources) matches Ok(result) ==> (sources.main_repo matches Ok(Some(repo))
            ==> covered(repo, result.readable_paths + result.writable_paths)),
        sources.main_repo is Err ==> policy(base, sources) is Err,
{
    if policy(base, sources) is Ok {
        let writes = roots_of(
            base.writable_paths,
            sources.workspace,
            sources.home,
            sources.global_writable,
            true,
            base.writable_paths.len(),
        )->Ok_0;
        let reads = roots_of(
            base.readable_paths,
            sources.workspace,
            sources.home,
            sources.global_readable,
            true,
            base.readable_paths.len(),
        )->Ok_0;
        let project = sources.project->Ok_0;
        let chosen = selection(sources, project, writes, reads)->Ok_0;
        let nowhere: PlaceView = (Seq::empty(), Seq::empty());
        lemma_completed_grants(
            switched(base, project),
            chosen,
            sources.main_repo,
            nowhere,
            nowhere.0,
            nowhere.1,
        );
    }
}

proof fn lemma_first_above_is_first(path: Seq<char>, roots: Seq<Seq<char>>)
    ensures
        first_above(path, roots) <= roots.len(),
        first_above(path, roots) < roots.len() <==> exists|j: int|
            0 <= j < roots.len() && lies_below(path, #[trigger] roots[j]),
        first_above(path, roots) < roots.len() ==> lies_below(
            path,
            roots[first_above(path, roots) as int],
        ),
    decreases roots.len(),
{
    if roots.len() > 0 {
        let rest = roots.drop_first();
        lemma_first_above_is_first(path, rest);
        if exists|j: int| 0 <= j < roots.len() && lies_below(path, #[trigger] roots[j]) {
            let j = choose|j: int| 0 <= j < roots.len() && lies_below(path, #[trigger] roots[j]);
            if j > 0 {
                assert(rest[j - 1] == roots[j]);
            }
        }
        if first_above(path, rest) < rest.len() {
            let k = first_above(path, rest) as int;
            assert(rest[k] == roots[k + 1]);
        }
    }
}

/// A place for reading strictly below one for writing is refused, and nothing
/// else is: otherwise the roots can be normalised.
pub proof fn read_only_children_are_refused(writable: Seq<Seq<char>>, readable: Seq<Seq<char>>)
    ensures
        normalized(writable, readable) is Err <==> exists|i: int, j: int|
            0 <= i < readable.len() && 0 <= j < writable.len() && lies_below(
                #[trigger] readable[i],
                #[trigger] writable[j],
            ),
    decreases readable.len(),
{
    if readable.len() > 0 {
        let rest = readable.drop_first();
        read_only_children_are_refused(writable, rest);
        lemma_first_above_is_first(readable[0], writable);
        if exists|i: int, j: int|
            0 <= i < readable.len() && 0 <= j < writable.len() && lies_below(
                #[trigger] readable[i],
                #[trigger] writable[j],
            ) {
            let (i, j) = choose|i: int, j: int|
                0 <= i < readable.len() && 0 <= j < writable.len() && lies_below(
                    #[trigger] readable[i],
                    #[trigger] writable[j],
                );
            if i > 0 {
                assert(rest[i - 1] == readable[i]);
            }
        }
        if conflict(rest, writable) is Some {
            let (i, j) = choose|i: int, j: int|
                0 <= i < rest.len() && 0 <= j < writable.len() && lies_below(
                    #[trigger] rest[i],
                    #[trigger] writable[j],
                );
            assert(rest[i] == readable[i + 1]);
        }
    }
}

/// A configured path is taken from the home directory where it begins with `~/`,
/// from the workspace where it is relative, and as it is where it is absolute.
pub proof fn configured_paths_are_expanded(
    rest: Seq<char>,
    workspace: Seq<char>,
    home: Seq<char>,
)
    requires
        rest.len() == 0 || rest[0] != '/',
        home.len() > 0 && home.last() != '/',
        workspace.len() > 0 && workspace.last() != '/',
    ensures
        expanded(seq!['~', '/'] + rest, workspace, Some(home)) == Ok::<Seq<char>, Seq<char>>(
            home + seq!['/'] + rest,
        ),
        expanded(seq!['~', '/'] + rest, workspace, None) is Err,
        expanded(seq!['~'], workspace, None) is Err,
        expanded(seq!['/'] + rest, workspace, Some(home)) == Ok::<Seq<char>, Seq<char>>(
            seq!['/'] + rest,
        ),
        rest.len() == 0 || rest[0] != '~' ==> expanded(rest, workspace, Some(home)) == Ok::<
            Seq<char>,
            Seq<char>,
        >(workspace + seq!['/'] + rest),
{
    reveal_strlit("~");
    reveal_strlit("~/");
    let from_home = seq!['~', '/'] + rest;
    assert("~/"@ =~= seq!['~', '/']);
    assert("~"@ =~= seq!['~']);
    assert(from_home.take(2) =~= "~/"@);
    assert(from_home.skip(2) =~= rest);
    assert(home.push('/') + rest =~= home + seq!['/'] + rest);
    assert(workspace.push('/') + rest =~= workspace + seq!['/'] + rest);
    let absolute = seq!['/'] + rest;
    assert(absolute[0] == '/');
    assert(!has_prefix(absolute, "~/"@)) by {
        if absolute.len() >= 2 {
            assert(absolute.take(2)[0] == '/');
        }
    }
    assert(absolute != "~"@) by {
        assert("~"@[0] == '~');
    }
    if rest.len() > 0 && rest[0] != '~' {
        assert("~"@[0] == '~');
        if rest.len() >= 2 {
            assert(rest.take(2)[0] == rest[0]);
        }
    }
}

/// A path that a project selects outside the global roots is refused, and the
/// refusal names it.
pub proof fn paths_outside_are_refused(
    global_writable: Seq<PlaceView>,
    global_readable: Seq<PlaceView>,
    local_writable: Seq<PlaceView>,
    local_readable: Seq<PlaceView>,
    i: int,
)
    ensures
        0 <= i < local_writable.len() && !covered(
            local_writable[i].0,
            canonical_of(global_writable),
        ) ==> selected(
            global_writable,
            global_readable,
            local_writable,
            local_readable,
        ) is Err,
        0 <= i < local_readable.len() && !covered(
            local_readable[i].0,
            canonical_of(global_readable) + canonical_of(global_writable),
        ) ==> selected(
            global_writable,
            global_readable,
            local_writable,
            local_readable,
        ) is Err,
{
    let writes = canonical_of(local_writable);
    let reads = canonical_of(local_readable);
    if 0 <= i < local_writable.len() && first_outside(writes, canonical_of(global_writable)) is None {
        lemma_first_outside(writes, canonical_of(global_writable));
        assert(writes[i] == local_writable[i].0);
    }
    if 0 <= i < local_readable.len() && first_outside(
        reads,
        canonical_of(global_readable) + canonical_of(global_writable),
    ) is None {
        lemma_first_outside(reads, canonical_of(global_readable) + canonical_of(global_writable));
        assert(reads[i] == local_readable[i].0);
    }
}

/// A missing path grants nothing: a global one is passed over, and one of a project
/// is refused.
pub proof fn missing_paths_grant_nothing(
    paths: Seq<Seq<char>>,
    workspace: Seq<char>,
    home: Option<Seq<char>>,
    lookups: Seq<LookupView>,
    n: nat,
)
    requires
        n > 0,
        lookups[n - 1] is Missing,
        expanded(paths[n - 1], workspace, home) is Ok,
        roots_of(paths, workspace, home, lookups, true, (n - 1) as nat) is Ok,
    ensures
        roots_of(paths, workspace, home, lookups, true, n) == roots_of(
            paths,
            workspace,
            home,
            lookups,
            true,
            (n - 1) as nat,
        ),
        roots_of(paths, workspace, home, lookups, false, n) is Err,
{
}

proof fn lemma_rooted(names: Seq<Seq<char>>)
    requires
        names.len() > 0,
        forall|i: int| 0 <= i < names.len() ==> crate::path::is_name(#[trigger] names[i]),
    ensures
        rooted(names).len() > 0,
        components(rooted(names)) == seq!["/"@] + names,
    decreases names.len(),
{
    let head = names.drop_last();
    let last = names.last();
    assert(crate::path::is_name(names[names.len() - 1]));
    if head.len() == 0 {
        assert(rooted(head) =~= Seq::empty());
        crate::path::lemma_rooted_name(last);
        assert(rooted(names) =~= seq!['/'] + last);
        assert(names =~= seq![last]);
    } else {
        assert forall|i: int| 0 <= i < head.len() implies crate::path::is_name(
            #[trigger] head[i],
        ) by {
            assert(head[i] == names[i]);
        }
        lemma_rooted(head);
        crate::path::lemma_child(rooted(head), last);
        assert(seq!["/"@] + names =~= (seq!["/"@] + head).push(last));
    }
}

/// A linked worktree is recognised by its pointer: `gitdir:` and the path of its
/// own directory below `.git/worktrees` of the main repository give that repository
/// and its git directory, wherever the repository stands.
pub proof fn worktrees_point_to_their_repository(main: Seq<Seq<char>>, name: Seq<char>)
    requires
        main.len() > 0,
        forall|i: int|
            0 <= i < main.len() ==> crate::path::is_name(#[trigger] main[i]) && main[i] != ".."@,
        crate::path::is_name(name) && name != ".."@,
        !crate::text::is_space(name.last()),
    ensures
        worktree_target(
            "gitdir:"@ + rooted(main.push(".git"@).push("worktrees"@).push(name)),
        ) == Some((rooted(main.push(".git"@)), rooted(main))),
{
    reveal_strlit("gitdir:");
    reveal_strlit(".git");
    reveal_strlit("worktrees");
    reveal_strlit("..");
    reveal_strlit(".");
    reveal_strlit("/");
    assert(".git"@.len() == 4 && "worktrees"@.len() == 9 && ".."@.len() == 2 && "."@.len() == 1);
    assert(".git"@[1] == 'g' && "worktrees"@[0] == 'w');
    let names = main.push(".git"@).push("worktrees"@).push(name);
    let target = rooted(names);
    let pointer = "gitdir:"@ + target;
    assert(crate::path::is_name(".git"@));
    assert(crate::path::is_name("worktrees"@));
    assert forall|i: int| 0 <= i < names.len() implies crate::path::is_name(#[trigger] names[i])
        && names[i] != ".."@ by {
        if i < main.len() {
            assert(names[i] == main[i]);
        }
    }
    lemma_rooted(names);
    assert(target.last() == name.last()) by {
        assert(target == rooted(names.drop_last()).push('/') + name);
    }
    assert(target[0] == '/') by {
        lemma_rooted_starts(names);
    }
    crate::text::lemma_already_trimmed(pointer);
    crate::text::lemma_already_trimmed(target);
    assert(pointer.take("gitdir:"@.len() as int) =~= "gitdir:"@);
    assert(pointer.skip("gitdir:"@.len() as int) =~= target);
    let parts = components(target);
    assert(parts =~= seq!["/"@] + names);
    assert(parts.skip(1) =~= names);
    assert(parts[parts.len() - 2] == names[names.len() - 2]);
    assert(parts[parts.len() - 3] == names[names.len() - 3]);
    assert forall|i: int| 0 <= i < parts.len() implies (#[trigger] parts[i]) != ".."@ by {
        if i > 0 {
            assert(parts[i] == names[i - 1]);
        }
    }
    assert(names.take(names.len() - 2) =~= main.push(".git"@));
    assert(names.take(names.len() - 3) =~= main);
}

proof fn lemma_rooted_starts(names: Seq<Seq<char>>)
    requires
        names.len() > 0,
    ensures
        rooted(names).len() > 0,
        rooted(names)[0] == '/',
    decreases names.len(),
{
    let head = names.drop_last();
    if head.len() > 0 {
        lemma_rooted_starts(head);
        assert(rooted(names)[0] == rooted(head)[0]);
    } else {
        assert(rooted(head) =~= Seq::empty());
    }
}

proof fn lemma_unnarrowed_stays(global: Seq<Seq<char>>, local: Seq<Seq<char>>, k: int)
    requires
        0 <= k < global.len(),
        !narrowed(global[k], local),
    ensures
        merged_roots(global, local).contains(global[k]),
        unnarrowed(global, local).contains(global[k]),
    decreases global.len(),
{
    let head = global.drop_last();
    let before = unnarrowed(head, local);
    let kept = unnarrowed(global, local);
    if k < head.len() {
        assert(head[k] == global[k]);
        lemma_unnarrowed_stays(head, local, k);
        let m = choose|m: int| 0 <= m < before.len() && before[m] == global[k];
        assert(kept[m] == global[k]);
    } else {
        assert(kept[kept.len() - 1] == global[k]);
    }
    let m = choose|m: int| 0 <= m < kept.len() && kept[m] == global[k];
    assert(merged_roots(global, local)[m] == global[k]);
}

/// A project narrows only what it selects from: a global path for writing below which
/// it selects none is open as before, and mounted where it was.
pub proof fn unrelated_writable_paths_stay_granted(
    base: SandboxView,
    sources: SourcesView,
    project: ProjectSandboxView,
    canonical: Seq<char>,
    at: int,
)
    requires
        sources.project == Ok::<Option<ProjectSandboxView>, Seq<char>>(Some(project)),
        selects_paths(sources),
        lookups_match(base, sources),
        0 <= at < base.writable_paths.len(),
        sources.global_writable[at] == (LookupView::Found { canonical }),
        forall|k: int|
            0 <= k < sources.local_writable.len() ==> match #[trigger] sources.local_writable[k] {
                LookupView::Found { canonical: own } => !lies_below(own, canonical),
                _ => true,
            },
    ensures
        policy(base, sources) matches Ok(result) ==> (expanded(
            base.writable_paths[at],
            sources.workspace,
            sources.home,
        ) matches Ok(place) && grants_writing(result, canonical, place)),
{
    if let Ok(result) = policy(base, sources) {
        let own = paths_or_none(project.writable_paths);
        let writes = roots_of(
            base.writable_paths,
            sources.workspace,
            sources.home,
            sources.global_writable,
            true,
            base.writable_paths.len(),
        )->Ok_0;
        let reads = roots_of(
            base.readable_paths,
            sources.workspace,
            sources.home,
            sources.global_readable,
            true,
            base.readable_paths.len(),
        )->Ok_0;
        let local = roots_of(
            own,
            sources.workspace,
            sources.home,
            sources.local_writable,
            false,
            own.len(),
        )->Ok_0;
        let chosen = selection(sources, Some(project), writes, reads)->Ok_0;
        lemma_roots_expand(
            base.writable_paths,
            sources.workspace,
            sources.home,
            sources.global_writable,
            true,
            base.writable_paths.len(),
            at,
        );
        let k = lemma_roots_hold(
            base.writable_paths,
            sources.workspace,
            sources.home,
            sources.global_writable,
            true,
            base.writable_paths.len(),
            at,
        );
        lemma_roots_come_from(
            own,
            sources.workspace,
            sources.home,
            sources.local_writable,
            false,
            own.len(),
        );
        let roots = canonical_of(writes);
        let narrower = canonical_of(local);
        assert(!narrowed(roots[k], narrower)) by {
            if narrowed(roots[k], narrower) {
                let i = choose|i: int|
                    0 <= i < narrower.len() && lies_below(#[trigger] narrower[i], roots[k]);
                assert(narrower[i] == local[i].0);
                let m = choose|m: int|
                    0 <= m < own.len() && (#[trigger] sources.local_writable[m]) == (LookupView::Found {
                        canonical: local[i].0,
                    });
                assert(!lies_below(local[i].0, canonical));
            }
        }
        lemma_unnarrowed_stays(roots, narrower, k);
        assert(chosen.writable_mounts[k] == writes[k]);
        assert(chosen.writable.contains(writes[k].0));
        lemma_completed_grants(
            switched(base, Some(project)),
            chosen,
            sources.main_repo,
            writes[k],
            canonical,
            expanded(base.writable_paths[at], sources.workspace, sources.home)->Ok_0,
        );
    }
}

/// A project narrows only what it selects from: a global path for reading below which
/// it selects none is open as before, and mounted where it was.
pub proof fn unrelated_readable_paths_stay_granted(
    base: SandboxView,
    sources: SourcesView,
    project: ProjectSandboxView,
    canonical: Seq<char>,
    at: int,
)
    requires
        sources.project == Ok::<Option<ProjectSandboxView>, Seq<char>>(Some(project)),
        selects_paths(sources),
        lookups_match(base, sources),
        0 <= at < base.readable_paths.len(),
        sources.global_readable[at] == (LookupView::Found { canonical }),
        forall|k: int|
            0 <= k < sources.local_readable.len() ==> match #[trigger] sources.local_readable[k] {
                LookupView::Found { canonical: own } => !lies_below(own, canonical),
                _ => true,
            },
    ensures
        policy(base, sources) matches Ok(result) ==> (expanded(
            base.readable_paths[at],
            sources.workspace,
            sources.home,
        ) matches Ok(place) && grants_reading(result, canonical, place)),
{
    if let Ok(result) = policy(base, sources) {
        let own = paths_or_none(project.readable_paths);
        let writes = roots_of(
            base.writable_paths,
            sources.workspace,
            sources.home,
            sources.global_writable,
            true,
            base.writable_paths.len(),
        )->Ok_0;
        let reads = roots_of(
            base.readable_paths,
            sources.workspace,
            sources.home,
            sources.global_readable,
            true,
            base.readable_paths.len(),
        )->Ok_0;
        let local = roots_of(
            own,
            sources.workspace,
            sources.home,
            sources.local_readable,
            false,
            own.len(),
        )->Ok_0;
        let chosen = selection(sources, Some(project), writes, reads)->Ok_0;
        lemma_roots_expand(
            base.readable_paths,
            sources.workspace,
            sources.home,
            sources.global_readable,
            true,
            base.readable_paths.len(),
            at,
        );
        let k = lemma_roots_hold(
            base.readable_paths,
            sources.workspace,
            sources.home,
            sources.global_readable,
            true,
            base.readable_paths.len(),
            at,
        );
        lemma_roots_come_from(
            own,
            sources.workspace,
            sources.home,
            sources.local_readable,
            false,
            own.len(),
        );
        let roots = canonical_of(reads);
        let narrower = canonical_of(local);
        assert(!narrowed(roots[k], narrower)) by {
            if narrowed(roots[k], narrower) {
                let i = choose|i: int|
                    0 <= i < narrower.len() && lies_below(#[trigger] narrower[i], roots[k]);
                assert(narrower[i] == local[i].0);
                let m = choose|m: int|
                    0 <= m < own.len() && (#[trigger] sources.local_readable[m]) == (LookupView::Found {
                        canonical: local[i].0,
                    });
                assert(!lies_below(local[i].0, canonical));
            }
        }
        lemma_unnarrowed_stays(roots, narrower, k);
        assert(chosen.readable_mounts[k] == reads[k]);
        assert(chosen.readable.contains(reads[k].0));
        lemma_completed_grants(
            switched(base, Some(project)),
            chosen,
            sources.main_repo,
            reads[k],
            canonical,
            expanded(base.readable_paths[at], sources.workspace, sources.home)->Ok_0,
        );
    }
}

proof fn lemma_roots_come_from(
    paths: Seq<Seq<char>>,
    workspace: Seq<char>,
    home: Option<Seq<char>>,
    lookups: Seq<LookupView>,
    skip_missing: bool,
    n: nat,
)
    requires
        n <= paths.len(),
        roots_of(paths, workspace, home, lookups, skip_missing, n) is Ok,
    ensures
        forall|i: int|
            0 <= i < roots_of(paths, workspace, home, lookups, skip_missing, n)->Ok_0.len()
                ==> exists|m: int|
                0 <= m < n && (#[trigger] lookups[m]) == (LookupView::Found {
                    canonical: (#[trigger] roots_of(
                        paths,
                        workspace,
                        home,
                        lookups,
                        skip_missing,
                        n,
                    )->Ok_0[i]).0,
                }),
    decreases n,
{
    if n > 0 {
        lemma_roots_come_from(paths, workspace, home, lookups, skip_missing, (n - 1) as nat);
        let before = roots_of(paths, workspace, home, lookups, skip_missing, (n - 1) as nat)->Ok_0;
        let roots = roots_of(paths, workspace, home, lookups, skip_missing, n)->Ok_0;
        assert forall|i: int| 0 <= i < roots.len() implies exists|m: int|
            0 <= m < n && (#[trigger] lookups[m]) == (LookupView::Found {
                canonical: (#[trigger] roots[i]).0,
            }) by {
            if i < before.len() {
                assert(roots[i] == before[i]);
                let m = choose|m: int|
                    0 <= m < n - 1 && (#[trigger] lookups[m]) == (LookupView::Found {
                        canonical: before[i].0,
                    });
                assert(lookups[m] == (LookupView::Found { canonical: roots[i].0 }));
            } else {
                assert(lookups[n - 1] == (LookupView::Found { canonical: roots[i].0 }));
            }
        }
    }
}

/// The models of policies and settings show all that they hold.
pub proof fn policies_are_seen_whole(sandbox: Sandbox, project: ProjectSandbox)
    ensures
        ({
            let seen = sandbox.deep_view();
            &&& seen.enabled == sandbox.enabled && seen.network == sandbox.network
            &&& seen.workspace_writable == sandbox.workspace_writable
            &&& seen.writable_paths == sandbox.writable_paths.deep_view()
            &&& seen.readable_paths == sandbox.readable_paths.deep_view()
            &&& seen.writable_mounts == sandbox.writable_mounts.deep_view()
            &&& seen.readable_mounts == sandbox.readable_mounts.deep_view()
        }),
        ({
            let seen = project.deep_view();
            &&& seen.enabled == project.enabled && seen.network == project.network
            &&& seen.workspace_writable == project.workspace_writable
            &&& seen.writable_paths == project.writable_paths.deep_view()
            &&& seen.readable_paths == project.readable_paths.deep_view()
        }),
        !default_sandbox().enabled && default_sandbox().network
            && default_sandbox().workspace_writable,
        default_sandbox().writable_paths.len() == 0 && default_sandbox().readable_paths.len() == 0,
{
}

/// A path that cannot be used is refused by what is the matter with it.
pub proof fn unusable_paths_are_refused_by_name(
    paths: Seq<Seq<char>>,
    workspace: Seq<char>,
    home: Option<Seq<char>>,
    lookups: Seq<LookupView>,
    skip_missing: bool,
    n: nat,
)
    requires
        n > 0,
        expanded(paths[n - 1], workspace, home) is Ok,
        roots_of(paths, workspace, home, lookups, skip_missing, (n - 1) as nat) is Ok,
    ensures
        ({
            let found = roots_of(paths, workspace, home, lookups, skip_missing, n);
            match lookups[n - 1] {
                LookupView::Unresolvable => found == Err::<Seq<PlaceView>, Seq<char>>(
                    "cannot canonicalize external path "@ + named(paths[n - 1], workspace, home),
                ),
                LookupView::Uninspectable { canonical } => found == Err::<
                    Seq<PlaceView>,
                    Seq<char>,
                >("cannot inspect external path "@ + shown(canonical)),
                LookupView::Special { canonical } => found == Err::<Seq<PlaceView>, Seq<char>>(
                    "external path "@ + shown(canonical) + " is not a regular file or directory"@,
                ),
                LookupView::Found { .. } => found is Ok,
                LookupView::Missing => true,
            }
        }),
{
}

/// Configured paths resolve where each can be expanded and is there, or is missing
/// and may be.
pub proof fn configured_paths_resolve(
    paths: Seq<Seq<char>>,
    workspace: Seq<char>,
    home: Option<Seq<char>>,
    lookups: Seq<LookupView>,
    skip_missing: bool,
    n: nat,
)
    requires
        n <= paths.len(),
        forall|i: int|
            0 <= i < n ==> expanded(#[trigger] paths[i], workspace, home) is Ok && (
            lookups[i] is Found || (skip_missing && lookups[i] is Missing)),
    ensures
        roots_of(paths, workspace, home, lookups, skip_missing, n) is Ok,
    decreases n,
{
    if n > 0 {
        configured_paths_resolve(paths, workspace, home, lookups, skip_missing, (n - 1) as nat);
        assert(expanded(paths[n - 1], workspace, home) is Ok);
    }
}

proof fn lemma_none_outside(paths: Seq<Seq<char>>, roots: Seq<Seq<char>>)
    requires
        all_covered(paths, roots),
    ensures
        first_outside(paths, roots) is None,
    decreases paths.len(),
{
    if paths.len() > 0 {
        let rest = paths.drop_first();
        assert(covered(paths[0], roots));
        assert forall|i: int| 0 <= i < rest.len() implies covered(#[trigger] rest[i], roots) by {
            assert(rest[i] == paths[i + 1]);
        }
        lemma_none_outside(rest, roots);
    }
}

/// A project may select whatever the global roots cover.
pub proof fn covered_paths_are_selected(
    global_writable: Seq<PlaceView>,
    global_readable: Seq<PlaceView>,
    local_writable: Seq<PlaceView>,
    local_readable: Seq<PlaceView>,
)
    requires
        all_covered(canonical_of(local_writable), canonical_of(global_writable)),
        all_covered(
            canonical_of(local_readable),
            canonical_of(global_readable) + canonical_of(global_writable),
        ),
    ensures
        selected(global_writable, global_readable, local_writable, local_readable) is Ok,
{
    lemma_none_outside(canonical_of(local_writable), canonical_of(global_writable));
    lemma_none_outside(
        canonical_of(local_readable),
        canonical_of(global_readable) + canonical_of(global_writable),
    );
}

proof fn lemma_text_roots_pass(roots: Seq<Seq<char>>)
    requires
        forall|i: int| 0 <= i < roots.len() ==> all_text(#[trigger] roots[i]),
    ensures
        roots_error(roots) is None,
    decreases roots.len(),
{
    if roots.len() > 0 {
        let rest = roots.drop_first();
        assert(all_text(roots[0]));
        assert forall|i: int| 0 <= i < rest.len() implies all_text(#[trigger] rest[i]) by {
            assert(rest[i] == roots[i + 1]);
        }
        lemma_text_roots_pass(rest);
    }
}

proof fn lemma_text_mounts_pass(mounts: Seq<PlaceView>)
    requires
        forall|i: int|
            0 <= i < mounts.len() ==> all_text((#[trigger] mounts[i]).0) && all_text(mounts[i].1),
    ensures
        mounts_error(mounts) is None,
    decreases mounts.len(),
{
    if mounts.len() > 0 {
        let rest = mounts.drop_first();
        assert(all_text(mounts[0].0) && all_text(mounts[0].1));
        assert forall|i: int| 0 <= i < rest.len() implies all_text((#[trigger] rest[i]).0)
            && all_text(rest[i].1) by {
            assert(rest[i] == mounts[i + 1]);
        }
        lemma_text_mounts_pass(rest);
    }
}

/// A selection becomes a policy where no place for reading lies below one for
/// writing, the main repository can be told, and every path is text.
pub proof fn sound_selections_become_policies(
    base: SandboxView,
    chosen: SelectionView,
    main_repo: Result<Option<Seq<char>>, Seq<char>>,
)
    requires
        forall|i: int, j: int|
            0 <= i < chosen.readable.len() && 0 <= j < chosen.writable.len() ==> !lies_below(
                #[trigger] chosen.readable[i],
                #[trigger] chosen.writable[j],
            ),
        main_repo is Ok,
        main_repo matches Ok(Some(repo)) ==> all_text(repo),
        forall|i: int| 0 <= i < chosen.writable.len() ==> all_text(#[trigger] chosen.writable[i]),
        forall|i: int| 0 <= i < chosen.readable.len() ==> all_text(#[trigger] chosen.readable[i]),
        forall|i: int|
            0 <= i < chosen.writable_mounts.len() ==> all_text(
                (#[trigger] chosen.writable_mounts[i]).0,
            ) && all_text(chosen.writable_mounts[i].1),
        forall|i: int|
            0 <= i < chosen.readable_mounts.len() ==> all_text(
                (#[trigger] chosen.readable_mounts[i]).0,
            ) && all_text(chosen.readable_mounts[i].1),
    ensures
        completed(base, chosen, main_repo) is Ok,
{
    read_only_children_are_refused(chosen.writable, chosen.readable);
    normalising_keeps_the_outermost_roots(chosen.writable, chosen.readable);
    let roots = normalized(chosen.writable, chosen.readable)->Ok_0;
    let repo = main_repo->Ok_0;
    let linked = repo matches Some(path) && !listed(path, roots.0) && !listed(path, roots.1);
    let readable = if linked {
        roots.1.push(repo->0)
    } else {
        roots.1
    };
    let reads = if linked {
        chosen.readable_mounts.push((repo->0, repo->0))
    } else {
        chosen.readable_mounts
    };
    assert forall|i: int| 0 <= i < roots.0.len() implies all_text(#[trigger] roots.0[i]) by {
        assert(chosen.writable.contains(roots.0[i]));
        let k = choose|k: int| 0 <= k < chosen.writable.len() && chosen.writable[k] == roots.0[i];
        assert(all_text(chosen.writable[k]));
    }
    assert forall|i: int| 0 <= i < readable.len() implies all_text(#[trigger] readable[i]) by {
        if i < roots.1.len() {
            assert(readable[i] == roots.1[i]);
            assert(chosen.readable.contains(roots.1[i]));
            let k = choose|k: int|
                0 <= k < chosen.readable.len() && chosen.readable[k] == roots.1[i];
            assert(all_text(chosen.readable[k]));
        }
    }
    lemma_text_roots_pass(roots.0);
    lemma_text_roots_pass(readable);
    let kept = mounted(chosen.writable_mounts, roots.0);
    let all = mounted(reads, readable + roots.0);
    lemma_mounted(chosen.writable_mounts, roots.0);
    lemma_mounted(reads, readable + roots.0);
    assert forall|i: int| 0 <= i < kept.len() implies all_text((#[trigger] kept[i]).0) && all_text(
        kept[i].1,
    ) by {
        assert(kept.contains(kept[i]));
        assert(chosen.writable_mounts.contains(kept[i]));
        let k = choose|k: int|
            0 <= k < chosen.writable_mounts.len() && chosen.writable_mounts[k] == kept[i];
        assert(all_text(chosen.writable_mounts[k].0));
    }
    assert forall|i: int| 0 <= i < all.len() implies all_text((#[trigger] all[i]).0) && all_text(
        all[i].1,
    ) by {
        assert(all.contains(all[i]));
        assert(reads.contains(all[i]));
        let k = choose|k: int| 0 <= k < reads.len() && reads[k] == all[i];
        if k < chosen.readable_mounts.len() {
            assert(all_text(chosen.readable_mounts[k].0));
        }
    }
    lemma_text_mounts_pass(kept);
    lemma_text_mounts_pass(all);
}

/// A policy is resolved wherever the global paths resolve, the settings of the
/// project can be read, and what is selected from both is sound: those of the
/// project are covered, no place for reading lies below one for writing, and every
/// path is text.
pub proof fn sound_settings_give_a_policy(
    base: SandboxView,
    sources: SourcesView,
    project: Option<ProjectSandboxView>,
    writes: Seq<PlaceView>,
    reads: Seq<PlaceView>,
    chosen: SelectionView,
)
    requires
        roots_of(
            base.writable_paths,
            sources.workspace,
            sources.home,
            sources.global_writable,
            true,
            base.writable_paths.len(),
        ) == Ok::<Seq<PlaceView>, Seq<char>>(writes),
        roots_of(
            base.readable_paths,
            sources.workspace,
            sources.home,
            sources.global_readable,
            true,
            base.readable_paths.len(),
        ) == Ok::<Seq<PlaceView>, Seq<char>>(reads),
        sources.project == Ok::<Option<ProjectSandboxView>, Seq<char>>(project),
        if selects_paths(sources) {
            exists|own_writes: Seq<PlaceView>, own_reads: Seq<PlaceView>|
                {
                    &&& roots_of(
                        paths_or_none((project->0).writable_paths),
                        sources.workspace,
                        sources.home,
                        sources.local_writable,
                        false,
                        paths_or_none((project->0).writable_paths).len(),
                    ) == Ok::<Seq<PlaceView>, Seq<char>>(own_writes)
                    &&& roots_of(
                        paths_or_none((project->0).readable_paths),
                        sources.workspace,
                        sources.home,
                        sources.local_readable,
                        false,
                        paths_or_none((project->0).readable_paths).len(),
                    ) == Ok::<Seq<PlaceView>, Seq<char>>(own_reads)
                    &&& #[trigger] selected(writes, reads, own_writes, own_reads) == Ok::<
                        SelectionView,
                        Seq<char>,
                    >(chosen)
                }
        } else {
            chosen == (SelectionView {
                writable: canonical_of(writes),
                readable: canonical_of(reads),
                writable_mounts: writes,
                readable_mounts: reads,
            })
        },
        forall|i: int, j: int|
            0 <= i < chosen.readable.len() && 0 <= j < chosen.writable.len() ==> !lies_below(
                #[trigger] chosen.readable[i],
                #[trigger] chosen.writable[j],
            ),
        sources.main_repo is Ok,
        sources.main_repo matches Ok(Some(repo)) ==> all_text(repo),
        forall|i: int| 0 <= i < chosen.writable.len() ==> all_text(#[trigger] chosen.writable[i]),
        forall|i: int| 0 <= i < chosen.readable.len() ==> all_text(#[trigger] chosen.readable[i]),
        forall|i: int|
            0 <= i < chosen.writable_mounts.len() ==> all_text(
                (#[trigger] chosen.writable_mounts[i]).0,
            ) && all_text(chosen.writable_mounts[i].1),
        forall|i: int|
            0 <= i < chosen.readable_mounts.len() ==> all_text(
                (#[trigger] chosen.readable_mounts[i]).0,
            ) && all_text(chosen.readable_mounts[i].1),
    ensures
        policy(base, sources) is Ok,
{
    sound_selections_become_policies(switched(base, project), chosen, sources.main_repo);
}

/// The main repository of a linked worktree is mounted at its own place, unless it
/// is a root anyway or something stands there for writing.
pub proof fn main_repositories_are_mounted(
    base: SandboxView,
    chosen: SelectionView,
    repo: Seq<char>,
)
    requires
        forall|i: int|
            0 <= i < chosen.writable.len() ==> !same_place(#[trigger] chosen.writable[i], repo),
        forall|i: int|
            0 <= i < chosen.readable.len() ==> !same_place(#[trigger] chosen.readable[i], repo),
    ensures
        completed(base, chosen, Ok(Some(repo))) matches Ok(result) ==> result.readable_paths.contains(
            repo,
        ) && grants_reading(result, repo, repo),
{
    if let Ok(result) = completed(base, chosen, Ok(Some(repo))) {
        normalising_keeps_the_outermost_roots(chosen.writable, chosen.readable);
        let roots = normalized(chosen.writable, chosen.readable)->Ok_0;
        assert(!listed(repo, roots.0)) by {
            if listed(repo, roots.0) {
                let k = choose|k: int|
                    0 <= k < roots.0.len() && same_place(#[trigger] roots.0[k], repo);
                assert(chosen.writable.contains(roots.0[k]));
                let m = choose|m: int|
                    0 <= m < chosen.writable.len() && chosen.writable[m] == roots.0[k];
                assert(same_place(chosen.writable[m], repo));
            }
        }
        assert(!listed(repo, roots.1)) by {
            if listed(repo, roots.1) {
                let k = choose|k: int|
                    0 <= k < roots.1.len() && same_place(#[trigger] roots.1[k], repo);
                assert(chosen.readable.contains(roots.1[k]));
                let m = choose|m: int|
                    0 <= m < chosen.readable.len() && chosen.readable[m] == roots.1[k];
                assert(same_place(chosen.readable[m], repo));
            }
        }
        let last = result.readable_paths.len() - 1;
        assert(result.readable_paths[last] == repo);
        let both = result.readable_paths + result.writable_paths;
        assert(both[last] == repo);
        lemma_covered_self(both, last);
        let mount = (repo, repo);
        let reads = chosen.readable_mounts.push(mount);
        assert(reads[chosen.readable_mounts.len() as int] == mount);
        lemma_mounted_holds(reads, both, mount);
        let all = mounted(reads, both);
        crate::order::sorted_set_holds_the_items::<(String, String)>(all);
        let sorted = sorted_set::<(String, String)>(all);
        assert(sorted.contains(mount));
        if mounted_at(result.writable_mounts, repo) {
            let m = choose|m: int|
                0 <= m < result.writable_mounts.len() && (#[trigger] result.writable_mounts[m]).1
                    == repo;
            assert(same_place(result.writable_mounts[m].1, repo));
        } else {
            lemma_unshadowed_holds(sorted, result.writable_mounts, mount);
            let m = choose|m: int|
                0 <= m < result.readable_mounts.len() && result.readable_mounts[m] == mount;
            assert(same_place(result.readable_mounts[m].0, repo));
        }
    }
}

} // verus!
