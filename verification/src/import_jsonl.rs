//! Bringing a session's text file into the database: what is missing there, and
//! whether it may be appended.
use vstd::prelude::*;
use vstd::slice::slice_subrange;

use crate::config::{BackendView, SessionBackend};
use crate::entry::{entry_views, EntryView, SessionEntry};
use crate::path::{join_path, joined_path};
use crate::same::Same;
use crate::text::{chars_of, decimal, decimal_text, same_text, signed_decimal, signed_text};

verus! {

/// What a comparison of the database with the text file comes to.
#[derive(Debug, PartialEq)]
pub enum ImportPlan<'a> {
    /// The database holds the beginning of the file; the rest is appended.
    Append { missing: &'a [SessionEntry], db_len: usize },
    /// The database holds more than the file.
    DbLonger { db_len: usize, jsonl_len: usize },
    /// The two differ at an entry.
    Diverged { at: usize },
    /// The two are the same.
    Unchanged,
}

/// Model of an [`ImportPlan`].
#[verifier::ext_equal]
pub enum ImportView {
    Append { missing: Seq<EntryView>, db_len: nat },
    DbLonger { db_len: nat, jsonl_len: nat },
    Diverged { at: nat },
    Unchanged,
}

impl<'a> DeepView for ImportPlan<'a> {
    type V = ImportView;

    open spec fn deep_view(&self) -> ImportView {
        match self {
            ImportPlan::Append { missing, db_len } => ImportView::Append {
                missing: entry_views(missing@),
                db_len: *db_len as nat,
            },
            ImportPlan::DbLonger { db_len, jsonl_len } => ImportView::DbLonger {
                db_len: *db_len as nat,
                jsonl_len: *jsonl_len as nat,
            },
            ImportPlan::Diverged { at } => ImportView::Diverged { at: *at as nat },
            ImportPlan::Unchanged => ImportView::Unchanged,
        }
    }
}

/// How many entries two histories have in common from their start on.
pub open spec fn common_len(a: Seq<EntryView>, b: Seq<EntryView>) -> nat
    decreases a.len(),
{
    if a.len() == 0 || b.len() == 0 || a[0] != b[0] {
        0
    } else {
        1 + common_len(a.drop_first(), b.drop_first())
    }
}

proof fn lemma_common_len(a: Seq<EntryView>, b: Seq<EntryView>, n: int)
    requires
        0 <= n <= a.len(),
        n <= b.len(),
        forall|i: int| 0 <= i < n ==> a[i] == b[i],
    ensures
        common_len(a, b) >= n,
        (n == a.len() || n == b.len() || a[n] != b[n]) ==> common_len(a, b) == n,
    decreases a.len(),
{
    if n > 0 {
        let rest_a = a.drop_first();
        let rest_b = b.drop_first();
        assert(a[0] == b[0]);
        assert forall|i: int| 0 <= i < n - 1 implies rest_a[i] == rest_b[i] by {
            assert(a[i + 1] == b[i + 1]);
        }
        lemma_common_len(rest_a, rest_b, n - 1);
    }
}

/// Whether two histories agree as far as they have entries in common.
proof fn lemma_common_prefix(a: Seq<EntryView>, b: Seq<EntryView>)
    ensures
        common_len(a, b) <= a.len(),
        common_len(a, b) <= b.len(),
        a.take(common_len(a, b) as int) == b.take(common_len(a, b) as int),
    decreases a.len(),
{
    let n = common_len(a, b) as int;
    if n > 0 {
        let rest_a = a.drop_first();
        let rest_b = b.drop_first();
        lemma_common_prefix(rest_a, rest_b);
        assert forall|i: int| 0 <= i < n implies a[i] == b[i] by {
            if i > 0 {
                assert(rest_a.take(n - 1)[i - 1] == rest_b.take(n - 1)[i - 1]);
            }
        }
        assert(a.take(n) =~= b.take(n));
    } else {
        assert(a.take(0) =~= b.take(0));
    }
}

/// What a comparison of the database with the text file comes to: only a
/// database that holds the beginning of the file is ever added to.
pub open spec fn import_plan(db: Seq<EntryView>, jsonl: Seq<EntryView>) -> ImportView {
    if db.len() > jsonl.len() {
        ImportView::DbLonger { db_len: db.len(), jsonl_len: jsonl.len() }
    } else if common_len(db, jsonl) < db.len() {
        ImportView::Diverged { at: common_len(db, jsonl) }
    } else if db.len() == jsonl.len() {
        ImportView::Unchanged
    } else {
        ImportView::Append { missing: jsonl.skip(db.len() as int), db_len: db.len() }
    }
}

/// Compare the database with the text file.
pub fn plan_import<'a>(db_entries: &[SessionEntry], jsonl_entries: &'a [SessionEntry]) -> (r:
    ImportPlan<'a>)
    ensures
        r.deep_view() == import_plan(entry_views(db_entries@), entry_views(jsonl_entries@)),
{
    let ghost db = entry_views(db_entries@);
    let ghost jsonl = entry_views(jsonl_entries@);
    if db_entries.len() > jsonl_entries.len() {
        return ImportPlan::DbLonger { db_len: db_entries.len(), jsonl_len: jsonl_entries.len() };
    }
    let mut i: usize = 0;
    while i < db_entries.len()
        invariant
            i <= db_entries@.len() <= jsonl_entries@.len(),
            db == entry_views(db_entries@),
            jsonl == entry_views(jsonl_entries@),
            forall|k: int| 0 <= k < i ==> db[k] == jsonl[k],
        decreases db_entries@.len() - i,
    {
        if !db_entries[i].same(&jsonl_entries[i]) {
            proof {
                lemma_common_len(db, jsonl, i as int);
            }
            return ImportPlan::Diverged { at: i };
        }
        i += 1;
    }
    proof {
        lemma_common_len(db, jsonl, db.len() as int);
    }
    if db_entries.len() == jsonl_entries.len() {
        return ImportPlan::Unchanged;
    }
    let missing = slice_subrange(jsonl_entries, db_entries.len(), jsonl_entries.len());
    assert(entry_views(missing@) =~= jsonl.skip(db.len() as int));
    ImportPlan::Append { missing, db_len: db_entries.len() }
}

/// Rows in the order of their numbers, with `row` behind those that do not come
/// after it.
pub open spec fn with_row(
    rows: Seq<(i64, EntryView)>,
    row: (i64, EntryView),
) -> Seq<(i64, EntryView)>
    decreases rows.len(),
{
    if rows.len() == 0 || rows.last().0 <= row.0 {
        rows.push(row)
    } else {
        with_row(rows.drop_last(), row).push(rows.last())
    }
}

/// Rows in the order of their numbers.
pub open spec fn arranged(rows: Seq<(i64, EntryView)>) -> Seq<(i64, EntryView)>
    decreases rows.len(),
{
    if rows.len() == 0 {
        Seq::empty()
    } else {
        with_row(arranged(rows.drop_last()), rows.last())
    }
}

/// The first row that does not stand at the place of its number.
pub open spec fn misplaced(rows: Seq<(i64, EntryView)>, from: nat) -> Option<nat>
    decreases rows.len() - from,
{
    if from >= rows.len() {
        None
    } else if rows[from as int].0 != from {
        Some(from)
    } else {
        misplaced(rows, from + 1)
    }
}

/// The error of rows whose numbers are not 0, 1, 2 and so on.
pub open spec fn discontinuity(expected: nat, got: i64) -> Seq<char> {
    "seq discontinuity: expected seq "@ + decimal(expected) + ", got "@ + signed_decimal(got as int)
        + "; DB has gaps or duplicates that dedup cannot resolve"@
}

/// The history that numbered rows hold, or the error.
pub open spec fn history_of(rows: Seq<(i64, EntryView)>) -> Result<Seq<EntryView>, Seq<char>> {
    let sorted = arranged(rows);
    match misplaced(sorted, 0) {
        Some(at) => Err(discontinuity(at, sorted[at as int].0)),
        None => Ok(Seq::new(sorted.len(), |i: int| sorted[i].1)),
    }
}

/// The models of rows.
pub open spec fn row_views(rows: Seq<(i64, SessionEntry)>) -> Seq<(i64, EntryView)> {
    Seq::new(rows.len(), |i: int| (rows[i].0, rows[i].1.deep_view()))
}

/// A result as its model.
pub open spec fn history_result(r: Result<Vec<SessionEntry>, String>) -> Result<
    Seq<EntryView>,
    Seq<char>,
> {
    match r {
        Ok(entries) => Ok(entry_views(entries@)),
        Err(error) => Err(error@),
    }
}

proof fn lemma_with_row_len(rows: Seq<(i64, EntryView)>, row: (i64, EntryView))
    ensures
        with_row(rows, row).len() == rows.len() + 1,
    decreases rows.len(),
{
    if !(rows.len() == 0 || rows.last().0 <= row.0) {
        lemma_with_row_len(rows.drop_last(), row);
    }
}

proof fn lemma_with_row_at(rows: Seq<(i64, EntryView)>, row: (i64, EntryView), at: int)
    requires
        0 <= at <= rows.len(),
        at == 0 || rows[at - 1].0 <= row.0,
        forall|i: int| at <= i < rows.len() ==> (#[trigger] rows[i]).0 > row.0,
    ensures
        with_row(rows, row) == rows.insert(at, row),
    decreases rows.len(),
{
    if at < rows.len() {
        let head = rows.drop_last();
        assert(rows[rows.len() - 1].0 > row.0);
        assert(at == 0 || head[at - 1] == rows[at - 1]);
        lemma_with_row_at(head, row, at);
        assert(with_row(rows, row) =~= rows.insert(at, row));
    } else {
        if rows.len() > 0 {
            assert(rows.last() == rows[at - 1]);
        }
        assert(rows.push(row) =~= rows.insert(at, row));
    }
}

/// The places of rows, in the order of their numbers.
fn arrange(rows: &[(i64, SessionEntry)]) -> (r: Vec<usize>)
    ensures
        r@.len() == rows@.len(),
        forall|k: int| 0 <= k < r@.len() ==> (#[trigger] r@[k]) < rows@.len(),
        arranged(row_views(rows@)) == Seq::new(r@.len(), |k: int| row_views(rows@)[r@[k] as int]),
{
    let ghost views = row_views(rows@);
    let mut places: Vec<usize> = Vec::new();
    let mut i: usize = 0;
    assert(views.take(0) =~= Seq::empty());
    assert(arranged(views.take(0)) =~= Seq::new(
        places@.len(),
        |k: int| views[places@[k] as int],
    ));
    while i < rows.len()
        invariant
            i <= rows@.len(),
            views == row_views(rows@),
            places@.len() == i,
            forall|k: int| 0 <= k < places@.len() ==> (#[trigger] places@[k]) < rows@.len(),
            arranged(views.take(i as int)) == Seq::new(
                places@.len(),
                |k: int| views[places@[k] as int],
            ),
        decreases rows@.len() - i,
    {
        let ghost sorted = arranged(views.take(i as int));
        let ghost row = views[i as int];
        let mut at: usize = places.len();
        while at > 0 && rows[places[at - 1]].0 > rows[i].0
            invariant
                i < rows@.len(),
                at <= places@.len() == i,
                views == row_views(rows@),
                row == views[i as int],
                forall|k: int| 0 <= k < places@.len() ==> (#[trigger] places@[k]) < rows@.len(),
                sorted == Seq::new(places@.len(), |k: int| views[places@[k] as int]),
                forall|k: int| at <= k < sorted.len() ==> (#[trigger] sorted[k]).0 > row.0,
            decreases at,
        {
            assert(sorted[at - 1] == views[places@[at - 1] as int]);
            at -= 1;
        }
        let ghost before = places@;
        places.insert(at, i);
        proof {
            assert(at == 0 || sorted[at - 1] == views[before[at - 1] as int]);
            lemma_with_row_at(sorted, row, at as int);
            let head = views.take(i + 1);
            assert(head.drop_last() =~= views.take(i as int));
            assert(head.last() == row);
            assert(places@ =~= before.insert(at as int, i));
            assert(arranged(head) =~= Seq::new(
                places@.len(),
                |k: int| views[places@[k] as int],
            ));
        }
        i += 1;
    }
    assert(views.take(views.len() as int) =~= views);
    places
}

/// The history that numbered rows hold: the numbers have to be 0, 1, 2 and so
/// on, in whatever order the rows come.
pub fn entries_in_seq_order(entries: &[(i64, SessionEntry)]) -> (r: Result<
    Vec<SessionEntry>,
    String,
>)
    ensures
        history_result(r) == history_of(row_views(entries@)),
{
    let ghost views = row_views(entries@);
    let ghost sorted = arranged(views);
    let places = arrange(entries);
    let mut history: Vec<SessionEntry> = Vec::new();
    let mut i: usize = 0;
    while i < places.len()
        invariant
            i <= places@.len() == entries@.len(),
            views == row_views(entries@),
            forall|k: int| 0 <= k < places@.len() ==> (#[trigger] places@[k]) < entries@.len(),
            sorted == Seq::new(places@.len(), |k: int| views[places@[k] as int]),
            sorted == arranged(views),
            misplaced(sorted, 0) == misplaced(sorted, i as nat),
            entry_views(history@) == Seq::new(i as nat, |k: int| sorted[k].1),
        decreases places@.len() - i,
    {
        let place: usize = places[i];
        let seq: i64 = entries[place].0;
        assert(sorted[i as int] == views[place as int]);
        if seq < 0 || seq as u64 != i as u64 {
            let mut error = "seq discontinuity: expected seq ".to_owned();
            error.push_str(decimal_text(i as u64).as_str());
            error.push_str(", got ");
            error.push_str(signed_text(seq).as_str());
            error.push_str("; DB has gaps or duplicates that dedup cannot resolve");
            assert(error@ =~= discontinuity(i as nat, seq));
            return Err(error);
        }
        let ghost before = entry_views(history@);
        let entry = entries[place].1.clone();
        history.push(entry);
        i += 1;
        assert(entry_views(history@) =~= before.push(entry.deep_view()));
        assert(entry_views(history@) =~= Seq::new(i as nat, |k: int| sorted[k].1));
    }
    Ok(history)
}

/// How the program is called.
pub const USAGE: &'static str =
    "usage: e-agent-import-jsonl --session ID [--workspace PATH] [--conn CONN] [--dry-run]\n\nImport a JSONL session file into GreptimeDB incrementally.\nOnly appends entries that do not yet exist; refuses any\ndivergence or truncation.\n\n--session ID              Session name (required, must match [a-zA-Z0-9_-]+)\n--workspace PATH          Workspace root (default: current directory)\n--conn CONN               GreptimeDB pg-wire connection string\n                          (default: from config [session] backend)\n--dry-run                 Print what would be done without inserting rows.\n                          NOTE: still connects to DB which may CREATE TABLE.\n--help                    Show this help\n\nThe target session must be IDLE during import. Partial commits\nacross large chunks (>9000 entries) are possible; fix the issue\nand re-run.";

/// The refusal of a switch that no longer exists.
pub const REMOVED_SWITCH: &'static str =
    "--replace-divergent-tail has been removed; cross-process wall-clock timestamps cannot safely shadow old entries. If your DB diverges from JSONL, start a new session or diagnose manually.";

/// The arguments of an import.
#[derive(Debug, PartialEq)]
pub struct Args {
    pub workspace: String,
    pub session: String,
    /// The connection, where one is given.
    pub conn: Option<String>,
    /// Nothing is written.
    pub dry_run: bool,
}

/// Model of [`Args`].
#[verifier::ext_equal]
pub struct ArgsView {
    pub workspace: Seq<char>,
    pub session: Seq<char>,
    pub conn: Option<Seq<char>>,
    pub dry_run: bool,
}

impl DeepView for Args {
    type V = ArgsView;

    open spec fn deep_view(&self) -> ArgsView {
        ArgsView {
            workspace: self.workspace@,
            session: self.session@,
            conn: self.conn.deep_view(),
            dry_run: self.dry_run,
        }
    }
}

/// Why arguments give no import.
#[derive(Debug, PartialEq)]
pub enum ArgsError {
    /// Help was asked for.
    Help,
    /// The arguments are wrong.
    Invalid { error: String },
}

/// Model of an [`ArgsError`].
#[verifier::ext_equal]
pub enum ArgsErrorView {
    Help,
    Invalid { error: Seq<char> },
}

/// A result as its model.
pub open spec fn args_result(r: Result<Args, ArgsError>) -> Result<ArgsView, ArgsErrorView> {
    match r {
        Ok(args) => Ok(args.deep_view()),
        Err(ArgsError::Help) => Err(ArgsErrorView::Help),
        Err(ArgsError::Invalid { error }) => Err(ArgsErrorView::Invalid { error: error@ }),
    }
}

/// What was read of the arguments so far.
#[verifier::ext_equal]
pub struct Given {
    pub workspace: Option<Seq<char>>,
    pub session: Option<Seq<char>>,
    pub conn: Option<Seq<char>>,
    pub dry_run: bool,
}

/// What the arguments give, on top of what was read before, or the error. Of two
/// values of one switch the later counts.
pub open spec fn given(raw: Seq<Seq<char>>, before: Given) -> Result<Given, Seq<char>>
    decreases raw.len(),
{
    if raw.len() == 0 {
        Ok(before)
    } else if raw[0] == "--workspace"@ {
        if raw.len() < 2 {
            Err("--workspace requires a value"@)
        } else {
            given(raw.skip(2), Given { workspace: Some(raw[1]), ..before })
        }
    } else if raw[0] == "--session"@ {
        if raw.len() < 2 {
            Err("--session requires a value"@)
        } else {
            given(raw.skip(2), Given { session: Some(raw[1]), ..before })
        }
    } else if raw[0] == "--conn"@ {
        if raw.len() < 2 {
            Err("--conn requires a value"@)
        } else {
            given(raw.skip(2), Given { conn: Some(raw[1]), ..before })
        }
    } else if raw[0] == "--dry-run"@ {
        given(raw.skip(1), Given { dry_run: true, ..before })
    } else if raw[0] == "--replace-divergent-tail"@ {
        Err(REMOVED_SWITCH@)
    } else {
        Err("unexpected argument: "@ + raw[0])
    }
}

/// Whether the arguments ask for help: none do, too.
pub open spec fn asks_for_help(raw: Seq<Seq<char>>) -> bool {
    raw.len() == 0 || exists|i: int|
        0 <= i < raw.len() && (#[trigger] raw[i] == "--help"@ || raw[i] == "-h"@)
}

/// The arguments of an import. Without a workspace it is the current directory.
pub open spec fn args_of(raw: Seq<Seq<char>>, current: Seq<char>) -> Result<
    ArgsView,
    ArgsErrorView,
> {
    if asks_for_help(raw) {
        Err(ArgsErrorView::Help)
    } else {
        match given(
            raw,
            Given { workspace: None, session: None, conn: None, dry_run: false },
        ) {
            Err(error) => Err(ArgsErrorView::Invalid { error }),
            Ok(all) => match all.session {
                None => Err(ArgsErrorView::Invalid { error: "--session is required"@ }),
                Some(session) => Ok(
                    ArgsView {
                        workspace: match all.workspace {
                            Some(workspace) => workspace,
                            None => current,
                        },
                        session,
                        conn: all.conn,
                        dry_run: all.dry_run,
                    },
                ),
            },
        }
    }
}

fn invalid(error: &str) -> (r: Result<Args, ArgsError>)
    ensures
        args_result(r) == Err::<ArgsView, ArgsErrorView>(
            ArgsErrorView::Invalid { error: error@ },
        ),
{
    Err(ArgsError::Invalid { error: error.to_owned() })
}

/// Whether the arguments ask for help.
fn wants_help(raw: &[String]) -> (r: bool)
    ensures
        r == asks_for_help(raw.deep_view()),
{
    let ghost views = raw.deep_view();
    assert(views.len() == raw@.len());
    if raw.len() == 0 {
        return true;
    }
    let mut i: usize = 0;
    while i < raw.len()
        invariant
            i <= raw@.len(),
            views == raw.deep_view(),
            views.len() == raw@.len(),
            forall|k: int| 0 <= k < i ==> #[trigger] views[k] != "--help"@ && views[k] != "-h"@,
        decreases raw@.len() - i,
    {
        assert(views[i as int] == raw@[i as int]@);
        if same_text(raw[i].as_str(), "--help") || same_text(raw[i].as_str(), "-h") {
            return true;
        }
        i += 1;
    }
    false
}

/// The arguments of an import. Without a workspace it is the directory
/// `current`.
pub fn parse_args_from(raw: &[String], current: &str) -> (r: Result<Args, ArgsError>)
    ensures
        args_result(r) == args_of(raw.deep_view(), current@),
{
    if wants_help(raw) {
        return Err(ArgsError::Help);
    }
    let ghost views = raw.deep_view();
    assert(views.len() == raw@.len());
    let ghost nothing = Given { workspace: None, session: None, conn: None, dry_run: false };
    let mut workspace: Option<String> = None;
    let mut session: Option<String> = None;
    let mut conn: Option<String> = None;
    let mut dry_run = false;
    let mut i: usize = 0;
    assert(views.skip(0) =~= views);
    while i < raw.len()
        invariant
            i <= raw@.len(),
            views == raw.deep_view(),
            views.len() == raw@.len(),
            !asks_for_help(views),
            given(views, nothing) == given(
                views.skip(i as int),
                Given {
                    workspace: workspace.deep_view(),
                    session: session.deep_view(),
                    conn: conn.deep_view(),
                    dry_run,
                },
            ),
            nothing == (Given { workspace: None, session: None, conn: None, dry_run: false }),
        decreases raw@.len() - i,
    {
        proof {
            let rest = views.skip(i as int);
            assert(rest[0] == views[i as int] && views[i as int] == raw@[i as int]@);
            assert(rest.skip(1) =~= views.skip(i + 1));
            if rest.len() > 1 {
                assert(rest[1] == views[i + 1] && views[i + 1] == raw@[i + 1]@);
                assert(rest.skip(2) =~= views.skip(i + 2));
            }
        }
        let last = i == raw.len() - 1;
        if same_text(raw[i].as_str(), "--workspace") {
            if last {
                return invalid("--workspace requires a value");
            }
            workspace = Some(raw[i + 1].clone());
            i += 2;
        } else if same_text(raw[i].as_str(), "--session") {
            if last {
                return invalid("--session requires a value");
            }
            session = Some(raw[i + 1].clone());
            i += 2;
        } else if same_text(raw[i].as_str(), "--conn") {
            if last {
                return invalid("--conn requires a value");
            }
            conn = Some(raw[i + 1].clone());
            i += 2;
        } else if same_text(raw[i].as_str(), "--dry-run") {
            dry_run = true;
            i += 1;
        } else if same_text(raw[i].as_str(), "--replace-divergent-tail") {
            return invalid(REMOVED_SWITCH);
        } else {
            let mut error = "unexpected argument: ".to_owned();
            error.push_str(raw[i].as_str());
            return invalid(error.as_str());
        }
    }
    match session {
        None => invalid("--session is required"),
        Some(session) => {
            let workspace = match workspace {
                Some(workspace) => workspace,
                None => current.to_owned(),
            };
            Ok(Args { workspace, session, conn, dry_run })
        },
    }
}

/// A character that a session name may hold.
pub open spec fn name_char(c: char) -> bool {
    ('a' <= c && c <= 'z') || ('A' <= c && c <= 'Z') || ('0' <= c && c <= '9') || c == '_' || c
        == '-'
}

/// Whether a text can name a session.
pub open spec fn session_name(name: Seq<char>) -> bool {
    name.len() > 0 && forall|i: int| 0 <= i < name.len() ==> name_char(#[trigger] name[i])
}

/// Whether a text can name a session.
pub fn is_session_name(name: &str) -> (r: bool)
    ensures
        r == session_name(name@),
{
    let chars = chars_of(name);
    if chars.len() == 0 {
        return false;
    }
    let mut i: usize = 0;
    while i < chars.len()
        invariant
            i <= chars@.len(),
            chars@ == name@,
            forall|k: int| 0 <= k < i ==> name_char(#[trigger] name@[k]),
        decreases chars@.len() - i,
    {
        let c = chars[i];
        if !(('a' <= c && c <= 'z') || ('A' <= c && c <= 'Z') || ('0' <= c && c <= '9') || c == '_'
            || c == '-') {
            assert(!name_char(name@[i as int]));
            return false;
        }
        i += 1;
    }
    true
}

/// The text file of a session.
pub open spec fn jsonl_path(workspace: Seq<char>, session: Seq<char>) -> Seq<char> {
    joined_path(joined_path(workspace, ".e-agent/sessions"@), session + ".jsonl"@)
}

/// The text file of a session.
pub fn session_file(workspace: &str, session: &str) -> (r: String)
    ensures
        r@ == jsonl_path(workspace@, session@),
{
    let mut name = session.to_owned();
    name.push_str(".jsonl");
    join_path(join_path(workspace, ".e-agent/sessions").as_str(), name.as_str())
}

/// The refusal where the text file is missing.
pub fn missing_file(path: &str) -> (r: String)
    ensures
        r@ == "JSONL session file not found: "@ + path@
            + "; only .e-agent/sessions/<id>.jsonl is supported (no legacy .json)"@,
{
    let mut error = "JSONL session file not found: ".to_owned();
    error.push_str(path);
    error.push_str("; only .e-agent/sessions/<id>.jsonl is supported (no legacy .json)");
    error
}

/// The refusal of a session in the old format.
pub fn legacy_session(session: &str) -> (r: String)
    ensures
        r@ == "session '"@ + session@
            + "' is in legacy JSON format; launch e-agent once to migrate it before importing"@,
{
    let mut error = "session '".to_owned();
    error.push_str(session);
    error.push_str(
        "' is in legacy JSON format; launch e-agent once to migrate it before importing",
    );
    error
}

/// The refusal where no connection is known.
pub const NO_CONNECTION: &'static str =
    "no config file found and --conn not provided; create ~/.config/e-agent/config.toml with a [session] section or pass --conn";

/// The connection of an import: the one that is given, else the one of the
/// configuration. `described` is the configured storage as text.
pub fn connection(
    given: Option<&str>,
    configured: Option<&SessionBackend>,
    described: &str,
) -> (r: Result<String, String>)
    ensures
        match given {
            Some(conn) => r matches Ok(text) && text@ == conn@,
            None => match configured.deep_view() {
                None => r matches Err(error) && error@ == NO_CONNECTION@,
                Some(BackendView::Greptime { conn }) => r matches Ok(text) && text@ == conn,
                Some(_) => r matches Err(error) && error@ == "config [session] backend is '"@
                    + described@ + "', not 'greptime'; provide --conn to override"@,
            },
        },
{
    if let Some(conn) = given {
        return Ok(conn.to_owned());
    }
    match configured {
        None => Err(NO_CONNECTION.to_owned()),
        Some(SessionBackend::Greptime { conn }) => Ok(conn.clone()),
        Some(_) => {
            let mut error = "config [session] backend is '".to_owned();
            error.push_str(described);
            error.push_str("', not 'greptime'; provide --conn to override");
            Err(error)
        },
    }
}

/// What an import does next.
#[derive(Debug, PartialEq)]
pub enum ImportAction {
    /// The import is refused.
    Refuse { error: String },
    /// There is nothing to write.
    Finish,
    /// The database is read again; [`confirm_import`] says whether the entries
    /// from `from` on may be appended.
    Recheck { from: usize },
}

/// Model of an [`ImportAction`].
#[verifier::ext_equal]
pub enum ImportActionView {
    Refuse { error: Seq<char> },
    Finish,
    Recheck { from: nat },
}

impl DeepView for ImportAction {
    type V = ImportActionView;

    open spec fn deep_view(&self) -> ImportActionView {
        match self {
            ImportAction::Refuse { error } => ImportActionView::Refuse { error: error@ },
            ImportAction::Finish => ImportActionView::Finish,
            ImportAction::Recheck { from } => ImportActionView::Recheck { from: *from as nat },
        }
    }
}

/// The refusal of a database that holds more than the file.
pub open spec fn longer_error(db_len: nat, jsonl_len: nat) -> Seq<char> {
    "DB has "@ + decimal(db_len) + " entries but JSONL has only "@ + decimal(jsonl_len)
        + "; refusing to truncate"@
}

/// The refusal of a database that differs from the file.
pub open spec fn diverged_error(at: nat) -> Seq<char> {
    "DB and JSONL diverge at entry "@ + decimal(at)
        + "; refusing to import mismatched prefix.\nThis tool can only append (no repair). Start a new session or diagnose the divergence manually.\nIf you have a divergent last entry, note that --replace-divergent-tail has been removed as unsafe."@
}

/// What an import does about a plan, and what the user is told.
pub open spec fn import_step(plan: ImportView, db_len: nat, dry_run: bool) -> (
    Seq<Seq<char>>,
    ImportActionView,
) {
    match plan {
        ImportView::DbLonger { db_len, jsonl_len } => (
            Seq::empty(),
            ImportActionView::Refuse { error: longer_error(db_len, jsonl_len) },
        ),
        ImportView::Diverged { at } => (
            Seq::empty(),
            ImportActionView::Refuse { error: diverged_error(at) },
        ),
        ImportView::Unchanged => (
            seq!["unchanged — all "@ + decimal(db_len) + " entries already present in DB"@],
            ImportActionView::Finish,
        ),
        ImportView::Append { missing, db_len: from } => {
            let told = "append: "@ + decimal(missing.len()) + " entries (positions "@ + decimal(
                from,
            ) + ".."@ + decimal(from + missing.len()) + ")"@;
            if dry_run {
                (
                    seq![
                        told,
                        "dry-run: would append "@ + decimal(missing.len())
                            + " entries, not writing. (Connection established — CREATE TABLE may have been executed.)"@,
                    ],
                    ImportActionView::Finish,
                )
            } else {
                (seq![told], ImportActionView::Recheck { from })
            }
        },
    }
}

/// Compare the database with the file, and say what is done about it and what
/// the user is told.
pub fn begin_import(db_entries: &[SessionEntry], jsonl_entries: &[SessionEntry], dry_run: bool) -> (
r: (Vec<String>, ImportAction))
    ensures
        (r.0.deep_view(), r.1.deep_view()) == import_step(
            import_plan(entry_views(db_entries@), entry_views(jsonl_entries@)),
            db_entries@.len(),
            dry_run,
        ),
{
    let mut lines: Vec<String> = Vec::new();
    match plan_import(db_entries, jsonl_entries) {
        ImportPlan::DbLonger { db_len, jsonl_len } => {
            let mut error = "DB has ".to_owned();
            error.push_str(decimal_text(db_len as u64).as_str());
            error.push_str(" entries but JSONL has only ");
            error.push_str(decimal_text(jsonl_len as u64).as_str());
            error.push_str("; refusing to truncate");
            assert(error@ =~= longer_error(db_len as nat, jsonl_len as nat));
            assert(lines.deep_view() =~= Seq::empty());
            (lines, ImportAction::Refuse { error })
        },
        ImportPlan::Diverged { at } => {
            let mut error = "DB and JSONL diverge at entry ".to_owned();
            error.push_str(decimal_text(at as u64).as_str());
            error.push_str(
                "; refusing to import mismatched prefix.\nThis tool can only append (no repair). Start a new session or diagnose the divergence manually.\nIf you have a divergent last entry, note that --replace-divergent-tail has been removed as unsafe.",
            );
            assert(error@ =~= diverged_error(at as nat));
            assert(lines.deep_view() =~= Seq::empty());
            (lines, ImportAction::Refuse { error })
        },
        ImportPlan::Unchanged => {
            let mut line = "unchanged — all ".to_owned();
            line.push_str(decimal_text(db_entries.len() as u64).as_str());
            line.push_str(" entries already present in DB");
            lines.push(line);
            assert(lines.deep_view() =~= seq![line@]);
            (lines, ImportAction::Finish)
        },
        ImportPlan::Append { missing, db_len } => {
            let mut line = "append: ".to_owned();
            line.push_str(decimal_text(missing.len() as u64).as_str());
            line.push_str(" entries (positions ");
            line.push_str(decimal_text(db_len as u64).as_str());
            line.push_str("..");
            line.push_str(decimal_text(jsonl_entries.len() as u64).as_str());
            line.push_str(")");
            let ghost told = line@;
            lines.push(line);
            if dry_run {
                let mut note = "dry-run: would append ".to_owned();
                note.push_str(decimal_text(missing.len() as u64).as_str());
                note.push_str(
                    " entries, not writing. (Connection established — CREATE TABLE may have been executed.)",
                );
                let ghost noted = note@;
                lines.push(note);
                assert(lines.deep_view() =~= seq![told, noted]);
                (lines, ImportAction::Finish)
            } else {
                assert(lines.deep_view() =~= seq![told]);
                (lines, ImportAction::Recheck { from: db_len })
            }
        },
    }
}

/// The error where the database changed between two reads.
pub open spec fn changed_error(before: nat, after: nat) -> Seq<char> {
    "DB changed between initial read and pre-write check ("@ + decimal(before) + " entries vs "@
        + decimal(after)
        + "). Target session may not be idle. Re-run when session is idle."@
}

/// Whether two histories are the same.
fn same_history(a: &[SessionEntry], b: &[SessionEntry]) -> (r: bool)
    ensures
        r == (entry_views(a@) == entry_views(b@)),
{
    let ghost x = entry_views(a@);
    let ghost y = entry_views(b@);
    if a.len() != b.len() {
        assert(x.len() != y.len());
        return false;
    }
    let mut i: usize = 0;
    while i < a.len()
        invariant
            i <= a@.len() == b@.len(),
            x == entry_views(a@),
            y == entry_views(b@),
            forall|k: int| 0 <= k < i ==> x[k] == y[k],
        decreases a@.len() - i,
    {
        if !a[i].same(&b[i]) {
            assert(x[i as int] != y[i as int]);
            return false;
        }
        i += 1;
    }
    assert(x =~= y);
    true
}

/// Whether the missing entries may be appended: the database still holds what it
/// held. The number that the next row gets, or the error.
pub fn confirm_import(db_entries: &[SessionEntry], check: &[(i64, SessionEntry)]) -> (r: Result<
    usize,
    String,
>)
    ensures
        match history_of(row_views(check@)) {
            Err(error) => r matches Err(text) && text@
                == "DB seq continuity check failed before write (TOCTOU): "@ + error,
            Ok(history) => if history == entry_views(db_entries@) {
                r matches Ok(next) && next == history.len()
            } else {
                r matches Err(text) && text@ == changed_error(db_entries@.len(), history.len())
            },
        },
{
    match entries_in_seq_order(check) {
        Err(error) => {
            let mut text = "DB seq continuity check failed before write (TOCTOU): ".to_owned();
            text.push_str(error.as_str());
            Err(text)
        },
        Ok(history) => {
            if same_history(history.as_slice(), db_entries) {
                return Ok(history.len());
            }
            let mut text = "DB changed between initial read and pre-write check (".to_owned();
            text.push_str(decimal_text(db_entries.len() as u64).as_str());
            text.push_str(" entries vs ");
            text.push_str(decimal_text(history.len() as u64).as_str());
            text.push_str("). Target session may not be idle. Re-run when session is idle.");
            assert(text@ =~= changed_error(db_entries@.len(), history@.len()));
            Err(text)
        },
    }
}

/// The error where the database holds another number of entries than expected.
pub open spec fn length_error(got: nat, expected: nat) -> Seq<char> {
    "verification FAILED: reloaded DB has "@ + decimal(got) + " entries, expected "@ + decimal(
        expected,
    )
        + "; partial commit may have occurred. Fix the issue, ensure session is idle, and re-run."@
}

/// The error where an entry of the database is not the one of the file.
pub open spec fn content_error(at: nat) -> Seq<char> {
    "verification FAILED at position "@ + decimal(at)
        + ": DB entry content differs from JSONL; partial commit may have occurred. Fix the issue and re-run."@
}

/// Whether reloaded rows are exactly the expected history, or the error.
pub open spec fn verified(rows: Seq<(i64, EntryView)>, expected: Seq<EntryView>) -> Result<
    (),
    Seq<char>,
> {
    match history_of(rows) {
        Err(error) => Err(
            "verification FAILED — "@ + error
                + "; partial commit may have occurred. Fix the issue and re-run."@,
        ),
        Ok(got) => if got.len() != expected.len() {
            Err(length_error(got.len(), expected.len()))
        } else if common_len(got, expected) < got.len() {
            Err(content_error(common_len(got, expected)))
        } else {
            Ok(())
        },
    }
}

/// Whether reloaded rows are exactly the expected history.
pub fn verify_db_matches(reloaded: &[(i64, SessionEntry)], expected: &[SessionEntry]) -> (r: Result<
    (),
    String,
>)
    ensures
        match r {
            Ok(_) => verified(row_views(reloaded@), entry_views(expected@)) == Ok::<(), Seq<char>>(
                (),
            ),
            Err(error) => verified(row_views(reloaded@), entry_views(expected@)) == Err::<
                (),
                Seq<char>,
            >(error@),
        },
{
    let got = match entries_in_seq_order(reloaded) {
        Ok(got) => got,
        Err(error) => {
            let mut text = "verification FAILED — ".to_owned();
            text.push_str(error.as_str());
            text.push_str("; partial commit may have occurred. Fix the issue and re-run.");
            return Err(text);
        },
    };
    if got.len() != expected.len() {
        let mut text = "verification FAILED: reloaded DB has ".to_owned();
        text.push_str(decimal_text(got.len() as u64).as_str());
        text.push_str(" entries, expected ");
        text.push_str(decimal_text(expected.len() as u64).as_str());
        text.push_str(
            "; partial commit may have occurred. Fix the issue, ensure session is idle, and re-run.",
        );
        assert(text@ =~= length_error(got@.len(), expected@.len()));
        return Err(text);
    }
    let ghost left = entry_views(got@);
    let ghost right = entry_views(expected@);
    let mut i: usize = 0;
    while i < got.len()
        invariant
            i <= got@.len() == expected@.len(),
            left == entry_views(got@),
            right == entry_views(expected@),
            history_of(row_views(reloaded@)) == Ok::<Seq<EntryView>, Seq<char>>(left),
            forall|k: int| 0 <= k < i ==> left[k] == right[k],
        decreases got@.len() - i,
    {
        if !got[i].same(&expected[i]) {
            proof {
                lemma_common_len(left, right, i as int);
            }
            let mut text = "verification FAILED at position ".to_owned();
            text.push_str(decimal_text(i as u64).as_str());
            text.push_str(
                ": DB entry content differs from JSONL; partial commit may have occurred. Fix the issue and re-run.",
            );
            assert(text@ =~= content_error(i as nat));
            return Err(text);
        }
        i += 1;
    }
    proof {
        lemma_common_len(left, right, left.len() as int);
    }
    Ok(())
}

/// What the user is told of a finished import.
pub fn imported_line(missing: usize, total: usize) -> (r: String)
    ensures
        r@ == "appended "@ + decimal(missing as nat) + " entries — DB now matches JSONL ("@
            + decimal(total as nat) + " entries)"@,
{
    let mut line = "appended ".to_owned();
    line.push_str(decimal_text(missing as u64).as_str());
    line.push_str(" entries — DB now matches JSONL (");
    line.push_str(decimal_text(total as u64).as_str());
    line.push_str(" entries)");
    line
}

/// What an import appends makes the database the file, and a second import then
/// finds nothing to do.
pub proof fn imports_are_idempotent(db: Seq<EntryView>, jsonl: Seq<EntryView>)
    ensures
        import_plan(db, jsonl) matches ImportView::Append { missing, db_len } ==> db + missing
            == jsonl && db_len == db.len() && missing.len() > 0 && import_plan(db + missing, jsonl)
            == ImportView::Unchanged,
        import_plan(db, jsonl) is Unchanged <==> db == jsonl,
{
    lemma_common_prefix(db, jsonl);
    if db.len() <= jsonl.len() && common_len(db, jsonl) == db.len() {
        assert(db.take(db.len() as int) =~= db);
        assert(db + jsonl.skip(db.len() as int) =~= jsonl);
    }
    lemma_common_len(jsonl, jsonl, jsonl.len() as int);
}

/// Nothing is ever written over: a database that is not the beginning of the
/// file is refused.
pub proof fn only_prefixes_are_added_to(db: Seq<EntryView>, jsonl: Seq<EntryView>)
    ensures
        (import_plan(db, jsonl) is Append || import_plan(db, jsonl) is Unchanged)
            <==> db.is_prefix_of(jsonl),
        import_plan(db, jsonl) matches ImportView::Diverged { at } ==> at < db.len() && db.take(
            at as int,
        ) == jsonl.take(at as int) && db[at as int] != jsonl[at as int],
{
    lemma_common_prefix(db, jsonl);
    let n = common_len(db, jsonl) as int;
    if db.is_prefix_of(jsonl) {
        assert forall|i: int| 0 <= i < db.len() implies db[i] == jsonl[i] by {
            assert(db[i] == jsonl.subrange(0, db.len() as int)[i]);
        }
        lemma_common_len(db, jsonl, db.len() as int);
    }
    if db.len() <= jsonl.len() && n == db.len() {
        assert(db.take(n) =~= db);
        assert(jsonl.take(n) =~= jsonl.subrange(0, db.len() as int));
    }
    if db.len() <= jsonl.len() && n < db.len() && db[n] == jsonl[n] {
        assert forall|i: int| 0 <= i < n + 1 implies db[i] == jsonl[i] by {
            if i < n {
                assert(db.take(n)[i] == jsonl.take(n)[i]);
            }
        }
        lemma_common_len(db, jsonl, n + 1);
    }
}

proof fn lemma_misplaced(rows: Seq<(i64, EntryView)>, from: nat)
    ensures
        misplaced(rows, from) is None <==> forall|i: int|
            from <= i < rows.len() ==> (#[trigger] rows[i]).0 == i,
        misplaced(rows, from) matches Some(at) ==> from <= at < rows.len() && rows[at as int].0
            != at,
    decreases rows.len() - from,
{
    if from < rows.len() && rows[from as int].0 == from {
        lemma_misplaced(rows, from + 1);
        if misplaced(rows, from + 1) is None {
            assert forall|i: int| from <= i < rows.len() implies (#[trigger] rows[i]).0 == i by {
                if i > from {
                    assert(from + 1 <= i);
                }
            }
        }
    }
}

proof fn lemma_with_row_sorted(rows: Seq<(i64, EntryView)>, row: (i64, EntryView))
    requires
        forall|i: int, j: int|
            0 <= i <= j < rows.len() ==> (#[trigger] rows[i]).0 <= (#[trigger] rows[j]).0,
    ensures
        with_row(rows, row).len() == rows.len() + 1,
        forall|i: int, j: int|
            0 <= i <= j < rows.len() + 1 ==> (#[trigger] with_row(rows, row)[i]).0 <= (
            #[trigger] with_row(rows, row)[j]).0,
        with_row(rows, row).to_multiset() == rows.to_multiset().insert(row),
    decreases rows.len(),
{
    let whole = with_row(rows, row);
    lemma_with_row_len(rows, row);
    if rows.len() == 0 || rows.last().0 <= row.0 {
        assert forall|i: int, j: int| 0 <= i <= j < whole.len() implies (#[trigger] whole[i]).0 <= (
        #[trigger] whole[j]).0 by {
            if j == rows.len() && i < rows.len() {
                assert(rows[i].0 <= rows[rows.len() - 1].0);
            }
        }
        rows.to_multiset_ensures();
    } else {
        let head = rows.drop_last();
        let last = rows.last();
        lemma_with_row_sorted(head, row);
        let rest = with_row(head, row);
        assert(rows =~= head.push(last));
        head.to_multiset_ensures();
        rest.to_multiset_ensures();
        assert(whole.to_multiset() =~= rows.to_multiset().insert(row));
        assert forall|k: int| 0 <= k < rest.len() implies (#[trigger] rest[k]).0 <= last.0 by {
            rest.to_multiset_ensures();
            assert(rest.contains(rest[k]));
            assert(rest.to_multiset().count(rest[k]) > 0);
            if rest[k] != row {
                assert(head.to_multiset().count(rest[k]) > 0);
                assert(head.contains(rest[k]));
                let m = choose|m: int| 0 <= m < head.len() && head[m] == rest[k];
                assert(rows[m].0 <= rows[rows.len() - 1].0);
            }
        }
        assert forall|i: int, j: int| 0 <= i <= j < whole.len() implies (#[trigger] whole[i]).0 <= (
        #[trigger] whole[j]).0 by {
            if j < rest.len() {
                assert(rest[i].0 <= rest[j].0);
            } else if i < rest.len() {
                assert(rest[i].0 <= last.0);
            }
        }
    }
}

proof fn lemma_arranged(rows: Seq<(i64, EntryView)>)
    ensures
        arranged(rows).len() == rows.len(),
        forall|i: int, j: int|
            0 <= i <= j < rows.len() ==> (#[trigger] arranged(rows)[i]).0 <= (#[trigger] arranged(
                rows,
            )[j]).0,
        arranged(rows).to_multiset() == rows.to_multiset(),
    decreases rows.len(),
{
    if rows.len() > 0 {
        let head = rows.drop_last();
        lemma_arranged(head);
        lemma_with_row_sorted(arranged(head), rows.last());
        assert(rows =~= head.push(rows.last()));
        head.to_multiset_ensures();
    } else {
        assert(rows =~= Seq::empty());
    }
}

/// Whether the numbers of rows are 0, 1, 2 and so on, each once, in any order.
pub open spec fn numbered(rows: Seq<(i64, EntryView)>) -> bool {
    &&& forall|i: int| 0 <= i < rows.len() ==> 0 <= (#[trigger] rows[i]).0 < rows.len()
    &&& forall|i: int, j: int|
        0 <= i < j < rows.len() ==> (#[trigger] rows[i]).0 != (#[trigger] rows[j]).0
}

/// A history is rebuilt exactly where the numbers of its rows are 0, 1, 2 and so
/// on, and then every entry stands at the place of its number, in whatever order
/// the rows came.
pub proof fn histories_are_rebuilt(rows: Seq<(i64, EntryView)>)
    ensures
        history_of(rows) is Ok <==> numbered(rows),
        history_of(rows) matches Ok(history) ==> history.len() == rows.len() && forall|i: int|
            0 <= i < rows.len() ==> history[(#[trigger] rows[i]).0 as int] == rows[i].1,
{
    let sorted = arranged(rows);
    lemma_arranged(rows);
    lemma_misplaced(sorted, 0);
    rows.to_multiset_ensures();
    sorted.to_multiset_ensures();
    if history_of(rows) is Ok {
        let history = history_of(rows)->Ok_0;
        assert forall|i: int| 0 <= i < rows.len() implies 0 <= (#[trigger] rows[i]).0 < rows.len()
            && history[rows[i].0 as int] == rows[i].1 by {
            assert(rows.contains(rows[i]));
            assert(sorted.to_multiset().count(rows[i]) > 0);
            assert(sorted.contains(rows[i]));
            let k = choose|k: int| 0 <= k < sorted.len() && sorted[k] == rows[i];
            assert(sorted[k].0 == k);
        }
        assert forall|i: int, j: int| 0 <= i < j < rows.len() implies (#[trigger] rows[i]).0 != (
        #[trigger] rows[j]).0 by {
            if rows[i].0 == rows[j].0 {
                assert(rows[i].1 == rows[j].1);
                let e = rows[i];
                assert(rows.to_multiset().count(e) >= 2) by {
                    lemma_twice(rows, i, j);
                }
                lemma_once(sorted, e);
            }
        }
    }
    if numbered(rows) {
        assert forall|i: int, j: int| 0 <= i < j < sorted.len() implies (#[trigger] sorted[i]).0 < (
        #[trigger] sorted[j]).0 by {
            if sorted[i].0 == sorted[j].0 {
                assert(rows.to_multiset().count(sorted[i]) > 0);
                assert(rows.to_multiset().count(sorted[j]) > 0);
                assert(rows.contains(sorted[i]) && rows.contains(sorted[j]));
                let a = choose|a: int| 0 <= a < rows.len() && rows[a] == sorted[i];
                let b = choose|b: int| 0 <= b < rows.len() && rows[b] == sorted[j];
                if a < b {
                    assert(rows[a].0 != rows[b].0);
                } else if b < a {
                    assert(rows[b].0 != rows[a].0);
                } else {
                    lemma_twice(sorted, i, j);
                    lemma_once_of_distinct(rows, sorted[i]);
                }
            }
        }
        assert forall|i: int| 0 <= i < sorted.len() implies 0 <= (#[trigger] sorted[i]).0
            < sorted.len() by {
            assert(sorted.contains(sorted[i]));
            assert(rows.to_multiset().count(sorted[i]) > 0);
            assert(rows.contains(sorted[i]));
            let a = choose|a: int| 0 <= a < rows.len() && rows[a] == sorted[i];
            assert(0 <= rows[a].0 < rows.len());
        }
        lemma_increasing(sorted, 0);
    }
}

proof fn lemma_twice(rows: Seq<(i64, EntryView)>, i: int, j: int)
    requires
        0 <= i < j < rows.len(),
        rows[i] == rows[j],
    ensures
        rows.to_multiset().count(rows[i]) >= 2,
{
    let e = rows[i];
    let rest = rows.remove(j);
    rows.to_multiset_ensures();
    rest.to_multiset_ensures();
    assert(rest[i] == e);
    assert(rest.contains(e));
    assert(rest.to_multiset().count(e) > 0);
    assert(rest.insert(j, e) =~= rows);
    assert(rows.to_multiset() =~= rest.to_multiset().insert(e)) by {
        rows.to_multiset_ensures();
        assert(rows.remove(j).to_multiset() =~= rows.to_multiset().remove(rows[j]));
    }
}

proof fn lemma_once(rows: Seq<(i64, EntryView)>, e: (i64, EntryView))
    requires
        forall|i: int| 0 <= i < rows.len() ==> (#[trigger] rows[i]).0 == i,
    ensures
        rows.to_multiset().count(e) <= 1,
{
    assert forall|i: int, j: int| 0 <= i < j < rows.len() implies (#[trigger] rows[i]).0 != (
    #[trigger] rows[j]).0 by {}
    lemma_once_of_distinct(rows, e);
}

proof fn lemma_once_of_distinct(rows: Seq<(i64, EntryView)>, e: (i64, EntryView))
    requires
        forall|i: int, j: int|
            0 <= i < j < rows.len() ==> (#[trigger] rows[i]).0 != (#[trigger] rows[j]).0,
    ensures
        rows.to_multiset().count(e) <= 1,
    decreases rows.len(),
{
    rows.to_multiset_ensures();
    if rows.len() > 0 {
        let head = rows.drop_last();
        assert(rows =~= head.push(rows.last()));
        head.to_multiset_ensures();
        assert forall|i: int, j: int| 0 <= i < j < head.len() implies (#[trigger] head[i]).0 != (
        #[trigger] head[j]).0 by {
            assert(rows[i] == head[i] && rows[j] == head[j]);
        }
        lemma_once_of_distinct(head, e);
        if rows.last() == e && head.to_multiset().count(e) > 0 {
            assert(head.contains(e));
            let k = choose|k: int| 0 <= k < head.len() && head[k] == e;
            assert(rows[k].0 != rows[rows.len() - 1].0);
        }
    }
}

proof fn lemma_increasing(rows: Seq<(i64, EntryView)>, from: int)
    requires
        0 <= from <= rows.len(),
        forall|i: int, j: int|
            0 <= i < j < rows.len() ==> (#[trigger] rows[i]).0 < (#[trigger] rows[j]).0,
        forall|i: int| 0 <= i < rows.len() ==> 0 <= (#[trigger] rows[i]).0 < rows.len(),
    ensures
        forall|i: int| from <= i < rows.len() ==> (#[trigger] rows[i]).0 == i,
    decreases rows.len() - from,
{
    if from < rows.len() {
        lemma_increasing(rows, from + 1);
        lemma_at_least(rows, from);
        if from + 1 < rows.len() {
            assert(rows[from].0 < rows[from + 1].0);
            assert(rows[from + 1].0 == from + 1);
        }
        assert forall|i: int| from <= i < rows.len() implies (#[trigger] rows[i]).0 == i by {}
    }
}

proof fn lemma_at_least(rows: Seq<(i64, EntryView)>, at: int)
    requires
        0 <= at < rows.len(),
        forall|i: int, j: int|
            0 <= i < j < rows.len() ==> (#[trigger] rows[i]).0 < (#[trigger] rows[j]).0,
        forall|i: int| 0 <= i < rows.len() ==> 0 <= (#[trigger] rows[i]).0,
    ensures
        rows[at].0 >= at,
    decreases at,
{
    if at > 0 {
        lemma_at_least(rows, at - 1);
        assert(rows[at - 1].0 < rows[at].0);
    }
}

proof fn lemma_switches_differ()
    ensures
        "--workspace"@ != "--session"@ && "--workspace"@ != "--conn"@ && "--workspace"@
            != "--dry-run"@ && "--workspace"@ != "--replace-divergent-tail"@,
        "--session"@ != "--conn"@ && "--session"@ != "--dry-run"@ && "--session"@
            != "--replace-divergent-tail"@,
        "--conn"@ != "--dry-run"@ && "--conn"@ != "--replace-divergent-tail"@,
        "--dry-run"@ != "--replace-divergent-tail"@,
{
    reveal_strlit("--workspace");
    reveal_strlit("--session");
    reveal_strlit("--conn");
    reveal_strlit("--dry-run");
    reveal_strlit("--replace-divergent-tail");
    assert("--workspace"@.len() == 11 && "--session"@.len() == 9 && "--conn"@.len() == 6
        && "--dry-run"@.len() == 9 && "--replace-divergent-tail"@.len() == 24);
    assert("--session"@[2] == 's' && "--dry-run"@[2] == 'd');
}

/// Switches are read one by one, each with its own value: what stands behind a
/// switch is what it gives, a later value counts before an earlier one, a value
/// that is missing is refused, and so is everything that is no switch.
pub proof fn switches_give_their_values(
    value: Seq<char>,
    rest: Seq<Seq<char>>,
    before: Given,
    other: Seq<char>,
)
    ensures
        given(seq!["--workspace"@, value] + rest, before) == given(
            rest,
            Given {
                workspace: Some(value),
                session: before.session,
                conn: before.conn,
                dry_run: before.dry_run,
            },
        ),
        given(seq!["--session"@, value] + rest, before) == given(
            rest,
            Given {
                workspace: before.workspace,
                session: Some(value),
                conn: before.conn,
                dry_run: before.dry_run,
            },
        ),
        given(seq!["--conn"@, value] + rest, before) == given(
            rest,
            Given {
                workspace: before.workspace,
                session: before.session,
                conn: Some(value),
                dry_run: before.dry_run,
            },
        ),
        given(seq!["--dry-run"@] + rest, before) == given(
            rest,
            Given {
                workspace: before.workspace,
                session: before.session,
                conn: before.conn,
                dry_run: true,
            },
        ),
        given(Seq::empty(), before) == Ok::<Given, Seq<char>>(before),
        given(seq!["--workspace"@], before) is Err,
        given(seq!["--session"@], before) is Err,
        given(seq!["--conn"@], before) is Err,
        other != "--workspace"@ && other != "--session"@ && other != "--conn"@ && other
            != "--dry-run"@ ==> given(seq![other] + rest, before) is Err,
{
    lemma_switches_differ();
    assert((seq!["--workspace"@, value] + rest).skip(2) =~= rest);
    assert((seq!["--session"@, value] + rest).skip(2) =~= rest);
    assert((seq!["--conn"@, value] + rest).skip(2) =~= rest);
    assert((seq!["--dry-run"@] + rest).skip(1) =~= rest);
    assert((seq![other] + rest)[0] == other);
}

/// An import goes by what its switches give: the session that has to be named, the
/// workspace or else the current directory, the connection, and whether it is dry.
/// Without arguments, or where help is asked for among them, it only helps.
pub proof fn imports_go_by_their_switches(raw: Seq<Seq<char>>, current: Seq<char>)
    ensures
        raw.len() == 0 || raw.contains("--help"@) || raw.contains("-h"@) ==> args_of(raw, current)
            == Err::<ArgsView, ArgsErrorView>(ArgsErrorView::Help),
        raw.len() > 0 && !raw.contains("--help"@) && !raw.contains("-h"@) ==> match given(
            raw,
            Given { workspace: None, session: None, conn: None, dry_run: false },
        ) {
            Err(error) => args_of(raw, current) == Err::<ArgsView, ArgsErrorView>(
                ArgsErrorView::Invalid { error },
            ),
            Ok(all) => if all.session is None {
                args_of(raw, current) == Err::<ArgsView, ArgsErrorView>(
                    ArgsErrorView::Invalid { error: "--session is required"@ },
                )
            } else {
                args_of(raw, current) == Ok::<ArgsView, ArgsErrorView>(
                    ArgsView {
                        workspace: if all.workspace is Some {
                            all.workspace->0
                        } else {
                            current
                        },
                        session: all.session->0,
                        conn: all.conn,
                        dry_run: all.dry_run,
                    },
                )
            },
        },
{
    if asks_for_help(raw) && raw.len() > 0 {
        let i = choose|i: int|
            0 <= i < raw.len() && (#[trigger] raw[i] == "--help"@ || raw[i] == "-h"@);
        assert(raw.contains(raw[i]));
    }
    if raw.contains("--help"@) {
        let i = choose|i: int| 0 <= i < raw.len() && raw[i] == "--help"@;
        assert(raw[i] == "--help"@);
    }
    if raw.contains("-h"@) {
        let i = choose|i: int| 0 <= i < raw.len() && raw[i] == "-h"@;
        assert(raw[i] == "-h"@);
    }
}

/// An import writes exactly where the database is a proper beginning of the file
/// and the run is not dry, and then from the first missing entry on. A database
/// that holds all of the file, and a dry run, end without writing; any other
/// database is refused.
pub proof fn imports_write_what_is_missing(
    db: Seq<EntryView>,
    jsonl: Seq<EntryView>,
    dry_run: bool,
)
    ensures
        ({
            let (lines, action) = import_step(import_plan(db, jsonl), db.len(), dry_run);
            &&& action is Recheck <==> db.is_prefix_of(jsonl) && db.len() < jsonl.len() && !dry_run
            &&& action matches ImportActionView::Recheck { from } ==> from == db.len() && db
                + jsonl.skip(from as int) == jsonl
            &&& action is Refuse <==> !db.is_prefix_of(jsonl)
            &&& db.is_prefix_of(jsonl) && (dry_run || db.len() == jsonl.len()) ==> action is Finish
            &&& db.len() > jsonl.len() ==> action == (ImportActionView::Refuse {
                error: longer_error(db.len(), jsonl.len()),
            })
        }),
{
    only_prefixes_are_added_to(db, jsonl);
    imports_are_idempotent(db, jsonl);
    if db.is_prefix_of(jsonl) {
        assert(jsonl.take(db.len() as int) == db);
        assert(db + jsonl.skip(db.len() as int) =~= jsonl);
    }
}

/// Reloaded rows are verified exactly where they hold the expected history: its
/// entries, all of them, in order.
pub proof fn only_the_expected_history_is_verified(
    rows: Seq<(i64, EntryView)>,
    expected: Seq<EntryView>,
)
    ensures
        verified(rows, expected) is Ok <==> history_of(rows) == Ok::<Seq<EntryView>, Seq<char>>(
            expected,
        ),
{
    if let Ok(got) = history_of(rows) {
        if got.len() == expected.len() {
            imports_are_idempotent(got, expected);
            lemma_common_fits(got, expected);
        }
    }
}

proof fn lemma_common_fits(a: Seq<EntryView>, b: Seq<EntryView>)
    ensures
        common_len(a, b) <= a.len(),
    decreases a.len(),
{
    if a.len() > 0 && b.len() > 0 && a[0] == b[0] {
        lemma_common_fits(a.drop_first(), b.drop_first());
    }
}

/// A session is named by letters, digits, `_` and `-`, at least one, and its file
/// stands below its workspace.
pub proof fn sessions_have_plain_names(workspace: Seq<char>, name: Seq<char>)
    ensures
        session_name(name) ==> name.len() > 0 && forall|i: int|
            0 <= i < name.len() ==> #[trigger] name[i] != '/' && name[i] != '.',
        name.len() > 0 && (forall|i: int|
            0 <= i < name.len() ==> ('a' <= #[trigger] name[i] && name[i] <= 'z') || ('0' <= name[i]
                && name[i] <= '9') || ('A' <= name[i] && name[i] <= 'Z') || name[i] == '-'
                || name[i] == '_') ==> session_name(name),
        jsonl_path(workspace, name) == joined_path(
            joined_path(workspace, ".e-agent/sessions"@),
            name + ".jsonl"@,
        ),
{
    if session_name(name) {
        assert forall|i: int| 0 <= i < name.len() implies #[trigger] name[i] != '/' && name[i]
            != '.' by {
            assert(name_char(name[i]));
        }
    }
}

/// Where an import is refused or fails, the error gives the numbers that tell what
/// happened.
pub proof fn refusals_give_the_numbers(
    db: Seq<EntryView>,
    jsonl: Seq<EntryView>,
    at: nat,
    got: nat,
)
    requires
        db.len() <= jsonl.len(),
        at < db.len(),
        db.take(at as int) == jsonl.take(at as int),
        db[at as int] != jsonl[at as int],
    ensures
        import_plan(db, jsonl) == (ImportView::Diverged { at }),
        longer_error(db.len(), got) == "DB has "@ + decimal(db.len())
            + " entries but JSONL has only "@ + decimal(got) + "; refusing to truncate"@,
{
    lemma_common_at(db, jsonl, at);
}

proof fn lemma_common_at(a: Seq<EntryView>, b: Seq<EntryView>, at: nat)
    requires
        at < a.len() && at < b.len(),
        a.take(at as int) == b.take(at as int),
        a[at as int] != b[at as int],
    ensures
        common_len(a, b) == at,
    decreases at,
{
    if at > 0 {
        assert(a.take(at as int)[0] == b.take(at as int)[0]);
        let rest_a = a.drop_first();
        let rest_b = b.drop_first();
        assert(rest_a.take(at - 1) =~= a.take(at as int).drop_first());
        assert(rest_b.take(at - 1) =~= b.take(at as int).drop_first());
        lemma_common_at(rest_a, rest_b, (at - 1) as nat);
    }
}

/// The models of rows are those of their entries, each with its number.
pub proof fn rows_are_seen_one_by_one(rows: Seq<(i64, SessionEntry)>, i: int)
    ensures
        row_views(rows).len() == rows.len(),
        0 <= i < rows.len() ==> row_views(rows)[i] == (rows[i].0, rows[i].1.deep_view()),
{
}

} // verus!
