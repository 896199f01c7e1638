//! The round-trip harness of the database: rows for a bulk import, the queries
//! that read payloads back, and where two payloads differ.
use vstd::prelude::*;

use crate::image::{hex_char, hex_digit};
use crate::json::{
    bool_of, get, i64_of, json_parsed, lemma_array_view, parse_json, str_of, Json, JsonView,
};
use crate::text::{
    chars_of, contains, decimal, decimal_text, has_prefix, join, joined, occurs_in, same_text,
    signed_decimal, signed_text, split, split_on, starts_with, trim, trimmed,
};

verus! {

/// The kind of a stored entry; unknown kinds count as messages.
pub open spec fn kind_of(entry: JsonView) -> Seq<char> {
    match str_of(get(entry, "type"@)) {
        Some(kind) => if kind == "compaction"@ || kind == "notice"@ {
            kind
        } else {
            "message"@
        },
        None => "message"@,
    }
}

/// The kind of a stored entry.
pub fn entry_kind(entry: &Json) -> (r: &'static str)
    ensures
        r@ == kind_of(entry.deep_view()),
{
    match entry.str_field("type") {
        Some(kind) => if same_text(kind.as_str(), "compaction") {
            "compaction"
        } else if same_text(kind.as_str(), "notice") {
            "notice"
        } else {
            "message"
        },
        None => "message",
    }
}

/// The value behind three keys.
pub open spec fn field3(
    json: JsonView,
    first: Seq<char>,
    second: Seq<char>,
    third: Seq<char>,
) -> Option<JsonView> {
    match get(json, first) {
        Some(outer) => match get(outer, second) {
            Some(inner) => get(inner, third),
            None => None,
        },
        None => None,
    }
}

/// Whether a stored entry is a tool result that reports an error.
pub open spec fn reports_error(entry: JsonView) -> bool {
    bool_of(field3(entry, "message"@, "Tool"@, "is_error"@)) == Some(true)
}

/// Whether a stored entry is a tool result that reports an error.
pub fn is_error(entry: &Json) -> (r: bool)
    ensures
        r == reports_error(entry.deep_view()),
{
    match entry.get("message") {
        Some(message) => match message.get("Tool") {
            Some(tool) => match tool.bool_field("is_error") {
                Some(flag) => flag,
                None => false,
            },
            None => false,
        },
        None => false,
    }
}

/// Whether a session is that of a subagent, by its name.
pub open spec fn subagent_name(session_id: Seq<char>) -> bool {
    has_prefix(session_id, "sub-"@) || has_prefix(session_id, "subagent-"@)
}

/// The role of a session.
pub open spec fn role_of(session_id: Seq<char>) -> Seq<char> {
    if subagent_name(session_id) {
        "subagent"@
    } else {
        "main"@
    }
}

/// The role of a session.
pub fn agent_role(session_id: &str) -> (r: &'static str)
    ensures
        r@ == role_of(session_id@),
{
    if starts_with(session_id, "sub-") || starts_with(session_id, "subagent-") {
        "subagent"
    } else {
        "main"
    }
}

/// A text with every quote doubled.
pub open spec fn escaped(text: Seq<char>) -> Seq<char>
    decreases text.len(),
{
    if text.len() == 0 {
        Seq::empty()
    } else if text.last() == '\'' {
        escaped(text.drop_last()).push('\'').push('\'')
    } else {
        escaped(text.drop_last()).push(text.last())
    }
}

/// A text with every quote doubled.
pub fn escape(text: &str) -> (r: String)
    ensures
        r@ == escaped(text@),
{
    let chars = chars_of(text);
    let mut out = String::new();
    let mut i: usize = 0;
    assert(text@.take(0) =~= Seq::empty());
    while i < chars.len()
        invariant
            i <= chars@.len(),
            chars@ == text@,
            out@ == escaped(text@.take(i as int)),
        decreases chars@.len() - i,
    {
        proof {
            let head = text@.take(i + 1);
            assert(head.drop_last() =~= text@.take(i as int));
            assert(head.last() == text@[i as int]);
        }
        if chars[i] == '\'' {
            out.push('\'');
        }
        out.push(chars[i]);
        i += 1;
    }
    assert(text@.take(text@.len() as int) =~= text@);
    out
}

/// A truth value as text.
pub open spec fn flag_text(flag: bool) -> Seq<char> {
    if flag {
        "true"@
    } else {
        "false"@
    }
}

/// The row of an entry: session, number, time, kind, the entry itself, schema
/// version, role and error flag.
pub open spec fn row_of(
    stem: Seq<char>,
    seq: nat,
    base_ts: int,
    entry: JsonView,
    line: Seq<char>,
) -> Seq<char> {
    "('"@ + stem + "', "@ + decimal(seq) + ", "@ + signed_decimal(base_ts + seq) + ", '"@ + kind_of(
        entry,
    ) + "', '"@ + escaped(line) + "', 1, '"@ + role_of(stem) + "', "@ + flag_text(
        reports_error(entry),
    ) + ")"@
}

/// The error of a line that is no document.
pub open spec fn bad_line(path: Seq<char>, number: nat, error: Seq<char>) -> Seq<char> {
    path + ":"@ + decimal(number) + ": bad JSON: "@ + error
}

/// The rows of a session's lines, or the error of the first line that is no
/// document. Blank lines give no row, but are counted.
pub open spec fn rows_of(
    path: Seq<char>,
    stem: Seq<char>,
    base_ts: int,
    lines: Seq<Seq<char>>,
) -> Result<Seq<Seq<char>>, Seq<char>>
    decreases lines.len(),
{
    if lines.len() == 0 {
        Ok(Seq::empty())
    } else {
        match rows_of(path, stem, base_ts, lines.drop_last()) {
            Err(error) => Err(error),
            Ok(rows) => {
                let line = trimmed(lines.last());
                if line.len() == 0 {
                    Ok(rows)
                } else {
                    match json_parsed(line) {
                        Err(error) => Err(bad_line(path, lines.len(), error)),
                        Ok(entry) => Ok(
                            rows.push(
                                row_of(stem, (lines.len() - 1) as nat, base_ts, entry, line),
                            ),
                        ),
                    }
                }
            },
        }
    }
}

/// A result as its model.
pub open spec fn rows_result(r: Result<Vec<String>, String>) -> Result<Seq<Seq<char>>, Seq<char>> {
    match r {
        Ok(rows) => Ok(rows.deep_view()),
        Err(error) => Err(error@),
    }
}

/// The row of an entry.
pub fn import_row(stem: &str, seq: u64, ts: i64, entry: &Json, line: &str) -> (r: String)
    ensures
        r@ == row_of(stem@, seq as nat, ts - seq, entry.deep_view(), line@),
{
    let mut row = "('".to_owned();
    row.push_str(stem);
    row.push_str("', ");
    row.push_str(decimal_text(seq).as_str());
    row.push_str(", ");
    row.push_str(signed_text(ts).as_str());
    row.push_str(", '");
    row.push_str(entry_kind(entry));
    row.push_str("', '");
    row.push_str(escape(line).as_str());
    row.push_str("', 1, '");
    row.push_str(agent_role(stem));
    row.push_str("', ");
    row.push_str(
        if is_error(entry) {
            "true"
        } else {
            "false"
        },
    );
    row.push_str(")");
    row
}

proof fn lemma_rows_error(
    path: Seq<char>,
    stem: Seq<char>,
    base_ts: int,
    lines: Seq<Seq<char>>,
    at: int,
)
    requires
        0 <= at <= lines.len(),
        rows_of(path, stem, base_ts, lines.take(at)) is Err,
    ensures
        rows_of(path, stem, base_ts, lines) == rows_of(path, stem, base_ts, lines.take(at)),
    decreases lines.len(),
{
    if at < lines.len() {
        assert(lines.drop_last().take(at) =~= lines.take(at));
        lemma_rows_error(path, stem, base_ts, lines.drop_last(), at);
    } else {
        assert(lines.take(at) =~= lines);
    }
}

/// The rows of a session file, whose times count up from `base_ts`, or the
/// error.
pub fn import_rows(path: &str, stem: &str, content: &str, base_ts: i64) -> (r: Result<
    Vec<String>,
    String,
>)
    requires
        0 <= base_ts,
        base_ts + content@.len() + 1 <= i64::MAX,
    ensures
        rows_result(r) == rows_of(path@, stem@, base_ts as int, split_on(content@, '\n')),
{
    let lines = split(content, '\n');
    let ghost views = lines.deep_view();
    assert(views.len() == lines@.len());
    proof {
        lemma_split_len(content@, '\n');
    }
    let mut rows: Vec<String> = Vec::new();
    let mut i: usize = 0;
    assert(views.take(0) =~= Seq::empty());
    assert(rows.deep_view() =~= Seq::empty());
    while i < lines.len()
        invariant
            i <= lines@.len() == views.len(),
            views == lines.deep_view(),
            views == split_on(content@, '\n'),
            lines@.len() <= content@.len() + 1,
            0 <= base_ts,
            base_ts + content@.len() + 1 <= i64::MAX,
            rows_of(path@, stem@, base_ts as int, views.take(i as int)) == Ok::<
                Seq<Seq<char>>,
                Seq<char>,
            >(rows.deep_view()),
        decreases lines@.len() - i,
    {
        proof {
            let head = views.take(i + 1);
            assert(head.drop_last() =~= views.take(i as int));
            assert(head.last() == views[i as int]);
            assert(views[i as int] == lines@[i as int]@);
        }
        let line = trim(lines[i].as_str());
        if !line.as_str().is_empty() {
            match parse_json(line.as_str()) {
                Ok(entry) => {
                    let ghost before = rows.deep_view();
                    let row = import_row(
                        stem,
                        i as u64,
                        base_ts + i as i64,
                        &entry,
                        line.as_str(),
                    );
                    rows.push(row);
                    assert(rows.deep_view() =~= before.push(row@));
                },
                Err(error) => {
                    let mut text = path.to_owned();
                    text.push_str(":");
                    text.push_str(decimal_text(i as u64 + 1).as_str());
                    text.push_str(": bad JSON: ");
                    text.push_str(error.as_str());
                    proof {
                        assert(text@ =~= bad_line(path@, (i + 1) as nat, error@));
                        lemma_rows_error(path@, stem@, base_ts as int, views, i + 1);
                    }
                    return Err(text);
                },
            }
        }
        i += 1;
    }
    assert(views.take(views.len() as int) =~= views);
    Ok(rows)
}

proof fn lemma_split_len(text: Seq<char>, c: char)
    ensures
        1 <= split_on(text, c).len() <= text.len() + 1,
    decreases text.len(),
{
    if text.len() > 0 {
        lemma_split_len(text.drop_last(), c);
    }
}

/// Rows that one statement inserts at most.
pub const CHUNK_ROWS: usize = 200;

/// The rows in chunks, each as large as a statement allows.
pub open spec fn chunks(rows: Seq<Seq<char>>) -> Seq<Seq<Seq<char>>>
    decreases rows.len(),
{
    if rows.len() == 0 {
        Seq::empty()
    } else if rows.len() <= CHUNK_ROWS {
        seq![rows]
    } else {
        seq![rows.take(CHUNK_ROWS as int)] + chunks(rows.skip(CHUNK_ROWS as int))
    }
}

/// The beginning of a statement that inserts rows.
pub const INSERT_HEAD: &'static str =
    "INSERT INTO session_entries\n                (session_id, seq, event_time, entry_kind, payload,\n                 schema_version, agent_role, is_error)\n             VALUES ";

/// The statement that inserts a chunk of rows.
pub open spec fn statement_of(chunk: Seq<Seq<char>>) -> Seq<char> {
    INSERT_HEAD@ + joined(chunk, ",\n"@)
}

/// The statements that insert rows, each with the number of its rows.
pub fn insert_statements(rows: &Vec<String>) -> (r: Vec<(String, usize)>)
    ensures
        r@.len() == chunks(rows.deep_view()).len(),
        forall|i: int|
            0 <= i < r@.len() ==> (#[trigger] r@[i]).0@ == statement_of(
                chunks(rows.deep_view())[i],
            ) && r@[i].1 == chunks(rows.deep_view())[i].len(),
{
    let ghost views = rows.deep_view();
    assert(views.len() == rows@.len());
    let mut out: Vec<(String, usize)> = Vec::new();
    let mut from: usize = 0;
    assert(views.skip(0) =~= views);
    while from < rows.len()
        invariant
            from <= rows@.len() == views.len(),
            views == rows.deep_view(),
            chunks(views).len() == out@.len() + chunks(views.skip(from as int)).len(),
            forall|k: int|
                0 <= k < chunks(views.skip(from as int)).len() ==> chunks(views)[out@.len() + k]
                    == #[trigger] chunks(views.skip(from as int))[k],
            forall|i: int|
                0 <= i < out@.len() ==> (#[trigger] out@[i]).0@ == statement_of(chunks(views)[i])
                    && out@[i].1 == chunks(views)[i].len(),
        decreases rows@.len() - from,
    {
        let ghost rest = views.skip(from as int);
        let to: usize = if rows.len() - from <= CHUNK_ROWS {
            rows.len()
        } else {
            from + CHUNK_ROWS
        };
        let mut chunk: Vec<String> = Vec::new();
        let mut i: usize = from;
        while i < to
            invariant
                from <= i <= to <= rows@.len() == views.len(),
                views == rows.deep_view(),
                chunk.deep_view() == views.subrange(from as int, i as int),
            decreases to - i,
        {
            let ghost before = chunk.deep_view();
            let row = rows[i].clone();
            chunk.push(row);
            i += 1;
            proof {
                assert(views[i - 1] == rows@[i - 1]@);
                assert(chunk.deep_view() =~= before.push(row@));
                assert(chunk.deep_view() =~= views.subrange(from as int, i as int));
            }
        }
        let count: usize = to - from;
        let mut statement = INSERT_HEAD.to_owned();
        statement.push_str(join(&chunk, ",\n").as_str());
        let ghost held = chunk.deep_view();
        let ghost known = out@;
        out.push((statement, count));
        proof {
            if rest.len() <= CHUNK_ROWS {
                assert(held =~= rest);
                assert(views.skip(to as int) =~= Seq::empty());
            } else {
                assert(held =~= rest.take(CHUNK_ROWS as int));
                assert(rest.skip(CHUNK_ROWS as int) =~= views.skip(to as int));
            }
            assert(chunks(rest)[0] == held);
            let after = chunks(views.skip(to as int));
            assert forall|k: int| 0 <= k < after.len() implies chunks(views)[out@.len() + k]
                == #[trigger] after[k] by {
                assert(chunks(rest)[k + 1] == after[k]);
            }
            assert forall|i: int| 0 <= i < out@.len() implies (#[trigger] out@[i]).0@
                == statement_of(chunks(views)[i]) && out@[i].1 == chunks(views)[i].len() by {
                if i < known.len() {
                    assert(out@[i] == known[i]);
                } else {
                    assert(chunks(views)[known.len() as int] == chunks(rest)[0]);
                }
            }
        }
        from = to;
    }
    assert(views.skip(views.len() as int) =~= Seq::empty());
    out
}

/// What became of a statement: the server answers an error with a text that says
/// so.
pub fn insert_outcome(stem: &str, answer: &str) -> (r: Result<(), String>)
    ensures
        match r {
            Ok(_) => !occurs_in(answer@, "error"@),
            Err(error) => occurs_in(answer@, "error"@) && error@ == "import failed for "@ + stem@
                + ": "@ + answer@,
        },
{
    if !contains(answer, "error") {
        return Ok(());
    }
    let mut error = "import failed for ".to_owned();
    error.push_str(stem);
    error.push_str(": ");
    error.push_str(answer);
    Err(error)
}

/// The query for a payload.
pub fn payload_query(session_id: &str, seq: i64) -> (r: String)
    ensures
        r@ == "SELECT payload FROM session_entries WHERE session_id='"@ + session_id@
            + "' AND seq="@ + signed_decimal(seq as int),
{
    let mut query = "SELECT payload FROM session_entries WHERE session_id='".to_owned();
    query.push_str(session_id);
    query.push_str("' AND seq=");
    query.push_str(signed_text(seq).as_str());
    query
}

/// The first row of an answer.
pub open spec fn first_row(answer: JsonView) -> Option<JsonView> {
    match get(answer, "data"@) {
        Some(JsonView::Array(rows)) if rows.len() > 0 => Some(rows[0]),
        _ => None,
    }
}

fn row_in(answer: &Json) -> (r: Option<&Json>)
    ensures
        r matches Some(row) ==> first_row(answer.deep_view()) == Some(row.deep_view()),
        r is None ==> first_row(answer.deep_view()) is None,
{
    match answer.get("data") {
        Some(data) => match data {
            Json::Array(rows) => {
                proof {
                    lemma_array_view(*data);
                    assert(rows.deep_view().len() == rows@.len());
                }
                if rows.len() > 0 {
                    assert(rows.deep_view()[0] == rows@[0].deep_view());
                    Some(&rows[0])
                } else {
                    None
                }
            },
            _ => None,
        },
        None => None,
    }
}

/// The payload that an answer holds, or the error.
pub fn fetched_payload(answer: &Json, session_id: &str, seq: i64) -> (r: Result<String, String>)
    ensures
        match r {
            Ok(payload) => first_row(answer.deep_view()) matches Some(row) && str_of(
                get(row, "payload"@),
            ) == Some(payload@),
            Err(error) => (first_row(answer.deep_view()) matches Some(row) ==> str_of(
                get(row, "payload"@),
            ) is None) && error@ == "no row for "@ + session_id@ + "/"@ + signed_decimal(
                seq as int,
            ),
        },
{
    if let Some(row) = row_in(answer) {
        if let Some(payload) = row.str_field("payload") {
            return Ok(payload);
        }
    }
    let mut error = "no row for ".to_owned();
    error.push_str(session_id);
    error.push_str("/");
    error.push_str(signed_text(seq).as_str());
    Err(error)
}

/// The query for the number of rows of a table.
pub fn count_query(table: &str) -> (r: String)
    ensures
        r@ == "SELECT COUNT(*) AS n FROM "@ + table@,
{
    let mut query = "SELECT COUNT(*) AS n FROM ".to_owned();
    query.push_str(table);
    query
}

/// The number of rows that an answer, `written` as this text, holds, or the
/// error.
pub fn fetched_count(answer: &Json, written: &str, table: &str) -> (r: Result<i64, String>)
    ensures
        match r {
            Ok(count) => first_row(answer.deep_view()) matches Some(row) && i64_of(get(row, "n"@))
                == Some(count),
            Err(error) => (first_row(answer.deep_view()) matches Some(row) ==> i64_of(
                get(row, "n"@),
            ) is None) && error@ == "no count from "@ + table@ + ": "@ + written@,
        },
{
    if let Some(row) = row_in(answer) {
        if let Some(count) = row.i64_field("n") {
            return Ok(count);
        }
    }
    let mut error = "no count from ".to_owned();
    error.push_str(table);
    error.push_str(": ");
    error.push_str(written);
    Err(error)
}

/// What is told of a table of metrics.
pub fn metric_line(table: &str, count: &Result<i64, String>) -> (r: String)
    ensures
        r@ == match count {
            Ok(n) => "  "@ + table@ + ": "@ + signed_decimal(*n as int) + " rows"@,
            Err(error) => "  "@ + table@ + ": NOT FOUND ("@ + error@ + ")"@,
        },
{
    let mut line = "  ".to_owned();
    line.push_str(table);
    match count {
        Ok(n) => {
            line.push_str(": ");
            line.push_str(signed_text(*n).as_str());
            line.push_str(" rows");
        },
        Err(error) => {
            line.push_str(": NOT FOUND (");
            line.push_str(error.as_str());
            line.push_str(")");
        },
    }
    line
}

/// The tables that logs may arrive in, in the order of looking.
pub open spec fn log_table_names() -> Seq<Seq<char>> {
    seq!["opentelemetry_logs"@, "greptime_logs"@, "logs"@]
}

/// The tables that logs may arrive in, in the order of looking.
pub fn log_tables() -> (r: Vec<String>)
    ensures
        r.deep_view() == log_table_names(),
{
    let mut tables: Vec<String> = Vec::new();
    tables.push("opentelemetry_logs".to_owned());
    tables.push("greptime_logs".to_owned());
    tables.push("logs".to_owned());
    assert(tables.deep_view() =~= log_table_names());
    tables
}

/// The refusal where no table has logs.
pub const NO_LOGS: &'static str = "no logs table found with data";

/// What is told of a table that logs may have arrived in; nothing of one that
/// cannot be counted. The flag says that the logs are there.
pub fn log_table_line(table: &str, count: &Result<i64, String>) -> (r: (Option<String>, bool))
    ensures
        r.1 == (count matches Ok(n) && *n > 0),
        r.0.deep_view() == match count {
            Ok(n) => Some("  "@ + table@ + ": "@ + signed_decimal(*n as int) + " rows"@),
            Err(_) => None,
        },
{
    match count {
        Ok(n) => (Some(metric_line(table, count)), *n > 0),
        Err(_) => (None, false),
    }
}

/// What is told of a table that nothing is expected to arrive in.
pub fn dropped_line(count: &Result<i64, String>) -> (r: String)
    ensures
        r@ == match count {
            Ok(0) => "  table exists but 0 rows — silently dropped ✅"@,
            Ok(n) => "  UNEXPECTED: "@ + signed_decimal(*n as int) + " rows found"@,
            Err(_) => "  table does not exist — silently dropped ✅"@,
        },
{
    match count {
        Ok(n) => if *n == 0 {
            "  table exists but 0 rows — silently dropped ✅".to_owned()
        } else {
            let mut line = "  UNEXPECTED: ".to_owned();
            line.push_str(signed_text(*n).as_str());
            line.push_str(" rows found");
            line
        },
        Err(_) => "  table does not exist — silently dropped ✅".to_owned(),
    }
}

/// A text of `count` times one character.
pub open spec fn repeated(c: char, count: nat) -> Seq<char> {
    Seq::new(count, |i: int| c)
}

/// A text of `count` times one character.
pub fn repeat_char(c: char, count: usize) -> (r: String)
    ensures
        r@ == repeated(c, count as nat),
{
    let mut text = String::new();
    let mut i: usize = 0;
    assert(text@ =~= repeated(c, 0));
    while i < count
        invariant
            i <= count,
            text@ == repeated(c, i as nat),
        decreases count - i,
    {
        text.push(c);
        i += 1;
        assert(text@ =~= repeated(c, i as nat));
    }
    text
}

/// A number with zeros in front of it, `width` characters or more.
pub open spec fn padded(n: nat, width: nat) -> Seq<char> {
    let digits = decimal(n);
    if digits.len() >= width {
        digits
    } else {
        repeated('0', (width - digits.len()) as nat) + digits
    }
}

/// The time of a row of the round trip: one nanosecond after the other.
pub fn row_time(seq: u64) -> (r: String)
    ensures
        r@ == "2026-07-29 12:00:00."@ + padded(seq as nat, 9),
{
    let digits = decimal_text(seq);
    let len: usize = chars_of(digits.as_str()).len();
    let mut text = "2026-07-29 12:00:00.".to_owned();
    if len < 9 {
        text.push_str(repeat_char('0', 9 - len).as_str());
    }
    text.push_str(digits.as_str());
    assert(text@ =~= "2026-07-29 12:00:00."@ + padded(seq as nat, 9));
    text
}

/// The message of a row of the throughput run.
pub fn batch_message(i: u64) -> (r: String)
    ensures
        r@ == "batch message "@ + decimal(i as nat) + " "@ + repeated('x', (i % 100) as nat),
{
    let mut text = "batch message ".to_owned();
    text.push_str(decimal_text(i).as_str());
    text.push_str(" ");
    text.push_str(repeat_char('x', (i % 100) as usize).as_str());
    text
}

/// The payloads of the round trip.
pub fn test_payloads() -> (r: Vec<String>)
    ensures
        r.deep_view() == seq![
            "plain text"@,
            "line one\nline two\nline three"@,
            "tab\there"@,
            "quote'single"@,
            "你好世界👋\n多行混合"@,
            "'); DROP TABLE session_entries; --"@,
            "carriage\r\nreturn"@,
            "backslash \\ and \\\\ more"@,
            repeated('A', 1_000_000),
        ],
{
    let payloads = vec![
        "plain text".to_owned(),
        "line one\nline two\nline three".to_owned(),
        "tab\there".to_owned(),
        "quote'single".to_owned(),
        "你好世界👋\n多行混合".to_owned(),
        "'); DROP TABLE session_entries; --".to_owned(),
        "carriage\r\nreturn".to_owned(),
        "backslash \\ and \\\\ more".to_owned(),
        repeat_char('A', 1_000_000),
    ];
    assert(payloads.deep_view() =~= seq![
        "plain text"@,
        "line one\nline two\nline three"@,
        "tab\there"@,
        "quote'single"@,
        "你好世界👋\n多行混合"@,
        "'); DROP TABLE session_entries; --"@,
        "carriage\r\nreturn"@,
        "backslash \\ and \\\\ more"@,
        repeated('A', 1_000_000),
    ]);
    payloads
}

/// The first byte in which two byte strings differ, as far as both reach.
pub open spec fn first_difference(got: Seq<u8>, want: Seq<u8>, from: nat) -> Option<nat>
    decreases got.len() - from,
{
    if from >= got.len() || from >= want.len() {
        None
    } else if got[from as int] != want[from as int] {
        Some(from)
    } else {
        first_difference(got, want, from + 1)
    }
}

/// The bytes around a place: two in front of it and two behind it, as far as
/// there are such.
pub open spec fn around(bytes: Seq<u8>, at: nat) -> Seq<u8> {
    let from: int = if at < 2 {
        0
    } else {
        at - 2
    };
    let to = if at + 3 > bytes.len() {
        bytes.len() as int
    } else {
        at as int + 3
    };
    bytes.subrange(from, to)
}

/// A byte string as a list of two-digit numbers.
pub open spec fn hex_items(bytes: Seq<u8>) -> Seq<Seq<char>> {
    bytes.map_values(|b: u8| seq![hex_char(b as int / 16), hex_char(b as int % 16)])
}

/// A byte string as a list of two-digit numbers.
pub open spec fn hex_list_of(bytes: Seq<u8>) -> Seq<char> {
    "["@ + joined(hex_items(bytes), ", "@) + "]"@
}

/// What is told of two payloads that differ.
pub open spec fn difference_of(got: Seq<u8>, want: Seq<u8>) -> Option<Seq<char>> {
    match first_difference(got, want, 0) {
        Some(at) => Some(
            "    first diff at byte "@ + decimal(at) + ": got "@ + hex_list_of(around(got, at))
                + " want "@ + hex_list_of(around(want, at)),
        ),
        None => None,
    }
}

/// The bytes around a place as a list of two-digit numbers.
fn hex_around(bytes: &[u8], at: usize) -> (r: String)
    requires
        at < bytes@.len(),
    ensures
        r@ == hex_list_of(around(bytes@, at as nat)),
{
    let from: usize = if at < 2 {
        0
    } else {
        at - 2
    };
    let to: usize = if bytes.len() - at < 3 {
        bytes.len()
    } else {
        at + 3
    };
    let ghost part = around(bytes@, at as nat);
    let mut items: Vec<String> = Vec::new();
    let mut i: usize = from;
    assert(items.deep_view() =~= hex_items(part).take(0));
    while i < to
        invariant
            from <= i <= to <= bytes@.len(),
            part == bytes@.subrange(from as int, to as int),
            items.deep_view() == hex_items(part).take(i - from),
        decreases to - i,
    {
        let ghost before = items.deep_view();
        let mut item = String::new();
        item.push(hex_digit(bytes[i] / 16));
        item.push(hex_digit(bytes[i] % 16));
        let ghost shown = item@;
        items.push(item);
        proof {
            assert(bytes@[i as int] == part[i - from]);
            assert(shown =~= hex_items(part)[i - from]);
            assert(items.deep_view() =~= before.push(shown));
            assert(hex_items(part).take(i + 1 - from) =~= hex_items(part).take(i - from).push(
                hex_items(part)[i - from],
            ));
        }
        i += 1;
    }
    assert(hex_items(part).take(to - from) =~= hex_items(part));
    let mut text = "[".to_owned();
    text.push_str(join(&items, ", ").as_str());
    text.push_str("]");
    text
}

/// What is told of two payloads that differ.
pub fn difference(got: &[u8], want: &[u8]) -> (r: Option<String>)
    ensures
        r.deep_view() == difference_of(got@, want@),
{
    let mut i: usize = 0;
    while i < got.len() && i < want.len()
        invariant
            i <= got@.len(),
            i <= want@.len(),
            first_difference(got@, want@, 0) == first_difference(got@, want@, i as nat),
        decreases got@.len() - i,
    {
        if got[i] != want[i] {
            let mut text = "    first diff at byte ".to_owned();
            text.push_str(decimal_text(i as u64).as_str());
            text.push_str(": got ");
            text.push_str(hex_around(got, i).as_str());
            text.push_str(" want ");
            text.push_str(hex_around(want, i).as_str());
            return Some(text);
        }
        i += 1;
    }
    None
}

/// Every row is inserted once and in order, and no statement inserts none or
/// more than it may.
pub proof fn chunks_cover_all_rows(rows: Seq<Seq<char>>)
    ensures
        chunks(rows).flatten() == rows,
        forall|i: int|
            0 <= i < chunks(rows).len() ==> 0 < (#[trigger] chunks(rows)[i]).len() <= CHUNK_ROWS,
    decreases rows.len(),
{
    if rows.len() == 0 {
        assert(chunks(rows) =~= Seq::empty());
        assert(chunks(rows).flatten() =~= rows);
    } else if rows.len() <= CHUNK_ROWS {
        let all = seq![rows];
        assert(all.drop_first() =~= Seq::empty());
        assert(all.drop_first().flatten() =~= Seq::empty());
        assert(all.flatten() =~= all.first() + all.drop_first().flatten());
        assert(chunks(rows).flatten() =~= rows);
    } else {
        let first = rows.take(CHUNK_ROWS as int);
        let rest = rows.skip(CHUNK_ROWS as int);
        chunks_cover_all_rows(rest);
        let all = seq![first] + chunks(rest);
        assert(all.drop_first() =~= chunks(rest));
        assert(all.first() == first);
        assert(all.flatten() =~= first + rest);
        assert(first + rest =~= rows);
        assert forall|i: int| 0 <= i < all.len() implies 0 < (#[trigger] all[i]).len()
            <= CHUNK_ROWS by {
            if i > 0 {
                assert(all[i] == chunks(rest)[i - 1]);
            }
        }
    }
}

/// An escaped text ends no quoted text before its end: its quotes come in pairs.
pub proof fn escaped_quotes_are_paired(text: Seq<char>)
    ensures
        quotes(escaped(text)) == 2 * quotes(text),
        escaped(text).len() == text.len() + quotes(text),
    decreases text.len(),
{
    if text.len() > 0 {
        let head = text.drop_last();
        escaped_quotes_are_paired(head);
        let e = escaped(head);
        if text.last() == '\'' {
            assert(e.push('\'').drop_last() =~= e);
            assert(e.push('\'').push('\'').drop_last() =~= e.push('\''));
            assert(quotes(e.push('\'')) == quotes(e) + 1);
        } else {
            assert(e.push(text.last()).drop_last() =~= e);
        }
    }
}

/// The number of quotes in a text.
pub open spec fn quotes(text: Seq<char>) -> nat
    decreases text.len(),
{
    if text.len() == 0 {
        0
    } else {
        quotes(text.drop_last()) + (if text.last() == '\'' {
            1nat
        } else {
            0nat
        })
    }
}

/// A stored entry is of the kind that it names, where that is a compaction or a
/// notice, and else a message; it reports an error where its tool result says so;
/// and its session is a subagent's where its name begins like one.
pub proof fn entries_are_told_apart(entry: JsonView, rest: Seq<char>)
    ensures
        get(entry, "type"@) == Some(JsonView::Str("compaction"@)) ==> kind_of(entry)
            == "compaction"@,
        get(entry, "type"@) == Some(JsonView::Str("notice"@)) ==> kind_of(entry) == "notice"@,
        get(entry, "type"@) != Some(JsonView::Str("compaction"@)) && get(entry, "type"@) != Some(
            JsonView::Str("notice"@),
        ) ==> kind_of(entry) == "message"@,
        reports_error(entry) <==> (get(entry, "message"@) matches Some(message) && get(
            message,
            "Tool"@,
        ) matches Some(tool) && get(tool, "is_error"@) == Some(JsonView::Bool(true))),
        role_of("sub-"@ + rest) == "subagent"@,
        role_of("subagent-"@ + rest) == "subagent"@,
        role_of("main-"@ + rest) == "main"@,
{
    reveal_strlit("sub-");
    reveal_strlit("subagent-");
    reveal_strlit("main-");
    assert(("sub-"@ + rest).take(4) =~= "sub-"@);
    assert(("subagent-"@ + rest).take(9) =~= "subagent-"@);
    let name = "main-"@ + rest;
    assert(name[0] == 'm');
    assert("sub-"@[0] == 's' && "subagent-"@[0] == 's');
    assert(!has_prefix(name, "sub-"@)) by {
        assert(name.take(4)[0] == 'm');
    }
    assert(!has_prefix(name, "subagent-"@)) by {
        if name.len() >= 9 {
            assert(name.take(9)[0] == 'm');
        }
    }
    match get(entry, "message"@) {
        Some(message) => match get(message, "Tool"@) {
            Some(tool) => match get(tool, "is_error"@) {
                Some(JsonView::Bool(value)) => {
                    assert(bool_of(get(tool, "is_error"@)) == Some(value));
                },
                _ => {},
            },
            None => {},
        },
        None => {},
    }
    match get(entry, "type"@) {
        Some(JsonView::Str(kind)) => {
            assert(str_of(get(entry, "type"@)) == Some(kind));
        },
        _ => {},
    }
}

/// Escaping goes character by character: a quote is doubled, and every other
/// character stays.
pub proof fn escaping_doubles_quotes_only(text: Seq<char>, c: char)
    ensures
        escaped(Seq::empty()).len() == 0,
        escaped(text.push(c)) == if c == '\'' {
            escaped(text).push('\'').push('\'')
        } else {
            escaped(text).push(c)
        },
{
    assert(text.push(c).drop_last() =~= text);
}

/// Every line of a session file becomes a row with the number of the line, the
/// time that belongs to it, and the line itself; blank lines become none, and a
/// line that is no document is refused by its number.
pub proof fn lines_become_rows(
    path: Seq<char>,
    stem: Seq<char>,
    base: int,
    lines: Seq<Seq<char>>,
    line: Seq<char>,
    rows: Seq<Seq<char>>,
)
    requires
        rows_of(path, stem, base, lines) == Ok::<Seq<Seq<char>>, Seq<char>>(rows),
    ensures
        rows_of(path, stem, base, lines.push(line)) == if trimmed(line).len() == 0 {
            Ok::<Seq<Seq<char>>, Seq<char>>(rows)
        } else {
            match json_parsed(trimmed(line)) {
                Ok(entry) => Ok(
                    rows.push(
                        "('"@ + stem + "', "@ + decimal(lines.len()) + ", "@ + signed_decimal(
                            base + lines.len(),
                        ) + ", '"@ + kind_of(entry) + "', '"@ + escaped(trimmed(line)) + "', 1, '"@
                            + role_of(stem) + "', "@ + (if reports_error(entry) {
                            "true"@
                        } else {
                            "false"@
                        }) + ")"@,
                    ),
                ),
                Err(error) => Err(
                    path + ":"@ + decimal((lines.len() + 1) as nat) + ": bad JSON: "@ + error,
                ),
            }
        },
        rows_of(path, stem, base, Seq::empty()) == Ok::<Seq<Seq<char>>, Seq<char>>(Seq::empty()),
{
    assert(lines.push(line).drop_last() =~= lines);
}

/// Two payloads are reported by the first byte in which they differ, and not at
/// all where there is none.
pub proof fn differences_are_found(got: Seq<u8>, want: Seq<u8>, at: int)
    requires
        0 <= at,
        at <= got.len() && at <= want.len(),
        forall|i: int| 0 <= i < at ==> got[i] == want[i],
        at < got.len() && at < want.len() ==> got[at] != want[at],
    ensures
        at < got.len() && at < want.len() ==> first_difference(got, want, 0) == Some(at as nat),
        at == got.len() || at == want.len() ==> difference_of(got, want) is None,
        at < got.len() && at < want.len() ==> difference_of(got, want) is Some,
{
    lemma_difference_from(got, want, 0, at);
}

proof fn lemma_difference_from(got: Seq<u8>, want: Seq<u8>, from: nat, at: int)
    requires
        from <= at,
        at <= got.len() && at <= want.len(),
        forall|i: int| from <= i < at ==> got[i] == want[i],
        at < got.len() && at < want.len() ==> got[at] != want[at],
    ensures
        first_difference(got, want, from) == if at < got.len() && at < want.len() {
            Some(at as nat)
        } else {
            None
        },
    decreases at - from,
{
    if from < at {
        lemma_difference_from(got, want, from + 1, at);
    }
}

/// A padded number is the number itself behind zeros, at the width that it is given
/// or more.
pub proof fn numbers_are_padded_with_zeros(n: nat, width: nat)
    ensures
        padded(n, width).len() >= width,
        padded(n, width).len() == width || padded(n, width) == decimal(n),
        padded(n, width).skip(padded(n, width).len() - decimal(n).len()) == decimal(n),
        forall|i: int|
            0 <= i < padded(n, width).len() - decimal(n).len() ==> #[trigger] padded(n, width)[i]
                == '0',
{
    let digits = decimal(n);
    let text = padded(n, width);
    assert(text.skip(text.len() - digits.len()) =~= digits);
}

/// The first row of an answer is the first of its data, where it has any.
pub proof fn answers_begin_with_their_first_row(answer: JsonView, rows: Seq<JsonView>)
    requires
        get(answer, "data"@) == Some(JsonView::Array(rows)),
    ensures
        rows.len() > 0 ==> first_row(answer) == Some(rows[0]),
        rows.len() == 0 ==> first_row(answer) is None,
{
}

/// A statement inserts the rows of its chunk, in order.
pub proof fn statements_insert_their_rows(rows: Seq<Seq<char>>, last: Seq<char>)
    requires
        rows.len() > 0,
    ensures
        statement_of(seq![last]) == INSERT_HEAD@ + last,
        statement_of(rows.push(last)) == statement_of(rows) + ",\n"@ + last,
{
    let none: Seq<Seq<char>> = Seq::empty();
    crate::text::joining_puts_separators_between(none, last, ",\n"@);
    crate::text::joining_puts_separators_between(rows, last, ",\n"@);
    assert(none.push(last) =~= seq![last]);
    assert(statement_of(rows.push(last)) =~= statement_of(rows) + ",\n"@ + last);
}

} // verus!
