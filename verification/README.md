# e-agent

The decision-making half of a coding agent, as a verified Verus library, with a
thin program around it.

- `src/` is the library. Everything in it is proved: what a session history
  means to a model, how tool calls are paired with their results, when and how a
  context is compacted, how a turn proceeds, what a goal may become, what a
  configuration and a project's overrides come to, which places a sandbox opens,
  how a login is renewed, what the responses wire sends and reads, how a
  subagent is started and resumed, and what an import may append.
- `tests/` runs the library on concrete values, with the crates that it calls.
- `app/` is the program: files, network, the browser, the clock, and the stored
  forms of the library's types.

The modules of the library, from the bottom up:

| module | subject |
| --- | --- |
| `text`, `order`, `path`, `table`, `same` | texts, orders, paths, named values, equality |
| `json`, `encoding`, `codec` | JSON documents, base64 and UTF-8, stored messages |
| `message`, `pairs` | messages, and the rule that every call has one result |
| `goal`, `entry` | goals, and the entries of a history |
| `context`, `compaction`, `gate` | the context of a model call, its compaction, and which summaries are accepted |
| `agent`, `turn` | a session, and the loop of a turn |
| `image`, `sandbox`, `config` | attachments, sandbox policies, configuration |
| `codex`, `codex_auth` | the responses wire and its login |
| `delegate` | subagents |
| `import_jsonl`, `harness`, `telemetry` | the import of session files, the database harness and what it exports |
| `build_info` | what a build says of itself |

What the library asks of other crates stands behind functions whose contracts
say what is relied on; each names the function that it calls.
