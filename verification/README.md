# ai_cli

A command-line assistant that talks to an LLM through *facts*: records of
the form `#FACT|<domain>|<actor>|<id>` followed by their content. The prompt
is built from facts (prompt, memory, history, read and written files, the
user's input); the model answers in facts, and each fact of the answer is
stored, shown, run as a shell command, copied or written to a file according
to its domain and the access rights (`s`elect, `i`nsert, `u`pdate,
`d`elete) granted per domain.

## Layout

- `src/` — the library, verified with Verus:
  - `text.rs` — characters and strings: splitting, lines, trimming, joining,
    replacing, decimal numbers;
  - `fact_map.rs`, `storage.rs` — the fact storage (an `IndexMap` of facts),
    its text format, and select / insert / update / delete under access
    rights; `roundtrip.rs` and `laws.rs` prove what these operations promise;
  - `json.rs` — JSON values as plain data, lookups, merging, placeholders;
  - `ai.rs` — the session: configuration lookups (rules first), paths,
    access words, status marks;
  - `chat.rs` — what each fact of an answer does, as effects for the caller;
  - `run.rs` — the decisions of a run and building the prompt;
  - `flow.rs` — how a run goes on: its start, the profile, the files a reset
    empties, whether the request is sent, the files written at its end;
  - `provider.rs` — the request to and the answer of a provider;
  - `completion.rs` — shell completion;
  - `files.rs`, `backup.rs` — names read from files, lists, backup paths;
  - `session_laws.rs` — properties of the session across its operations.
- `tests/` — tests of the library.
- `app/` — the `ai` program: command line, files, terminal, HTTP.
