# sweet

Building blocks for autonomous agents: conversational sessions, the wire
protocols of three model providers, long-term memory and sandbox policy.

`src/` is a library verified with Verus. It holds no I/O: it decides what to
send, reads what comes back, and says what to store, run or refuse, and each of
its functions states what it returns.

- `sse`, `event_reader`: server-sent events, whatever chunks they arrive in
- `provider`, `schema`, `openai`, `chat_stream`, `anthropic`, `anthropic_stream`,
  `gemini`, `gemini_wire`, `id_map`: requests and replies of the providers
- `session`, `sqlite_session`: transcripts in memory and in SQLite
- `memory_types`, `memory`, `distill`, `words`, `memory_store`: recall,
  distillation and storage of memories
- `paths`, `sandbox`, `walk`, `restricted_fs`, `bubblewrap`, `seatbelt`: what
  commands and file operations may reach
- `text`, `lists`, `json`, `message`, `error`, `ids`: what the others share

Public proof functions named `law_*` state what holds across functions.

`app/` is ordinary Rust around the library: HTTP, SQLite, processes and files,
behind async traits. `tests/` exercises the library from outside.
