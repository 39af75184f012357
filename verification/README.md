# agentmux

A command line tool and terminal interface that finds, groups, diagnoses and resumes the local
sessions of coding agents. OpenAI Codex is supported; further agents are added by implementing
`SessionProvider`.

- `src/` is the library, written in Verus. Every function states what it returns in `requires` and
  `ensures`, and Verus proves it.
- `app/` is the program around it: arguments, files, processes and the terminal.
- `tests/` runs the library on concrete values.

## What is proved

- A query finds exactly the sessions that meet its conditions, each once, in a fixed order; grouping
  puts every session into one group (`catalog_laws`).
- A broken line, a broken file, a directory that cannot be walked or a source that fails takes no
  session of another away (`provider`, `provider::codex::laws`).
- A session whose file name holds a UUID has that id, whatever the file says, and only a UUID ever
  reaches the command that resumes a session.
- A repair of the configuration never loses it: it is there, old or new, after every outcome, or its
  copy is and the error tells where (`provider::codex::repair_laws`). A repair that changes it adds
  the alias as a whole copy of the default model provider and changes nothing else. Where files can
  be removed, none is left behind but the copy that is told about.
- The selection of the interactive list is always on a row (`tui_laws`).

## What is trusted

Calls into `chrono`, `fuzzy-matcher`, `regex`, `serde_json`, `toml_edit`, `unicode-width`, `uuid` and
two functions of the standard library stand behind small wrappers. Each says above its contract what
it takes from the function that it calls.
