# codecrafters_shell

A small interactive shell. The library (`src/`) holds its logic, verified
with Verus: the command-line grammar and tokenizer, the command model, the
decisions behind running a command (what to print, where output goes, which
program to start), the search for programs on the search path, and the
choice of completion candidates. `app/` is the program around it: the line
editor, the file system, the environment and the processes.

- `src/text.rs`: characters of strings, prefixes, joining, ordering, splitting at `/`.
- `src/grammar.rs`: the grammar as spec functions; `src/grammar_laws.rs` its laws.
- `src/parser.rs`: the executable tokenizer and parser.
- `src/command.rs`: tokens and commands, and how tokens make a command.
- `src/run.rs`: what a command does, as actions on plain values.
- `src/lookup.rs`: programs on the search path.
- `src/order.rs`, `src/shell_helper.rs`: completion candidates.
