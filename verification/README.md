# codem

The core of a set of code-editing tools, written in Verus: every decision
the tools make about text and paths is a verified function with a contract.

- `fs_write_partial`: replacing several exact snippets of a file at once —
  finding them with an Aho–Corasick automaton, keeping those in their line
  ranges, rejecting missing or ambiguous ones, applying them left to right
  and reporting each change with its lines and context.
- `fs_write_large_partial`: replacing the section between a start pattern
  and an end pattern, with the checks on the pair and on its matches.
- `grep`, `directory`, `path_utils`, `fs_ops`: line search with context,
  the decisions of a directory listing, component-wise path checks.
- `client`, `keyed`: the data a client exchanges, sessions and the session
  store (a table from text keys to values).
- `text`, `strbuf`, `search`, `utf8_text`, `decimal`: the line structure of
  UTF-8 text and the string building the rest relies on.

`app/` holds the file-system, process and serialisation side (async reads
and writes, directory walks, running commands, storing sessions as TOML);
it makes no decision of its own.
