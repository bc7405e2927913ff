# cs110l

A Verus-verified library with three small programs around it.

- `src/` — the verified library:
  - `number`: unsigned parsing in a radix (`from_str_radix` semantics);
  - `text`: characters of a `str`, whitespace splitting, line splitting, trimming;
  - `command`: the debugger's command language (`DebuggerCommand::from_tokens`,
    `parse_address`, `parse_command_line`);
  - `inferior`: stop statuses, source-location records, word alignment,
    breakpoint byte splicing, backtrace steps;
  - `session`: the debugger's command-loop decisions and breakpoint list;
  - `hangman`: word choice and the game's rules;
  - `parallel`: job numbering and result placement of a parallel map.
- `app/` — the programs (`deet <target>`, `hangman`, `parallel_map`): terminal
  and process I/O, `ptrace`, threads and channels, and DWARF lookups.
- `tests/` — tests of the library.
