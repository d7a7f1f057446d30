# NeoTerminal

An interactive shell wrapper with enhanced built-in commands (`ls`, `cd`,
`cat`/`view`, `sys`, `find`, `history`, `help`, `clear`, `exit`); any other line
goes to the system shell.

## Layout

- `src/` is the library, verified with Verus. Every function there carries a
  contract stating what it computes:
  - `args`: splitting a command line into words with quotes;
  - `commands`: what a typed line asks the shell to do, and the `history` lines;
  - `ls`: option parsing, permission and size columns, listing order and the table;
  - `cat`: line splitting and the numbered, syntax-coloured output (syntect);
  - `find`, `sys`, `prompt`, `completer`, `icons`, `shell`: the other built-ins,
    the prompt, completion and colouring of the typed line, file icons and exit codes;
  - `order`, `text`: stable orderings and the string helpers the others share.
- `app/` is the program around it: the line editor, the file system, processes,
  the environment and the terminal.
- `tests/` runs the library on concrete values.

Calls into outside crates (chrono, devicons, syntect) go through small trusted
wrappers whose contracts say what the crates' sources and documentation show.
