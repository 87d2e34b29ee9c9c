# taskmon

The verified core of a terminal process monitor in the style of `top`: a
table of processes sorted by memory, a scrollable selection, a search
prompt (`/`), and a command prompt (`:`) that understands `exit` and
`kill -n<name>` / `kill -p<pid>`.

- `src/` is the library, written in Verus and verified:
  - `app_core.rs`: the run flag and the message log;
  - `text.rs`, `number.rs`: whitespace, word splitting, substring search,
    decimal numerals and `i32` parsing;
  - `editor.rs`: the prompt line, kept in a `tui_input::Input`;
  - `system.rs`: the process table (building, sorting, searching) and the
    network counters;
  - `scroll.rs`: the table selection and scrollbar;
  - `command.rs`: the command language;
  - `app.rs`: the key handling, the refresh clock and the status line.
- `app/` is the program around it: it reads the system with `sysinfo`, draws
  with `ratatui`, reads keys with `crossterm`, and stops the processes that
  the library names.
- `tests/` runs the library on concrete inputs.
