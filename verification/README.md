# fzftask

An fzf-style terminal picker for [Taskfile](https://taskfile.dev/) tasks:
filter the tasks by a fuzzy (subsequence) match on their names, fill in any
`requires.vars`, and print the `task <name>` command for the shell to use.

The library in `src/` is written in Verus and verified:

- `matching`: the fuzzy match, proved to decide the subsequence relation,
  and the laws that a shorter needle or a longer name keeps a match;
- `quote`: shell quoting, with a proof that a POSIX shell reads the quoted
  word as exactly one word, the original value, with nothing expanded;
- `taskdef`: the task, include and required-variable shapes of a Taskfile and
  how their flexible YAML forms are normalised;
- `task_map`: the ordered task table (an `indexmap::IndexMap`);
- `load_model`, `loader`: loading a Taskfile and its includes as a state
  machine that asks the file system one question per step;
- `load_semantics`, `load_laws`: the direct recursive meaning of loading and
  the proof that the state machine reaches it, plus the properties every load
  keeps (distinct names, no internal tasks, each file read once, bounded depth);
- `required_vars`: collecting values for required variables and assembling
  the command line;
- `picker`: the picker's state and its response to keys, and the text of the
  command and details panes;
- `text`: trimming white space (verified over `char::is_whitespace`), small
  string utilities, and trusted bridges to a few standard-library text
  functions.

`app/` is the program around it: terminal handling with crossterm and
ratatui, reading files and parsing YAML with serde, and answering the
loader's questions from the file system.
