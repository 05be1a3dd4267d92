# claude_tmux

How long an AI session in a tmux pane has been idle, and what it is doing. The library
under `src/` is verified with Verus; `app/` does the reading that the library asks for.

- `detection` reads the status of a pane off the text it shows.
- `claude_session` is the search for the last activity of a session. A search waits for
  one answer at a time (the names in a directory, the text of a file, a local date) and
  goes on from it. `host` states what a whole search comes to, and that it ends.
- `transcript` finds the newest timestamp at the end of a `.jsonl` file. Where only API
  turns count, it leaves out every entry that is not of type `user` or `assistant`, such
  as those that are written in the background.
- `json` finds the value of a top-level pair in JSON text.
- One module per tool holds what is particular to its files.
- `clock` and `datetime` hold moments, the calendar and dates in text.
- `text`, `bytes`, `number` and `names` hold what the others need of text.

A text that has to be cut inside a character, and a time that cannot be counted, end a
search for good (`Probe::Abort`); the application panics there.
