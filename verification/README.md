# cb

A command line clipboard that remembers what you copy: `cb FILE` or
`… | cb` copies, `cb` alone prints the clipboard, `cb peek` searches history
and copies an entry again, `cb watch` records every copy made anywhere, and
`cb completions SHELL` prints tab completion for bash, zsh or fish.

## Layout

- `src/` is the library, written in Verus. Every function is proved against
  its contract, except the small wrappers marked `#[verifier::external_body]`
  around std and `dirs` calls (lowercasing, collecting chars into a string,
  joining paths, the clock and the user's directories), whose contracts are
  trusted:
  - `args`: what the command line asks for, and the one trailing line ending
    that copying drops;
  - `history`: which entries history keeps (each text once, newest last, at
    most 500 of up to 1 MiB) and where the history file is;
  - `peek`: the search over history, the list of matches and the keys that
    move through it, how long ago an entry was copied, and where a search
    matches within a line, in bytes;
  - `watch`: which clipboard reads are new copies, when a failed read is
    tried again, when the watcher falls back to polling, how a watcher takes its address, where a running watcher
    listens, and the autostart entries that start one at login;
  - `completions`: the completion scripts;
  - `copy`: what is said when the process that serves copied text on X11
    and Wayland fails to take over;
  - `platform`: the marks that keep a password manager's copy out of
    history, and the answers where a platform can't say whether the
    clipboard changed or whether a copy is secret;
  - `text` and `encoding`: chars, whitespace, lines, search and UTF-8.
- `app/` is the program around it: the terminal, the clipboard, the history
  file, processes and sockets.
- `tests/` runs the library on concrete cases.

The laws of the library are public proof functions beside the functions they
speak of, such as `history::lemma_push_unique` (a change keeps each text
once) and `peek::lemma_matches` (the list holds exactly the entries that
match the search, in order).
