# rsh

A small interactive Unix shell. The library (`src/`) holds what the shell
decides, with contracts proved by Verus:

- `text`: trimming, whitespace-separated words, splitting at a character,
  counting a character and prefix tests, each against a model over
  `Seq<char>`, with laws (splitting gives one piece more than separators and
  joins back to the line; trimming is idempotent and leaves the words alone).
- `rshio`: the session (`OS`), whose shown directory every constructor and
  method leaves as the working directory with the home directory
  abbreviated to `~` when it leads the path, as bash shows it (`OS::wf`); the shell's own
  arguments; the coloured prompt (colour codes from termion).
- `rshexec`: the command-line grammar: `>` to save a program's output, one
  `|` between two programs, the built-ins `cd`, `exit` and `quit`, and
  programs run from `/bin`. `run` turns a line into an `Action`.

`app/` is the program: it reads lines, runs processes, changes directory,
handles signals and prints, following the actions that the library plans.
