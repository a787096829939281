# gup

`git add` + `git commit` + `git push` with conventional commit messages, which
a local language model (Ollama) can write.

- `src/` is the library, verified with Verus:
  - `commit`: building and parsing `<type>[(<scope>)][!]: <description>`
    messages with bodies and `BREAKING CHANGE:` footers, and the proofs that
    parsing reads back what building wrote;
  - `cli`: the commit types and what the command-line arguments select;
  - `ai`: the prompts, the handling of streamed chunks, and the removal of a
    Markdown code fence around a generated message;
  - `git`: the git commands and what their outcome means;
  - `ui`: the review screen as a state machine, with the texts and sizes it
    draws;
  - `text`: searching, splitting, trimming, line breaking and joining of
    character sequences.
- `app/` is the program around it: argument parsing, running git, the HTTP
  stream from Ollama and the terminal screen.
- `tests/` runs the library on concrete values.
