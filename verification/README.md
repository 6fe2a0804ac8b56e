# pie

`pie` builds official releases of language runtimes and databases from source, as
position independent executables, from typed recipes. This crate holds what the
program decides and computes, verified with [Verus](https://github.com/verus-lang/verus),
and the program around it.

## Layout

`src/` is the library. Every function in it that decides or computes something has a
contract over mathematical models (texts are sequences of characters, maps are maps),
and Verus proves that its body meets it. Of one thing nothing is claimed: whether
standard output takes colours, which is up to the terminal and the environment.

| Module | What it holds |
|---|---|
| `resolve`, `select`, `version` | Resolving a requested version against a project's own release index |
| `build` | The pipeline of a build: variables, steps, checksums, verification, packaging |
| `elf` | Reading ELF64 images, and telling position independent executables from others |
| `recipe`, `template` | Recipes, looking them up, and expanding their templates |
| `ui`, `cli`, `runner` | What is reported, and what the commands and scripts come to |
| `text`, `text_map`, `number`, `path`, `json` | What the others are written in |

Resolution and verification ask questions that only the network or the file system can
answer. There the library is a state machine: a function gives the next question or the
outcome, and the answer to a question gives the next one.

What holds of several functions together is stated as proof functions whose names begin
with `law_`, at the end of each module.

`app/` is the program: command line, files, processes, terminal and network. It asks
what the library wants to know and does what the library decides.

`tests/` runs the library on concrete values.

## What is trusted

A few functions of `std`, `console` and `sha2` are called through wrappers whose
contracts Verus takes as given. Each has a doc comment that says what is claimed of the
function that it calls.
