# gws_completion

Shell completion for the `gws` Google Workspace command line, as a verified
library.

- `src/` holds the logic of completion, verified with Verus: what the shell
  helper passes to `gws __complete`, which words are completed, which
  candidates each command offers, how candidates are narrowed and ordered, and
  how a service word resolves to an API and version.
- `app/` holds what runs around it: printing the scripts, the usage text and
  the candidates, reading `COMP_CWORD`, getting a service's command tree (a
  `clap::Command` built from its Discovery document), and turning that command
  into the library's `CommandSpec`.
- `tests/` runs the library on concrete requests.

The services that completion knows by name (`src/services.rs`: their
aliases, API names and default versions, and the message for an unknown
name) and the error type (`src/error.rs`, its validation case) are this
crate's own list and type; the Discovery fetch and the building of a
service's `clap::Command` are left to the program that uses `app/`, through
its `CommandTrees` trait.
