# gw

The verified core of `gw`, a profile-aware front end for the Google Workspace
command line tool (`gws`). Every operation names a profile explicitly, and each
profile gets its own, isolated `gws` configuration directory.

Layout:

- `src/` — the library, verified with Verus.
  - `profile.rs`: profile names and accounts, the configuration root, profile
    directories, reading account metadata back, looking up, listing and adding
    profiles, and the laws that tie them together (safe names, isolation,
    add-then-get).
  - `json.rs`: JSON string literals, with the laws that the output is printable
    and that escaping is injective.
  - `cli.rs`: the command line: routing, the arguments of each `profile`
    subcommand, and the environment handed to the child process.
  - `output.rs`: what the commands print.
  - `text.rs`: character classes, string helpers, and the two std calls the
    library trusts (`String::push`, `{:?}` for `str`).
- `app/main.rs` — the program: environment, file system and `exec`, driven by
  the library.
- `tests/` — tests of the library.
