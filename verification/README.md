# TerminalT

The logic of a desktop SSH client, written and proved in Verus.

- `src/` is the library. Every function states what it returns or changes, and
  Verus proves it.
  - Saved data: `assets`, `asset_files`, `asset_laws`, `connections`, `jump`,
    `routes`, `vault`, `credentials`, `settings`, `known_hosts`, `diagnostics`.
  - Connecting: `network`, `authentication`, `ssh_errors`, `ssh_login`,
    `ssh_route`, `connection_pool`.
  - Sessions: `session`, `session_loop`, `terminal`, `commands`.
  - Files and transfers: `paths`, `sftp`, `transfer`, `transfer_files`,
    `transfer_job`, `transfer_registry`, `walk_laws`.
  - Tunnels: `tunnel`, `socks_server`.
  - Shared: `models`, `error`, `text`, `lists`, `keyed`, `sort`.
  - `outside` holds the calls into other crates and the standard library, with
    what is claimed of them.
- `tests/` runs the library on concrete values.
- `app/` is the program around it: the window, the files, the credential store of
  the system, and the network. It performs the steps that the state machines of
  the library ask for and reports what came of them.

A state machine has a function that says what to do next, one that takes what
came of it, and one that gives the outcome. Its contract says each step over a
mathematical view, and the laws say what holds of whole runs: that the credential
store is as it was where a connection is saved and the data cannot be written,
that a target is as it was where the file that is to replace it cannot be moved
there, that a key that was not confirmed is refused.
