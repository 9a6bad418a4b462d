# bws

The logic of BWS, a small Minecraft (1.16.5) lobby server, as a library
verified with Verus, with a thin program around it.

- `src/` is the verified library. Its public functions have contracts that
  Verus proves, over the wire format of the protocol (`datatypes`, `connection`,
  `legacy_ping`, `packets`), the lobby world with its block palettes, block
  placement and flowing liquids (`world`, `lobby`, `placement`, `fluids`,
  `editing`, `chunks`, `map_file`), chat text (`chat`), the login world and its
  accounts file (`login`), chat commands, permissions, bans and who may log in
  (`commands`, `moderation`), the
  command line (`cmd`), shutdown (`shutdown`, `graceful_shutdown`), and the
  plugin interface (`plugin`, `events`, `dependencies`, `safe_types`).
  Calls into `flate2`, `md5`, `sha2` and `semver` stand behind small trusted
  wrappers whose doc comments say what is assumed of them.
- `app/` is the program: argument parsing with `clap`, sockets and tasks with
  `tokio`, files, JSON with `serde_json`, and the Ctrl-C handler. It reads and
  writes; it does not yet enter the play state, and it still decides a few
  things itself (the status answer, the texts of login refusals, dates).
- `tests/` runs the library on concrete values.
