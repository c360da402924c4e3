# baller

B.A.L.L.E.R — the Binary Allocation & Library Launch Environment in Rust: a
package manager for Linux and Windows that drafts (installs) packages from
GitHub releases, a Baller registry, Chocolatey feeds, the native Linux package
manager or cargo.

## Layout

- `src/` — the library, written in Verus, with contracts proved by Verus:
  the `.ball` and `baller.conf` parsers, manifest decoding (through the
  `toml` and `serde_json` crates) and normalization, dependency parsing,
  the dependency walk (as a function of the registry's answers) and
  install ordering (cycle detection, topological sort), GitHub asset
  selection, Chocolatey, apt/dnf/pacman and cargo output parsing, the HTTP
  retry policy, hook and injected-command rules, help rendering, and the
  plans of each subcommand (draft, eject, freeze, roster, substitute,
  sweep, update, build, inject), and the roster's CycloneDX inventory.
- `tests/` — tests of the library on concrete inputs.
- `app/` — the `baller` program around the library: argument parsing (clap),
  the SQLite roster (rusqlite), HTTP (reqwest), the loop that asks the
  configured sources in turn, turning decoded manifests and replies into
  packages (serde), archive download, file digests for the checksum check
  (`sha2`) and extraction, hook scripts, prompts and links. It hands the
  library plain values and carries out what the library decides; the order
  in which a command runs its checks, fetches, hooks and database writes is
  written in `app/`.

Calls into outside crates made by the library (semver, regex, colored, hex,
base64, toml, serde_json, and std's case mapping) go through small trusted wrappers whose
contracts are documented next to them.
