# dugout

A local secrets manager for development teams: secrets live in the repository,
encrypted with age for every team member, and are injected into commands or
written to `.env` files on demand.

The library under `src/` is verified with Verus. Its contracts are stated over
sequences, maps and views of each type:

- `vault` — the vault: setting, reading, removing, importing and exporting
  secrets; adding and removing members with re-encryption; sync detection; and
  the laws that tie these operations together.
- `cipher` — age encryption (`age`), the hybrid envelope (`envelope`), backend
  selection (`backend`), the KMS backends (`kms`) and GPG (`gpg`), whose
  outside commands the caller runs (`command`).
- `config`, `strmap` — the vault file's contents, kept in key order.
- `domain` — `.env` text, diffs, identities, recipients, secrets.
- `validation`, `constants`, `detect`, `audit`, `fingerprint`, `store`, `text`.

`app/` is the command-line program: argument handling, files, processes and
the TOML format of the vault file. `tests/` exercises the library.
