# fastdl

A FastDL file server for Source engine games: it serves files from `storage/`
(raw, with byte ranges), falls back to `.bz2`/`.gz` variants and to pre-compressed
copies under `auto/`, lists directories where allowed, and guards everything with an
ordered list of access rules from `config.yaml`.

## Layout

- `src/` — the verified library (Verus):
  - `rules/` — the rule engine: conditions (`and`/`or` groups, field operators),
    actions (`deny`, `allow`, `access`), address matching over parsed addresses, and
    in-order evaluation with its laws;
  - `handler.rs` — request planning: reading a request, confining its path to the
    storage root, applying rules and blocked extensions, fallbacks, ranges, listing
    permission, client addresses;
  - `paths.rs` — paths as component lists and lexical normalisation;
  - `directory.rs` — the listing page: sizes, icons, escaping, link encoding, order;
  - `config.rs` — the configuration model, pattern collection and memory estimate;
  - `archive.rs` — which compressed copies a stored file needs;
  - `text.rs` — character-level helpers.
- `app/` — the server around it: HTTP (axum), the file system, YAML loading,
  watchers, compression, and parsing addresses and networks.
- `tests/` — tests of the library, several of them comparing it with `std` on many
  inputs.
