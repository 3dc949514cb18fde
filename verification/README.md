# sel_deploy

A cryptographically chained deployment timeline. Each deployment that
`sel-deploy run` wraps becomes a signed JSON document (an attestation) that
names the hash of the one before it; `verify` checks every hash, signature
and link and fails the process when anything is wrong.

The library in `src/` is written in Verus and carries the decisions of the
program, each with a contract that Verus proves:

- `canonical`, `digest`: the canonical JSON text of a payload, SHA-256 and
  the `sel:v1.0:sha256:<hex>` hash format; JSON texts of strings, integers,
  arrays and objects are proved to read back unambiguously.
- `attestation::model`: the document, its v0.1 and v0.2 signed payloads and
  hashes, the argv-preserving command hash.
- `attestation::signer`, `attestation::verify`: Ed25519 keys, PEM and the
  other key file encodings, single-key and key-list verification.
- `attestation::chain`: the chain audit (breaks, gaps, missing predecessors).
- `attestation::tamper`: what changing a sealed document or deleting one from
  the chain does to verification.
- `storage`: the data directory layout, attestation file names and order,
  and the rows of the SQLite index.
- `commands`, `cli`: claims, exit codes, key rotation names, attesting a
  deployment, verifying a store, the timeline window.

Calls into `sha2`, `hex`, `base64`, `ed25519-dalek`, `rand`, `uuid`,
`chrono` and `serde_json` stand behind small trusted wrappers whose
contracts say what those crates do.

`app/` is the `sel-deploy` program around the library: argument parsing
(clap), files, SQLite (rusqlite), processes, the environment and printing.
`tests/` exercises the library on concrete values.
