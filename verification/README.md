# alpine_studio

The logic of a native code editor, written in Verus and proved against its
contracts.

- `src/` is the verified library. Each module states what its functions do
  over mathematical models (`Seq`, `Map`, `Multiset`, views of its types) and
  proves it: the surface lifecycle and frame demand, the command palette, the
  literal find, document tabs with their navigation history, the workspace
  file tree with its bounded directory scans and row projection, the
  source-to-display composition, the dogfood evidence, and the language-server
  client: framing, headers, the JSON-RPC peer, process configuration, poll
  decisions and waiting protocol writes. Calls into `std`, `serde_json` and
  `ignore` that Verus cannot see stand behind small trusted wrappers whose
  contracts say what their documentation promises.
- `tests/` runs the library on concrete values.
- `app/` is the I/O around it: reading directories from disk and their
  ignore files, parsing JSON-RPC bodies, driving client polls, and writing
  dogfood reports.
