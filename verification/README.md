# astray-verify

Records the discovery contract of an MCP stdio server (its `tools/list`,
`resources/list` and `prompts/list`) as a JSON fixture, replays it later to
catch breaking changes, and audits a server for protocol and
discoverability weaknesses.

## Layout

- `src/` is the verified library. Every function carries a contract that
  Verus proves:
  - `json`, `entries`, `text`: the JSON value model, object entry lists and
    string order;
  - `normalize`: normalizing values and named discovery lists;
  - `contract`: the removed / added / changed lines between two lists;
  - `protocol`: the MCP messages and the discovery state machine;
  - `fixture`: validating, building and replaying fixtures;
  - `audit`: the audit findings, highest risk first;
  - `watch`: the snapshot of watched paths and when `watch` re-runs;
  - `config`, `ui`, `report`, `error`: project settings, paths, output
    lines and reports.
- `app/` is the command line program: argument parsing, files, the server
  process, JSON parsing and printing. It hands the library plain values.
- `tests/` runs the library on concrete inputs.
