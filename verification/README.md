# printpilot

The rules and decisions of PrintPilot, a desktop platform that takes a 3D-printed product from
an idea to a listing, written in Verus and proved against their contracts.

## Layout

- `src/` — the verified library.
  - Projects and their spine: `stage`, `project`, `gate` (stage gates computed from what a
    project has produced), `store` (what the store accepts before it writes), `errcode`.
  - Research: `research`, `research_run` (queries, evidence cards, citations, the messages sent
    back to the model), `research_flow` (the order of a run as a state machine), `pricing` (the
    competitor price band).
  - Modelling: `contract` (sections of a CAD script), `params` (reading and rewriting the
    `PARAMS` section), `cad`, `cad_agent` and `build_loop` (the write–run–check loop as a state
    machine), `chat`, `json`, `worker` (the resident engine process's protocol and pool).
  - Pictures and publishing: `imagery`, `image_plan`, `publish` (the listing lint),
    `publish_draft`, `xml`, `asset`.
  - Meshes: `topology` (pieces, edge kinds and the cut rim of a triangle mesh), `stl` (binary
    STL framing).
  - `text`: string helpers with their specifications.
- `tests/` — tests run against the compiled library.
- `app/` — what runs around the library and is not verified: floating-point geometry and
  pricing, mesh files, the CAD engine process and its pool, the SQLite store, and the calls to
  language models and search, each reached through a trait or a closure the caller provides.

Every outside call the library makes goes through a trusted item whose contract is written next
to it (`asset::new_id`, `text::push_char`).
