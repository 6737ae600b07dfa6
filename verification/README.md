# codex_context_lock

The verified core of two pieces of the Codex configuration:

- `lock`: reading a builtin context lock. A lock file lists, per section
  (`base_instructions`, `fragments`, `tools`, `templates`), entries by id.
  Reading keeps the entries whose id this build knows, warns about the others,
  rejects a known id that repeats within a section, rejects an enabled base
  instructions entry without content, and decides what becomes of the model
  catalog's base instructions.
- `lock_cmd`: the choices behind `codex builtin-context-lock generate`: config
  override order, output path, default model, personality, catalog match.
- `freeform`: the MCP text contract: which MCP tools take raw freeform input,
  how they are declared to the model, how raw input becomes MCP arguments,
  and what of an MCP result the model sees.
- `json`, `text`: the JSON value model and text helpers these use.

`app/` holds the file and network I/O, the command line and the conversions
from the serde and MCP SDK types. `tests/` exercises the library.
