# orbit_pi

Verified core of the subagent views of the Orbit desktop client for pi:
which saved sessions are subagents of which parent, how the sidebar groups
them into families, what a saved child transcript shows, what the agent
inspector lists, and how the quit prompt reacts.

- `src/` is the library, written in Verus. Every function carries a contract
  over plain models (`Seq`, `Set`, `Map`, and the `Json` model of session
  entries) and is proved against it.
  - `json`: the JSON values of session files; parsing and printing go
    through serde_json. Its calls stand behind trusted items whose
    contracts are believed, not proved: the wrappers `parse_json`,
    `json_from_value`, `number_from`, `print_json` and `value_from_json`,
    the declared types `Value` and `Number`, the contract of
    `Number::clone`, and the names `parsed_json` and `printed_json` for
    what serde_json reads and prints.
  - `text`: string helpers (trim, bounded previews, joins, decimal text);
    `push_char` is a trusted wrapper over `String::push`.
  - `agents`: the pi-subagents AgentDetails reader, state labels, summary,
    and the inspector's facts and sections.
  - `origin`: subagent recognition from parent transcripts and declared
    origin records. Session paths are compared by a key that depends on a
    `PathStyle`: the text itself, or on Windows the text with forward
    slashes, without the verbatim prefix, in lower case. Lower case comes
    from std's `str::to_lowercase` through the trusted wrapper
    `to_lowercase`, whose result is the name `lowercased`.
  - `family`: family roots of sessions (cycles and missing parents are
    orphans).
  - `sidebar`: workspace sections and subagent groups.
  - `history`: the active branch of a saved transcript and the history
    view's state.
  - `quit`: the close confirmation.
- `app/` reads files from disk, picks the platform's `PathStyle` and
  formats what depends on floating point; it hands the library plain
  values.
- `tests/` runs the library on concrete inputs.
