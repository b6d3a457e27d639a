# My Daily Newspaper

A newspaper with one subscriber. Each morning an editor CLI researches the
reader's interests and writes the stories; the wire (YouTube and news feeds),
the X wire (the Grok CLI), the pictures and the score box are gathered around
it, and the edition is filed as `editions/YYYY-MM-DD.json`.

- `src/` is the library, verified with Verus: the feeds and how they are read,
  the editor's prompt and how its reply becomes cards, the copy desk, the
  score bug, the schedule files, the reader window's rules, the saved files'
  rules and the icon's letters and containers. Each public function states
  what it returns; `src/properties.rs` holds the laws that span functions.
- `app/` is the program around it: files, processes, the network, the clock
  and the drawing of the icon (floating point).
- `tests/` runs the library on concrete values.

Calls into outside crates (serde_json, url, regex, chrono, roxmltree, png,
ab_glyph) stand behind small trusted wrappers whose contracts name what the
call returns.
