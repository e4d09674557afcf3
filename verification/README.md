# herdr plugin and popup logic, verified

A Verus library holding the decision logic of herdr's plugin API schema, its
popup panes and the confirmation of closing a pane that still runs a program.

- `src/api/schema/plugins.rs`: the plugin API records; `PopupSpec::merge`
  with its layering laws; `PluginActionInfo::qualified_id`.
- `src/api/schema/plugin_path.rs`: the directory name of a managed plugin
  (readable slug, `-`, short SHA-256 tag) and its portability laws.
- `src/api/schema/popup_dimension.rs`: reading and writing popup dimensions
  (`"80%"`, `"60"`, `60`), with the round-trip law.
- `src/workspace/popup.rs`: resolving popup styling, applying breakpoints and
  computing the outer and inner rectangles, with the centering and
  minimum-interior laws.
- `src/client/shell/confirm_running.rs`: the state machine that probes,
  confirms and sends the close of a running pane, with its fail-closed laws.
- `src/executable.rs`: the order in which the program binary is searched.
- `src/text.rs`: character helpers (trimming, decimal numbers, ASCII case).

`app/` holds what is not verified: the serde wire forms of the schema types,
the filesystem search for the program binary, and the conversion between
ratatui's rectangles and the library's.

Popup colors: the program this library serves resolves color names with a
`parse_color` function of its configuration module, whose source is not part
of this project. Here a set color name resolves through ratatui's
`Color::from_str`, and a name that is no color gives `Color::Reset`; the
palette defaults apply only where no name is set. Likewise the pane-id,
pane-state and client-shell types that the popup and close logic work with
are defined here only as far as that logic reads them.
