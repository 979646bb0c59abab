# Open CAD Studio — verified core

The logic of the Open CAD Studio CAD editor that does not depend on geometry
or the GUI, written in Verus and proved against its contracts.

- `src/` — the verified library:
  - `manifest`, `plugin` — plugin identity and API version gate, the
    `plugin.toml` reader, discovery order and the plugins folder, which
    add-on tabs show and in what order, the host session a plugin talks to;
  - `transport`, `protocol` — length-framed messages between the host and a
    plugin process;
  - `mtext_editor` — the in-place MText editor: the caret-slot cell model,
    caret edits, the raw-text helpers of the formatting toolbar;
  - `text_support`, `entities` — text helpers used by rendering and the
    properties panel;
  - `command`, `modules`, `ribbon` — command answers, the text-driven
    commands (TEXTEDIT, TEXTEDITMODE, DIVIDE, JOIN, …), ribbon tools, and the
    Storm Sewer add-on's tab and command routing;
  - `cli`, `profiling` — startup options.
- `tests/` — tests run against the compiled library.
- `app/` — the program around it: argument parsing, the plugins folder on
  disk, sockets and serialization, and what rests on floating point.
