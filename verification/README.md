# zjstatus_icons

The per-pane status icons of the zjstatus bar and the line protocol that feeds
them, written in Verus.

- `src/` is the verified library: decimal text (`decimal`), splitting text the
  way `str::split`/`str::lines` do (`text`), the shared icon file's name, text
  form and read-merge-write steps (`icons`), the line protocol and the plugin
  state it updates (`pipe`), a small text-keyed map (`named`), clock readings
  (`clock`), and the properties that hold across these operations (`laws`).
- `app/` does the file I/O: it reads a session's icon file, hands the contents
  to the library, and writes back what the library computes (atomically, via a
  temporary file and a rename). It also drains the icon writes that the
  protocol queues.
- `tests/` exercises the library on concrete values.
