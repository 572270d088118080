# rerics

The decisions of a two-pane file manager, verified with Verus.

- `src/` is the library. Everything in it is verified: file operations (`operation`), locations on
  disk and in archives (`vfs`, `archive`, `winpath`), what can be done inside archives
  (`archive_ctl`, `unpacking`), the list of files with its mouse, layout and painting (`file_list`), dialogs
  (`dialog`), the text and binary viewer (`viewer`), the status bar (`status`), and the server that
  lets tests drive the program (`debug_server`, `debug_ctl`, `debug_json`, `snapshot`).
- `app/` is the program round it: arguments, the disk, archives through the crates that know their
  formats, and the server's connections.
- `tests/` runs the library, with the real crates.

The library never touches the disk. A file operation is a machine that hands out a step: effects
to carry out, and one question whose answer is fed back to it. What it does with every answer is a
spec function (`copy_step`, `delete_step`, `extract_step`, ...), the executable machine is proved to
do the same, and the promises that hold of whole operations are proved of that function, as proof
functions whose names start with `law_`.

What is not proved is what other crates do. Each call into one stands in a small function marked
`external_body` whose doc comment says what is claimed of it.
