# reeknote

A command-line client for Evernote (`reeknote`) and a notebook exporter
(`gnsync`), with its logic written and proved in Verus.

- `src/` is the verified library: command-line parsing, the settings and
  the store (with its file format and the proof that a store reads back
  from the file it writes), search requests, note input, ENML and Markdown
  conversion, listings and note views, OAuth parameters, note export,
  duplicate detection, and the decisions of the commands that talk to the
  Evernote service (resolving notes, naming tags and notebooks from the
  caches).
- `app/` is the program around it: the terminal, files, the external
  editor, mpv, and the Evernote service over Thrift and HTTP.
- `tests/` runs the library on concrete values.
