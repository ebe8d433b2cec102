# tuicr

The verified core of a terminal code-review tool.

- `diff_document` classifies the lines of a diff hunk into the rows of the
  document view, and draws a row as a `ratatui` line.
- `file_backend` turns plain files outside any repository into reviewable diffs.
- `model`, `vcs`, `path`, `text`, `order` and `terminal` hold what these two
  stand on. Everything that is taken on trust stands in `terminal` (the calls
  into `ratatui`), `text` (`String::push`) and `vcs` (`std::io::ErrorKind`).
- `document_laws` and `backend_laws` prove what holds of the whole.

`app/` reads files, walks directories, converts paths and styles, and draws hunks.
