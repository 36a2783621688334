# web2app

A packer that turns a web page URL into a single-file desktop application.
The product is the packer itself with a configuration appended to its end,
so every product can pack new applications in turn.

The tail format is `<payload JSON> <MAGIC:16> <payload_len:u64 LE>`, found by
counting 24 bytes back from the end of the file.

Layout:

- `src/` — the verified library: the tail format (`tail`), the payload's
  string syntax (`json`), URL rules and the packed product (`builder`), file
  and directory names (`ui`, `webview`), the entry point's decisions
  (`launch`), and character helpers (`text`).
- `app/` — the executable: file access, the window and web view (tao, wry),
  and the event loop.
- `tests/` — tests of the library.
