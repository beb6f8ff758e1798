# kquickview

A quick-look previewer for KDE Plasma (Rust and Qt/QML) together with the
framing, configuration and database planning of an alarm receiver, written
as a Verus library with machine-checked contracts.

Layout:

- `src/` — the verified library:
  - `preview.rs`: file category from extension and guessed MIME type, what
    to read of a file, the text shown (Markdown rendered with
    `pulldown-cmark`, text decoded as UTF-8);
  - `listing.rs`: the folder's files sorted by file name, compared as the
    bytes of the operating system's strings, with proofs that the order is
    sorted, a permutation and stable;
  - `bridge.rs`: the window's state, arrow-key navigation and its laws;
  - `uri.rs`: percent-decoding of the `file://` URI copied from Dolphin,
    and the steps of reading the clipboard for it;
  - `crypto.rs`: AES-128 ECB frames of the receiver protocol;
  - `clock.rs`: the wall clock in whole seconds since the Unix epoch;
  - `config.rs`: the receiver's settings;
  - `database.rs`: report table names and the statements that save an event;
  - `text.rs`: string helpers.
- `app/` — the program: command line, clipboard access, file and folder
  reading, the Qt object, the local calendar month, environment and
  database access.
- `tests/` — tests of the library.
