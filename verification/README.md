# booklib

A command-line book library on PostgreSQL. The crate under `src/` is
verified with Verus and holds everything the program decides: the book
record and the line it is listed under, the stable sort by a column in
either direction, paging with `--limit` and `--offset`, the search and
statistics reports, the messages of each command, integer rendering and
parsing, and the parsing of the command line into a command.

`app/main.rs` is the program around it: it reads the environment, talks to
the database through sqlx on tokio, reads import files with serde_json, and
prints the lines that the library returns.

Modules: `text` (digits, padding, comparison of text), `book`, `order`
(sorting and its laws), `listing` (pages, listing and search reports),
`stats`, `actions` (add, mark, rate, delete, import), `error`, `command`.
