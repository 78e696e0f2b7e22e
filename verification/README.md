# datapack

Compiles a tree of football data, many small JSON files, into one gzipped JSON
document, the database. What the program decides is verified with Verus.

- `src/` is the library. `walk` decides what to read, `records` and `satellites`
  what to make of it, `document` puts it together, `codec` reads and writes JSON
  and compresses. `tree` states what a whole tree comes to; the modules whose
  names end in `laws` prove what holds of it.
- `app/` is the program: it looks at the file system on behalf of the library,
  and prints.
- `tests/` runs the library on trees in memory.

Not proved, but believed: that `serde_json` reads, holds and writes JSON, that
`flate2` compresses, and that `String::from_utf8` decodes UTF-8, as the doc
comments of the items that call them say.
