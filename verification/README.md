# patpubrender

Reads USPTO patent documents (application XML of versions 1.5, 1.6 and
4.0–4.6, grant XML of version 2.5, and Green Book "APS" grant text) into one
document model, writes the XML schemas back, and renders Markdown under a
YAML frontmatter header. Rendered documents can be packed into shards: a
`.zst` file of independent zstd frames and a tab-separated `.idx` table.

Layout:

- `src/` is the library, written and proved with Verus. Every function
  carries a contract over a mathematical model of its inputs and result.
  The calls into `xmloxide` (XML reading) and `zstd` (frames) stand behind
  small trusted wrappers whose contracts say what those crates document.
- `app/` is the command line program: argument handling, files, ZIP
  archives and threads around the library.
- `tests/` holds the tests, run against the compiled library with the real
  outside crates linked.
