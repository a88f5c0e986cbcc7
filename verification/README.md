# foxmd

A markup language with bracketed tags (`[b]bold[/b]`, `[color=red]..[/color]`,
`[url=..]..[/url]`, `[code=rust]..[/code]`, `[definition=word]..[/definition]`,
`[title]..[/title]`, `[noparse]..[/noparse]`, ...) and a builder that renders a
directory of `.fmd` files to HTML pages with a table of contents and an appendix
of definitions.

Layout:

- `src/` — the library, verified with Verus.
  - `pattern.rs`: compiled regular expressions (the `regex` crate) and names for
    what they match.
  - `tags.rs`: the tags, their expressions, and recognising a token's tag.
  - `text.rs`: text operations (replacing, counting, byte ranges of UTF-8 text).
  - `tokenize.rs`: breaking text into tokens at its tags.
  - `render.rs`: escaping text and rendering tokens as HTML.
  - `fmd.rs`: a document (`FMD`) and its passes: tokens, definitions, title, HTML.
  - `site.rs`: files to build, table of contents, appendix, links between directories.
- `app/main.rs` — the program: walks the directory, reads and writes files, and
  runs the documents through the library on a thread pool.
- `tests/` — tests of the library.
