# folio-core

The logic of a family of EPUB tools (a reader, a book editor, a library
browser and an image viewer), written in Verus: each public function states
in its contract what it returns or changes, and Verus proves it.

## Layout

- `src/` — the verified library.
  - `text`, `numbers`, `entities`, `paths`: characters, numbers, HTML
    entities and file paths.
  - `css`, `style`: style sheets, selector matching and the keyword part of
    an element's resolved style.
  - `markup`, `content`, `xml`: chapter XHTML read into headings,
    paragraphs, images, tables and lists.
  - `fonts`, `images`: embedded fonts and raster image headers.
  - `navigation`, `annotations`, `tts`: moving through a book, reading
    positions, highlights and read-aloud voices.
  - `project`, `syntax`, `editor_ui`, `editor_app`: the book editor's
    project model, navigation documents (`nav.xhtml`, `toc.ncx`) and their
    manifest entries, source highlighting, and the editor window's logic and resource list.
  - `library`, `library_ui`: the library browser's covers, preferences and
    window logic.
  - `viewer`: the image viewer's turns, flips and themes.
  - `reader_ui`: the reader window's logic.
  - `assoc`, `sorting`: association lists and stable sorting.
  - `laws`: properties that relate several operations.
- `tests/` — tests on concrete values.
- `app/` — a command-line front end that does the file, process and
  system work and hands plain values to the library.

Calls into outside crates (`roxmltree`, `ttf-parser`, `image`, `pathdiff`,
`path-slash`, `sha2`) stand behind small wrappers whose contracts are
trusted; their doc comments say what each one claims.
