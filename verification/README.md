# lightscrape

Reads web-novel sites (table of contents, chapter pages) and lays the chapters
out as markdown files for an epub. The page-reading logic is a Verus library
with proved contracts; downloading, progress bars, prompts and the epub
renderer are an ordinary program around it.

- `src/text.rs`: searching, cutting, replacing, splitting and trimming text,
  each specified over `Seq<char>`; laws such as "split then join gives the
  text back" and "trim is idempotent".
- `src/utils.rs`: the text between two markers, a novel's title and cover
  image, a chapter's text (through `regex` and `html2md`).
- `src/links.rs`: making a page's `href` an absolute `https://` address.
- `src/async_mode.rs`: the contents-page address, the chapters a contents page
  lists, when the listing ends, and the "servers are busy" answer.
- `src/sync_mode.rs`: the "Read Now" and "next" links and the decision taken
  on each chapter in the chapter-by-chapter walk.
- `src/book.rs`, `src/number.rs`: chapter file names, chapter files, the
  summary, numbered contents pages, decimal numerals.
- `app/`: the command-line program (downloads, prompts, epub output).
- `tests/`: tests of the library on concrete pages.
