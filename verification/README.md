# alog

A static blog generator: Markdown posts and pages with YAML frontmatter become a
site of post pages, standalone pages, paged lists by date, category and tag, and
an RSS feed.

- `src/` is the library, verified with Verus: frontmatter splitting, dates from
  frontmatter, file names and directories, titles, slugs and URLs, the site plan
  (which pages exist, what each shows, where each is written), the feed, the
  command-line overrides, the watcher's event filter, and the older single-page
  layout (post linking, the paged list, settings and request handling).
- `app/` is the `alog` command around it: file and network I/O, YAML and TOML
  parsing with serde, the askama and tera templates, the development server and
  the file watcher.
- `tests/` exercises the library.
