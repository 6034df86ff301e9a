# Moumy Editor

A recipe editor that reads and writes recipe Markdown files with YAML
frontmatter, serves them to a browser editor over HTTP, shows the scanned
manuscripts, transcribes them through an OCR service, pushes changes with git
and updates itself from GitHub releases.

## Layout

- `src/` — the verified library:
  - `recipe.rs`: the recipe types;
  - `store.rs`: splitting a file into frontmatter and body, reading the
    numbered steps, writing a recipe file, picking a recipe's file;
  - `yaml.rs`: YAML scalars and decimal numbers as they are written;
  - `slug.rs`: slugs made from titles;
  - `server.rs`: image candidates and groups, orphan images, `git status`
    and push decisions, OCR request pieces;
  - `paths.rs`: the editor's directories and content-path sanitizing;
  - `updater.rs`: version comparison, releases and the self-update procedure;
  - `order.rs`, `text.rs`: string order and sorting, character-level text.
- `app/` — the program: HTTP server, files, processes and network, driving
  the library.
- `tests/` — tests of the library.
