# the_page

The storage core of a daily Markdown journal, verified with Verus.

Pages live in a folder as `YYYY/YYYY-MM-DD.md`: YAML front matter, a dated heading,
and writing sessions marked with their local start times. Photographs sit in dated
folders beside the pages. Before a page is replaced, its writing is checkpointed for
recovery; a replacement preserves any version of the page that changed on disk.

## Layout

- `src/` — the verified library.
  - `text`, `calendar`, `dates_text`, `ids`: characters, dates and times as the pages
    write them, and page identifiers.
  - `sessions`, `journal`, `metadata`: reading and writing page texts. Metadata is held
    as everything its YAML mapping holds, entry by entry, so a draft's front matter is the
    page's own mapping with only the creation time (when missing), the update time, the
    end of the last input and the label stored in it: unknown metadata is preserved, in
    place. `session_laws` and `page_laws` hold the proofs behind `Journal::draft`'s
    contract: a drafted page reads back as its sessions with whatever metadata its front
    matter reads as, and as exactly the drafted metadata when that metadata reads back
    from its YAML text.
  - `storage`, `storage_laws`: which files are pages, where they go, and the dated
    listing of a journal folder.
  - `persisting`: the steps that replace a page on disk, as a state machine.
  - `markdown`, `photographs`, `press`: rendered photographs, their checks and names,
    and pressed-card images.
  - `recovery`, `recovery_names`, `saving`: recovery records and the order of a save;
    `copying`: exported copies with their photographs.
- `tests/` — tests of the library on concrete values.
- `app/` — the desktop program: file system work, the window and its commands. It
  drives the library's state machines and performs each step they ask for.
