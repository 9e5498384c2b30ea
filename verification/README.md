# skills_core

A catalog of agent skills, verified with Verus. Skills are local folders
holding a `SKILL.md` file, or commands that install them; they are grouped into
named sets, searched, and installed into a project's `.agents/skills` folder.

- `src/` — the library: the catalog and its operations (`store`), installation
  and export decisions (`install`), an installation under way, step by step
  (`installation`), ids derived from names (`slug`, `ids`),
  `SKILL.md` front matter (`frontmatter`), paths (`paths`), text helpers
  (`text`), the data model (`model`) and the laws the operations keep (`laws`).
- `app/` — the `skills-list` command line: reads and writes the catalog file,
  walks and copies folders, runs commands and asks for confirmation, carrying
  out what the library decides.
- `tests/` — tests of the library.
