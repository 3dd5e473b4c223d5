# homework_manager

The verified core of a local-first homework manager for university
courses: semesters, courses and assignments, files linked to assignments
and renamed by a naming template, an AI-assisted import of assignment
drafts, and capability-based local modules.

- `src/` is the library, checked by Verus. Each module states its rules as
  spec functions over `Seq<char>` and proves the executable functions
  against them: `text` (the string model), `order` (a stable sort by text
  keys), `files` (segments, link descriptions, rename targets, undo),
  `db` (records, remembered values, backups), `ai` and
  `assignment_import` (file capabilities, model answers, course matching,
  request framing, provider checks), `modules` (manifests, module list,
  module answers). Laws that relate several functions are public proof
  functions next to them.
- `app/` holds what runs around the library: SQLite, the file system, the
  credential store, HTTP calls to model providers and module processes.
- `tests/` runs the library on concrete cases.
