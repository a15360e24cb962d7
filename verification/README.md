# sql_teacher

A terminal course that teaches SQL in ten modules, each ending in a quiz; a module
opens only when every module before it has been passed (95% for a module quiz, 90% for
a major quiz), and the learner's progress is kept in `data/progress.json`.

- `src/` is the verified library (Verus): the curriculum order and lookups
  (`curriculum`), quiz results and the progress record (`models`), the gating rules and
  their laws (`gate`), quiz grading (`quiz`), the decisions behind the screens (`ui`),
  and text helpers (`text`).
- `app/` is the program around it: terminal menus and prompts, reading the module
  `.toml` files and reading/writing the progress file (with serde copies of the
  library's types).
- `tests/` exercises the library.
