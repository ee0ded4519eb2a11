# cookbook

A recipe, pantry and knowledge-base manager that keeps its data in plain
files: one YAML file per ingredient, one Markdown file with YAML front matter
per recipe and per knowledge-base article, and `pantry.yaml`.

The library (`src/`) is written in Verus and verified. It holds the data
model and every rule that reads or changes it:

- `model`, `manager`: ingredients, recipes, the pantry and articles, and the
  `DataManager` with its queries (filters, searches, groupings, usage) and
  updates (pantry items, creating, renaming and deleting ingredients, replacing
  recipes), with the files that each ingredient change rewrites.
- `document`, `markup`: front matter splitting and composing, file names,
  and the Markdown subset that articles are written in, converted to Pango
  markup.
- `forms`, `views`, `app_state`: what the edit dialogs make of their fields,
  what the panes of the window show, and the window's state machine (messages
  in, work for the application out, outcomes back in).
- `bridge`: what the Android app receives and asks for.
- `laws`: properties that relate several operations.
- `text`, `sorting`: text and ordering helpers with their specifications.

`app/` is ordinary Rust around the library: reading and writing the files
(serde), the settings files, the interface language, the loop that performs
the window's work, and the JNI functions of the Android app.
