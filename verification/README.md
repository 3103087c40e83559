# beads_store

The core of an issue tracker that keeps its issues in a relational database, with its behaviour
stated in contracts and proved.

The library in `src/` performs no input or output. It composes the statements that are run against
the database, reads the rows that come back, and decides what happens next. Where a task goes back
and forth between the database and decisions, it is a machine: the driver performs an action, hands
the reply back, and gets the next action.

| Module | What it is about |
|---|---|
| `model`, `error`, `clock` | issues and what hangs on them, errors, points in time |
| `text`, `scan`, `order`, `pattern`, `json`, `assoc`, `chunk` | texts, numbers, orders, `LIKE` patterns, JSON lists, maps, runs of a list |
| `sql` | statements, values, rows, and putting statements together |
| `rows` | issues as rows |
| `mutation` | what a change records, and the transaction around it |
| `issues`, `update`, `upsert`, `links`, `labels`, `comments`, `details`, `settings` | changing, importing and reading issues, dependencies, labels, comments, settings, export marks |
| `queries`, `searching` | listing, searching, ready issues, and what each of these selects in which order |
| `blocked`, `caching`, `external`, `cycles`, `circuits`, `descend` | the cache of blocked issues and what a rebuild leaves in it, dependencies on other projects, cycles, descendants |
| `batch`, `close`, `route`, `closing`, `command` | closing issues: which close together, in one database, in several, and the report |

Functions whose names begin with `lemma_` and that are public state laws of the library.

`app/` runs the library on a live connection; `tests/` runs it on concrete values.
