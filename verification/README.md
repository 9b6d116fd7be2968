# codemap

Code intelligence for JavaScript and TypeScript projects: an index of files, symbols and imports, a
ranked map of the most important files, searches for symbols, files and dependencies, summaries by
language models, and an evaluation of all of this.

- `src/` is the library. Its functions are verified with Verus: each states in its contract what it
  returns or changes, over the models in the same file. Laws that span functions are the public
  proof functions named `law_*`.
- `tests/` are its tests.
- `app/` is the `codemap` command around it: the file system, SQLite, HTTP, other programs, the
  Model Context Protocol, and the arithmetic on floating-point numbers.

## How the library is laid out

| Module | What it holds |
|--------|---------------|
| `parser`, `syntax`, `types` | what a source file imports, exports and declares |
| `graph`, `index` | the dependency graph, and what the index keeps of changed files |
| `db`, `queries` | the tables of the index and the questions to them |
| `map`, `symbol`, `query`, `deps`, `context`, `scorer`, `mcp`, `setup` | the commands |
| `api`, `enrich` | requests to the providers of summaries, and what is done with their answers |
| `eval` | datasets, measures, conversations, sessions, reports and the archive of runs |
| `text`, `order`, `json`, `hash`, `output` | what the others build on |

Ranks and scores are floating-point numbers. The library carries them as their bits, orders them, and
gets the arithmetic on them, and their texts, from its caller.

## What the command asks for

Some names are not built in: `setup` takes the directory of the client's settings with
`--settings-dir`, `eval e2e` the program of the client with `--client`, and summaries by Anthropic
need a model, with `--model` or in `ANTHROPIC_MODEL`.
