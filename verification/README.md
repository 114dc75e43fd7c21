# cortex

A persistent semantic memory layer: it turns source code into dense units, keeps patterns,
anti-patterns and notes that were approved, and answers questions about them as a tool server.

`src/` is the library. Its functions carry contracts that Verus proves: what each report says, which
entries a question finds, when a proposal is made, and that nothing is committed without approval.
`app/` is the command line around it: SQLite, files, `git`, standard input and output, and the
floating-point similarity of texts. `tests/` runs the library on concrete values.

| Module | What it decides |
|---|---|
| `text`, `numbers`, `order`, `lists`, `floats`, `rates`, `hash`, `json`, `clock` | texts, numbers and documents |
| `model`, `memory`, `prefs` | what the memory holds, and its rows |
| `source`, `compressor` | source code and API graphs as dense units |
| `output_filter` | compaction of command output without losing a diagnostic |
| `paths`, `graph_diff` | shortest paths and drift in the code graph |
| `recall`, `status`, `git_review`, `adr`, `bootstrap`, `commands` | what the commands answer |
| `reasoner` | impact of a change, and the loop that criticises a hypothesis |
| `closeout`, `consolidator`, `consolidator2`, `meta`, `session_store` | closing sessions and learning from them |
| `mcp` | the tools and the protocol of the server |

Contracts speak of texts as sequences of characters. Rates are fractions of two counts, compared and
told as floating-point arithmetic does it, which `floats` states over integers; or the bit patterns
of stored floating-point numbers together with their rendered texts.
