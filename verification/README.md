# codegraph-ui

Shows the code graph of a SQLite database (files, nodes and edges) as a page in the browser.

- `src/` is the library. It decides: what the command line asks for, which statements are put to the
  database and in which order, what becomes of the answers, and which source lines are shown. It is
  written in Verus, and its contracts are proved.
  - `text`: lines, trimming, replacing, decimal numbers
  - `config`: the command line
  - `paths`: where a file is found
  - `error`: refusals
  - `rows`: requests, rows and answers
  - `sql`: the statements
  - `endpoints`: which edges can be drawn, and which nodes that takes
  - `graph`: how a graph is put together, step by step
  - `snippet`: the source lines of a node
- `app/` is the program around it: the server, the database connection, the files, and the page.
- `tests/` run the library, partly on a database in memory.
