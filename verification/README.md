# bughunter

Mutation testing for TypeScript: bughunter changes one operator token of a
source file, runs the project's test suite against each change in a copy of
the repository, and reports which changes the suite noticed.

The library under `src/` is verified with Verus. Its contracts state, over
sequences of characters and bytes:

- `syntax`: what the oxc parser hands over (diagnostics, tokens, mutation
  sites), named by `typescript_scan` and trusted;
- `finder`, `mutant`, `operator`, `order`: which mutants a source yields, at
  which line and column, in which order, and what applying one does to the
  text;
- `options`, `discovery`, `plan`: the command line, which files a `--file`
  selector names, the mutants planned per file and the baseline verdict;
- `runner`, `copying`: how a test run is judged, how results are ordered,
  and how a mutant's copy of the repository is laid out;
- `report`, `document`: counts, roll-ups, stable mutant identifiers, and the
  JSON and SARIF documents, character for character;
- `text`: the string helpers the rest is built from.

`app/` is the command itself: the file system walk and copies, process
groups and timeouts under tokio, and writing the reports to standard output
and to a file. What it runs, in which order, and what it writes are the
library's decisions; it divides the score, a floating-point ratio, which the
library then writes into the report (or `null` in its place).
