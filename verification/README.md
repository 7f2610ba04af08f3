# benchmarks

Measures how well and how fast approximate nearest-neighbour engines answer:
their recall against the exact nearest neighbours, the time they take to build
an index and to search it, and the size of the database.

- `src/` is the library, verified with Verus: which runs are made and in which
  order (`plan`), how numbers and lists are read (`number`), which queries are
  drawn and which answers are right (`queries`, `single`), how answers are scored
  (`recall`, `search`), what is recorded while an index is built (`metrics`,
  `load`, `hannoy_bench`, `arroy_bench`, `time`), and how all of it is written out
  (`report`, `size`, `text`, `scenarios`).
- `app/` is the program around it: the command line, the files, the databases,
  and the distances in floating point.
- `tests/` runs the library on concrete values.

What is taken from other crates without proof is marked
`#[verifier::external_body]` or `assume_specification`, next to a comment that
names the function and says what is claimed of it.
