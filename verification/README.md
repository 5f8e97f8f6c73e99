# analysis

Parsing of log files with parser combinators over string slices.

- `src/parser/traits.rs`: the `Parser` trait (a parser's meaning is the spec
  function `spec_parse` over the characters of its input), `Parsable` and
  `Mapping`.
- `src/parser/text.rs`: character-level helpers (white space, prefixes,
  searching) stated over `Seq<char>`.
- `src/parser/combinators.rs`: quoting and unquoting, the text parsers and the
  combinators, with their laws (unquoting what `quote` wrote gives the text
  back; every parser consumes a prefix of its input; a permutation accepts its
  parsers in the given order; ...).
- `src/parser/constructors.rs`: constructors of the combinators.
- `src/parser/stdp.rs`: parsers of `u32`, `i32` and hexadecimal bytes.
- `src/parser/model.rs`: typed log records, their models and parsers.
- `src/parser/api.rs`: `just_parse`.
- `app/`: the command-line program (argument handling, file reading, printing).
