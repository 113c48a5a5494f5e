# ssedit

A structured data stream editor: it reads a JSON (or YAML) document one
character at a time, and prints the part of it that a JSON path selects,
keeping the document's text exactly as written (tabs, spaces and line
breaks included).

- `src/` is the verified library:
  - `json/lexer.rs`: the streaming JSON lexer, its transition function and
    its laws (well-formedness is kept, emitted tokens are never changed,
    every character read is kept in the tokens' text, refused characters
    leave the lexer unchanged, tokens come out in order).
  - `json/lexer2.rs`: a smaller streaming JSON lexer.
  - `json/path.rs`: JSON paths and reading them from text such as
    `$.batters.batter[1].type`.
  - `json/query.rs`: the query that follows a path through a token stream
    and says which tokens are selected, with a model of the open structures
    of the document and the law that ties them together: the query is at
    the path's end exactly when the document is at the value the path
    addresses, and only that value is selected.
  - `yaml/lexer.rs`: the streaming YAML lexer.
  - `text.rs`: character helpers (decimal integers, appending to strings).
  - `json/query.rs` also holds the output rule of a selection
    (`selection_output`): a single selected value alone, or else the
    selected text as written.
- `app/main.rs` is the command line program: argument parsing, reading
  standard input, printing the output pieces (a float's text printed as the
  floating-point number it reads as).
- `tests/` exercises the library on concrete documents.
