# QLang

QLang is a small language for matrix and vector computation. Programs are
checked for type and shape compatibility, then turned into C; the `qlc`
command builds a native executable from that C code.

## Layout

- `src/` — the compiler as a verified library:
  - `lexer` — source text to tokens (whitespace and `//` comments skipped);
  - `parser_spec`, `parser` — the grammar as spec functions over token
    positions, and the recursive-descent parser proved against it;
  - `checker` — the type and shape rules (`spec_infer`) and the checker
    with its table of named values, with the shape laws of the language;
  - `codegen_spec`, `codegen` — the C text each construct produces, and the
    generator proved to write exactly that;
  - `compiler` — the whole pipeline from source text to C, and the name of
    the executable built from a source file;
  - `numbers`, `chars`, `ast` — literals, character classes, the syntax tree.
- `tests/` — tests of each stage and of the whole pipeline.
- `app/` — the `qlc` command: argument handling, files, and the C compiler.
