# alloy

A compiler for Alloy, a small language that sits between RISC-V assembly and C: registers
are named directly, while `if`, `while`, `for`, constants, aliases and global data are
lowered to GNU RISC-V assembly.

The library in `src/` is written in Verus and proved against its contracts:

- `text`: character-level helpers (whitespace, decimal text, integer parsing, trimming).
- `lexer`: source text to tokens; `tokenize` is proved equal to the token model `tokens_of`.
- `grammar`: the grammar as spec functions over token sequences.
- `parser`: the recursive-descent parser, each method proved to follow `grammar`.
- `ast`: the syntax tree and its mathematical model.
- `assembly`: the assembly each construct lowers to, as spec functions.
- `codegen`: the code generator, proved to write exactly what `assembly` states.
- `config`, `source`: reading `config.txt`, splitting source lines, recognising imports and
  the places an import is searched for.
- `laws`: properties of the compiler as a whole (the grammar never gets stuck, constants and
  aliases substitute, subtracting a number adds its negation, register names round-trip,
  M-extension operands are legalised, each local label is defined once within its statement's
  range of numbers, comments are ignored, the lexer loses only whitespace and comments, and
  re-lexing the tokens written with spaces gives the same tokens).

`app/main.rs` is the command-line driver: it reads files, expands imports, calls the library
and runs the configured assembler.
