# ncc

A compiler for a tiny subset of C: one function `int name(void)` whose body
is `return <expression>;`, with integer literals, the unary operators
`+ - ! ~` and the binary operators of C from `*` down to `|`, compiled with
Cranelift into a native object file that exports the function.

The library in `src/` is verified with Verus:

- `token`, `lexer`: tokens and the lexer, specified by `lexer::lex_bytes`.
- `grammar`, `frontend`: the grammar as functions on token sequences, the
  syntax trees, and the recursive-descent parser, specified by
  `grammar::parse_source`.
- `error`, `text`: errors and their messages.
- `ir`: the instructions handed to Cranelift, as plain values, and what
  each computes.
- `codegen`: lowering of the syntax tree to those instructions
  (`codegen::lowered`, proved to compute the expression's value), and the
  object module built from them (`codegen::compile_module`), written out as
  an ELF file (`backend::write_object`); `backend` holds
  the calls into Cranelift, each with the contract Verus believes of it,
  over a record of what has been handed to Cranelift.
- `laws`, `spelling`: what holds across these functions (printing and
  reading back, C precedence and associativity, comments, literals); the
  lexer's own laws stand in `lexer`.

`app/` is the command-line program: it reads the source file, calls the
library, and writes the object file.
