# scorium

Scorium is a readable, programmable configuration language: plain data
(`key = value`, `node { ... }`) with an opt-in programmable layer
(variables, `if`/`for`/`while`, functions, sandboxed Lua `script` blocks,
`include`).

This crate is the language's core, written in Verus and verified:

- `src/` is the library. Every function in it has a contract that Verus
  proves, except three small wrappers around std that Verus takes on
  trust: `String::push` (`text::push_char`), `char::is_alphanumeric`
  (`text::char_is_alphanumeric`) and the `{:?}` escaping of a string
  (`outline::debug_quoted`).
  - `lexer`, `token`: source text to tokens. `sp_tokens` states exactly
    which tokens (or which error) a text gives.
  - `parser`, `grammar`, `ast`: tokens to a syntax tree. `sp_document`
    states the grammar over the token stream, comments and blank lines
    included; `parse` returns exactly what it says.
  - `format`: the canonical formatter, with `document_text` as its exact
    specification, and the round-trip facts for strings.
  - `schema`: schemas, their builders, and validation, with the errors a
    validation reports stated as a function of the schema and the entries.
    A host's custom type is believed only where its implementation says,
    by `keeps_promises`, that it keeps the trait's promises; the library's
    own `NoCustom` does, and for one that does not, nothing is stated.
  - `value`, `number`, `span`, `source`, `text`: values, literals and the
    text utilities the rest is built on.
  - `evaluation`, `scope`, `entry`, `outline`: the parts of evaluation that
    use no floating point: integer arithmetic, comparisons, string
    interpolation, lexical scope and call frames, the sandbox's budgets and
    what a script block may see, and the evaluated entry tree.
- `tests/` exercises the library from the outside.
- `app/` is the command-line tool and the evaluator runtime: argument
  handling, files, the Lua runtime, floating-point arithmetic, and
  diagnostics rendering.
