# engine

The Engine programming language: a lexer, a parser, the checks of the
interpreter and of the compiler, a generator of Rust source, a generator of
byte code, and the decoding and control flow of the byte-code machine, all
verified with Verus.

The language has definitions (`bool`, `int`, `double`, `char`, `string`,
`var`), assignments (`=`, `+=`, `-=`, `*=`, `/=`, `%=`), `print`, `input()`
and `if` / `else if` / `else`. It has no `for` loops, `continue` or `break`:
neither its syntax tree nor its scopes hold them, so no tool here reads or
writes them.

## Layout

- `src/` — the verified library.
  - `text.rs`, `character.rs`, `source.rs`, `tokens.rs`: text helpers,
    characters read from UTF-8 source and the names of its outputs, and
    tokens.
  - `lexer.rs`: tokens of a program, with their places.
  - `syntax_tree.rs`, `parser.rs`: the syntax tree and the parser (statements,
    `if` statements, expressions by precedence).
  - `environments.rs`, `analyzer.rs`: scopes of variables and the type checks,
    one statement at a time (interpreter) or over a whole tree (compiler).
  - `code_generator.rs`: the Rust program written for a tree.
  - `bytecode.rs`: the byte code written for a tree, and the laws that each
    line is numbered by its place and that the machine reads every line of a
    program back. Temporaries are named `temp_<n>` and variables of the
    program's outermost scope `variable_<name>`; a variable declared inside
    an `if` or `else` body is named `stack<depth>_variable_<name>`, so that it
    never meets a name of an outer scope.
  - `programs.rs`: a parsed tree checked for its parts and its size, then
    analysed, or written as byte code or as Rust, each from a fresh start.
  - `parsed_names.rs`: variable names read from a source hold no colon, so
    the byte code of every program read from a source reads back.
  - `evaluation.rs`: how the interpreter combines the values of an
    operation, and what an `input()` line reads as.
  - `vm/`: decoding of byte-code lines, the literals they carry, the checks
    and messages of each instruction with every value but doubles
    (`rules.rs`), and the machine's jumps.
- `tests/`: tests of the library.
- `app/`: the `engine` command — arguments, files, running `rustc`, and the
  store of values, which holds doubles, with the arithmetic on them.

Each function's contract states its result over spec functions of the same
module.
