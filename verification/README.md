# silq

A front end and analyses for Silq, the high-level quantum programming
language, written in Verus.  The library's functions carry contracts that
Verus proves; the few calls into `std` and `num-bigint` go through small
trusted wrappers whose contracts say what those calls do.

## Layout

- `src/` — the verified library.
  - `token`, `lexer`: token kinds, keywords, binding powers; the lexer, whose
    every step is specified byte by byte (`lex_step`), and which is proved to
    read a source the same way every time.
  - `ast`, `parser`: the syntax tree, the interner, and the Pratt parser,
    proved to terminate and to consume its input.
  - `scope`, `semantic`, `checker`, `consteval`, `conversion`, `reverse`:
    name resolution, the linearity check, exact constant folding of integers
    and booleans, numeric conversions, and the reverse transformation.
  - `basis`, `qsim`: basis states of the simulator, qubit allocation, the
    function table and the built-in operations.
  - `hqir`, `json`, `errors`, `modules`, `wasm`, `options`: IR text, JSON
    text for diagnostics, diagnostics, the module cache, text entry points,
    options.
  - `bignum`, `text`: arbitrary-precision integers (computed by `num-bigint`)
    and string helpers.
- `app/` — the command-line driver and what computes with floating point:
  the state-vector simulator and its interpreter, floating-point constant
  folding, printing of diagnostics, file access.
- `tests/` — tests of the library.
