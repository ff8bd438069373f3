# tcrf

An interpreter for TCRF, a small typed language of rules (`R`), flows (`F`),
constants (`C`) and types (`T`), written in Verus. Part of the library's
behaviour is stated in `requires` / `ensures` contracts and proved; the list
below says which.

## Layout

- `src/` — the verified library.
  - `span`, `text`, `text_fmt` — source files, positions, character and
    number text.
  - `lexer`, `token`, `parser`, `ast` — indentation-aware lexing and parsing.
  - `loader` — loading the entry file and the modules it imports, as a state
    machine that asks for files and is handed their text.
  - `resolver`, `types`, `stdsig`, `typecheck` — names, types and the
    signatures of the standard library, then type checking.
  - `value`, `decimal`, `builtins`, `eval` — run-time values, decimals
    (through `rust_decimal`), the standard library and the evaluator.
  - `diagnostics` — error codes and their rendering.
  - `session` — a session's exit code, and which output of a replayed run
    is new.
- `app/` — the command line program: reading files and standard input,
  printing, exit codes.
- `tests/` — tests of the library.

## Some of what is proved

- A source file has one line more than it has line breaks; each line's text
  is given without its line break.
- The lexer's tokens come in source order, within the text, and each word or
  integer token is what the source says at its span; every `Indent` is
  matched by a `Dedent`, but for lines reported as indented to no enclosing
  level (E103), each of which adds one `Dedent`, and no prefix of the tokens
  closes more blocks than it has opened beyond those.
- A usage type `T Name [Inner]`, a constant `C name = literal` or a record
  type `T Name { ... }` of `name Type` lines written as the first
  declaration is parsed back as written, the record's fields in order.
  Within the parser's own steps: a lower-case name is read as that name, and
  as a call of it when a value follows it.
- The loader lists every module once, dependencies first, the entry last; the
  entry unit holds the file as given, under the empty module name, and every
  loaded module has one import target per import.
- A call of a standard library function is accepted exactly when a binding
  of its type variables fits the arguments; that binding is unique.
- Diagnostics are rendered in (file, offset) order in a fixed format.
- The list, sum, range, text and number builtins compute what their
  names say (`requireNotEmpty` hands back the list it was given),
  `std.debug` writes the debug text of its argument and a line break, and a
  builtin handed arguments of the wrong shape fails without writing anything.
- Integer `+`, `-` and `*` never fail: they give the exact result where it
  fits in 64 bits and wrap in two's complement where it does not; `/` and
  `%` truncate toward zero, and fail only on a zero divisor and on the one
  quotient that does not fit.
- Evaluation follows a stated semantics (`local_outcome`, `rule_outcome`,
  `flow_outcome`): literals, local values, module constants, calls of the
  module's rules, constructors, `from`, operators, `at` and `when`. Each
  binding's value becomes a local value, `and` / `or` skip a right side the
  left one decides, `at` counts from 0 and reports an index out of range with
  its place, an error leaving a rule or a flow carries it in its trace, and a
  call nested deeper than the limit fails with an error instead of
  exhausting the stack.
- Running a program first evaluates its constants (an error there ends the
  run), then runs `main` step by step; the text written and the result are
  those of `main`'s flow under that semantics. A run only ever appends to its
  output, and a run that wanted more input never reports success.
- Name resolution reports a missing `main` (E409, at the start of the entry
  file), a constant that refers to itself (E306), a type that contains
  itself (E308), two imports binding one qualifier (E303), and a call, `at`,
  `when` or `match` in a constant (E307).
- The type checker keeps the diagnostics it was handed and reports every
  transition rule `A => B` between types that are not usage types of one
  inner type (E413); of a rule whose body is one call of a rule of its
  module, a call with other than one argument (E401) and a call of a rule
  that can fail from a rule without `! Error` (E410); and of a rule whose
  body is one `match` on its parameter, the constructors it misses (E404).
  Its steps inside a body state more, which `typecheck` itself does not
  lift: the same faults in any call or `match` the checker reaches, a
  literal argument of another type than the rule's input, `match` arms
  whose bodies are literals of different types (E401), and an operator
  applied to literals or local values of builtin types it does not fit
  (E411, exactly then); in a flow, a step of a rule or flow of the module, or
  of a public rule of an imported module, whose input is not the previous
  output, and a constant used as other than the first step (E402).
