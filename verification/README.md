# matchbox

`Deref` patterns in `match` for stable Rust. Inside `matchbox! { match ... }`,
a pattern may hold `mb!(& mut * * PAT)` (the sigil form) or, in the keyword
form, `owned!(PAT)`, `deref!(PAT)`, `derefref!(PAT)`, `mutderef!(PAT)` and
`mutderefref!(PAT)`. Each such pattern is replaced by a fresh identifier
(`a0`, `a1`, ...); the arm gets a guard that dereferences the identifier and
tests `PAT` against the result, and its body destructures it again.

The expansion is verified with Verus:

- `src/token.rs`: a model of token streams (`Tok`, and its value `TokS`), and
  the items through which it meets `proc_macro2`.
- `src/deref.rs`: the prefix grammar of `mb!(...)` and its operators.
- `src/keyword.rs`: the keyword form's operators.
- `src/parsing.rs`: the items through which `syn` parses the input and reports
  errors.
- `src/fold.rs`: the rewrite of a pattern, which takes out the deref macros.
- `src/tower.rs`: the nest of `if let` tests built from the bindings.
- `src/expand.rs`: the rewrite of the arms and of the whole `match`.
- `src/laws.rs`: properties that hold for every input.

`app/` holds the procedural-macro entry points, which hand the compiler's
tokens to the library.
