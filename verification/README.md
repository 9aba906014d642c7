# ts_gen

The verified core of a generator of `wasm-bindgen` Rust bindings from
TypeScript `.d.ts` declaration files, written in Verus.

Every function in `src/` carries a `requires`/`ensures` contract over
mathematical models (`Seq`, `Map`, views of the IR types) and is proved
by Verus, except the few small wrappers, marked
`#[verifier::external_body]`, that make a single call into `convert_case`,
`indexmap` or std: their contracts are trusted, and their doc comments
say what each one claims. The laws the library keeps across calls (scope
resolution, name deduplication, the subtyping lattice, the merge of
object-type unions, JSDoc `@throws` extraction) are public proof
functions named `law_*`.

## Layout

- `src/text.rs`: character-level string helpers with their specs.
- `src/naming.rs`: snake/Pascal case (through `convert_case`), enum
  variant names, module idents, name deduplication.
- `src/context.rs`, `src/scope.rs`: the type arena and the lexical scope
  arena; resolution walks parent links, the closest binding wins.
- `src/ir.rs`: the intermediate representation and its TypeScript
  rendering.
- `src/subtyping.rs`: ancestor chains and least upper bounds.
- `src/docs.rs`: JSDoc cleaning, tag conversion and `@throws` parsing.
- `src/types.rs`, `src/members.rs`: conversion of TypeScript type and
  member syntax into the IR, including the child scopes that type
  parameters introduce, the synthesized iterable wrappers, and the
  dispatch of methods, accessors and constructors by kind.
- `src/literal_union.rs`: the structural merge of `{..} | {..}` unions
  (keyed by an `indexmap::IndexMap`) and discriminator detection.
- `src/populate.rs`, `src/ctx.rs`: shared first-pass state and the
  declaration decisions: alias unions of object literals (interface or
  discriminated union), variable declarators (class, function or
  variable), export specifiers (re-export aliases).
- `app/lib.rs`: conversions from the `oxc_ast` syntax tree into the
  library's own syntax model.
- `tests/`: the test suite.
