# functional

Algebraic data types of functional programming, verified with Verus.

- `Maybe`, `Either`, `Validation` and a linked `List`, with their functor,
  applicative, monad, alternative, foldable and traversable operations, and
  the `Semigroup` / `Monoid` traits (`src/algebra.rs`).
- Every operation is specified against a mathematical model: `spec_map`,
  `spec_bind`, `maybe_ap`, ... on the sum types, and sequence functions
  (`seq_bind`, `seq_ap`, `seq_foldr`, ...) in `src/list_model.rs` for lists.
  Operations that take closures state their result relationally
  (`call_ensures` of the closure on each argument it was given) and, for
  closures that compute a mathematical function (`computes`,
  `src/function.rs`), as that model applied to the function.
- A `List` shares its cells through `Arc`: `clone` gives the same list, and
  an operation that takes a list apart moves an element out of a cell that
  nothing else shares and clones it otherwise. The list contracts therefore
  speak of the clones the closures were given, and give the sequence model
  exactly where cloning the element type gives back an equal value
  (`clone_preserves`). Verus shows that of the integer types
  by itself; `Maybe`, `Either` and `Validation` implement `Clone` by
  hand, and their `lemma_clone_preserves` carries it over from the types
  they hold, so lists of them get exact results too. Lists traverse into `Maybe`, `Either`, `Validation`,
  `List` and the identity (`src/list_fold.rs`, `src/list_traverse.rs`).
- The two standard-library calls that vstd leaves unspecified, `Arc::clone`
  and `Arc::try_unwrap`, and the array-to-vector conversion, stand behind
  small trusted wrappers in `src/list.rs`.
- The laws of each instance (functor, applicative, monad, alternative,
  foldable, traversable, conversions) are proof functions in the `*_laws.rs`
  modules; the semigroup and monoid laws are obligations of the traits.
- `app/` holds the I/O action interpreter and the capability contexts, which
  work through trait objects that the verifier does not accept.
