# la

Dense, row-major matrices with verified operations, written in Verus.

A `Matrix<T>` stores its rows one after the other in a `Vec<T>`. Its view is
the sequence of its rows (`Seq<Seq<T>>`), and every operation states its
result over that view, using the model functions of `src/model.rs`.

Layout:

- `src/model.rs`: the mathematical model (transpose, products, minors,
  determinants, selections, ...) and lemmas about reading rows back from a
  row-by-row layout.
- `src/matrix.rs`: the type, its view and well-formedness, access to entries;
  `src/matrix/*.rs`: the operations (rearranging rows and columns, closures,
  transposition in place and out of place, entrywise arithmetic, products,
  traces, determinants, constructors, comparisons, and the operators `-`, `+`,
  `-`, `*` and `|`).
- `src/cycles.rs`: the permutation arithmetic behind transposing in place.
- `src/element.rs`: what the operations need of entries besides the operator
  traits (zero, one, comparison), implemented for the integer types.
- `src/layout.rs`: the text layout of a matrix from its entries' texts.
- `src/random.rs`: random entries, drawn with the `rand` crate.
- `src/laws.rs`: properties relating the operations (transposing twice,
  identity products, transposes of products, ...).
- `app/`: floating-point norms, which the library does not model, and
  printing, which formats the entries and calls `layout`.
