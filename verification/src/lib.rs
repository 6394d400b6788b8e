//! A minimal PLONKish arithmetization engine: declare a fixed-shape arithmetic
//! circuit over a prime field, assign a concrete witness to it region by
//! region, and check that the witness satisfies every declared constraint --
//! gate polynomials gated by selectors, copy (equality) constraints between
//! cells, and bindings of cells to externally supplied public inputs.
//!
//! Field arithmetic is delegated to the pasta base field `Fp` of
//! `halo2_proofs`; everything else -- the constraint system, the layouter and
//! witness store, the copy-constraint tracker and the satisfiability checker --
//! is this crate's own, with its behaviour stated in contracts.

pub mod field;
pub mod system;
pub mod layout;
pub mod checker;
pub mod fib_three_col;
pub mod fib_one_col;
