//! Multiplication of signed integers of any size, three ways: by one call of
//! the underlying big-integer arithmetic, by the schoolbook recursion on
//! halves, and by Karatsuba's recursion. All three are proved to return the
//! exact product in canonical form, so they agree on every pair of operands.
//!
//! - [`bigint`]: the integer type, its invariant and what can be read from it.
//! - [`mult`]: the three multipliers.
//! - [`laws`]: agreement, commutativity, the neutral elements, the sign of a
//!   product, and the bound on recursion depth.
//! - [`digits`], [`bits`], [`split`]: the arithmetic behind the proofs.
//!
//! Sums, differences, products, shifts and masks of big integers are computed
//! by `num_bigint`; the private module `backend` states what is taken on
//! trust about it.

mod backend;
pub mod bigint;
pub mod bits;
pub mod digits;
pub mod laws;
pub mod mult;
pub mod split;

pub use bigint::{to_u64, BigInt, Sign, SMALL};
pub use mult::{katsubo_mult, naive_mult, native_mult};
