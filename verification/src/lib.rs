//! A columnar sparse-vector engine.
//!
//! The engine converts dense, variable-length numeric row-vectors stored in a
//! table column into a compact sparse representation (`{dim, indices, values}`,
//! dropping zero entries), and renormalizes sparse-vector columns along the
//! vertical axis with an Lp norm.
//!
//! Numeric scalars travel through the engine as raw 64-bit patterns together
//! with a [`scalar::NumericKind`] tag, so that the row-structural work — zero
//! elimination, null propagation, per-dimension grouping, norm lookup and
//! output assembly — is fully specified and verified over plain integers.
//! The host that owns the real columns converts its scalars to and from bit
//! patterns at the boundary and performs the floating-point folds (raising to
//! the power `p`, closing with the `1/p` root, dividing by the norm) on the
//! grouped data this crate hands back.

pub mod embedding;
pub mod encode;
pub mod error;
pub mod normalize;
pub mod record;
pub mod scalar;
pub mod stem;
