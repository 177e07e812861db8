//! Canonical placement of sequence variants.
//!
//! A variant is a half-open interval of a reference sequence together with
//! the alleles that may occupy it. The same variant can be written in many
//! ways; this crate reduces one to a single form chosen by a [`normalize::Mode`]:
//! shared context is trimmed away, and an insertion or deletion inside a
//! repeat is slid to its leftmost or rightmost placement, or widened over
//! every placement.
pub mod digest;
pub mod normalize;
pub mod roll;
pub mod spell;
pub mod trim;
