//! Builders that turn parsed source records into prepared lexicon tables.

pub mod normalize;
pub mod canonical_map;
pub mod multiword_map;
pub mod ranked;
pub mod fst_build;
