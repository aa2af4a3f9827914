//! Japanese titles in Latin letters.

pub mod normalize;
pub mod overrides;
pub mod romaji;
pub mod transliterator;
