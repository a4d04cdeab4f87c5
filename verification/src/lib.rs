//! A bilingual dictionary library: an ordered store of word records
//! (native language and English) with linear lookups, a uniform random
//! pick, and a JSON text format for persistence.

pub mod dictionary;
pub mod json;
pub mod sozluk;
