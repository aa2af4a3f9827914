//! Verified core of a disc-preservation database.

pub mod clock;
pub mod content_lines;
pub mod error;
pub mod hex_case;
pub mod json;
pub mod json_text;
pub mod models;
pub mod naming;
pub mod numbers;
pub mod order;
pub mod routes;
pub mod services;
pub mod text;
pub mod transliteration;
pub mod unicode;
pub mod xml;
pub mod zip_file;
