//! Titles in other scripts, written in Latin letters.

pub mod chinese;
pub mod detect;
pub mod greek;
pub mod japanese;
pub mod output;
pub mod registry;
pub mod russian;
pub mod script_laws;
pub mod spacing;
pub mod width;
