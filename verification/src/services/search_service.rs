//! Searching for discs.

use vstd::prelude::*;

use crate::text::{self, str_is_blank};

verus! {

/// A disc that a search found.
#[derive(Debug)]
pub struct SearchResult {
    pub id: i32,
    pub title: String,
    pub system: String,
}

/// Whether a search asks for anything.
pub fn asks_for_anything(query: &str) -> (r: bool)
    ensures
        r == !text::is_blank(query@),
{
    !str_is_blank(query)
}

} // verus!
