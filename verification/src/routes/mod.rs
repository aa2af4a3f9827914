//! What the pages show and what their forms decide.

pub mod diff_laws;
pub mod disc_edit;
pub mod highlights;
pub mod mark_laws;
pub mod page_laws;
pub mod queue;
pub mod queue_laws;
pub mod review_diff;
pub mod review_template;
pub mod review_values;
pub mod search;
pub mod submissions;
