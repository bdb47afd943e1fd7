//! Text handling for a small password-retrieval tool: parsing a line range,
//! cutting lines out of a fetched entry, and preparing the commands and the
//! menu that the tool hands to its helpers.

pub mod lines;
pub mod output;
pub mod range;
pub mod store;
pub mod text;
