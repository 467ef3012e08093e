//! Turning the raw `href` values of one page into the list of links it points to:
//! each value is resolved against the page's address, loses its fragment, is
//! filtered by origin, kept once, and the list is optionally sorted and reversed.

pub mod config;
pub mod laws;
pub mod link;
pub mod markup;
pub mod order;
pub mod pipeline;
