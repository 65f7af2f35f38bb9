//! Extraction of URLs from Discord scrapes: the rules that decide which URLs a
//! scrape yields, which of them are new, and how the list of known URLs is
//! stored between runs.

pub mod cli;
pub mod text;
pub mod json;
pub mod pattern;
pub mod collect;
pub mod discord;
pub mod modes;
