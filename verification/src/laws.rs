//! What the operations of the library promise, stated over their inputs and
//! results and apart from how each of them is carried out.

pub mod columns;
pub mod commands;
pub mod documents;
pub mod folders;
pub mod git_sources;
pub mod inventories;
pub mod lanes;
pub mod lines;
pub mod managers;
pub mod merges;
pub mod npm_sources;
pub mod origins;
pub mod plans;
pub mod readings;
pub mod releases;
pub mod requests;
pub mod resolutions;
pub mod selections;
pub mod sequences;
pub mod sessions;
pub mod streams;
pub mod texts;
pub mod themes;
pub mod trials;
pub mod updates;
pub mod versions;
pub mod windows;
pub mod words;
