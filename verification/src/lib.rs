//! Core rules of the `rpi` coding-agent runtime, verified with Verus.

pub mod discovery;
pub mod elsewhere;
pub mod event_log;
pub mod events;
pub mod export;
pub mod frontmatter;
pub mod git_source;
pub mod input;
pub mod json;
pub mod kill_ring;
pub mod laws;
pub mod listing;
pub mod npm_command;
pub mod npm_process;
pub mod npm_spec;
pub mod package_cli;
pub mod packages;
pub mod paths;
pub mod recovery;
pub mod release;
pub mod release_sequence;
pub mod remote;
pub mod resources;
pub mod runtime_plan;
pub mod search_bar;
pub mod search_depth;
pub mod session_runtime;
pub mod stores;
pub mod terminal;
pub mod text;
pub mod theme;
pub mod update;
pub mod version;
pub mod windows_command;
pub mod windows_spawn;
pub mod word_navigation;
